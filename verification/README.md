# thin_vec

A vector that is one pointer wide. It keeps its length and its capacity, with the elements, in what
it allocates, so that a vector without a buffer costs one word. A test shows the width; it is not
proved. An `Option` of a vector takes two words.

`src/` is verified with Verus, but for two functions whose bodies only call the standard library and
whose contracts are trusted: `hash_slice` in `compare` and `iter_mut` in `iter`, with the type
`std::slice::IterMut` that it returns. The contracts speak of a vector as the sequence of its
elements (`vec@`) and of its capacity.

- `layout`: sizes and addresses of header and elements as one block of memory, and how capacities
  grow
- `thin_vec`: the vector, its invariant, and the operations on single elements and on tails
- `grow`: changing the capacity, and taking many elements at once
- `retain`, `dedup`: keeping some of the elements
- `compare`: equality, order, hashing
- `convert`: a vector where a slice is wanted
- `iter`: going through the elements
- `slices`: exchanging two elements of a slice
- `laws`: what holds of the operations together

`app/` holds a macro that writes a vector out, the `Debug` text of one, and a small demonstration.
