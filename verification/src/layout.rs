//! How large a buffer is, how it grows, and which capacities are too large for any machine.
//!
//! Sizes and addresses are those of one block of memory that starts with a header of two words, the
//! length and the capacity, and goes on with the elements, at the next address that is aligned for
//! them. A capacity is admitted where such a block can exist. The vector itself holds header and
//! elements as two values and leaves the memory of each to `Box` and `Vec`.

use vstd::prelude::*;

verus! {

/// The length and the capacity of a buffer, as they are stored with its elements.
#[derive(Clone, Copy)]
pub struct Header {
    /// The number of elements.
    pub len: usize,
    /// The number of elements for which there is room.
    pub cap: usize,
}

/// The size of a header in bytes: two words.
pub open spec fn header_bytes() -> nat {
    2 * vstd::layout::size_of::<usize>()
}

/// The most bytes of padding that elements of type `T` can need behind a header, which is aligned for
/// a word and may or may not be aligned for more.
pub open spec fn padding_bytes<T>() -> nat {
    if vstd::layout::align_of::<T>() > vstd::layout::align_of::<usize>() {
        (vstd::layout::align_of::<T>() - vstd::layout::align_of::<usize>()) as nat
    } else {
        0
    }
}

/// The most bytes that can stand in front of the first element. An allocation counts that many,
/// whatever its address; how many are used depends on the address, see [`Header::data_address`].
pub open spec fn data_offset<T>() -> nat {
    header_bytes() + padding_bytes::<T>()
}

/// The size in bytes of a buffer with room for `cap` elements of type `T`.
pub open spec fn alloc_bytes<T>(cap: nat) -> nat {
    data_offset::<T>() + vstd::layout::size_of::<T>() * cap
}

/// A buffer with room for `cap` elements can be allocated: no allocation is larger than
/// `isize::MAX` bytes.
pub open spec fn fits<T>(cap: nat) -> bool {
    alloc_bytes::<T>(cap) <= isize::MAX
}

/// The capacity of the buffer that replaces a full one of capacity `cap`: four elements at first,
/// twice as many after that. Elements without a size never need another buffer.
pub open spec fn next_capacity<T>(cap: nat) -> nat {
    if vstd::layout::size_of::<T>() == 0 {
        usize::MAX as nat
    } else if cap == 0 {
        4
    } else {
        2 * cap
    }
}

/// The capacity to which a buffer of capacity `cap` grows, step by step, until it has room for
/// `need` elements.
pub open spec fn grown_capacity<T>(cap: nat, need: nat) -> nat
    decreases
        if need > cap {
            need - cap
        } else {
            0
        },
{
    if need <= cap {
        cap
    } else if vstd::layout::size_of::<T>() == 0 {
        usize::MAX as nat
    } else {
        grown_capacity::<T>(next_capacity::<T>(cap), need)
    }
}

/// A buffer of capacity `cap` can take `need` elements: it has room for them, or it can grow until
/// it has.
pub open spec fn can_hold<T>(cap: nat, need: nat) -> bool {
    need <= cap || (need <= usize::MAX && fits::<T>(grown_capacity::<T>(cap, need)))
}

/// A buffer of capacity `cap` can be replaced by one with room for `need` elements, if it has not
/// room for them already.
pub open spec fn can_reserve<T>(cap: nat, need: nat) -> bool {
    need <= cap || fits::<T>(need)
}

/// The capacity once room has been made, at one go, for `need` elements: that to which the buffer
/// grows step by step, or, where such a buffer would be too large, just the one that is needed.
pub open spec fn reserved_capacity<T>(cap: nat, need: nat) -> nat {
    if need <= cap || fits::<T>(grown_capacity::<T>(cap, need)) {
        grown_capacity::<T>(cap, need)
    } else {
        need
    }
}

impl Header {
    /// The most bytes that can lie between the start of a header and the elements of type `T` behind
    /// it.
    pub fn data_offset<T>() -> (offset: usize)
        ensures
            offset == data_offset::<T>(),
    {
        let header_size: usize = 2 * std::mem::size_of::<usize>();
        let header_align: usize = std::mem::align_of::<usize>();
        let elem_align: usize = std::mem::align_of::<T>();
        proof {
            lemma_padding_is_small::<T>(elem_align);
        }
        if elem_align > header_align {
            header_size + (elem_align - header_align)
        } else {
            header_size
        }
    }

    /// The address of the elements of type `T` behind a header at address `header`: the first one
    /// behind the header that is aligned for them.
    pub fn data_address<T>(header: usize) -> (addr: usize)
        requires
            header as int % vstd::layout::align_of::<usize>() as int == 0,
            header + data_offset::<T>() <= usize::MAX,
        ensures
            addr as int % vstd::layout::align_of::<T>() as int == 0,
            header + header_bytes() <= addr <= header + data_offset::<T>(),
            addr < header + header_bytes() + vstd::layout::align_of::<T>(),
    {
        let elem_align: usize = std::mem::align_of::<T>();
        let end: usize = header + 2 * std::mem::size_of::<usize>();
        proof {
            lemma_padding_is_small::<T>(elem_align);
            lemma_padding_suffices::<T>(header as int, end as int);
        }
        let past: usize = end % elem_align;
        if past == 0 {
            end
        } else {
            let addr: usize = end + (elem_align - past);
            proof {
                vstd::arithmetic::div_mod::lemma_fundamental_div_mod(
                    end as int,
                    elem_align as int,
                );
                let q = end as int / elem_align as int;
                assert(addr == (q + 1) * elem_align) by (nonlinear_arith)
                    requires
                        addr == end + (elem_align - past),
                        end == elem_align * q + past,
                ;
                vstd::arithmetic::div_mod::lemma_mod_multiples_basic(q + 1, elem_align as int);
            }
            addr
        }
    }
}

/// The size in bytes of a buffer with room for `cap` elements of type `T`.
pub fn alloc_size<T>(cap: usize) -> (size: usize)
    requires
        alloc_bytes::<T>(cap as nat) <= usize::MAX,
    ensures
        size == alloc_bytes::<T>(cap as nat),
{
    let elem_size: usize = std::mem::size_of::<T>();
    let data_size: usize = elem_size.checked_mul(cap).expect("capacity overflow");
    data_size.checked_add(Header::data_offset::<T>()).expect("capacity overflow")
}

/// Whether a buffer with room for `cap` elements can be allocated.
fn block_fits<T>(cap: usize) -> (fit: bool)
    ensures
        fit == fits::<T>(cap as nat),
{
    let elem_size: usize = std::mem::size_of::<T>();
    match elem_size.checked_mul(cap) {
        Some(data_size) => match data_size.checked_add(Header::data_offset::<T>()) {
            Some(size) => size <= isize::MAX as usize,
            None => false,
        },
        None => false,
    }
}

/// The capacity of the buffer that replaces one of capacity `cap` to make room for `need` elements.
pub(crate) fn capacity_to_reserve<T>(cap: usize, need: usize) -> (reserved: usize)
    requires
        cap < need,
        fits::<T>(need as nat),
    ensures
        reserved == reserved_capacity::<T>(cap as nat, need as nat),
        reserved >= need,
        fits::<T>(reserved as nat),
{
    if std::mem::size_of::<T>() == 0 {
        return usize::MAX;
    }
    let ghost target = grown_capacity::<T>(cap as nat, need as nat);
    let mut grown: usize = cap;
    while grown < need
        invariant
            vstd::layout::size_of::<T>() != 0,
            cap < need,
            fits::<T>(need as nat),
            target == grown_capacity::<T>(cap as nat, need as nat),
            target == grown_capacity::<T>(grown as nat, need as nat),
        decreases usize::MAX - grown,
    {
        proof {
            lemma_grown_capacity_has_room::<T>(next_capacity::<T>(grown as nat), need as nat);
        }
        if grown == 0 {
            grown = 4;
        } else {
            match grown.checked_mul(2) {
                Some(twice) => {
                    grown = twice;
                },
                None => {
                    proof {
                        if fits::<T>(target) {
                            lemma_fits_bound::<T>(target);
                        }
                    }
                    return need;
                },
            }
        }
    }
    if block_fits::<T>(grown) {
        grown
    } else {
        need
    }
}

/// The capacity of the buffer that replaces a full one of capacity `cap`.
pub(crate) fn larger_capacity<T>(cap: usize) -> (larger: usize)
    requires
        next_capacity::<T>(cap as nat) <= usize::MAX,
    ensures
        larger == next_capacity::<T>(cap as nat),
{
    if std::mem::size_of::<T>() == 0 {
        usize::MAX
    } else if cap == 0 {
        4
    } else {
        cap.checked_mul(2).expect("capacity overflow")
    }
}

/// The offset of the elements is a number of the machine, whatever their alignment.
proof fn lemma_padding_is_small<T>(align: usize)
    requires
        align == vstd::layout::align_of::<T>(),
    ensures
        data_offset::<T>() <= usize::MAX,
        header_bytes() <= 16,
        vstd::layout::align_of::<usize>() > 0,
{
    broadcast use vstd::layout::align_properties, vstd::layout::align_nonzero;

    assert(vstd::arithmetic::power2::is_pow2(align as int));
    reveal_with_fuel(vstd::arithmetic::power2::is_pow2, 6);
    assert(align > 16 ==> align % 16 == 0);
    assert(header_bytes() <= 16);
}

/// Of two powers of two the smaller divides the larger.
proof fn lemma_smaller_power_divides(small: int, large: int)
    requires
        vstd::arithmetic::power2::is_pow2(small),
        vstd::arithmetic::power2::is_pow2(large),
        small <= large,
    ensures
        small > 0,
        large % small == 0,
    decreases small,
{
    reveal(vstd::arithmetic::power2::is_pow2);
    if small > 1 {
        lemma_smaller_power_divides(small / 2, large / 2);
        let (half, q) = (small / 2, (large / 2) / (small / 2));
        vstd::arithmetic::div_mod::lemma_fundamental_div_mod(large / 2, half);
        assert(large == q * small) by (nonlinear_arith)
            requires
                large / 2 == half * q,
                large == 2 * (large / 2),
                small == 2 * half,
        ;
        vstd::arithmetic::div_mod::lemma_mod_multiples_basic(q, small);
    }
}

/// A multiple of a multiple is a multiple.
proof fn lemma_divides_transitive(a: int, b: int, c: int)
    requires
        a > 0,
        b > 0,
        b % a == 0,
        c % b == 0,
    ensures
        c % a == 0,
{
    vstd::arithmetic::div_mod::lemma_fundamental_div_mod(b, a);
    vstd::arithmetic::div_mod::lemma_fundamental_div_mod(c, b);
    let (p, q) = (b / a, c / b);
    assert(c == (p * q) * a) by (nonlinear_arith)
        requires
            b == a * p,
            c == b * q,
    ;
    vstd::arithmetic::div_mod::lemma_mod_multiples_basic(p * q, a);
}

/// From the end of a header it is never further to the next address that is aligned for elements of
/// type `T` than the padding that is counted for them.
proof fn lemma_padding_suffices<T>(header: int, end: int)
    requires
        header % vstd::layout::align_of::<usize>() as int == 0,
        end == header + header_bytes(),
    ensures
        end % vstd::layout::align_of::<T>() as int == 0 || vstd::layout::align_of::<T>() - end
            % vstd::layout::align_of::<T>() as int <= padding_bytes::<T>(),
{
    broadcast use vstd::layout::align_properties, vstd::layout::align_nonzero;

    let word = vstd::layout::size_of::<usize>() as int;
    let header_align = vstd::layout::align_of::<usize>() as int;
    let elem_align = vstd::layout::align_of::<T>() as int;
    assert(end % header_align == 0) by {
        vstd::arithmetic::div_mod::lemma_fundamental_div_mod(header, header_align);
        vstd::arithmetic::div_mod::lemma_fundamental_div_mod(word, header_align);
        let (p, q) = (header / header_align, word / header_align);
        assert(end == (p + 2 * q) * header_align) by (nonlinear_arith)
            requires
                header == header_align * p,
                word == header_align * q,
                end == header + 2 * word,
        ;
        vstd::arithmetic::div_mod::lemma_mod_multiples_basic(p + 2 * q, header_align);
    }
    if elem_align <= header_align {
        lemma_smaller_power_divides(elem_align, header_align);
        lemma_divides_transitive(elem_align, header_align, end);
    } else {
        lemma_smaller_power_divides(header_align, elem_align);
        let past = end % elem_align;
        // What `end` is past the last aligned address is a multiple of the header's alignment, as
        // both addresses are.
        assert(past % header_align == 0) by {
            vstd::arithmetic::div_mod::lemma_fundamental_div_mod(end, elem_align);
            vstd::arithmetic::div_mod::lemma_fundamental_div_mod(end, header_align);
            vstd::arithmetic::div_mod::lemma_fundamental_div_mod(elem_align, header_align);
            let (p, q, r) = (end / elem_align, end / header_align, elem_align / header_align);
            assert(past == (q - r * p) * header_align) by (nonlinear_arith)
                requires
                    end == elem_align * p + past,
                    end == header_align * q,
                    elem_align == header_align * r,
            ;
            vstd::arithmetic::div_mod::lemma_mod_multiples_basic(q - r * p, header_align);
        }
        if 0 < past < header_align {
            vstd::arithmetic::div_mod::lemma_small_mod(past as nat, header_align as nat);
        }
    }
}

/// What fits with a larger capacity fits with a smaller one.
pub proof fn lemma_fits_smaller<T>(small: nat, large: nat)
    requires
        small <= large,
        fits::<T>(large),
    ensures
        fits::<T>(small),
{
    vstd::arithmetic::mul::lemma_mul_inequality(
        small as int,
        large as int,
        vstd::layout::size_of::<T>() as int,
    );
    vstd::arithmetic::mul::lemma_mul_is_commutative(
        small as int,
        vstd::layout::size_of::<T>() as int,
    );
    vstd::arithmetic::mul::lemma_mul_is_commutative(
        large as int,
        vstd::layout::size_of::<T>() as int,
    );
}

/// A capacity that fits is a number of the machine.
pub proof fn lemma_fits_bound<T>(cap: nat)
    requires
        fits::<T>(cap),
        vstd::layout::size_of::<T>() > 0,
    ensures
        cap <= isize::MAX,
{
    let size = vstd::layout::size_of::<T>();
    assert(cap <= size * cap) by (nonlinear_arith)
        requires
            size > 0,
    ;
}

/// A few thousand elements of at most a few thousand bytes each fit on every machine.
pub proof fn lemma_small_fits<T>(cap: nat)
    requires
        cap <= 0x1000,
        vstd::layout::size_of::<T>() <= 0x1000,
        vstd::layout::size_of::<T>() > 0 || vstd::layout::align_of::<T>() <= 0x1000,
    ensures
        fits::<T>(cap),
{
    broadcast use vstd::layout::align_properties, vstd::layout::align_nonzero;

    let size = vstd::layout::size_of::<T>();
    let align = vstd::layout::align_of::<T>();
    assert(align <= 0x1000) by {
        if size > 0 && align > size {
            vstd::arithmetic::div_mod::lemma_small_mod(size, align);
        }
    }
    assert(size * cap <= 0x1000 * 0x1000) by (nonlinear_arith)
        requires
            size <= 0x1000,
            cap <= 0x1000,
    ;
    assert(header_bytes() <= 16);
}

/// Growing never makes a buffer smaller, and goes on until the elements have room.
pub proof fn lemma_grown_capacity_has_room<T>(cap: nat, need: nat)
    requires
        need <= usize::MAX,
    ensures
        need <= grown_capacity::<T>(cap, need),
        cap <= grown_capacity::<T>(cap, need),
    decreases
        if need > cap {
            need - cap
        } else {
            0
        },
{
    if need > cap && vstd::layout::size_of::<T>() != 0 {
        lemma_grown_capacity_has_room::<T>(next_capacity::<T>(cap), need);
    }
}

/// Growing for `first` elements and then for `second` is growing for `second` at once.
pub proof fn lemma_grown_capacity_in_steps<T>(cap: nat, first: nat, second: nat)
    requires
        first <= second <= usize::MAX,
    ensures
        grown_capacity::<T>(grown_capacity::<T>(cap, first), second) == grown_capacity::<T>(
            cap,
            second,
        ),
    decreases
        if first > cap {
            first - cap
        } else {
            0
        },
{
    if first > cap && vstd::layout::size_of::<T>() != 0 {
        lemma_grown_capacity_in_steps::<T>(next_capacity::<T>(cap), first, second);
    }
}

/// More elements never call for a smaller buffer.
pub proof fn lemma_grown_capacity_monotonic<T>(cap: nat, first: nat, second: nat)
    requires
        first <= second <= usize::MAX,
    ensures
        grown_capacity::<T>(cap, first) <= grown_capacity::<T>(cap, second),
{
    lemma_grown_capacity_in_steps::<T>(cap, first, second);
    lemma_grown_capacity_has_room::<T>(grown_capacity::<T>(cap, first), second);
}

} // verus!
