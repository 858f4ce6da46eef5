//! A vector that is one pointer wide: its length and its capacity are kept, with the elements, in
//! what the pointer leads to.
#![allow(unused_imports)]

pub mod call_laws;
pub mod compare;
pub mod convert;
pub mod dedup;
mod departures;
pub mod grow;
pub mod iter;
pub mod laws;
pub mod layout;
mod predicate;
pub mod retain;
pub mod slices;
pub mod thin_vec;

pub use iter::{Drain, IntoIter};
pub use layout::{alloc_size, Header};
pub use thin_vec::ThinVec;
