use vstd::prelude::*;

pub mod asciidoc;
pub mod benchmark;
pub mod isqrt;
pub mod markup;
pub mod options;
pub mod relative_speed;
pub mod result;
pub mod scheduler;
pub mod wide;

verus! {

} // verus!
