use vstd::prelude::*;

pub mod analyzer;
pub mod diagnostics;
pub mod index;
pub mod store;
pub mod symbols;
pub mod syntax;

verus! {

} // verus!
