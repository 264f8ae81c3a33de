use vstd::prelude::*;

pub mod charclass;
pub mod lexer;
pub mod scan;
pub mod theorems;
pub mod token;

verus! {

} // verus!
