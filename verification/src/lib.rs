use vstd::prelude::*;

pub mod http;
pub mod ids;
pub mod json;
pub mod org;
pub mod parse;
pub mod platform;
pub mod table;
pub mod text;
pub mod number_laws;
pub mod text_laws;

verus! {

} // verus!
