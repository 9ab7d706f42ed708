use vstd::prelude::*;

pub mod types;
pub mod text;
pub mod subst;
pub mod union_find;
pub mod entries;
pub mod local_types;
pub mod env;
pub mod type_matcher;
pub mod match_spec;
pub mod display;
pub mod laws;

verus! {
} // verus!
