use vstd::prelude::*;

pub mod commands;
pub mod domain;
pub mod embedding;
pub mod error;
pub mod excel;
pub mod mapping;
pub mod paths;
pub mod seqs;
pub mod text;

verus! {

} // verus!
