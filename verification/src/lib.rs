use vstd::prelude::*;

pub mod hidden;
pub mod modes;
pub mod resolve;

verus! {

/// What a listing run was asked to do: which paths to list, whether a long
/// listing was requested, and whether hidden entries are shown.
#[derive(Debug)]
pub struct Config {
    pub paths: Vec<String>,
    pub long: bool,
    pub hidden: bool,
}

} // verus!
