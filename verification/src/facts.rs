//! Sizes that were measured on disk.
use vstd::prelude::*;
use vstd::string::*;

use crate::text::same;

verus! {

/// The bytes that were found at a path.
#[derive(Debug, PartialEq, Eq)]
pub struct Measured {
    pub path: String,
    pub bytes: u64,
}

/// The bytes that were found at `path`, from the `i`-th measurement on; nothing where it was
/// not measured.
pub open spec fn measured_from(list: Seq<Measured>, path: Seq<char>, i: int) -> u64
    decreases list.len() - i,
{
    if i < 0 || i >= list.len() {
        0
    } else if list[i].path@ == path {
        list[i].bytes
    } else {
        measured_from(list, path, i + 1)
    }
}

/// The bytes that were found at `path`.
pub open spec fn measured(list: Seq<Measured>, path: Seq<char>) -> u64 {
    measured_from(list, path, 0)
}

pub fn bytes_at(list: &Vec<Measured>, path: &str) -> (r: u64)
    ensures
        r == measured(list@, path@),
{
    let mut i: usize = 0;
    while i < list.len()
        invariant
            i <= list@.len(),
            measured(list@, path@) == measured_from(list@, path@, i as int),
        decreases list.len() - i,
    {
        if same(list[i].path.as_str(), path) {
            return list[i].bytes;
        }
        i = i + 1;
    }
    0
}

} // verus!
