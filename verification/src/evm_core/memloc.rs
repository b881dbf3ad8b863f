//! Memory location operations

use vstd::prelude::*;
use crate::evm_core::types::Exp;

verus! {

/// A memory range
#[derive(Debug)]
pub struct MemRange {
    pub pos: Exp,
    pub size: Exp,
}

impl Clone for MemRange {
    fn clone(&self) -> (r: Self)
        ensures
            r.pos@ == self.pos@,
            r.size@ == self.size@,
    {
        MemRange { pos: self.pos.clone(), size: self.size.clone() }
    }
}

impl MemRange {
    pub fn new(pos: Exp, size: Exp) -> (r: Self)
        ensures
            r.pos == pos,
            r.size == size,
    {
        Self { pos, size }
    }
}

} // verus!
