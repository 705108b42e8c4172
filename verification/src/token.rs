//! Tokens: small integers that identify a slot in the event loop's slabs.
//! The token space is partitioned into a listener range, a client range and
//! a backend range; the partition itself lives with the connection table.

use vstd::prelude::*;

verus! {

#[derive(PartialEq, Eq, Structural, Clone, Copy, Debug, Hash)]
pub struct Token(pub usize);

impl Token {
    pub fn as_usize(&self) -> (r: usize)
        ensures
            r == self.0,
    {
        self.0
    }
}

} // verus!
