//! Where and why a reader gave up, as a mathematical value.

use vstd::prelude::*;

verus! {

/// What broke, and the byte offset at which it broke.
pub struct Fault<K> {
    pub offset: int,
    pub kind: K,
}

impl<K> Fault<K> {
    /// The same fault, with its offset counted from `base` bytes earlier.
    pub open spec fn shifted(self, base: int) -> Fault<K> {
        Fault { offset: base + self.offset, kind: self.kind }
    }
}

} // verus!
