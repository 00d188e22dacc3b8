//! Access-rights masks.

use vstd::prelude::*;

verus! {

/// The rights a reference grants over its slot.
#[derive(Clone, Copy, Debug, PartialEq, Eq, Structural)]
pub struct AccessRights {
    pub read: bool,
    pub write: bool,
    /// The right to merge a value into the slot in place.
    pub add: bool,
}

impl AccessRights {
    /// Every right of `self` is also a right of `other`.
    pub open spec fn subset_of(self, other: AccessRights) -> bool {
        &&& self.read ==> other.read
        &&& self.write ==> other.write
        &&& self.add ==> other.add
    }

    /// The mask as a number: bit 0 read, bit 1 write, bit 2 add.
    pub open spec fn mask(self) -> int {
        (if self.read { 1int } else { 0 }) + (if self.write { 2int } else { 0 }) + (if self.add { 4int } else { 0 })
    }

    /// The rights that a mask below 8 stands for.
    pub open spec fn of_mask(m: int) -> AccessRights {
        AccessRights { read: m % 2 == 1, write: (m / 2) % 2 == 1, add: (m / 4) % 2 == 1 }
    }

    pub fn new(read: bool, write: bool, add: bool) -> (r: AccessRights)
        ensures
            r == (AccessRights { read, write, add }),
    {
        AccessRights { read, write, add }
    }

    /// Read, write and add.
    pub fn full() -> (r: AccessRights)
        ensures
            r == (AccessRights { read: true, write: true, add: true }),
    {
        AccessRights { read: true, write: true, add: true }
    }

    /// No right at all.
    pub fn none() -> (r: AccessRights)
        ensures
            r == (AccessRights { read: false, write: false, add: false }),
    {
        AccessRights { read: false, write: false, add: false }
    }

    pub fn is_subset_of(&self, other: &AccessRights) -> (b: bool)
        ensures
            b == self.subset_of(*other),
    {
        (!self.read || other.read) && (!self.write || other.write) && (!self.add || other.add)
    }

    pub fn to_mask(&self) -> (m: u8)
        ensures
            m == self.mask(),
            m < 8,
            AccessRights::of_mask(m as int) == *self,
    {
        let r: u8 = if self.read { 1 } else { 0 };
        let w: u8 = if self.write { 2 } else { 0 };
        let a: u8 = if self.add { 4 } else { 0 };
        r + w + a
    }

    /// The rights of a mask; `None` for a number that is no mask.
    pub fn from_mask(m: u8) -> (r: Option<AccessRights>)
        ensures
            m < 8 ==> r == Some(AccessRights::of_mask(m as int)) && r.unwrap().mask() == m,
            m >= 8 ==> r.is_none(),
    {
        if m >= 8 {
            None
        } else {
            Some(AccessRights { read: m % 2 == 1, write: (m / 2) % 2 == 1, add: (m / 4) % 2 == 1 })
        }
    }
}

/// A subset of a subset is a subset.
pub proof fn lemma_subset_transitive(a: AccessRights, b: AccessRights, c: AccessRights)
    requires
        a.subset_of(b),
        b.subset_of(c),
    ensures
        a.subset_of(c),
{
}

} // verus!
