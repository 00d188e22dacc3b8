//! References: unforgeable handles to storage slots.

use vstd::prelude::*;
use crate::error::ErrorKind;
use crate::rights::AccessRights;

verus! {

/// A handle to one storage slot, with the rights it grants. Its fields
/// are closed: a value is minted by the store, weakened by
/// [`Reference::attenuate`], or received as an argument, a return value
/// or a named key.
#[derive(Clone, Copy, Debug, PartialEq, Eq, Structural)]
pub struct Reference {
    addr: u64,
    rights: AccessRights,
}

impl Reference {
    /// The address of the slot.
    pub closed spec fn address(self) -> u64 {
        self.addr
    }

    /// The rights that the reference grants.
    pub closed spec fn granted(self) -> AccessRights {
        self.rights
    }

    /// The reference to `address` that grants `rights`. This names a
    /// reference in contracts; no executable code can call it.
    pub closed spec fn of(address: u64, rights: AccessRights) -> Reference {
        Reference { addr: address, rights }
    }

    /// `of` builds the reference with that address and those rights.
    pub proof fn lemma_of(address: u64, rights: AccessRights)
        ensures
            Reference::of(address, rights).address() == address,
            Reference::of(address, rights).granted() == rights,
    {
    }

    /// Two references with one address and one mask are the same reference.
    pub proof fn lemma_same(self, other: Reference)
        requires
            self.address() == other.address(),
            self.granted() == other.granted(),
        ensures
            self == other,
    {
    }

    pub(crate) fn assemble(addr: u64, rights: AccessRights) -> (r: Reference)
        ensures
            r == Reference::of(addr, rights),
            r.address() == addr,
            r.granted() == rights,
    {
        Reference { addr, rights }
    }

    pub(crate) fn slot(&self) -> (a: u64)
        ensures
            a == self.address(),
    {
        self.addr
    }

    /// The rights that the reference grants.
    pub fn rights(&self) -> (r: AccessRights)
        ensures
            r == self.granted(),
    {
        self.rights
    }

    /// A copy that grants `rights` over the same slot, where `rights` is
    /// a subset of what `self` grants; otherwise `InvalidRights`.
    pub fn attenuate(&self, rights: AccessRights) -> (res: Result<Reference, ErrorKind>)
        ensures
            rights.subset_of(self.granted()) ==> res.is_ok() && res.unwrap().address()
                == self.address() && res.unwrap().granted() == rights,
            !rights.subset_of(self.granted()) ==> res == Err::<Reference, ErrorKind>(
                ErrorKind::InvalidRights,
            ),
    {
        if rights.is_subset_of(&self.rights) {
            Ok(Reference { addr: self.addr, rights })
        } else {
            Err(ErrorKind::InvalidRights)
        }
    }
}

/// Attenuation never amplifies: whatever two steps of attenuation yield
/// grants no more than the reference they started from.
pub proof fn lemma_attenuate_never_amplifies(r: Reference, s: Reference, t: Reference)
    requires
        s.address() == r.address() && s.granted().subset_of(r.granted()),
        t.address() == s.address() && t.granted().subset_of(s.granted()),
    ensures
        t.address() == r.address(),
        t.granted().subset_of(r.granted()),
{
}

} // verus!
