//! The global state store: slots of values, reached through references.

use vstd::prelude::*;
use crate::error::ErrorKind;
use crate::reference::Reference;
use crate::rights::AccessRights;
use crate::value::{TypeTag, Value, ValueView};

verus! {

/// The sum of two integers in 32 bits, wrapping round at the ends.
pub open spec fn wrapping_sum(a: i32, b: i32) -> i32 {
    if a + b > i32::MAX {
        (a + b - 4294967296) as i32
    } else if a + b < i32::MIN {
        (a + b + 4294967296) as i32
    } else {
        (a + b) as i32
    }
}

/// The value is an integer that can be merged.
pub open spec fn mergeable(v: ValueView) -> bool {
    v.tag == TypeTag::Int && v.payload.len() == 4
}

/// What a read through a reference to `address` with `rights` yields.
pub open spec fn read_outcome(slots: Seq<ValueView>, address: u64, rights: AccessRights) -> Result<
    ValueView,
    ErrorKind,
> {
    if !rights.read {
        Err(ErrorKind::PermissionDenied)
    } else if address >= slots.len() {
        Err(ErrorKind::ValueNotFound)
    } else {
        Ok(slots[address as int])
    }
}

/// The slots after a write of `v` through a reference to `address` with `rights`.
pub open spec fn write_outcome(
    slots: Seq<ValueView>,
    address: u64,
    rights: AccessRights,
    v: ValueView,
) -> Result<Seq<ValueView>, ErrorKind> {
    if !rights.write {
        Err(ErrorKind::PermissionDenied)
    } else if address >= slots.len() {
        Err(ErrorKind::ValueNotFound)
    } else {
        Ok(slots.update(address as int, v))
    }
}

/// The slots after `v` was merged into the slot at `address` through a
/// reference with `rights`: integers are added.
pub open spec fn add_outcome(
    slots: Seq<ValueView>,
    address: u64,
    rights: AccessRights,
    v: ValueView,
) -> Result<Seq<ValueView>, ErrorKind> {
    if !rights.add {
        Err(ErrorKind::PermissionDenied)
    } else if address >= slots.len() {
        Err(ErrorKind::ValueNotFound)
    } else if !mergeable(slots[address as int]) || !mergeable(v) {
        Err(ErrorKind::TypeMismatch)
    } else {
        Ok(
            slots.update(
                address as int,
                ValueView::of_int(wrapping_sum(slots[address as int].int_value(), v.int_value())),
            ),
        )
    }
}

/// The store. A slot comes into being when a reference to it is minted,
/// and its address is its place in the order of minting.
pub struct Store {
    slots: Vec<Value>,
}

impl View for Store {
    type V = Seq<ValueView>;

    closed spec fn view(&self) -> Seq<ValueView> {
        self.slots@.map_values(|v: Value| v@)
    }
}

impl Store {
    /// A store without slots.
    pub fn new() -> (s: Store)
        ensures
            s@ == Seq::<ValueView>::empty(),
    {
        let s = Store { slots: Vec::new() };
        assert(s@ =~= Seq::<ValueView>::empty());
        s
    }

    /// The number of slots.
    pub fn len(&self) -> (n: usize)
        ensures
            n == self@.len(),
    {
        self.slots.len()
    }

    /// Makes a new slot that holds `initial`, and returns the reference
    /// to it, with every right.
    pub fn mint(&mut self, initial: Value) -> (r: Reference)
        ensures
            final(self)@ == old(self)@.push(initial@),
            r == Reference::of(
                old(self)@.len() as u64,
                (AccessRights { read: true, write: true, add: true }),
            ),
            r.address() == old(self)@.len(),
            r.granted() == (AccessRights { read: true, write: true, add: true }),
    {
        let addr = self.slots.len() as u64;
        self.slots.push(initial);
        assert(self@ =~= old(self)@.push(initial@));
        Reference::assemble(addr, AccessRights::full())
    }

    /// A copy of the value in the slot of `r`. Needs the read right
    /// (`PermissionDenied`) and a slot that was written (`ValueNotFound`).
    pub fn read(&self, r: &Reference) -> (res: Result<Value, ErrorKind>)
        ensures
            read_outcome(self@, r.address(), r.granted()) matches Ok(v) ==> res.is_ok()
                && res.unwrap()@ == v,
            read_outcome(self@, r.address(), r.granted()) matches Err(e) ==> res == Err::<
                Value,
                ErrorKind,
            >(e),
    {
        if !r.rights().read {
            return Err(ErrorKind::PermissionDenied);
        }
        let addr = r.slot();
        if addr >= self.slots.len() as u64 {
            return Err(ErrorKind::ValueNotFound);
        }
        Ok(self.slots[addr as usize].duplicate())
    }

    /// Puts `v` into the slot of `r`. Needs the write right
    /// (`PermissionDenied`) and a slot that exists (`ValueNotFound`); on
    /// an error the store stays as it is.
    pub fn write(&mut self, r: &Reference, v: Value) -> (res: Result<(), ErrorKind>)
        ensures
            write_outcome(old(self)@, r.address(), r.granted(), v@) matches Ok(s) ==> res.is_ok()
                && final(self)@ == s,
            write_outcome(old(self)@, r.address(), r.granted(), v@) matches Err(e) ==> res == Err::<
                (),
                ErrorKind,
            >(e) && final(self)@ == old(self)@,
    {
        if !r.rights().write {
            return Err(ErrorKind::PermissionDenied);
        }
        let addr = r.slot();
        if addr >= self.slots.len() as u64 {
            return Err(ErrorKind::ValueNotFound);
        }
        self.slots.set(addr as usize, v);
        assert(self@ =~= old(self)@.update(addr as int, v@));
        Ok(())
    }

    /// Merges `v` into the slot of `r`: the slot then holds the sum of
    /// the two integers, wrapping round in 32 bits. Needs the add right
    /// (`PermissionDenied`), a slot that exists (`ValueNotFound`) and two
    /// integers (`TypeMismatch`); on an error the store stays as it is.
    pub fn add(&mut self, r: &Reference, v: &Value) -> (res: Result<(), ErrorKind>)
        ensures
            add_outcome(old(self)@, r.address(), r.granted(), v@) matches Ok(s) ==> res.is_ok()
                && final(self)@ == s,
            add_outcome(old(self)@, r.address(), r.granted(), v@) matches Err(e) ==> res == Err::<
                (),
                ErrorKind,
            >(e) && final(self)@ == old(self)@,
    {
        if !r.rights().add {
            return Err(ErrorKind::PermissionDenied);
        }
        let addr = r.slot();
        if addr >= self.slots.len() as u64 {
            return Err(ErrorKind::ValueNotFound);
        }
        let held = match self.slots[addr as usize].as_int() {
            Ok(n) => n,
            Err(_) => {
                return Err(ErrorKind::TypeMismatch);
            },
        };
        let more = match v.as_int() {
            Ok(n) => n,
            Err(_) => {
                return Err(ErrorKind::TypeMismatch);
            },
        };
        let wide: i64 = held as i64 + more as i64;
        let sum: i32 = if wide > 2147483647 {
            (wide - 4294967296) as i32
        } else if wide < -2147483648 {
            (wide + 4294967296) as i32
        } else {
            wide as i32
        };
        self.slots.set(addr as usize, Value::from_int(sum));
        assert(self@ =~= old(self)@.update(addr as int, ValueView::of_int(sum)));
        Ok(())
    }
}

/// A read right after a write, through a reference that may read and
/// write, returns what was written; every other slot holds what it held.
pub proof fn lemma_read_after_write(
    slots: Seq<ValueView>,
    address: u64,
    rights: AccessRights,
    v: ValueView,
    other: u64,
)
    requires
        rights.read,
        rights.write,
        address < slots.len(),
    ensures
        write_outcome(slots, address, rights, v).is_ok(),
        read_outcome(write_outcome(slots, address, rights, v).unwrap(), address, rights) == Ok::<
            ValueView,
            ErrorKind,
        >(v),
        other != address ==> read_outcome(
            write_outcome(slots, address, rights, v).unwrap(),
            other,
            rights,
        ) == read_outcome(slots, other, rights),
{
}

/// After `x` was added to a slot that holds the integer `n`, a read
/// returns their sum in 32 bits, which is `n + x` wherever that fits.
pub proof fn lemma_read_after_add(
    slots: Seq<ValueView>,
    address: u64,
    rights: AccessRights,
    n: i32,
    x: i32,
)
    requires
        rights.read,
        rights.add,
        address < slots.len(),
        slots[address as int] == ValueView::of_int(n),
    ensures
        add_outcome(slots, address, rights, ValueView::of_int(x)).is_ok(),
        read_outcome(
            add_outcome(slots, address, rights, ValueView::of_int(x)).unwrap(),
            address,
            rights,
        ) == Ok::<ValueView, ErrorKind>(ValueView::of_int(wrapping_sum(n, x))),
        i32::MIN <= n + x <= i32::MAX ==> wrapping_sum(n, x) == n + x,
{
    crate::bytes::lemma_u32_round_trip(crate::bytes::word_of_int(n));
    crate::bytes::lemma_u32_round_trip(crate::bytes::word_of_int(x));
    crate::bytes::lemma_word_round_trip(n, 0);
    crate::bytes::lemma_word_round_trip(x, 0);
}

/// Adding to a slot that holds no integer, or adding a value that is
/// none, fails with `TypeMismatch`.
pub proof fn lemma_add_type_mismatch(
    slots: Seq<ValueView>,
    address: u64,
    rights: AccessRights,
    v: ValueView,
)
    requires
        rights.add,
        address < slots.len(),
        !mergeable(slots[address as int]) || !mergeable(v),
    ensures
        add_outcome(slots, address, rights, v) == Err::<Seq<ValueView>, ErrorKind>(
            ErrorKind::TypeMismatch,
        ),
{
}

} // verus!
