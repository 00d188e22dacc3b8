//! The contract registry: code with the names it was registered with.

use vstd::prelude::*;
use vstd::string::StringExecFns;
use crate::error::ErrorKind;
use crate::names::{NamedKeyMap, Target};
use crate::value::ContractId;

verus! {

/// The code of a contract: which entry point it runs.
#[derive(Clone, Copy, Debug, PartialEq, Eq, Structural)]
pub enum Program {
    /// A counter behind the name `count`, with the methods `inc` and `get`.
    CounterExt,
    /// A mailing list that keeps the feed of its latest subscriber
    /// behind the name `subscriber`, with the methods `sub` and `pub`.
    MailingList,
    /// A client of the mailing list that the name `list` stands for: it
    /// subscribes, publishes a greeting, and returns its feed.
    ListClient,
}

impl Program {
    /// The code that an entry point's name stands for.
    pub open spec fn named(name: Seq<char>) -> Option<Program> {
        if name == "counter_ext"@ {
            Some(Program::CounterExt)
        } else if name == "mailing_list_ext"@ {
            Some(Program::MailingList)
        } else if name == "list_client"@ {
            Some(Program::ListClient)
        } else {
            None
        }
    }

    /// The code that an entry point's name stands for; `None` for a
    /// name that is no entry point.
    pub fn from_name(name: &str) -> (code: Option<Program>)
        ensures
            code == Program::named(name@),
    {
        let name = String::from_str(name);
        if name == String::from_str("counter_ext") {
            Some(Program::CounterExt)
        } else if name == String::from_str("mailing_list_ext") {
            Some(Program::MailingList)
        } else if name == String::from_str("list_client") {
            Some(Program::ListClient)
        } else {
            None
        }
    }
}

/// What a record is: the code and the names captured with it.
pub struct RecordView {
    pub code: Program,
    pub names: Map<Seq<char>, Target>,
}

/// A registered contract.
#[derive(Debug)]
pub struct ContractRecord {
    pub code: Program,
    pub names: NamedKeyMap,
}

impl View for ContractRecord {
    type V = RecordView;

    open spec fn view(&self) -> RecordView {
        RecordView { code: self.code, names: self.names@ }
    }
}

/// `i` is the first place at which `records` holds `r`.
pub open spec fn first_at(records: Seq<RecordView>, r: RecordView, i: int) -> bool {
    &&& 0 <= i < records.len()
    &&& records[i] == r
    &&& forall|j: int| 0 <= j < i ==> records[j] != r
}

/// The registry after `r` was registered, and the identity's index: a
/// record that is there already keeps its place, a new one goes to the end.
pub open spec fn register_outcome(records: Seq<RecordView>, r: RecordView) -> (
    Seq<RecordView>,
    int,
) {
    if records.contains(r) {
        (records, choose|i: int| first_at(records, r, i))
    } else {
        (records.push(r), records.len() as int)
    }
}

/// The record under an identity.
pub open spec fn lookup_outcome(records: Seq<RecordView>, id: ContractId) -> Result<
    RecordView,
    ErrorKind,
> {
    if id.index < records.len() {
        Ok(records[id.index as int])
    } else {
        Err(ErrorKind::ContractNotFound)
    }
}

/// A record has at most one first place.
pub proof fn lemma_first_unique(records: Seq<RecordView>, r: RecordView, i: int, j: int)
    requires
        first_at(records, r, i),
        first_at(records, r, j),
    ensures
        i == j,
{
}

/// Registering is idempotent: the same code with the same names gets
/// the same identity a second time, the registry is not changed by the
/// second registration, and a lookup returns the record after either.
pub proof fn lemma_register_twice(records: Seq<RecordView>, r: RecordView)
    requires
        records.len() < u64::MAX,
    ensures
        ({
            let (once, first) = register_outcome(records, r);
            let (twice, second) = register_outcome(once, r);
            &&& twice == once
            &&& second == first
            &&& 0 <= first <= u64::MAX
            &&& lookup_outcome(once, ContractId { index: first as u64 }) == Ok::<
                RecordView,
                ErrorKind,
            >(r)
            &&& lookup_outcome(twice, ContractId { index: second as u64 }) == Ok::<
                RecordView,
                ErrorKind,
            >(r)
        }),
{
    let (once, first) = register_outcome(records, r);
    lemma_registered(records, r);
    assert(once.contains(r));
    let (twice, second) = register_outcome(once, r);
    lemma_registered(once, r);
    lemma_first_unique(once, r, first, second);
}

/// The index that registering returns is the record's first place in
/// the registry that registering leaves.
pub proof fn lemma_registered(records: Seq<RecordView>, r: RecordView)
    ensures
        first_at(register_outcome(records, r).0, r, register_outcome(records, r).1),
{
    if records.contains(r) {
        lemma_has_first(records, r, records.len() as int);
    } else {
        let s = records.push(r);
        assert forall|j: int| 0 <= j < records.len() implies s[j] != r by {
            assert(s[j] == records[j]);
            if records[j] == r {
                assert(records.contains(r));
            }
        }
    }
}

/// A record that occurs before `n` has a first place.
proof fn lemma_has_first(records: Seq<RecordView>, r: RecordView, n: int)
    requires
        0 <= n <= records.len(),
        exists|i: int| 0 <= i < n && records[i] == r,
    ensures
        exists|i: int| first_at(records, r, i),
    decreases n,
{
    if exists|i: int| 0 <= i < n - 1 && records[i] == r {
        lemma_has_first(records, r, n - 1);
    } else {
        assert(records[n - 1] == r);
        assert(first_at(records, r, n - 1));
    }
}

/// The registry. An identity is the place of its record.
pub struct Registry {
    records: Vec<ContractRecord>,
}

impl View for Registry {
    type V = Seq<RecordView>;

    closed spec fn view(&self) -> Seq<RecordView> {
        self.records@.map_values(|r: ContractRecord| r@)
    }
}

impl Registry {
    /// The names of every record are well formed.
    pub closed spec fn well_formed(&self) -> bool {
        forall|i: int| 0 <= i < self.records@.len() ==> (#[trigger] self.records@[i]).names.well_formed()
    }

    /// A registry without records.
    pub fn new() -> (r: Registry)
        ensures
            r.well_formed(),
            r@ == Seq::<RecordView>::empty(),
    {
        let r = Registry { records: Vec::new() };
        assert(r@ =~= Seq::<RecordView>::empty());
        r
    }

    /// The number of records.
    pub fn len(&self) -> (n: usize)
        ensures
            n == self@.len(),
    {
        self.records.len()
    }

    /// Stores `code` with `names` and returns the identity. The same
    /// code with the same names is stored once: a second registration
    /// returns the first one's identity and changes nothing.
    pub fn register(&mut self, code: Program, names: NamedKeyMap) -> (id: ContractId)
        requires
            old(self).well_formed(),
            names.well_formed(),
        ensures
            final(self).well_formed(),
            (final(self)@, id.index as int) == register_outcome(
                old(self)@,
                (RecordView { code, names: names@ }),
            ),
    {
        let ghost r = RecordView { code, names: names@ };
        let mut i: usize = 0;
        while i < self.records.len()
            invariant
                i <= self.records@.len(),
                self.well_formed(),
                names.well_formed(),
                self@ == old(self)@,
                r == (RecordView { code, names: names@ }),
                forall|j: int| 0 <= j < i ==> self@[j] != r,
            decreases self.records@.len() - i,
        {
            let same = self.records[i].code == code && self.records[i].names.same_as(&names);
            if same {
                proof {
                    assert(self@[i as int] == r);
                    assert(self@.contains(r));
                    assert(first_at(self@, r, i as int));
                    lemma_registered(self@, r);
                    lemma_first_unique(self@, r, i as int, register_outcome(self@, r).1);
                }
                return ContractId { index: i as u64 };
            }
            i += 1;
        }
        proof {
            if self@.contains(r) {
                let k = choose|k: int| 0 <= k < self@.len() && self@[k] == r;
                assert(self@[k] != r);
            }
        }
        let index = self.records.len() as u64;
        self.records.push(ContractRecord { code, names });
        assert(self@ =~= old(self)@.push(r));
        ContractId { index }
    }

    /// Stores the entry point named `entry_point` with `names`, as
    /// [`Registry::register`] does; `UnknownEntryPoint` for a name that
    /// is no entry point, with the registry as it was.
    pub fn store_function(&mut self, entry_point: &str, names: NamedKeyMap) -> (res: Result<
        ContractId,
        ErrorKind,
    >)
        requires
            old(self).well_formed(),
            names.well_formed(),
        ensures
            final(self).well_formed(),
            Program::named(entry_point@) matches Some(code) ==> res.is_ok() && (
                final(self)@,
                res.unwrap().index as int,
            ) == register_outcome(old(self)@, (RecordView { code, names: names@ })),
            Program::named(entry_point@).is_none() ==> res == Err::<ContractId, ErrorKind>(
                ErrorKind::UnknownEntryPoint,
            ) && final(self)@ == old(self)@,
    {
        match Program::from_name(entry_point) {
            Some(code) => Ok(self.register(code, names)),
            None => Err(ErrorKind::UnknownEntryPoint),
        }
    }

    /// A copy of the record under `id`; `ContractNotFound` where nothing
    /// is registered under it.
    pub fn lookup(&self, id: ContractId) -> (res: Result<ContractRecord, ErrorKind>)
        requires
            self.well_formed(),
        ensures
            lookup_outcome(self@, id) matches Ok(r) ==> res.is_ok() && res.unwrap()@ == r
                && res.unwrap().names.well_formed(),
            lookup_outcome(self@, id) matches Err(e) ==> res == Err::<ContractRecord, ErrorKind>(e),
    {
        if id.index >= self.records.len() as u64 {
            return Err(ErrorKind::ContractNotFound);
        }
        let record = &self.records[id.index as usize];
        Ok(ContractRecord { code: record.code, names: record.names.duplicate() })
    }
}

} // verus!
