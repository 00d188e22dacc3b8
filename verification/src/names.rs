//! Named-key maps: a contract's private names for references and contracts.

use vstd::prelude::*;
use vstd::string::StringExecFns;
use crate::error::ErrorKind;
use crate::reference::Reference;
use crate::value::ContractId;

verus! {

/// What a name stands for.
#[derive(Clone, Copy, Debug, PartialEq, Eq, Structural)]
pub enum Target {
    Reference(Reference),
    Contract(ContractId),
}

/// One binding.
#[derive(Debug, PartialEq, Eq)]
struct Entry {
    name: String,
    target: Target,
}

/// No name occurs twice.
spec fn unique(e: Seq<Entry>) -> bool {
    forall|i: int, j: int| 0 <= i < j < e.len() ==> e[i].name@ != e[j].name@
}

/// Some entry has the name.
spec fn binds(e: Seq<Entry>, k: Seq<char>) -> bool {
    exists|i: int| 0 <= i < e.len() && #[trigger] e[i].name@ == k
}

/// The place of an entry with the name.
spec fn place(e: Seq<Entry>, k: Seq<char>) -> int {
    choose|i: int| 0 <= i < e.len() && #[trigger] e[i].name@ == k
}

/// The mapping that the entries spell.
spec fn mapping(e: Seq<Entry>) -> Map<Seq<char>, Target> {
    Map::new(|k: Seq<char>| binds(e, k), |k: Seq<char>| e[place(e, k)].target)
}

/// Each entry is a binding of the mapping.
proof fn lemma_entry(e: Seq<Entry>, i: int)
    requires
        unique(e),
        0 <= i < e.len(),
    ensures
        mapping(e).contains_key(e[i].name@),
        mapping(e)[e[i].name@] == e[i].target,
{
    let k = e[i].name@;
    assert(binds(e, k));
    let p = place(e, k);
    assert(p == i) by {
        if p < i {
            assert(e[p].name@ != e[i].name@);
        } else if i < p {
            assert(e[i].name@ != e[p].name@);
        }
    }
}

/// Replacing an entry by one of the same name rebinds that name.
proof fn lemma_replace(e: Seq<Entry>, i: int, x: Entry)
    requires
        unique(e),
        0 <= i < e.len(),
        x.name@ == e[i].name@,
    ensures
        unique(e.update(i, x)),
        mapping(e.update(i, x)) == mapping(e).insert(x.name@, x.target),
{
    let n = e.update(i, x);
    assert forall|a: int, b: int| 0 <= a < b < n.len() implies n[a].name@ != n[b].name@ by {
        assert(n[a].name@ == e[a].name@ && n[b].name@ == e[b].name@);
        assert(e[a].name@ != e[b].name@);
    }
    let want = mapping(e).insert(x.name@, x.target);
    assert forall|k: Seq<char>| mapping(n).contains_key(k) == want.contains_key(k) by {
        if binds(n, k) {
            let p = place(n, k);
            assert(e[p].name@ == k);
        }
        if binds(e, k) {
            let p = place(e, k);
            assert(n[p].name@ == k);
        }
        if k == x.name@ {
            assert(n[i].name@ == k);
        }
    }
    assert forall|k: Seq<char>| mapping(n).contains_key(k) implies mapping(n)[k] == want[k] by {
        let p = place(n, k);
        lemma_entry(n, p);
        if p != i {
            lemma_entry(e, p);
        }
    }
    assert(mapping(n) =~= want);
}

/// Appending an entry with a new name binds that name.
proof fn lemma_append(e: Seq<Entry>, x: Entry)
    requires
        unique(e),
        !binds(e, x.name@),
    ensures
        unique(e.push(x)),
        mapping(e.push(x)) == mapping(e).insert(x.name@, x.target),
{
    let n = e.push(x);
    assert forall|a: int, b: int| 0 <= a < b < n.len() implies n[a].name@ != n[b].name@ by {
        if b < e.len() {
            assert(e[a].name@ != e[b].name@);
        } else {
            assert(n[a] == e[a]);
            if e[a].name@ == x.name@ {
                assert(binds(e, x.name@));
            }
        }
    }
    let want = mapping(e).insert(x.name@, x.target);
    assert forall|k: Seq<char>| mapping(n).contains_key(k) == want.contains_key(k) by {
        if binds(n, k) {
            let p = place(n, k);
            if p < e.len() {
                assert(e[p].name@ == k);
            }
        }
        if binds(e, k) {
            let p = place(e, k);
            assert(n[p].name@ == k);
        }
        if k == x.name@ {
            assert(n[e.len() as int].name@ == k);
        }
    }
    assert forall|k: Seq<char>| mapping(n).contains_key(k) implies mapping(n)[k] == want[k] by {
        let p = place(n, k);
        lemma_entry(n, p);
        if p < e.len() {
            assert(n[p] == e[p]);
            lemma_entry(e, p);
        }
    }
    assert(mapping(n) =~= want);
}

/// A map from names to targets, private to one execution context. No
/// name has two bindings.
#[derive(Debug)]
pub struct NamedKeyMap {
    entries: Vec<Entry>,
}

impl View for NamedKeyMap {
    type V = Map<Seq<char>, Target>;

    closed spec fn view(&self) -> Map<Seq<char>, Target> {
        mapping(self.entries@)
    }
}

impl NamedKeyMap {
    /// No name has two bindings. Every function that makes or changes
    /// a map keeps it so.
    pub closed spec fn well_formed(&self) -> bool {
        unique(self.entries@)
    }

    /// The map without bindings.
    pub fn new() -> (m: NamedKeyMap)
        ensures
            m.well_formed(),
            m@ == Map::<Seq<char>, Target>::empty(),
    {
        let m = NamedKeyMap { entries: Vec::new() };
        assert(m@ =~= Map::<Seq<char>, Target>::empty());
        m
    }

    /// The place of the entry named `name`, if there is one.
    fn find(&self, name: &String) -> (at: Option<usize>)
        ensures
            at matches Some(i) ==> i < self.entries@.len() && self.entries@[i as int].name@
                == name@,
            at.is_none() ==> !binds(self.entries@, name@),
    {
        let mut i: usize = 0;
        while i < self.entries.len()
            invariant
                i <= self.entries@.len(),
                forall|j: int| 0 <= j < i ==> self.entries@[j].name@ != name@,
            decreases self.entries@.len() - i,
        {
            if self.entries[i].name == *name {
                return Some(i);
            }
            i += 1;
        }
        None
    }

    /// Binds `name` to `target`, in place of what it was bound to.
    pub fn bind_name(&mut self, name: &str, target: Target)
        requires
            old(self).well_formed(),
        ensures
            final(self).well_formed(),
            final(self)@ == old(self)@.insert(name@, target),
    {
        let owned = String::from_str(name);
        let entry = Entry { name: owned, target };
        match self.find(&entry.name) {
            Some(i) => {
                proof {
                    lemma_replace(self.entries@, i as int, entry);
                }
                self.entries.set(i, entry);
            },
            None => {
                proof {
                    lemma_append(self.entries@, entry);
                }
                self.entries.push(entry);
            },
        }
    }

    /// What `name` is bound to; `UnboundName` if it has no binding.
    pub fn resolve_name(&self, name: &str) -> (res: Result<Target, ErrorKind>)
        requires
            self.well_formed(),
        ensures
            self@.contains_key(name@) ==> res == Ok::<Target, ErrorKind>(self@[name@]),
            !self@.contains_key(name@) ==> res == Err::<Target, ErrorKind>(ErrorKind::UnboundName),
    {
        let owned = String::from_str(name);
        match self.find(&owned) {
            Some(i) => {
                proof {
                    lemma_entry(self.entries@, i as int);
                }
                Ok(self.entries[i].target)
            },
            None => Err(ErrorKind::UnboundName),
        }
    }

    /// The number of bindings.
    pub fn len(&self) -> (n: usize)
        requires
            self.well_formed(),
        ensures
            n == self@.len(),
    {
        proof {
            lemma_count(self.entries@);
        }
        self.entries.len()
    }

    /// A copy of the map.
    pub fn duplicate(&self) -> (m: NamedKeyMap)
        requires
            self.well_formed(),
        ensures
            m.well_formed(),
            m@ == self@,
    {
        let mut entries: Vec<Entry> = Vec::new();
        let mut i: usize = 0;
        while i < self.entries.len()
            invariant
                i <= self.entries@.len(),
                entries@.len() == i,
                forall|j: int| 0 <= j < i ==> entries@[j].name@ == self.entries@[j].name@
                    && entries@[j].target == self.entries@[j].target,
            decreases self.entries@.len() - i,
        {
            let name = self.entries[i].name.clone();
            entries.push(Entry { name, target: self.entries[i].target });
            i += 1;
        }
        proof {
            lemma_same_entries(self.entries@, entries@);
        }
        NamedKeyMap { entries }
    }

    /// Whether every binding of `self` is a binding of `other`.
    fn within(&self, other: &NamedKeyMap) -> (b: bool)
        requires
            self.well_formed(),
            other.well_formed(),
        ensures
            b == self@.submap_of(other@),
    {
        let mut i: usize = 0;
        while i < self.entries.len()
            invariant
                i <= self.entries@.len(),
                unique(self.entries@),
                other.well_formed(),
                forall|j: int|
                    0 <= j < i ==> other@.contains_key(#[trigger] self.entries@[j].name@)
                        && other@[self.entries@[j].name@] == self.entries@[j].target,
            decreases self.entries@.len() - i,
        {
            proof {
                lemma_entry(self.entries@, i as int);
            }
            match other.resolve_name(self.entries[i].name.as_str()) {
                Ok(t) => {
                    if t != self.entries[i].target {
                        return false;
                    }
                },
                Err(_) => {
                    return false;
                },
            }
            i += 1;
        }
        proof {
            assert forall|k: Seq<char>| self@.contains_key(k) implies other@.contains_key(k)
                && self@[k] == other@[k] by {
                let p = place(self.entries@, k);
                lemma_entry(self.entries@, p);
            }
        }
        true
    }

    /// Whether the two maps hold the same bindings.
    pub fn same_as(&self, other: &NamedKeyMap) -> (b: bool)
        requires
            self.well_formed(),
            other.well_formed(),
        ensures
            b == (self@ == other@),
    {
        let b = self.within(other) && other.within(self);
        proof {
            if b {
                assert(self@ =~= other@);
            }
        }
        b
    }
}

/// The mapping has as many bindings as there are entries.
proof fn lemma_count(e: Seq<Entry>)
    requires
        unique(e),
    ensures
        mapping(e).dom().finite(),
        mapping(e).len() == e.len(),
    decreases e.len(),
{
    if e.len() == 0 {
        assert(mapping(e) =~= Map::<Seq<char>, Target>::empty());
    } else {
        let front = e.drop_last();
        let x = e.last();
        assert forall|a: int, b: int| 0 <= a < b < front.len() implies front[a].name@
            != front[b].name@ by {
            assert(e[a].name@ != e[b].name@);
        }
        if binds(front, x.name@) {
            let p = place(front, x.name@);
            assert(e[p].name@ != e[e.len() - 1].name@);
        }
        lemma_count(front);
        lemma_append(front, x);
        assert(front.push(x) =~= e);
    }
}

/// Entries with the same names and targets spell the same mapping.
proof fn lemma_same_entries(a: Seq<Entry>, b: Seq<Entry>)
    requires
        unique(a),
        a.len() == b.len(),
        forall|j: int| 0 <= j < a.len() ==> b[j].name@ == a[j].name@ && b[j].target == a[j].target,
    ensures
        unique(b),
        mapping(b) == mapping(a),
{
    assert forall|x: int, y: int| 0 <= x < y < b.len() implies b[x].name@ != b[y].name@ by {
        assert(a[x].name@ != a[y].name@);
    }
    assert forall|k: Seq<char>| mapping(a).contains_key(k) == mapping(b).contains_key(k) by {
        if binds(a, k) {
            let p = place(a, k);
            assert(b[p].name@ == k);
        }
        if binds(b, k) {
            let p = place(b, k);
            assert(a[p].name@ == k);
        }
    }
    assert forall|k: Seq<char>| mapping(a).contains_key(k) implies mapping(a)[k] == mapping(b)[k] by {
        let p = place(a, k);
        lemma_entry(a, p);
        lemma_entry(b, p);
    }
    assert(mapping(a) =~= mapping(b));
}

/// A name that was bound resolves to what it was bound to, whatever the
/// map held; every other name resolves as before; and a name without a
/// binding is not in the map.
pub proof fn lemma_bind_then_resolve(
    m: Map<Seq<char>, Target>,
    name: Seq<char>,
    target: Target,
    other: Seq<char>,
)
    ensures
        m.insert(name, target).contains_key(name),
        m.insert(name, target)[name] == target,
        other != name ==> m.insert(name, target).contains_key(other) == m.contains_key(other),
        other != name && m.contains_key(other) ==> m.insert(name, target)[other] == m[other],
        !Map::<Seq<char>, Target>::empty().contains_key(name),
{
}

} // verus!
