//! The definition registry: a table between names and definition handles.

use vstd::prelude::*;
use std::collections::HashMap;
use crate::ident::{DefId, Name};

verus! {

broadcast use vstd::std_specs::hash::group_hash_axioms;

/// What a registry holds: the name of each live handle, the handle that each
/// name resolves to, and the next handle to allocate.
pub struct RegistryView {
    pub names: Map<u32, Seq<char>>,
    pub ids: Map<Seq<char>, u32>,
    pub next: u32,
}

impl RegistryView {
    /// A registry with nothing in it.
    pub open spec fn empty() -> RegistryView {
        RegistryView { names: Map::empty(), ids: Map::empty(), next: 0 }
    }

    /// Every live handle was allocated, and every name resolves to a live
    /// handle that carries that name.
    pub open spec fn wf(self) -> bool {
        &&& forall|k: u32| #[trigger] self.names.contains_key(k) ==> k < self.next
        &&& forall|s: Seq<char>| #[trigger] self.ids.contains_key(s) ==>
            self.names.contains_key(self.ids[s]) && self.names[self.ids[s]] == s
    }

    /// The registry after allocating a handle for `name`.
    pub open spec fn inserted(self, name: Seq<char>) -> RegistryView {
        RegistryView {
            names: self.names.insert(self.next, name),
            ids: self.ids.insert(name, self.next),
            next: (self.next + 1) as u32,
        }
    }

    /// The registry after removing the handle `id`: the handle goes, and so
    /// does the lookup of the name that it carried; an absent handle changes
    /// nothing.
    pub open spec fn removed(self, id: u32) -> RegistryView {
        if self.names.contains_key(id) {
            RegistryView {
                names: self.names.remove(id),
                ids: self.ids.remove(self.names[id]),
                next: self.next,
            }
        } else {
            self
        }
    }
}

/// Removing a handle keeps a registry well formed.
pub proof fn lemma_removed_wf(v: RegistryView, id: u32)
    requires
        v.wf(),
    ensures
        v.removed(id).wf(),
{
    if v.names.contains_key(id) {
        let w = v.removed(id);
        assert forall|s: Seq<char>| #[trigger] w.ids.contains_key(s) implies w.names.contains_key(w.ids[s]) && w.names[w.ids[s]] == s by {
            assert(v.ids.contains_key(s) && s != v.names[id]);
        }
    }
}

/// Allocating a handle keeps a registry well formed.
pub proof fn lemma_inserted_wf(v: RegistryView, name: Seq<char>)
    requires
        v.wf(),
        v.next < u32::MAX,
    ensures
        v.inserted(name).wf(),
{
    let w = v.inserted(name);
    assert forall|s: Seq<char>| #[trigger] w.ids.contains_key(s) implies w.names.contains_key(w.ids[s]) && w.names[w.ids[s]] == s by {
        if s != name {
            assert(v.ids.contains_key(s));
            assert(v.ids[s] < v.next);
        }
    }
}

/// After a name is inserted, the name resolves to the new handle and the
/// handle carries the name, so each lookup undoes the other.
pub proof fn lemma_insert_round_trip(v: RegistryView, name: Seq<char>)
    requires
        v.wf(),
        v.next < u32::MAX,
    ensures
        ({
            let w = v.inserted(name);
            &&& w.ids.contains_key(name) && w.ids[name] == v.next
            &&& w.names.contains_key(v.next) && w.names[v.next] == name
            &&& w.names[w.ids[name]] == name
            &&& w.ids[w.names[v.next]] == v.next
        }),
{
}

/// In a well-formed registry, the handle that a name resolves to carries
/// that name.
pub proof fn lemma_name_id_name(v: RegistryView, name: Seq<char>)
    requires
        v.wf(),
        v.ids.contains_key(name),
    ensures
        v.names.contains_key(v.ids[name]),
        v.names[v.ids[name]] == name,
{
}

/// A name and its handle stay paired until one of them is removed: inserting
/// another name, or removing a handle that carries another name, leaves both
/// lookups as they were.
pub proof fn lemma_round_trip_kept(v: RegistryView, name: Seq<char>, other: Seq<char>, id: u32)
    requires
        v.wf(),
        v.ids.contains_key(name),
        other != name,
        v.names.contains_key(id) ==> v.names[id] != name,
    ensures
        v.inserted(other).ids[name] == v.ids[name],
        v.inserted(other).names[v.ids[name]] == name,
        v.removed(id).ids.contains_key(name),
        v.removed(id).ids[name] == v.ids[name],
        v.removed(id).names[v.ids[name]] == name,
{
    assert(v.ids[name] < v.next);
}

/// The registry after inserting each of `ns` in order.
pub open spec fn inserted_all(v: RegistryView, ns: Seq<Seq<char>>) -> RegistryView
    decreases ns.len(),
{
    if ns.len() == 0 {
        v
    } else {
        inserted_all(v, ns.drop_last()).inserted(ns.last())
    }
}

/// Inserting distinct names into a fresh registry gives the `i`-th name the
/// handle `i`, and each lookup undoes the other for every name inserted.
pub proof fn lemma_fresh_round_trip(ns: Seq<Seq<char>>)
    requires
        ns.len() < u32::MAX,
        forall|i: int, j: int| 0 <= i < j < ns.len() ==> ns[i] != ns[j],
    ensures
        inserted_all(RegistryView::empty(), ns).wf(),
        inserted_all(RegistryView::empty(), ns).next == ns.len(),
        forall|i: int| 0 <= i < ns.len() ==> {
            let w = inserted_all(RegistryView::empty(), ns);
            &&& w.ids.contains_key(#[trigger] ns[i]) && w.ids[ns[i]] == i
            &&& w.names.contains_key(i as u32) && w.names[i as u32] == ns[i]
            &&& w.names[w.ids[ns[i]]] == ns[i]
            &&& w.ids[w.names[i as u32]] == i
        },
    decreases ns.len(),
{
    if ns.len() > 0 {
        let prefix = ns.drop_last();
        lemma_fresh_round_trip(prefix);
        let p = inserted_all(RegistryView::empty(), prefix);
        lemma_inserted_wf(p, ns.last());
        assert forall|i: int| 0 <= i < prefix.len() implies prefix[i] == #[trigger] ns[i] by {}
        assert(ns.last() == ns[ns.len() - 1]);
    }
}

/// Inserting one name twice gives two handles: the name resolves to the
/// newer one, and the older one still carries the name.
pub proof fn lemma_reinsert(v: RegistryView, name: Seq<char>)
    requires
        v.wf(),
        v.next + 1 < u32::MAX,
    ensures
        ({
            let first = v.next;
            let second = v.inserted(name).next;
            let w = v.inserted(name).inserted(name);
            &&& first != second
            &&& w.ids[name] == second
            &&& w.names.contains_key(first) && w.names[first] == name
            &&& w.names.contains_key(second) && w.names[second] == name
        }),
{
}

/// A removed handle is absent, and removing it again changes nothing.
pub proof fn lemma_remove_twice(v: RegistryView, id: u32)
    requires
        v.wf(),
    ensures
        !v.removed(id).names.contains_key(id),
        v.removed(id).removed(id) == v.removed(id),
{
}

/// A bijective table between definition names and handles.
#[derive(Debug, Clone)]
pub struct DefNames {
    id_to_name: HashMap<u32, Name>,
    name_to_id: Vec<(Name, DefId)>,
    id_count: DefId,
}

/// The handle that a list of (name, handle) entries gives a name.
pub open spec fn entries_map(v: Seq<(Name, DefId)>) -> Map<Seq<char>, u32> {
    Map::new(
        |s: Seq<char>| exists|i: int| 0 <= i < v.len() && (#[trigger] v[i]).0@ == s,
        |s: Seq<char>| v[choose|i: int| 0 <= i < v.len() && (#[trigger] v[i]).0@ == s].1.0,
    )
}

/// No name occurs twice in a list of entries.
pub open spec fn entries_unique(v: Seq<(Name, DefId)>) -> bool {
    forall|i: int, j: int|
        0 <= i < v.len() && 0 <= j < v.len() && i != j ==> (#[trigger] v[i]).0@ != (#[trigger] v[j]).0@
}

proof fn lemma_entries_at(v: Seq<(Name, DefId)>, i: int)
    requires
        entries_unique(v),
        0 <= i < v.len(),
    ensures
        entries_map(v).contains_key(v[i].0@),
        entries_map(v)[v[i].0@] == v[i].1.0,
{
    let s = v[i].0@;
    assert(0 <= i < v.len() && v[i].0@ == s);
    let j = choose|j: int| 0 <= j < v.len() && (#[trigger] v[j]).0@ == s;
    assert(j == i);
}

proof fn lemma_entries_absent(v: Seq<(Name, DefId)>, s: Seq<char>)
    requires
        forall|i: int| 0 <= i < v.len() ==> (#[trigger] v[i]).0@ != s,
    ensures
        !entries_map(v).contains_key(s),
{
}

/// Updating the entry at `i` to the same name with handle `id`.
proof fn lemma_entries_update(v: Seq<(Name, DefId)>, i: int, e: (Name, DefId))
    requires
        entries_unique(v),
        0 <= i < v.len(),
        e.0@ == v[i].0@,
    ensures
        entries_unique(v.update(i, e)),
        entries_map(v.update(i, e)) =~= entries_map(v).insert(e.0@, e.1.0),
{
    let w = v.update(i, e);
    assert(forall|k: int| 0 <= k < v.len() ==> (#[trigger] w[k]).0@ == v[k].0@);
    assert forall|s: Seq<char>| #[trigger] entries_map(w).contains_key(s) <==> entries_map(v).insert(e.0@, e.1.0).contains_key(s) by {
        if entries_map(v).contains_key(s) {
            let k = choose|k: int| 0 <= k < v.len() && (#[trigger] v[k]).0@ == s;
            assert(w[k].0@ == s);
        }
        if entries_map(w).contains_key(s) {
            let k = choose|k: int| 0 <= k < w.len() && (#[trigger] w[k]).0@ == s;
            assert(v[k].0@ == s);
        }
    }
    assert forall|s: Seq<char>| #[trigger] entries_map(w).contains_key(s) implies entries_map(w)[s] == entries_map(v).insert(e.0@, e.1.0)[s] by {
        let k = choose|k: int| 0 <= k < w.len() && (#[trigger] w[k]).0@ == s;
        lemma_entries_at(w, k);
        if k != i {
            lemma_entries_at(v, k);
        }
    }
}

/// Appending an entry for a name that has none.
proof fn lemma_entries_push(v: Seq<(Name, DefId)>, e: (Name, DefId))
    requires
        entries_unique(v),
        !entries_map(v).contains_key(e.0@),
    ensures
        entries_unique(v.push(e)),
        entries_map(v.push(e)) =~= entries_map(v).insert(e.0@, e.1.0),
{
    let w = v.push(e);
    assert forall|k: int| 0 <= k < v.len() implies (#[trigger] v[k]).0@ != e.0@ by {
        if v[k].0@ == e.0@ {
            lemma_entries_at(v, k);
        }
    }
    assert(forall|k: int| 0 <= k < v.len() ==> (#[trigger] w[k]) == v[k]);
    assert(w[v.len() as int] == e);
    assert forall|s: Seq<char>| #[trigger] entries_map(w).contains_key(s) <==> entries_map(v).insert(e.0@, e.1.0).contains_key(s) by {
        if entries_map(v).contains_key(s) {
            let k = choose|k: int| 0 <= k < v.len() && (#[trigger] v[k]).0@ == s;
            assert(w[k].0@ == s);
        }
        if s == e.0@ {
            assert(w[v.len() as int].0@ == s);
        }
        if entries_map(w).contains_key(s) {
            let k = choose|k: int| 0 <= k < w.len() && (#[trigger] w[k]).0@ == s;
            if k < v.len() {
                assert(v[k].0@ == s);
            }
        }
    }
    assert forall|s: Seq<char>| #[trigger] entries_map(w).contains_key(s) implies entries_map(w)[s] == entries_map(v).insert(e.0@, e.1.0)[s] by {
        let k = choose|k: int| 0 <= k < w.len() && (#[trigger] w[k]).0@ == s;
        lemma_entries_at(w, k);
        if k < v.len() {
            lemma_entries_at(v, k);
        }
    }
}

/// Taking out the entry at `i`.
proof fn lemma_entries_remove(v: Seq<(Name, DefId)>, i: int)
    requires
        entries_unique(v),
        0 <= i < v.len(),
    ensures
        entries_unique(v.remove(i)),
        entries_map(v.remove(i)) =~= entries_map(v).remove(v[i].0@),
{
    let w = v.remove(i);
    assert(forall|k: int| 0 <= k < i ==> (#[trigger] w[k]) == v[k]);
    assert(forall|k: int| i <= k < w.len() ==> (#[trigger] w[k]) == v[k + 1]);
    assert forall|a: int, b: int| 0 <= a < w.len() && 0 <= b < w.len() && a != b implies (#[trigger] w[a]).0@ != (#[trigger] w[b]).0@ by {
        let a2 = if a < i { a } else { a + 1 };
        let b2 = if b < i { b } else { b + 1 };
        assert(w[a] == v[a2] && w[b] == v[b2]);
    }
    assert forall|s: Seq<char>| #[trigger] entries_map(w).contains_key(s) <==> entries_map(v).remove(v[i].0@).contains_key(s) by {
        if entries_map(w).contains_key(s) {
            let k = choose|k: int| 0 <= k < w.len() && (#[trigger] w[k]).0@ == s;
            let k2 = if k < i { k } else { k + 1 };
            assert(v[k2].0@ == s);
            assert(k2 != i);
        }
        if entries_map(v).contains_key(s) && s != v[i].0@ {
            let k = choose|k: int| 0 <= k < v.len() && (#[trigger] v[k]).0@ == s;
            assert(k != i);
            if k < i {
                assert(w[k].0@ == s);
            } else {
                assert(w[k - 1].0@ == s);
            }
        }
    }
    assert forall|s: Seq<char>| #[trigger] entries_map(w).contains_key(s) implies entries_map(w)[s] == entries_map(v).remove(v[i].0@)[s] by {
        let k = choose|k: int| 0 <= k < w.len() && (#[trigger] w[k]).0@ == s;
        lemma_entries_at(w, k);
        let k2 = if k < i { k } else { k + 1 };
        lemma_entries_at(v, k2);
    }
}

/// Finds the position of the entry for `name`.
fn find_entry(v: &Vec<(Name, DefId)>, name: &Name) -> (r: Option<usize>)
    ensures
        match r {
            Some(i) => i < v@.len() && v@[i as int].0@ == name@,
            None => forall|i: int| 0 <= i < v@.len() ==> (#[trigger] v@[i]).0@ != name@,
        },
{
    let mut i: usize = 0;
    while i < v.len()
        invariant
            i <= v@.len(),
            forall|k: int| 0 <= k < i ==> (#[trigger] v@[k]).0@ != name@,
        decreases v@.len() - i,
    {
        if v[i].0.same(name) {
            return Some(i);
        }
        i = i + 1;
    }
    None
}

impl View for DefNames {
    type V = RegistryView;

    closed spec fn view(&self) -> RegistryView {
        RegistryView {
            names: self.id_to_name@.map_values(|n: Name| n@),
            ids: entries_map(self.name_to_id@),
            next: self.id_count.0,
        }
    }
}

impl DefNames {
    pub const ENTRY_POINT: &'static str = "main";

    pub const HVM1_ENTRY_POINT: &'static str = "Main";

    /// The registry is consistent: its view is well formed and no name has
    /// two entries.
    pub closed spec fn wf(&self) -> bool {
        &&& self@.wf()
        &&& entries_unique(self.name_to_id@)
    }

    pub fn new() -> (r: DefNames)
        ensures
            r.wf(),
            r@ == RegistryView::empty(),
    {
        let r = DefNames { id_to_name: HashMap::new(), name_to_id: Vec::new(), id_count: DefId(0) };
        assert(r@.names =~= Map::empty());
        assert(r@.ids =~= Map::empty());
        r
    }

    /// The name of a handle, if it is live.
    pub fn name(&self, def_id: &DefId) -> (r: Option<&Name>)
        ensures
            match r {
                Some(n) => self@.names.contains_key(def_id.0) && self@.names[def_id.0] == n@,
                None => !self@.names.contains_key(def_id.0),
            },
    {
        self.id_to_name.get(&def_id.0)
    }

    /// The handle that a name resolves to, if any.
    pub fn def_id(&self, name: &Name) -> (r: Option<DefId>)
        requires
            self.wf(),
        ensures
            match r {
                Some(id) => self@.ids.contains_key(name@) && self@.ids[name@] == id.0,
                None => !self@.ids.contains_key(name@),
            },
    {
        match find_entry(&self.name_to_id, name) {
            Some(i) => {
                proof {
                    lemma_entries_at(self.name_to_id@, i as int);
                }
                Some(self.name_to_id[i].1)
            },
            None => {
                proof {
                    lemma_entries_absent(self.name_to_id@, name@);
                }
                None
            },
        }
    }

    pub fn contains_name(&self, name: &Name) -> (r: bool)
        requires
            self.wf(),
        ensures
            r == self@.ids.contains_key(name@),
    {
        self.def_id(name).is_some()
    }

    pub fn contains_def_id(&self, def_id: &DefId) -> (r: bool)
        ensures
            r == self@.names.contains_key(def_id.0),
    {
        self.id_to_name.contains_key(&def_id.0)
    }

    /// Allocates the next handle for `name`; the name then resolves to it.
    pub fn insert(&mut self, name: Name) -> (r: DefId)
        requires
            old(self).wf(),
            old(self)@.next < u32::MAX,
        ensures
            final(self).wf(),
            r.0 == old(self)@.next,
            final(self)@ == old(self)@.inserted(name@),
    {
        let def_id = self.id_count;
        self.id_count = DefId(self.id_count.0 + 1);
        self.id_to_name.insert(def_id.0, name.clone());
        let ghost entries = self.name_to_id@;
        match find_entry(&self.name_to_id, &name) {
            Some(i) => {
                proof {
                    lemma_entries_update(entries, i as int, (name, def_id));
                }
                self.name_to_id.set(i, (name, def_id));
            },
            None => {
                proof {
                    lemma_entries_absent(entries, name@);
                    lemma_entries_push(entries, (name, def_id));
                }
                self.name_to_id.push((name, def_id));
            },
        }
        proof {
            assert(self@.names =~= old(self)@.names.insert(def_id.0, name@));
            assert(self@ == old(self)@.inserted(name@));
            lemma_inserted_wf(old(self)@, name@);
        }
        def_id
    }

    /// Removes a handle and its name; an absent handle is left as it is.
    pub fn remove(&mut self, def_id: DefId) -> (r: Option<Name>)
        requires
            old(self).wf(),
        ensures
            final(self).wf(),
            final(self)@ == old(self)@.removed(def_id.0),
            match r {
                Some(n) => old(self)@.names.contains_key(def_id.0) && n@ == old(self)@.names[def_id.0],
                None => !old(self)@.names.contains_key(def_id.0),
            },
    {
        let nam = self.id_to_name.remove(&def_id.0);
        match &nam {
            Some(n) => {
                let ghost entries = self.name_to_id@;
                match find_entry(&self.name_to_id, n) {
                    Some(i) => {
                        proof {
                            lemma_entries_remove(entries, i as int);
                        }
                        self.name_to_id.remove(i);
                    },
                    None => {
                        proof {
                            lemma_entries_absent(entries, n@);
                            assert(entries_map(entries).remove(n@) =~= entries_map(entries));
                        }
                    },
                }
                proof {
                    assert(self@.names =~= old(self)@.names.remove(def_id.0));
                }
            },
            None => {
                proof {
                    assert(self@.names =~= old(self)@.names);
                }
            },
        }
        proof {
            lemma_removed_wf(old(self)@, def_id.0);
        }
        nam
    }

    /// The names that resolve to a handle, each once.
    pub fn names(&self) -> (r: Vec<Name>)
        requires
            self.wf(),
        ensures
            forall|j: int| 0 <= j < r@.len() ==> self@.ids.contains_key(#[trigger] r@[j]@),
            forall|s: Seq<char>| #[trigger] self@.ids.contains_key(s) ==> exists|j: int| 0 <= j < r@.len() && r@[j]@ == s,
            forall|a: int, b: int| 0 <= a < r@.len() && 0 <= b < r@.len() && a != b ==> (#[trigger] r@[a])@ != (#[trigger] r@[b])@,
    {
        let mut r: Vec<Name> = Vec::new();
        let mut i: usize = 0;
        while i < self.name_to_id.len()
            invariant
                self.wf(),
                i <= self.name_to_id@.len(),
                r@.len() == i,
                forall|j: int| 0 <= j < i ==> (#[trigger] r@[j])@ == self.name_to_id@[j].0@,
            decreases self.name_to_id@.len() - i,
        {
            r.push(self.name_to_id[i].0.clone());
            i = i + 1;
        }
        proof {
            assert forall|j: int| 0 <= j < r@.len() implies self@.ids.contains_key(#[trigger] r@[j]@) by {
                lemma_entries_at(self.name_to_id@, j);
            }
            assert forall|s: Seq<char>| #[trigger] self@.ids.contains_key(s) implies exists|j: int| 0 <= j < r@.len() && r@[j]@ == s by {
                let k = choose|k: int| 0 <= k < self.name_to_id@.len() && (#[trigger] self.name_to_id@[k]).0@ == s;
                assert(r@[k]@ == s);
            }
        }
        r
    }

    /// The live handles, in increasing order.
    pub fn def_ids(&self) -> (r: Vec<DefId>)
        requires
            self.wf(),
        ensures
            forall|j: int| 0 <= j < r@.len() ==> self@.names.contains_key(#[trigger] r@[j].0),
            forall|k: u32| #[trigger] self@.names.contains_key(k) ==> exists|j: int| 0 <= j < r@.len() && r@[j].0 == k,
            forall|a: int, b: int| 0 <= a < b < r@.len() ==> (#[trigger] r@[a]).0 < (#[trigger] r@[b]).0,
    {
        let mut r: Vec<DefId> = Vec::new();
        let mut k: u32 = 0;
        while k < self.id_count.0
            invariant
                self.wf(),
                k <= self.id_count.0,
                forall|j: int| 0 <= j < r@.len() ==> self@.names.contains_key(#[trigger] r@[j].0) && r@[j].0 < k,
                forall|m: u32| m < k && #[trigger] self@.names.contains_key(m) ==> exists|j: int| 0 <= j < r@.len() && r@[j].0 == m,
                forall|a: int, b: int| 0 <= a < b < r@.len() ==> (#[trigger] r@[a]).0 < (#[trigger] r@[b]).0,
            decreases self.id_count.0 - k,
        {
            if self.id_to_name.contains_key(&k) {
                let ghost before = r@;
                r.push(DefId(k));
                proof {
                    assert forall|m: u32| m < k + 1 && #[trigger] self@.names.contains_key(m) implies exists|j: int| 0 <= j < r@.len() && r@[j].0 == m by {
                        if m == k {
                            assert(r@[before.len() as int].0 == m);
                        } else {
                            let j = choose|j: int| 0 <= j < before.len() && before[j].0 == m;
                            assert(r@[j].0 == m);
                        }
                    }
                }
            }
            k = k + 1;
        }
        r
    }
}

} // verus!
