//! String-keyed association maps with last-insertion-wins semantics: the
//! version index (package name to published version strings) and the
//! identifier map (node identifier to node position). Both view to a
//! mathematical `Map` built by folding `insert` over the entries in order,
//! so a key inserted later overrides an earlier one.

use vstd::prelude::*;

verus! {

/// The map denoted by an entry sequence: each entry inserted in order,
/// so the last entry with a given key decides its value.
pub open spec fn string_map_of<V>(entries: Seq<(Seq<char>, V)>) -> Map<Seq<char>, V>
    decreases entries.len(),
{
    if entries.len() == 0 {
        Map::empty()
    } else {
        string_map_of(entries.drop_last()).insert(entries.last().0, entries.last().1)
    }
}

/// The view of the identifier map's entries.
pub open spec fn id_entries_view(s: Seq<(String, usize)>) -> Seq<(Seq<char>, int)> {
    Seq::new(s.len(), |i: int| (s[i].0@, s[i].1 as int))
}

/// The view of the version index's entries.
pub open spec fn index_entries_view(s: Seq<(String, Vec<String>)>) -> Seq<(Seq<char>, Seq<Seq<char>>)> {
    Seq::new(s.len(), |i: int| (s[i].0@, s[i].1.deep_view()))
}

/// Maps the canonical identifier of a node to the position of that node,
/// the last registered node with that identifier deciding.
pub struct NodeIdMap {
    entries: Vec<(String, usize)>,
}

impl View for NodeIdMap {
    type V = Map<Seq<char>, int>;

    closed spec fn view(&self) -> Map<Seq<char>, int> {
        string_map_of(id_entries_view(self.entries@))
    }
}

impl NodeIdMap {
    /// An empty identifier map.
    pub fn new() -> (m: NodeIdMap)
        ensures
            m@ == Map::<Seq<char>, int>::empty(),
    {
        let m = NodeIdMap { entries: Vec::new() };
        proof {
            assert(id_entries_view(m.entries@) =~= Seq::<(Seq<char>, int)>::empty());
        }
        m
    }

    /// Registers `value` under `key`; a later registration of the same key
    /// overrides this one.
    pub fn insert(&mut self, key: String, value: usize)
        ensures
            final(self)@ == old(self)@.insert(key@, value as int),
    {
        let ghost before = id_entries_view(self.entries@);
        self.entries.push((key, value));
        proof {
            let after = id_entries_view(self.entries@);
            assert(after.drop_last() =~= before);
            assert(after.last() == (key@, value as int));
        }
    }

    /// Resolves `key`: the position registered last under it, if any.
    pub fn find(&self, key: &String) -> (r: Option<usize>)
        ensures
            r is Some <==> self@.contains_key(key@),
            r is Some ==> r->Some_0 as int == self@[key@],
    {
        let ghost full = string_map_of(id_entries_view(self.entries@));
        let mut i: usize = self.entries.len();
        proof {
            assert(self.entries@.take(i as int) =~= self.entries@);
        }
        while i > 0
            invariant
                i <= self.entries.len(),
                full == string_map_of(id_entries_view(self.entries@)),
                full == self@,
                ({
                    let part = string_map_of(id_entries_view(self.entries@.take(i as int)));
                    &&& (part.contains_key(key@) <==> full.contains_key(key@))
                    &&& (part.contains_key(key@) ==> part[key@] == full[key@])
                }),
            decreases i,
        {
            let ghost s = id_entries_view(self.entries@.take(i as int));
            proof {
                assert(s.len() == i);
                assert(s.drop_last() =~= id_entries_view(self.entries@.take(i - 1)));
                assert(s.last() == (self.entries@[i - 1].0@, self.entries@[i - 1].1 as int));
            }
            if self.entries[i - 1].0 == *key {
                proof {
                    assert(string_map_of(s) == string_map_of(s.drop_last()).insert(s.last().0, s.last().1));
                    assert(string_map_of(s).contains_key(key@));
                    assert(string_map_of(s)[key@] == self.entries@[i - 1].1 as int);
                }
                return Some(self.entries[i - 1].1);
            }
            i = i - 1;
        }
        proof {
            assert(id_entries_view(self.entries@.take(0)) =~= Seq::<(Seq<char>, int)>::empty());
        }
        None
    }
}

/// The version index: maps a package name to the version strings published
/// for it, the last inserted list for a name deciding.
pub struct VersionIndex {
    entries: Vec<(String, Vec<String>)>,
}

impl View for VersionIndex {
    type V = Map<Seq<char>, Seq<Seq<char>>>;

    closed spec fn view(&self) -> Map<Seq<char>, Seq<Seq<char>>> {
        string_map_of(index_entries_view(self.entries@))
    }
}

/// Looking a name up in the index: the listed versions, or the empty
/// sequence for a name the snapshot never mentioned.
pub open spec fn spec_lookup(idx: Map<Seq<char>, Seq<Seq<char>>>, name: Seq<char>) -> Seq<Seq<char>> {
    if idx.contains_key(name) {
        idx[name]
    } else {
        Seq::empty()
    }
}

impl VersionIndex {
    /// An empty index.
    pub fn new() -> (idx: VersionIndex)
        ensures
            idx@ == Map::<Seq<char>, Seq<Seq<char>>>::empty(),
    {
        let idx = VersionIndex { entries: Vec::new() };
        proof {
            assert(index_entries_view(idx.entries@) =~= Seq::<(Seq<char>, Seq<Seq<char>>)>::empty());
        }
        idx
    }

    /// Inserts the full version list of a package; a later insertion for
    /// the same name replaces it.
    pub fn insert(&mut self, name: String, versions: Vec<String>)
        ensures
            final(self)@ == old(self)@.insert(name@, versions.deep_view()),
    {
        let ghost before = index_entries_view(self.entries@);
        let ghost vv = versions.deep_view();
        self.entries.push((name, versions));
        proof {
            let after = index_entries_view(self.entries@);
            assert(after.drop_last() =~= before);
            assert(after.last() == (name@, vv));
        }
    }

    /// The entry position whose key is `name`, if the name is known:
    /// private, so that the accessors below can speak of the entry itself.
    fn find_entry(&self, name: &String) -> (r: Option<usize>)
        ensures
            r is Some <==> self@.contains_key(name@),
            r is Some ==> {
                &&& r->Some_0 < self.entries@.len()
                &&& self.entries@[r->Some_0 as int].0@ == name@
                &&& self.entries@[r->Some_0 as int].1.deep_view() == self@[name@]
            },
    {
        let ghost full = string_map_of(index_entries_view(self.entries@));
        let mut i: usize = self.entries.len();
        proof {
            assert(self.entries@.take(i as int) =~= self.entries@);
        }
        while i > 0
            invariant
                i <= self.entries.len(),
                full == string_map_of(index_entries_view(self.entries@)),
                full == self@,
                ({
                    let part = string_map_of(index_entries_view(self.entries@.take(i as int)));
                    &&& (part.contains_key(name@) <==> full.contains_key(name@))
                    &&& (part.contains_key(name@) ==> part[name@] == full[name@])
                }),
            decreases i,
        {
            let ghost s = index_entries_view(self.entries@.take(i as int));
            proof {
                assert(s.len() == i);
                assert(s.drop_last() =~= index_entries_view(self.entries@.take(i - 1)));
                assert(s.last() == (self.entries@[i - 1].0@, self.entries@[i - 1].1.deep_view()));
            }
            if self.entries[i - 1].0 == *name {
                proof {
                    assert(string_map_of(s) == string_map_of(s.drop_last()).insert(s.last().0, s.last().1));
                    assert(string_map_of(s).contains_key(name@));
                    assert(string_map_of(s)[name@] == self.entries@[i - 1].1.deep_view());
                }
                return Some(i - 1);
            }
            i = i - 1;
        }
        proof {
            assert(index_entries_view(self.entries@.take(0)) =~= Seq::<(Seq<char>, Seq<Seq<char>>)>::empty());
        }
        None
    }

    /// How many candidate version strings the index lists for `name`;
    /// zero for a name the snapshot never mentioned.
    pub fn candidate_count(&self, name: &String) -> (n: usize)
        ensures
            n == spec_lookup(self@, name@).len(),
    {
        match self.find_entry(name) {
            Some(e) => self.entries[e].1.len(),
            None => 0,
        }
    }

    /// The `c`-th candidate version string listed for `name`.
    pub fn candidate(&self, name: &String, c: usize) -> (w: &String)
        requires
            c < spec_lookup(self@, name@).len(),
        ensures
            w@ == spec_lookup(self@, name@)[c as int],
    {
        let e = self.find_entry(name).unwrap();
        &self.entries[e].1[c]
    }
}

} // verus!
