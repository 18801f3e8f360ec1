//! The snippet collection: a mapping from names to snippets.
//!
//! The collection is kept as a vector of entries with pairwise distinct
//! names; its mathematical value is the map from each name to its snippet.
//! Lookup, overwriting insertion and removal are specified against that map.

use vstd::prelude::*;
use vstd::map::*;
use crate::timestamp::Timestamp;
use crate::chars::str_eq;

verus! {

/// One stored item: its text and the moment it was created.
#[derive(Debug, Clone)]
pub struct Snippet {
    pub content: String,
    pub created_at: Timestamp,
}

/// The mathematical value of a snippet.
pub ghost struct SnippetView {
    pub content: Seq<char>,
    pub created_at: Timestamp,
}

impl View for Snippet {
    type V = SnippetView;

    open spec fn view(&self) -> SnippetView {
        SnippetView { content: self.content@, created_at: self.created_at }
    }
}

impl Snippet {
    /// A snippet is well formed when its timestamp is a real calendar moment.
    pub open spec fn wf(self) -> bool {
        self.created_at.valid()
    }
}

/// One named snippet of the collection.
#[derive(Debug, Clone)]
pub struct Entry {
    pub name: String,
    pub snippet: Snippet,
}

/// No two entries carry the same name.
pub open spec fn entry_names_unique(s: Seq<Entry>) -> bool {
    forall|i: int, j: int| 0 <= i < j < s.len() ==> s[i].name@ != s[j].name@
}

/// The map spelled by a sequence of entries, later entries winning.
pub open spec fn map_of_entries(s: Seq<Entry>) -> Map<Seq<char>, SnippetView>
    decreases s.len(),
{
    if s.len() == 0 {
        Map::empty()
    } else {
        map_of_entries(s.drop_last()).insert(s.last().name@, s.last().snippet@)
    }
}

/// The full collection of snippets, the unit of persistence.
#[derive(Debug, Clone)]
pub struct SnippetMap {
    pub entries: Vec<Entry>,
}

impl SnippetMap {
    /// Distinct names, and every snippet well formed.
    pub open spec fn wf(self) -> bool {
        &&& entry_names_unique(self.entries@)
        &&& forall|i: int| 0 <= i < self.entries@.len() ==> self.entries@[i].snippet.wf()
    }

    /// The collection as a map from names to snippet values.
    pub open spec fn as_map(self) -> Map<Seq<char>, SnippetView> {
        map_of_entries(self.entries@)
    }
}

proof fn lemma_unique_drop_last(s: Seq<Entry>)
    requires
        entry_names_unique(s),
        s.len() > 0,
    ensures
        entry_names_unique(s.drop_last()),
{
    assert forall|i: int, j: int|
        0 <= i < j < s.drop_last().len() implies s.drop_last()[i].name@ != s.drop_last()[j].name@ by {
        assert(s.drop_last()[i] == s[i]);
        assert(s.drop_last()[j] == s[j]);
    }
}

/// Each entry of a collection with distinct names is found in its map.
proof fn lemma_map_entry(s: Seq<Entry>, i: int)
    requires
        entry_names_unique(s),
        0 <= i < s.len(),
    ensures
        map_of_entries(s).contains_key(s[i].name@),
        map_of_entries(s)[s[i].name@] == s[i].snippet@,
    decreases s.len(),
{
    if i < s.len() - 1 {
        lemma_unique_drop_last(s);
        assert(s.drop_last()[i] == s[i]);
        lemma_map_entry(s.drop_last(), i);
        assert(s[s.len() - 1].name@ != s[i].name@);
    }
}

/// A name on no entry is not in the map.
proof fn lemma_map_absent(s: Seq<Entry>, k: Seq<char>)
    requires
        forall|i: int| 0 <= i < s.len() ==> s[i].name@ != k,
    ensures
        !map_of_entries(s).contains_key(k),
    decreases s.len(),
{
    if s.len() > 0 {
        assert forall|i: int| 0 <= i < s.drop_last().len() implies s.drop_last()[i].name@ != k by {
            assert(s.drop_last()[i] == s[i]);
        }
        lemma_map_absent(s.drop_last(), k);
        assert(s[s.len() - 1].name@ != k);
    }
}

/// Replacing the entry that carries a name is inserting under that name.
proof fn lemma_map_update(s: Seq<Entry>, i: int, e: Entry)
    requires
        entry_names_unique(s),
        0 <= i < s.len(),
        s[i].name@ == e.name@,
    ensures
        map_of_entries(s.update(i, e)) == map_of_entries(s).insert(e.name@, e.snippet@),
    decreases s.len(),
{
    let su = s.update(i, e);
    if i == s.len() - 1 {
        assert(su.drop_last() =~= s.drop_last());
        assert(su.last() == e);
        assert(map_of_entries(su) =~= map_of_entries(s).insert(e.name@, e.snippet@));
    } else {
        lemma_unique_drop_last(s);
        assert(s.drop_last()[i] == s[i]);
        lemma_map_update(s.drop_last(), i, e);
        assert(su.drop_last() =~= s.drop_last().update(i, e));
        assert(su.last() == s.last());
        assert(s.last().name@ != e.name@);
        assert(map_of_entries(su) =~= map_of_entries(s).insert(e.name@, e.snippet@));
    }
}

/// Discarding the entry that carries a name is removing that name.
proof fn lemma_map_discard(s: Seq<Entry>, i: int)
    requires
        entry_names_unique(s),
        0 <= i < s.len(),
    ensures
        map_of_entries(s.remove(i)) == map_of_entries(s).remove(s[i].name@),
    decreases s.len(),
{
    let sr = s.remove(i);
    if i == s.len() - 1 {
        assert(sr =~= s.drop_last());
        assert forall|j: int| 0 <= j < s.drop_last().len() implies s.drop_last()[j].name@
            != s[i].name@ by {
            assert(s.drop_last()[j] == s[j]);
        }
        lemma_map_absent(s.drop_last(), s[i].name@);
        assert(map_of_entries(sr) =~= map_of_entries(s).remove(s[i].name@));
    } else {
        lemma_unique_drop_last(s);
        assert(s.drop_last()[i] == s[i]);
        lemma_map_discard(s.drop_last(), i);
        assert(sr.drop_last() =~= s.drop_last().remove(i));
        assert(sr.last() == s.last());
        assert(s.last().name@ != s[i].name@);
        assert(map_of_entries(sr) =~= map_of_entries(s).remove(s[i].name@));
    }
}

impl SnippetMap {
    /// The empty collection.
    pub fn new() -> (r: SnippetMap)
        ensures
            r.wf(),
            r.as_map() == Map::<Seq<char>, SnippetView>::empty(),
            r.entries@.len() == 0,
    {
        SnippetMap { entries: Vec::new() }
    }

    /// How many snippets are stored.
    pub fn len(&self) -> (r: usize)
        ensures
            r == self.entries@.len(),
    {
        self.entries.len()
    }

    fn find_index(&self, name: &str) -> (r: Option<usize>)
        ensures
            match r {
                Some(i) => i < self.entries@.len() && self.entries@[i as int].name@ == name@,
                None => forall|i: int|
                    0 <= i < self.entries@.len() ==> self.entries@[i].name@ != name@,
            },
    {
        let n = self.entries.len();
        let mut i: usize = 0;
        while i < n
            invariant
                n == self.entries@.len(),
                i <= n,
                forall|j: int| 0 <= j < i ==> self.entries@[j].name@ != name@,
            decreases n - i,
        {
            if str_eq(self.entries[i].name.as_str(), name) {
                return Some(i);
            }
            i = i + 1;
        }
        None
    }

    /// Looks a name up; the result is exactly the map's value under it.
    pub fn get(&self, name: &str) -> (r: Option<&Snippet>)
        requires
            self.wf(),
        ensures
            match r {
                Some(s) => self.as_map().contains_key(name@) && s@ == self.as_map()[name@]
                    && s.wf(),
                None => !self.as_map().contains_key(name@),
            },
    {
        match self.find_index(name) {
            Some(i) => {
                proof {
                    lemma_map_entry(self.entries@, i as int);
                }
                Some(&self.entries[i].snippet)
            },
            None => {
                proof {
                    lemma_map_absent(self.entries@, name@);
                }
                None
            },
        }
    }

    /// Stores a snippet under a name, replacing any snippet already there;
    /// the collection grows only when the name was absent.
    pub fn insert(&mut self, name: String, snippet: Snippet)
        requires
            old(self).wf(),
            snippet.wf(),
        ensures
            final(self).wf(),
            final(self).as_map() == old(self).as_map().insert(name@, snippet@),
            old(self).as_map().contains_key(name@) ==> final(self).entries@.len() == old(
                self,
            ).entries@.len(),
            !old(self).as_map().contains_key(name@) ==> final(self).entries@.len() == old(
                self,
            ).entries@.len() + 1,
    {
        let ghost s0 = self.entries@;
        let e = Entry { name, snippet };
        match self.find_index(e.name.as_str()) {
            Some(i) => {
                proof {
                    lemma_map_entry(s0, i as int);
                    lemma_map_update(s0, i as int, e);
                }
                self.entries.remove(i);
                self.entries.insert(i, e);
                proof {
                    assert(self.entries@ =~= s0.update(i as int, e));
                    assert forall|p: int, q: int|
                        0 <= p < q < self.entries@.len() implies self.entries@[p].name@
                        != self.entries@[q].name@ by {
                        assert(s0[p].name@ != s0[q].name@);
                    }
                }
            },
            None => {
                proof {
                    lemma_map_absent(s0, e.name@);
                }
                self.entries.push(e);
                proof {
                    assert(self.entries@.drop_last() =~= s0);
                    assert(map_of_entries(self.entries@) == map_of_entries(s0).insert(
                        e.name@,
                        e.snippet@,
                    ));
                    assert forall|p: int, q: int|
                        0 <= p < q < self.entries@.len() implies self.entries@[p].name@
                        != self.entries@[q].name@ by {
                        if q < self.entries@.len() - 1 {
                            assert(s0[p].name@ != s0[q].name@);
                        }
                    }
                }
            },
        }
    }

    /// Removes a name; reports whether it was there.  An absent name leaves
    /// the collection exactly as it was.
    pub fn remove(&mut self, name: &str) -> (r: bool)
        requires
            old(self).wf(),
        ensures
            final(self).wf(),
            r == old(self).as_map().contains_key(name@),
            final(self).as_map() == old(self).as_map().remove(name@),
            r ==> final(self).entries@.len() + 1 == old(self).entries@.len(),
            !r ==> *final(self) == *old(self),
    {
        let ghost s0 = self.entries@;
        match self.find_index(name) {
            Some(i) => {
                proof {
                    lemma_map_entry(s0, i as int);
                    lemma_map_discard(s0, i as int);
                }
                self.entries.remove(i);
                proof {
                    assert(self.entries@ =~= s0.remove(i as int));
                    assert forall|p: int, q: int|
                        0 <= p < q < self.entries@.len() implies self.entries@[p].name@
                        != self.entries@[q].name@ by {
                        let p0 = if p < i { p } else { p + 1 };
                        let q0 = if q < i { q } else { q + 1 };
                        assert(self.entries@[p] == s0[p0]);
                        assert(self.entries@[q] == s0[q0]);
                        assert(s0[p0].name@ != s0[q0].name@);
                    }
                }
                true
            },
            None => {
                proof {
                    lemma_map_absent(s0, name@);
                    assert(old(self).as_map() =~= old(self).as_map().remove(name@));
                }
                false
            },
        }
    }
}

} // verus!
