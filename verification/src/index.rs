//! Index maps from lookup keys to record positions, with last-write-wins
//! insertion. Keys arrive one by one during ingestion, so each index is an
//! append-only association vector read from its newest entry backwards.

use vstd::prelude::*;
use crate::text::str_eq;

verus! {

/// The map an association vector denotes: every entry inserted in order,
/// a later entry overriding an earlier one with the same key.
pub open spec fn spec_assoc_names(es: Seq<(Seq<char>, usize)>) -> Map<Seq<char>, usize>
    decreases es.len(),
{
    if es.len() == 0 {
        Map::empty()
    } else {
        spec_assoc_names(es.drop_last()).insert(es.last().0, es.last().1)
    }
}

/// A map from string keys to record positions, last write winning.
#[derive(Debug)]
pub struct NameIndex {
    entries: Vec<(String, usize)>,
}

impl NameIndex {
    /// The entries' key sequences, in insertion order.
    pub closed spec fn entry_views(&self) -> Seq<(Seq<char>, usize)> {
        Seq::new(self.entries@.len(), |i: int| (self.entries@[i].0@, self.entries@[i].1))
    }
}

impl View for NameIndex {
    type V = Map<Seq<char>, usize>;

    closed spec fn view(&self) -> Map<Seq<char>, usize> {
        spec_assoc_names(self.entry_views())
    }
}

proof fn lemma_assoc_names_unread(es: Seq<(Seq<char>, usize)>, j: int, k: Seq<char>)
    requires
        0 <= j <= es.len(),
        forall|jj: int| j <= jj < es.len() ==> (#[trigger] es[jj]).0 != k,
    ensures
        spec_assoc_names(es).contains_key(k) == spec_assoc_names(es.take(j)).contains_key(k),
        spec_assoc_names(es).contains_key(k) ==> spec_assoc_names(es)[k] == spec_assoc_names(
            es.take(j),
        )[k],
    decreases es.len() - j,
{
    if j < es.len() {
        assert(es.take(j + 1).drop_last() =~= es.take(j));
        assert(es.take(j + 1).last() == es[j]);
        lemma_assoc_names_unread(es, j + 1, k);
    } else {
        assert(es.take(j) =~= es);
    }
}

impl NameIndex {
    /// An empty index.
    pub fn new() -> (r: NameIndex)
        ensures
            r@ == Map::<Seq<char>, usize>::empty(),
    {
        let r = NameIndex { entries: Vec::new() };
        proof {
            assert(r.entry_views() =~= Seq::<(Seq<char>, usize)>::empty());
        }
        r
    }

    /// Inserts a key, overriding any earlier entry with the same key.
    pub fn insert(&mut self, key: String, position: usize)
        ensures
            final(self)@ == old(self)@.insert(key@, position),
    {
        let ghost prior = self.entry_views();
        self.entries.push((key, position));
        proof {
            assert(self.entry_views().drop_last() =~= prior);
        }
    }

    /// The position the key was last inserted at, if it ever was.
    pub fn get(&self, key: &str) -> (r: Option<usize>)
        ensures
            r == (if self@.contains_key(key@) {
                Some(self@[key@])
            } else {
                None::<usize>
            }),
    {
        let ghost es = self.entry_views();
        let n = self.entries.len();
        let mut j: usize = n;
        while j > 0
            invariant
                0 <= j <= n,
                n == self.entries@.len(),
                es == self.entry_views(),
                forall|jj: int| j <= jj < n ==> (#[trigger] es[jj]).0 != key@,
            decreases j,
        {
            let e = &self.entries[j - 1];
            if str_eq(e.0.as_str(), key) {
                proof {
                    lemma_assoc_names_unread(es, j as int, key@);
                    assert(es.take(j as int).last() == es[j - 1]);
                    assert(es.take(j as int).drop_last() =~= es.take(j - 1));
                }
                return Some(e.1);
            }
            j = j - 1;
        }
        proof {
            lemma_assoc_names_unread(es, 0, key@);
            assert(es.take(0) =~= Seq::<(Seq<char>, usize)>::empty());
        }
        None
    }
}

/// The same association-vector map, for codepoint keys.
pub open spec fn spec_assoc_codes(es: Seq<(char, usize)>) -> Map<char, usize>
    decreases es.len(),
{
    if es.len() == 0 {
        Map::empty()
    } else {
        spec_assoc_codes(es.drop_last()).insert(es.last().0, es.last().1)
    }
}

/// A map from codepoints to record positions, last write winning.
#[derive(Debug)]
pub struct CodeIndex {
    entries: Vec<(char, usize)>,
}

impl View for CodeIndex {
    type V = Map<char, usize>;

    closed spec fn view(&self) -> Map<char, usize> {
        spec_assoc_codes(self.entries@)
    }
}

proof fn lemma_assoc_codes_unread(es: Seq<(char, usize)>, j: int, k: char)
    requires
        0 <= j <= es.len(),
        forall|jj: int| j <= jj < es.len() ==> (#[trigger] es[jj]).0 != k,
    ensures
        spec_assoc_codes(es).contains_key(k) == spec_assoc_codes(es.take(j)).contains_key(k),
        spec_assoc_codes(es).contains_key(k) ==> spec_assoc_codes(es)[k] == spec_assoc_codes(
            es.take(j),
        )[k],
    decreases es.len() - j,
{
    if j < es.len() {
        assert(es.take(j + 1).drop_last() =~= es.take(j));
        assert(es.take(j + 1).last() == es[j]);
        lemma_assoc_codes_unread(es, j + 1, k);
    } else {
        assert(es.take(j) =~= es);
    }
}

impl CodeIndex {
    /// An empty index.
    pub fn new() -> (r: CodeIndex)
        ensures
            r@ == Map::<char, usize>::empty(),
    {
        CodeIndex { entries: Vec::new() }
    }

    /// Inserts a codepoint, overriding any earlier entry with the same one.
    pub fn insert(&mut self, key: char, position: usize)
        ensures
            final(self)@ == old(self)@.insert(key, position),
    {
        let ghost prior = self.entries@;
        self.entries.push((key, position));
        proof {
            assert(self.entries@.drop_last() =~= prior);
        }
    }

    /// The position the codepoint was last inserted at, if it ever was.
    pub fn get(&self, key: char) -> (r: Option<usize>)
        ensures
            r == (if self@.contains_key(key) {
                Some(self@[key])
            } else {
                None::<usize>
            }),
    {
        let ghost es = self.entries@;
        let n = self.entries.len();
        let mut j: usize = n;
        while j > 0
            invariant
                0 <= j <= n,
                n == self.entries@.len(),
                es == self.entries@,
                forall|jj: int| j <= jj < n ==> (#[trigger] es[jj]).0 != key,
            decreases j,
        {
            let e = &self.entries[j - 1];
            if e.0 == key {
                proof {
                    lemma_assoc_codes_unread(es, j as int, key);
                    assert(es.take(j as int).last() == es[j - 1]);
                    assert(es.take(j as int).drop_last() =~= es.take(j - 1));
                }
                return Some(e.1);
            }
            j = j - 1;
        }
        proof {
            lemma_assoc_codes_unread(es, 0, key);
            assert(es.take(0) =~= Seq::<(char, usize)>::empty());
        }
        None
    }
}

} // verus!
