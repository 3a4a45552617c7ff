//! The header map: a name-to-value mapping with case-sensitive names, each
//! name present at most once; inserting an existing name replaces its value.

use crate::text::str_eq;
use vstd::prelude::*;

verus! {

/// Index of the entry whose name is `k`, if any.
pub open spec fn key_index(m: Seq<(Seq<char>, Seq<char>)>, k: Seq<char>) -> Option<int>
    decreases m.len(),
{
    if m.len() == 0 {
        None
    } else if m[0].0 == k {
        Some(0)
    } else {
        match key_index(m.drop_first(), k) {
            None => None,
            Some(i) => Some(i + 1),
        }
    }
}

/// The value stored under the name `k`, if any.
pub open spec fn lookup(m: Seq<(Seq<char>, Seq<char>)>, k: Seq<char>) -> Option<Seq<char>> {
    match key_index(m, k) {
        None => None,
        Some(i) => Some(m[i].1),
    }
}

/// The entries after storing `v` under `k`: the existing entry is replaced,
/// or a new one is appended.
pub open spec fn insert_pair(
    m: Seq<(Seq<char>, Seq<char>)>,
    k: Seq<char>,
    v: Seq<char>,
) -> Seq<(Seq<char>, Seq<char>)> {
    match key_index(m, k) {
        None => m.push((k, v)),
        Some(i) => m.update(i, (k, v)),
    }
}

/// `key_index` returns the first entry named `k`, or reports that none is.
pub proof fn lemma_key_index_props(m: Seq<(Seq<char>, Seq<char>)>, k: Seq<char>)
    ensures
        match key_index(m, k) {
            Some(i) => 0 <= i < m.len() && m[i].0 == k && (forall|j: int|
                0 <= j < i ==> m[j].0 != k),
            None => forall|j: int| 0 <= j < m.len() ==> m[j].0 != k,
        },
    decreases m.len(),
{
    if m.len() == 0 {
    } else if m[0].0 == k {
    } else {
        let t = m.drop_first();
        lemma_key_index_props(t, k);
        match key_index(t, k) {
            Some(i) => {
                assert(t[i] == m[i + 1]);
                assert forall|j: int| 0 <= j < i + 1 implies m[j].0 != k by {
                    if j > 0 {
                        assert(t[j - 1] == m[j]);
                    }
                }
            },
            None => {
                assert forall|j: int| 0 <= j < m.len() implies m[j].0 != k by {
                    if j > 0 {
                        assert(t[j - 1] == m[j]);
                    }
                }
            },
        }
    }
}

/// A mapping from header name to value. Its view is the sequence of
/// name/value pairs in insertion order.
pub struct HeaderMap {
    pairs: Vec<(String, String)>,
}

impl View for HeaderMap {
    type V = Seq<(Seq<char>, Seq<char>)>;

    closed spec fn view(&self) -> Seq<(Seq<char>, Seq<char>)> {
        Seq::new(self.pairs@.len(), |i: int| (self.pairs@[i].0@, self.pairs@[i].1@))
    }
}

impl HeaderMap {
    /// Each name appears at most once.
    pub open spec fn wf(&self) -> bool {
        forall|i: int, j: int| 0 <= i < j < self@.len() ==> self@[i].0 != self@[j].0
    }

    /// The empty map.
    pub fn new() -> (r: HeaderMap)
        ensures
            r@ == Seq::<(Seq<char>, Seq<char>)>::empty(),
            r.wf(),
    {
        let r = HeaderMap { pairs: Vec::new() };
        proof {
            assert(r@ =~= Seq::<(Seq<char>, Seq<char>)>::empty());
        }
        r
    }

    /// How many entries the map holds.
    pub fn len(&self) -> (r: usize)
        ensures
            r == self@.len(),
    {
        self.pairs.len()
    }

    /// The name of the entry at position `i`.
    pub fn name_at(&self, i: usize) -> (r: &String)
        requires
            i < self@.len(),
        ensures
            r@ == self@[i as int].0,
    {
        &self.pairs[i].0
    }

    /// The value of the entry at position `i`.
    pub fn value_at(&self, i: usize) -> (r: &String)
        requires
            i < self@.len(),
        ensures
            r@ == self@[i as int].1,
    {
        &self.pairs[i].1
    }

    /// Position of the entry named `k`, as `key_index` gives it.
    fn index_of(&self, k: &str) -> (r: Option<usize>)
        ensures
            match r {
                Some(i) => key_index(self@, k@) == Some(i as int),
                None => key_index(self@, k@) is None,
            },
    {
        let n = self.pairs.len();
        let mut i: usize = 0;
        while i < n
            invariant
                n == self@.len(),
                i <= n,
                forall|j: int| 0 <= j < i ==> self@[j].0 != k@,
            decreases n - i,
        {
            if str_eq(self.pairs[i].0.as_str(), k) {
                proof {
                    assert(self@[i as int].0 == self.pairs@[i as int].0@);
                    lemma_key_index_props(self@, k@);
                }
                return Some(i);
            }
            i += 1;
        }
        proof {
            lemma_key_index_props(self@, k@);
        }
        None
    }

    /// The value stored under `k`, as `lookup` gives it.
    pub fn get(&self, k: &str) -> (r: Option<&String>)
        ensures
            match r {
                Some(v) => lookup(self@, k@) == Some(v@),
                None => lookup(self@, k@) is None,
            },
    {
        match self.index_of(k) {
            Some(i) => {
                proof {
                    lemma_key_index_props(self@, k@);
                }
                Some(&self.pairs[i].1)
            },
            None => None,
        }
    }

    /// Stores `v` under `k`, replacing any earlier value for `k`.
    pub fn insert(&mut self, k: String, v: String)
        ensures
            final (self)@ == insert_pair(old(self)@, k@, v@),
            old(self).wf() ==> final (self).wf(),
    {
        match self.index_of(k.as_str()) {
            Some(i) => {
                proof {
                    lemma_key_index_props(self@, k@);
                }
                self.pairs[i] = (k, v);
                proof {
                    assert(self@ =~~= insert_pair(old(self)@, k@, v@));
                }
            },
            None => {
                proof {
                    lemma_key_index_props(self@, k@);
                }
                self.pairs.push((k, v));
                proof {
                    assert(self@ =~~= insert_pair(old(self)@, k@, v@));
                }
            },
        }
    }
}

} // verus!
