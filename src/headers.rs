//! Header blocks: a mapping from header name to value with unique names.
use vstd::prelude::*;
use crate::lex::bytes_eq;

verus! {

/// Whether no two entries share a name.
pub open spec fn unique_names<V>(m: Seq<(Seq<u8>, V)>) -> bool {
    forall|i: int, j: int| 0 <= i < j < m.len() ==> m[i].0 != m[j].0
}

pub open spec fn has_name<V>(m: Seq<(Seq<u8>, V)>, k: Seq<u8>) -> bool {
    exists|i: int| 0 <= i < m.len() && m[i].0 == k
}

/// Position of the entry named `k`.
pub open spec fn name_index<V>(m: Seq<(Seq<u8>, V)>, k: Seq<u8>) -> int {
    choose|i: int| 0 <= i < m.len() && m[i].0 == k
}

/// The value recorded under `k`.
pub open spec fn lookup<V>(m: Seq<(Seq<u8>, V)>, k: Seq<u8>) -> Option<V> {
    if has_name(m, k) {
        Some(m[name_index(m, k)].1)
    } else {
        None
    }
}

/// Records `v` under `k`: an existing entry is overwritten in place, a new one goes last.
pub open spec fn assoc_insert<V>(m: Seq<(Seq<u8>, V)>, k: Seq<u8>, v: V) -> Seq<(Seq<u8>, V)> {
    if has_name(m, k) {
        m.update(name_index(m, k), (k, v))
    } else {
        m.push((k, v))
    }
}

/// The header block that a sequence of lines produces, later lines overwriting earlier ones.
pub open spec fn headers_of(lines: Seq<(Seq<u8>, Seq<u8>)>) -> Seq<(Seq<u8>, Seq<u8>)>
    decreases lines.len(),
{
    if lines.len() == 0 {
        Seq::empty()
    } else {
        assoc_insert(headers_of(lines.drop_last()), lines.last().0, lines.last().1)
    }
}

/// In a block with unique names, the entry at `i` is what `lookup` finds.
pub proof fn lemma_lookup_at<V>(m: Seq<(Seq<u8>, V)>, i: int)
    requires
        unique_names(m),
        0 <= i < m.len(),
    ensures
        lookup(m, m[i].0) == Some(m[i].1),
{
    assert(has_name(m, m[i].0));
    let j = name_index(m, m[i].0);
    assert(j == i);
}

pub proof fn lemma_insert_unique<V>(m: Seq<(Seq<u8>, V)>, k: Seq<u8>, v: V)
    requires
        unique_names(m),
    ensures
        unique_names(assoc_insert(m, k, v)),
        lookup(assoc_insert(m, k, v), k) == Some(v),
        forall|k2: Seq<u8>| k2 != k ==> lookup(assoc_insert(m, k, v), k2) == lookup(m, k2),
{
    let r = assoc_insert(m, k, v);
    if has_name(m, k) {
        let i = name_index(m, k);
        assert(unique_names(r));
        lemma_lookup_at(r, i);
        assert forall|k2: Seq<u8>| k2 != k implies lookup(r, k2) == lookup(m, k2) by {
            if has_name(m, k2) {
                let j = name_index(m, k2);
                lemma_lookup_at(r, j);
            } else {
                assert(!has_name(r, k2));
            }
        }
    } else {
        assert(unique_names(r));
        lemma_lookup_at(r, m.len() as int);
        assert forall|k2: Seq<u8>| k2 != k implies lookup(r, k2) == lookup(m, k2) by {
            if has_name(m, k2) {
                let j = name_index(m, k2);
                lemma_lookup_at(r, j);
            } else {
                assert(!has_name(r, k2));
            }
        }
    }
}

/// Header name to value; names are unique and a later value for a name replaces the earlier one.
#[derive(Debug, Clone, PartialEq, Eq, Default)]
pub struct HeaderMap {
    entries: Vec<(Vec<u8>, Vec<u8>)>,
}

impl View for HeaderMap {
    type V = Seq<(Seq<u8>, Seq<u8>)>;

    closed spec fn view(&self) -> Seq<(Seq<u8>, Seq<u8>)> {
        self.entries@.map_values(|e: (Vec<u8>, Vec<u8>)| (e.0@, e.1@))
    }
}

impl HeaderMap {
    pub open spec fn wf(&self) -> bool {
        unique_names(self@)
    }

    pub fn new() -> (r: HeaderMap)
        ensures
            r@ == Seq::<(Seq<u8>, Seq<u8>)>::empty(),
            r.wf(),
    {
        HeaderMap { entries: Vec::new() }
    }

    pub fn len(&self) -> (r: usize)
        ensures
            r == self@.len(),
    {
        self.entries.len()
    }

    /// Position of the entry named `name`, if any.
    fn position(&self, name: &[u8]) -> (r: Option<usize>)
        requires
            self.wf(),
        ensures
            match r {
                Some(i) => i < self@.len() && self@[i as int].0 == name@ && has_name(self@, name@)
                    && name_index(self@, name@) == i,
                None => !has_name(self@, name@),
            },
    {
        let mut i: usize = 0;
        while i < self.entries.len()
            invariant
                i <= self@.len(),
                self.wf(),
                self@.len() == self.entries@.len(),
                forall|j: int| 0 <= j < i ==> self@[j].0 != name@,
            decreases self@.len() - i,
        {
            if bytes_eq(self.entries[i].0.as_slice(), name) {
                assert(self@[i as int].0 == name@);
                assert(has_name(self@, name@));
                let ghost j = name_index(self@, name@);
                assert(0 <= j < self@.len() && self@[j].0 == name@);
                assert(j == i) by {
                    if j < i {
                        assert(self@[j].0 != name@);
                    } else if j > i {
                        assert(self@[i as int].0 != self@[j].0);
                    }
                }
                return Some(i);
            }
            i += 1;
        }
        None
    }

    /// Records `value` under `name`, replacing what was there.
    pub fn insert(&mut self, name: Vec<u8>, value: Vec<u8>)
        requires
            old(self).wf(),
        ensures
            final(self).wf(),
            final(self)@ == assoc_insert(old(self)@, name@, value@),
    {
        proof {
            lemma_insert_unique(self@, name@, value@);
        }
        match self.position(name.as_slice()) {
            Some(i) => {
                self.entries.set(i, (name, value));
                assert(self@ =~= assoc_insert(old(self)@, name@, value@));
            },
            None => {
                self.entries.push((name, value));
                assert(self@ =~= assoc_insert(old(self)@, name@, value@));
            },
        }
    }

    /// The value recorded under `name`.
    pub fn get(&self, name: &[u8]) -> (r: Option<&Vec<u8>>)
        requires
            self.wf(),
        ensures
            match r {
                Some(v) => lookup(self@, name@) == Some(v@),
                None => lookup(self@, name@) is None,
            },
    {
        match self.position(name) {
            Some(i) => Some(&self.entries[i].1),
            None => None,
        }
    }

    /// Whether `name` is recorded with exactly `value`.
    pub fn has_value(&self, name: &[u8], value: &[u8]) -> (r: bool)
        requires
            self.wf(),
        ensures
            r == (lookup(self@, name@) == Some(value@)),
    {
        match self.get(name) {
            Some(v) => bytes_eq(v.as_slice(), value),
            None => false,
        }
    }
}

} // verus!
