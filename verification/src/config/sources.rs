//! Where each configuration setting came from.
use vstd::prelude::*;
use crate::text::{owned, str_eq};

verus! {

/// The setting names mapped to where their values came from; a later record for a
/// name replaces an earlier one.
pub open spec fn records_map(s: Seq<(Seq<char>, Seq<char>)>) -> Map<Seq<char>, Seq<char>>
    decreases s.len(),
{
    if s.len() == 0 {
        Map::empty()
    } else {
        records_map(s.drop_last()).insert(s.last().0, s.last().1)
    }
}

/// Where each setting of a configuration came from (a setting name to a source such
/// as `default`, `environment`, `cli` or a file name).
#[derive(Debug, Clone)]
pub struct Sources {
    records: Vec<(String, String)>,
}

/// The views of a list of name and source pairs.
pub open spec fn record_views(v: Seq<(String, String)>) -> Seq<(Seq<char>, Seq<char>)> {
    v.map_values(|r: (String, String)| (r.0@, r.1@))
}

proof fn lemma_records_map_last(s: Seq<(Seq<char>, Seq<char>)>, k: Seq<char>, i: int)
    requires
        0 <= i < s.len(),
        s[i].0 == k,
        forall|j: int| i < j < s.len() ==> s[j].0 != k,
    ensures
        records_map(s).contains_key(k),
        records_map(s)[k] == s[i].1,
    decreases s.len(),
{
    if i < s.len() - 1 {
        lemma_records_map_last(s.drop_last(), k, i);
    }
}

proof fn lemma_records_map_absent(s: Seq<(Seq<char>, Seq<char>)>, k: Seq<char>)
    requires
        forall|j: int| 0 <= j < s.len() ==> s[j].0 != k,
    ensures
        !records_map(s).contains_key(k),
    decreases s.len(),
{
    if s.len() > 0 {
        lemma_records_map_absent(s.drop_last(), k);
    }
}

impl View for Sources {
    type V = Map<Seq<char>, Seq<char>>;

    closed spec fn view(&self) -> Map<Seq<char>, Seq<char>> {
        records_map(record_views(self.records@))
    }
}

impl Sources {
    /// No setting has a recorded source.
    pub fn new() -> (r: Sources)
        ensures
            r@ == Map::<Seq<char>, Seq<char>>::empty(),
    {
        let r = Sources { records: Vec::new() };
        assert(record_views(r.records@) =~= Seq::empty());
        r
    }

    /// Records that setting `key` came from `source`.
    pub fn insert(&mut self, key: &str, source: &str)
        ensures
            final(self)@ == old(self)@.insert(key@, source@),
    {
        let k = owned(key);
        let v = owned(source);
        let ghost before = self.records@;
        self.records.push((k, v));
        assert(record_views(self.records@).drop_last() =~= record_views(before));
    }

    /// Where setting `key` came from, if it was recorded.
    pub fn get(&self, key: &str) -> (r: Option<&String>)
        ensures
            match r {
                Some(v) => self@.contains_key(key@) && self@[key@] == v@,
                None => !self@.contains_key(key@),
            },
    {
        let ghost rv = record_views(self.records@);
        let mut i = self.records.len();
        while i > 0
            invariant
                i <= self.records.len(),
                rv == record_views(self.records@),
                forall|j: int| i <= j < rv.len() ==> rv[j].0 != key@,
            decreases i,
        {
            i = i - 1;
            if str_eq(self.records[i].0.as_str(), key) {
                proof {
                    lemma_records_map_last(rv, key@, i as int);
                }
                return Some(&self.records[i].1);
            }
        }
        proof {
            lemma_records_map_absent(rv, key@);
        }
        None
    }

    /// Whether a source was recorded for setting `key`.
    pub fn contains_key(&self, key: &str) -> (r: bool)
        ensures
            r == self@.contains_key(key@),
    {
        self.get(key).is_some()
    }
}

} // verus!
