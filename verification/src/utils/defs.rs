use vstd::prelude::*;
use crate::utils::text::str_eq;
use crate::utils::strings::{parse_in, parse_int};

verus! {

/// The id/name pairs that a JSON object of strings holds, ordered by id.
pub uninterp spec fn json_string_pairs(text: Seq<char>) -> Option<Seq<(Seq<char>, Seq<char>)>>;

/// The models of a list of string pairs.
pub open spec fn pair_views(v: Seq<(String, String)>) -> Seq<(Seq<char>, Seq<char>)> {
    v.map_values(|p: (String, String)| (p.0@, p.1@))
}

/// Whether no two entries have the same id.
pub open spec fn distinct_ids(d: Seq<(Seq<char>, Seq<char>)>) -> bool {
    forall|i: int, j: int| 0 <= i < j < d.len() ==> (#[trigger] d[i]).0 != (#[trigger] d[j]).0
}

/// `serde_json::from_str` into a `BTreeMap<String, String>`, flattened into
/// its entries in key order. The contract claims that the result is
/// determined by the text (`None` when the text is not a JSON object of
/// strings) and that a map holds each key once; the order of the keys is
/// left unsaid.
#[verifier::external_body]
fn parse_json_string_pairs(text: &str) -> (r: Option<Vec<(String, String)>>)
    ensures
        match r {
            Some(v) => json_string_pairs(text@) == Some(pair_views(v@)) && distinct_ids(pair_views(v@)),
            None => json_string_pairs(text@) is None,
        },
{
    serde_json::from_str::<std::collections::BTreeMap<String, String>>(text).ok().map(
        |m| m.into_iter().collect(),
    )
}

/// A table of definitions that maps ids (decimal strings) to names.
#[derive(Debug)]
pub struct Defs {
    pub entries: Vec<(String, String)>,
}

impl View for Defs {
    type V = Seq<(Seq<char>, Seq<char>)>;

    open spec fn view(&self) -> Seq<(Seq<char>, Seq<char>)> {
        pair_views(self.entries@)
    }
}

/// The name that the first entry with id `key` gives, if any.
pub open spec fn defs_lookup(d: Seq<(Seq<char>, Seq<char>)>, key: Seq<char>) -> Option<Seq<char>>
    decreases d.len(),
{
    if d.len() == 0 {
        None
    } else if d[0].0 == key {
        Some(d[0].1)
    } else {
        defs_lookup(d.drop_first(), key)
    }
}

impl Defs {
    /// The definitions that a JSON object of strings holds; `None` when the
    /// text is not one.
    pub fn from_json(text: &str) -> (r: Option<Defs>)
        ensures
            match r {
                Some(d) => json_string_pairs(text@) == Some(d@) && distinct_ids(d@),
                None => json_string_pairs(text@) is None,
            },
    {
        match parse_json_string_pairs(text) {
            Some(entries) => Some(Defs { entries }),
            None => None,
        }
    }
}

impl Defs {
    /// The name defined for the id `key`, if any.
    pub fn get(&self, key: &str) -> (r: Option<String>)
        ensures
            match r {
                Some(name) => defs_lookup(self@, key@) == Some(name@),
                None => defs_lookup(self@, key@) is None,
            },
    {
        proof {
            assert(self@.skip(0) =~= self@);
        }
        let mut i: usize = 0;
        while i < self.entries.len()
            invariant
                0 <= i <= self.entries@.len(),
                defs_lookup(self@, key@) == defs_lookup(self@.skip(i as int), key@),
            decreases self.entries@.len() - i,
        {
            proof {
                assert(self@.skip(i as int).drop_first() =~= self@.skip(i + 1));
            }
            if str_eq(self.entries[i].0.as_str(), key) {
                return Some(self.entries[i].1.clone());
            }
            i = i + 1;
        }
        None
    }
}

impl Defs {
    /// Whether some definition has the name `name`.
    pub fn has_name(&self, name: &str) -> (r: bool)
        ensures
            r == defs_has_name(self@, name@),
    {
        let mut i: usize = 0;
        while i < self.entries.len()
            invariant
                0 <= i <= self.entries@.len(),
                forall|j: int| 0 <= j < i ==> (#[trigger] self@[j]).1 != name@,
            decreases self.entries@.len() - i,
        {
            if str_eq(self.entries[i].1.as_str(), name) {
                proof {
                    assert(self@[i as int].1 == name@);
                }
                return true;
            }
            i = i + 1;
        }
        false
    }

    /// The id of the last definition named `name`, read as a number in
    /// `lo..=hi`: `Some(None)` when no definition has that name, `None` when
    /// the id of one that has it cannot be read.
    pub fn last_id(&self, name: &str, lo: i64, hi: i64) -> (r: Option<Option<i64>>)
        requires
            lo <= 0 <= hi,
        ensures
            match r {
                Some(Some(v)) => last_id_of(self@, name@, lo as int, hi as int) == Some(Some(v as int))
                    && lo <= v <= hi,
                Some(None) => last_id_of(self@, name@, lo as int, hi as int) == Some(None::<int>),
                None => last_id_of(self@, name@, lo as int, hi as int) is None,
            },
    {
        let mut acc: Option<i64> = None;
        let mut i: usize = 0;
        proof {
            assert(self@.take(0) =~= Seq::<(Seq<char>, Seq<char>)>::empty());
        }
        while i < self.entries.len()
            invariant
                0 <= i <= self.entries@.len(),
                lo <= 0 <= hi,
                acc matches Some(v) ==> lo <= v <= hi,
                last_id_of(self@.take(i as int), name@, lo as int, hi as int) == Some(
                    match acc {
                        Some(v) => Some(v as int),
                        None => None::<int>,
                    },
                ),
            decreases self.entries@.len() - i,
        {
            proof {
                assert(self@.take(i + 1).drop_last() =~= self@.take(i as int));
            }
            if str_eq(self.entries[i].1.as_str(), name) {
                match parse_int(self.entries[i].0.as_str(), lo, hi) {
                    Some(v) => {
                        acc = Some(v);
                    },
                    None => {
                        proof {
                            lemma_last_id_none(self@, name@, lo as int, hi as int, (i + 1) as nat);
                        }
                        return None;
                    },
                }
            }
            i = i + 1;
        }
        proof {
            assert(self@.take(self@.len() as int) =~= self@);
        }
        Some(acc)
    }
}

/// Whether some definition has the name `name`.
pub open spec fn defs_has_name(d: Seq<(Seq<char>, Seq<char>)>, name: Seq<char>) -> bool {
    exists|i: int| 0 <= i < d.len() && (#[trigger] d[i]).1 == name
}

/// The id of the last definition named `name`, its id read as a number in
/// `lo..=hi`; `Some(None)` when no definition has that name, `None` when the
/// id of one that has it cannot be read.
pub open spec fn last_id_of(d: Seq<(Seq<char>, Seq<char>)>, name: Seq<char>, lo: int, hi: int) -> Option<Option<int>>
    decreases d.len(),
{
    if d.len() == 0 {
        Some(None)
    } else {
        match last_id_of(d.drop_last(), name, lo, hi) {
            Some(prev) => if d.last().1 == name {
                match parse_in(d.last().0, lo, hi) {
                    Some(v) => Some(Some(v)),
                    None => None,
                }
            } else {
                Some(prev)
            },
            None => None,
        }
    }
}

/// Once reading an id fails, it fails for every longer list.
pub proof fn lemma_last_id_none(d: Seq<(Seq<char>, Seq<char>)>, name: Seq<char>, lo: int, hi: int, i: nat)
    requires
        i <= d.len(),
        last_id_of(d.take(i as int), name, lo, hi) is None,
    ensures
        last_id_of(d, name, lo, hi) is None,
    decreases d.len() - i,
{
    if i < d.len() {
        assert(d.take(i + 1 as int).drop_last() =~= d.take(i as int));
        lemma_last_id_none(d, name, lo, hi, i + 1);
    } else {
        assert(d.take(i as int) =~= d);
    }
}

} // verus!
