use std::collections::HashMap;
use std::sync::Arc;
use vstd::prelude::*;
use crate::types::structs::{Header, RefValue, SpecHeader, SpecRefValue, SpecSharedString};
use crate::utils::defs::{Defs, json_string_pairs};
use crate::utils::text::string_eq;

verus! {

broadcast use vstd::std_specs::hash::group_hash_axioms;

/// The state shared by the reading, decompiling and writing passes.
pub struct ImportantData {
    pub ref_id_ref_data_map: HashMap<u32, Arc<RefValue>>,
    pub ref_ids_with_data: Vec<u32>,
    pub header_version: u16,
    pub type_table: Vec<String>,
    pub current_max_id: u32,
    pub old_new_id_dict: HashMap<u32, u32>,
    pub ids_holding_data: Vec<u32>,
    pub current_map_index: u32,
    pub current_state_index: u32,
    pub trans_id_idx_dict: Vec<(u32, usize)>,
    pub trans_id_state_idx_dict: HashMap<u32, u32>,
    pub event_defs: Defs,
    pub func_defs: Defs,
}

/// The model of [`ImportantData`].
pub struct SpecImportantData {
    pub ref_data: Map<u32, SpecRefValue>,
    pub ref_ids_with_data: Seq<u32>,
    pub header_version: u16,
    pub type_table: Seq<Seq<char>>,
    pub current_max_id: u32,
    pub old_new_id: Map<u32, u32>,
    pub ids_holding_data: Seq<u32>,
    pub current_map_index: u32,
    pub current_state_index: u32,
    pub trans_id_idx: Seq<(u32, usize)>,
    pub trans_id_state_idx: Map<u32, u32>,
    pub event_defs: Seq<(Seq<char>, Seq<char>)>,
    pub func_defs: Seq<(Seq<char>, Seq<char>)>,
}

impl View for ImportantData {
    type V = SpecImportantData;

    open spec fn view(&self) -> SpecImportantData {
        SpecImportantData {
            ref_data: self.ref_id_ref_data_map@.map_values(|v: Arc<RefValue>| (*v)@),
            ref_ids_with_data: self.ref_ids_with_data@,
            header_version: self.header_version,
            type_table: self.type_table@.map_values(|s: String| s@),
            current_max_id: self.current_max_id,
            old_new_id: self.old_new_id_dict@,
            ids_holding_data: self.ids_holding_data@,
            current_map_index: self.current_map_index,
            current_state_index: self.current_state_index,
            trans_id_idx: self.trans_id_idx_dict@,
            trans_id_state_idx: self.trans_id_state_idx_dict@,
            event_defs: self.event_defs@,
            func_defs: self.func_defs@,
        }
    }
}

/// The table after storing `s` under the id `k` (ids are the positions).
pub open spec fn table_insert(t: Seq<Seq<char>>, k: int, s: Seq<char>) -> Seq<Seq<char>> {
    if k < t.len() {
        t.update(k, s)
    } else {
        t.push(s)
    }
}

/// The type table of a header's strings: the string at position `i` is stored
/// under the id `i` taken as a `u16`, later strings replacing earlier ones.
pub open spec fn type_table_of(strings: Seq<SpecSharedString>) -> Seq<Seq<char>>
    decreases strings.len(),
{
    if strings.len() == 0 {
        seq![]
    } else {
        let n = (strings.len() - 1) as int;
        table_insert(type_table_of(strings.drop_last()), n % 65536, strings.last().str)
    }
}

/// The state before reading or writing a file with header `h`, with function
/// definitions `f` and event definitions `e`.
pub open spec fn initial_data(
    h: SpecHeader,
    f: Seq<(Seq<char>, Seq<char>)>,
    e: Seq<(Seq<char>, Seq<char>)>,
) -> SpecImportantData {
    SpecImportantData {
        ref_data: Map::empty(),
        ref_ids_with_data: seq![],
        header_version: h.version,
        type_table: type_table_of(h.strings),
        current_max_id: 0,
        old_new_id: Map::empty(),
        ids_holding_data: seq![],
        current_map_index: 0,
        current_state_index: 0,
        trans_id_idx: seq![],
        trans_id_state_idx: Map::empty(),
        event_defs: e,
        func_defs: f,
    }
}

/// The name of the type with the (one-based) id `type_id`, if there is one.
pub open spec fn spec_type_name(table: Seq<Seq<char>>, type_id: u16) -> Option<Seq<char>> {
    if 1 <= type_id && type_id - 1 < table.len() {
        Some(table[type_id - 1])
    } else {
        None
    }
}

/// The position of the first entry of `table` equal to `name`, if any.
#[verifier::opaque]
pub open spec fn first_index_of(table: Seq<Seq<char>>, name: Seq<char>) -> Option<int> {
    if exists|i: int| 0 <= i < table.len() && table[i] == name {
        let i = choose|i: int|
            0 <= i < table.len() && table[i] == name && forall|j: int|
                0 <= j < i ==> table[j] != name;
        Some(i)
    } else {
        None
    }
}

/// The (one-based) id of the type named `name`: the first entry of that name,
/// when its id fits in a `u16`.
pub open spec fn spec_type_by_name(table: Seq<Seq<char>>, name: Seq<char>) -> Option<u16> {
    match first_index_of(table, name) {
        Some(i) => if i + 1 <= u16::MAX {
            Some((i + 1) as u16)
        } else {
            None
        },
        None => None,
    }
}

/// The first index of a name is the position of its first occurrence.
pub proof fn lemma_first_index_of(table: Seq<Seq<char>>, name: Seq<char>, i: int)
    requires
        0 <= i < table.len(),
        table[i] == name,
        forall|j: int| 0 <= j < i ==> table[j] != name,
    ensures
        first_index_of(table, name) == Some(i),
{
    reveal(first_index_of);
    let k = choose|k: int|
        0 <= k < table.len() && table[k] == name && forall|j: int| 0 <= j < k ==> table[j] != name;
    assert(exists|k: int|
        0 <= k < table.len() && table[k] == name && forall|j: int| 0 <= j < k ==> table[j] != name);
    if k < i {
        assert(table[k] != name);
    } else if k > i {
        assert(table[i] != name);
    }
}

impl ImportantData {
    /// The data for reading or writing a file with this header: its type
    /// table, and the function and event definitions of the two JSON texts.
    /// `None` when either text is not a JSON object of strings.
    pub fn default(header: &Header, func_defs_json: &str, event_defs_json: &str) -> (r: Option<
        ImportantData,
    >)
        ensures
            match r {
                Some(d) => json_string_pairs(func_defs_json@) matches Some(f)
                    && json_string_pairs(event_defs_json@) matches Some(e)
                    && d@ == initial_data(header@, f, e),
                None => json_string_pairs(func_defs_json@) is None || json_string_pairs(
                    event_defs_json@,
                ) is None,
            },
    {
        let mut type_table: Vec<String> = Vec::new();
        let mut idx: usize = 0;
        while idx < header.strings.len()
            invariant
                0 <= idx <= header.strings@.len(),
                type_table@.map_values(|s: String| s@) == type_table_of(
                    header@.strings.subrange(0, idx as int),
                ),
            decreases header.strings@.len() - idx,
        {
            let k = idx % 65536;
            let s = header.strings[idx].str.clone();
            proof {
                let sub = header@.strings.subrange(0, idx + 1);
                assert(sub.drop_last() == header@.strings.subrange(0, idx as int));
                assert(sub.last() == header.strings@[idx as int]@);
            }
            if k < type_table.len() {
                type_table.set(k, s);
            } else {
                type_table.push(s);
            }
            proof {
                let t = type_table@.map_values(|s: String| s@);
                let want = type_table_of(header@.strings.subrange(0, idx + 1));
                assert(t =~= want);
            }
            idx = idx + 1;
        }
        proof {
            assert(header@.strings.subrange(0, header@.strings.len() as int) == header@.strings);
        }
        let func_defs = match Defs::from_json(func_defs_json) {
            Some(d) => d,
            None => return None,
        };
        let event_defs = match Defs::from_json(event_defs_json) {
            Some(d) => d,
            None => return None,
        };
        let d = ImportantData {
            ref_id_ref_data_map: HashMap::new(),
            ref_ids_with_data: Vec::new(),
            header_version: header.version,
            type_table,
            current_max_id: 0,
            old_new_id_dict: HashMap::new(),
            ids_holding_data: Vec::new(),
            current_map_index: 0,
            current_state_index: 0,
            trans_id_idx_dict: Vec::new(),
            trans_id_state_idx_dict: HashMap::new(),
            func_defs,
            event_defs,
        };
        proof {
            assert(d@.ref_data =~= Map::<u32, SpecRefValue>::empty());
            assert(d@ == initial_data(header@, func_defs@, event_defs@));
        }
        Some(d)
    }

    /// The state before reading or writing a file with header `h`, with function
/// definitions `f` and event definitions `e`.
pub open spec fn initial_data(
    h: SpecHeader,
    f: Seq<(Seq<char>, Seq<char>)>,
    e: Seq<(Seq<char>, Seq<char>)>,
) -> SpecImportantData {
    SpecImportantData {
        ref_data: Map::empty(),
        ref_ids_with_data: seq![],
        header_version: h.version,
        type_table: type_table_of(h.strings),
        current_max_id: 0,
        old_new_id: Map::empty(),
        ids_holding_data: seq![],
        current_map_index: 0,
        current_state_index: 0,
        trans_id_idx: seq![],
        trans_id_state_idx: Map::empty(),
        event_defs: e,
        func_defs: f,
    }
}

/// The name of the type with the (one-based) id `type_id`.
    pub fn get_type_name(&self, type_id: u16) -> (r: String)
        requires
            1 <= type_id,
            type_id - 1 < self.type_table@.len(),
        ensures
            spec_type_name(self@.type_table, type_id) == Some(r@),
    {
        self.type_table[(type_id - 1) as usize].clone()
    }

    /// The (one-based) id of the first type named `name`; `None` when
    /// there is none or its id does not fit in a `u16`.
    pub fn get_type_by_name(&self, name: &str) -> (r: Option<u16>)
        ensures
            r == spec_type_by_name(self@.type_table, name@),
    {
        proof {
            reveal(first_index_of);
        }
        let mut i: usize = 0;
        while i < self.type_table.len()
            invariant
                0 <= i <= self.type_table@.len(),
                forall|j: int| 0 <= j < i ==> self@.type_table[j] != name@,
            decreases self.type_table@.len() - i,
        {
            if string_eq(&self.type_table[i], name) {
                proof {
                    lemma_first_index_of(self@.type_table, name@, i as int);
                }
                if i < 65535 {
                    return Some((i + 1) as u16);
                } else {
                    return None;
                }
            }
            i = i + 1;
        }
        None
    }

    /// Records that the data of `id` is being read; `true` the first time.
    pub fn should_read_data(&mut self, id: u32) -> (r: bool)
        ensures
            r == !old(self)@.ref_ids_with_data.contains(id),
            final(self)@ == (SpecImportantData {
                ref_ids_with_data: if r {
                    old(self)@.ref_ids_with_data.push(id)
                } else {
                    old(self)@.ref_ids_with_data
                },
                ..old(self)@
            }),
    {
        if vec_contains(&self.ref_ids_with_data, id) {
            false
        } else {
            self.ref_ids_with_data.push(id);
            true
        }
    }

    /// Records that the data of `id` is being written; `true` the first time.
    pub fn should_write_data(&mut self, id: u32) -> (r: bool)
        ensures
            r == !old(self)@.ids_holding_data.contains(id),
            final(self)@ == (SpecImportantData {
                ids_holding_data: if r {
                    old(self)@.ids_holding_data.push(id)
                } else {
                    old(self)@.ids_holding_data
                },
                ..old(self)@
            }),
    {
        if vec_contains(&self.ids_holding_data, id) {
            false
        } else {
            self.ids_holding_data.push(id);
            true
        }
    }
}

/// Whether `v` holds `x`.
pub fn vec_contains(v: &Vec<u32>, x: u32) -> (r: bool)
    ensures
        r == v@.contains(x),
{
    let mut i: usize = 0;
    while i < v.len()
        invariant
            0 <= i <= v@.len(),
            forall|j: int| 0 <= j < i ==> v@[j] != x,
        decreases v@.len() - i,
    {
        if v[i] == x {
            return true;
        }
        i = i + 1;
    }
    false
}

/// The stored objects are finitely many.
pub proof fn lemma_ref_data_finite(d: &ImportantData)
    ensures
        d@.ref_data.dom().finite(),
{
    assert(d@.ref_data.dom() =~= d.ref_id_ref_data_map@.dom());
}

} // verus!
