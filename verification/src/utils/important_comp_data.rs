use std::collections::HashMap;
use vstd::prelude::*;
use crate::utils::defs::{Defs, json_string_pairs};

verus! {

/// The state of compiling a text: the ids handed out so far, the
/// transitions and events already compiled (to share their ids), and the
/// definitions.
pub struct ImportantCompData {
    pub highest_id: u32,
    /// Condition bytes and target state index of each transition, with its id.
    pub cond_data_trans_id_dict: Vec<(Vec<u8>, u32, u32)>,
    /// Event id and argument bytes of each entry or exit event, with its id.
    pub event_data_event_id_dict: Vec<(u32, Vec<Vec<u8>>, u32)>,
    pub transition_ids: Vec<u32>,
    pub transition_count: u32,
    pub state_ref_order: Vec<u32>,
    pub state_idx_state_id_dict: HashMap<u32, u32>,
    pub func_defs: Defs,
    pub event_defs: Defs,
}

/// The model of [`ImportantCompData`].
pub struct SpecCompData {
    pub highest_id: u32,
    pub cond_trans: Seq<(Seq<u8>, u32, u32)>,
    pub event_ids: Seq<(u32, Seq<Seq<u8>>, u32)>,
    pub transition_ids: Seq<u32>,
    pub transition_count: u32,
    pub state_ref_order: Seq<u32>,
    pub state_ids: Map<u32, u32>,
    pub func_defs: Seq<(Seq<char>, Seq<char>)>,
    pub event_defs: Seq<(Seq<char>, Seq<char>)>,
}

/// The models of the argument buffers of an event key.
pub open spec fn datas_view(v: Seq<Vec<u8>>) -> Seq<Seq<u8>> {
    v.map_values(|x: Vec<u8>| x@)
}

impl View for ImportantCompData {
    type V = SpecCompData;

    open spec fn view(&self) -> SpecCompData {
        SpecCompData {
            highest_id: self.highest_id,
            cond_trans: self.cond_data_trans_id_dict@.map_values(
                |e: (Vec<u8>, u32, u32)| (e.0@, e.1, e.2),
            ),
            event_ids: self.event_data_event_id_dict@.map_values(
                |e: (u32, Vec<Vec<u8>>, u32)| (e.0, datas_view(e.1@), e.2),
            ),
            transition_ids: self.transition_ids@,
            transition_count: self.transition_count,
            state_ref_order: self.state_ref_order@,
            state_ids: self.state_idx_state_id_dict@,
            func_defs: self.func_defs@,
            event_defs: self.event_defs@,
        }
    }
}

/// The state before compiling, with function definitions `f` and event
/// definitions `e`.
pub open spec fn initial_comp_data(f: Seq<(Seq<char>, Seq<char>)>, e: Seq<(Seq<char>, Seq<char>)>) -> SpecCompData {
    SpecCompData {
        highest_id: 0,
        cond_trans: seq![],
        event_ids: seq![],
        transition_ids: seq![],
        transition_count: 0,
        state_ref_order: seq![],
        state_ids: Map::empty(),
        func_defs: f,
        event_defs: e,
    }
}

/// The state after handing out the next id.
pub open spec fn next_id_data(c: SpecCompData) -> SpecCompData {
    SpecCompData { highest_id: (c.highest_id + 1) as u32, ..c }
}

impl ImportantCompData {
    /// The state before compiling, with the definitions of the two JSON
    /// texts; `None` when either is not a JSON object of strings.
    pub fn new(func_defs_json: &str, event_defs_json: &str) -> (r: Option<ImportantCompData>)
        ensures
            match r {
                Some(c) => json_string_pairs(func_defs_json@) matches Some(f)
                    && json_string_pairs(event_defs_json@) matches Some(e)
                    && c@ == initial_comp_data(f, e),
                None => json_string_pairs(func_defs_json@) is None || json_string_pairs(
                    event_defs_json@,
                ) is None,
            },
    {
        let func_defs = match Defs::from_json(func_defs_json) {
            Some(d) => d,
            None => return None,
        };
        let event_defs = match Defs::from_json(event_defs_json) {
            Some(d) => d,
            None => return None,
        };
        let c = ImportantCompData {
            highest_id: 0,
            cond_data_trans_id_dict: Vec::new(),
            event_data_event_id_dict: Vec::new(),
            transition_ids: Vec::new(),
            transition_count: 0,
            state_ref_order: Vec::new(),
            state_idx_state_id_dict: HashMap::new(),
            func_defs,
            event_defs,
        };
        proof {
            assert(c@.cond_trans =~= Seq::<(Seq<u8>, u32, u32)>::empty());
            assert(c@.event_ids =~= Seq::<(u32, Seq<Seq<u8>>, u32)>::empty());
        }
        Some(c)
    }

    /// Hands out the next id.
    pub fn get_next_id(&mut self) -> (r: u32)
        requires
            old(self).highest_id < u32::MAX,
        ensures
            r == old(self).highest_id + 1,
            final(self)@ == next_id_data(old(self)@),
    {
        self.highest_id = self.highest_id + 1;
        self.highest_id
    }
}

} // verus!
