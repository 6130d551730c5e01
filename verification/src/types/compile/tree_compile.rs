//! Compiling the lines of a text into transitions, states, maps and the
//! project.
use std::sync::Arc;
use vstd::prelude::*;
use crate::types::compile::condition_bytes::compile_condition;
use crate::types::compile::event_spec::event_from_text;
use crate::types::compile::tree_spec::{
    compile_header, compile_map, compile_project, compile_state, compile_transition, event_ref,
    find_event, find_transition, map_loop, new_ref, pass_loop, project_loop, section_flags,
    starts_block, state_loop, table_string, transition_ref, vec_of, StateAcc,
};
use crate::types::structs::{
    Buffer, DLVectorReference, EsdMap, Event, Header, Project, RefValue, Reference, SharedString,
    SpecBuffer, SpecReference, State, Transition, ref_models, views_of,
};
use crate::utils::important_comp_data::{ImportantCompData, SpecCompData, datas_view, next_id_data};
use crate::utils::important_data::vec_contains;
use crate::utils::strings::{contains_text, parse_in, parse_int, replace_all, replace_text, starts_with, text_contains, text_starts_with};
use crate::utils::text::{str_eq, string_eq};
use crate::utils::text_reader::TextReader;
use crate::utils::text_writer::string_views;

verus! {

/// A reference vector holding `refs`.
fn vector_of(refs: Vec<Reference>) -> (r: DLVectorReference)
    ensures
        r@ == vec_of(ref_models(refs@)),
{
    let n = refs.len() as u32;
    let r = DLVectorReference { struct_type: 2, ref_count: n, item_type: None, references: refs };
    proof {
        assert(r@.references =~= ref_models(r.references@));
    }
    r
}

/// Whether two byte vectors are equal.
fn bytes_eq(a: &Vec<u8>, b: &Vec<u8>) -> (r: bool)
    ensures
        r == (a@ == b@),
{
    if a.len() != b.len() {
        return false;
    }
    let mut i: usize = 0;
    while i < a.len()
        invariant
            0 <= i <= a@.len(),
            a@.len() == b@.len(),
            forall|j: int| 0 <= j < i ==> a@[j] == b@[j],
        decreases a@.len() - i,
    {
        if a[i] != b[i] {
            return false;
        }
        i = i + 1;
    }
    proof {
        assert(a@ =~= b@);
    }
    true
}

/// Whether two lists of byte vectors are equal.
fn datas_eq(a: &Vec<Vec<u8>>, b: &Vec<Vec<u8>>) -> (r: bool)
    ensures
        r == (datas_view(a@) == datas_view(b@)),
{
    if a.len() != b.len() {
        proof {
            assert(datas_view(a@).len() != datas_view(b@).len());
        }
        return false;
    }
    let mut i: usize = 0;
    while i < a.len()
        invariant
            0 <= i <= a@.len(),
            a@.len() == b@.len(),
            forall|j: int| 0 <= j < i ==> a@[j]@ == b@[j]@,
        decreases a@.len() - i,
    {
        if !bytes_eq(&a[i], &b[i]) {
            proof {
                assert(datas_view(a@)[i as int] != datas_view(b@)[i as int]);
            }
            return false;
        }
        i = i + 1;
    }
    proof {
        assert(datas_view(a@) =~= datas_view(b@));
    }
    true
}

impl ImportantCompData {
    /// The id of the first entry or exit event with this id and these
    /// argument bytes.
    pub fn find_event_id(&self, event_id: u32, datas: &Vec<Vec<u8>>) -> (r: Option<u32>)
        ensures
            r == find_event(self@.event_ids, event_id, datas_view(datas@)),
    {
        let ghost l = self@.event_ids;
        let mut i: usize = 0;
        proof {
            assert(l.skip(0) =~= l);
        }
        while i < self.event_data_event_id_dict.len()
            invariant
                0 <= i <= self.event_data_event_id_dict@.len(),
                l == self@.event_ids,
                find_event(l, event_id, datas_view(datas@)) == find_event(l.skip(i as int), event_id, datas_view(datas@)),
            decreases self.event_data_event_id_dict@.len() - i,
        {
            proof {
                assert(l.skip(i as int).drop_first() =~= l.skip(i + 1));
            }
            let e = &self.event_data_event_id_dict[i];
            if e.0 == event_id && datas_eq(&e.1, datas) {
                return Some(e.2);
            }
            i = i + 1;
        }
        None
    }

    /// The id of the first transition with these condition bytes and
    /// target.
    pub fn find_transition_id(&self, data: &Vec<u8>, target: u32) -> (r: Option<u32>)
        ensures
            r == find_transition(self@.cond_trans, data@, target),
    {
        let ghost l = self@.cond_trans;
        let mut i: usize = 0;
        proof {
            assert(l.skip(0) =~= l);
        }
        while i < self.cond_data_trans_id_dict.len()
            invariant
                0 <= i <= self.cond_data_trans_id_dict@.len(),
                l == self@.cond_trans,
                find_transition(l, data@, target) == find_transition(l.skip(i as int), data@, target),
            decreases self.cond_data_trans_id_dict@.len() - i,
        {
            proof {
                assert(l.skip(i as int).drop_first() =~= l.skip(i + 1));
            }
            let e = &self.cond_data_trans_id_dict[i];
            if bytes_eq(&e.0, data) && e.1 == target {
                return Some(e.2);
            }
            i = i + 1;
        }
        None
    }
}

/// The reference of an entry or exit event: an event with the same id and
/// argument bytes shares its id (and is not held again); a new one gets the
/// next id.
fn event_reference(e: Event, important_comp_data: &mut ImportantCompData) -> (r: Option<Reference>)
    ensures
        match event_ref(e@, old(important_comp_data)@) {
            Some((x, c)) => r matches Some(y) && y@ == x && final(important_comp_data)@ == c,
            None => r is None,
        },
{
    let mut datas: Vec<Vec<u8>> = Vec::new();
    match &e.arg_buffers {
        Some(bu) => {
            let mut i: usize = 0;
            while i < bu.len()
                invariant
                    0 <= i <= bu@.len(),
                    datas@.len() == i,
                    forall|j: int| 0 <= j < i ==> datas@[j]@ == bu@[j].data@,
                decreases bu@.len() - i,
            {
                datas.push(bu[i].data.clone());
                i = i + 1;
            }
            proof {
                assert(datas_view(datas@) =~= views_of(bu@).map_values(|x: SpecBuffer| x.data));
            }
        },
        None => {
            proof {
                assert(datas_view(datas@) =~= Seq::<Seq<u8>>::empty());
            }
        },
    }
    match important_comp_data.find_event_id(e.event_id, &datas) {
        Some(id) => Some(Reference { ref_type: 7, id, value: None }),
        None => {
            if important_comp_data.highest_id == u32::MAX {
                return None;
            }
            let id = important_comp_data.highest_id + 1;
            let ghost ev = important_comp_data@.event_ids;
            let event_id = e.event_id;
            important_comp_data.highest_id = id;
            important_comp_data.event_data_event_id_dict.push((event_id, datas, id));
            proof {
                assert(important_comp_data@.event_ids =~= ev.push((event_id, datas_view(datas@), id)));
            }
            Some(Reference { ref_type: 7, id, value: Some(Arc::new(RefValue::Event(e))) })
        },
    }
}

/// The reference of a compiled transition with target `target`: the same
/// condition and target share an id; the first reference to an id holds the
/// transition, and then its target is recorded.
fn transition_reference(t: Transition, target: u32, important_comp_data: &mut ImportantCompData) -> (r: Option<Reference>)
    ensures
        match transition_ref(t@, target, old(important_comp_data)@) {
            Some((x, c)) => r matches Some(y) && y@ == x && final(important_comp_data)@ == c,
            None => r is None,
        },
{
    let data: Vec<u8> = match &t.cond_buffer {
        Some(b) => b.data.clone(),
        None => Vec::new(),
    };
    let id = match important_comp_data.find_transition_id(&data, target) {
        Some(id) => id,
        None => {
            if important_comp_data.highest_id == u32::MAX {
                return None;
            }
            let id = important_comp_data.highest_id + 1;
            let ghost ct = important_comp_data@.cond_trans;
            let ghost dv = data@;
            important_comp_data.highest_id = id;
            important_comp_data.cond_data_trans_id_dict.push((data, target, id));
            proof {
                assert(important_comp_data@.cond_trans =~= ct.push((dv, target, id)));
            }
            id
        },
    };
    if vec_contains(&important_comp_data.transition_ids, id) {
        return Some(Reference { ref_type: 5, id, value: None });
    }
    important_comp_data.state_ref_order.push(target);
    important_comp_data.transition_ids.push(id);
    Some(Reference { ref_type: 5, id, value: Some(Arc::new(RefValue::Transition(t))) })
}

/// The pass events from the reader's line on, up to the next state, map or
/// transition.
fn pass_events(tr: &mut TextReader, important_comp_data: &mut ImportantCompData) -> (r: Option<Vec<Reference>>)
    requires
        old(tr).line_idx <= old(tr).lines@.len(),
    ensures
        final(tr).lines == old(tr).lines,
        match pass_loop(string_views(old(tr).lines@), old(tr).line_idx as nat, old(important_comp_data)@, seq![]) {
            Some((refs, j, c)) => r matches Some(v) && ref_models(v@) == refs && final(tr).line_idx == j
                && final(important_comp_data)@ == c,
            None => r is None,
        },
{
    let ghost lines = string_views(tr.lines@);
    let ghost target = pass_loop(lines, tr.line_idx as nat, important_comp_data@, seq![]);
    let mut refs: Vec<Reference> = Vec::new();
    proof {
        assert(ref_models(refs@) =~= Seq::<SpecReference>::empty());
    }
    loop
        invariant
            tr.lines == old(tr).lines,
            lines == string_views(tr.lines@),
            tr.line_idx <= tr.lines@.len(),
            target == pass_loop(lines, tr.line_idx as nat, important_comp_data@, ref_models(refs@)),
            target == pass_loop(string_views(old(tr).lines@), old(tr).line_idx as nat, old(important_comp_data)@, seq![]),
        ensures
            tr.lines == old(tr).lines,
            target == Some((ref_models(refs@), tr.line_idx as nat, important_comp_data@)),
        decreases tr.lines@.len() - tr.line_idx,
    {
        if tr.line_idx == tr.lines.len() {
            break;
        }
        let ghost i0 = tr.line_idx as nat;
        let ghost c0 = important_comp_data@;
        let ghost r0 = ref_models(refs@);
        let line = match tr.read_line() {
            Some(l) => l,
            None => return None,
        };
        proof {
            assert(lines[tr.line_idx - 1] == line@);
        }
        if text_starts_with(line.as_str(), "defState_") || text_starts_with(line.as_str(), "defMap_")
            || text_starts_with(line.as_str(), "if") {
            tr.line_idx = tr.line_idx - 1;
            break;
        }
        let event = match Event::compile(&line, important_comp_data) {
            Some(e) => e,
            None => {
                proof {
                    assert(pass_loop(lines, i0, c0, r0) is None);
                }
                return None;
            },
        };
        if important_comp_data.highest_id == u32::MAX {
            proof {
                assert(pass_loop(lines, i0, c0, r0) is None);
            }
            return None;
        }
        let id = important_comp_data.get_next_id();
        let ghost before = ref_models(refs@);
        let ghost ev = event@;
        refs.push(Reference { ref_type: 7, id, value: Some(Arc::new(RefValue::Event(event))) });
        proof {
            assert(ref_models(refs@) =~= before.push(new_ref(7, id, Some(crate::types::structs::SpecRefValue::Event(ev)))));
        }
    }
    Some(refs)
}

impl Transition {
    /// The transition of the condition line `condition`, with the next
    /// lines: the target state line `State_<n>()` and, after a
    /// `#PassEvents:` line, the pass events. Returns the transition (with the
    /// condition's bytecode) and the target state index; `None` on an
    /// unreadable line, event or condition.
    pub fn compile(condition: &String, tr: &mut TextReader, important_comp_data: &mut ImportantCompData) -> (r: Option<(Transition, u32)>)
        ensures
            final(tr).lines == old(tr).lines,
            match compile_transition(condition@, string_views(old(tr).lines@), old(tr).line_idx as nat, old(important_comp_data)@) {
                Some((t, target, j, c)) => r matches Some((x, g)) && x@ == t && g == target
                    && final(tr).line_idx == j && final(important_comp_data)@ == c,
                None => r is None,
            },
    {
        proof {
            reveal_strlit("State_");
            reveal_strlit("()");
            reveal_strlit("");
        }
        let ghost lines = string_views(tr.lines@);
        let state_call = match tr.read_line() {
            Some(l) => l,
            None => return None,
        };
        proof {
            assert(lines[old(tr).line_idx as int] == state_call@);
        }
        let a = replace_text(state_call.as_str(), "State_", "");
        let b = replace_text(a.as_str(), "()", "");
        proof {
            assert(""@ =~= Seq::<char>::empty());
        }
        let target_state_idx = match parse_int(b.as_str(), 0, u32::MAX as i64) {
            Some(v) => v as u32,
            None => return None,
        };
        let mut pass_event_vec: Vec<Reference> = Vec::new();
        proof {
            assert(ref_models(pass_event_vec@) =~= Seq::<SpecReference>::empty());
        }
        if tr.line_idx != tr.lines.len() {
            let line = match tr.read_line() {
                Some(l) => l,
                None => return None,
            };
            proof {
                assert(lines[old(tr).line_idx + 1] == line@);
            }
            if string_eq(&line, "#PassEvents:") || string_eq(&line, "PassEvents:") {
                pass_event_vec = match pass_events(tr, important_comp_data) {
                    Some(v) => v,
                    None => return None,
                };
            } else {
                tr.line_idx = tr.line_idx - 1;
            }
        }
        let bytes = match compile_condition(condition.as_str(), important_comp_data) {
            Some(b) => b,
            None => return None,
        };
        let length = bytes.len() as u32;
        let pass_events = vector_of(pass_event_vec);
        let t = Transition {
            struct_type: 5,
            version: 3,
            cond_ref: None,
            target_state: None,
            cond_buffer: Some(Buffer { struct_type: 6, length, data: bytes }),
            pass_events,
        };
        Some((t, target_state_idx))
    }
}

/// The model of what has been gathered of a state.
spec fn acc_of(entry: bool, exit: bool, trans: bool, tv: Seq<Reference>, ev: Seq<Reference>, xv: Seq<Reference>) -> StateAcc {
    StateAcc {
        entry,
        exit,
        trans,
        transitions: ref_models(tv),
        entry_events: ref_models(ev),
        exit_events: ref_models(xv),
    }
}

impl State {
    /// The state with index `state_idx` of the lines from the reader's line
    /// on: `#EntryEvents:`, `#ExitEvents:` and `#Transitions:` open sections,
    /// calls in the event sections become events (the same event shares an
    /// id), `if` lines in the transition section become transitions (the
    /// same condition and target share an id); it ends before the next state
    /// or map, or at the end of the text. `None` on an unreadable line or an
    /// id overflow.
    #[verifier::rlimit(100)]
    pub fn compile(tr: &mut TextReader, state_idx: u32, important_comp_data: &mut ImportantCompData) -> (r: Option<State>)
        ensures
            final(tr).lines == old(tr).lines,
            match compile_state(string_views(old(tr).lines@), old(tr).line_idx as nat, state_idx, old(important_comp_data)@) {
                Some((st, j, c)) => r matches Some(x) && x@ == st && final(tr).line_idx == j
                    && final(important_comp_data)@ == c,
                None => r is None,
            },
    {
        let ghost lines = string_views(tr.lines@);
        let mut is_entry_event = false;
        let mut is_exit_event = false;
        let mut is_transition = false;
        let mut transition_vec: Vec<Reference> = Vec::new();
        let mut entry_event_vec: Vec<Reference> = Vec::new();
        let mut exit_event_vec: Vec<Reference> = Vec::new();
        let ghost acc0 = acc_of(false, false, false, seq![], seq![], seq![]);
        let ghost target = state_loop(lines, tr.line_idx as nat, important_comp_data@, acc0);
        proof {
            assert(ref_models(Seq::<Reference>::empty()) =~= Seq::<SpecReference>::empty());
        }
        loop
            invariant_except_break
                target == state_loop(lines, tr.line_idx as nat, important_comp_data@, acc_of(
                    is_entry_event,
                    is_exit_event,
                    is_transition,
                    transition_vec@,
                    entry_event_vec@,
                    exit_event_vec@,
                )),
            invariant
                tr.lines == old(tr).lines,
                lines == string_views(tr.lines@),
                target == state_loop(string_views(old(tr).lines@), old(tr).line_idx as nat, old(important_comp_data)@, acc0),
                acc0 == (StateAcc {
                    entry: false,
                    exit: false,
                    trans: false,
                    transitions: seq![],
                    entry_events: seq![],
                    exit_events: seq![],
                }),
            ensures
                tr.lines == old(tr).lines,
                target == Some((acc_of(
                    is_entry_event,
                    is_exit_event,
                    is_transition,
                    transition_vec@,
                    entry_event_vec@,
                    exit_event_vec@,
                ), tr.line_idx as nat, important_comp_data@)),
            decreases tr.lines@.len() - tr.line_idx,
        {
            let ghost i0 = tr.line_idx as nat;
            let ghost c0 = important_comp_data@;
            let ghost a0 = acc_of(is_entry_event, is_exit_event, is_transition, transition_vec@, entry_event_vec@, exit_event_vec@);
            if tr.line_idx >= tr.lines.len() {
                break;
            }
            let line = match tr.read_line() {
                Some(l) => l,
                None => return None,
            };
            proof {
                assert(lines[i0 as int] == line@);
            }
            if string_eq(&line, "#EntryEvents:") {
                is_entry_event = true;
                is_exit_event = false;
                is_transition = false;
            } else if string_eq(&line, "#ExitEvents:") {
                is_entry_event = false;
                is_exit_event = true;
                is_transition = false;
            } else if string_eq(&line, "#Transitions:") {
                is_entry_event = false;
                is_exit_event = false;
                is_transition = true;
            }
            let ghost a1 = acc_of(is_entry_event, is_exit_event, is_transition, transition_vec@, entry_event_vec@, exit_event_vec@);
            proof {
                assert(a1 == section_flags(a0, line@));
            }
            if text_starts_with(line.as_str(), "defState_") || text_starts_with(line.as_str(), "defMap_") {
                tr.line_idx = tr.line_idx - 1;
                break;
            }
            if text_contains(line.as_str(), "(") || text_contains(line.as_str(), "if") {
                if is_entry_event || is_exit_event {
                    let event = match Event::compile(&line, important_comp_data) {
                        Some(e) => e,
                        None => return None,
                    };
                    let r = match event_reference(event, important_comp_data) {
                        Some(r) => r,
                        None => return None,
                    };
                    if is_entry_event {
                        let ghost before = ref_models(entry_event_vec@);
                        let ghost rv = r@;
                        entry_event_vec.push(r);
                        proof {
                            assert(ref_models(entry_event_vec@) =~= before.push(rv));
                        }
                    } else {
                        let ghost before = ref_models(exit_event_vec@);
                        let ghost rv = r@;
                        exit_event_vec.push(r);
                        proof {
                            assert(ref_models(exit_event_vec@) =~= before.push(rv));
                        }
                    }
                } else if is_transition {
                    if important_comp_data.transition_count == u32::MAX {
                        return None;
                    }
                    important_comp_data.transition_count = important_comp_data.transition_count + 1;
                    let ghost i1 = tr.line_idx as nat;
                    let ghost c1 = important_comp_data@;
                    let (transition, target_state) = match Transition::compile(&line, tr, important_comp_data) {
                        Some(x) => x,
                        None => return None,
                    };
                    proof {
                        crate::types::compile::tree_spec::lemma_transition_advances(line@, lines, i1, c1);
                    }
                    let r = match transition_reference(transition, target_state, important_comp_data) {
                        Some(r) => r,
                        None => return None,
                    };
                    let ghost before = ref_models(transition_vec@);
                    let ghost rv = r@;
                    transition_vec.push(r);
                    proof {
                        assert(ref_models(transition_vec@) =~= before.push(rv));
                    }
                    if tr.line_idx >= tr.lines.len() {
                        break;
                    }
                }
            }
        }
        let transitions = vector_of(transition_vec);
        let entry_events = vector_of(entry_event_vec);
        let exit_events = vector_of(exit_event_vec);
        Some(State { struct_type: 4, version: 2, state_index: state_idx, transitions, entry_events, exit_events })
    }
}

impl EsdMap {
    /// The map with index `map_idx` of the lines from the reader's line on,
    /// up to the next map: each `defState_<n>():` line starts a state, which
    /// gets the next id; state `0` is the initial state. The states are led
    /// by a reference to the initial state, and the transitions are
    /// references to all transitions compiled so far. `None` on an
    /// unreadable line or an id overflow.
    #[verifier::rlimit(100)]
    pub fn compile(tr: &mut TextReader, map_idx: u32, important_comp_data: &mut ImportantCompData) -> (r: Option<EsdMap>)
        ensures
            final(tr).lines == old(tr).lines,
            match compile_map(string_views(old(tr).lines@), old(tr).line_idx as nat, map_idx, old(important_comp_data)@) {
                Some((m, j, c)) => r matches Some(x) && x@ == m && final(tr).line_idx == j
                    && final(important_comp_data)@ == c,
                None => r is None,
            },
    {
        proof {
            reveal_strlit("defState_");
            reveal_strlit("():");
            reveal_strlit("");
        }
        let ghost lines = string_views(tr.lines@);
        let mut initial_state_ref = Reference { ref_type: 0, id: 0, value: None };
        let mut state_vec: Vec<Reference> = Vec::new();
        let ghost target = map_loop(lines, tr.line_idx as nat, important_comp_data@, new_ref(0, 0, None), seq![]);
        proof {
            assert(ref_models(state_vec@) =~= Seq::<SpecReference>::empty());
        }
        loop
            invariant_except_break
                target == map_loop(lines, tr.line_idx as nat, important_comp_data@, initial_state_ref@, ref_models(state_vec@)),
            invariant
                tr.lines == old(tr).lines,
                lines == string_views(tr.lines@),
                target == map_loop(string_views(old(tr).lines@), old(tr).line_idx as nat, old(important_comp_data)@, new_ref(0, 0, None), seq![]),
            ensures
                tr.lines == old(tr).lines,
                target == Some((initial_state_ref@, ref_models(state_vec@), tr.line_idx as nat, important_comp_data@)),
            decreases tr.lines@.len() - tr.line_idx,
        {
            if tr.line_idx >= tr.lines.len() {
                break;
            }
            let ghost i0 = tr.line_idx as nat;
            let line = match tr.read_line() {
                Some(l) => l,
                None => return None,
            };
            proof {
                assert(lines[i0 as int] == line@);
                reveal_strlit("defState_");
                reveal_strlit("():");
                reveal_strlit("");
            }
            if text_starts_with(line.as_str(), "defState_") {
                let a = replace_text(line.as_str(), "defState_", "");
                let b = replace_text(a.as_str(), "():", "");
                proof {
                    assert(""@ =~= Seq::<char>::empty());
                }
                let state_idx = match parse_int(b.as_str(), 0, u32::MAX as i64) {
                    Some(v) => v as u32,
                    None => return None,
                };
                let ghost i1 = tr.line_idx as nat;
                let ghost c1 = important_comp_data@;
                let state = match State::compile(tr, state_idx, important_comp_data) {
                    Some(s) => s,
                    None => return None,
                };
                proof {
                    crate::types::compile::tree_spec::lemma_state_loop_advances(lines, i1, c1, StateAcc {
                        entry: false,
                        exit: false,
                        trans: false,
                        transitions: seq![],
                        entry_events: seq![],
                        exit_events: seq![],
                    });
                }
                if important_comp_data.highest_id == u32::MAX {
                    return None;
                }
                let id = important_comp_data.get_next_id();
                important_comp_data.state_idx_state_id_dict.insert(state_idx, id);
                let r = Reference { ref_type: 4, id, value: Some(Arc::new(RefValue::State(state))) };
                if state_idx == 0 {
                    initial_state_ref = r;
                } else {
                    let ghost before = ref_models(state_vec@);
                    let ghost rv = r@;
                    state_vec.push(r);
                    proof {
                        assert(ref_models(state_vec@) =~= before.push(rv));
                    }
                }
            }
            if text_starts_with(line.as_str(), "defMap_") {
                tr.line_idx = tr.line_idx - 1;
                break;
            }
            if tr.line_idx >= tr.lines.len() {
                break;
            }
        }
        let ghost sts = ref_models(state_vec@);
        let lead = Reference { ref_type: 4, id: initial_state_ref.id, value: None };
        state_vec.insert(0, lead);
        proof {
            assert(ref_models(state_vec@) =~= seq![new_ref(4, initial_state_ref@.id, None)] + sts);
        }
        let states = vector_of(state_vec);
        let mut transition_refs: Vec<Reference> = Vec::new();
        let mut k: usize = 0;
        while k < important_comp_data.transition_ids.len()
            invariant
                0 <= k <= important_comp_data.transition_ids@.len(),
                ref_models(transition_refs@) == important_comp_data.transition_ids@.take(k as int).map_values(
                    |id: u32| new_ref(5, id, None),
                ),
            decreases important_comp_data.transition_ids@.len() - k,
        {
            let ghost before = ref_models(transition_refs@);
            let r = Reference { ref_type: 5, id: important_comp_data.transition_ids[k], value: None };
            proof {
                assert(r@ == new_ref(5, r.id, None));
            }
            transition_refs.push(r);
            proof {
                let ids = important_comp_data.transition_ids@;
                assert(ref_models(transition_refs@) =~= before.push(r@));
                assert(ref_models(transition_refs@)[k as int] == new_ref(5, ids[k as int], None));
                assert(ids.take(k + 1).map_values(|id: u32| new_ref(5, id, None))[k as int] == new_ref(5, ids[k as int], None));
                assert(ref_models(transition_refs@) =~= important_comp_data.transition_ids@.take(k + 1).map_values(
                    |id: u32| new_ref(5, id, None),
                ));
            }
            k = k + 1;
        }
        proof {
            assert(important_comp_data.transition_ids@.take(k as int) =~= important_comp_data.transition_ids@);
        }
        let transitions = Some(vector_of(transition_refs));
        Some(EsdMap {
            struct_type: 3,
            version: 2,
            map_index: map_idx,
            initial_state: initial_state_ref,
            states,
            transitions,
        })
    }
}

impl Project {
    /// The project of the lines from the reader's line on: each
    /// `defMap_<n>():` line starts a map, which gets the next id; the reader
    /// is left at the end of the text. `None` on an unreadable line or an id
    /// overflow.
    pub fn compile(tr: &mut TextReader, important_comp_data: &mut ImportantCompData) -> (r: Option<Project>)
        ensures
            final(tr).lines == old(tr).lines,
            r is Some ==> final(tr).line_idx == final(tr).lines@.len(),
            match project_loop(string_views(old(tr).lines@), old(tr).line_idx as nat, old(important_comp_data)@, seq![]) {
                Some((ms, c)) => r matches Some(p) && p@ == (crate::types::structs::SpecProject {
                    struct_type: 1,
                    version: 3,
                    maps: vec_of(ms),
                }) && final(important_comp_data)@ == c,
                None => r is None,
            },
    {
        proof {
            reveal_strlit("defMap_");
            reveal_strlit("():");
            reveal_strlit("");
        }
        let ghost lines = string_views(tr.lines@);
        let mut map_vec: Vec<Reference> = Vec::new();
        let ghost target = project_loop(lines, tr.line_idx as nat, important_comp_data@, seq![]);
        proof {
            assert(ref_models(map_vec@) =~= Seq::<SpecReference>::empty());
        }
        loop
            invariant_except_break
                target == project_loop(lines, tr.line_idx as nat, important_comp_data@, ref_models(map_vec@)),
            invariant
                tr.lines == old(tr).lines,
                lines == string_views(tr.lines@),
                target == project_loop(string_views(old(tr).lines@), old(tr).line_idx as nat, old(important_comp_data)@, seq![]),
            ensures
                tr.lines == old(tr).lines,
                tr.line_idx == tr.lines@.len(),
                target == Some((ref_models(map_vec@), important_comp_data@)),
            decreases tr.lines@.len() - tr.line_idx,
        {
            let ghost i0 = tr.line_idx as nat;
            let line = match tr.read_line() {
                Some(l) => l,
                None => return None,
            };
            proof {
                assert(lines[i0 as int] == line@);
                assert(lines.len() == tr.lines@.len());
                reveal_strlit("defMap_");
                reveal_strlit("():");
                reveal_strlit("");
            }
            if text_starts_with(line.as_str(), "defMap_") {
                let a = replace_text(line.as_str(), "defMap_", "");
                let b = replace_text(a.as_str(), "():", "");
                proof {
                    assert(""@ =~= Seq::<char>::empty());
                }
                let map_idx = match parse_int(b.as_str(), 0, u32::MAX as i64) {
                    Some(v) => v as u32,
                    None => return None,
                };
                let ghost i1 = tr.line_idx as nat;
                let ghost c1 = important_comp_data@;
                let map = match EsdMap::compile(tr, map_idx, important_comp_data) {
                    Some(m) => m,
                    None => return None,
                };
                proof {
                    crate::types::compile::tree_spec::lemma_map_loop_advances(lines, i1, c1, new_ref(0, 0, None), seq![]);
                }
                if important_comp_data.highest_id == u32::MAX {
                    return None;
                }
                let id = important_comp_data.get_next_id();
                let ghost before = ref_models(map_vec@);
                let ghost mv = map@;
                map_vec.push(Reference { ref_type: 3, id, value: Some(Arc::new(RefValue::EsdMap(map))) });
                proof {
                    assert(ref_models(map_vec@) =~= before.push(new_ref(3, id, Some(crate::types::structs::SpecRefValue::EsdMap(mv)))));
                }
            }
            if tr.line_idx >= tr.lines.len() {
                break;
            }
        }
        let maps = vector_of(map_vec);
        Some(Project { struct_type: 1, version: 3, maps })
    }
}

/// A string of the type table.
fn table_entry(length: u32, s: &str) -> (r: SharedString)
    ensures
        r@ == table_string(length, s@),
{
    SharedString { length, str: s.to_string() }
}

impl Header {
    /// The header of a compiled file: version `3`, the number of
    /// transitions, the next id (which it takes) and the seven type names
    /// that compiled objects use. `None` on an id overflow.
    pub fn compile(important_comp_data: &mut ImportantCompData) -> (r: Option<Header>)
        ensures
            match compile_header(old(important_comp_data)@) {
                Some((h, c)) => r matches Some(x) && x@ == h && final(important_comp_data)@ == c,
                None => r is None,
            },
    {
        if important_comp_data.highest_id == u32::MAX {
            return None;
        }
        let transition_count = important_comp_data.transition_ids.len() as u32;
        let next = important_comp_data.get_next_id();
        let mut strings: Vec<SharedString> = Vec::new();
        strings.push(table_entry(14, "EzStateProject"));
        strings.push(table_entry(8, "DLVector"));
        strings.push(table_entry(10, "EzStateMap"));
        strings.push(table_entry(15, "EzStateMapState"));
        strings.push(table_entry(17, "EzStateTransition"));
        strings.push(table_entry(6, "buffer"));
        strings.push(table_entry(43, "EzStateExternalEventT<ES_EVENT_PARAM_NUM_6>"));
        let h = Header {
            magic: "DLSE".to_string(),
            unk04: 2,
            version: 3,
            unk08: Some(26140),
            transition_count: Some(transition_count),
            highest_ref_id_plus_one: Some(next),
            string_count: 7,
            strings,
        };
        proof {
            assert(h@.strings =~= compile_header(old(important_comp_data)@).unwrap().0.strings);
        }
        Some(h)
    }
}

} // verus!
