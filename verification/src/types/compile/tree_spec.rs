//! Compiling the lines of a text into the project: maps of states, states
//! with their events and transitions, and transitions with their conditions
//! and pass events.
use vstd::prelude::*;
use crate::types::compile::condition_spec::condition_bytes;
use crate::types::compile::event_spec::event_from_text;
use crate::types::structs::{
    SpecBuffer, SpecDLVector, SpecEvent, SpecHeader, SpecMap, SpecProject, SpecRefValue,
    SpecReference, SpecSharedString, SpecState, SpecTransition,
};
use crate::utils::important_comp_data::{SpecCompData, next_id_data};
use crate::utils::strings::{contains_text, parse_in, replace_all, starts_with};

verus! {

/// A reference of type `t` with id `id` holding `v`.
pub open spec fn new_ref(t: u16, id: u32, v: Option<SpecRefValue>) -> SpecReference {
    SpecReference {
        ref_type: t,
        id,
        value: match v {
            Some(x) => Some(Box::new(x)),
            None => None,
        },
    }
}

/// A reference vector holding `refs`.
pub open spec fn vec_of(refs: Seq<SpecReference>) -> SpecDLVector {
    SpecDLVector { struct_type: 2, ref_count: refs.len() as u32, item_type: None, references: refs }
}

/// Whether a line starts a state or a map.
pub open spec fn starts_block(line: Seq<char>) -> bool {
    starts_with(line, "defState_"@) || starts_with(line, "defMap_"@)
}

/// The pass events from line `i` on, up to the next state, map or
/// transition: each gets the next id.
pub open spec fn pass_loop(lines: Seq<Seq<char>>, i: nat, c: SpecCompData, refs: Seq<SpecReference>) -> Option<(Seq<SpecReference>, nat, SpecCompData)>
    decreases lines.len() - i,
{
    if i >= lines.len() {
        Some((refs, i, c))
    } else {
        let line = lines[i as int];
        if starts_block(line) || starts_with(line, "if"@) {
            Some((refs, i, c))
        } else {
            match event_from_text(line, c.event_defs) {
                Some(e) => if c.highest_id == u32::MAX {
                    None
                } else {
                    let id = (c.highest_id + 1) as u32;
                    pass_loop(
                        lines,
                        i + 1,
                        next_id_data(c),
                        refs.push(new_ref(7, id, Some(SpecRefValue::Event(e)))),
                    )
                },
                None => None,
            }
        }
    }
}

/// The transition of the condition line `line` whose target-state line is
/// line `i`: the condition bytecode, the target state index and the pass
/// events (after a `#PassEvents:` line); with the next line and state.
pub open spec fn compile_transition(line: Seq<char>, lines: Seq<Seq<char>>, i: nat, c: SpecCompData) -> Option<(SpecTransition, u32, nat, SpecCompData)> {
    if i >= lines.len() {
        None
    } else {
        match parse_in(
            replace_all(replace_all(lines[i as int], "State_"@, seq![]), "()"@, seq![]),
            0,
            u32::MAX as int,
        ) {
            Some(target) => {
                let i1 = i + 1;
                let pe: Option<(Seq<SpecReference>, nat, SpecCompData)> = if i1 != lines.len() {
                    let l = lines[i1 as int];
                    if l == "#PassEvents:"@ || l == "PassEvents:"@ {
                        pass_loop(lines, i1 + 1, c, seq![])
                    } else {
                        Some((seq![], i1, c))
                    }
                } else {
                    Some((seq![], i1, c))
                };
                match pe {
                    Some((refs, i2, c2)) => match condition_bytes(line, c2.func_defs) {
                        Some(bytes) => Some(
                            (
                                SpecTransition {
                                    struct_type: 5,
                                    version: 3,
                                    cond_ref: None,
                                    target_state: None,
                                    cond_buffer: Some(
                                        SpecBuffer {
                                            struct_type: 6,
                                            length: bytes.len() as u32,
                                            data: bytes,
                                        },
                                    ),
                                    pass_events: vec_of(refs),
                                },
                                target as u32,
                                i2,
                                c2,
                            ),
                        ),
                        None => None,
                    },
                    None => None,
                }
            },
            None => None,
        }
    }
}

/// The id of the first event with this id and these argument bytes.
pub open spec fn find_event(list: Seq<(u32, Seq<Seq<u8>>, u32)>, event_id: u32, datas: Seq<Seq<u8>>) -> Option<u32>
    decreases list.len(),
{
    if list.len() == 0 {
        None
    } else if list[0].0 == event_id && list[0].1 == datas {
        Some(list[0].2)
    } else {
        find_event(list.drop_first(), event_id, datas)
    }
}

/// The id of the first transition with these condition bytes and target.
pub open spec fn find_transition(list: Seq<(Seq<u8>, u32, u32)>, data: Seq<u8>, target: u32) -> Option<u32>
    decreases list.len(),
{
    if list.len() == 0 {
        None
    } else if list[0].0 == data && list[0].1 == target {
        Some(list[0].2)
    } else {
        find_transition(list.drop_first(), data, target)
    }
}

/// What has been gathered of a state: which section is open and its three
/// reference lists.
pub struct StateAcc {
    pub entry: bool,
    pub exit: bool,
    pub trans: bool,
    pub transitions: Seq<SpecReference>,
    pub entry_events: Seq<SpecReference>,
    pub exit_events: Seq<SpecReference>,
}

/// The sections after reading `line`.
pub open spec fn section_flags(acc: StateAcc, line: Seq<char>) -> StateAcc {
    if line == "#EntryEvents:"@ {
        StateAcc { entry: true, exit: false, trans: false, ..acc }
    } else if line == "#ExitEvents:"@ {
        StateAcc { entry: false, exit: true, trans: false, ..acc }
    } else if line == "#Transitions:"@ {
        StateAcc { entry: false, exit: false, trans: true, ..acc }
    } else {
        acc
    }
}

/// The reference of an entry or exit event: an event with the same id and
/// argument bytes shares its id (and is not held again); a new one gets the
/// next id.
pub open spec fn event_ref(e: SpecEvent, c: SpecCompData) -> Option<(SpecReference, SpecCompData)> {
    let datas = match e.arg_buffers {
        Some(b) => b.map_values(|x: SpecBuffer| x.data),
        None => seq![],
    };
    match find_event(c.event_ids, e.event_id, datas) {
        Some(id) => Some((new_ref(7, id, None), c)),
        None => if c.highest_id == u32::MAX {
            None
        } else {
            let id = (c.highest_id + 1) as u32;
            Some(
                (
                    new_ref(7, id, Some(SpecRefValue::Event(e))),
                    SpecCompData {
                        highest_id: id,
                        event_ids: c.event_ids.push((e.event_id, datas, id)),
                        ..c
                    },
                ),
            )
        },
    }
}

/// The reference of a compiled transition with target `target`: the same
/// condition and target share an id; the first reference to an id holds the
/// transition, and then its target is recorded.
pub open spec fn transition_ref(t: SpecTransition, target: u32, c: SpecCompData) -> Option<(SpecReference, SpecCompData)> {
    let data = match t.cond_buffer {
        Some(b) => b.data,
        None => seq![],
    };
    let found: Option<(u32, SpecCompData)> = match find_transition(c.cond_trans, data, target) {
        Some(id) => Some((id, c)),
        None => if c.highest_id == u32::MAX {
            None
        } else {
            let id = (c.highest_id + 1) as u32;
            Some((id, SpecCompData { highest_id: id, cond_trans: c.cond_trans.push((data, target, id)), ..c }))
        },
    };
    match found {
        Some((id, c2)) => if c2.transition_ids.contains(id) {
            Some((new_ref(5, id, None), c2))
        } else {
            Some(
                (
                    new_ref(5, id, Some(SpecRefValue::Transition(t))),
                    SpecCompData {
                        state_ref_order: c2.state_ref_order.push(target),
                        transition_ids: c2.transition_ids.push(id),
                        ..c2
                    },
                ),
            )
        },
        None => None,
    }
}

/// The body of a state from line `i` on: section titles open sections,
/// calls in the event sections become events, `if` lines in the transition
/// section become transitions; it ends before the next state or map, or at
/// the end of the text.
pub open spec fn state_loop(lines: Seq<Seq<char>>, i: nat, c: SpecCompData, acc: StateAcc) -> Option<(StateAcc, nat, SpecCompData)>
    decreases lines.len() - i,
{
    if i >= lines.len() {
        Some((acc, i, c))
    } else {
        let line = lines[i as int];
        let i1 = i + 1;
        let acc1 = section_flags(acc, line);
        if starts_block(line) {
            Some((acc1, i, c))
        } else if (contains_text(line, "("@) || contains_text(line, "if"@)) && (acc1.entry
            || acc1.exit) {
            match event_from_text(line, c.event_defs) {
                Some(e) => match event_ref(e, c) {
                    Some((r, c2)) => {
                        let acc2 = if acc1.entry {
                            StateAcc { entry_events: acc1.entry_events.push(r), ..acc1 }
                        } else {
                            StateAcc { exit_events: acc1.exit_events.push(r), ..acc1 }
                        };
                        state_loop(lines, i1, c2, acc2)
                    },
                    None => None,
                },
                None => None,
            }
        } else if (contains_text(line, "("@) || contains_text(line, "if"@)) && acc1.trans {
            if c.transition_count == u32::MAX {
                None
            } else {
                let c1 = SpecCompData { transition_count: (c.transition_count + 1) as u32, ..c };
                match compile_transition(line, lines, i1, c1) {
                    Some((t, target, i2, c2)) => match transition_ref(t, target, c2) {
                        Some((r, c3)) => {
                            let acc2 = StateAcc { transitions: acc1.transitions.push(r), ..acc1 };
                            if i2 >= lines.len() {
                                Some((acc2, i2, c3))
                            } else {
                                proof {
                                    lemma_transition_advances(line, lines, i1, c1);
                                }
                                state_loop(lines, i2, c3, acc2)
                            }
                        },
                        None => None,
                    },
                    None => None,
                }
            }
        } else {
            state_loop(lines, i1, c, acc1)
        }
    }
}

/// The pass events end at or after the line they start at.
pub proof fn lemma_pass_loop_advances(lines: Seq<Seq<char>>, i: nat, c: SpecCompData, refs: Seq<SpecReference>)
    ensures
        pass_loop(lines, i, c, refs) matches Some((_, j, _)) ==> j >= i && (i <= lines.len() ==> j <= lines.len()),
    decreases lines.len() - i,
{
    if i < lines.len() {
        let line = lines[i as int];
        if !(starts_block(line) || starts_with(line, "if"@)) {
            match event_from_text(line, c.event_defs) {
                Some(e) => if c.highest_id != u32::MAX {
                    let id = (c.highest_id + 1) as u32;
                    lemma_pass_loop_advances(
                        lines,
                        i + 1,
                        next_id_data(c),
                        refs.push(new_ref(7, id, Some(SpecRefValue::Event(e)))),
                    );
                },
                None => {},
            }
        }
    }
}

/// A transition ends after its target-state line.
pub proof fn lemma_transition_advances(line: Seq<char>, lines: Seq<Seq<char>>, i: nat, c: SpecCompData)
    ensures
        compile_transition(line, lines, i, c) matches Some((_, _, j, _)) ==> j > i && j <= lines.len(),
{
    if i + 1 < lines.len() {
        lemma_pass_loop_advances(lines, i + 2, c, seq![]);
    }
}

/// The state of the lines from `i` on, with index `state_idx`.
pub open spec fn compile_state(lines: Seq<Seq<char>>, i: nat, state_idx: u32, c: SpecCompData) -> Option<(SpecState, nat, SpecCompData)> {
    let acc0 = StateAcc {
        entry: false,
        exit: false,
        trans: false,
        transitions: seq![],
        entry_events: seq![],
        exit_events: seq![],
    };
    match state_loop(lines, i, c, acc0) {
        Some((acc, j, c2)) => Some(
            (
                SpecState {
                    struct_type: 4,
                    version: 2,
                    state_index: state_idx,
                    transitions: vec_of(acc.transitions),
                    entry_events: vec_of(acc.entry_events),
                    exit_events: vec_of(acc.exit_events),
                },
                j,
                c2,
            ),
        ),
        None => None,
    }
}

/// A state body ends at or after the line it starts at.
pub proof fn lemma_state_loop_advances(lines: Seq<Seq<char>>, i: nat, c: SpecCompData, acc: StateAcc)
    ensures
        state_loop(lines, i, c, acc) matches Some((_, j, _)) ==> j >= i && (i <= lines.len() ==> j <= lines.len()),
    decreases lines.len() - i,
{
    if i < lines.len() {
        let line = lines[i as int];
        let i1 = i + 1;
        let acc1 = section_flags(acc, line);
        if starts_block(line) {
        } else if (contains_text(line, "("@) || contains_text(line, "if"@)) && (acc1.entry
            || acc1.exit) {
            match event_from_text(line, c.event_defs) {
                Some(e) => match event_ref(e, c) {
                    Some((r, c2)) => {
                        let acc2 = if acc1.entry {
                            StateAcc { entry_events: acc1.entry_events.push(r), ..acc1 }
                        } else {
                            StateAcc { exit_events: acc1.exit_events.push(r), ..acc1 }
                        };
                        lemma_state_loop_advances(lines, i1, c2, acc2);
                    },
                    None => {},
                },
                None => {},
            }
        } else if (contains_text(line, "("@) || contains_text(line, "if"@)) && acc1.trans {
            if c.transition_count != u32::MAX {
                let c1 = SpecCompData { transition_count: (c.transition_count + 1) as u32, ..c };
                lemma_transition_advances(line, lines, i1, c1);
                match compile_transition(line, lines, i1, c1) {
                    Some((t, target, i2, c2)) => match transition_ref(t, target, c2) {
                        Some((r, c3)) => {
                            let acc2 = StateAcc { transitions: acc1.transitions.push(r), ..acc1 };
                            if i2 < lines.len() {
                                lemma_state_loop_advances(lines, i2, c3, acc2);
                            }
                        },
                        None => {},
                    },
                    None => {},
                }
            }
        } else {
            lemma_state_loop_advances(lines, i1, c, acc1);
        }
    }
}

/// The states of a map from line `i` on, up to the next map: each
/// `defState_<n>():` line starts a state, which gets the next id; state `0`
/// is the initial state.
pub open spec fn map_loop(lines: Seq<Seq<char>>, i: nat, c: SpecCompData, initial: SpecReference, states: Seq<SpecReference>) -> Option<(SpecReference, Seq<SpecReference>, nat, SpecCompData)>
    decreases lines.len() - i,
{
    if i >= lines.len() {
        Some((initial, states, i, c))
    } else {
        let line = lines[i as int];
        let i1 = i + 1;
        let step: Option<(SpecReference, Seq<SpecReference>, nat, SpecCompData)> = if starts_with(
            line,
            "defState_"@,
        ) {
            match parse_in(
                replace_all(replace_all(line, "defState_"@, seq![]), "():"@, seq![]),
                0,
                u32::MAX as int,
            ) {
                Some(sidx) => match compile_state(lines, i1, sidx as u32, c) {
                    Some((st, i2, c2)) => if c2.highest_id == u32::MAX {
                        None
                    } else {
                        let id = (c2.highest_id + 1) as u32;
                        let c3 = SpecCompData {
                            highest_id: id,
                            state_ids: c2.state_ids.insert(sidx as u32, id),
                            ..c2
                        };
                        let r = new_ref(4, id, Some(SpecRefValue::State(st)));
                        if sidx == 0 {
                            Some((r, states, i2, c3))
                        } else {
                            Some((initial, states.push(r), i2, c3))
                        }
                    },
                    None => None,
                },
                None => None,
            }
        } else {
            Some((initial, states, i1, c))
        };
        match step {
            Some((ini, sts, next, c2)) => if starts_with(line, "defMap_"@) {
                Some((ini, sts, (next - 1) as nat, c2))
            } else if next >= lines.len() {
                Some((ini, sts, next, c2))
            } else {
                proof {
                    let acc0 = StateAcc {
                        entry: false,
                        exit: false,
                        trans: false,
                        transitions: seq![],
                        entry_events: seq![],
                        exit_events: seq![],
                    };
                    if starts_with(line, "defState_"@) {
                        match parse_in(
                            replace_all(replace_all(line, "defState_"@, seq![]), "():"@, seq![]),
                            0,
                            u32::MAX as int,
                        ) {
                            Some(sidx) => lemma_state_loop_advances(lines, i1, c, acc0),
                            None => {},
                        }
                    }
                }
                map_loop(lines, next, c2, ini, sts)
            },
            None => None,
        }
    }
}

/// The map of the lines from `i` on, with index `map_idx`: its initial
/// state, its states (led by a reference to the initial one) and references
/// to all transitions compiled so far.
pub open spec fn compile_map(lines: Seq<Seq<char>>, i: nat, map_idx: u32, c: SpecCompData) -> Option<(SpecMap, nat, SpecCompData)> {
    match map_loop(lines, i, c, new_ref(0, 0, None), seq![]) {
        Some((ini, sts, next, c2)) => Some(
            (
                SpecMap {
                    struct_type: 3,
                    version: 2,
                    map_index: map_idx,
                    initial_state: ini,
                    states: vec_of(seq![new_ref(4, ini.id, None)] + sts),
                    transitions: Some(
                        vec_of(c2.transition_ids.map_values(|id: u32| new_ref(5, id, None))),
                    ),
                },
                next,
                c2,
            ),
        ),
        None => None,
    }
}

/// The states of a map end at or after the line they start at.
pub proof fn lemma_map_loop_advances(lines: Seq<Seq<char>>, i: nat, c: SpecCompData, initial: SpecReference, states: Seq<SpecReference>)
    ensures
        map_loop(lines, i, c, initial, states) matches Some((_, _, j, _)) ==> j >= i && (i <= lines.len() ==> j <= lines.len()),
    decreases lines.len() - i,
{
    if i < lines.len() {
        let line = lines[i as int];
        let i1 = i + 1;
        let acc0 = StateAcc {
            entry: false,
            exit: false,
            trans: false,
            transitions: seq![],
            entry_events: seq![],
            exit_events: seq![],
        };
        if starts_with(line, "defState_"@) {
            match parse_in(
                replace_all(replace_all(line, "defState_"@, seq![]), "():"@, seq![]),
                0,
                u32::MAX as int,
            ) {
                Some(sidx) => {
                    lemma_state_loop_advances(lines, i1, c, acc0);
                    match compile_state(lines, i1, sidx as u32, c) {
                        Some((st, i2, c2)) => if c2.highest_id != u32::MAX && !starts_with(line, "defMap_"@) && i2 < lines.len() {
                            let id = (c2.highest_id + 1) as u32;
                            let c3 = SpecCompData {
                                highest_id: id,
                                state_ids: c2.state_ids.insert(sidx as u32, id),
                                ..c2
                            };
                            let r = new_ref(4, id, Some(SpecRefValue::State(st)));
                            if sidx == 0 {
                                lemma_map_loop_advances(lines, i2, c3, r, states);
                            } else {
                                lemma_map_loop_advances(lines, i2, c3, initial, states.push(r));
                            }
                        },
                        None => {},
                    }
                },
                None => {},
            }
        } else if !starts_with(line, "defMap_"@) && i1 < lines.len() {
            lemma_map_loop_advances(lines, i1, c, initial, states);
        }
    }
}

/// The maps of the lines from `i` on: each `defMap_<n>():` line starts a
/// map, which gets the next id.
pub open spec fn project_loop(lines: Seq<Seq<char>>, i: nat, c: SpecCompData, maps: Seq<SpecReference>) -> Option<(Seq<SpecReference>, SpecCompData)>
    decreases lines.len() - i,
{
    if i >= lines.len() {
        None
    } else {
        let line = lines[i as int];
        let i1 = i + 1;
        let step: Option<(Seq<SpecReference>, nat, SpecCompData)> = if starts_with(line, "defMap_"@) {
            match parse_in(
                replace_all(replace_all(line, "defMap_"@, seq![]), "():"@, seq![]),
                0,
                u32::MAX as int,
            ) {
                Some(midx) => match compile_map(lines, i1, midx as u32, c) {
                    Some((m, i2, c2)) => if c2.highest_id == u32::MAX {
                        None
                    } else {
                        let id = (c2.highest_id + 1) as u32;
                        Some(
                            (
                                maps.push(new_ref(3, id, Some(SpecRefValue::EsdMap(m)))),
                                i2,
                                next_id_data(c2),
                            ),
                        )
                    },
                    None => None,
                },
                None => None,
            }
        } else {
            Some((maps, i1, c))
        };
        match step {
            Some((ms, next, c2)) => if next >= lines.len() {
                Some((ms, c2))
            } else {
                proof {
                    if starts_with(line, "defMap_"@) {
                        lemma_map_loop_advances(lines, i1, c, new_ref(0, 0, None), seq![]);
                    }
                }
                project_loop(lines, next, c2, ms)
            },
            None => None,
        }
    }
}

/// The project of the lines of a text.
pub open spec fn compile_project(lines: Seq<Seq<char>>, c: SpecCompData) -> Option<(SpecProject, SpecCompData)> {
    match project_loop(lines, 0, c, seq![]) {
        Some((ms, c2)) => Some((SpecProject { struct_type: 1, version: 3, maps: vec_of(ms) }, c2)),
        None => None,
    }
}

/// A string of the type table.
pub open spec fn table_string(length: u32, s: Seq<char>) -> SpecSharedString {
    SpecSharedString { length, str: s }
}

/// The header of a compiled file: version `3`, the transition count, the
/// next id and the seven type names the compiled objects use.
pub open spec fn compile_header(c: SpecCompData) -> Option<(SpecHeader, SpecCompData)> {
    if c.highest_id == u32::MAX {
        None
    } else {
        let id = (c.highest_id + 1) as u32;
        Some(
            (
                SpecHeader {
                    magic: "DLSE"@,
                    unk04: 2,
                    version: 3,
                    unk08: Some(26140),
                    transition_count: Some(c.transition_ids.len() as u32),
                    highest_ref_id_plus_one: Some(id),
                    string_count: 7,
                    strings: seq![
                        table_string(14, "EzStateProject"@),
                        table_string(8, "DLVector"@),
                        table_string(10, "EzStateMap"@),
                        table_string(15, "EzStateMapState"@),
                        table_string(17, "EzStateTransition"@),
                        table_string(6, "buffer"@),
                        table_string(43, "EzStateExternalEventT<ES_EVENT_PARAM_NUM_6>"@),
                    ],
                },
                next_id_data(c),
            ),
        )
    }
}

} // verus!
