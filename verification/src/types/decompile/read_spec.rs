//! The byte format, stated as functions from bytes, a position and the reading
//! state to what is read there, the position after it and the new state.
use vstd::prelude::*;
use vstd::utf8::*;
use crate::types::structs::{SpecBuffer, SpecCondition, SpecDLVector, SpecEvaluator, SpecEvent, SpecHeader, SpecMap, SpecProject, SpecRefValue, SpecReference, SpecSharedString, SpecState, SpecTransition};
use crate::utils::binary_reader::uint_at;
use crate::utils::important_data::{SpecImportantData, spec_type_name};

verus! {

/// The `n`-byte big-endian number at `p`, and the position after it.
pub open spec fn uint_field(b: Seq<u8>, p: int, n: nat) -> Option<(nat, int)> {
    if 0 <= p && p + n <= b.len() {
        Some((uint_at(b, p, n), p + n))
    } else {
        None
    }
}

pub open spec fn u16_field(b: Seq<u8>, p: int) -> Option<(u16, int)> {
    match uint_field(b, p, 2) {
        Some((v, q)) => Some((v as u16, q)),
        None => None,
    }
}

pub open spec fn u32_field(b: Seq<u8>, p: int) -> Option<(u32, int)> {
    match uint_field(b, p, 4) {
        Some((v, q)) => Some((v as u32, q)),
        None => None,
    }
}

pub open spec fn u64_field(b: Seq<u8>, p: int) -> Option<(u64, int)> {
    match uint_field(b, p, 8) {
        Some((v, q)) => Some((v as u64, q)),
        None => None,
    }
}

/// Whether the type id `t` names the type `name`.
pub open spec fn type_is(d: SpecImportantData, t: u16, name: Seq<char>) -> bool {
    spec_type_name(d.type_table, t) == Some(name)
}

pub open spec fn name_map() -> Seq<char> {
    "EzStateMap"@
}

pub open spec fn name_state() -> Seq<char> {
    "EzStateMapState"@
}

pub open spec fn name_event() -> Seq<char> {
    "EzStateExternalEvent"@
}

pub open spec fn name_event6() -> Seq<char> {
    "EzStateExternalEventT<ES_EVENT_PARAM_NUM_6>"@
}

pub open spec fn name_transition() -> Seq<char> {
    "EzStateTransition"@
}

pub open spec fn name_condition() -> Seq<char> {
    "EzState::detail::EzStateCondition"@
}

pub open spec fn name_evaluator() -> Seq<char> {
    "EzStateEvaluator"@
}

pub open spec fn name_project() -> Seq<char> {
    "EzStateProject"@
}

pub open spec fn name_dlvector() -> Seq<char> {
    "DLVector"@
}

pub open spec fn name_buffer() -> Seq<char> {
    "buffer"@
}

/// A UTF-8 string of `len` bytes at `p`.
pub open spec fn string_field(b: Seq<u8>, p: int, len: nat) -> Option<(Seq<char>, int)> {
    if 0 <= p && p + len <= b.len() && valid_utf8(b.subrange(p, p + len)) {
        Some((decode_utf8(b.subrange(p, p + len)), p + len))
    } else {
        None
    }
}

/// A shared string: a `u32` byte length and that many bytes of UTF-8.
pub open spec fn spec_read_shared_string(b: Seq<u8>, p: int) -> Option<(SpecSharedString, int)> {
    match u32_field(b, p) {
        Some((length, p1)) => match string_field(b, p1, length as nat) {
            Some((s, p2)) => Some((SpecSharedString { length, str: s }, p2)),
            None => None,
        },
        None => None,
    }
}

/// `n` shared strings, one after the other.
pub open spec fn spec_read_shared_strings(b: Seq<u8>, p: int, n: nat) -> Option<
    (Seq<SpecSharedString>, int),
>
    decreases n,
{
    if n == 0 {
        Some((seq![], p))
    } else {
        match spec_read_shared_strings(b, p, (n - 1) as nat) {
            Some((v, q)) => match spec_read_shared_string(b, q) {
                Some((s, q2)) => Some((v.push(s), q2)),
                None => None,
            },
            None => None,
        }
    }
}

/// The header: the magic `DLSE`, `2`, a version among `0`, `1` and `3` (with
/// three more numbers for version `3`) and the string table.
pub open spec fn spec_read_header(b: Seq<u8>, p: int) -> Option<(SpecHeader, int)> {
    match string_field(b, p, 4) {
        Some((magic, p1)) => if magic != "DLSE"@ {
            None
        } else {
            match u16_field(b, p1) {
                Some((unk04, p2)) => if unk04 != 2 {
                    None
                } else {
                    match u16_field(b, p2) {
                        Some((version, p3)) => if version != 0 && version != 1 && version != 3 {
                            None
                        } else {
                            let extra: Option<(Option<u32>, Option<u32>, Option<u32>, int)> =
                                if version == 3 {
                                match u32_field(b, p3) {
                                    Some((a, q1)) => match u32_field(b, q1) {
                                        Some((c, q2)) => match u32_field(b, q2) {
                                            Some((h, q3)) => Some((Some(a), Some(c), Some(h), q3)),
                                            None => None,
                                        },
                                        None => None,
                                    },
                                    None => None,
                                }
                            } else {
                                Some((None, None, None, p3))
                            };
                            match extra {
                                Some((unk08, tc, hi, p4)) => match u16_field(b, p4) {
                                    Some((string_count, p5)) => match spec_read_shared_strings(
                                        b,
                                        p5,
                                        string_count as nat,
                                    ) {
                                        Some((strings, p6)) => Some(
                                            (
                                                SpecHeader {
                                                    magic,
                                                    unk04,
                                                    version,
                                                    unk08,
                                                    transition_count: tc,
                                                    highest_ref_id_plus_one: hi,
                                                    string_count,
                                                    strings,
                                                },
                                                p6,
                                            ),
                                        ),
                                        None => None,
                                    },
                                    None => None,
                                },
                                None => None,
                            }
                        },
                        None => None,
                    }
                },
                None => None,
            }
        },
        None => None,
    }
}

/// A buffer: a type named `buffer` or `DLVector`, a `u32` length and that many
/// bytes.
pub open spec fn spec_read_buffer(b: Seq<u8>, p: int, d: SpecImportantData) -> Option<
    (SpecBuffer, int),
> {
    match u16_field(b, p) {
        Some((st, p1)) => if !type_is(d, st, name_buffer()) && !type_is(d, st, name_dlvector()) {
            None
        } else {
            match u32_field(b, p1) {
                Some((length, p2)) => if p2 + length <= b.len() {
                    Some(
                        (
                            SpecBuffer {
                                struct_type: st,
                                length,
                                data: b.subrange(p2, p2 + length),
                            },
                            p2 + length,
                        ),
                    )
                } else {
                    None
                },
                None => None,
            }
        },
        None => None,
    }
}

/// An evaluator: a type named `EzStateEvaluator`, version `1` and a buffer.
pub open spec fn spec_read_evaluator(b: Seq<u8>, p: int, d: SpecImportantData) -> Option<
    (SpecEvaluator, int),
> {
    match u16_field(b, p) {
        Some((st, p1)) => if !type_is(d, st, name_evaluator()) {
            None
        } else {
            match u32_field(b, p1) {
                Some((version, p2)) => if version != 1 {
                    None
                } else {
                    match spec_read_buffer(b, p2, d) {
                        Some((buffer, p3)) => Some(
                            (SpecEvaluator { struct_type: st, version, buffer }, p3),
                        ),
                        None => None,
                    }
                },
                None => None,
            }
        },
        None => None,
    }
}

/// `n` evaluators, one after the other.
pub open spec fn spec_read_evaluators(b: Seq<u8>, p: int, n: nat, d: SpecImportantData) -> Option<
    (Seq<SpecEvaluator>, int),
>
    decreases n,
{
    if n == 0 {
        Some((seq![], p))
    } else {
        match spec_read_evaluators(b, p, (n - 1) as nat, d) {
            Some((v, q)) => match spec_read_evaluator(b, q, d) {
                Some((e, q2)) => Some((v.push(e), q2)),
                None => None,
            },
            None => None,
        }
    }
}

/// `n` buffers, one after the other.
pub open spec fn spec_read_buffers(b: Seq<u8>, p: int, n: nat, d: SpecImportantData) -> Option<
    (Seq<SpecBuffer>, int),
>
    decreases n,
{
    if n == 0 {
        Some((seq![], p))
    } else {
        match spec_read_buffers(b, p, (n - 1) as nat, d) {
            Some((v, q)) => match spec_read_buffer(b, q, d) {
                Some((e, q2)) => Some((v.push(e), q2)),
                None => None,
            },
            None => None,
        }
    }
}

/// An event: one of the two event types, version `1` (arguments as
/// evaluators) or `2` (arguments as buffers), the event id and the argument
/// count plus one, which must not be `0`.
pub open spec fn spec_read_event(b: Seq<u8>, p: int, d: SpecImportantData) -> Option<
    (SpecEvent, int),
> {
    match u16_field(b, p) {
        Some((st, p1)) => if !type_is(d, st, name_event()) && !type_is(d, st, name_event6()) {
            None
        } else {
            match u32_field(b, p1) {
                Some((version, p2)) => if version != 1 && version != 2 {
                    None
                } else {
                    match u32_field(b, p2) {
                        Some((event_id, p3)) => match u32_field(b, p3) {
                            Some((arg_amount, p4)) => if arg_amount == 0 {
                                None
                            } else if version == 1 {
                                match spec_read_evaluators(b, p4, (arg_amount - 1) as nat, d) {
                                    Some((ev, p5)) => Some(
                                        (
                                            SpecEvent {
                                                struct_type: st,
                                                version,
                                                event_id,
                                                arg_amount,
                                                arg_evaluators: Some(ev),
                                                arg_buffers: None,
                                            },
                                            p5,
                                        ),
                                    ),
                                    None => None,
                                }
                            } else {
                                match spec_read_buffers(b, p4, (arg_amount - 1) as nat, d) {
                                    Some((bu, p5)) => Some(
                                        (
                                            SpecEvent {
                                                struct_type: st,
                                                version,
                                                event_id,
                                                arg_amount,
                                                arg_evaluators: None,
                                                arg_buffers: Some(bu),
                                            },
                                            p5,
                                        ),
                                    ),
                                    None => None,
                                }
                            },
                            None => None,
                        },
                        None => None,
                    }
                },
                None => None,
            }
        },
        None => None,
    }
}

/// A condition: the condition type, version `1` and an evaluator.
pub open spec fn spec_read_condition(b: Seq<u8>, p: int, d: SpecImportantData) -> Option<
    (SpecCondition, int),
> {
    match u16_field(b, p) {
        Some((st, p1)) => if !type_is(d, st, name_condition()) {
            None
        } else {
            match u32_field(b, p1) {
                Some((version, p2)) => if version != 1 {
                    None
                } else {
                    match spec_read_evaluator(b, p2, d) {
                        Some((evaluator, p3)) => Some(
                            (SpecCondition { struct_type: st, version, evaluator }, p3),
                        ),
                        None => None,
                    }
                },
                None => None,
            }
        },
        None => None,
    }
}

/// The association list `l` with `k` mapped to `v`: the first entry for `k`
/// is replaced, or a new entry is added at the end.
pub open spec fn assoc_insert(l: Seq<(u32, usize)>, k: u32, v: usize) -> Seq<(u32, usize)> {
    if exists|i: int| 0 <= i < l.len() && l[i].0 == k {
        let i = choose|i: int|
            0 <= i < l.len() && l[i].0 == k && forall|j: int| 0 <= j < i ==> l[j].0 != k;
        l.update(i, (k, v))
    } else {
        l.push((k, v))
    }
}

/// The transition index list after mapping the id of each of the first `n`
/// references to its position.
pub open spec fn insert_trans_indices(l: Seq<(u32, usize)>, refs: Seq<SpecReference>, n: nat) -> Seq<
    (u32, usize),
>
    decreases n,
{
    if n == 0 {
        l
    } else {
        assoc_insert(
            insert_trans_indices(l, refs, (n - 1) as nat),
            refs[n - 1].id,
            (n - 1) as usize,
        )
    }
}

/// The state after reading a reference's id for the first time.
pub open spec fn with_id_read(d: SpecImportantData, id: u32) -> SpecImportantData {
    SpecImportantData { ref_ids_with_data: d.ref_ids_with_data.push(id), ..d }
}

/// The state after storing the object of `id`.
pub open spec fn with_ref_data(d: SpecImportantData, id: u32, v: SpecRefValue) -> SpecImportantData {
    SpecImportantData { ref_data: d.ref_data.insert(id, v), ..d }
}

/// A reference: its type (read first when `type_id` is `0`), its id and, the
/// first time the id is met, the object it points to, which is then stored.
pub open spec fn spec_read_reference(b: Seq<u8>, p: int, type_id: u16, d: SpecImportantData) -> Option<
    (SpecReference, int, SpecImportantData),
>
    decreases b.len() - p, 0nat, 0nat,
{
    let head: Option<(u16, int)> = if type_id == 0 {
        u16_field(b, p)
    } else if 0 <= p {
        Some((type_id, p))
    } else {
        None
    };
    match head {
        Some((ref_type, p1)) => match u32_field(b, p1) {
            Some((id, p2)) => if d.ref_ids_with_data.contains(id) {
                Some((SpecReference { ref_type, id, value: None }, p2, d))
            } else {
                match spec_type_name(d.type_table, ref_type) {
                    Some(name) => match spec_read_value(b, p2, name, with_id_read(d, id)) {
                        Some((v, q, d2)) => Some(
                            (
                                SpecReference { ref_type, id, value: Some(Box::new(v)) },
                                q,
                                with_ref_data(d2, id, v),
                            ),
                        ),
                        None => None,
                    },
                    None => None,
                }
            },
            None => None,
        },
        None => None,
    }
}

/// The object of a reference whose type is named `name`.
pub open spec fn spec_read_value(b: Seq<u8>, p: int, name: Seq<char>, d: SpecImportantData) -> Option<
    (SpecRefValue, int, SpecImportantData),
>
    decreases b.len() - p, 1nat, 0nat,
{
    if name == name_map() {
        match spec_read_map(b, p, d) {
            Some((m, q, d2)) => Some((SpecRefValue::EsdMap(m), q, d2)),
            None => None,
        }
    } else if name == name_state() {
        match spec_read_state(b, p, d) {
            Some((s, q, d2)) => Some((SpecRefValue::State(s), q, d2)),
            None => None,
        }
    } else if name == name_event() || name == name_event6() {
        match spec_read_event(b, p, d) {
            Some((e, q)) => Some((SpecRefValue::Event(e), q, d)),
            None => None,
        }
    } else if name == name_transition() {
        match spec_read_transition(b, p, d) {
            Some((t, q, d2)) => Some((SpecRefValue::Transition(t), q, d2)),
            None => None,
        }
    } else if name == name_condition() {
        match spec_read_condition(b, p, d) {
            Some((c, q)) => Some((SpecRefValue::Condition(c), q, d)),
            None => None,
        }
    } else {
        None
    }
}

/// `n` references of type `type_id`, one after the other.
pub open spec fn spec_read_refs(
    b: Seq<u8>,
    p: int,
    n: nat,
    type_id: u16,
    d: SpecImportantData,
) -> Option<(Seq<SpecReference>, int, SpecImportantData)>
    decreases b.len() - p, 1nat, n,
{
    if n == 0 {
        Some((seq![], p, d))
    } else {
        match spec_read_refs(b, p, (n - 1) as nat, type_id, d) {
            Some((v, q, d1)) => if p <= q <= b.len() {
                match spec_read_reference(b, q, type_id, d1) {
                    Some((r, q2, d2)) => Some((v.push(r), q2, d2)),
                    None => None,
                }
            } else {
                None
            },
            None => None,
        }
    }
}

/// A reference vector: the type `DLVector`, a `u32` count and, when it is not
/// zero, the references (for header version `0` after a `u16` item type that
/// they all share).
pub open spec fn spec_read_dlvector(b: Seq<u8>, p: int, d: SpecImportantData) -> Option<
    (SpecDLVector, int, SpecImportantData),
>
    decreases b.len() - p, 0nat, 0nat,
{
    match u16_field(b, p) {
        Some((st, p1)) => if !type_is(d, st, name_dlvector()) {
            None
        } else {
            match u32_field(b, p1) {
                Some((ref_count, p2)) => {
                if ref_count == 0 {
                    Some(
                        (
                            SpecDLVector {
                                struct_type: st,
                                ref_count,
                                item_type: None,
                                references: seq![],
                            },
                            p2,
                            d,
                        ),
                    )
                } else if d.header_version == 0 {
                    match u16_field(b, p2) {
                        Some((item_type, p3)) => match spec_read_refs(
                            b,
                            p3,
                            ref_count as nat,
                            item_type,
                            d,
                        ) {
                            Some((refs, q, d2)) => Some(
                                (
                                    SpecDLVector {
                                        struct_type: st,
                                        ref_count,
                                        item_type: Some(item_type),
                                        references: refs,
                                    },
                                    q,
                                    d2,
                                ),
                            ),
                            None => None,
                        },
                        None => None,
                    }
                } else {
                    match spec_read_refs(b, p2, ref_count as nat, 0, d) {
                        Some((refs, q, d2)) => Some(
                            (
                                SpecDLVector {
                                    struct_type: st,
                                    ref_count,
                                    item_type: None,
                                    references: refs,
                                },
                                q,
                                d2,
                            ),
                        ),
                        None => None,
                    }
                }
                },
                None => None,
            }
        },
        None => None,
    }
}

/// Three numbers after a checked type: the common head of maps and states
/// (type id, version in `versions`, an index).
pub open spec fn spec_read_head(
    b: Seq<u8>,
    p: int,
    d: SpecImportantData,
    name: Seq<char>,
    v1: u32,
    v2: u32,
) -> Option<(u16, u32, u32, int)> {
    match u16_field(b, p) {
        Some((st, p1)) => if !type_is(d, st, name) {
            None
        } else {
            match u32_field(b, p1) {
                Some((version, p2)) => if version != v1 && version != v2 {
                    None
                } else {
                    match u32_field(b, p2) {
                        Some((index, p3)) => Some((st, version, index, p3)),
                        None => None,
                    }
                },
                None => None,
            }
        },
        None => None,
    }
}

/// A map: the type `EzStateMap`, version `1` or `2`, its index, the initial
/// state reference, the state vector and, for version `2`, the transition
/// vector, whose ids are then mapped to their positions.
pub open spec fn spec_read_map(b: Seq<u8>, p: int, d: SpecImportantData) -> Option<
    (SpecMap, int, SpecImportantData),
>
    decreases b.len() - p, 0nat, 0nat,
{
    match spec_read_head(b, p, d, name_map(), 1, 2) {
        Some((st, version, map_index, p3)) => if p3 <= p || p3 > b.len() {
            None
        } else {
            match spec_read_reference(b, p3, 0, d) {
                Some((initial_state, q0, d0)) => if q0 <= p || q0 > b.len() {
                    None
                } else {
                    match spec_read_dlvector(b, q0, d0) {
                        Some((states, q1, d1)) => if q1 <= p || q1 > b.len() {
                            None
                        } else if version == 2 {
                            match spec_read_dlvector(b, q1, d1) {
                                Some((tv, q2, d2)) => Some(
                                    (
                                        SpecMap {
                                            struct_type: st,
                                            version,
                                            map_index,
                                            initial_state,
                                            states,
                                            transitions: Some(tv),
                                        },
                                        q2,
                                        SpecImportantData {
                                            trans_id_idx: insert_trans_indices(
                                                d2.trans_id_idx,
                                                tv.references,
                                                tv.references.len(),
                                            ),
                                            ..d2
                                        },
                                    ),
                                ),
                                None => None,
                            }
                        } else {
                            Some(
                                (
                                    SpecMap {
                                        struct_type: st,
                                        version,
                                        map_index,
                                        initial_state,
                                        states,
                                        transitions: None,
                                    },
                                    q1,
                                    d1,
                                ),
                            )
                        },
                        None => None,
                    }
                },
                None => None,
            }
        },
        None => None,
    }
}

/// A state: the type `EzStateMapState`, version `1` or `2`, its index and the
/// vectors of transitions, entry events and exit events.
pub open spec fn spec_read_state(b: Seq<u8>, p: int, d: SpecImportantData) -> Option<
    (SpecState, int, SpecImportantData),
>
    decreases b.len() - p, 0nat, 0nat,
{
    match spec_read_head(b, p, d, name_state(), 1, 2) {
        Some((st, version, state_index, p3)) => if p3 <= p || p3 > b.len() {
            None
        } else {
            match spec_read_dlvector(b, p3, d) {
                Some((transitions, q1, d1)) => if q1 <= p || q1 > b.len() {
                    None
                } else {
                    match spec_read_dlvector(b, q1, d1) {
                        Some((entry_events, q2, d2)) => if q2 <= p || q2 > b.len() {
                            None
                        } else {
                            match spec_read_dlvector(b, q2, d2) {
                                Some((exit_events, q3, d3)) => Some(
                                    (
                                        SpecState {
                                            struct_type: st,
                                            version,
                                            state_index,
                                            transitions,
                                            entry_events,
                                            exit_events,
                                        },
                                        q3,
                                        d3,
                                    ),
                                ),
                                None => None,
                            }
                        },
                        None => None,
                    }
                },
                None => None,
            }
        },
        None => None,
    }
}

/// A transition: the type `EzStateTransition`, version `1` (a condition
/// reference and a target state reference) or `3` (a condition buffer), then
/// the vector of pass events.
pub open spec fn spec_read_transition(b: Seq<u8>, p: int, d: SpecImportantData) -> Option<
    (SpecTransition, int, SpecImportantData),
>
    decreases b.len() - p, 0nat, 0nat,
{
    match u16_field(b, p) {
        Some((st, p1)) => if !type_is(d, st, name_transition()) {
            None
        } else {
            match u32_field(b, p1) {
                Some((version, p2)) => if version != 1 && version != 3 {
                    None
                } else if p2 <= p || p2 > b.len() {
                    None
                } else {
                    let mid: Option<
                        (Option<SpecReference>, Option<SpecReference>, Option<SpecBuffer>, int, SpecImportantData),
                    > = if version == 1 {
                        match spec_read_reference(b, p2, 0, d) {
                            Some((c, q1, d1)) => if q1 <= p || q1 > b.len() {
                                None
                            } else {
                                match spec_read_reference(b, q1, 0, d1) {
                                    Some((t, q2, d2)) => Some((Some(c), Some(t), None, q2, d2)),
                                    None => None,
                                }
                            },
                            None => None,
                        }
                    } else {
                        match spec_read_buffer(b, p2, d) {
                            Some((buf, q1)) => Some((None, None, Some(buf), q1, d)),
                            None => None,
                        }
                    };
                    match mid {
                        Some((cond_ref, target_state, cond_buffer, q, d2)) => if q <= p || q > b.len() {
                            None
                        } else {
                            match spec_read_dlvector(b, q, d2) {
                                Some((pass_events, q3, d3)) => Some(
                                    (
                                        SpecTransition {
                                            struct_type: st,
                                            version,
                                            cond_ref,
                                            target_state,
                                            cond_buffer,
                                            pass_events,
                                        },
                                        q3,
                                        d3,
                                    ),
                                ),
                                None => None,
                            }
                        },
                        None => None,
                    }
                },
                None => None,
            }
        },
        None => None,
    }
}

/// The project: the type `EzStateProject`, version `2` and the map vector.
pub open spec fn spec_read_project(b: Seq<u8>, p: int, d: SpecImportantData) -> Option<
    (SpecProject, int, SpecImportantData),
> {
    match u16_field(b, p) {
        Some((st, p1)) => if !type_is(d, st, name_project()) {
            None
        } else {
            match u32_field(b, p1) {
                Some((version, p2)) => if version != 2 {
                    None
                } else {
                    match spec_read_dlvector(b, p2, d) {
                        Some((maps, q, d2)) => Some(
                            (SpecProject { struct_type: st, version, maps }, q, d2),
                        ),
                        None => None,
                    }
                },
                None => None,
            }
        },
        None => None,
    }
}


// ---------------------------------------------------------------------------
// Reading moves forward and stays inside the bytes
// ---------------------------------------------------------------------------

pub proof fn lemma_evaluators_progress(b: Seq<u8>, p: int, n: nat, d: SpecImportantData)
    requires
        0 <= p <= b.len(),
    ensures
        spec_read_evaluators(b, p, n, d) matches Some((_, q)) ==> p <= q <= b.len(),
    decreases n,
{
    if n > 0 {
        lemma_evaluators_progress(b, p, (n - 1) as nat, d);
    }
}

pub proof fn lemma_buffers_progress(b: Seq<u8>, p: int, n: nat, d: SpecImportantData)
    requires
        0 <= p <= b.len(),
    ensures
        spec_read_buffers(b, p, n, d) matches Some((_, q)) ==> p <= q <= b.len(),
    decreases n,
{
    if n > 0 {
        lemma_buffers_progress(b, p, (n - 1) as nat, d);
    }
}

pub proof fn lemma_event_progress(b: Seq<u8>, p: int, d: SpecImportantData)
    ensures
        spec_read_event(b, p, d) matches Some((_, q)) ==> p < q <= b.len(),
{
    if let Some((st, p1)) = u16_field(b, p) {
        if let Some((version, p2)) = u32_field(b, p1) {
            if let Some((event_id, p3)) = u32_field(b, p2) {
                if let Some((arg_amount, p4)) = u32_field(b, p3) {
                    if arg_amount != 0 {
                        lemma_evaluators_progress(b, p4, (arg_amount - 1) as nat, d);
                        lemma_buffers_progress(b, p4, (arg_amount - 1) as nat, d);
                    }
                }
            }
        }
    }
}

pub proof fn lemma_reference_progress(b: Seq<u8>, p: int, type_id: u16, d: SpecImportantData)
    ensures
        spec_read_reference(b, p, type_id, d) matches Some((_, q, _)) ==> p < q <= b.len(),
    decreases b.len() - p, 0nat, 0nat,
{
    let head: Option<(u16, int)> = if type_id == 0 {
        u16_field(b, p)
    } else if 0 <= p {
        Some((type_id, p))
    } else {
        None
    };
    if let Some((ref_type, p1)) = head {
        if let Some((id, p2)) = u32_field(b, p1) {
            if !d.ref_ids_with_data.contains(id) {
                if let Some(name) = spec_type_name(d.type_table, ref_type) {
                    lemma_value_progress(b, p2, name, with_id_read(d, id));
                }
            }
        }
    }
}

pub proof fn lemma_value_progress(b: Seq<u8>, p: int, name: Seq<char>, d: SpecImportantData)
    ensures
        spec_read_value(b, p, name, d) matches Some((_, q, _)) ==> p < q <= b.len(),
    decreases b.len() - p, 1nat, 0nat,
{
    if name == name_map() {
        lemma_map_progress(b, p, d);
    } else if name == name_state() {
        lemma_state_progress(b, p, d);
    } else if name == name_event() || name == name_event6() {
        lemma_event_progress(b, p, d);
    } else if name == name_transition() {
        lemma_transition_progress(b, p, d);
    } else if name == name_condition() {
        lemma_condition_progress(b, p, d);
    }
}

pub proof fn lemma_condition_progress(b: Seq<u8>, p: int, d: SpecImportantData)
    ensures
        spec_read_condition(b, p, d) matches Some((_, q)) ==> p < q <= b.len(),
{
}

pub proof fn lemma_refs_progress(b: Seq<u8>, p: int, n: nat, type_id: u16, d: SpecImportantData)
    requires
        0 <= p <= b.len(),
    ensures
        spec_read_refs(b, p, n, type_id, d) matches Some((_, q, _)) ==> p <= q <= b.len(),
    decreases b.len() - p, 1nat, n,
{
    if n > 0 {
        lemma_refs_progress(b, p, (n - 1) as nat, type_id, d);
        if let Some((v, q, d1)) = spec_read_refs(b, p, (n - 1) as nat, type_id, d) {
            if p <= q <= b.len() {
                lemma_reference_progress(b, q, type_id, d1);
            }
        }
    }
}

pub proof fn lemma_dlvector_progress(b: Seq<u8>, p: int, d: SpecImportantData)
    ensures
        spec_read_dlvector(b, p, d) matches Some((_, q, _)) ==> p < q <= b.len(),
    decreases b.len() - p, 0nat, 0nat,
{
    if let Some((st, p1)) = u16_field(b, p) {
        if let Some((ref_count, p2)) = u32_field(b, p1) {
            if ref_count != 0 {
                if d.header_version == 0 {
                    if let Some((item_type, p3)) = u16_field(b, p2) {
                        lemma_refs_progress(b, p3, ref_count as nat, item_type, d);
                    }
                } else {
                    lemma_refs_progress(b, p2, ref_count as nat, 0, d);
                }
            }
        }
    }
}

pub proof fn lemma_map_progress(b: Seq<u8>, p: int, d: SpecImportantData)
    ensures
        spec_read_map(b, p, d) matches Some((_, q, _)) ==> p < q <= b.len(),
    decreases b.len() - p, 0nat, 0nat,
{
    if let Some((st, version, map_index, p3)) = spec_read_head(b, p, d, name_map(), 1, 2) {
        if !(p3 <= p || p3 > b.len()) {
            if let Some((i, q0, d0)) = spec_read_reference(b, p3, 0, d) {
                if !(q0 <= p || q0 > b.len()) {
                    if let Some((s, q1, d1)) = spec_read_dlvector(b, q0, d0) {
                        if !(q1 <= p || q1 > b.len()) {
                            lemma_dlvector_progress(b, q1, d1);
                        }
                    }
                }
            }
        }
    }
}

pub proof fn lemma_state_progress(b: Seq<u8>, p: int, d: SpecImportantData)
    ensures
        spec_read_state(b, p, d) matches Some((_, q, _)) ==> p < q <= b.len(),
    decreases b.len() - p, 0nat, 0nat,
{
    if let Some((st, version, state_index, p3)) = spec_read_head(b, p, d, name_state(), 1, 2) {
        if !(p3 <= p || p3 > b.len()) {
            if let Some((t, q1, d1)) = spec_read_dlvector(b, p3, d) {
                if !(q1 <= p || q1 > b.len()) {
                    if let Some((e, q2, d2)) = spec_read_dlvector(b, q1, d1) {
                        if !(q2 <= p || q2 > b.len()) {
                            lemma_dlvector_progress(b, q2, d2);
                        }
                    }
                }
            }
        }
    }
}

pub proof fn lemma_transition_progress(b: Seq<u8>, p: int, d: SpecImportantData)
    ensures
        spec_read_transition(b, p, d) matches Some((_, q, _)) ==> p < q <= b.len(),
    decreases b.len() - p, 0nat, 0nat,
{
    if let Some((st, p1)) = u16_field(b, p) {
        if let Some((version, p2)) = u32_field(b, p1) {
            if (version == 1 || version == 3) && !(p2 <= p || p2 > b.len()) {
                let mid: Option<
                    (Option<SpecReference>, Option<SpecReference>, Option<SpecBuffer>, int, SpecImportantData),
                > = if version == 1 {
                    match spec_read_reference(b, p2, 0, d) {
                        Some((c, q1, d1)) => if q1 <= p || q1 > b.len() {
                            None
                        } else {
                            match spec_read_reference(b, q1, 0, d1) {
                                Some((t, q2, d2)) => Some((Some(c), Some(t), None, q2, d2)),
                                None => None,
                            }
                        },
                        None => None,
                    }
                } else {
                    match spec_read_buffer(b, p2, d) {
                        Some((buf, q1)) => Some((None, None, Some(buf), q1, d)),
                        None => None,
                    }
                };
                if let Some((c, t, buf, q, d2)) = mid {
                    if !(q <= p || q > b.len()) {
                        lemma_dlvector_progress(b, q, d2);
                    }
                }
            }
        }
    }
}


/// No two entries of an index list share an id.
pub open spec fn ids_distinct(l: Seq<(u32, usize)>) -> bool {
    forall|i: int, j: int| 0 <= i < j < l.len() ==> #[trigger] l[i].0 != #[trigger] l[j].0
}

/// Storing an index under an id in an index list whose ids are distinct
/// keeps them distinct, gives the id that index, and leaves the entries of
/// the other ids as they were.
pub proof fn law_index_store(l: Seq<(u32, usize)>, k: u32, v: usize)
    requires
        ids_distinct(l),
    ensures
        ids_distinct(assoc_insert(l, k, v)),
        forall|p: (u32, usize)|
            #[trigger] assoc_insert(l, k, v).contains(p) <==> (p == (k, v) || (
            l.contains(p) && p.0 != k)),
{
    let r = assoc_insert(l, k, v);
    if exists|i: int| 0 <= i < l.len() && l[i].0 == k {
        let i = choose|i: int| 0 <= i < l.len() && l[i].0 == k && forall|j: int| 0 <= j < i ==> l[j].0 != k;
        assert(r == l.update(i, (k, v)));
        assert forall|p: (u32, usize)| r.contains(p) <==> (p == (k, v) || (l.contains(p) && p.0 != k)) by {
            if r.contains(p) {
                let j = choose|j: int| 0 <= j < r.len() && r[j] == p;
                if j != i {
                    assert(l[j] == p);
                    assert(l[j].0 != l[i].0);
                }
            }
            if p == (k, v) {
                assert(r[i] == p);
            } else if l.contains(p) && p.0 != k {
                let j = choose|j: int| 0 <= j < l.len() && l[j] == p;
                assert(j != i);
                assert(r[j] == p);
            }
        }
    } else {
        assert(r == l.push((k, v)));
        assert forall|p: (u32, usize)| r.contains(p) <==> (p == (k, v) || (l.contains(p) && p.0 != k)) by {
            if r.contains(p) {
                let j = choose|j: int| 0 <= j < r.len() && r[j] == p;
                if j < l.len() {
                    assert(l[j] == p);
                }
            }
            if p == (k, v) {
                assert(r[l.len() as int] == p);
            } else if l.contains(p) && p.0 != k {
                let j = choose|j: int| 0 <= j < l.len() && l[j] == p;
                assert(r[j] == p);
            }
        }
    }
}

/// The transition index list that reading a map builds keeps its ids
/// distinct, and maps the id of each of the first `n` transitions to the
/// last position among them that holds that id.
pub proof fn law_transition_indices(l: Seq<(u32, usize)>, refs: Seq<crate::types::structs::SpecReference>, n: nat, j: int)
    requires
        ids_distinct(l),
        n <= refs.len(),
        n <= usize::MAX,
        0 <= j < n,
        forall|m: int| j < m < n ==> refs[m].id != refs[j].id,
    ensures
        ids_distinct(insert_trans_indices(l, refs, n)),
        insert_trans_indices(l, refs, n).contains((refs[j].id, j as usize)),
    decreases n,
{
    lemma_indices_distinct(l, refs, (n - 1) as nat);
    let r0 = insert_trans_indices(l, refs, (n - 1) as nat);
    law_index_store(r0, refs[n - 1].id, (n - 1) as usize);
    if j < n - 1 {
        law_transition_indices(l, refs, (n - 1) as nat, j);
        assert(refs[n - 1].id != refs[j].id);
    }
}

/// Storing the indices of references keeps the ids distinct.
proof fn lemma_indices_distinct(l: Seq<(u32, usize)>, refs: Seq<crate::types::structs::SpecReference>, n: nat)
    requires
        ids_distinct(l),
        n <= refs.len(),
    ensures
        ids_distinct(insert_trans_indices(l, refs, n)),
    decreases n,
{
    if n > 0 {
        lemma_indices_distinct(l, refs, (n - 1) as nat);
        law_index_store(
            insert_trans_indices(l, refs, (n - 1) as nat),
            refs[n - 1].id,
            (n - 1) as usize,
        );
    }
}

} // verus!
