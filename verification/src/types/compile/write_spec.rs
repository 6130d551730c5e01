//! The bytes written for each object, stated as functions from the object and
//! the writing state to the bytes and the new state.
use vstd::prelude::*;
use vstd::utf8::encode_utf8;
use crate::types::decompile::read_spec::{
    name_buffer, name_condition, name_dlvector, name_evaluator, name_event, name_event6, name_map,
    name_project, name_state, name_transition,
};
use crate::types::structs::{
    SpecBuffer, SpecCondition, SpecDLVector, SpecEvaluator, SpecEvent, SpecHeader, SpecMap,
    SpecProject, SpecRefValue, SpecReference, SpecSharedString, SpecState, SpecTransition,
};
use crate::utils::binary_writer::be_encode;
use crate::utils::important_data::{SpecImportantData, first_index_of, spec_type_by_name, spec_type_name};

verus! {

pub open spec fn be16(v: int) -> Seq<u8> {
    be_encode(v as nat, 2)
}

pub open spec fn be32(v: int) -> Seq<u8> {
    be_encode(v as nat, 4)
}

/// A shared string: its UTF-8 byte length as a `u32`, then the bytes.
pub open spec fn spec_write_shared_string(s: SpecSharedString) -> Seq<u8> {
    be32((encode_utf8(s.str).len() as u32) as int) + encode_utf8(s.str)
}

/// The strings of a table, one after the other.
pub open spec fn spec_write_shared_strings(v: Seq<SpecSharedString>) -> Seq<u8>
    decreases v.len(),
{
    if v.len() == 0 {
        seq![]
    } else {
        spec_write_shared_strings(v.drop_last()) + spec_write_shared_string(v.last())
    }
}

/// Whether a header can be written: version `3` needs its three numbers.
pub open spec fn header_writable(h: SpecHeader) -> bool {
    h.version == 3 ==> h.unk08 is Some && h.transition_count is Some
        && h.highest_ref_id_plus_one is Some
}

/// The header: the magic, two `u16`, the three numbers of version `3`, the
/// string count as a `u16` and the strings.
pub open spec fn spec_write_header(h: SpecHeader) -> Seq<u8> {
    encode_utf8(h.magic) + be16(h.unk04 as int) + be16(h.version as int) + (if h.version == 3 {
        be32(h.unk08.unwrap() as int) + be32(h.transition_count.unwrap() as int) + be32(
            h.highest_ref_id_plus_one.unwrap() as int,
        )
    } else {
        seq![]
    }) + be16((h.strings.len() as u16) as int) + spec_write_shared_strings(h.strings)
}

/// A buffer under the type named `name`: the type id, the length and the
/// bytes; `None` when no type has that name.
pub open spec fn spec_write_buffer(x: SpecBuffer, d: SpecImportantData, name: Seq<char>) -> Option<Seq<u8>> {
    match spec_type_by_name(d.type_table, name) {
        Some(t) => Some(be16(t as int) + be32((x.data.len() as u32) as int) + x.data),
        None => None,
    }
}

/// An evaluator: its type id, version `1` and its buffer (as a `buffer`).
pub open spec fn spec_write_evaluator(x: SpecEvaluator, d: SpecImportantData) -> Option<Seq<u8>> {
    match spec_type_by_name(d.type_table, name_evaluator()) {
        Some(t) => match spec_write_buffer(x.buffer, d, name_buffer()) {
            Some(bb) => Some(be16(t as int) + be32(1) + bb),
            None => None,
        },
        None => None,
    }
}

/// A condition: its type id, version `1` and its evaluator.
pub open spec fn spec_write_condition(x: SpecCondition, d: SpecImportantData) -> Option<Seq<u8>> {
    match spec_type_by_name(d.type_table, name_condition()) {
        Some(t) => match spec_write_evaluator(x.evaluator, d) {
            Some(eb) => Some(be16(t as int) + be32(1) + eb),
            None => None,
        },
        None => None,
    }
}

/// Evaluators one after the other.
pub open spec fn spec_write_evaluators(v: Seq<SpecEvaluator>, d: SpecImportantData) -> Option<Seq<u8>>
    decreases v.len(),
{
    if v.len() == 0 {
        Some(seq![])
    } else {
        match spec_write_evaluators(v.drop_last(), d) {
            Some(a) => match spec_write_evaluator(v.last(), d) {
                Some(e) => Some(a + e),
                None => None,
            },
            None => None,
        }
    }
}

/// Buffers one after the other, each as a `buffer`.
pub open spec fn spec_write_buffers(v: Seq<SpecBuffer>, d: SpecImportantData) -> Option<Seq<u8>>
    decreases v.len(),
{
    if v.len() == 0 {
        Some(seq![])
    } else {
        match spec_write_buffers(v.drop_last(), d) {
            Some(a) => match spec_write_buffer(v.last(), d, name_buffer()) {
                Some(e) => Some(a + e),
                None => None,
            },
            None => None,
        }
    }
}

/// Whether a type table entry names one of the two event types.
pub open spec fn is_event_name(s: Seq<char>) -> bool {
    s == name_event() || s == name_event6()
}

/// The type id written for events: one more than the position of the first
/// entry that names an event type, or `0` when there is none; `None` when it
/// does not fit in a `u16`.
#[verifier::opaque]
pub open spec fn event_type_id(table: Seq<Seq<char>>) -> Option<u16> {
    if exists|i: int| 0 <= i < table.len() && is_event_name(table[i]) {
        let i = choose|i: int|
            0 <= i < table.len() && is_event_name(table[i]) && forall|j: int|
                0 <= j < i ==> !is_event_name(table[j]);
        if i + 1 <= u16::MAX {
            Some((i + 1) as u16)
        } else {
            None
        }
    } else {
        Some(0)
    }
}

/// An event: its type id, version (`1` or `2`), event id and argument count
/// plus one, then (when there are arguments) the evaluators for version `1`
/// or the buffers otherwise.
pub open spec fn spec_write_event(x: SpecEvent, d: SpecImportantData) -> Option<Seq<u8>> {
    match event_type_id(d.type_table) {
        Some(t) => if x.version != 1 && x.version != 2 {
            None
        } else {
            let count: Option<nat> = match x.arg_evaluators {
                Some(ev) => Some(ev.len()),
                None => match x.arg_buffers {
                    Some(bu) => Some(bu.len()),
                    None => None,
                },
            };
            match count {
                Some(c) => if (c as u32) == u32::MAX {
                    None
                } else {
                    let arg_amount = (c as u32) + 1;
                    let head = be16(t as int) + be32(x.version as int) + be32(x.event_id as int)
                        + be32(arg_amount);
                    if arg_amount <= 1 {
                        Some(head)
                    } else if x.version == 1 {
                        match x.arg_evaluators {
                            Some(ev) => match spec_write_evaluators(ev, d) {
                                Some(a) => Some(head + a),
                                None => None,
                            },
                            None => None,
                        }
                    } else {
                        match x.arg_buffers {
                            Some(bu) => match spec_write_buffers(bu, d) {
                                Some(a) => Some(head + a),
                                None => None,
                            },
                            None => None,
                        }
                    }
                },
                None => None,
            }
        },
        None => None,
    }
}

/// The state after the id `id` is written: the new id it is written as (one
/// more than the highest so far, unless `id` already has one) and the updated
/// id map; `None` when the next id would overflow.
pub open spec fn spec_new_id(id: u32, d: SpecImportantData) -> Option<(u32, SpecImportantData)> {
    if d.current_max_id == u32::MAX {
        None
    } else if d.old_new_id.contains_key(id) {
        Some((d.old_new_id[id], d))
    } else {
        let n = (d.current_max_id + 1) as u32;
        Some(
            (
                n,
                SpecImportantData { old_new_id: d.old_new_id.insert(id, n), current_max_id: n, ..d },
            ),
        )
    }
}

/// The type names that references may point to.
pub open spec fn is_object_name(s: Seq<char>) -> bool {
    s == name_map() || s == name_state() || s == name_event() || s == name_event6() || s
        == name_transition() || s == name_condition()
}

/// A reference: its type (when `type_id` is `0`) and its new id; the first
/// time that new id is written, also the object, when it is of the kind its
/// type names.
#[verifier::opaque]
pub open spec fn spec_write_reference(r: SpecReference, type_id: u16, d: SpecImportantData) -> Option<
    (Seq<u8>, SpecImportantData),
>
    decreases r, 0nat,
{
    let local_type = if type_id == 0 {
        r.ref_type
    } else {
        type_id
    };
    let pre = if type_id == 0 {
        be16(r.ref_type as int)
    } else {
        seq![]
    };
    match spec_type_name(d.type_table, local_type) {
        Some(name) => match spec_new_id(r.id, d) {
            Some((new_id, d1)) => {
                let head = pre + be32(new_id as int);
                if d1.ids_holding_data.contains(new_id) {
                    Some((head, d1))
                } else {
                    let d2 = SpecImportantData {
                        ids_holding_data: d1.ids_holding_data.push(new_id),
                        ..d1
                    };
                    if !is_object_name(name) {
                        None
                    } else {
                        match r.value {
                            Some(bv) => {
                                let v = *bv;
                                proof {
                                    assert(decreases_to!(r => r.value));
                                }
                                match spec_write_value(v, name, d2) {
                                    Some((vb, d3)) => Some((head + vb, d3)),
                                    None => None,
                                }
                            },
                            None => None,
                        }
                    }
                }
            },
            None => None,
        },
        None => None,
    }
}

/// The object of a reference whose type is named `name`: written when it is
/// of that kind, nothing otherwise.
#[verifier::opaque]
pub open spec fn spec_write_value(v: SpecRefValue, name: Seq<char>, d: SpecImportantData) -> Option<
    (Seq<u8>, SpecImportantData),
>
    decreases v, 0nat,
{
    match v {
        SpecRefValue::EsdMap(m) => if name == name_map() {
            spec_write_map(m, d)
        } else {
            Some((seq![], d))
        },
        SpecRefValue::State(s) => if name == name_state() {
            spec_write_state(s, d)
        } else {
            Some((seq![], d))
        },
        SpecRefValue::Event(e) => if name == name_event() || name == name_event6() {
            match spec_write_event(e, d) {
                Some(b) => Some((b, d)),
                None => None,
            }
        } else {
            Some((seq![], d))
        },
        SpecRefValue::Transition(t) => if name == name_transition() {
            spec_write_transition(t, d)
        } else {
            Some((seq![], d))
        },
        SpecRefValue::Condition(c) => if name == name_condition() {
            match spec_write_condition(c, d) {
                Some(b) => Some((b, d)),
                None => None,
            }
        } else {
            Some((seq![], d))
        },
    }
}

/// The first `n` references, each written with the type `t`.
#[verifier::opaque]
pub open spec fn spec_write_refs(refs: Seq<SpecReference>, n: nat, t: u16, d: SpecImportantData) -> Option<
    (Seq<u8>, SpecImportantData),
>
    decreases refs, n,
{
    if n == 0 {
        Some((seq![], d))
    } else if n > refs.len() {
        None
    } else {
        match spec_write_refs(refs, (n - 1) as nat, t, d) {
            Some((a, d1)) => match spec_write_reference(refs[n - 1], t, d1) {
                Some((rb, d2)) => Some((a + rb, d2)),
                None => None,
            },
            None => None,
        }
    }
}

/// A reference vector: its type id, the count as a `u32` and, when it is not
/// zero, for header version `0` the item type and the references without
/// their types, otherwise the references with their types.
#[verifier::opaque]
pub open spec fn spec_write_dlvector(v: SpecDLVector, d: SpecImportantData) -> Option<
    (Seq<u8>, SpecImportantData),
>
    decreases v, 0nat,
{
    match spec_type_by_name(d.type_table, name_dlvector()) {
        Some(st) => {
            let count = v.references.len() as u32;
            let head = be16(st as int) + be32(count as int);
            if count == 0 {
                Some((head, d))
            } else if d.header_version == 0 {
                match v.item_type {
                    Some(it) => match spec_write_refs(v.references, count as nat, it, d) {
                        Some((rb, d1)) => Some((head + be16(it as int) + rb, d1)),
                        None => None,
                    },
                    None => None,
                }
            } else {
                match spec_write_refs(v.references, count as nat, 0, d) {
                    Some((rb, d1)) => Some((head + rb, d1)),
                    None => None,
                }
            }
        },
        None => None,
    }
}

/// A map: its type id, version (`1` or `2`), the next map index, the initial
/// state reference, the state vector and, for version `2`, the transition
/// vector.
#[verifier::opaque]
pub open spec fn spec_write_map(m: SpecMap, d: SpecImportantData) -> Option<
    (Seq<u8>, SpecImportantData),
>
    decreases m, 0nat,
{
    match spec_type_by_name(d.type_table, name_map()) {
        Some(st) => if m.version != 1 && m.version != 2 {
            None
        } else if d.current_map_index == u32::MAX {
            None
        } else {
            let index = (d.current_map_index + 1) as u32;
            let d0 = SpecImportantData { current_map_index: index, ..d };
            let head = be16(st as int) + be32(m.version as int) + be32(index as int);
            match spec_write_reference(m.initial_state, 0, d0) {
                Some((ib, d1)) => match spec_write_dlvector(m.states, d1) {
                    Some((sb, d2)) => if m.version == 2 {
                        match m.transitions {
                            Some(tv) => match spec_write_dlvector(tv, d2) {
                                Some((tb, d3)) => Some((head + ib + sb + tb, d3)),
                                None => None,
                            },
                            None => None,
                        }
                    } else {
                        Some((head + ib + sb, d2))
                    },
                    None => None,
                },
                None => None,
            }
        },
        None => None,
    }
}

/// A state: its type id, version (`1` or `2`), the next state index and the
/// vectors of transitions, entry events and exit events.
#[verifier::opaque]
pub open spec fn spec_write_state(s: SpecState, d: SpecImportantData) -> Option<
    (Seq<u8>, SpecImportantData),
>
    decreases s, 0nat,
{
    match spec_type_by_name(d.type_table, name_state()) {
        Some(st) => if s.version != 1 && s.version != 2 {
            None
        } else if d.current_state_index == u32::MAX {
            None
        } else {
            let index = d.current_state_index;
            let d0 = SpecImportantData { current_state_index: (index + 1) as u32, ..d };
            let head = be16(st as int) + be32(s.version as int) + be32(index as int);
            match spec_write_dlvector(s.transitions, d0) {
                Some((tb, d1)) => match spec_write_dlvector(s.entry_events, d1) {
                    Some((eb, d2)) => match spec_write_dlvector(s.exit_events, d2) {
                        Some((xb, d3)) => Some((head + tb + eb + xb, d3)),
                        None => None,
                    },
                    None => None,
                },
                None => None,
            }
        },
        None => None,
    }
}

/// A transition: its type id, version (`1` or `3`), for version `1` the
/// condition and target references, otherwise the condition buffer, then the
/// pass events.
#[verifier::opaque]
pub open spec fn spec_write_transition(t: SpecTransition, d: SpecImportantData) -> Option<
    (Seq<u8>, SpecImportantData),
>
    decreases t, 0nat,
{
    match spec_type_by_name(d.type_table, name_transition()) {
        Some(st) => if t.version != 1 && t.version != 3 {
            None
        } else {
            let head = be16(st as int) + be32(t.version as int);
            let mid: Option<(Seq<u8>, SpecImportantData)> = if t.version == 1 {
                match (t.cond_ref, t.target_state) {
                    (Some(c), Some(g)) => match spec_write_reference(c, 0, d) {
                        Some((cb, d1)) => match spec_write_reference(g, 0, d1) {
                            Some((gb, d2)) => Some((cb + gb, d2)),
                            None => None,
                        },
                        None => None,
                    },
                    (None, _) => None,
                    (Some(c), None) => match spec_write_reference(c, 0, d) {
                        Some(_) => None,
                        None => None,
                    },
                }
            } else {
                match t.cond_buffer {
                    Some(buf) => match spec_write_buffer(buf, d, name_buffer()) {
                        Some(bb) => Some((bb, d)),
                        None => None,
                    },
                    None => None,
                }
            };
            match mid {
                Some((mb, d2)) => match spec_write_dlvector(t.pass_events, d2) {
                    Some((pb, d3)) => Some((head + mb + pb, d3)),
                    None => None,
                },
                None => None,
            }
        },
        None => None,
    }
}

/// The project: its type id, version `2` and the map vector.
pub open spec fn spec_write_project(p: SpecProject, d: SpecImportantData) -> Option<
    (Seq<u8>, SpecImportantData),
> {
    match spec_type_by_name(d.type_table, name_project()) {
        Some(st) => match spec_write_dlvector(p.maps, d) {
            Some((mb, d1)) => Some((be16(st as int) + be32(2) + mb, d1)),
            None => None,
        },
        None => None,
    }
}

/// A whole file: the header, the project, the `u64` and, for header version
/// `3`, the state references with their types.
pub open spec fn spec_write_esd(
    h: SpecHeader,
    p: SpecProject,
    unkx00: u64,
    state_refs: Option<Seq<SpecReference>>,
    d: SpecImportantData,
) -> Option<(Seq<u8>, SpecImportantData)> {
    if !header_writable(h) {
        None
    } else {
        match spec_write_project(p, d) {
            Some((pb, d1)) => {
                let head = spec_write_header(h) + pb + be_encode(unkx00 as nat, 8);
                if h.version == 3 {
                    match state_refs {
                        Some(refs) => match spec_write_refs(refs, refs.len(), 0, d1) {
                            Some((rb, d2)) => Some((head + rb, d2)),
                            None => None,
                        },
                        None => None,
                    }
                } else {
                    Some((head, d1))
                }
            },
            None => None,
        }
    }
}

} // verus!
