use vstd::prelude::*;
use vstd::utf8::*;
use crate::types::decompile::read_spec::{uint_field, u16_field, u32_field, u64_field, type_is, name_map, name_state, name_event, name_event6, name_transition, name_condition, name_evaluator, name_project, name_dlvector, name_buffer, string_field, spec_read_shared_string, spec_read_shared_strings, spec_read_header, spec_read_buffer, spec_read_evaluator, spec_read_evaluators, spec_read_buffers, spec_read_event, spec_read_condition, assoc_insert, insert_trans_indices, with_id_read, with_ref_data, spec_read_reference, spec_read_value, spec_read_refs, spec_read_dlvector, spec_read_head, spec_read_map, spec_read_state, spec_read_transition, spec_read_project, lemma_evaluators_progress, lemma_buffers_progress, lemma_event_progress, lemma_reference_progress, lemma_value_progress, lemma_refs_progress, lemma_dlvector_progress, lemma_map_progress, lemma_state_progress, lemma_transition_progress};
use std::sync::Arc;
use crate::types::structs::{share, ref_models, Buffer, Condition, DLVectorReference, EsdMap, Evaluator, Event, Header, Project, RefValue, Reference, SharedString, SpecBuffer, SpecDLVector, SpecEvaluator, SpecRefValue, SpecReference, State, Transition, views_of};
use crate::utils::binary_reader::{BinaryReader, lemma_be_value_bound, lemma_pow256_8, lemma_utf8_string};
use crate::utils::important_data::{ImportantData, SpecImportantData};
use crate::utils::text::string_eq;

verus! {

broadcast use vstd::std_specs::hash::group_hash_axioms;

/// Reads a big-endian `u16` if two bytes are left.
pub fn field_u16(br: &mut BinaryReader) -> (r: Option<u16>)
    ensures
        final(br).bytes@ == old(br).bytes@,
        match u16_field(old(br).bytes@, old(br).current_position as int) {
            Some((v, q)) => r == Some(v) && final(br).current_position == q,
            None => r is None,
        },
{
    if br.bytes.len() >= 2 && br.current_position <= br.bytes.len() - 2 {
        let v = br.read_uint16();
        Some(v)
    } else {
        None
    }
}

/// Reads a big-endian `u32` if four bytes are left.
pub fn field_u32(br: &mut BinaryReader) -> (r: Option<u32>)
    ensures
        final(br).bytes@ == old(br).bytes@,
        match u32_field(old(br).bytes@, old(br).current_position as int) {
            Some((v, q)) => r == Some(v) && final(br).current_position == q,
            None => r is None,
        },
{
    if br.bytes.len() >= 4 && br.current_position <= br.bytes.len() - 4 {
        let v = br.read_uint32();
        Some(v)
    } else {
        None
    }
}

/// Reads a big-endian `u64` if eight bytes are left.
pub fn field_u64(br: &mut BinaryReader) -> (r: Option<u64>)
    ensures
        final(br).bytes@ == old(br).bytes@,
        match u64_field(old(br).bytes@, old(br).current_position as int) {
            Some((v, q)) => r == Some(v) && final(br).current_position == q,
            None => r is None,
        },
{
    if br.bytes.len() >= 8 && br.current_position <= br.bytes.len() - 8 {
        let v = br.read_uint64();
        Some(v)
    } else {
        None
    }
}

/// Whether the type id `t` names the type `name`.
pub fn type_matches(d: &ImportantData, t: u16, name: &str) -> (r: bool)
    ensures
        r == type_is(d@, t, name@),
{
    if t >= 1 && ((t - 1) as usize) < d.type_table.len() {
        let s = d.get_type_name(t);
        string_eq(&s, name)
    } else {
        false
    }
}

/// Whether the type id at `p`, where one can be read, names `name`.
pub open spec fn type_at(b: Seq<u8>, p: int, d: SpecImportantData, name: Seq<char>) -> bool {
    u16_field(b, p) matches Some((st, _)) ==> type_is(d, st, name)
}

/// Whether the type id at `p`, where one can be read, names one of the two
/// event types.
pub open spec fn event_type_at(b: Seq<u8>, p: int, d: SpecImportantData) -> bool {
    u16_field(b, p) matches Some((st, _)) ==> type_is(d, st, name_event()) || type_is(d, st, name_event6())
}

/// Whether the version after the type id at `p`, where one can be read, is
/// `v1` or `v2`.
pub open spec fn version_at(b: Seq<u8>, p: int, v1: u32, v2: u32) -> bool {
    u32_field(b, p + 2) matches Some((v, _)) ==> v == v1 || v == v2
}

/// Whether the type id at the reader's position, where one can be read,
/// names `name`; the reader is left where it was.
pub fn peek_type(br: &mut BinaryReader, d: &ImportantData, name: &str) -> (r: bool)
    ensures
        final(br).bytes@ == old(br).bytes@,
        final(br).current_position == old(br).current_position,
        r == type_at(old(br).bytes@, old(br).current_position as int, d@, name@),
{
    let saved = br.current_position;
    let r = match field_u16(br) {
        Some(t) => type_matches(d, t, name),
        None => true,
    };
    br.current_position = saved;
    r
}

/// Whether the type id at the reader's position, where one can be read,
/// names an event type; the reader is left where it was.
pub fn peek_event_type(br: &mut BinaryReader, d: &ImportantData) -> (r: bool)
    ensures
        final(br).bytes@ == old(br).bytes@,
        final(br).current_position == old(br).current_position,
        r == event_type_at(old(br).bytes@, old(br).current_position as int, d@),
{
    let saved = br.current_position;
    let r = match field_u16(br) {
        Some(t) => type_matches(d, t, "EzStateExternalEvent") || type_matches(
            d,
            t,
            "EzStateExternalEventT<ES_EVENT_PARAM_NUM_6>",
        ),
        None => true,
    };
    br.current_position = saved;
    r
}

/// Whether the version after the type id at the reader's position, where
/// one can be read, is `v1` or `v2`; the reader is left where it was.
pub fn peek_version(br: &mut BinaryReader, v1: u32, v2: u32) -> (r: bool)
    ensures
        final(br).bytes@ == old(br).bytes@,
        final(br).current_position == old(br).current_position,
        r == version_at(old(br).bytes@, old(br).current_position as int, v1, v2),
{
    let saved = br.current_position;
    let r = match field_u16(br) {
        Some(_) => match field_u32(br) {
            Some(v) => v == v1 || v == v2,
            None => true,
        },
        None => true,
    };
    br.current_position = saved;
    r
}

impl SharedString {
    /// Reads a shared string; `None` when the bytes run out or are not UTF-8.
    pub fn read(br: &mut BinaryReader) -> (r: Option<SharedString>)
        ensures
            final(br).bytes@ == old(br).bytes@,
            match spec_read_shared_string(old(br).bytes@, old(br).current_position as int) {
                Some((s, q)) => r matches Some(x) && x@ == s && final(br).current_position == q,
                None => r is None,
            },
    {
        let length = match field_u32(br) {
            Some(l) => l,
            None => return None,
        };
        if (length as usize) > br.bytes.len() || br.current_position > br.bytes.len()
            - length as usize {
            return None;
        }
        let ghost p1 = br.current_position as int;
        let s = match br.read_string(length) {
            Some(s) => s,
            None => return None,
        };
        proof {
            lemma_utf8_string(s@, br.bytes@.subrange(p1, p1 + length));
        }
        Some(SharedString { length, str: s })
    }
}

impl Header {
    /// Reads the header; `None` where the bytes do not hold one.
    #[verifier::loop_isolation(false)]
    pub fn read(br: &mut BinaryReader) -> (r: Option<Header>)
        ensures
            final(br).bytes@ == old(br).bytes@,
            match spec_read_header(old(br).bytes@, old(br).current_position as int) {
                Some((h, q)) => r matches Some(x) && x@ == h && final(br).current_position == q,
                None => r is None,
            },
    {
        let ghost b = br.bytes@;
        let ghost p0 = br.current_position as int;
        if br.bytes.len() < 4 || br.current_position > br.bytes.len() - 4 {
            return None;
        }
        let magic = match br.read_string(4) {
            Some(s) => s,
            None => return None,
        };
        proof {
            lemma_utf8_string(magic@, b.subrange(p0, p0 + 4));
        }
        if !string_eq(&magic, "DLSE") {
            return None;
        }
        let unk04 = match field_u16(br) {
            Some(v) => v,
            None => return None,
        };
        if unk04 != 2 {
            return None;
        }
        let version = match field_u16(br) {
            Some(v) => v,
            None => return None,
        };
        if version != 0 && version != 1 && version != 3 {
            return None;
        }
        let mut unk08 = None;
        let mut transition_count = None;
        let mut highest_ref_id_plus_one = None;
        if version == 3 {
            unk08 = match field_u32(br) {
                Some(v) => Some(v),
                None => return None,
            };
            transition_count = match field_u32(br) {
                Some(v) => Some(v),
                None => return None,
            };
            highest_ref_id_plus_one = match field_u32(br) {
                Some(v) => Some(v),
                None => return None,
            };
        }
        let string_count = match field_u16(br) {
            Some(v) => v,
            None => return None,
        };
        let ghost p5 = br.current_position as int;
        let mut strings: Vec<SharedString> = Vec::new();
        let mut i: u16 = 0;
        while i < string_count
            invariant
                0 <= i <= string_count,
                br.bytes@ == b,
                spec_read_shared_strings(b, p5, i as nat) == Some(
                    (views_of(strings@), br.current_position as int),
                ),
            decreases string_count - i,
        {
            let s = match SharedString::read(br) {
                Some(s) => s,
                None => {
                    proof {
                        lemma_shared_strings_fail(b, p5, i as nat, string_count as nat);
                    }
                    return None;
                },
            };
            let ghost before = strings@;
            strings.push(s);
            proof {
                assert(views_of(strings@) =~= views_of(before).push(s@));
            }
            i = i + 1;
        }
        Some(
            Header {
                magic,
                unk04,
                version,
                unk08,
                transition_count,
                highest_ref_id_plus_one,
                string_count,
                strings,
            },
        )
    }
}

/// Once reading the first `i` strings succeeded and the next one fails,
/// reading `n > i` strings fails.
pub proof fn lemma_shared_strings_fail(b: Seq<u8>, p: int, i: nat, n: nat)
    requires
        i < n,
        spec_read_shared_strings(b, p, i) matches Some((_, q)) && spec_read_shared_string(
            b,
            q,
        ) is None,
    ensures
        spec_read_shared_strings(b, p, n) is None,
    decreases n,
{
    if n > i + 1 {
        lemma_shared_strings_fail(b, p, i, (n - 1) as nat);
    }
}


impl Buffer {
    /// Reads a buffer; `None` where the bytes do not hold one.
    pub fn read(br: &mut BinaryReader, important_data: &mut ImportantData) -> (r: Option<Buffer>)
        ensures
            final(br).bytes@ == old(br).bytes@,
            final(important_data)@ == old(important_data)@,
            match spec_read_buffer(
                old(br).bytes@,
                old(br).current_position as int,
                old(important_data)@,
            ) {
                Some((x, q)) => r matches Some(y) && y@ == x && final(br).current_position == q,
                None => r is None,
            },
    {
        let struct_type = match field_u16(br) {
            Some(v) => v,
            None => return None,
        };
        if !type_matches(important_data, struct_type, "buffer") && !type_matches(
            important_data,
            struct_type,
            "DLVector",
        ) {
            return None;
        }
        let length = match field_u32(br) {
            Some(v) => v,
            None => return None,
        };
        if (length as usize) > br.bytes.len() || br.current_position > br.bytes.len()
            - length as usize {
            return None;
        }
        let ghost p2 = br.current_position as int;
        let mut data: Vec<u8> = Vec::with_capacity(length as usize);
        let mut i: u32 = 0;
        while i < length
            invariant
                0 <= i <= length,
                br.bytes@ == old(br).bytes@,
                br.current_position == p2 + i,
                0 <= p2,
                p2 + length <= br.bytes@.len(),
                data@ == br.bytes@.subrange(p2, p2 + i),
            decreases length - i,
        {
            let v = br.read_uint8();
            proof {
                lemma_uint8_is_byte(br.bytes@, p2 + i);
                assert(br.bytes@.subrange(p2, p2 + i + 1) == br.bytes@.subrange(p2, p2 + i).push(
                    br.bytes@[p2 + i],
                ));
            }
            data.push(v);
            i = i + 1;
        }
        Some(Buffer { struct_type, length, data })
    }
}

/// The one-byte number at `p` is the byte there.
pub proof fn lemma_uint8_is_byte(b: Seq<u8>, p: int)
    requires
        0 <= p < b.len(),
    ensures
        crate::utils::binary_reader::uint_at(b, p, 1) == b[p],
{
    reveal_with_fuel(crate::utils::binary_reader::be_value, 2);
    let s = b.subrange(p, p + 1);
    assert(s.drop_last().len() == 0);
}

impl Evaluator {
    /// Reads an evaluator; `None` where the bytes do not hold one.
    pub fn read(br: &mut BinaryReader, important_data: &mut ImportantData) -> (r: Option<Evaluator>)
        ensures
            final(br).bytes@ == old(br).bytes@,
            final(important_data)@ == old(important_data)@,
            match spec_read_evaluator(
                old(br).bytes@,
                old(br).current_position as int,
                old(important_data)@,
            ) {
                Some((x, q)) => r matches Some(y) && y@ == x && final(br).current_position == q,
                None => r is None,
            },
    {
        let struct_type = match field_u16(br) {
            Some(v) => v,
            None => return None,
        };
        if !type_matches(important_data, struct_type, "EzStateEvaluator") {
            return None;
        }
        let version = match field_u32(br) {
            Some(v) => v,
            None => return None,
        };
        if version != 1 {
            return None;
        }
        let buffer = match Buffer::read(br, important_data) {
            Some(b) => b,
            None => return None,
        };
        Some(Evaluator { struct_type, version, buffer })
    }
}

pub proof fn lemma_evaluators_fail(b: Seq<u8>, p: int, i: nat, n: nat, d: crate::utils::important_data::SpecImportantData)
    requires
        i < n,
        spec_read_evaluators(b, p, i, d) matches Some((_, q)) && spec_read_evaluator(b, q, d) is None,
    ensures
        spec_read_evaluators(b, p, n, d) is None,
    decreases n,
{
    if n > i + 1 {
        lemma_evaluators_fail(b, p, i, (n - 1) as nat, d);
    }
}

pub proof fn lemma_buffers_fail(b: Seq<u8>, p: int, i: nat, n: nat, d: crate::utils::important_data::SpecImportantData)
    requires
        i < n,
        spec_read_buffers(b, p, i, d) matches Some((_, q)) && spec_read_buffer(b, q, d) is None,
    ensures
        spec_read_buffers(b, p, n, d) is None,
    decreases n,
{
    if n > i + 1 {
        lemma_buffers_fail(b, p, i, (n - 1) as nat, d);
    }
}

impl Event {
    /// Reads an event, whose type id names an event type and whose version
    /// is `1` or `2` where they can be read; `None` where the bytes do not
    /// hold one.
    #[verifier::loop_isolation(false)]
    pub fn read(br: &mut BinaryReader, important_data: &mut ImportantData) -> (r: Option<Event>)
        requires
            event_type_at(old(br).bytes@, old(br).current_position as int, old(important_data)@),
            version_at(old(br).bytes@, old(br).current_position as int, 1, 2),
        ensures
            final(br).bytes@ == old(br).bytes@,
            final(important_data)@ == old(important_data)@,
            match spec_read_event(
                old(br).bytes@,
                old(br).current_position as int,
                old(important_data)@,
            ) {
                Some((x, q)) => r matches Some(y) && y@ == x && final(br).current_position == q,
                None => r is None,
            },
    {
        let ghost b = br.bytes@;
        let ghost d = important_data@;
        let struct_type = match field_u16(br) {
            Some(v) => v,
            None => return None,
        };
        let version = match field_u32(br) {
            Some(v) => v,
            None => return None,
        };
        let event_id = match field_u32(br) {
            Some(v) => v,
            None => return None,
        };
        let arg_amount = match field_u32(br) {
            Some(v) => v,
            None => return None,
        };
        if arg_amount == 0 {
            return None;
        }
        let ghost p4 = br.current_position as int;
        let mut arg_evaluators = None;
        let mut arg_buffers = None;
        if version == 1 {
            let mut v: Vec<Evaluator> = Vec::new();
            let mut i: u32 = 0;
            while i < arg_amount - 1
                invariant
                    0 <= i <= arg_amount - 1,
                    br.bytes@ == b,
                    important_data@ == d,
                    spec_read_evaluators(b, p4, i as nat, d) == Some(
                        (views_of(v@), br.current_position as int),
                    ),
                decreases arg_amount - 1 - i,
            {
                let e = match Evaluator::read(br, important_data) {
                    Some(e) => e,
                    None => {
                        proof {
                            lemma_evaluators_fail(b, p4, i as nat, (arg_amount - 1) as nat, d);
                        }
                        return None;
                    },
                };
                let ghost before = v@;
                v.push(e);
                proof {
                    assert(views_of(v@) =~= views_of(before).push(e@));
                }
                i = i + 1;
            }
            arg_evaluators = Some(v);
        } else {
            let mut v: Vec<Buffer> = Vec::new();
            let mut i: u32 = 0;
            while i < arg_amount - 1
                invariant
                    0 <= i <= arg_amount - 1,
                    br.bytes@ == b,
                    important_data@ == d,
                    spec_read_buffers(b, p4, i as nat, d) == Some(
                        (views_of(v@), br.current_position as int),
                    ),
                decreases arg_amount - 1 - i,
            {
                let e = match Buffer::read(br, important_data) {
                    Some(e) => e,
                    None => {
                        proof {
                            lemma_buffers_fail(b, p4, i as nat, (arg_amount - 1) as nat, d);
                        }
                        return None;
                    },
                };
                let ghost before = v@;
                v.push(e);
                proof {
                    assert(views_of(v@) =~= views_of(before).push(e@));
                }
                i = i + 1;
            }
            arg_buffers = Some(v);
        }
        Some(Event { struct_type, version, event_id, arg_amount, arg_evaluators, arg_buffers })
    }
}

impl Condition {
    /// Reads a condition; `None` where the bytes do not hold one.
    pub fn read(br: &mut BinaryReader, important_data: &mut ImportantData) -> (r: Option<Condition>)
        ensures
            final(br).bytes@ == old(br).bytes@,
            final(important_data)@ == old(important_data)@,
            match spec_read_condition(
                old(br).bytes@,
                old(br).current_position as int,
                old(important_data)@,
            ) {
                Some((x, q)) => r matches Some(y) && y@ == x && final(br).current_position == q,
                None => r is None,
            },
    {
        let struct_type = match field_u16(br) {
            Some(v) => v,
            None => return None,
        };
        if !type_matches(important_data, struct_type, "EzState::detail::EzStateCondition") {
            return None;
        }
        let version = match field_u32(br) {
            Some(v) => v,
            None => return None,
        };
        if version != 1 {
            return None;
        }
        let evaluator = match Evaluator::read(br, important_data) {
            Some(e) => e,
            None => return None,
        };
        Some(Condition { struct_type, version, evaluator })
    }
}


/// Maps `k` to `v` in an association list: the first entry for `k` is
/// replaced, or a new entry is added.
pub fn assoc_insert_exec(l: &mut Vec<(u32, usize)>, k: u32, v: usize)
    ensures
        final(l)@ == assoc_insert(old(l)@, k, v),
{
    let mut i: usize = 0;
    while i < l.len()
        invariant
            0 <= i <= l@.len(),
            l@ == old(l)@,
            forall|j: int| 0 <= j < i ==> l@[j].0 != k,
        decreases l@.len() - i,
    {
        if l[i].0 == k {
            proof {
                let c = choose|c: int|
                    0 <= c < l@.len() && l@[c].0 == k && forall|j: int| 0 <= j < c ==> l@[j].0 != k;
                assert(0 <= i < l@.len() && l@[i as int].0 == k);
                if c < i {
                    assert(l@[c].0 != k);
                } else if c > i {
                    assert(l@[i as int].0 != k);
                }
            }
            l.set(i, (k, v));
            return;
        }
        i = i + 1;
    }
    l.push((k, v));
}

pub proof fn lemma_refs_fail(b: Seq<u8>, p: int, i: nat, n: nat, t: u16, d: SpecImportantData)
    requires
        i < n,
        spec_read_refs(b, p, i, t, d) matches Some((_, q, d1)) && p <= q <= b.len()
            && spec_read_reference(b, q, t, d1) is None,
    ensures
        spec_read_refs(b, p, n, t, d) is None,
    decreases n,
{
    if n > i + 1 {
        lemma_refs_fail(b, p, i, (n - 1) as nat, t, d);
    }
}

/// Reads the object of a reference whose type is named `name`; `None` where
/// the bytes do not hold one, also where the object's own type id or version
/// is not one its kind accepts.
pub fn read_value(br: &mut BinaryReader, name: &String, important_data: &mut ImportantData) -> (r: Option<RefValue>)
    ensures
        final(br).bytes@ == old(br).bytes@,
        match spec_read_value(
            old(br).bytes@,
            old(br).current_position as int,
            name@,
            old(important_data)@,
        ) {
            Some((x, q, d)) => r matches Some(y) && y@ == x && final(br).current_position == q
                && final(important_data)@ == d,
            None => r is None,
        },
        r is Some ==> old(br).current_position < final(br).current_position
            <= final(br).bytes@.len(),
    decreases old(br).bytes@.len() - old(br).current_position, 1nat,
{
    proof {
        lemma_value_progress(br.bytes@, br.current_position as int, name@, important_data@);
    }
        let value: RefValue;
        if string_eq(name, "EzStateMap") {
            if !peek_type(br, important_data, "EzStateMap") || !peek_version(br, 1, 2) {
                return None;
            }
            match EsdMap::read(br, important_data) {
                Some(m) => {
                    value = RefValue::EsdMap(m);
                },
                None => return None,
            }
        } else if string_eq(name, "EzStateMapState") {
            match State::read(br, important_data) {
                Some(s) => {
                    value = RefValue::State(s);
                },
                None => return None,
            }
        } else if string_eq(name, "EzStateExternalEvent") || string_eq(
            name,
            "EzStateExternalEventT<ES_EVENT_PARAM_NUM_6>",
        ) {
            if !peek_event_type(br, important_data) || !peek_version(br, 1, 2) {
                return None;
            }
            match Event::read(br, important_data) {
                Some(e) => {
                    value = RefValue::Event(e);
                },
                None => return None,
            }
        } else if string_eq(name, "EzStateTransition") {
            if !peek_type(br, important_data, "EzStateTransition") || !peek_version(br, 1, 3) {
                return None;
            }
            match Transition::read(br, important_data) {
                Some(t) => {
                    value = RefValue::Transition(t);
                },
                None => return None,
            }
        } else if string_eq(name, "EzState::detail::EzStateCondition") {
            match Condition::read(br, important_data) {
                Some(c) => {
                    value = RefValue::Condition(c);
                },
                None => return None,
            }
        } else {
            return None;
        }
        Some(value)
}

impl Reference {
    /// Reads a reference (its type first when `type_id` is `0`) and, the first
    /// time its id is met, the object it points to, which is then stored by id.
    /// `None` where the bytes do not hold one.
    #[verifier::rlimit(60)]
    pub fn read(br: &mut BinaryReader, type_id: u16, important_data: &mut ImportantData) -> (r:
        Option<Reference>)
        ensures
            final(br).bytes@ == old(br).bytes@,
            match spec_read_reference(
                old(br).bytes@,
                old(br).current_position as int,
                type_id,
                old(important_data)@,
            ) {
                Some((x, q, d)) => r matches Some(y) && y@ == x && final(br).current_position == q
                    && final(important_data)@ == d,
                None => r is None,
            },
            r is Some ==> old(br).current_position < final(br).current_position
                <= final(br).bytes@.len(),
        decreases old(br).bytes@.len() - old(br).current_position, 0nat,
    {
        let ghost b = br.bytes@;
        let ghost p = br.current_position as int;
        let ghost d0 = important_data@;
        proof {
            lemma_reference_progress(b, p, type_id, d0);
        }
        let ref_type = if type_id == 0 {
            match field_u16(br) {
                Some(v) => v,
                None => return None,
            }
        } else {
            type_id
        };
        let id = match field_u32(br) {
            Some(v) => v,
            None => return None,
        };
        if !important_data.should_read_data(id) {
            return Some(Reference { ref_type, id, value: None });
        }
        let ghost d1 = important_data@;
        let ghost p2 = br.current_position as int;
        if !(ref_type >= 1 && ((ref_type - 1) as usize) < important_data.type_table.len()) {
            return None;
        }
        let type_string = important_data.get_type_name(ref_type);
        let value = match read_value(br, &type_string, important_data) {
            Some(v) => v,
            None => return None,
        };
        let ghost d2 = important_data@;
        let map_val = Arc::new(value);
        let ret_val = share(&map_val);
        important_data.ref_id_ref_data_map.insert(id, map_val);
        proof {
            assert(important_data@.ref_data =~= d2.ref_data.insert(id, value@));
            assert(important_data@ == with_ref_data(d2, id, value@));
        }
        Some(Reference { ref_type, id, value: Some(ret_val) })
    }
}

/// Reads `n` references of type `t`, one after the other.
pub fn read_refs(br: &mut BinaryReader, n: u32, t: u16, important_data: &mut ImportantData) -> (r: Option<Vec<Reference>>)
    requires
        old(br).current_position <= old(br).bytes@.len(),
    ensures
        final(br).bytes@ == old(br).bytes@,
        match spec_read_refs(
            old(br).bytes@,
            old(br).current_position as int,
            n as nat,
            t,
            old(important_data)@,
        ) {
            Some((x, q, d)) => r matches Some(y) && ref_models(y@) == x && final(br).current_position == q
                && final(important_data)@ == d,
            None => r is None,
        },
        r is Some ==> old(br).current_position <= final(br).current_position
            <= final(br).bytes@.len(),
    decreases old(br).bytes@.len() - old(br).current_position, 1nat,
{
    let ghost b = br.bytes@;
    let ghost ps = br.current_position as int;
    let ghost d0 = important_data@;
    proof {
        lemma_refs_progress(b, ps, n as nat, t, d0);
    }
    let mut references: Vec<Reference> = Vec::new();
    let mut i: u32 = 0;
    while i < n
        invariant
            0 <= i <= n,
            br.bytes@ == b,
            0 <= ps <= b.len(),
            b == old(br).bytes@,
            ps == old(br).current_position,
            d0 == old(important_data)@,
            spec_read_refs(b, ps, i as nat, t, d0) == Some(
                (ref_models(references@), br.current_position as int, important_data@),
            ),
        decreases n - i,
    {
        proof {
            lemma_refs_progress(b, ps, i as nat, t, d0);
        }
        let x = match Reference::read(br, t, important_data) {
            Some(x) => x,
            None => {
                proof {
                    lemma_refs_fail(b, ps, i as nat, n as nat, t, d0);
                }
                return None;
            },
        };
        let ghost before = references@;
        references.push(x);
        proof {
            assert(ref_models(references@) =~= ref_models(before).push(x@));
        }
        i = i + 1;
    }
    Some(references)
}

impl DLVectorReference {
    /// Reads a reference vector, whose type id, where it can be read, names
    /// `DLVector`; `None` where the bytes do not hold one.
    #[verifier::rlimit(60)]
    #[verifier::loop_isolation(false)]
    pub fn read(br: &mut BinaryReader, important_data: &mut ImportantData) -> (r: Option<
        DLVectorReference,
    >)
        requires
            type_at(old(br).bytes@, old(br).current_position as int, old(important_data)@, name_dlvector()),
        ensures
            final(br).bytes@ == old(br).bytes@,
            match spec_read_dlvector(
                old(br).bytes@,
                old(br).current_position as int,
                old(important_data)@,
            ) {
                Some((x, q, d)) => r matches Some(y) && y@ == x && final(br).current_position == q
                    && final(important_data)@ == d,
                None => r is None,
            },
            r is Some ==> old(br).current_position < final(br).current_position
                <= final(br).bytes@.len(),
        decreases old(br).bytes@.len() - old(br).current_position, 0nat,
    {
        let ghost b = br.bytes@;
        let ghost p = br.current_position as int;
        let ghost d0 = important_data@;
        proof {
            lemma_dlvector_progress(b, p, d0);
        }
        let struct_type = match field_u16(br) {
            Some(v) => v,
            None => return None,
        };
        let ref_count = match field_u32(br) {
            Some(v) => v,
            None => return None,
        };
        let mut item_type: Option<u16> = None;
        if ref_count == 0 {
            let references: Vec<Reference> = Vec::new();
            let r = DLVectorReference { struct_type, ref_count, item_type, references };
            proof {
                assert(r@.references =~= Seq::<SpecReference>::empty());
            }
            return Some(r);
        }
        let mut t: u16 = 0;
        if important_data.header_version == 0 {
            t = match field_u16(br) {
                Some(v) => v,
                None => return None,
            };
            item_type = Some(t);
        }
        let references = match read_refs(br, ref_count, t, important_data) {
            Some(v) => v,
            None => return None,
        };
        let r = DLVectorReference { struct_type, ref_count, item_type, references };
        proof {
            assert(r@.references =~= ref_models(references@));
        }
        Some(r)
    }
}


/// Reads a reference vector; `None` where the bytes do not hold one, also
/// where the type id names another type.
pub fn read_vector(br: &mut BinaryReader, important_data: &mut ImportantData) -> (r: Option<DLVectorReference>)
    ensures
        final(br).bytes@ == old(br).bytes@,
        match spec_read_dlvector(old(br).bytes@, old(br).current_position as int, old(important_data)@) {
            Some((x, q, d)) => r matches Some(y) && y@ == x && final(br).current_position == q
                && final(important_data)@ == d,
            None => r is None,
        },
        r is Some ==> old(br).current_position < final(br).current_position <= final(br).bytes@.len(),
    decreases old(br).bytes@.len() - old(br).current_position, 1nat,
{
    if !peek_type(br, important_data, "DLVector") {
        return None;
    }
    DLVectorReference::read(br, important_data)
}

/// Reads the common head of maps and states: the type, a version that is `v1`
/// or `v2`, and an index.
pub fn read_head(br: &mut BinaryReader, important_data: &ImportantData, name: &str, v1: u32, v2: u32) -> (r: Option<(u16, u32, u32)>)
    ensures
        final(br).bytes@ == old(br).bytes@,
        match spec_read_head(old(br).bytes@, old(br).current_position as int, important_data@, name@, v1, v2) {
            Some((st, version, index, q)) => r == Some((st, version, index)) && final(br).current_position == q,
            None => r is None,
        },
{
    let struct_type = match field_u16(br) {
        Some(v) => v,
        None => return None,
    };
    if !type_matches(important_data, struct_type, name) {
        return None;
    }
    let version = match field_u32(br) {
        Some(v) => v,
        None => return None,
    };
    if version != v1 && version != v2 {
        return None;
    }
    let index = match field_u32(br) {
        Some(v) => v,
        None => return None,
    };
    Some((struct_type, version, index))
}

impl EsdMap {
    /// Reads a map, whose type id names `EzStateMap` and whose version is `1`
    /// or `2` where they can be read; `None` where the bytes do not hold one.
    /// For version `2`
    /// the ids of its transitions are mapped to their positions.
    #[verifier::rlimit(60)]
    #[verifier::loop_isolation(false)]
    pub fn read(br: &mut BinaryReader, important_data: &mut ImportantData) -> (r: Option<EsdMap>)
        requires
            type_at(old(br).bytes@, old(br).current_position as int, old(important_data)@, name_map()),
            version_at(old(br).bytes@, old(br).current_position as int, 1, 2),
        ensures
            final(br).bytes@ == old(br).bytes@,
            match spec_read_map(
                old(br).bytes@,
                old(br).current_position as int,
                old(important_data)@,
            ) {
                Some((x, q, d)) => r matches Some(y) && y@ == x && final(br).current_position == q
                    && final(important_data)@ == d,
                None => r is None,
            },
            r is Some ==> old(br).current_position < final(br).current_position
                <= final(br).bytes@.len(),
        decreases old(br).bytes@.len() - old(br).current_position, 0nat,
    {
        let ghost b = br.bytes@;
        let ghost p = br.current_position as int;
        let ghost d0 = important_data@;
        proof {
            lemma_map_progress(b, p, d0);
        }
        let (struct_type, version, map_index) = match read_head(br, important_data, "EzStateMap", 1, 2) {
            Some(h) => h,
            None => return None,
        };
        let initial_state = match Reference::read(br, 0, important_data) {
            Some(x) => x,
            None => return None,
        };
        let states = match read_vector(br, important_data) {
            Some(x) => x,
            None => return None,
        };
        let mut transitions = None;
        if version == 2 {
            let tv = match read_vector(br, important_data) {
                Some(x) => x,
                None => return None,
            };
            let ghost d2 = important_data@;
            let mut i: usize = 0;
            while i < tv.references.len()
                invariant
                    0 <= i <= tv.references@.len(),
                    tv@.references.len() == tv.references@.len(),
                    important_data@ == (SpecImportantData {
                        trans_id_idx: insert_trans_indices(d2.trans_id_idx, tv@.references, i as nat),
                        ..d2
                    }),
                decreases tv.references@.len() - i,
            {
                proof {
                    assert(tv@.references[i as int].id == tv.references@[i as int].id);
                }
                assoc_insert_exec(&mut important_data.trans_id_idx_dict, tv.references[i].id, i);
                i = i + 1;
            }
            transitions = Some(tv);
        }
        Some(EsdMap { struct_type, version, map_index, initial_state, states, transitions })
    }
}

impl State {
    /// Reads a state; `None` where the bytes do not hold one.
    pub fn read(br: &mut BinaryReader, important_data: &mut ImportantData) -> (r: Option<State>)
        ensures
            final(br).bytes@ == old(br).bytes@,
            match spec_read_state(
                old(br).bytes@,
                old(br).current_position as int,
                old(important_data)@,
            ) {
                Some((x, q, d)) => r matches Some(y) && y@ == x && final(br).current_position == q
                    && final(important_data)@ == d,
                None => r is None,
            },
            r is Some ==> old(br).current_position < final(br).current_position
                <= final(br).bytes@.len(),
        decreases old(br).bytes@.len() - old(br).current_position, 0nat,
    {
        let ghost b = br.bytes@;
        let ghost p = br.current_position as int;
        let ghost d0 = important_data@;
        proof {
            lemma_state_progress(b, p, d0);
        }
        let (struct_type, version, state_index) = match read_head(br, important_data, "EzStateMapState", 1, 2) {
            Some(h) => h,
            None => return None,
        };
        let transitions = match read_vector(br, important_data) {
            Some(x) => x,
            None => return None,
        };
        let entry_events = match read_vector(br, important_data) {
            Some(x) => x,
            None => return None,
        };
        let exit_events = match read_vector(br, important_data) {
            Some(x) => x,
            None => return None,
        };
        Some(State { struct_type, version, state_index, transitions, entry_events, exit_events })
    }
}

impl Transition {
    /// Reads a transition, whose type id names `EzStateTransition` and whose
    /// version is `1` or `3` where they can be read; `None` where the bytes
    /// do not hold one.
    pub fn read(br: &mut BinaryReader, important_data: &mut ImportantData) -> (r: Option<Transition>)
        requires
            type_at(old(br).bytes@, old(br).current_position as int, old(important_data)@, name_transition()),
            version_at(old(br).bytes@, old(br).current_position as int, 1, 3),
        ensures
            final(br).bytes@ == old(br).bytes@,
            match spec_read_transition(
                old(br).bytes@,
                old(br).current_position as int,
                old(important_data)@,
            ) {
                Some((x, q, d)) => r matches Some(y) && y@ == x && final(br).current_position == q
                    && final(important_data)@ == d,
                None => r is None,
            },
            r is Some ==> old(br).current_position < final(br).current_position
                <= final(br).bytes@.len(),
        decreases old(br).bytes@.len() - old(br).current_position, 0nat,
    {
        let ghost b = br.bytes@;
        let ghost p = br.current_position as int;
        let ghost d0 = important_data@;
        proof {
            lemma_transition_progress(b, p, d0);
        }
        let struct_type = match field_u16(br) {
            Some(v) => v,
            None => return None,
        };
        let version = match field_u32(br) {
            Some(v) => v,
            None => return None,
        };
        let mut cond_ref = None;
        let mut target_state = None;
        let mut cond_buffer = None;
        if version == 1 {
            cond_ref = match Reference::read(br, 0, important_data) {
                Some(x) => Some(x),
                None => return None,
            };
            target_state = match Reference::read(br, 0, important_data) {
                Some(x) => Some(x),
                None => return None,
            };
        } else {
            cond_buffer = match Buffer::read(br, important_data) {
                Some(x) => Some(x),
                None => return None,
            };
        }
        let pass_events = match read_vector(br, important_data) {
            Some(x) => x,
            None => return None,
        };
        Some(Transition { struct_type, version, cond_ref, target_state, cond_buffer, pass_events })
    }
}

impl Project {
    /// Reads the project; `None` where the bytes do not hold one.
    pub fn read(br: &mut BinaryReader, important_data: &mut ImportantData) -> (r: Option<Project>)
        ensures
            final(br).bytes@ == old(br).bytes@,
            match spec_read_project(
                old(br).bytes@,
                old(br).current_position as int,
                old(important_data)@,
            ) {
                Some((x, q, d)) => r matches Some(y) && y@ == x && final(br).current_position == q
                    && final(important_data)@ == d,
                None => r is None,
            },
    {
        let struct_type = match field_u16(br) {
            Some(v) => v,
            None => return None,
        };
        if !type_matches(important_data, struct_type, "EzStateProject") {
            return None;
        }
        let version = match field_u32(br) {
            Some(v) => v,
            None => return None,
        };
        if version != 2 {
            return None;
        }
        let maps = match read_vector(br, important_data) {
            Some(x) => x,
            None => return None,
        };
        Some(Project { struct_type, version, maps })
    }
}

} // verus!
