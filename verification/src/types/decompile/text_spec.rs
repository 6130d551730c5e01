//! The lines that decompiling writes for each object.
use vstd::prelude::*;
use crate::types::compile::write_spec::is_object_name;
use crate::types::decompile::condition_spec::{condition_line, le_u32};
use crate::types::decompile::read_spec::{
    name_condition, name_event, name_event6, name_map, name_state, name_transition,
};
use crate::types::structs::{
    SpecDLVector, SpecEvent, SpecMap, SpecProject, SpecRefValue, SpecReference, SpecState,
    SpecTransition,
};
use crate::utils::defs::defs_lookup;
use crate::utils::important_data::{SpecImportantData, spec_type_name};
use crate::utils::text::{dec_int, dec_nat};

verus! {

/// The characters that UTF-16 code units encode; `None` on an unpaired
/// surrogate.
pub open spec fn utf16_decode(u: Seq<u16>) -> Option<Seq<char>>
    decreases u.len(),
{
    if u.len() == 0 {
        Some(seq![])
    } else if u[0] < 0xD800 || u[0] > 0xDFFF {
        match utf16_decode(u.drop_first()) {
            Some(rest) => Some(seq![u[0] as char] + rest),
            None => None,
        }
    } else if u[0] <= 0xDBFF && u.len() >= 2 && 0xDC00 <= u[1] <= 0xDFFF {
        let c = 0x10000 + (u[0] - 0xD800) * 0x400 + (u[1] - 0xDC00);
        match utf16_decode(u.subrange(2, u.len() as int)) {
            Some(rest) => Some(seq![c as char] + rest),
            None => None,
        }
    } else {
        None
    }
}

/// The little-endian 16-bit units of a byte sequence; a last odd byte is
/// left out.
pub open spec fn le_u16_units(b: Seq<u8>) -> Seq<u16> {
    Seq::new(b.len() / 2, |i: int| (b[2 * i] + 256 * b[2 * i + 1]) as u16)
}

/// The signed value of four little-endian bytes.
pub open spec fn le_i32(b: Seq<u8>) -> int {
    let u = le_u32(b);
    if u >= 0x8000_0000 {
        u - 0x1_0000_0000
    } else {
        u as int
    }
}

/// The text of one event argument (its buffer without the final byte): a
/// small integer, a quoted string (UTF-16, without its last character) or a
/// 32-bit integer; nothing for other kinds. `None` where the argument is
/// malformed: empty, a 32-bit integer of the wrong length, a string that is
/// not valid UTF-16, empty, or whose last character is not ASCII.
pub open spec fn event_arg_text(arg: Seq<u8>) -> Option<Seq<char>> {
    if arg.len() == 0 {
        None
    } else {
        let a = arg.drop_last();
        if a.len() == 0 {
            None
        } else if a[0] <= 0x7F && a.len() == 1 {
            Some(dec_int(a[0] - 64))
        } else if a[0] == 0xA5 {
            match utf16_decode(le_u16_units(a.drop_first())) {
                Some(s) => if s.len() == 0 || (s.last() as u32) >= 0x80 {
                    None
                } else {
                    Some(seq!['"'] + s.drop_last() + seq!['"'])
                },
                None => None,
            }
        } else if a[0] == 0x82 {
            if a.len() != 5 {
                None
            } else {
                Some(dec_int(le_i32(a.drop_first())))
            }
        } else {
            Some(seq![])
        }
    }
}

/// The texts of the first `n` arguments, each followed by `, ` unless its
/// position is the argument count minus two.
pub open spec fn event_args_text(args: Seq<Seq<u8>>, n: nat, arg_amount: u32) -> Option<Seq<char>>
    decreases n,
{
    if n == 0 {
        Some(seq![])
    } else {
        match event_args_text(args, (n - 1) as nat, arg_amount) {
            Some(prev) => match event_arg_text(args[n - 1]) {
                Some(t) => if arg_amount < 2 {
                    None
                } else if n - 1 != arg_amount - 2 {
                    Some(prev + t + seq![',', ' '])
                } else {
                    Some(prev + t)
                },
                None => None,
            },
            None => None,
        }
    }
}

/// The argument buffers of an event: its buffers, or else its evaluators'.
pub open spec fn event_args(e: SpecEvent) -> Option<Seq<Seq<u8>>> {
    match e.arg_buffers {
        Some(bu) => Some(bu.map_values(|b: crate::types::structs::SpecBuffer| b.data)),
        None => match e.arg_evaluators {
            Some(ev) => Some(
                ev.map_values(|x: crate::types::structs::SpecEvaluator| x.buffer.data),
            ),
            None => None,
        },
    }
}

/// The line of an event: its name from the event definitions and its
/// arguments in parentheses.
pub open spec fn event_line(e: SpecEvent, d: SpecImportantData) -> Option<Seq<char>> {
    match event_args(e) {
        Some(args) => match defs_lookup(d.event_defs, dec_nat(e.event_id as nat)) {
            Some(name) => match event_args_text(args, args.len(), e.arg_amount) {
                Some(body) => Some("        "@ + name + seq!['('] + body + seq![')']),
                None => None,
            },
            None => None,
        },
        None => None,
    }
}

/// Two runs of lines one after the other.
pub open spec fn cat(a: Option<Seq<Seq<char>>>, b: Option<Seq<Seq<char>>>) -> Option<Seq<Seq<char>>> {
    match (a, b) {
        (Some(x), Some(y)) => Some(x + y),
        _ => None,
    }
}

/// One line, when there is one.
pub open spec fn one(l: Option<Seq<char>>) -> Option<Seq<Seq<char>>> {
    match l {
        Some(x) => Some(seq![x]),
        None => None,
    }
}

/// Whether an object is of the kind that the type name names.
pub open spec fn value_matches(v: SpecRefValue, name: Seq<char>) -> bool {
    match v {
        SpecRefValue::EsdMap(_) => name == name_map(),
        SpecRefValue::State(_) => name == name_state(),
        SpecRefValue::Event(_) => name == name_event() || name == name_event6(),
        SpecRefValue::Transition(_) => name == name_transition(),
        SpecRefValue::Condition(_) => name == name_condition(),
    }
}

/// How many stored objects may still be entered through their ids.
pub open spec fn dc_measure(d: SpecImportantData, visited: Set<u32>) -> nat {
    d.ref_data.dom().difference(visited).len()
}

/// Entering one more stored object leaves fewer to enter.
pub proof fn lemma_measure_decreases(d: SpecImportantData, visited: Set<u32>, id: u32)
    requires
        d.ref_data.dom().finite(),
        d.ref_data.dom().contains(id),
        !visited.contains(id),
    ensures
        dc_measure(d, visited.insert(id)) < dc_measure(d, visited),
{
    let dom = d.ref_data.dom();
    let a = dom.difference(visited);
    assert(dom.difference(visited.insert(id)) =~= a.remove(id));
    vstd::set_lib::lemma_len_subset(a, dom);
    assert(a.contains(id));
}

/// The lines of a reference: its object, when it is of the kind that its
/// type names (held by the reference or else stored under its id). `None` on
/// an unknown type, a type that no object has, an id with no stored object,
/// an object that is entered again while it is being decompiled, or a failure
/// below.
pub open spec fn dc_reference(r: SpecReference, d: SpecImportantData, visited: Set<u32>) -> Option<Seq<Seq<char>>>
    decreases dc_measure(d, visited), r, 1nat,
{
    if !d.ref_data.dom().finite() {
        None
    } else {
        match spec_type_name(d.type_table, r.ref_type) {
            Some(name) => if !is_object_name(name) {
                None
            } else {
                match r.value {
                    Some(bv) => {
                        proof {
                            assert(decreases_to!(r => r.value));
                        }
                        dc_value(*bv, name, r.id, d, visited)
                    },
                    None => if !d.ref_data.contains_key(r.id) {
                        None
                    } else if !value_matches(d.ref_data[r.id], name) {
                        Some(seq![])
                    } else if visited.contains(r.id) {
                        None
                    } else {
                        proof {
                            lemma_measure_decreases(d, visited, r.id);
                        }
                        dc_value(d.ref_data[r.id], name, r.id, d, visited.insert(r.id))
                    },
                }
            },
            None => None,
        }
    }
}

/// The lines of an object of a reference with id `id` and type name `name`.
pub open spec fn dc_value(v: SpecRefValue, name: Seq<char>, id: u32, d: SpecImportantData, visited: Set<u32>) -> Option<Seq<Seq<char>>>
    decreases dc_measure(d, visited), v, 1nat,
{
    if !value_matches(v, name) {
        Some(seq![])
    } else {
        match v {
            SpecRefValue::EsdMap(m) => dc_map(m, d, visited),
            SpecRefValue::State(s) => dc_state(s, d, visited),
            SpecRefValue::Event(e) => one(event_line(e, d)),
            SpecRefValue::Transition(t) => dc_transition(t, id, d, visited),
            SpecRefValue::Condition(c) => one(condition_line(c.evaluator.buffer.data, d.func_defs)),
        }
    }
}

/// The lines of the first `n` references.
pub open spec fn dc_refs(refs: Seq<SpecReference>, n: nat, d: SpecImportantData, visited: Set<u32>) -> Option<Seq<Seq<char>>>
    decreases dc_measure(d, visited), refs, n,
{
    if n == 0 || n > refs.len() {
        Some(seq![])
    } else {
        cat(dc_refs(refs, (n - 1) as nat, d, visited), dc_reference(refs[n - 1], d, visited))
    }
}

/// The lines of the references of a vector, one after the other.
pub open spec fn dc_vec(v: SpecDLVector, d: SpecImportantData, visited: Set<u32>) -> Option<Seq<Seq<char>>>
    decreases dc_measure(d, visited), v, 1nat,
{
    dc_refs(v.references, v.references.len(), d, visited)
}

/// The lines of a map: `def Map_<index>():`, then its states.
pub open spec fn dc_map(m: SpecMap, d: SpecImportantData, visited: Set<u32>) -> Option<Seq<Seq<char>>>
    decreases dc_measure(d, visited), m, 1nat,
{
    cat(Some(seq!["def Map_"@ + dec_nat(m.map_index as nat) + "():"@]), dc_vec(m.states, d, visited))
}

/// A header line followed by the lines of a vector, when the vector's count
/// is not zero.
pub open spec fn section(title: Seq<char>, v: SpecDLVector, d: SpecImportantData, visited: Set<u32>) -> Option<Seq<Seq<char>>>
    decreases dc_measure(d, visited), v, 2nat,
{
    if v.ref_count != 0 {
        cat(Some(seq![title]), dc_vec(v, d, visited))
    } else {
        Some(seq![])
    }
}

/// The lines of a state: `def State_<index>():`, then its entry events,
/// exit events and transitions, each section under its title when it is not
/// empty.
pub open spec fn dc_state(s: SpecState, d: SpecImportantData, visited: Set<u32>) -> Option<Seq<Seq<char>>>
    decreases dc_measure(d, visited), s, 1nat,
{
    cat(
        cat(
            cat(
                Some(seq!["    def State_"@ + dec_nat(s.state_index as nat) + "():"@]),
                section("        #EntryEvents:"@, s.entry_events, d, visited),
            ),
            section("        #ExitEvents:"@, s.exit_events, d, visited),
        ),
        section("        #Transitions:"@, s.transitions, d, visited),
    )
}

/// The index of a transition's target state: that of the state its target
/// reference stores, or else the one recorded for the transition's id.
pub open spec fn target_index(t: SpecTransition, tid: u32, d: SpecImportantData) -> Option<u32> {
    match t.target_state {
        Some(ts) => if !d.ref_data.contains_key(ts.id) {
            None
        } else {
            match d.ref_data[ts.id] {
                SpecRefValue::State(s) => Some(s.state_index),
                _ => None,
            }
        },
        None => if d.trans_id_state_idx.contains_key(tid) {
            Some(d.trans_id_state_idx[tid])
        } else {
            None
        },
    }
}

/// The lines of a transition with reference id `tid`: its condition (from
/// its buffer or its condition reference), the call of the target state and,
/// when there are any, its pass events.
pub open spec fn dc_transition(t: SpecTransition, tid: u32, d: SpecImportantData, visited: Set<u32>) -> Option<Seq<Seq<char>>>
    decreases dc_measure(d, visited), t, 1nat,
{
    match target_index(t, tid, d) {
        Some(idx) => {
            let cond: Option<Seq<Seq<char>>> = match t.cond_buffer {
                Some(b) => one(condition_line(b.data, d.func_defs)),
                None => match t.cond_ref {
                    Some(c) => dc_reference(c, d, visited),
                    None => None,
                },
            };
            cat(
                cat(cond, Some(seq!["            State_"@ + dec_nat(idx as nat) + "()"@])),
                section("        #PassEvents:"@, t.pass_events, d, visited),
            )
        },
        None => None,
    }
}

/// The lines of the project: those of its maps.
pub open spec fn dc_project(p: SpecProject, d: SpecImportantData) -> Option<Seq<Seq<char>>> {
    dc_vec(p.maps, d, Set::empty())
}

} // verus!
