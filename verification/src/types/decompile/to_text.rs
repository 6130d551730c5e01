//! Decompiling the objects into the lines of a Python-like text.
use std::sync::Arc;
use vstd::prelude::*;
use crate::types::compile::write_tree::object_name;
use crate::types::decompile::condition_spec::condition_line;
use crate::types::decompile::text_spec::{
    cat, dc_map, dc_measure, dc_project, dc_reference, dc_refs, dc_state, dc_transition, dc_value,
    dc_vec, event_arg_text, event_args, event_args_text, event_line, le_i32, le_u16_units,
    lemma_measure_decreases, one, section, target_index, utf16_decode, value_matches,
};
use crate::types::decompile::condition_text::opt_view;
use crate::types::structs::{
    Buffer, Condition, DLVectorReference, EsdMap, Event, Project, RefValue, Reference, State,
    Transition, SpecBuffer, SpecEvaluator, views_of,
};
use crate::utils::important_data::{ImportantData, lemma_ref_data_finite, spec_type_name, vec_contains};
use crate::utils::text::{
    chars_of, dec_int, dec_nat, i64_to_string, push_char, push_str, string_eq, u64_to_string,
};
use crate::utils::text_writer::{TextWriter, string_views};

verus! {

/// `String::from_utf16`: the characters that UTF-16 code units encode;
/// `None` on an unpaired surrogate.
#[verifier::external_body]
fn string_from_utf16(units: &[u16]) -> (r: Option<String>)
    ensures
        opt_view(r) == utf16_decode(units@),
{
    String::from_utf16(units).ok()
}

/// The text of one event argument buffer.
fn event_arg_string(arg: &Vec<u8>) -> (r: Option<String>)
    ensures
        opt_view(r) == event_arg_text(arg@),
{
    let n = arg.len();
    if n == 0 {
        return None;
    }
    let ghost a = arg@.drop_last();
    let len = n - 1;
    if len == 0 {
        return None;
    }
    let first = arg[0];
    if first <= 0x7F && len == 1 {
        return Some(i64_to_string(first as i64 - 64));
    } else if first == 0xA5 {
        let mut units: Vec<u16> = Vec::new();
        let mut i: usize = 1;
        let ghost rest = a.drop_first();
        while len - i >= 2
            invariant
                1 <= i <= len,
                len == n - 1,
                n == arg@.len(),
                a == arg@.drop_last(),
                rest == a.drop_first(),
                i == 1 + 2 * units@.len(),
                forall|j: int| 0 <= j < units@.len() ==> units@[j] == le_u16_units(rest)[j],
            decreases len - i,
        {
            let u: u16 = arg[i] as u16 + 256 * arg[i + 1] as u16;
            units.push(u);
            i = i + 2;
        }
        proof {
            assert(units@ =~= le_u16_units(rest));
        }
        let s = match string_from_utf16(units.as_slice()) {
            Some(s) => s,
            None => return None,
        };
        let cs = chars_of(s.as_str());
        if cs.len() == 0 || (cs[cs.len() - 1] as u32) >= 0x80 {
            return None;
        }
        let mut out = String::new();
        push_char(&mut out, '"');
        let mut j: usize = 0;
        while j < cs.len() - 1
            invariant
                0 <= j <= cs@.len() - 1,
                cs@.len() >= 1,
                out@ == seq!['"'] + cs@.take(j as int),
            decreases cs@.len() - 1 - j,
        {
            push_char(&mut out, cs[j]);
            proof {
                assert(cs@.take(j + 1) =~= cs@.take(j as int).push(cs@[j as int]));
            }
            j = j + 1;
        }
        push_char(&mut out, '"');
        proof {
            assert(cs@.take(cs@.len() - 1) =~= s@.drop_last());
            assert(out@ =~= seq!['"'] + s@.drop_last() + seq!['"']);
        }
        return Some(out);
    } else if first == 0x82 {
        if len != 5 {
            return None;
        }
        let u: u64 = arg[1] as u64 + 256 * arg[2] as u64 + 65536 * arg[3] as u64 + 16777216
            * arg[4] as u64;
        let v: i64 = if u >= 0x8000_0000 {
            u as i64 - 0x1_0000_0000
        } else {
            u as i64
        };
        proof {
            assert(a.drop_first() =~= arg@.subrange(1, 5));
            assert(v == le_i32(a.drop_first()));
        }
        return Some(i64_to_string(v));
    }
    Some(String::new())
}

/// The argument buffers of an event, as references.
fn arg_datas(e: &Event) -> (r: Option<Vec<&Vec<u8>>>)
    ensures
        match r {
            Some(v) => event_args(e@) == Some(v@.map_values(|x: &Vec<u8>| x@)),
            None => event_args(e@) is None,
        },
{
    let mut out: Vec<&Vec<u8>> = Vec::new();
    match &e.arg_buffers {
        Some(bu) => {
            let mut i: usize = 0;
            while i < bu.len()
                invariant
                    0 <= i <= bu@.len(),
                    out@.len() == i,
                    forall|j: int| 0 <= j < i ==> out@[j]@ == bu@[j].data@,
                decreases bu@.len() - i,
            {
                out.push(&bu[i].data);
                i = i + 1;
            }
            proof {
                assert(out@.map_values(|x: &Vec<u8>| x@) =~= views_of(bu@).map_values(
                    |b: SpecBuffer| b.data,
                ));
            }
            Some(out)
        },
        None => match &e.arg_evaluators {
            Some(ev) => {
                let mut i: usize = 0;
                while i < ev.len()
                    invariant
                        0 <= i <= ev@.len(),
                        out@.len() == i,
                        forall|j: int| 0 <= j < i ==> out@[j]@ == ev@[j].buffer.data@,
                    decreases ev@.len() - i,
                {
                    out.push(&ev[i].buffer.data);
                    i = i + 1;
                }
                proof {
                    assert(out@.map_values(|x: &Vec<u8>| x@) =~= views_of(ev@).map_values(
                        |x: SpecEvaluator| x.buffer.data,
                    ));
                }
                Some(out)
            },
            None => None,
        },
    }
}

impl Event {
    /// Writes the line of the event: its name from the event definitions and
    /// its arguments in parentheses.
    #[verifier::loop_isolation(false)]
    pub fn decompile(&self, tw: &mut TextWriter, important_data: &ImportantData) -> (r: Option<()>)
        ensures
            final(tw).path == old(tw).path,
            match event_line(self@, important_data@) {
                Some(line) => r is Some && string_views(final(tw).lines@) == string_views(
                    old(tw).lines@,
                ).push(line),
                None => r is None,
            },
    {
        let args = match arg_datas(self) {
            Some(a) => a,
            None => return None,
        };
        let ghost av = args@.map_values(|x: &Vec<u8>| x@);
        let id_text = u64_to_string(self.event_id as u64);
        let name = match important_data.event_defs.get(id_text.as_str()) {
            Some(n) => n,
            None => return None,
        };
        let mut body = String::new();
        let mut i: usize = 0;
        proof {
            assert(body@ =~= event_args_text(av, 0, self.arg_amount).unwrap());
        }
        while i < args.len()
            invariant
                0 <= i <= args@.len(),
                av == args@.map_values(|x: &Vec<u8>| x@),
                event_args_text(av, i as nat, self.arg_amount) == Some(body@),
            decreases args@.len() - i,
        {
            let t = match event_arg_string(args[i]) {
                Some(t) => t,
                None => {
                    proof {
                        lemma_args_none(av, (i + 1) as nat, av.len(), self.arg_amount);
                    }
                    return None;
                },
            };
            if self.arg_amount < 2 {
                proof {
                    lemma_args_none(av, (i + 1) as nat, av.len(), self.arg_amount);
                }
                return None;
            }
            let ghost before = body@;
            push_str(&mut body, t.as_str());
            if i != self.arg_amount as usize - 2 {
                push_char(&mut body, ',');
                push_char(&mut body, ' ');
            }
            proof {
                assert(body@ =~= event_args_text(av, (i + 1) as nat, self.arg_amount).unwrap());
            }
            i = i + 1;
        }
        let mut event_string = String::new();
        push_str(&mut event_string, "        ");
        push_str(&mut event_string, name.as_str());
        push_char(&mut event_string, '(');
        push_str(&mut event_string, body.as_str());
        push_char(&mut event_string, ')');
        proof {
            assert(event_string@ =~= "        "@ + name@ + seq!['('] + body@ + seq![')']);
        }
        tw.write_line(event_string);
        Some(())
    }
}

/// Once an argument fails, the argument list fails.
proof fn lemma_args_none(args: Seq<Seq<u8>>, i: nat, n: nat, arg_amount: u32)
    requires
        0 < i <= n,
        event_args_text(args, (i - 1) as nat, arg_amount) is Some,
        event_arg_text(args[i - 1]) is None || arg_amount < 2,
    ensures
        event_args_text(args, n, arg_amount) is None,
    decreases n,
{
    if n > i {
        lemma_args_none(args, i, (n - 1) as nat, arg_amount);
    }
}

/// Whether an object is of the kind that the type name names.
fn value_matches_name(v: &RefValue, name: &String) -> (r: bool)
    ensures
        r == value_matches(v@, name@),
{
    match v {
        RefValue::EsdMap(_) => string_eq(name, "EzStateMap"),
        RefValue::State(_) => string_eq(name, "EzStateMapState"),
        RefValue::Event(_) => string_eq(name, "EzStateExternalEvent") || string_eq(
            name,
            "EzStateExternalEventT<ES_EVENT_PARAM_NUM_6>",
        ),
        RefValue::Transition(_) => string_eq(name, "EzStateTransition"),
        RefValue::Condition(_) => string_eq(name, "EzState::detail::EzStateCondition"),
    }
}

/// Writes the line `prefix`, the decimal `n` and `suffix`.
fn write_numbered(tw: &mut TextWriter, prefix: &str, n: u32, suffix: &str)
    ensures
        final(tw).path == old(tw).path,
        string_views(final(tw).lines@) == string_views(old(tw).lines@) + seq![
            prefix@ + dec_nat(n as nat) + suffix@,
        ],
{
    let mut line = String::new();
    push_str(&mut line, prefix);
    let num = u64_to_string(n as u64);
    push_str(&mut line, num.as_str());
    push_str(&mut line, suffix);
    proof {
        assert(line@ =~= prefix@ + dec_nat(n as nat) + suffix@);
    }
    tw.write_line(line);
    proof {
        assert(string_views(tw.lines@) =~= string_views(old(tw).lines@) + seq![line@]);
    }
}

/// Writes one fixed line.
fn write_text(tw: &mut TextWriter, text: &str)
    ensures
        final(tw).path == old(tw).path,
        string_views(final(tw).lines@) == string_views(old(tw).lines@) + seq![text@],
{
    let mut line = String::new();
    push_str(&mut line, text);
    tw.write_line(line);
    proof {
        assert(string_views(tw.lines@) =~= string_views(old(tw).lines@) + seq![text@]);
    }
}

/// Once the lines of the first `i` references fail, those of more fail too.
proof fn lemma_dc_refs_none(refs: Seq<crate::types::structs::SpecReference>, i: nat, n: nat, d: crate::utils::important_data::SpecImportantData, visited: Set<u32>)
    requires
        i <= n <= refs.len(),
        dc_refs(refs, i, d, visited) is None,
    ensures
        dc_refs(refs, n, d, visited) is None,
    decreases n,
{
    if n > i {
        lemma_dc_refs_none(refs, i, (n - 1) as nat, d, visited);
    }
}

/// Writes the lines of an object of a reference with id `id` and type name
/// `name`.
fn decompile_value(v: &RefValue, name: &String, id: u32, tw: &mut TextWriter, important_data: &ImportantData, visited: &mut Vec<u32>) -> (r: Option<()>)
    ensures
        final(visited)@ == old(visited)@,
        final(tw).path == old(tw).path,
        match dc_value(v@, name@, id, important_data@, old(visited)@.to_set()) {
            Some(lines) => r is Some && string_views(final(tw).lines@) == string_views(old(tw).lines@) + lines,
            None => r is None,
        },
    decreases dc_measure(important_data@, old(visited)@.to_set()), v, 1nat,
{
    if !value_matches_name(v, name) {
        proof {
            assert(string_views(tw.lines@) =~= string_views(old(tw).lines@) + seq![]);
        }
        return Some(());
    }
    match v {
        RefValue::EsdMap(m) => m.decompile_in(tw, important_data, visited),
        RefValue::State(s) => s.decompile_in(tw, important_data, visited),
        RefValue::Event(e) => {
            let r = e.decompile(tw, important_data);
            proof {
                if r is Some {
                    assert(string_views(tw.lines@) =~= string_views(old(tw).lines@) + seq![
                        event_line(e@, important_data@).unwrap(),
                    ]);
                }
            }
            r
        },
        RefValue::Transition(t) => t.decompile_in(tw, important_data, id, visited),
        RefValue::Condition(c) => {
            let r = c.decompile(tw, important_data);
            proof {
                if r is Some {
                    assert(string_views(tw.lines@) =~= string_views(old(tw).lines@) + seq![
                        condition_line(c@.evaluator.buffer.data, important_data@.func_defs).unwrap(),
                    ]);
                }
            }
            r
        },
    }
}

impl Reference {
    /// Writes the lines of the reference's object, when it is of the kind
    /// that its type names; the object is the one the reference holds, or
    /// else the one stored under its id. `None` on an unknown type, a type
    /// that no object has, an id with no stored object, an object that would
    /// be decompiled again inside its own decompiling, or a failure below.
    pub fn decompile(&self, tw: &mut TextWriter, important_data: &ImportantData) -> (r: Option<()>)
        ensures
            final(tw).path == old(tw).path,
            match dc_reference(self@, important_data@, Set::empty()) {
                Some(lines) => r is Some && string_views(final(tw).lines@) == string_views(old(tw).lines@) + lines,
                None => r is None,
            },
    {
        let mut visited: Vec<u32> = Vec::new();
        proof {
            assert(visited@.to_set() =~= Set::<u32>::empty());
        }
        self.decompile_in(tw, important_data, &mut visited)
    }

    /// [`Reference::decompile`] inside the decompiling of the objects stored
    /// under the ids `visited`.
    pub fn decompile_in(&self, tw: &mut TextWriter, important_data: &ImportantData, visited: &mut Vec<u32>) -> (r: Option<()>)
        ensures
            final(visited)@ == old(visited)@,
            final(tw).path == old(tw).path,
            match dc_reference(self@, important_data@, old(visited)@.to_set()) {
                Some(lines) => r is Some && string_views(final(tw).lines@) == string_views(old(tw).lines@) + lines,
                None => r is None,
            },
        decreases dc_measure(important_data@, old(visited)@.to_set()), self, 1nat,
    {
        broadcast use vstd::std_specs::hash::group_hash_axioms;
        proof {
            lemma_ref_data_finite(important_data);
        }
        if self.ref_type == 0 || (self.ref_type - 1) as usize >= important_data.type_table.len() {
            return None;
        }
        let name = important_data.get_type_name(self.ref_type);
        if !object_name(&name) {
            return None;
        }
        match &self.value {
            Some(v) => {
                proof {
                    assert(decreases_to!(self => self.value));
                }
                decompile_value(&**v, &name, self.id, tw, important_data, visited)
            },
            None => {
                let v: &Arc<RefValue> = match important_data.ref_id_ref_data_map.get(&self.id) {
                    Some(v) => v,
                    None => return None,
                };
                proof {
                    assert(important_data@.ref_data[self.id] == (**v)@);
                }
                if !value_matches_name(&**v, &name) {
                    proof {
                        assert(string_views(tw.lines@) =~= string_views(old(tw).lines@) + seq![]);
                    }
                    return Some(());
                }
                if vec_contains(visited, self.id) {
                    return None;
                }
                let ghost vis = old(visited)@.to_set();
                visited.push(self.id);
                proof {
                    old(visited)@.lemma_push_to_set_commute(self.id);
                    assert(visited@.to_set() =~= vis.insert(self.id));
                    lemma_measure_decreases(important_data@, vis, self.id);
                }
                let r = decompile_value(&**v, &name, self.id, tw, important_data, visited);
                visited.pop();
                proof {
                    assert(visited@ =~= old(visited)@);
                }
                r
            },
        }
    }
}

impl DLVectorReference {
    /// Writes the lines of the references, one after the other.
    pub fn decompile(&self, tw: &mut TextWriter, important_data: &ImportantData) -> (r: Option<()>)
        ensures
            final(tw).path == old(tw).path,
            match dc_vec(self@, important_data@, Set::empty()) {
                Some(lines) => r is Some && string_views(final(tw).lines@) == string_views(old(tw).lines@) + lines,
                None => r is None,
            },
    {
        let mut visited: Vec<u32> = Vec::new();
        proof {
            assert(visited@.to_set() =~= Set::<u32>::empty());
        }
        self.decompile_in(tw, important_data, &mut visited)
    }

    /// [`DLVectorReference::decompile`] inside the decompiling of the objects
    /// stored under the ids `visited`.
    pub fn decompile_in(&self, tw: &mut TextWriter, important_data: &ImportantData, visited: &mut Vec<u32>) -> (r: Option<()>)
        ensures
            final(visited)@ == old(visited)@,
            final(tw).path == old(tw).path,
            match dc_vec(self@, important_data@, old(visited)@.to_set()) {
                Some(lines) => r is Some && string_views(final(tw).lines@) == string_views(old(tw).lines@) + lines,
                None => r is None,
            },
        decreases dc_measure(important_data@, old(visited)@.to_set()), self, 1nat,
    {
        let ghost vis = old(visited)@.to_set();
        let ghost refs = self@.references;
        let ghost start = string_views(tw.lines@);
        let mut i: usize = 0;
        proof {
            assert(start =~= start + seq![]);
        }
        while i < self.references.len()
            invariant
                0 <= i <= self.references@.len(),
                refs == self@.references,
                refs.len() == self.references@.len(),
                visited@ == old(visited)@,
                vis == old(visited)@.to_set(),
                tw.path == old(tw).path,
                dc_refs(refs, i as nat, important_data@, vis) matches Some(acc)
                    && string_views(tw.lines@) == start + acc,
            decreases self.references@.len() - i,
        {
            proof {
                assert(decreases_to!(self => self.references));
                assert(decreases_to!(self.references => self.references@));
                assert(decreases_to!(self.references@ => self.references@[i as int]));
                assert(refs[i as int] == self.references@[i as int]@);
            }
            let ghost acc = dc_refs(refs, i as nat, important_data@, vis).unwrap();
            match self.references[i].decompile_in(tw, important_data, visited) {
                Some(_) => {},
                None => {
                    proof {
                        lemma_dc_refs_none(refs, (i + 1) as nat, refs.len(), important_data@, vis);
                    }
                    return None;
                },
            }
            proof {
                let more = dc_reference(refs[i as int], important_data@, vis).unwrap();
                assert(string_views(tw.lines@) =~= start + (acc + more));
            }
            i = i + 1;
        }
        Some(())
    }
}

/// Writes a title line and the lines of a vector, when its count is not
/// zero.
fn decompile_section(title: &str, v: &DLVectorReference, tw: &mut TextWriter, important_data: &ImportantData, visited: &mut Vec<u32>) -> (r: Option<()>)
    ensures
        final(visited)@ == old(visited)@,
        final(tw).path == old(tw).path,
        match section(title@, v@, important_data@, old(visited)@.to_set()) {
            Some(lines) => r is Some && string_views(final(tw).lines@) == string_views(old(tw).lines@) + lines,
            None => r is None,
        },
    decreases dc_measure(important_data@, old(visited)@.to_set()), v, 2nat,
{
    if v.ref_count != 0 {
        write_text(tw, title);
        let ghost mid = string_views(tw.lines@);
        match v.decompile_in(tw, important_data, visited) {
            Some(_) => {},
            None => return None,
        }
        proof {
            let lines = dc_vec(v@, important_data@, old(visited)@.to_set()).unwrap();
            assert(string_views(tw.lines@) =~= string_views(old(tw).lines@) + (seq![title@] + lines));
        }
        Some(())
    } else {
        proof {
            assert(string_views(tw.lines@) =~= string_views(old(tw).lines@) + seq![]);
        }
        Some(())
    }
}

impl EsdMap {
    /// Writes `def Map_<index>():` and the lines of the states.
    pub fn decompile(&self, tw: &mut TextWriter, important_data: &ImportantData) -> (r: Option<()>)
        ensures
            final(tw).path == old(tw).path,
            match dc_map(self@, important_data@, Set::empty()) {
                Some(lines) => r is Some && string_views(final(tw).lines@) == string_views(old(tw).lines@) + lines,
                None => r is None,
            },
    {
        let mut visited: Vec<u32> = Vec::new();
        proof {
            assert(visited@.to_set() =~= Set::<u32>::empty());
        }
        self.decompile_in(tw, important_data, &mut visited)
    }

    /// [`EsdMap::decompile`] inside the decompiling of the objects stored
    /// under the ids `visited`.
    pub fn decompile_in(&self, tw: &mut TextWriter, important_data: &ImportantData, visited: &mut Vec<u32>) -> (r: Option<()>)
        ensures
            final(visited)@ == old(visited)@,
            final(tw).path == old(tw).path,
            match dc_map(self@, important_data@, old(visited)@.to_set()) {
                Some(lines) => r is Some && string_views(final(tw).lines@) == string_views(old(tw).lines@) + lines,
                None => r is None,
            },
        decreases dc_measure(important_data@, old(visited)@.to_set()), self, 1nat,
    {
        write_numbered(tw, "def Map_", self.map_index, "():");
        match self.states.decompile_in(tw, important_data, visited) {
            Some(_) => {},
            None => return None,
        }
        proof {
            let lines = dc_vec(self@.states, important_data@, old(visited)@.to_set()).unwrap();
            assert(string_views(tw.lines@) =~= string_views(old(tw).lines@) + (seq![
                "def Map_"@ + dec_nat(self.map_index as nat) + "():"@,
            ] + lines));
        }
        Some(())
    }
}

impl State {
    /// Writes `def State_<index>():` and the entry events, exit events and
    /// transitions, each section under its title when it is not empty.
    pub fn decompile(&self, tw: &mut TextWriter, important_data: &ImportantData) -> (r: Option<()>)
        ensures
            final(tw).path == old(tw).path,
            match dc_state(self@, important_data@, Set::empty()) {
                Some(lines) => r is Some && string_views(final(tw).lines@) == string_views(old(tw).lines@) + lines,
                None => r is None,
            },
    {
        let mut visited: Vec<u32> = Vec::new();
        proof {
            assert(visited@.to_set() =~= Set::<u32>::empty());
        }
        self.decompile_in(tw, important_data, &mut visited)
    }

    /// [`State::decompile`] inside the decompiling of the objects stored
    /// under the ids `visited`.
    pub fn decompile_in(&self, tw: &mut TextWriter, important_data: &ImportantData, visited: &mut Vec<u32>) -> (r: Option<()>)
        ensures
            final(visited)@ == old(visited)@,
            final(tw).path == old(tw).path,
            match dc_state(self@, important_data@, old(visited)@.to_set()) {
                Some(lines) => r is Some && string_views(final(tw).lines@) == string_views(old(tw).lines@) + lines,
                None => r is None,
            },
        decreases dc_measure(important_data@, old(visited)@.to_set()), self, 1nat,
    {
        let ghost vis = old(visited)@.to_set();
        let ghost d = important_data@;
        let ghost s = self@;
        write_numbered(tw, "    def State_", self.state_index, "():");
        let ghost l0 = string_views(tw.lines@);
        match decompile_section("        #EntryEvents:", &self.entry_events, tw, important_data, visited) {
            Some(_) => {},
            None => return None,
        }
        let ghost l1 = string_views(tw.lines@);
        match decompile_section("        #ExitEvents:", &self.exit_events, tw, important_data, visited) {
            Some(_) => {},
            None => return None,
        }
        let ghost l2 = string_views(tw.lines@);
        match decompile_section("        #Transitions:", &self.transitions, tw, important_data, visited) {
            Some(_) => {},
            None => return None,
        }
        proof {
            let a = section("        #EntryEvents:"@, s.entry_events, d, vis).unwrap();
            let b = section("        #ExitEvents:"@, s.exit_events, d, vis).unwrap();
            let c = section("        #Transitions:"@, s.transitions, d, vis).unwrap();
            let head = seq!["    def State_"@ + dec_nat(self.state_index as nat) + "():"@];
            assert(string_views(tw.lines@) =~= string_views(old(tw).lines@) + (head + a + b + c));
        }
        Some(())
    }
}

impl Transition {
    /// Writes the transition's condition, the call of its target state and,
    /// when there are any, its pass events; `transition_ref_id` is the id of
    /// the reference to the transition.
    pub fn decompile(&self, tw: &mut TextWriter, important_data: &ImportantData, transition_ref_id: u32) -> (r: Option<()>)
        ensures
            final(tw).path == old(tw).path,
            match dc_transition(self@, transition_ref_id, important_data@, Set::empty()) {
                Some(lines) => r is Some && string_views(final(tw).lines@) == string_views(old(tw).lines@) + lines,
                None => r is None,
            },
    {
        let mut visited: Vec<u32> = Vec::new();
        proof {
            assert(visited@.to_set() =~= Set::<u32>::empty());
        }
        self.decompile_in(tw, important_data, transition_ref_id, &mut visited)
    }

    /// [`Transition::decompile`] inside the decompiling of the objects stored
    /// under the ids `visited`.
    pub fn decompile_in(&self, tw: &mut TextWriter, important_data: &ImportantData, transition_ref_id: u32, visited: &mut Vec<u32>) -> (r: Option<()>)
        ensures
            final(visited)@ == old(visited)@,
            final(tw).path == old(tw).path,
            match dc_transition(self@, transition_ref_id, important_data@, old(visited)@.to_set()) {
                Some(lines) => r is Some && string_views(final(tw).lines@) == string_views(old(tw).lines@) + lines,
                None => r is None,
            },
        decreases dc_measure(important_data@, old(visited)@.to_set()), self, 1nat,
    {
        broadcast use vstd::std_specs::hash::group_hash_axioms;
        let ghost vis = old(visited)@.to_set();
        let ghost d = important_data@;
        let ghost t = self@;
        let target_state_index: u32 = match &self.target_state {
            Some(ts) => {
                let v: &Arc<RefValue> = match important_data.ref_id_ref_data_map.get(&ts.id) {
                    Some(v) => v,
                    None => return None,
                };
                proof {
                    assert(important_data@.ref_data[ts.id] == (**v)@);
                }
                match &**v {
                    RefValue::State(s) => s.state_index,
                    _ => return None,
                }
            },
            None => match important_data.trans_id_state_idx_dict.get(&transition_ref_id) {
                Some(x) => *x,
                None => return None,
            },
        };
        proof {
            assert(target_index(t, transition_ref_id, d) == Some(target_state_index));
        }
        let ghost l0 = string_views(tw.lines@);
        match &self.cond_buffer {
            Some(b) => {
                match Condition::decompile_condition_buffer(b, tw, important_data) {
                    Some(_) => {},
                    None => return None,
                }
                proof {
                    assert(string_views(tw.lines@) =~= l0 + seq![
                        condition_line(b.data@, d.func_defs).unwrap(),
                    ]);
                }
            },
            None => match &self.cond_ref {
                Some(c) => {
                    proof {
                        assert(decreases_to!(self => self.cond_ref));
                    }
                    match c.decompile_in(tw, important_data, visited) {
                        Some(_) => {},
                        None => return None,
                    }
                },
                None => return None,
            },
        }
        let ghost l1 = string_views(tw.lines@);
        write_numbered(tw, "            State_", target_state_index, "()");
        let ghost l2 = string_views(tw.lines@);
        match decompile_section("        #PassEvents:", &self.pass_events, tw, important_data, visited) {
            Some(_) => {},
            None => return None,
        }
        proof {
            let cond: Option<Seq<Seq<char>>> = match t.cond_buffer {
                Some(b) => one(condition_line(b.data, d.func_defs)),
                None => match t.cond_ref {
                    Some(c) => dc_reference(c, d, vis),
                    None => None,
                },
            };
            let a = cond.unwrap();
            let p = section("        #PassEvents:"@, t.pass_events, d, vis).unwrap();
            let mid = seq!["            State_"@ + dec_nat(target_state_index as nat) + "()"@];
            assert(l1 =~= string_views(old(tw).lines@) + a);
            assert(string_views(tw.lines@) =~= string_views(old(tw).lines@) + (a + mid + p));
        }
        Some(())
    }
}

impl Project {
    /// Writes the lines of the maps.
    pub fn decompile(&self, tw: &mut TextWriter, important_data: &ImportantData) -> (r: Option<()>)
        ensures
            final(tw).path == old(tw).path,
            match dc_project(self@, important_data@) {
                Some(lines) => r is Some && string_views(final(tw).lines@) == string_views(old(tw).lines@) + lines,
                None => r is None,
            },
    {
        self.maps.decompile(tw, important_data)
    }
}

} // verus!
