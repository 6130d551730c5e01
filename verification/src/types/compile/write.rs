use vstd::prelude::*;
use vstd::utf8::encode_utf8;
use crate::types::compile::write_spec::{
    be16, be32, event_type_id, header_writable, is_event_name, is_object_name,
    spec_new_id, spec_write_buffer, spec_write_buffers, spec_write_condition,
    spec_write_dlvector, spec_write_evaluator, spec_write_evaluators, spec_write_event,
    spec_write_header, spec_write_map, spec_write_project, spec_write_reference,
    spec_write_refs, spec_write_shared_string, spec_write_shared_strings, spec_write_state,
    spec_write_transition, spec_write_value,
};
use crate::types::structs::{
    Buffer, Condition, DLVectorReference, EsdMap, Evaluator, Event, Header, Project, RefValue,
    Reference, SharedString, SpecBuffer, SpecEvaluator, State, Transition, views_of,
};
use crate::utils::binary_reader::{assert_values, values_contain};
use crate::utils::binary_writer::BinaryWriter;
use crate::utils::important_data::{ImportantData, SpecImportantData, spec_type_by_name, spec_type_name};
use crate::utils::text::{str_eq, string_eq};

verus! {

impl SharedString {
    /// Writes the string's UTF-8 byte length and its bytes.
    pub fn write(&self, bw: &mut BinaryWriter)
        ensures
            final(bw).bytes@ == old(bw).bytes@ + spec_write_shared_string(self@),
            final(bw).path == old(bw).path,
    {
        let length = self.str.as_str().as_bytes().len() as u32;
        bw.write_uint32(length);
        bw.write_string(self.str.clone());
        proof {
            assert(final(bw).bytes@ =~= old(bw).bytes@ + spec_write_shared_string(self@));
        }
    }
}

impl Header {
    /// Writes the header.
    pub fn write(&self, bw: &mut BinaryWriter)
        requires
            header_writable(self@),
        ensures
            final(bw).bytes@ == old(bw).bytes@ + spec_write_header(self@),
            final(bw).path == old(bw).path,
    {
        let string_count = self.strings.len() as u16;
        bw.write_string(self.magic.clone());
        bw.write_uint16(self.unk04);
        bw.write_uint16(self.version);
        let ghost mid = bw.bytes@;
        if self.version == 3 {
            bw.write_uint32(self.unk08.unwrap());
            bw.write_uint32(self.transition_count.unwrap());
            bw.write_uint32(self.highest_ref_id_plus_one.unwrap());
        }
        let ghost mid2 = bw.bytes@;
        bw.write_uint16(string_count);
        let ghost start = bw.bytes@;
        let mut i: usize = 0;
        while i < self.strings.len()
            invariant
                0 <= i <= self.strings@.len(),
                bw.bytes@ == start + spec_write_shared_strings(views_of(self.strings@).take(i as int)),
                bw.path == old(bw).path,
            decreases self.strings@.len() - i,
        {
            self.strings[i].write(bw);
            proof {
                let v = views_of(self.strings@);
                assert(v.take(i + 1).drop_last() =~= v.take(i as int));
                assert(v.take(i + 1).last() == self.strings@[i as int]@);
            }
            i = i + 1;
        }
        proof {
            assert(views_of(self.strings@).take(self.strings@.len() as int) =~= self@.strings);
            assert(bw.bytes@ =~= old(bw).bytes@ + spec_write_header(self@));
        }
    }
}

/// The type id of the first type named `name`, if it fits in a `u16`.
fn type_by_name(d: &ImportantData, name: &str) -> (r: Option<u16>)
    ensures
        r == spec_type_by_name(d@.type_table, name@),
{
    d.get_type_by_name(name)
}

impl Buffer {
    /// Writes the buffer under the type named `name`: the type id, the length
    /// and the bytes; `None` when no type has that name.
    pub fn write(&self, bw: &mut BinaryWriter, important_data: &mut ImportantData, name: &str) -> (r: Option<()>)
        ensures
            *final(important_data) == *old(important_data),
            final(bw).path == old(bw).path,
            match spec_write_buffer(self@, old(important_data)@, name@) {
                Some(bytes) => r is Some && final(bw).bytes@ == old(bw).bytes@ + bytes,
                None => r is None,
            },
    {
        let struct_type = match type_by_name(important_data, name) {
            Some(t) => t,
            None => return None,
        };
        bw.write_uint16(struct_type);
        let length = self.data.len() as u32;
        bw.write_uint32(length);
        let ghost start = bw.bytes@;
        let mut i: usize = 0;
        while i < self.data.len()
            invariant
                0 <= i <= self.data@.len(),
                bw.bytes@ == start + self.data@.take(i as int),
                bw.path == old(bw).path,
            decreases self.data@.len() - i,
        {
            bw.write_uint8(self.data[i]);
            proof {
                reveal_with_fuel(crate::utils::binary_writer::be_encode, 2);
                assert(self.data@.take(i + 1) =~= self.data@.take(i as int).push(self.data@[i as int]));
            }
            i = i + 1;
        }
        proof {
            assert(self.data@.take(self.data@.len() as int) =~= self.data@);
            assert(bw.bytes@ =~= old(bw).bytes@ + spec_write_buffer(self@, old(important_data)@, name@).unwrap());
        }
        Some(())
    }
}

impl Evaluator {
    #[verifier::rlimit(40)]
    /// Writes the evaluator: its type id, version `1` and its buffer.
    pub fn write(&self, bw: &mut BinaryWriter, important_data: &mut ImportantData) -> (r: Option<()>)
        ensures
            *final(important_data) == *old(important_data),
            final(bw).path == old(bw).path,
            match spec_write_evaluator(self@, old(important_data)@) {
                Some(bytes) => r is Some && final(bw).bytes@ == old(bw).bytes@ + bytes,
                None => r is None,
            },
    {
        let struct_type = match type_by_name(important_data, "EzStateEvaluator") {
            Some(t) => t,
            None => return None,
        };
        bw.write_uint16(struct_type);
        bw.write_uint32(1);
        let ghost mid = bw.bytes@;
        match self.buffer.write(bw, important_data, "buffer") {
            Some(_) => {},
            None => return None,
        }
        proof {
            assert(bw.bytes@ =~= old(bw).bytes@ + spec_write_evaluator(self@, old(important_data)@).unwrap());
        }
        Some(())
    }
}

impl Condition {
    #[verifier::rlimit(40)]
    /// Writes the condition: its type id, version `1` and its evaluator.
    pub fn write(&self, bw: &mut BinaryWriter, important_data: &mut ImportantData) -> (r: Option<()>)
        ensures
            *final(important_data) == *old(important_data),
            final(bw).path == old(bw).path,
            match spec_write_condition(self@, old(important_data)@) {
                Some(bytes) => r is Some && final(bw).bytes@ == old(bw).bytes@ + bytes,
                None => r is None,
            },
    {
        let struct_type = match type_by_name(important_data, "EzState::detail::EzStateCondition") {
            Some(t) => t,
            None => return None,
        };
        bw.write_uint16(struct_type);
        bw.write_uint32(1);
        match self.evaluator.write(bw, important_data) {
            Some(_) => {},
            None => return None,
        }
        proof {
            assert(bw.bytes@ =~= old(bw).bytes@ + spec_write_condition(self@, old(important_data)@).unwrap());
        }
        Some(())
    }
}

/// The type id written for events.
fn event_struct_type(d: &ImportantData) -> (r: Option<u16>)
    ensures
        r == event_type_id(d@.type_table),
{
    proof {
        reveal(event_type_id);
    }
    let mut i: usize = 0;
    while i < d.type_table.len()
        invariant
            0 <= i <= d.type_table@.len(),
            forall|j: int| 0 <= j < i ==> !is_event_name(#[trigger] d@.type_table[j]),
        decreases d.type_table@.len() - i,
    {
        if string_eq(&d.type_table[i], "EzStateExternalEvent") || string_eq(
            &d.type_table[i],
            "EzStateExternalEventT<ES_EVENT_PARAM_NUM_6>",
        ) {
            proof {
                reveal(event_type_id);
                let t = d@.type_table;
                assert(is_event_name(t[i as int]));
                let c = choose|c: int|
                    0 <= c < t.len() && is_event_name(t[c]) && forall|j: int|
                        0 <= j < c ==> !is_event_name(t[j]);
                if c < i {
                    assert(!is_event_name(t[c]));
                } else if c > i {
                    assert(!is_event_name(t[i as int]));
                }
            }
            if i < 65535 {
                return Some((i + 1) as u16);
            } else {
                return None;
            }
        }
        i = i + 1;
    }
    Some(0)
}

/// Writes the evaluators one after the other.
fn write_evaluators(ev: &Vec<Evaluator>, bw: &mut BinaryWriter, important_data: &mut ImportantData) -> (r: Option<()>)
    ensures
        *final(important_data) == *old(important_data),
        final(bw).path == old(bw).path,
        match spec_write_evaluators(views_of(ev@), old(important_data)@) {
            Some(bytes) => r is Some && final(bw).bytes@ == old(bw).bytes@ + bytes,
            None => r is None,
        },
{
    let ghost start = bw.bytes@;
    let mut i: usize = 0;
    while i < ev.len()
        invariant
            0 <= i <= ev@.len(),
            *important_data == *old(important_data),
            bw.path == old(bw).path,
            spec_write_evaluators(views_of(ev@).take(i as int), important_data@) matches Some(b)
                && bw.bytes@ == start + b,
            start == old(bw).bytes@,
        decreases ev@.len() - i,
    {
        let ghost before = bw.bytes@;
        let res = ev[i].write(bw, important_data);
        proof {
            let v = views_of(ev@);
            assert(v.take(i + 1).drop_last() =~= v.take(i as int));
            assert(v.take(i + 1).last() == ev@[i as int]@);
        }
        if res.is_none() {
            proof {
                lemma_evaluators_none(views_of(ev@), (i + 1) as nat, ev@.len(), important_data@);
                assert(views_of(ev@).take(ev@.len() as int) =~= views_of(ev@));
            }
            return None;
        }
        proof {
            let b = spec_write_evaluators(views_of(ev@).take(i as int), important_data@).unwrap();
            let e = spec_write_evaluator(ev@[i as int]@, important_data@).unwrap();
            assert(bw.bytes@ =~= start + (b + e));
        }
        i = i + 1;
    }
    proof {
        assert(views_of(ev@).take(ev@.len() as int) =~= views_of(ev@));
    }
    Some(())
}

/// Writes the buffers one after the other, each as a `buffer`.
fn write_buffers(bu: &Vec<Buffer>, bw: &mut BinaryWriter, important_data: &mut ImportantData) -> (r: Option<()>)
    ensures
        *final(important_data) == *old(important_data),
        final(bw).path == old(bw).path,
        match spec_write_buffers(views_of(bu@), old(important_data)@) {
            Some(bytes) => r is Some && final(bw).bytes@ == old(bw).bytes@ + bytes,
            None => r is None,
        },
{
    let ghost start = bw.bytes@;
    let mut i: usize = 0;
    while i < bu.len()
        invariant
            0 <= i <= bu@.len(),
            *important_data == *old(important_data),
            bw.path == old(bw).path,
            spec_write_buffers(views_of(bu@).take(i as int), important_data@) matches Some(b)
                && bw.bytes@ == start + b,
            start == old(bw).bytes@,
        decreases bu@.len() - i,
    {
        let res = bu[i].write(bw, important_data, "buffer");
        proof {
            let v = views_of(bu@);
            assert(v.take(i + 1).drop_last() =~= v.take(i as int));
            assert(v.take(i + 1).last() == bu@[i as int]@);
            reveal_strlit("buffer");
            assert("buffer"@ == crate::types::decompile::read_spec::name_buffer());
        }
        if res.is_none() {
            proof {
                lemma_buffers_none(views_of(bu@), (i + 1) as nat, bu@.len(), important_data@);
                assert(views_of(bu@).take(bu@.len() as int) =~= views_of(bu@));
            }
            return None;
        }
        proof {
            let b = spec_write_buffers(views_of(bu@).take(i as int), important_data@).unwrap();
            let e = spec_write_buffer(bu@[i as int]@, important_data@, "buffer"@).unwrap();
            assert(bw.bytes@ =~= start + (b + e));
        }
        i = i + 1;
    }
    proof {
        assert(views_of(bu@).take(bu@.len() as int) =~= views_of(bu@));
    }
    Some(())
}

impl Event {
    #[verifier::rlimit(60)]
    /// Writes the event: its type id, version, event id, argument count plus
    /// one and the arguments.
    pub fn write(&self, bw: &mut BinaryWriter, important_data: &mut ImportantData) -> (r: Option<()>)
        ensures
            *final(important_data) == *old(important_data),
            final(bw).path == old(bw).path,
            match spec_write_event(self@, old(important_data)@) {
                Some(bytes) => r is Some && final(bw).bytes@ == old(bw).bytes@ + bytes,
                None => r is None,
            },
    {
        let struct_type = match event_struct_type(important_data) {
            Some(t) => t,
            None => return None,
        };
        let allowed: Vec<u32> = vec![1, 2];
        proof {
            assert(allowed@ =~= seq![1u32, 2u32]);
        }
        if !values_contain(&allowed, self.version) {
            return None;
        }
        assert_values(&self.version, allowed);
        assert(self.version == 1 || self.version == 2);
        let count: usize = match &self.arg_evaluators {
            Some(ev) => ev.len(),
            None => match &self.arg_buffers {
                Some(bu) => bu.len(),
                None => return None,
            },
        };
        if count as u32 == u32::MAX {
            return None;
        }
        let arg_amount = count as u32 + 1;
        bw.write_uint16(struct_type);
        bw.write_uint32(self.version);
        bw.write_uint32(self.event_id);
        bw.write_uint32(arg_amount);
        let ghost head = bw.bytes@;
        if arg_amount <= 1 {
            proof {
                assert(bw.bytes@ =~= old(bw).bytes@ + spec_write_event(self@, old(important_data)@).unwrap());
            }
            return Some(());
        }
        if self.version == 1 {
            let ev = match &self.arg_evaluators {
                Some(ev) => ev,
                None => return None,
            };
            match write_evaluators(ev, bw, important_data) {
                Some(_) => {},
                None => return None,
            }
        } else {
            let bu = match &self.arg_buffers {
                Some(bu) => bu,
                None => return None,
            };
            match write_buffers(bu, bw, important_data) {
                Some(_) => {},
                None => return None,
            }
        }
        proof {
            assert(bw.bytes@ =~= old(bw).bytes@ + spec_write_event(self@, old(important_data)@).unwrap());
        }
        Some(())
    }
}

/// Once writing a prefix of the evaluators fails, writing a longer prefix fails.
pub proof fn lemma_evaluators_none(v: Seq<SpecEvaluator>, i: nat, n: nat, d: SpecImportantData)
    requires
        i <= n <= v.len(),
        spec_write_evaluators(v.take(i as int), d) is None,
    ensures
        spec_write_evaluators(v.take(n as int), d) is None,
    decreases n,
{
    if n > i {
        lemma_evaluators_none(v, i, (n - 1) as nat, d);
        assert(v.take(n as int).drop_last() =~= v.take(n - 1));
    }
}

/// Once writing a prefix of the buffers fails, writing a longer prefix fails.
pub proof fn lemma_buffers_none(v: Seq<SpecBuffer>, i: nat, n: nat, d: SpecImportantData)
    requires
        i <= n <= v.len(),
        spec_write_buffers(v.take(i as int), d) is None,
    ensures
        spec_write_buffers(v.take(n as int), d) is None,
    decreases n,
{
    if n > i {
        lemma_buffers_none(v, i, (n - 1) as nat, d);
        assert(v.take(n as int).drop_last() =~= v.take(n - 1));
    }
}

} // verus!
