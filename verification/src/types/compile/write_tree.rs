//! Writing the objects that hold references: references, reference vectors,
//! maps, states, transitions and the project.
use vstd::prelude::*;
use crate::types::compile::write_spec::{
    is_object_name, spec_new_id, spec_write_dlvector, spec_write_map, spec_write_project,
    spec_write_reference, spec_write_refs, spec_write_state, spec_write_transition,
    spec_write_value,
};
use crate::types::decompile::read_spec::{name_buffer, name_map, name_state, name_transition};
use crate::types::structs::{
    DLVectorReference, EsdMap, Project, RefValue, Reference, State, Transition,
};
use crate::utils::binary_reader::{assert_values, values_contain};
use crate::utils::binary_writer::BinaryWriter;
use crate::utils::important_data::{ImportantData, SpecImportantData, spec_type_by_name};
use crate::utils::text::string_eq;

verus! {

/// The id that `id` is written as: its earlier new id, or one more than the
/// highest so far, which is then recorded.
fn new_id(id: u32, important_data: &mut ImportantData) -> (r: Option<u32>)
    ensures
        match spec_new_id(id, old(important_data)@) {
            Some((n, d)) => r == Some(n) && final(important_data)@ == d,
            None => r is None,
        },
{
    broadcast use vstd::std_specs::hash::group_hash_axioms;
    if important_data.current_max_id == u32::MAX {
        return None;
    }
    let next = important_data.current_max_id + 1;
    match important_data.old_new_id_dict.get(&id) {
        Some(n) => Some(*n),
        None => {
            important_data.old_new_id_dict.insert(id, next);
            important_data.current_max_id = next;
            Some(next)
        },
    }
}

/// Whether `name` is one of the type names that references may point to.
pub fn object_name(name: &String) -> (r: bool)
    ensures
        r == is_object_name(name@),
{
    string_eq(name, "EzStateMap") || string_eq(name, "EzStateMapState") || string_eq(
        name,
        "EzStateExternalEvent",
    ) || string_eq(name, "EzStateExternalEventT<ES_EVENT_PARAM_NUM_6>") || string_eq(
        name,
        "EzStateTransition",
    ) || string_eq(name, "EzState::detail::EzStateCondition")
}

impl Reference {
    #[verifier::rlimit(100)]
    /// Writes the reference: its type (when `type_id` is `0`) and its new id;
    /// the first time that new id is written, also the object, when it is of
    /// the kind its type names. `None` on an unknown type id, a type that no
    /// object has, a missing object or an id overflow.
    pub fn write(&self, bw: &mut BinaryWriter, type_id: u16, important_data: &mut ImportantData) -> (r: Option<()>)
        ensures
            final(bw).path == old(bw).path,
            match spec_write_reference(self@, type_id, old(important_data)@) {
                Some((bytes, d)) => r is Some && final(bw).bytes@ == old(bw).bytes@ + bytes
                    && final(important_data)@ == d,
                None => r is None,
            },
        decreases self, 0nat,
    {
        reveal(spec_write_reference);
        reveal(spec_write_value);
        let local_type = if type_id == 0 {
            bw.write_uint16(self.ref_type);
            self.ref_type
        } else {
            type_id
        };
        if local_type == 0 || (local_type - 1) as usize >= important_data.type_table.len() {
            return None;
        }
        let name = important_data.get_type_name(local_type);
        let id = match new_id(self.id, important_data) {
            Some(n) => n,
            None => return None,
        };
        bw.write_uint32(id);
        let ghost head = bw.bytes@;
        if !important_data.should_write_data(id) {
            proof {
                assert(bw.bytes@ =~= old(bw).bytes@ + spec_write_reference(self@, type_id, old(important_data)@).unwrap().0);
            }
            return Some(());
        }
        if !object_name(&name) {
            return None;
        }
        let value: &RefValue = match &self.value {
            Some(a) => &**a,
            None => return None,
        };
        proof {
            assert(decreases_to!(self => self.value));
        }
        match write_value(value, &name, bw, important_data) {
            Some(_) => {},
            None => return None,
        }
        proof {
            assert(bw.bytes@ =~= old(bw).bytes@ + spec_write_reference(self@, type_id, old(important_data)@).unwrap().0);
        }
        Some(())
    }
}

#[verifier::rlimit(100)]
/// Writes the object of a reference whose type is named `name`, when it is of
/// that kind.
fn write_value(v: &RefValue, name: &String, bw: &mut BinaryWriter, important_data: &mut ImportantData) -> (r: Option<()>)
    ensures
        final(bw).path == old(bw).path,
        match spec_write_value(v@, name@, old(important_data)@) {
            Some((bytes, d)) => r is Some && final(bw).bytes@ == old(bw).bytes@ + bytes
                && final(important_data)@ == d,
            None => r is None,
        },
    decreases v, 0nat,
{
    reveal(spec_write_value);
    reveal(spec_write_map);
    reveal(spec_write_state);
    reveal(spec_write_transition);
    match v {
        RefValue::EsdMap(m) => {
            if string_eq(name, "EzStateMap") {
                m.write(bw, important_data)
            } else {
                proof { assert(bw.bytes@ =~= old(bw).bytes@ + seq![]); }
                Some(())
            }
        },
        RefValue::State(s) => {
            if string_eq(name, "EzStateMapState") {
                s.write(bw, important_data)
            } else {
                proof { assert(bw.bytes@ =~= old(bw).bytes@ + seq![]); }
                Some(())
            }
        },
        RefValue::Event(e) => {
            if string_eq(name, "EzStateExternalEvent") || string_eq(
                name,
                "EzStateExternalEventT<ES_EVENT_PARAM_NUM_6>",
            ) {
                e.write(bw, important_data)
            } else {
                proof { assert(bw.bytes@ =~= old(bw).bytes@ + seq![]); }
                Some(())
            }
        },
        RefValue::Transition(t) => {
            if string_eq(name, "EzStateTransition") {
                t.write(bw, important_data)
            } else {
                proof { assert(bw.bytes@ =~= old(bw).bytes@ + seq![]); }
                Some(())
            }
        },
        RefValue::Condition(c) => {
            if string_eq(name, "EzState::detail::EzStateCondition") {
                c.write(bw, important_data)
            } else {
                proof { assert(bw.bytes@ =~= old(bw).bytes@ + seq![]); }
                Some(())
            }
        },
    }
}

/// The type id of the first type named `name`, if it fits in a `u16`.
fn type_id_of(d: &ImportantData, name: &str) -> (r: Option<u16>)
    ensures
        r == crate::utils::important_data::spec_type_by_name(d@.type_table, name@),
{
    d.get_type_by_name(name)
}

#[verifier::rlimit(100)]
/// Writes the first `n` references, each with the type `t`.
fn write_refs(refs: &Vec<Reference>, n: u32, t: u16, bw: &mut BinaryWriter, important_data: &mut ImportantData, Ghost(owner): Ghost<&DLVectorReference>) -> (r: Option<()>)
    requires
        n <= refs@.len(),
        owner.references == *refs,
    ensures
        final(bw).path == old(bw).path,
        match spec_write_refs(owner@.references, n as nat, t, old(important_data)@) {
            Some((bytes, d)) => r is Some && final(bw).bytes@ == old(bw).bytes@ + bytes
                && final(important_data)@ == d,
            None => r is None,
        },
    decreases owner, 1nat,
{
    reveal(spec_write_refs);
    let ghost start = bw.bytes@;
    let ghost refs_m = owner@.references;
    let mut i: u32 = 0;
    while i < n
        invariant
            0 <= i <= n <= refs@.len(),
            owner.references == *refs,
            refs_m == owner@.references,
            bw.path == old(bw).path,
            spec_write_refs(refs_m, i as nat, t, old(important_data)@) matches Some((b, d))
                && bw.bytes@ == start + b && important_data@ == d,
            start == old(bw).bytes@,
        decreases n - i,
    {
        reveal(spec_write_refs);
        reveal(spec_write_reference);
        proof {
            assert(decreases_to!(owner => owner.references));
            assert(decreases_to!(owner.references => owner.references@));
            assert(decreases_to!(owner.references@ => owner.references@[i as int]));
            assert(refs_m[i as int] == refs@[i as int]@);
        }
        let ghost b = spec_write_refs(refs_m, i as nat, t, old(important_data)@).unwrap().0;
        match refs[i as usize].write(bw, t, important_data) {
            Some(_) => {},
            None => {
                proof {
                    lemma_refs_none(refs_m, (i + 1) as nat, n as nat, t, old(important_data)@);
                }
                return None;
            },
        }
        proof {
            let d_i = spec_write_refs(refs_m, i as nat, t, old(important_data)@).unwrap().1;
            let rb = spec_write_reference(refs_m[i as int], t, d_i).unwrap().0;
            assert(bw.bytes@ =~= start + (b + rb));
        }
        i = i + 1;
    }
    Some(())
}

/// Once writing the first `i` references fails, writing more fails too.
pub proof fn lemma_refs_none(refs: Seq<crate::types::structs::SpecReference>, i: nat, n: nat, t: u16, d: SpecImportantData)
    requires
        i <= n <= refs.len(),
        spec_write_refs(refs, i, t, d) is None,
    ensures
        spec_write_refs(refs, n, t, d) is None,
    decreases n,
{
        reveal(spec_write_refs);
    reveal(spec_write_reference);
    if n > i {
        lemma_refs_none(refs, i, (n - 1) as nat, t, d);
    }
}

impl DLVectorReference {
    #[verifier::rlimit(100)]
    /// Writes the vector: its type id, the count and, when it is not zero, for
    /// header version `0` the item type and the references without their
    /// types, otherwise the references with their types.
    pub fn write(&self, bw: &mut BinaryWriter, important_data: &mut ImportantData) -> (r: Option<()>)
        ensures
            final(bw).path == old(bw).path,
            match spec_write_dlvector(self@, old(important_data)@) {
                Some((bytes, d)) => r is Some && final(bw).bytes@ == old(bw).bytes@ + bytes
                    && final(important_data)@ == d,
                None => r is None,
            },
        decreases self, 2nat,
    {
        reveal(spec_write_dlvector);
        reveal(spec_write_refs);
        let struct_type = match type_id_of(important_data, "DLVector") {
            Some(t) => t,
            None => return None,
        };
        bw.write_uint16(struct_type);
        let count = self.references.len() as u32;
        bw.write_uint32(count);
        if count > 0 {
            if important_data.header_version == 0 {
                let it = match self.item_type {
                    Some(it) => it,
                    None => return None,
                };
                bw.write_uint16(it);
                match write_refs(&self.references, count, it, bw, important_data, Ghost(self)) {
                    Some(_) => {},
                    None => return None,
                }
            } else {
                match write_refs(&self.references, count, 0, bw, important_data, Ghost(self)) {
                    Some(_) => {},
                    None => return None,
                }
            }
        }
        proof {
            assert(bw.bytes@ =~= old(bw).bytes@ + spec_write_dlvector(self@, old(important_data)@).unwrap().0);
        }
        Some(())
    }
}

impl EsdMap {
    #[verifier::rlimit(100)]
    /// Writes the map: its type id, version (`1` or `2`), the next map index,
    /// the initial state, the states and, for version `2`, the transitions.
    pub fn write(&self, bw: &mut BinaryWriter, important_data: &mut ImportantData) -> (r: Option<()>)
        ensures
            final(bw).path == old(bw).path,
            match spec_write_map(self@, old(important_data)@) {
                Some((bytes, d)) => r is Some && final(bw).bytes@ == old(bw).bytes@ + bytes
                    && final(important_data)@ == d,
                None => r is None,
            },
        decreases self, 0nat,
    {
        reveal(spec_write_map);
        reveal(spec_write_reference);
        reveal(spec_write_dlvector);
        let struct_type = match type_id_of(important_data, "EzStateMap") {
            Some(t) => t,
            None => return None,
        };
        let allowed: Vec<u32> = vec![1, 2];
        proof {
            assert(allowed@ =~= seq![1u32, 2u32]);
        }
        if !values_contain(&allowed, self.version) {
            return None;
        }
        assert_values(&self.version, allowed);
        assert(self.version == 1 || self.version == 2);
        if important_data.current_map_index == u32::MAX {
            return None;
        }
        bw.write_uint16(struct_type);
        bw.write_uint32(self.version);
        let map_index = important_data.current_map_index + 1;
        important_data.current_map_index = map_index;
        bw.write_uint32(map_index);
        let ghost b0 = bw.bytes@;
        match self.initial_state.write(bw, 0, important_data) {
            Some(_) => {},
            None => return None,
        }
        let ghost b1 = bw.bytes@;
        match self.states.write(bw, important_data) {
            Some(_) => {},
            None => return None,
        }
        if self.version == 2 {
            let tv = match &self.transitions {
                Some(tv) => tv,
                None => return None,
            };
            match tv.write(bw, important_data) {
                Some(_) => {},
                None => return None,
            }
        }
        proof {
            assert(bw.bytes@ =~= old(bw).bytes@ + spec_write_map(self@, old(important_data)@).unwrap().0);
        }
        Some(())
    }
}

impl State {
    #[verifier::rlimit(100)]
    /// Writes the state: its type id, version (`1` or `2`), the next state
    /// index and its transitions, entry events and exit events.
    pub fn write(&self, bw: &mut BinaryWriter, important_data: &mut ImportantData) -> (r: Option<()>)
        ensures
            final(bw).path == old(bw).path,
            match spec_write_state(self@, old(important_data)@) {
                Some((bytes, d)) => r is Some && final(bw).bytes@ == old(bw).bytes@ + bytes
                    && final(important_data)@ == d,
                None => r is None,
            },
        decreases self, 0nat,
    {
        reveal(spec_write_state);
        reveal(spec_write_dlvector);
        let ghost s = self@;
        let ghost d = old(important_data)@;
        let struct_type = match type_id_of(important_data, "EzStateMapState") {
            Some(t) => t,
            None => return None,
        };
        let allowed: Vec<u32> = vec![1, 2];
        proof {
            assert(allowed@ =~= seq![1u32, 2u32]);
        }
        if !values_contain(&allowed, self.version) {
            return None;
        }
        assert_values(&self.version, allowed);
        assert(self.version == 1 || self.version == 2);
        if important_data.current_state_index == u32::MAX {
            return None;
        }
        bw.write_uint16(struct_type);
        bw.write_uint32(self.version);
        let state_index = important_data.current_state_index;
        important_data.current_state_index = state_index + 1;
        bw.write_uint32(state_index);
        let ghost d0 = SpecImportantData { current_state_index: (state_index + 1) as u32, ..d };
        let ghost head = bw.bytes@;
        assert(important_data@ == d0);
        assert(head == old(bw).bytes@ + (crate::types::compile::write_spec::be16(struct_type as int)
            + crate::types::compile::write_spec::be32(self.version as int)
            + crate::types::compile::write_spec::be32(state_index as int)));
        assert(s.transitions == self.transitions@);
        assert(s.entry_events == self.entry_events@);
        assert(s.exit_events == self.exit_events@);
        match self.transitions.write(bw, important_data) {
            Some(_) => {},
            None => return None,
        }
        let ghost d1 = important_data@;
        let ghost b1 = bw.bytes@;
        match self.entry_events.write(bw, important_data) {
            Some(_) => {},
            None => return None,
        }
        let ghost b2 = bw.bytes@;
        match self.exit_events.write(bw, important_data) {
            Some(_) => {},
            None => return None,
        }
        proof {
            assert(bw.bytes@ =~= old(bw).bytes@ + spec_write_state(self@, old(important_data)@).unwrap().0);
        }
        Some(())
    }
}

impl Transition {
    #[verifier::rlimit(100)]
    /// Writes the transition: its type id, version (`1` or `3`), for version
    /// `1` the condition and target references, otherwise the condition
    /// buffer, then the pass events.
    pub fn write(&self, bw: &mut BinaryWriter, important_data: &mut ImportantData) -> (r: Option<()>)
        ensures
            final(bw).path == old(bw).path,
            match spec_write_transition(self@, old(important_data)@) {
                Some((bytes, d)) => r is Some && final(bw).bytes@ == old(bw).bytes@ + bytes
                    && final(important_data)@ == d,
                None => r is None,
            },
        decreases self, 0nat,
    {
        reveal(spec_write_transition);
        reveal(spec_write_reference);
        reveal(spec_write_dlvector);
        let struct_type = match type_id_of(important_data, "EzStateTransition") {
            Some(t) => t,
            None => return None,
        };
        let allowed: Vec<u32> = vec![1, 3];
        proof {
            assert(allowed@ =~= seq![1u32, 3u32]);
        }
        if !values_contain(&allowed, self.version) {
            return None;
        }
        assert_values(&self.version, allowed);
        assert(self.version == 1 || self.version == 3);
        bw.write_uint16(struct_type);
        bw.write_uint32(self.version);
        if self.version == 1 {
            let c = match &self.cond_ref {
                Some(c) => c,
                None => return None,
            };
            match c.write(bw, 0, important_data) {
                Some(_) => {},
                None => return None,
            }
            let g = match &self.target_state {
                Some(g) => g,
                None => return None,
            };
            match g.write(bw, 0, important_data) {
                Some(_) => {},
                None => return None,
            }
        } else {
            let buf = match &self.cond_buffer {
                Some(b) => b,
                None => return None,
            };
            proof {
                reveal_strlit("buffer");
                assert("buffer"@ == name_buffer());
            }
            match buf.write(bw, important_data, "buffer") {
                Some(_) => {},
                None => return None,
            }
        }
        match self.pass_events.write(bw, important_data) {
            Some(_) => {},
            None => return None,
        }
        proof {
            assert(bw.bytes@ =~= old(bw).bytes@ + spec_write_transition(self@, old(important_data)@).unwrap().0);
        }
        Some(())
    }
}

impl Project {
    /// Writes the project: its type id, version `2` and the maps.
    pub fn write(&self, bw: &mut BinaryWriter, important_data: &mut ImportantData) -> (r: Option<()>)
        ensures
            final(bw).path == old(bw).path,
            match spec_write_project(self@, old(important_data)@) {
                Some((bytes, d)) => r is Some && final(bw).bytes@ == old(bw).bytes@ + bytes
                    && final(important_data)@ == d,
                None => r is None,
            },
    {
        let struct_type = match type_id_of(important_data, "EzStateProject") {
            Some(t) => t,
            None => return None,
        };
        bw.write_uint16(struct_type);
        bw.write_uint32(2);
        match self.maps.write(bw, important_data) {
            Some(_) => {},
            None => return None,
        }
        proof {
            assert(bw.bytes@ =~= old(bw).bytes@ + spec_write_project(self@, old(important_data)@).unwrap().0);
        }
        Some(())
    }
}

} // verus!
