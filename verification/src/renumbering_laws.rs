//! Properties of the id renumbering that writing performs: old ids are
//! given new ids `1, 2, ...` in the order they are first written, each once.
use vstd::prelude::*;
use crate::types::compile::write_spec::{
    be16, be32, spec_new_id, spec_write_dlvector, spec_write_map, spec_write_reference, spec_write_refs,
    spec_write_state, spec_write_transition, spec_write_value,
};
use crate::types::structs::{SpecDLVector, SpecMap, SpecRefValue, SpecReference, SpecState, SpecTransition};
use crate::utils::important_data::SpecImportantData;

verus! {

/// Whether the renumbering is exact: the new ids given so far are exactly
/// `1..=current_max_id`, each to one old id, and every id that holds data is
/// one of them.
pub open spec fn renumbering_exact(d: SpecImportantData) -> bool {
    &&& forall|k: u32| #[trigger] d.old_new_id.contains_key(k) ==> 1 <= d.old_new_id[k] <= d.current_max_id
    &&& forall|k1: u32, k2: u32|
        #[trigger] d.old_new_id.contains_key(k1) && #[trigger] d.old_new_id.contains_key(k2) && k1 != k2
            ==> d.old_new_id[k1] != d.old_new_id[k2]
    &&& forall|v: u32| 1 <= v <= d.current_max_id ==> #[trigger] new_id_given(d.old_new_id, v)
    &&& forall|i: int| 0 <= i < d.ids_holding_data.len() ==> 1 <= #[trigger] d.ids_holding_data[i] <= d.current_max_id
}

/// Whether some old id has the new id `v`.
pub open spec fn new_id_given(m: Map<u32, u32>, v: u32) -> bool {
    exists|k: u32| #[trigger] m.contains_key(k) && m[k] == v
}

/// Whether `d2` keeps the new id of every old id that `d` renumbered.
pub open spec fn keeps_ids(d: SpecImportantData, d2: SpecImportantData) -> bool {
    forall|k: u32| #[trigger] d.old_new_id.contains_key(k) ==> d2.old_new_id.contains_key(k) && d2.old_new_id[k]
        == d.old_new_id[k]
}

/// Before anything is written the renumbering is exact.
pub proof fn law_renumbering_starts_exact(d: SpecImportantData)
    requires
        d.old_new_id == Map::<u32, u32>::empty(),
        d.current_max_id == 0,
        d.ids_holding_data.len() == 0,
    ensures
        renumbering_exact(d),
{
}

/// Renumbering an id keeps the renumbering exact: an id renumbered before
/// keeps its new id, any other one gets `current_max_id + 1`.
pub proof fn law_renumbering_step(id: u32, d: SpecImportantData)
    requires
        renumbering_exact(d),
    ensures
        spec_new_id(id, d) matches Some((n, d2)) ==> {
            &&& renumbering_exact(d2)
            &&& keeps_ids(d, d2)
            &&& d2.old_new_id.contains_key(id) && d2.old_new_id[id] == n
            &&& n == (if d.old_new_id.contains_key(id) { d.old_new_id[id] } else { (d.current_max_id + 1) as u32 })
            &&& d2.ids_holding_data == d.ids_holding_data
        },
{
    match spec_new_id(id, d) {
        Some((n, d2)) => {
            if !d.old_new_id.contains_key(id) {
                assert forall|v: u32| 1 <= v <= d2.current_max_id implies #[trigger] new_id_given(d2.old_new_id, v) by {
                    if v == n {
                        assert(d2.old_new_id.contains_key(id));
                    } else {
                        assert(new_id_given(d.old_new_id, v));
                        let k = choose|k: u32| #[trigger] d.old_new_id.contains_key(k) && d.old_new_id[k] == v;
                        assert(d2.old_new_id.contains_key(k) && d2.old_new_id[k] == v);
                    }
                }
            }
        },
        None => {},
    }
}

/// Recording a new id as holding data keeps the renumbering exact.
proof fn lemma_hold_step(d: SpecImportantData, n: u32)
    requires
        renumbering_exact(d),
        1 <= n <= d.current_max_id,
    ensures
        renumbering_exact(SpecImportantData { ids_holding_data: d.ids_holding_data.push(n), ..d }),
{
    let d2 = SpecImportantData { ids_holding_data: d.ids_holding_data.push(n), ..d };
    assert forall|i: int| 0 <= i < d2.ids_holding_data.len() implies 1 <= #[trigger] d2.ids_holding_data[i]
        <= d2.current_max_id by {
        if i < d.ids_holding_data.len() {
            assert(d2.ids_holding_data[i] == d.ids_holding_data[i]);
        }
    }
    assert forall|v: u32| 1 <= v <= d2.current_max_id implies #[trigger] new_id_given(d2.old_new_id, v) by {
        assert(new_id_given(d.old_new_id, v));
    }
}


/// Every state keeps its own ids.
proof fn lemma_keeps_self(d: SpecImportantData)
    ensures
        keeps_ids(d, d),
{
}

/// Keeping ids is transitive.
proof fn lemma_keeps_trans(d1: SpecImportantData, d2: SpecImportantData, d3: SpecImportantData)
    requires
        keeps_ids(d1, d2),
        keeps_ids(d2, d3),
    ensures
        keeps_ids(d1, d3),
{
    assert forall|k: u32| #[trigger] d1.old_new_id.contains_key(k) implies d3.old_new_id.contains_key(k)
        && d3.old_new_id[k] == d1.old_new_id[k] by {
        assert(d2.old_new_id.contains_key(k));
    }
}

/// Writing a reference keeps the renumbering exact and the ids given.
proof fn lemma_ren_reference(r: SpecReference, t: u16, d: SpecImportantData)
    requires
        renumbering_exact(d),
    ensures
        spec_write_reference(r, t, d) matches Some((_, d2)) ==> renumbering_exact(d2) && keeps_ids(d, d2) && (spec_new_id(
            r.id,
            d,
        ) matches Some((_, d1)) && keeps_ids(d1, d2)),
    decreases r, 0nat,
{
    lemma_keeps_self(d);
    reveal(spec_write_reference);
    reveal(spec_write_value);
    reveal(spec_write_refs);
    reveal(spec_write_dlvector);
    reveal(spec_write_map);
    reveal(spec_write_state);
    reveal(spec_write_transition);
    law_renumbering_step(r.id, d);
    match spec_new_id(r.id, d) {
        Some((n, d1)) => {
            lemma_keeps_self(d1);
            if !d1.ids_holding_data.contains(n) {
                lemma_hold_step(d1, n);
                let d2 = SpecImportantData { ids_holding_data: d1.ids_holding_data.push(n), ..d1 };
                assert(keeps_ids(d1, d2));
                lemma_keeps_trans(d, d1, d2);
                match r.value {
                    Some(bv) => {
                        let v = *bv;
                        assert(decreases_to!(r => r.value));
                        let local_type = if t == 0 { r.ref_type } else { t };
                        match crate::utils::important_data::spec_type_name(d.type_table, local_type) {
                            Some(name) => {
                                lemma_ren_value(v, name, d2);
                                match spec_write_value(v, name, d2) {
                                    Some((_, d3)) => {
                                        lemma_keeps_trans(d, d2, d3);
                                        lemma_keeps_trans(d1, d2, d3);
                                    },
                                    None => {},
                                }
                            },
                            None => {},
                        }
                    },
                    None => {},
                }
            }
        },
        None => {},
    }
}

/// Writing an object keeps the renumbering exact and the ids given.
proof fn lemma_ren_value(v: SpecRefValue, name: Seq<char>, d: SpecImportantData)
    requires
        renumbering_exact(d),
    ensures
        spec_write_value(v, name, d) matches Some((_, d2)) ==> renumbering_exact(d2) && keeps_ids(d, d2),
    decreases v, 0nat,
{
    lemma_keeps_self(d);
    reveal(spec_write_reference);
    reveal(spec_write_value);
    reveal(spec_write_refs);
    reveal(spec_write_dlvector);
    reveal(spec_write_map);
    reveal(spec_write_state);
    reveal(spec_write_transition);
    match v {
        SpecRefValue::EsdMap(m) => lemma_ren_map(m, d),
        SpecRefValue::State(st) => lemma_ren_state(st, d),
        SpecRefValue::Transition(t) => lemma_ren_transition(t, d),
        _ => {},
    }
}

/// Writing references keeps the renumbering exact and the ids given.
proof fn lemma_ren_refs(refs: Seq<SpecReference>, n: nat, t: u16, d: SpecImportantData)
    requires
        renumbering_exact(d),
    ensures
        spec_write_refs(refs, n, t, d) matches Some((_, d2)) ==> renumbering_exact(d2) && keeps_ids(d, d2),
    decreases refs, n,
{
    lemma_keeps_self(d);
    reveal(spec_write_reference);
    reveal(spec_write_value);
    reveal(spec_write_refs);
    reveal(spec_write_dlvector);
    reveal(spec_write_map);
    reveal(spec_write_state);
    reveal(spec_write_transition);
    if n > 0 && n <= refs.len() {
        lemma_ren_refs(refs, (n - 1) as nat, t, d);
        match spec_write_refs(refs, (n - 1) as nat, t, d) {
            Some((_, d1)) => {
                lemma_ren_reference(refs[n - 1], t, d1);
                match spec_write_reference(refs[n - 1], t, d1) {
                    Some((_, d2)) => lemma_keeps_trans(d, d1, d2),
                    None => {},
                }
            },
            None => {},
        }
    }
}

/// Writing a reference vector keeps the renumbering exact and the ids given.
proof fn lemma_ren_dlvector(v: SpecDLVector, d: SpecImportantData)
    requires
        renumbering_exact(d),
    ensures
        spec_write_dlvector(v, d) matches Some((_, d2)) ==> renumbering_exact(d2) && keeps_ids(d, d2),
    decreases v, 0nat,
{
    lemma_keeps_self(d);
    reveal(spec_write_reference);
    reveal(spec_write_value);
    reveal(spec_write_refs);
    reveal(spec_write_dlvector);
    reveal(spec_write_map);
    reveal(spec_write_state);
    reveal(spec_write_transition);
    let count = v.references.len() as u32;
    match v.item_type {
        Some(it) => lemma_ren_refs(v.references, count as nat, it, d),
        None => {},
    }
    lemma_ren_refs(v.references, count as nat, 0, d);
}

/// Writing a map keeps the renumbering exact and the ids given.
proof fn lemma_ren_map(m: SpecMap, d: SpecImportantData)
    requires
        renumbering_exact(d),
    ensures
        spec_write_map(m, d) matches Some((_, d2)) ==> renumbering_exact(d2) && keeps_ids(d, d2),
    decreases m, 0nat,
{
    lemma_keeps_self(d);
    reveal(spec_write_reference);
    reveal(spec_write_value);
    reveal(spec_write_refs);
    reveal(spec_write_dlvector);
    reveal(spec_write_map);
    reveal(spec_write_state);
    reveal(spec_write_transition);
    if d.current_map_index != u32::MAX {
        let d0 = SpecImportantData { current_map_index: (d.current_map_index + 1) as u32, ..d };
        assert(renumbering_exact(d0));
        assert(keeps_ids(d, d0));
        lemma_ren_reference(m.initial_state, 0, d0);
        match spec_write_reference(m.initial_state, 0, d0) {
            Some((_, d1)) => {
                lemma_keeps_trans(d, d0, d1);
                lemma_ren_dlvector(m.states, d1);
                match spec_write_dlvector(m.states, d1) {
                    Some((_, d2)) => {
                        lemma_keeps_trans(d, d1, d2);
                        match m.transitions {
                            Some(tv) => {
                                lemma_ren_dlvector(tv, d2);
                                match spec_write_dlvector(tv, d2) {
                                    Some((_, d3)) => lemma_keeps_trans(d, d2, d3),
                                    None => {},
                                }
                            },
                            None => {},
                        }
                    },
                    None => {},
                }
            },
            None => {},
        }
    }
}

/// Writing a state keeps the renumbering exact and the ids given.
proof fn lemma_ren_state(s: SpecState, d: SpecImportantData)
    requires
        renumbering_exact(d),
    ensures
        spec_write_state(s, d) matches Some((_, d2)) ==> renumbering_exact(d2) && keeps_ids(d, d2),
    decreases s, 0nat,
{
    lemma_keeps_self(d);
    reveal(spec_write_reference);
    reveal(spec_write_value);
    reveal(spec_write_refs);
    reveal(spec_write_dlvector);
    reveal(spec_write_map);
    reveal(spec_write_state);
    reveal(spec_write_transition);
    if d.current_state_index != u32::MAX {
        let d0 = SpecImportantData { current_state_index: (d.current_state_index + 1) as u32, ..d };
        assert(renumbering_exact(d0));
        assert(keeps_ids(d, d0));
        lemma_ren_dlvector(s.transitions, d0);
        match spec_write_dlvector(s.transitions, d0) {
            Some((_, d1)) => {
                lemma_keeps_trans(d, d0, d1);
                lemma_ren_dlvector(s.entry_events, d1);
                match spec_write_dlvector(s.entry_events, d1) {
                    Some((_, d2)) => {
                        lemma_keeps_trans(d, d1, d2);
                        lemma_ren_dlvector(s.exit_events, d2);
                        match spec_write_dlvector(s.exit_events, d2) {
                            Some((_, d3)) => lemma_keeps_trans(d, d2, d3),
                            None => {},
                        }
                    },
                    None => {},
                }
            },
            None => {},
        }
    }
}

/// Writing a transition keeps the renumbering exact and the ids given.
proof fn lemma_ren_transition(t: SpecTransition, d: SpecImportantData)
    requires
        renumbering_exact(d),
    ensures
        spec_write_transition(t, d) matches Some((_, d2)) ==> renumbering_exact(d2) && keeps_ids(d, d2),
    decreases t, 0nat,
{
    reveal(spec_write_reference);
    reveal(spec_write_value);
    reveal(spec_write_refs);
    reveal(spec_write_dlvector);
    reveal(spec_write_map);
    reveal(spec_write_state);
    reveal(spec_write_transition);
    lemma_keeps_self(d);
    let mid: Option<(Seq<u8>, SpecImportantData)> = if t.version == 1 {
        match (t.cond_ref, t.target_state) {
            (Some(c), Some(g)) => {
                lemma_ren_reference(c, 0, d);
                match spec_write_reference(c, 0, d) {
                    Some((cb, d1)) => {
                        lemma_ren_reference(g, 0, d1);
                        match spec_write_reference(g, 0, d1) {
                            Some((gb, d2)) => {
                                lemma_keeps_trans(d, d1, d2);
                                Some((cb + gb, d2))
                            },
                            None => None,
                        }
                    },
                    None => None,
                }
            },
            _ => None,
        }
    } else {
        match t.cond_buffer {
            Some(buf) => match crate::types::compile::write_spec::spec_write_buffer(
                buf,
                d,
                crate::types::decompile::read_spec::name_buffer(),
            ) {
                Some(bb) => Some((bb, d)),
                None => None,
            },
            None => None,
        }
    };
    match mid {
        Some((_, d2)) => {
            lemma_ren_dlvector(t.pass_events, d2);
            match spec_write_dlvector(t.pass_events, d2) {
                Some((_, d3)) => lemma_keeps_trans(d, d2, d3),
                None => {},
            }
        },
        None => {},
    }
}


/// Writing a reference, with everything it holds, keeps the renumbering
/// exact and every new id given before; the reference itself is written as
/// its new id (the one given before, or else `current_max_id + 1`), after
/// its type when `type_id` is `0`.
pub proof fn law_write_reference_renumbering(r: SpecReference, type_id: u16, d: SpecImportantData)
    requires
        renumbering_exact(d),
    ensures
        spec_write_reference(r, type_id, d) matches Some((bytes, d2)) ==> {
            let n: u32 = if d.old_new_id.contains_key(r.id) { d.old_new_id[r.id] } else { (d.current_max_id + 1) as u32 };
            let head = if type_id == 0 { be16(r.ref_type as int) + be32(n as int) } else { be32(n as int) };
            &&& renumbering_exact(d2)
            &&& keeps_ids(d, d2)
            &&& d2.old_new_id.contains_key(r.id) && d2.old_new_id[r.id] == n
            &&& head.len() <= bytes.len() && bytes.subrange(0, head.len() as int) == head
        },
{
    lemma_ren_reference(r, type_id, d);
    reveal(spec_write_reference);
    reveal(spec_write_value);
    reveal(spec_write_refs);
    reveal(spec_write_dlvector);
    reveal(spec_write_map);
    reveal(spec_write_state);
    reveal(spec_write_transition);
    law_renumbering_step(r.id, d);
    match spec_write_reference(r, type_id, d) {
        Some((bytes, d2)) => {
            let (n, d1) = spec_new_id(r.id, d)->0;
            let pre = if type_id == 0 { be16(r.ref_type as int) } else { Seq::<u8>::empty() };
            let head = pre + be32(n as int);
            assert(bytes.subrange(0, head.len() as int) =~= head);
            if type_id != 0 {
                assert(head =~= be32(n as int));
            }
        },
        None => {},
    }
}


/// Writing a whole file from an exact renumbering (such as the empty one
/// that writing starts from) leaves it exact: the new ids are `1, 2, ...`,
/// each given to one old id.
pub proof fn law_write_esd_renumbering(
    h: crate::types::structs::SpecHeader,
    p: crate::types::structs::SpecProject,
    unkx00: u64,
    state_refs: Option<Seq<SpecReference>>,
    d: SpecImportantData,
)
    requires
        renumbering_exact(d),
    ensures
        crate::types::compile::write_spec::spec_write_esd(h, p, unkx00, state_refs, d) matches Some((_, d2))
            ==> renumbering_exact(d2) && keeps_ids(d, d2),
{
    lemma_ren_dlvector(p.maps, d);
    match crate::types::compile::write_spec::spec_write_project(p, d) {
        Some((_, d1)) => {
            match state_refs {
                Some(refs) => {
                    lemma_ren_refs(refs, refs.len(), 0, d1);
                    match spec_write_refs(refs, refs.len(), 0, d1) {
                        Some((_, d2)) => lemma_keeps_trans(d, d1, d2),
                        None => {},
                    }
                },
                None => {},
            }
        },
        None => {},
    }
}

} // verus!
