//! Properties of writing and reading references: a reference written for
//! the first time reads back under its new id with the same object.
use vstd::prelude::*;
use crate::laws::{
    buffer_kept, evaluator_kept, law_condition_write_read, law_event_write_read, lemma_field_after_write,
    lemma_pow256_4,
};
use crate::types::compile::write_spec::{
    be16, be32, is_event_name, spec_write_buffer, spec_write_buffers, spec_write_condition,
    spec_write_evaluator, spec_write_evaluators, spec_write_event,
};
use crate::types::decompile::read_spec::{
    name_condition, name_event, name_event6, spec_read_condition, spec_read_event, uint_field,
};
use crate::types::structs::{SpecBuffer, SpecCondition, SpecEvaluator, SpecEvent};
use crate::utils::binary_writer::law_be_roundtrip;
use crate::utils::important_data::{SpecImportantData, spec_type_by_name};

verus! {

/// The condition type's name is none of the other object names.
proof fn lemma_condition_name_apart()
    ensures
        name_condition() != crate::types::decompile::read_spec::name_map(),
        name_condition() != crate::types::decompile::read_spec::name_state(),
        name_condition() != name_event(),
        name_condition() != name_event6(),
        name_condition() != crate::types::decompile::read_spec::name_transition(),
        crate::types::compile::write_spec::is_object_name(name_condition()),
{
    reveal_strlit("EzState::detail::EzStateCondition");
    reveal_strlit("EzStateMap");
    reveal_strlit("EzStateMapState");
    reveal_strlit("EzStateExternalEvent");
    reveal_strlit("EzStateExternalEventT<ES_EVENT_PARAM_NUM_6>");
    reveal_strlit("EzStateTransition");
    assert(name_condition().len() == 33);
    assert(crate::types::decompile::read_spec::name_map().len() == 10);
    assert(crate::types::decompile::read_spec::name_state().len() == 15);
    assert(name_event().len() == 20);
    assert(name_event6().len() == 43);
    assert(crate::types::decompile::read_spec::name_transition().len() == 17);
}

/// Writing a reference to a condition for the first time: its type, its
/// new id and the condition.
proof fn lemma_condition_reference_write(r: crate::types::structs::SpecReference, x: SpecCondition, d: SpecImportantData)
    requires
        r.value == Some(Box::new(crate::types::structs::SpecRefValue::Condition(x))),
        crate::utils::important_data::spec_type_name(d.type_table, r.ref_type) == Some(name_condition()),
        spec_write_condition(x, d) is Some,
        d.current_max_id < u32::MAX,
        !d.old_new_id.contains_key(r.id),
        !d.ids_holding_data.contains((d.current_max_id + 1) as u32),
    ensures
        ({
            let nid = (d.current_max_id + 1) as u32;
            crate::types::compile::write_spec::spec_write_reference(r, 0, d) matches Some((bytes, d2))
                && d2.old_new_id.contains_key(r.id) && d2.old_new_id[r.id] == nid
                && bytes == be16(r.ref_type as int) + be32(nid as int) + spec_write_condition(x, d)->0
        }),
{
    reveal(crate::types::compile::write_spec::spec_write_reference);
    reveal(crate::types::compile::write_spec::spec_write_value);
    lemma_condition_name_apart();
    let nid = (d.current_max_id + 1) as u32;
    let d1 = SpecImportantData { old_new_id: d.old_new_id.insert(r.id, nid), current_max_id: nid, ..d };
    assert(crate::types::compile::write_spec::spec_new_id(r.id, d) == Some((nid, d1)));
    let d2 = SpecImportantData { ids_holding_data: d1.ids_holding_data.push(nid), ..d1 };
    assert(spec_write_condition(x, d2) == spec_write_condition(x, d));
    assert(Seq::<u8>::empty() + be16(r.ref_type as int) =~= be16(r.ref_type as int));
}

/// Reading a reference to a condition met for the first time.
proof fn lemma_condition_reference_read(b: Seq<u8>, p: int, rt: u16, nid: u32, dr: SpecImportantData, x: SpecCondition, q: int)
    requires
        p >= 0,
        uint_field(b, p, 2) == Some((rt as nat, p + 2)),
        uint_field(b, p + 2, 4) == Some((nid as nat, p + 6)),
        !dr.ref_ids_with_data.contains(nid),
        crate::utils::important_data::spec_type_name(dr.type_table, rt) == Some(name_condition()),
        spec_read_condition(b, p + 6, crate::types::decompile::read_spec::with_id_read(dr, nid)) == Some((x, q)),
    ensures
        crate::types::decompile::read_spec::spec_read_reference(b, p, 0, dr) == Some(
            (
                crate::types::structs::SpecReference {
                    ref_type: rt,
                    id: nid,
                    value: Some(Box::new(crate::types::structs::SpecRefValue::Condition(x))),
                },
                q,
                crate::types::decompile::read_spec::with_ref_data(
                    crate::types::decompile::read_spec::with_id_read(dr, nid),
                    nid,
                    crate::types::structs::SpecRefValue::Condition(x),
                ),
            ),
        ),
{
    lemma_condition_name_apart();
    let nm = crate::utils::important_data::spec_type_name(dr.type_table, rt)->0;
    let dr1 = crate::types::decompile::read_spec::with_id_read(dr, nid);
    assert(dr1.type_table == dr.type_table);
    assert(crate::types::decompile::read_spec::spec_read_value(b, p + 6, nm, dr1) == Some(
        (crate::types::structs::SpecRefValue::Condition(x), q, dr1),
    ));
}

/// Reading the bytes of a reference to a condition: its type, its id and
/// the condition's bytes.
proof fn lemma_condition_reference_bytes(before: Seq<u8>, after: Seq<u8>, rt: u16, nid: u32, cb: Seq<u8>, dr: SpecImportantData, x: SpecCondition)
    requires
        !dr.ref_ids_with_data.contains(nid),
        crate::utils::important_data::spec_type_name(dr.type_table, rt) == Some(name_condition()),
        spec_read_condition(
            before + be16(rt as int) + be32(nid as int) + cb + after,
            (before.len() + 6) as int,
            crate::types::decompile::read_spec::with_id_read(dr, nid),
        ) == Some((x, (before.len() + 6 + cb.len()) as int)),
    ensures
        crate::types::decompile::read_spec::spec_read_reference(
            before + (be16(rt as int) + be32(nid as int) + cb) + after,
            before.len() as int,
            0,
            dr,
        ) == Some(
            (
                crate::types::structs::SpecReference {
                    ref_type: rt,
                    id: nid,
                    value: Some(Box::new(crate::types::structs::SpecRefValue::Condition(x))),
                },
                (before.len() + 6 + cb.len()) as int,
                crate::types::decompile::read_spec::with_ref_data(
                    crate::types::decompile::read_spec::with_id_read(dr, nid),
                    nid,
                    crate::types::structs::SpecRefValue::Condition(x),
                ),
            ),
        ),
{
    lemma_pow256_4();
    let t = be16(rt as int);
    let n4 = be32(nid as int);
    law_be_roundtrip(rt as nat, 2);
    law_be_roundtrip(nid as nat, 4);
    let all = before + (t + n4 + cb) + after;
    assert(all =~= before + t + n4 + cb + after);
    assert(all =~= before + t + (n4 + cb + after));
    lemma_field_after_write(before, rt as nat, 2, n4 + cb + after);
    assert(all =~= (before + t) + n4 + (cb + after));
    lemma_field_after_write(before + t, nid as nat, 4, cb + after);
    lemma_condition_reference_read(all, before.len() as int, rt, nid, dr, x, (before.len() + 6 + cb.len()) as int);
}

/// A reference to a condition, written for the first time (its old id not
/// yet renumbered, the new id not yet holding data) with its type, reads
/// back, whatever comes before and after and where the reader has not met
/// the new id, as a reference of the same type under the new id with the
/// same condition, which the reader then holds under that id: when the
/// reference's type names `EzStateCondition` and the condition is one that
/// writing and reading keep.
pub proof fn law_condition_reference_write_read(
    r: crate::types::structs::SpecReference,
    x: SpecCondition,
    d: SpecImportantData,
    dr: SpecImportantData,
    before: Seq<u8>,
    after: Seq<u8>,
)
    requires
        r.value == Some(Box::new(crate::types::structs::SpecRefValue::Condition(x))),
        crate::utils::important_data::spec_type_name(d.type_table, r.ref_type) == Some(name_condition()),
        spec_type_by_name(d.type_table, name_condition()) == Some(x.struct_type),
        x.version == 1,
        evaluator_kept(x.evaluator, d.type_table),
        d.current_max_id < u32::MAX,
        !d.old_new_id.contains_key(r.id),
        !d.ids_holding_data.contains((d.current_max_id + 1) as u32),
        dr.type_table == d.type_table,
        !dr.ref_ids_with_data.contains((d.current_max_id + 1) as u32),
    ensures
        ({
            let nid = (d.current_max_id + 1) as u32;
            crate::types::compile::write_spec::spec_write_reference(r, 0, d) matches Some((bytes, d2))
                && d2.old_new_id.contains_key(r.id) && d2.old_new_id[r.id] == nid
                && crate::types::decompile::read_spec::spec_read_reference(before + bytes + after, before.len() as int, 0, dr)
                == Some(
                (
                    crate::types::structs::SpecReference { ref_type: r.ref_type, id: nid, value: r.value },
                    (before.len() + bytes.len()) as int,
                    crate::types::decompile::read_spec::with_ref_data(
                        crate::types::decompile::read_spec::with_id_read(dr, nid),
                        nid,
                        crate::types::structs::SpecRefValue::Condition(x),
                    ),
                ),
            )
        }),
{
    let nid = (d.current_max_id + 1) as u32;
    let dr1 = crate::types::decompile::read_spec::with_id_read(dr, nid);
    assert(dr1.type_table == d.type_table);
    let t = be16(r.ref_type as int);
    let n4 = be32(nid as int);
    law_condition_write_read(x, dr1, before + t + n4, after);
    assert(spec_write_condition(x, dr1) == spec_write_condition(x, d));
    lemma_condition_reference_write(r, x, d);
    let cb = spec_write_condition(x, d)->0;
    lemma_pow256_4();
    law_be_roundtrip(r.ref_type as nat, 2);
    law_be_roundtrip(nid as nat, 4);
    assert(t.len() == 2 && n4.len() == 4);
    lemma_condition_reference_bytes(before, after, r.ref_type, nid, cb, dr, x);
}

/// Writing evaluators depends on the type table alone.
proof fn lemma_write_evaluators_table(v: Seq<SpecEvaluator>, d1: SpecImportantData, d2: SpecImportantData)
    requires
        d1.type_table == d2.type_table,
    ensures
        spec_write_evaluators(v, d1) == spec_write_evaluators(v, d2),
    decreases v.len(),
{
    if v.len() > 0 {
        lemma_write_evaluators_table(v.drop_last(), d1, d2);
        assert(spec_write_evaluator(v.last(), d1) == spec_write_evaluator(v.last(), d2));
    }
}

/// Writing buffers depends on the type table alone.
proof fn lemma_write_buffers_table(v: Seq<SpecBuffer>, d1: SpecImportantData, d2: SpecImportantData)
    requires
        d1.type_table == d2.type_table,
    ensures
        spec_write_buffers(v, d1) == spec_write_buffers(v, d2),
    decreases v.len(),
{
    if v.len() > 0 {
        lemma_write_buffers_table(v.drop_last(), d1, d2);
        assert(spec_write_buffer(v.last(), d1, crate::types::decompile::read_spec::name_buffer()) == spec_write_buffer(
            v.last(),
            d2,
            crate::types::decompile::read_spec::name_buffer(),
        ));
    }
}

/// Writing an event depends on the type table alone.
proof fn lemma_write_event_table(x: SpecEvent, d1: SpecImportantData, d2: SpecImportantData)
    requires
        d1.type_table == d2.type_table,
    ensures
        spec_write_event(x, d1) == spec_write_event(x, d2),
{
    match x.arg_evaluators {
        Some(ev) => lemma_write_evaluators_table(ev, d1, d2),
        None => {},
    }
    match x.arg_buffers {
        Some(bu) => lemma_write_buffers_table(bu, d1, d2),
        None => {},
    }
}

/// The event types' names are not those of maps and states.
proof fn lemma_event_name_apart()
    ensures
        name_event() != crate::types::decompile::read_spec::name_map(),
        name_event() != crate::types::decompile::read_spec::name_state(),
        name_event6() != crate::types::decompile::read_spec::name_map(),
        name_event6() != crate::types::decompile::read_spec::name_state(),
        crate::types::compile::write_spec::is_object_name(name_event()),
        crate::types::compile::write_spec::is_object_name(name_event6()),
{
    reveal_strlit("EzStateMap");
    reveal_strlit("EzStateMapState");
    reveal_strlit("EzStateExternalEvent");
    reveal_strlit("EzStateExternalEventT<ES_EVENT_PARAM_NUM_6>");
    assert(crate::types::decompile::read_spec::name_map().len() == 10);
    assert(crate::types::decompile::read_spec::name_state().len() == 15);
    assert(name_event().len() == 20);
    assert(name_event6().len() == 43);
}

/// Writing a reference to an event for the first time: its type, its new
/// id and the event.
proof fn lemma_event_reference_write(r: crate::types::structs::SpecReference, x: SpecEvent, d: SpecImportantData)
    requires
        r.value == Some(Box::new(crate::types::structs::SpecRefValue::Event(x))),
        crate::utils::important_data::spec_type_name(d.type_table, r.ref_type) matches Some(nm) && (nm == name_event() || nm == name_event6()),
        spec_write_event(x, d) is Some,
        d.current_max_id < u32::MAX,
        !d.old_new_id.contains_key(r.id),
        !d.ids_holding_data.contains((d.current_max_id + 1) as u32),
    ensures
        ({
            let nid = (d.current_max_id + 1) as u32;
            crate::types::compile::write_spec::spec_write_reference(r, 0, d) matches Some((bytes, d2))
                && d2.old_new_id.contains_key(r.id) && d2.old_new_id[r.id] == nid
                && bytes == be16(r.ref_type as int) + be32(nid as int) + spec_write_event(x, d)->0
        }),
{
    reveal(crate::types::compile::write_spec::spec_write_reference);
    reveal(crate::types::compile::write_spec::spec_write_value);
    lemma_event_name_apart();
    let nid = (d.current_max_id + 1) as u32;
    let d1 = SpecImportantData { old_new_id: d.old_new_id.insert(r.id, nid), current_max_id: nid, ..d };
    assert(crate::types::compile::write_spec::spec_new_id(r.id, d) == Some((nid, d1)));
    let d2 = SpecImportantData { ids_holding_data: d1.ids_holding_data.push(nid), ..d1 };
    lemma_write_event_table(x, d2, d);
    assert(Seq::<u8>::empty() + be16(r.ref_type as int) =~= be16(r.ref_type as int));
}

/// Reading a reference to an event met for the first time.
proof fn lemma_event_reference_read(b: Seq<u8>, p: int, rt: u16, nid: u32, dr: SpecImportantData, x: SpecEvent, q: int)
    requires
        p >= 0,
        uint_field(b, p, 2) == Some((rt as nat, p + 2)),
        uint_field(b, p + 2, 4) == Some((nid as nat, p + 6)),
        !dr.ref_ids_with_data.contains(nid),
        crate::utils::important_data::spec_type_name(dr.type_table, rt) matches Some(nm) && (nm == name_event() || nm
            == name_event6()),
        spec_read_event(b, p + 6, crate::types::decompile::read_spec::with_id_read(dr, nid)) == Some((x, q)),
    ensures
        crate::types::decompile::read_spec::spec_read_reference(b, p, 0, dr) == Some(
            (
                crate::types::structs::SpecReference {
                    ref_type: rt,
                    id: nid,
                    value: Some(Box::new(crate::types::structs::SpecRefValue::Event(x))),
                },
                q,
                crate::types::decompile::read_spec::with_ref_data(
                    crate::types::decompile::read_spec::with_id_read(dr, nid),
                    nid,
                    crate::types::structs::SpecRefValue::Event(x),
                ),
            ),
        ),
{
    lemma_event_name_apart();
    let nm = crate::utils::important_data::spec_type_name(dr.type_table, rt)->0;
    let dr1 = crate::types::decompile::read_spec::with_id_read(dr, nid);
    assert(dr1.type_table == dr.type_table);
    assert(crate::types::decompile::read_spec::spec_read_value(b, p + 6, nm, dr1) == Some(
        (crate::types::structs::SpecRefValue::Event(x), q, dr1),
    ));
}

/// Reading the bytes of a reference to an event: its type, its id and the
/// event's bytes.
proof fn lemma_event_reference_bytes(before: Seq<u8>, after: Seq<u8>, rt: u16, nid: u32, cb: Seq<u8>, dr: SpecImportantData, x: SpecEvent)
    requires
        !dr.ref_ids_with_data.contains(nid),
        crate::utils::important_data::spec_type_name(dr.type_table, rt) matches Some(nm) && (nm == name_event() || nm
            == name_event6()),
        spec_read_event(
            before + be16(rt as int) + be32(nid as int) + cb + after,
            (before.len() + 6) as int,
            crate::types::decompile::read_spec::with_id_read(dr, nid),
        ) == Some((x, (before.len() + 6 + cb.len()) as int)),
    ensures
        crate::types::decompile::read_spec::spec_read_reference(
            before + (be16(rt as int) + be32(nid as int) + cb) + after,
            before.len() as int,
            0,
            dr,
        ) == Some(
            (
                crate::types::structs::SpecReference {
                    ref_type: rt,
                    id: nid,
                    value: Some(Box::new(crate::types::structs::SpecRefValue::Event(x))),
                },
                (before.len() + 6 + cb.len()) as int,
                crate::types::decompile::read_spec::with_ref_data(
                    crate::types::decompile::read_spec::with_id_read(dr, nid),
                    nid,
                    crate::types::structs::SpecRefValue::Event(x),
                ),
            ),
        ),
{
    lemma_pow256_4();
    let t = be16(rt as int);
    let n4 = be32(nid as int);
    law_be_roundtrip(rt as nat, 2);
    law_be_roundtrip(nid as nat, 4);
    let all = before + (t + n4 + cb) + after;
    assert(all =~= before + t + n4 + cb + after);
    assert(all =~= before + t + (n4 + cb + after));
    lemma_field_after_write(before, rt as nat, 2, n4 + cb + after);
    assert(all =~= (before + t) + n4 + (cb + after));
    lemma_field_after_write(before + t, nid as nat, 4, cb + after);
    lemma_event_reference_read(all, before.len() as int, rt, nid, dr, x, (before.len() + 6 + cb.len()) as int);
}

/// A reference to an event, written for the first time (its old id not yet
/// renumbered, the new id not yet holding data) with its type, reads back,
/// whatever comes before and after and where the reader has not met the new
/// id, as a reference of the same type under the new id with the same event,
/// which the reader then holds under that id: when the reference's type
/// names an event type and the event is one that writing and reading keep.
pub proof fn law_event_reference_write_read(
    r: crate::types::structs::SpecReference,
    x: SpecEvent,
    d: SpecImportantData,
    dr: SpecImportantData,
    before: Seq<u8>,
    after: Seq<u8>,
)
    requires
        r.value == Some(Box::new(crate::types::structs::SpecRefValue::Event(x))),
        crate::utils::important_data::spec_type_name(d.type_table, r.ref_type) matches Some(nm) && (nm == name_event() || nm == name_event6()),
        1 <= x.struct_type <= d.type_table.len(),
        is_event_name(d.type_table[x.struct_type - 1]),
        forall|j: int| 0 <= j < x.struct_type - 1 ==> !is_event_name(#[trigger] d.type_table[j]),
        x.version == 1 || x.version == 2,
        x.version == 2 ==> x.arg_evaluators is None,
        x.version == 2 ==> (x.arg_buffers matches Some(bu) && bu.len() + 1 == x.arg_amount && forall|i: int|
            0 <= i < bu.len() ==> buffer_kept(#[trigger] bu[i], d.type_table)),
        x.version == 1 ==> x.arg_buffers is None,
        x.version == 1 ==> (x.arg_evaluators matches Some(ev) && ev.len() + 1 == x.arg_amount && forall|i: int|
            0 <= i < ev.len() ==> evaluator_kept(#[trigger] ev[i], d.type_table)),
        d.current_max_id < u32::MAX,
        !d.old_new_id.contains_key(r.id),
        !d.ids_holding_data.contains((d.current_max_id + 1) as u32),
        dr.type_table == d.type_table,
        !dr.ref_ids_with_data.contains((d.current_max_id + 1) as u32),
    ensures
        ({
            let nid = (d.current_max_id + 1) as u32;
            crate::types::compile::write_spec::spec_write_reference(r, 0, d) matches Some((bytes, d2))
                && d2.old_new_id.contains_key(r.id) && d2.old_new_id[r.id] == nid
                && crate::types::decompile::read_spec::spec_read_reference(before + bytes + after, before.len() as int, 0, dr)
                == Some(
                (
                    crate::types::structs::SpecReference { ref_type: r.ref_type, id: nid, value: r.value },
                    (before.len() + bytes.len()) as int,
                    crate::types::decompile::read_spec::with_ref_data(
                        crate::types::decompile::read_spec::with_id_read(dr, nid),
                        nid,
                        crate::types::structs::SpecRefValue::Event(x),
                    ),
                ),
            )
        }),
{
    let nid = (d.current_max_id + 1) as u32;
    let dr1 = crate::types::decompile::read_spec::with_id_read(dr, nid);
    assert(dr1.type_table == d.type_table);
    let t = be16(r.ref_type as int);
    let n4 = be32(nid as int);
    law_event_write_read(x, dr1, before + t + n4, after);
    lemma_write_event_table(x, dr1, d);
    lemma_event_reference_write(r, x, d);
    let cb = spec_write_event(x, d)->0;
    lemma_pow256_4();
    law_be_roundtrip(r.ref_type as nat, 2);
    law_be_roundtrip(nid as nat, 4);
    assert(t.len() == 2 && n4.len() == 4);
    lemma_event_reference_bytes(before, after, r.ref_type, nid, cb, dr, x);
}

} // verus!
