//! Properties of the bookkeeping that compiling keeps: the transition ids
//! and their targets stay in step, and the tables that share one id between
//! equal conditions or equal events hold each key once.
use vstd::prelude::*;
use crate::types::compile::tree_spec::{
    compile_state, compile_transition, event_ref, find_event, find_transition, pass_loop, section_flags,
    state_loop, transition_ref, StateAcc,
};
use crate::types::structs::{SpecReference, SpecRefValue};
use crate::utils::important_comp_data::{SpecCompData, next_id_data};

verus! {

/// Whether the transition id `id` is recorded with the target `target`.
pub open spec fn recorded(c: SpecCompData, id: u32, target: u32) -> bool {
    exists|i: int| 0 <= i < c.transition_ids.len() && #[trigger] c.transition_ids[i] == id && c.state_ref_order[i]
        == target
}

/// Whether the bookkeeping of compiling is sound: one target per recorded
/// transition id and no id twice; no id above the highest given; every
/// shared condition recorded with its target; and each condition key
/// (bytes and target) and each event key (event id and arguments) at most
/// once in its table.
pub open spec fn comp_ok(c: SpecCompData) -> bool {
    &&& c.state_ref_order.len() == c.transition_ids.len()
    &&& c.transition_ids.no_duplicates()
    &&& forall|i: int| 0 <= i < c.transition_ids.len() ==> #[trigger] c.transition_ids[i] <= c.highest_id
    &&& forall|j: int| 0 <= j < c.cond_trans.len() ==> #[trigger] c.cond_trans[j].2 <= c.highest_id && recorded(
        c,
        c.cond_trans[j].2,
        c.cond_trans[j].1,
    )
    &&& forall|j1: int, j2: int| 0 <= j1 < j2 < c.cond_trans.len() ==> (#[trigger] c.cond_trans[j1]).0 != (
    #[trigger] c.cond_trans[j2]).0 || c.cond_trans[j1].1 != c.cond_trans[j2].1
    &&& forall|j1: int, j2: int| 0 <= j1 < j2 < c.event_ids.len() ==> (#[trigger] c.event_ids[j1]).0 != (
    #[trigger] c.event_ids[j2]).0 || c.event_ids[j1].1 != c.event_ids[j2].1
}

/// Whether `c2` keeps every transition id of `c` and no id went down.
pub open spec fn grows(c: SpecCompData, c2: SpecCompData) -> bool {
    &&& c.highest_id <= c2.highest_id
    &&& forall|x: u32| c.transition_ids.contains(x) ==> #[trigger] c2.transition_ids.contains(x)
}

/// Before anything is compiled the bookkeeping is sound.
pub proof fn law_bookkeeping_starts_ok(c: SpecCompData)
    requires
        c.cond_trans.len() == 0,
        c.event_ids.len() == 0,
        c.transition_ids.len() == 0,
        c.state_ref_order.len() == 0,
    ensures
        comp_ok(c),
{
    assert(c.transition_ids.no_duplicates());
}

/// What looking up a condition key finds.
proof fn lemma_find_transition(list: Seq<(Seq<u8>, u32, u32)>, data: Seq<u8>, target: u32)
    ensures
        find_transition(list, data, target) is None ==> forall|j: int| 0 <= j < list.len() ==> !(
        #[trigger] list[j].0 == data && list[j].1 == target),
        find_transition(list, data, target) matches Some(id) ==> exists|j: int| 0 <= j < list.len() && #[trigger] list[j]
            == (data, target, id),
    decreases list.len(),
{
    if list.len() > 0 && !(list[0].0 == data && list[0].1 == target) {
        lemma_find_transition(list.drop_first(), data, target);
        if find_transition(list, data, target) is None {
            assert forall|j: int| 0 <= j < list.len() implies !(#[trigger] list[j].0 == data && list[j].1 == target) by {
                if j > 0 {
                    assert(list[j] == list.drop_first()[j - 1]);
                }
            }
        } else {
            let id = find_transition(list, data, target)->0;
            let j = choose|j: int| 0 <= j < list.drop_first().len() && #[trigger] list.drop_first()[j] == (data, target, id);
            assert(list[j + 1] == (data, target, id));
        }
    } else if list.len() > 0 {
        assert(list[0] == (data, target, list[0].2));
    }
}

/// What looking up an event key finds.
proof fn lemma_find_event(list: Seq<(u32, Seq<Seq<u8>>, u32)>, event_id: u32, datas: Seq<Seq<u8>>)
    ensures
        find_event(list, event_id, datas) is None ==> forall|j: int| 0 <= j < list.len() ==> !(
        #[trigger] list[j].0 == event_id && list[j].1 == datas),
    decreases list.len(),
{
    if list.len() > 0 && !(list[0].0 == event_id && list[0].1 == datas) {
        lemma_find_event(list.drop_first(), event_id, datas);
        if find_event(list, event_id, datas) is None {
            assert forall|j: int| 0 <= j < list.len() implies !(#[trigger] list[j].0 == event_id && list[j].1 == datas) by {
                if j > 0 {
                    assert(list[j] == list.drop_first()[j - 1]);
                }
            }
        }
    }
}


/// Growing is transitive.
proof fn lemma_grows_trans(c1: SpecCompData, c2: SpecCompData, c3: SpecCompData)
    requires
        grows(c1, c2),
        grows(c2, c3),
    ensures
        grows(c1, c3),
{
    assert forall|x: u32| c1.transition_ids.contains(x) implies #[trigger] c3.transition_ids.contains(x) by {
        assert(c2.transition_ids.contains(x));
    }
}

/// Every state grows from itself.
proof fn lemma_grows_self(c: SpecCompData)
    ensures
        grows(c, c),
{
}

/// Taking the next id keeps the bookkeeping sound.
proof fn lemma_next_id_ok(c: SpecCompData)
    requires
        comp_ok(c),
        c.highest_id < u32::MAX,
    ensures
        comp_ok(next_id_data(c)),
        grows(c, next_id_data(c)),
{
    let c2 = next_id_data(c);
    assert forall|j: int| 0 <= j < c2.cond_trans.len() implies #[trigger] c2.cond_trans[j].2 <= c2.highest_id && recorded(
        c2,
        c2.cond_trans[j].2,
        c2.cond_trans[j].1,
    ) by {
        assert(recorded(c, c.cond_trans[j].2, c.cond_trans[j].1));
        let i = choose|i: int| 0 <= i < c.transition_ids.len() && #[trigger] c.transition_ids[i] == c.cond_trans[j].2
            && c.state_ref_order[i] == c.cond_trans[j].1;
        assert(c2.transition_ids[i] == c2.cond_trans[j].2);
    }
}

/// Making an event's reference keeps the bookkeeping sound.
proof fn lemma_event_ref_ok(e: crate::types::structs::SpecEvent, c: SpecCompData)
    requires
        comp_ok(c),
    ensures
        event_ref(e, c) matches Some((_, c2)) ==> comp_ok(c2) && grows(c, c2) && c2.transition_ids == c.transition_ids,
{
    let datas = match e.arg_buffers {
        Some(b) => b.map_values(|x: crate::types::structs::SpecBuffer| x.data),
        None => seq![],
    };
    lemma_find_event(c.event_ids, e.event_id, datas);
    match event_ref(e, c) {
        Some((_, c2)) => {
            if c2 != c {
                let key = (e.event_id, datas, c2.highest_id);
                assert(c2.event_ids == c.event_ids.push(key));
                assert forall|j1: int, j2: int| 0 <= j1 < j2 < c2.event_ids.len() implies (#[trigger] c2.event_ids[j1]).0
                    != (#[trigger] c2.event_ids[j2]).0 || c2.event_ids[j1].1 != c2.event_ids[j2].1 by {
                    if j2 == c.event_ids.len() {
                        assert(c2.event_ids[j1] == c.event_ids[j1]);
                    } else {
                        assert(c2.event_ids[j1] == c.event_ids[j1]);
                        assert(c2.event_ids[j2] == c.event_ids[j2]);
                    }
                }
                assert forall|j: int| 0 <= j < c2.cond_trans.len() implies #[trigger] c2.cond_trans[j].2 <= c2.highest_id
                    && recorded(c2, c2.cond_trans[j].2, c2.cond_trans[j].1) by {
                    assert(recorded(c, c.cond_trans[j].2, c.cond_trans[j].1));
                    let i = choose|i: int| 0 <= i < c.transition_ids.len() && #[trigger] c.transition_ids[i]
                        == c.cond_trans[j].2 && c.state_ref_order[i] == c.cond_trans[j].1;
                    assert(c2.transition_ids[i] == c2.cond_trans[j].2);
                }
            }
        },
        None => {},
    }
}

/// Making a compiled transition's reference keeps the bookkeeping sound,
/// and its id is recorded with its target.
#[verifier::rlimit(50)]
proof fn lemma_transition_ref_ok(t: crate::types::structs::SpecTransition, target: u32, c: SpecCompData)
    requires
        comp_ok(c),
    ensures
        transition_ref(t, target, c) matches Some((r, c2)) ==> comp_ok(c2) && grows(c, c2) && r.ref_type == 5
            && c2.transition_ids.contains(r.id) && recorded(c2, r.id, target),
{
    let data = match t.cond_buffer {
        Some(b) => b.data,
        None => seq![],
    };
    lemma_find_transition(c.cond_trans, data, target);
    match find_transition(c.cond_trans, data, target) {
        Some(id) => {
            let j = choose|j: int| 0 <= j < c.cond_trans.len() && #[trigger] c.cond_trans[j] == (data, target, id);
            assert(recorded(c, c.cond_trans[j].2, c.cond_trans[j].1));
            let i = choose|i: int| 0 <= i < c.transition_ids.len() && #[trigger] c.transition_ids[i] == id
                && c.state_ref_order[i] == target;
            assert(c.transition_ids.contains(id));
        },
        None => {
            if c.highest_id < u32::MAX {
                let id = (c.highest_id + 1) as u32;
                let c1 = SpecCompData { highest_id: id, cond_trans: c.cond_trans.push((data, target, id)), ..c };
                assert(!c1.transition_ids.contains(id)) by {
                    if c1.transition_ids.contains(id) {
                        let i = choose|i: int| 0 <= i < c.transition_ids.len() && c.transition_ids[i] == id;
                        assert(c.transition_ids[i] <= c.highest_id);
                    }
                }
                let c2 = SpecCompData {
                    state_ref_order: c1.state_ref_order.push(target),
                    transition_ids: c1.transition_ids.push(id),
                    ..c1
                };
                let n = c.transition_ids.len() as int;
                assert(c2.transition_ids[n] == id && c2.state_ref_order[n] == target);
                assert(recorded(c2, id, target));
                assert(c2.transition_ids.no_duplicates()) by {
                    assert forall|a: int, b: int| 0 <= a < c2.transition_ids.len() && 0 <= b < c2.transition_ids.len() && a != b
                        implies c2.transition_ids[a] != c2.transition_ids[b] by {
                        if a == n {
                            assert(c.transition_ids[b] <= c.highest_id);
                        } else if b == n {
                            assert(c.transition_ids[a] <= c.highest_id);
                        }
                    }
                }
                assert forall|i: int| 0 <= i < c2.transition_ids.len() implies #[trigger] c2.transition_ids[i] <= c2.highest_id by {
                    if i < n {
                        assert(c2.transition_ids[i] == c.transition_ids[i]);
                    }
                }
                assert forall|j: int| 0 <= j < c2.cond_trans.len() implies #[trigger] c2.cond_trans[j].2 <= c2.highest_id
                    && recorded(c2, c2.cond_trans[j].2, c2.cond_trans[j].1) by {
                    if j < c.cond_trans.len() {
                        assert(c2.cond_trans[j] == c.cond_trans[j]);
                        assert(recorded(c, c.cond_trans[j].2, c.cond_trans[j].1));
                        let i = choose|i: int| 0 <= i < c.transition_ids.len() && #[trigger] c.transition_ids[i]
                            == c.cond_trans[j].2 && c.state_ref_order[i] == c.cond_trans[j].1;
                        assert(c2.transition_ids[i] == c.transition_ids[i]);
                        assert(c2.state_ref_order[i] == c.state_ref_order[i]);
                    }
                }
                assert forall|j1: int, j2: int| 0 <= j1 < j2 < c2.cond_trans.len() implies (#[trigger] c2.cond_trans[j1]).0
                    != (#[trigger] c2.cond_trans[j2]).0 || c2.cond_trans[j1].1 != c2.cond_trans[j2].1 by {
                    assert(c2.cond_trans[j1] == c.cond_trans[j1]);
                    if j2 < c.cond_trans.len() {
                        assert(c2.cond_trans[j2] == c.cond_trans[j2]);
                    }
                }
                assert forall|x: u32| c.transition_ids.contains(x) implies #[trigger] c2.transition_ids.contains(x) by {
                    let i = choose|i: int| 0 <= i < c.transition_ids.len() && c.transition_ids[i] == x;
                    assert(c2.transition_ids[i] == x);
                }
            }
        },
    }
}


/// Compiling pass events keeps the bookkeeping sound.
proof fn lemma_pass_loop_ok(lines: Seq<Seq<char>>, i: nat, c: SpecCompData, refs: Seq<SpecReference>)
    requires
        comp_ok(c),
    ensures
        pass_loop(lines, i, c, refs) matches Some((_, _, c2)) ==> comp_ok(c2) && grows(c, c2),
    decreases lines.len() - i,
{
    lemma_grows_self(c);
    if i < lines.len() {
        let line = lines[i as int];
        if !(crate::types::compile::tree_spec::starts_block(line) || crate::utils::strings::starts_with(line, "if"@)) {
            match crate::types::compile::event_spec::event_from_text(line, c.event_defs) {
                Some(e) => if c.highest_id != u32::MAX {
                    let id = (c.highest_id + 1) as u32;
                    lemma_next_id_ok(c);
                    let refs2 = refs.push(crate::types::compile::tree_spec::new_ref(7, id, Some(SpecRefValue::Event(e))));
                    lemma_pass_loop_ok(lines, i + 1, next_id_data(c), refs2);
                    match pass_loop(lines, i + 1, next_id_data(c), refs2) {
                        Some((_, _, c2)) => lemma_grows_trans(c, next_id_data(c), c2),
                        None => {},
                    }
                },
                None => {},
            }
        }
    }
}

/// Compiling a transition keeps the bookkeeping sound.
proof fn lemma_compile_transition_ok(line: Seq<char>, lines: Seq<Seq<char>>, i: nat, c: SpecCompData)
    requires
        comp_ok(c),
    ensures
        compile_transition(line, lines, i, c) matches Some((_, _, _, c2)) ==> comp_ok(c2) && grows(c, c2),
{
    lemma_grows_self(c);
    if i + 1 < lines.len() {
        lemma_pass_loop_ok(lines, i + 2, c, seq![]);
    }
}

/// Whether the transitions gathered so far are references of type `5` to
/// recorded transition ids.
pub open spec fn acc_ok(acc: StateAcc, c: SpecCompData) -> bool {
    forall|k: int| 0 <= k < acc.transitions.len() ==> (#[trigger] acc.transitions[k]).ref_type == 5
        && c.transition_ids.contains(acc.transitions[k].id)
}

/// Gathered transitions stay recorded as the bookkeeping grows.
proof fn lemma_acc_grows(acc: StateAcc, c: SpecCompData, c2: SpecCompData)
    requires
        acc_ok(acc, c),
        grows(c, c2),
    ensures
        acc_ok(acc, c2),
{
    assert forall|k: int| 0 <= k < acc.transitions.len() implies (#[trigger] acc.transitions[k]).ref_type == 5
        && c2.transition_ids.contains(acc.transitions[k].id) by {
        assert(c.transition_ids.contains(acc.transitions[k].id));
    }
}

/// Compiling the body of a state keeps the bookkeeping sound, and every
/// transition it gathers is a reference of type `5` to a recorded id.
proof fn lemma_state_loop_ok(lines: Seq<Seq<char>>, i: nat, c: SpecCompData, acc: StateAcc)
    requires
        comp_ok(c),
        acc_ok(acc, c),
    ensures
        state_loop(lines, i, c, acc) matches Some((acc2, _, c2)) ==> comp_ok(c2) && grows(c, c2) && acc_ok(acc2, c2),
    decreases lines.len() - i,
{
    lemma_grows_self(c);
    if i < lines.len() {
        let line = lines[i as int];
        let i1 = i + 1;
        let acc1 = section_flags(acc, line);
        assert(acc1.transitions == acc.transitions);
        if crate::types::compile::tree_spec::starts_block(line) {
        } else if (crate::utils::strings::contains_text(line, "("@) || crate::utils::strings::contains_text(line, "if"@))
            && (acc1.entry || acc1.exit) {
            match crate::types::compile::event_spec::event_from_text(line, c.event_defs) {
                Some(e) => {
                    lemma_event_ref_ok(e, c);
                    match event_ref(e, c) {
                        Some((r, c2)) => {
                            let acc2 = if acc1.entry {
                                StateAcc { entry_events: acc1.entry_events.push(r), ..acc1 }
                            } else {
                                StateAcc { exit_events: acc1.exit_events.push(r), ..acc1 }
                            };
                            lemma_acc_grows(acc, c, c2);
                            lemma_state_loop_ok(lines, i1, c2, acc2);
                            match state_loop(lines, i1, c2, acc2) {
                                Some((_, _, c3)) => lemma_grows_trans(c, c2, c3),
                                None => {},
                            }
                        },
                        None => {},
                    }
                },
                None => {},
            }
        } else if (crate::utils::strings::contains_text(line, "("@) || crate::utils::strings::contains_text(line, "if"@))
            && acc1.trans {
            if c.transition_count != u32::MAX {
                let c1 = SpecCompData { transition_count: (c.transition_count + 1) as u32, ..c };
                assert(comp_ok(c1)) by {
                    assert forall|j: int| 0 <= j < c1.cond_trans.len() implies #[trigger] c1.cond_trans[j].2 <= c1.highest_id
                        && recorded(c1, c1.cond_trans[j].2, c1.cond_trans[j].1) by {
                        assert(recorded(c, c.cond_trans[j].2, c.cond_trans[j].1));
                        let w = choose|w: int| 0 <= w < c.transition_ids.len() && #[trigger] c.transition_ids[w]
                            == c.cond_trans[j].2 && c.state_ref_order[w] == c.cond_trans[j].1;
                        assert(c1.transition_ids[w] == c1.cond_trans[j].2);
                    }
                }
                assert(grows(c, c1));
                lemma_compile_transition_ok(line, lines, i1, c1);
                match compile_transition(line, lines, i1, c1) {
                    Some((t, target, i2, c2)) => {
                        lemma_transition_ref_ok(t, target, c2);
                        match transition_ref(t, target, c2) {
                            Some((r, c3)) => {
                                lemma_grows_trans(c, c1, c2);
                                lemma_grows_trans(c, c2, c3);
                                let acc2 = StateAcc { transitions: acc1.transitions.push(r), ..acc1 };
                                lemma_acc_grows(acc, c, c3);
                                assert(acc_ok(acc2, c3)) by {
                                    assert forall|k: int| 0 <= k < acc2.transitions.len() implies (#[trigger] acc2.transitions[k]).ref_type
                                        == 5 && c3.transition_ids.contains(acc2.transitions[k].id) by {
                                        if k < acc.transitions.len() {
                                            assert(acc2.transitions[k] == acc.transitions[k]);
                                        }
                                    }
                                }
                                if i2 < lines.len() {
                                    crate::types::compile::tree_spec::lemma_transition_advances(line, lines, i1, c1);
                                    lemma_state_loop_ok(lines, i2, c3, acc2);
                                    match state_loop(lines, i2, c3, acc2) {
                                        Some((_, _, c4)) => lemma_grows_trans(c, c3, c4),
                                        None => {},
                                    }
                                }
                            },
                            None => {},
                        }
                    },
                    None => {},
                }
            }
        } else {
            lemma_state_loop_ok(lines, i1, c, acc1);
        }
    }
}

/// Whether the transitions gathered so far follow the first-use rule from
/// the bookkeeping `c0`: the recorded ids are those of `c0` and those of the
/// gathered transitions, and a transition holds its value exactly when its
/// id was neither recorded in `c0` nor taken by an earlier one.
pub open spec fn first_use(acc: StateAcc, c0: SpecCompData, c: SpecCompData) -> bool {
    &&& forall|x: u32| #[trigger] c.transition_ids.contains(x) <==> (c0.transition_ids.contains(x) || exists|k: int|
        0 <= k < acc.transitions.len() && (#[trigger] acc.transitions[k]).id == x)
    &&& forall|k: int| 0 <= k < acc.transitions.len() ==> ((#[trigger] acc.transitions[k]).value is Some <==> (
    !c0.transition_ids.contains(acc.transitions[k].id) && forall|j: int| 0 <= j < k ==> acc.transitions[j].id
        != acc.transitions[k].id))
}

/// What making a transition's reference does to the recorded ids.
proof fn lemma_transition_ref_ids(t: crate::types::structs::SpecTransition, target: u32, c: SpecCompData)
    ensures
        transition_ref(t, target, c) matches Some((r, c2)) ==> (r.value is Some <==> !c.transition_ids.contains(r.id))
            && c2.transition_ids == (if r.value is Some { c.transition_ids.push(r.id) } else { c.transition_ids })
            && c2.transition_count == c.transition_count,
{
}

/// Compiling pass events leaves the recorded ids and the transition count.
proof fn lemma_pass_loop_ids(lines: Seq<Seq<char>>, i: nat, c: SpecCompData, refs: Seq<SpecReference>)
    ensures
        pass_loop(lines, i, c, refs) matches Some((_, _, c2)) ==> c2.transition_ids == c.transition_ids
            && c2.transition_count == c.transition_count,
    decreases lines.len() - i,
{
    if i < lines.len() {
        let line = lines[i as int];
        if !(crate::types::compile::tree_spec::starts_block(line) || crate::utils::strings::starts_with(line, "if"@)) {
            match crate::types::compile::event_spec::event_from_text(line, c.event_defs) {
                Some(e) => if c.highest_id != u32::MAX {
                    let id = (c.highest_id + 1) as u32;
                    let refs2 = refs.push(crate::types::compile::tree_spec::new_ref(7, id, Some(SpecRefValue::Event(e))));
                    lemma_pass_loop_ids(lines, i + 1, next_id_data(c), refs2);
                },
                None => {},
            }
        }
    }
}

/// Compiling a state's body follows the first-use rule, and the transition
/// count grows by the number of transitions gathered.
proof fn lemma_state_loop_first(lines: Seq<Seq<char>>, i: nat, c: SpecCompData, acc: StateAcc, c0: SpecCompData)
    requires
        first_use(acc, c0, c),
    ensures
        state_loop(lines, i, c, acc) matches Some((acc2, _, c2)) ==> first_use(acc2, c0, c2) && c2.transition_count
            == c.transition_count + acc2.transitions.len() - acc.transitions.len() && acc.transitions.len()
            <= acc2.transitions.len(),
    decreases lines.len() - i,
{
    if i < lines.len() {
        let line = lines[i as int];
        let i1 = i + 1;
        let acc1 = section_flags(acc, line);
        assert(acc1.transitions == acc.transitions);
        if crate::types::compile::tree_spec::starts_block(line) {
        } else if (crate::utils::strings::contains_text(line, "("@) || crate::utils::strings::contains_text(line, "if"@))
            && (acc1.entry || acc1.exit) {
            match crate::types::compile::event_spec::event_from_text(line, c.event_defs) {
                Some(e) => {
                    match event_ref(e, c) {
                        Some((r, c2)) => {
                            let acc2 = if acc1.entry {
                                StateAcc { entry_events: acc1.entry_events.push(r), ..acc1 }
                            } else {
                                StateAcc { exit_events: acc1.exit_events.push(r), ..acc1 }
                            };
                            assert(c2.transition_ids == c.transition_ids);
                            assert(first_use(acc2, c0, c2));
                            lemma_state_loop_first(lines, i1, c2, acc2, c0);
                        },
                        None => {},
                    }
                },
                None => {},
            }
        } else if (crate::utils::strings::contains_text(line, "("@) || crate::utils::strings::contains_text(line, "if"@))
            && acc1.trans {
            if c.transition_count != u32::MAX {
                let c1 = SpecCompData { transition_count: (c.transition_count + 1) as u32, ..c };
                if i1 + 1 < lines.len() {
                    lemma_pass_loop_ids(lines, i1 + 2, c1, seq![]);
                }
                match compile_transition(line, lines, i1, c1) {
                    Some((t, target, i2, c2)) => {
                        assert(c2.transition_ids == c.transition_ids && c2.transition_count == c.transition_count + 1);
                        lemma_transition_ref_ids(t, target, c2);
                        match transition_ref(t, target, c2) {
                            Some((r, c3)) => {
                                let acc2 = StateAcc { transitions: acc1.transitions.push(r), ..acc1 };
                                let n = acc.transitions.len() as int;
                                assert(acc2.transitions[n] == r);
                                assert forall|k: int| 0 <= k < n implies acc2.transitions[k] == acc.transitions[k] by {}
                                assert forall|x: u32| #[trigger] c3.transition_ids.contains(x) <==> (c0.transition_ids.contains(x)
                                    || exists|k: int| 0 <= k < acc2.transitions.len() && (#[trigger] acc2.transitions[k]).id == x) by {
                                    if c3.transition_ids.contains(x) {
                                        if x == r.id {
                                            assert(acc2.transitions[n].id == x);
                                        } else {
                                            if r.value is Some {
                                                let w = choose|w: int| 0 <= w < c3.transition_ids.len() && c3.transition_ids[w] == x;
                                                assert(w < c.transition_ids.len());
                                                assert(c.transition_ids[w] == x);
                                            }
                                            assert(c.transition_ids.contains(x));
                                            if !c0.transition_ids.contains(x) {
                                                let k = choose|k: int| 0 <= k < acc.transitions.len() && (#[trigger] acc.transitions[k]).id == x;
                                                assert(acc2.transitions[k].id == x);
                                            }
                                        }
                                    } else {
                                        assert(!c.transition_ids.contains(x)) by {
                                            if c.transition_ids.contains(x) {
                                                let w = choose|w: int| 0 <= w < c.transition_ids.len() && c.transition_ids[w] == x;
                                                assert(c3.transition_ids[w] == x);
                                            }
                                        }
                                        if r.value is None {
                                            assert(x != r.id);
                                        } else {
                                            assert(c3.transition_ids[c.transition_ids.len() as int] == r.id);
                                            assert(x != r.id);
                                        }
                                        assert forall|k: int| 0 <= k < acc2.transitions.len() implies (#[trigger] acc2.transitions[k]).id != x by {
                                            if k < n {
                                                assert(acc2.transitions[k] == acc.transitions[k]);
                                            }
                                        }
                                    }
                                }
                                assert forall|k: int| 0 <= k < acc2.transitions.len() implies ((#[trigger] acc2.transitions[k]).value is Some <==> (
                                    !c0.transition_ids.contains(acc2.transitions[k].id) && forall|j: int| 0 <= j < k ==> acc2.transitions[j].id
                                        != acc2.transitions[k].id)) by {
                                    if k < n {
                                        assert(acc2.transitions[k] == acc.transitions[k]);
                                        assert forall|j: int| 0 <= j < k implies acc2.transitions[j] == acc.transitions[j] by {}
                                    } else {
                                        assert(k == n);
                                        if c.transition_ids.contains(r.id) {
                                            if !c0.transition_ids.contains(r.id) {
                                                let j = choose|j: int| 0 <= j < acc.transitions.len() && (#[trigger] acc.transitions[j]).id == r.id;
                                                assert(acc2.transitions[j].id == r.id);
                                            }
                                        } else {
                                            assert(!c0.transition_ids.contains(r.id));
                                            assert forall|j: int| 0 <= j < k implies acc2.transitions[j].id != acc2.transitions[k].id by {
                                                assert(acc2.transitions[j] == acc.transitions[j]);
                                            }
                                        }
                                    }
                                }
                                if i2 < lines.len() {
                                    crate::types::compile::tree_spec::lemma_transition_advances(line, lines, i1, c1);
                                    lemma_state_loop_first(lines, i2, c3, acc2, c0);
                                }
                            },
                            None => {},
                        }
                    },
                    None => {},
                }
            }
        } else {
            lemma_state_loop_first(lines, i1, c, acc1, c0);
        }
    }
}

/// Compiling a state keeps the bookkeeping of compiling sound (one target
/// per recorded transition id, no id twice, every shared condition recorded
/// with its target, each condition key and each event key once), keeps every
/// transition id recorded before, and each of its transitions is a
/// reference of type `5` to a recorded transition id, which holds its
/// transition exactly when its id was not recorded before and no earlier
/// transition of the state has it; the transition count grows by the number
/// of transitions.
pub proof fn law_state_bookkeeping(lines: Seq<Seq<char>>, i: nat, state_idx: u32, c: SpecCompData)
    requires
        comp_ok(c),
    ensures
        compile_state(lines, i, state_idx, c) matches Some((st, _, c2)) ==> {
            &&& comp_ok(c2)
            &&& grows(c, c2)
            &&& forall|k: int| 0 <= k < st.transitions.references.len() ==> (
            #[trigger] st.transitions.references[k]).ref_type == 5 && c2.transition_ids.contains(
                st.transitions.references[k].id,
            )
            &&& forall|k: int| 0 <= k < st.transitions.references.len() ==> ((
            #[trigger] st.transitions.references[k]).value is Some <==> (!c.transition_ids.contains(
                st.transitions.references[k].id,
            ) && forall|j: int| 0 <= j < k ==> st.transitions.references[j].id != st.transitions.references[k].id))
            &&& c2.transition_count == c.transition_count + st.transitions.references.len()
        },
{
    let acc0 = StateAcc {
        entry: false,
        exit: false,
        trans: false,
        transitions: seq![],
        entry_events: seq![],
        exit_events: seq![],
    };
    lemma_state_loop_ok(lines, i, c, acc0);
    lemma_state_loop_first(lines, i, c, acc0, c);
}


/// Raising the highest id (and recording a state id) keeps the
/// bookkeeping sound.
proof fn lemma_raise_ok(c: SpecCompData, c2: SpecCompData)
    requires
        comp_ok(c),
        c.highest_id <= c2.highest_id,
        c2.cond_trans == c.cond_trans,
        c2.event_ids == c.event_ids,
        c2.transition_ids == c.transition_ids,
        c2.state_ref_order == c.state_ref_order,
    ensures
        comp_ok(c2),
        grows(c, c2),
{
    assert forall|j: int| 0 <= j < c2.cond_trans.len() implies #[trigger] c2.cond_trans[j].2 <= c2.highest_id && recorded(
        c2,
        c2.cond_trans[j].2,
        c2.cond_trans[j].1,
    ) by {
        assert(recorded(c, c.cond_trans[j].2, c.cond_trans[j].1));
        let w = choose|w: int| 0 <= w < c.transition_ids.len() && #[trigger] c.transition_ids[w] == c.cond_trans[j].2
            && c.state_ref_order[w] == c.cond_trans[j].1;
        assert(c2.transition_ids[w] == c2.cond_trans[j].2);
    }
}

/// Compiling the states of a map keeps the bookkeeping sound.
proof fn lemma_map_loop_ok(
    lines: Seq<Seq<char>>,
    i: nat,
    c: SpecCompData,
    initial: SpecReference,
    states: Seq<SpecReference>,
)
    requires
        comp_ok(c),
    ensures
        crate::types::compile::tree_spec::map_loop(lines, i, c, initial, states) matches Some((_, _, _, c2)) ==> comp_ok(c2)
            && grows(c, c2),
    decreases lines.len() - i,
{
    lemma_grows_self(c);
    if i < lines.len() {
        let line = lines[i as int];
        let i1 = i + 1;
        let acc0 = StateAcc {
            entry: false,
            exit: false,
            trans: false,
            transitions: seq![],
            entry_events: seq![],
            exit_events: seq![],
        };
        if crate::utils::strings::starts_with(line, "defState_"@) {
            match crate::utils::strings::parse_in(
                crate::utils::strings::replace_all(
                    crate::utils::strings::replace_all(line, "defState_"@, seq![]),
                    "():"@,
                    seq![],
                ),
                0,
                u32::MAX as int,
            ) {
                Some(sidx) => {
                    crate::types::compile::tree_spec::lemma_state_loop_advances(lines, i1, c, acc0);
                    law_state_bookkeeping(lines, i1, sidx as u32, c);
                    match compile_state(lines, i1, sidx as u32, c) {
                        Some((st, i2, c2)) => if c2.highest_id != u32::MAX {
                            let id = (c2.highest_id + 1) as u32;
                            let c3 = SpecCompData {
                                highest_id: id,
                                state_ids: c2.state_ids.insert(sidx as u32, id),
                                ..c2
                            };
                            lemma_raise_ok(c2, c3);
                            lemma_grows_trans(c, c2, c3);
                            let r = crate::types::compile::tree_spec::new_ref(4, id, Some(SpecRefValue::State(st)));
                            if !crate::utils::strings::starts_with(line, "defMap_"@) && i2 < lines.len() {
                                if sidx == 0 {
                                    lemma_map_loop_ok(lines, i2, c3, r, states);
                                    match crate::types::compile::tree_spec::map_loop(lines, i2, c3, r, states) {
                                        Some((_, _, _, c4)) => lemma_grows_trans(c, c3, c4),
                                        None => {},
                                    }
                                } else {
                                    lemma_map_loop_ok(lines, i2, c3, initial, states.push(r));
                                    match crate::types::compile::tree_spec::map_loop(lines, i2, c3, initial, states.push(r)) {
                                        Some((_, _, _, c4)) => lemma_grows_trans(c, c3, c4),
                                        None => {},
                                    }
                                }
                            }
                        },
                        None => {},
                    }
                },
                None => {},
            }
        } else if !crate::utils::strings::starts_with(line, "defMap_"@) && i1 < lines.len() {
            lemma_map_loop_ok(lines, i1, c, initial, states);
        }
    }
}

/// Compiling a whole script keeps the bookkeeping of compiling sound, from
/// any sound state (such as the empty one that compiling starts from).
pub proof fn law_project_bookkeeping(lines: Seq<Seq<char>>, c: SpecCompData)
    requires
        comp_ok(c),
    ensures
        crate::types::compile::tree_spec::compile_project(lines, c) matches Some((_, c2)) ==> comp_ok(c2) && grows(c, c2),
{
    lemma_project_loop_ok(lines, 0, c, seq![]);
}

/// Compiling the maps from line `i` on keeps the bookkeeping sound.
proof fn lemma_project_loop_ok(lines: Seq<Seq<char>>, i: nat, c: SpecCompData, maps: Seq<SpecReference>)
    requires
        comp_ok(c),
    ensures
        crate::types::compile::tree_spec::project_loop(lines, i, c, maps) matches Some((_, c2)) ==> comp_ok(c2) && grows(
            c,
            c2,
        ),
    decreases lines.len() - i,
{
    lemma_grows_self(c);
    if i < lines.len() {
        let line = lines[i as int];
        let i1 = i + 1;
        if crate::utils::strings::starts_with(line, "defMap_"@) {
            match crate::utils::strings::parse_in(
                crate::utils::strings::replace_all(crate::utils::strings::replace_all(line, "defMap_"@, seq![]), "():"@, seq![]),
                0,
                u32::MAX as int,
            ) {
                Some(midx) => {
                    lemma_map_loop_ok(lines, i1, c, crate::types::compile::tree_spec::new_ref(0, 0, None), seq![]);
                    crate::types::compile::tree_spec::lemma_map_loop_advances(
                        lines,
                        i1,
                        c,
                        crate::types::compile::tree_spec::new_ref(0, 0, None),
                        seq![],
                    );
                    match crate::types::compile::tree_spec::compile_map(lines, i1, midx as u32, c) {
                        Some((m, i2, c2)) => if c2.highest_id != u32::MAX {
                            lemma_next_id_ok(c2);
                            lemma_grows_trans(c, c2, next_id_data(c2));
                            let id = (c2.highest_id + 1) as u32;
                            let ms = maps.push(
                                crate::types::compile::tree_spec::new_ref(
                                    3,
                                    id,
                                    Some(SpecRefValue::EsdMap(m)),
                                ),
                            );
                            if i2 < lines.len() {
                                lemma_project_loop_ok(lines, i2, next_id_data(c2), ms);
                                match crate::types::compile::tree_spec::project_loop(lines, i2, next_id_data(c2), ms) {
                                    Some((_, c3)) => lemma_grows_trans(c, next_id_data(c2), c3),
                                    None => {},
                                }
                            }
                        },
                        None => {},
                    }
                },
                None => {},
            }
        } else if i1 < lines.len() {
            lemma_project_loop_ok(lines, i1, c, maps);
        }
    }
}

} // verus!
