//! Properties of linking transitions to their target states when a file is
//! read: the state reference at a transition's position names its target.
use vstd::prelude::*;
use crate::dlse_esd::{link_entry, link_inner, link_outer, spec_read_esd};
use crate::types::decompile::read_spec::ids_distinct;
use crate::types::structs::{SpecRefValue, SpecReference, SpecState};

verus! {

/// Once linking fails it stays failed.
proof fn lemma_inner_none(data: Map<u32, SpecRefValue>, sref: SpecReference, idx: int, l: Seq<(u32, usize)>, j: nat)
    requires
        j <= l.len(),
    ensures
        link_inner(None, data, sref, idx, l, j) is None,
    decreases j,
{
    if j > 0 {
        lemma_inner_none(data, sref, idx, l, (j - 1) as nat);
    }
}

/// Linking the state reference at position `idx` keeps what is recorded
/// for a transition id that no entry at that position names.
proof fn lemma_inner_keeps(
    m: Map<u32, u32>,
    data: Map<u32, SpecRefValue>,
    sref: SpecReference,
    idx: int,
    l: Seq<(u32, usize)>,
    j: nat,
    t: u32,
)
    requires
        j <= l.len(),
        forall|q: int| 0 <= q < j && l[q].1 == idx ==> #[trigger] l[q].0 != t,
    ensures
        link_inner(Some(m), data, sref, idx, l, j) matches Some(m2) ==> (m.contains_key(t) ==> m2.contains_key(t)
            && m2[t] == m[t]),
    decreases j,
{
    if j > 0 {
        lemma_inner_keeps(m, data, sref, idx, l, (j - 1) as nat, t);
        match link_inner(Some(m), data, sref, idx, l, (j - 1) as nat) {
            Some(m1) => {
                if l[j - 1].1 == idx {
                    assert(l[j - 1].0 != t);
                }
            },
            None => {},
        }
    }
}

/// Linking the state reference at position `idx`, when the entry at `q`
/// names transition `t` at that position and no other entry names `t`,
/// records the state's index for `t`.
proof fn lemma_inner_sets(
    m: Map<u32, u32>,
    data: Map<u32, SpecRefValue>,
    sref: SpecReference,
    idx: int,
    l: Seq<(u32, usize)>,
    j: nat,
    q: int,
    s: SpecState,
)
    requires
        j <= l.len(),
        0 <= q < j,
        l[q].1 == idx,
        ids_distinct(l),
        data.contains_key(sref.id),
        data[sref.id] == SpecRefValue::State(s),
    ensures
        link_inner(Some(m), data, sref, idx, l, j) matches Some(m2) ==> m2.contains_key(l[q].0) && m2[l[q].0]
            == s.state_index,
    decreases j,
{
    if j == q + 1 {
        match link_inner(Some(m), data, sref, idx, l, q as nat) {
            Some(m1) => {},
            None => {},
        }
    } else {
        lemma_inner_sets(m, data, sref, idx, l, (j - 1) as nat, q, s);
        match link_inner(Some(m), data, sref, idx, l, (j - 1) as nat) {
            Some(m1) => {
                assert(l[q].0 != l[j - 1].0);
            },
            None => {
                lemma_inner_none(data, sref, idx, l, j);
                assert(link_inner(None, data, sref, idx, l, 0) is None);
            },
        }
    }
}

/// Linking the first `i` state references records, for each transition id
/// `t` at a position `k` below `i` whose state reference stores a state,
/// that state's index.
proof fn lemma_outer_sets(
    m: Map<u32, u32>,
    data: Map<u32, SpecRefValue>,
    srefs: Seq<SpecReference>,
    l: Seq<(u32, usize)>,
    i: nat,
    q: int,
    s: SpecState,
)
    requires
        i <= srefs.len(),
        ids_distinct(l),
        0 <= q < l.len(),
        l[q].1 < i,
        data.contains_key(srefs[l[q].1 as int].id),
        data[srefs[l[q].1 as int].id] == SpecRefValue::State(s),
    ensures
        link_outer(m, data, srefs, l, i) matches Some(m2) ==> m2.contains_key(l[q].0) && m2[l[q].0] == s.state_index,
    decreases i,
{
    let k = l[q].1 as int;
    match link_outer(m, data, srefs, l, (i - 1) as nat) {
        Some(m1) => {
            if k == i - 1 {
                lemma_inner_sets(m1, data, srefs[i - 1], i - 1, l, l.len(), q, s);
            } else {
                lemma_outer_sets(m, data, srefs, l, (i - 1) as nat, q, s);
                assert forall|p: int| 0 <= p < l.len() && l[p].1 == i - 1 implies #[trigger] l[p].0 != l[q].0 by {
                    if l[p].0 == l[q].0 {
                        assert(p != q);
                        if p < q {
                            assert(l[p].0 != l[q].0);
                        } else {
                            assert(l[q].0 != l[p].0);
                        }
                    }
                }
                lemma_inner_keeps(m1, data, srefs[i - 1], i - 1, l, l.len(), l[q].0);
            }
        },
        None => {
            lemma_inner_none(data, srefs[i - 1], i - 1, l, l.len());
        },
    }
}

/// After reading a version-3 file (whose transition index list names each
/// transition once), every transition whose position in the transition
/// lists is `k`, where the state reference at position `k` stores a state,
/// has that state's index recorded as its target.
pub proof fn law_read_links_targets(b: Seq<u8>, fj: Seq<char>, ej: Seq<char>, q: int, s: SpecState)
    ensures
        spec_read_esd(b, fj, ej) matches Some(x) ==> (x.state_refs matches Some(refs) ==> {
            let d = x.important_data;
            (ids_distinct(d.trans_id_idx) && 0 <= q < d.trans_id_idx.len() && d.trans_id_idx[q].1 < refs.len()
                && d.ref_data.contains_key(refs[d.trans_id_idx[q].1 as int].id) && d.ref_data[refs[d.trans_id_idx[q].1 as int].id]
                == SpecRefValue::State(s)) ==> d.trans_id_state_idx.contains_key(d.trans_id_idx[q].0)
                && d.trans_id_state_idx[d.trans_id_idx[q].0] == s.state_index
        }),
{
    match spec_read_esd(b, fj, ej) {
        Some(x) => match x.state_refs {
            Some(refs) => {
                let d = x.important_data;
                if ids_distinct(d.trans_id_idx) && 0 <= q < d.trans_id_idx.len() && d.trans_id_idx[q].1 < refs.len()
                    && d.ref_data.contains_key(refs[d.trans_id_idx[q].1 as int].id)
                    && d.ref_data[refs[d.trans_id_idx[q].1 as int].id] == SpecRefValue::State(s) {
                    let h = crate::types::decompile::read_spec::spec_read_header(b, 0)->0;
                    let f = crate::utils::defs::json_string_pairs(fj)->0;
                    let e = crate::utils::defs::json_string_pairs(ej)->0;
                    let pr = crate::types::decompile::read_spec::spec_read_project(
                        b,
                        h.1,
                        crate::utils::important_data::initial_data(h.0, f, e),
                    )->0;
                    let u = crate::types::decompile::read_spec::u64_field(b, pr.1)->0;
                    let p3 = u.1;
                    let tc = h.0.transition_count->0;
                    let rr = crate::types::decompile::read_spec::spec_read_refs(b, p3, tc as nat, 0, pr.2)->0;
                    let d2 = rr.2;
                    assert(refs == rr.0);
                    lemma_outer_sets(d2.trans_id_state_idx, d2.ref_data, refs, d2.trans_id_idx, refs.len(), q, s);
                }
            },
            None => {},
        },
        None => {},
    }
}

} // verus!
