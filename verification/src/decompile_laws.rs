//! Properties of decompiling references: a reference decompiles the same
//! whether it holds its object or finds it stored under its id.
use vstd::prelude::*;
use crate::utils::important_data::SpecImportantData;

verus! {

/// A reference that holds an event or a condition, or an object of another
/// kind than its type names, decompiles to the same lines as the reference
/// with the same type and id that holds nothing, when that object is the
/// one stored under the id and the id is not being decompiled already.
pub proof fn law_inline_same_as_stored(
    ref_type: u16,
    id: u32,
    v: crate::types::structs::SpecRefValue,
    d: SpecImportantData,
    visited: Set<u32>,
)
    requires
        d.ref_data.dom().finite(),
        d.ref_data.contains_key(id),
        d.ref_data[id] == v,
        !visited.contains(id),
        v is Event || v is Condition || (crate::utils::important_data::spec_type_name(d.type_table, ref_type) matches Some(
            name,
        ) && !crate::types::decompile::text_spec::value_matches(v, name)),
    ensures
        crate::types::decompile::text_spec::dc_reference(
            crate::types::structs::SpecReference { ref_type, id, value: Some(Box::new(v)) },
            d,
            visited,
        ) == crate::types::decompile::text_spec::dc_reference(
            crate::types::structs::SpecReference { ref_type, id, value: None },
            d,
            visited,
        ),
{
    let r1 = crate::types::structs::SpecReference { ref_type, id, value: Some(Box::new(v)) };
    let r2 = crate::types::structs::SpecReference { ref_type, id, value: None };
    match crate::utils::important_data::spec_type_name(d.type_table, ref_type) {
        Some(name) => {
            if crate::types::compile::write_spec::is_object_name(name) {
                assert(crate::types::decompile::text_spec::dc_value(v, name, id, d, visited)
                    == crate::types::decompile::text_spec::dc_value(v, name, id, d, visited.insert(id)));
            }
        },
        None => {},
    }
}


/// Decompiling with fewer ids marked as being decompiled gives the same
/// lines, wherever decompiling with more succeeds.
proof fn lemma_dc_reference_fewer(
    r: crate::types::structs::SpecReference,
    d: SpecImportantData,
    v: Set<u32>,
    w: Set<u32>,
)
    requires
        v.subset_of(w),
    ensures
        crate::types::decompile::text_spec::dc_reference(r, d, w) matches Some(ls) ==> crate::types::decompile::text_spec::dc_reference(r, d, v) == Some(ls),
    decreases crate::types::decompile::text_spec::dc_measure(d, w), r, 1nat,
{
    if d.ref_data.dom().finite() {
        match crate::utils::important_data::spec_type_name(d.type_table, r.ref_type) {
            Some(name) => if crate::types::compile::write_spec::is_object_name(name) {
                match r.value {
                    Some(bv) => {
                        assert(decreases_to!(r => r.value));
                        lemma_dc_value_fewer(*bv, name, r.id, d, v, w);
                    },
                    None => if d.ref_data.contains_key(r.id) && crate::types::decompile::text_spec::value_matches(d.ref_data[r.id], name)
                        && !w.contains(r.id) {
                        crate::types::decompile::text_spec::lemma_measure_decreases(d, w, r.id);
                        assert(v.insert(r.id).subset_of(w.insert(r.id)));
                        lemma_dc_value_fewer(d.ref_data[r.id], name, r.id, d, v.insert(r.id), w.insert(r.id));
                    },
                }
            },
            None => {},
        }
    }
}

/// The same for an object.
proof fn lemma_dc_value_fewer(
    x: crate::types::structs::SpecRefValue,
    name: Seq<char>,
    id: u32,
    d: SpecImportantData,
    v: Set<u32>,
    w: Set<u32>,
)
    requires
        v.subset_of(w),
    ensures
        crate::types::decompile::text_spec::dc_value(x, name, id, d, w) matches Some(ls) ==> crate::types::decompile::text_spec::dc_value(x, name, id, d, v) == Some(ls),
    decreases crate::types::decompile::text_spec::dc_measure(d, w), x, 1nat,
{
    if crate::types::decompile::text_spec::value_matches(x, name) {
        match x {
            crate::types::structs::SpecRefValue::EsdMap(m) => lemma_dc_vec_fewer(m.states, d, v, w),
            crate::types::structs::SpecRefValue::State(st) => {
                lemma_section_fewer("        #EntryEvents:"@, st.entry_events, d, v, w);
                lemma_section_fewer("        #ExitEvents:"@, st.exit_events, d, v, w);
                lemma_section_fewer("        #Transitions:"@, st.transitions, d, v, w);
            },
            crate::types::structs::SpecRefValue::Transition(t) => {
                match t.cond_ref {
                    Some(c) => lemma_dc_reference_fewer(c, d, v, w),
                    None => {},
                }
                lemma_section_fewer("        #PassEvents:"@, t.pass_events, d, v, w);
            },
            _ => {},
        }
    }
}

/// The same for the first `n` references of a list.
proof fn lemma_dc_refs_fewer(refs: Seq<crate::types::structs::SpecReference>, n: nat, d: SpecImportantData, v: Set<u32>, w: Set<u32>)
    requires
        v.subset_of(w),
    ensures
        crate::types::decompile::text_spec::dc_refs(refs, n, d, w) matches Some(ls) ==> crate::types::decompile::text_spec::dc_refs(refs, n, d, v) == Some(ls),
    decreases crate::types::decompile::text_spec::dc_measure(d, w), refs, n,
{
    if n > 0 && n <= refs.len() {
        lemma_dc_refs_fewer(refs, (n - 1) as nat, d, v, w);
        lemma_dc_reference_fewer(refs[n - 1], d, v, w);
    }
}

/// The same for a vector.
proof fn lemma_dc_vec_fewer(x: crate::types::structs::SpecDLVector, d: SpecImportantData, v: Set<u32>, w: Set<u32>)
    requires
        v.subset_of(w),
    ensures
        crate::types::decompile::text_spec::dc_vec(x, d, w) matches Some(ls) ==> crate::types::decompile::text_spec::dc_vec(x, d, v) == Some(ls),
    decreases crate::types::decompile::text_spec::dc_measure(d, w), x, 1nat,
{
    lemma_dc_refs_fewer(x.references, x.references.len(), d, v, w);
}

/// The same for a titled section.
proof fn lemma_section_fewer(title: Seq<char>, x: crate::types::structs::SpecDLVector, d: SpecImportantData, v: Set<u32>, w: Set<u32>)
    requires
        v.subset_of(w),
    ensures
        crate::types::decompile::text_spec::section(title, x, d, w) matches Some(ls) ==> crate::types::decompile::text_spec::section(title, x, d, v) == Some(ls),
    decreases crate::types::decompile::text_spec::dc_measure(d, w), x, 2nat,
{
    lemma_dc_vec_fewer(x, d, v, w);
}

/// A reference that finds its object stored under its id decompiles to the
/// same lines as the reference that holds that object, wherever the first
/// decompiles (the id not being decompiled already); for events and
/// conditions the two always agree (`law_inline_same_as_stored`).
pub proof fn law_stored_as_inline(
    ref_type: u16,
    id: u32,
    x: crate::types::structs::SpecRefValue,
    d: SpecImportantData,
    visited: Set<u32>,
)
    requires
        d.ref_data.contains_key(id),
        d.ref_data[id] == x,
        !visited.contains(id),
    ensures
        crate::types::decompile::text_spec::dc_reference(crate::types::structs::SpecReference { ref_type, id, value: None }, d, visited) matches Some(
            ls,
        ) ==> crate::types::decompile::text_spec::dc_reference(
            crate::types::structs::SpecReference { ref_type, id, value: Some(Box::new(x)) },
            d,
            visited,
        ) == Some(ls),
{
    match crate::utils::important_data::spec_type_name(d.type_table, ref_type) {
        Some(name) => {
            assert(visited.subset_of(visited.insert(id)));
            lemma_dc_value_fewer(x, name, id, d, visited, visited.insert(id));
        },
        None => {},
    }
}


/// The argument texts from position `j` on, in order, separated by commas.
pub open spec fn joined_from(a: Seq<Seq<char>>, j: nat) -> Seq<char>
    decreases a.len() - j,
{
    if j >= a.len() {
        seq![]
    } else if j + 1 == a.len() {
        a[j as int]
    } else {
        a[j as int] + seq![','] + joined_from(a, j + 1)
    }
}

/// The argument list that decompiling writes, read from the front.
proof fn lemma_args_text_front(a: Seq<Seq<char>>, n: nat)
    requires
        n <= a.len(),
    ensures
        crate::types::decompile::condition_spec::args_text(a, n) + joined_from(a, n) == joined_from(a, 0),
    decreases n,
{
    if n == 0 {
        assert(crate::types::decompile::condition_spec::args_text(a, 0) == Seq::<char>::empty());
        assert(Seq::<char>::empty() + joined_from(a, 0) =~= joined_from(a, 0));
    } else {
        lemma_args_text_front(a, (n - 1) as nat);
        let prev = crate::types::decompile::condition_spec::args_text(a, (n - 1) as nat);
        if n == a.len() {
            assert(joined_from(a, n) == Seq::<char>::empty());
            assert(joined_from(a, (n - 1) as nat) == a[n - 1]);
            assert(prev + a[n - 1] + Seq::<char>::empty() + Seq::<char>::empty() =~= prev + a[n - 1]);
        } else {
            assert(joined_from(a, (n - 1) as nat) == a[n - 1] + seq![','] + joined_from(a, n));
            assert(prev + a[n - 1] + seq![','] + joined_from(a, n) =~= prev + (a[n - 1] + seq![','] + joined_from(a, n)));
        }
    }
}

/// A call byte `0x84 + k` takes the topmost `k` texts as the arguments, in
/// the order they were pushed (the deepest first), and the text below them
/// as the id of the function: it leaves the call `name(a1,...,ak)`.
pub proof fn law_call_arguments_in_order(
    data: Seq<u8>,
    p: nat,
    st: Seq<Seq<char>>,
    id_text: Seq<char>,
    args: Seq<Seq<char>>,
    name: Seq<char>,
    funcs: Seq<(Seq<char>, Seq<char>)>,
)
    requires
        p < data.len(),
        args.len() <= 6,
        data[p as int] == 0x84 + args.len(),
        crate::utils::defs::defs_lookup(funcs, id_text) == Some(name),
    ensures
        crate::types::decompile::condition_spec::cond_stack(data, p, st.push(id_text) + args, funcs)
            == crate::types::decompile::condition_spec::cond_stack(
            data,
            p + 1,
            st.push(name + seq!['('] + joined_from(args, 0) + seq![')']),
            funcs,
        ),
{
    let s = st.push(id_text) + args;
    let n = s.len();
    let k = args.len();
    assert(s.subrange(n - k, n as int) =~= args);
    assert(s[n - k - 1] == id_text);
    assert(s.subrange(0, n - k - 1) =~= st);
    lemma_args_text_front(args, k);
    assert(joined_from(args, k) == Seq::<char>::empty());
    assert(crate::types::decompile::condition_spec::args_text(args, k) + Seq::<char>::empty()
        =~= crate::types::decompile::condition_spec::args_text(args, k));
}


/// Whether the references `rs` hold the events `es`, each under a type that
/// names an event type, and `ls` are the lines that those events decompile to.
pub open spec fn event_refs(rs: Seq<crate::types::structs::SpecReference>, es: Seq<crate::types::structs::SpecEvent>, ls: Seq<Seq<char>>, d: SpecImportantData) -> bool {
    &&& rs.len() == es.len()
    &&& ls.len() == es.len()
    &&& forall|k: int| 0 <= k < rs.len() ==> (#[trigger] rs[k]).value == Some(Box::new(crate::types::structs::SpecRefValue::Event(es[k])))
        && (crate::utils::important_data::spec_type_name(d.type_table, rs[k].ref_type) matches Some(nm) && (nm
        == crate::types::decompile::read_spec::name_event() || nm == crate::types::decompile::read_spec::name_event6()))
        && crate::types::decompile::text_spec::event_line(es[k], d) == Some(ls[k])
}

/// References that hold events decompile to the events' lines, in order.
proof fn lemma_event_refs_lines(
    rs: Seq<crate::types::structs::SpecReference>,
    es: Seq<crate::types::structs::SpecEvent>,
    ls: Seq<Seq<char>>,
    n: nat,
    d: SpecImportantData,
    visited: Set<u32>,
)
    requires
        event_refs(rs, es, ls, d),
        n <= rs.len(),
        d.ref_data.dom().finite(),
    ensures
        crate::types::decompile::text_spec::dc_refs(rs, n, d, visited) == Some(ls.take(n as int)),
    decreases n,
{
    if n == 0 {
        assert(ls.take(0) =~= Seq::<Seq<char>>::empty());
    } else {
        lemma_event_refs_lines(rs, es, ls, (n - 1) as nat, d, visited);
        let r = rs[n - 1];
        assert(r.value == Some(Box::new(crate::types::structs::SpecRefValue::Event(es[n - 1]))));
        let nm = crate::utils::important_data::spec_type_name(d.type_table, r.ref_type)->0;
        assert(crate::types::compile::write_spec::is_object_name(nm));
        assert(crate::types::decompile::text_spec::dc_reference(r, d, visited) == Some(seq![ls[n - 1]]));
        assert(ls.take(n - 1) + seq![ls[n - 1]] =~= ls.take(n as int));
    }
}

/// A transition whose pass events are references that hold events
/// decompiles to its condition line, the call of its target state, the
/// `#PassEvents:` title and then the lines of its pass events, in order.
pub proof fn law_transition_pass_events_lines(
    t: crate::types::structs::SpecTransition,
    tid: u32,
    d: SpecImportantData,
    visited: Set<u32>,
    cl: Seq<char>,
    es: Seq<crate::types::structs::SpecEvent>,
    ls: Seq<Seq<char>>,
)
    requires
        d.ref_data.dom().finite(),
        crate::types::decompile::text_spec::target_index(t, tid, d) is Some,
        t.cond_buffer matches Some(b) && crate::types::decompile::condition_spec::condition_line(b.data, d.func_defs)
            == Some(cl),
        t.pass_events.ref_count != 0,
        event_refs(t.pass_events.references, es, ls, d),
    ensures
        crate::types::decompile::text_spec::dc_transition(t, tid, d, visited) == Some(
            seq![
                cl,
                "            State_"@ + crate::utils::text::dec_nat(crate::types::decompile::text_spec::target_index(t, tid, d)->0 as nat) + "()"@,
                "        #PassEvents:"@,
            ] + ls,
        ),
{
    let rs = t.pass_events.references;
    lemma_event_refs_lines(rs, es, ls, rs.len(), d, visited);
    assert(ls.take(rs.len() as int) =~= ls);
    let idx = crate::types::decompile::text_spec::target_index(t, tid, d)->0;
    let sl = "            State_"@ + crate::utils::text::dec_nat(idx as nat) + "()"@;
    assert(seq![cl] + seq![sl] + (seq!["        #PassEvents:"@] + ls) =~= seq![cl, sl, "        #PassEvents:"@] + ls);
}


/// A section of event references decompiles to its title and the events'
/// lines, or to nothing when its count is zero.
proof fn lemma_event_section(
    title: Seq<char>,
    v: crate::types::structs::SpecDLVector,
    es: Seq<crate::types::structs::SpecEvent>,
    ls: Seq<Seq<char>>,
    d: SpecImportantData,
    visited: Set<u32>,
)
    requires
        d.ref_data.dom().finite(),
        event_refs(v.references, es, ls, d),
    ensures
        crate::types::decompile::text_spec::section(title, v, d, visited) == Some(if v.ref_count != 0 { seq![title] + ls } else { seq![] }),
{
    lemma_event_refs_lines(v.references, es, ls, v.references.len(), d, visited);
    assert(ls.take(v.references.len() as int) =~= ls);
}

/// A state without transitions whose entry and exit events are references
/// that hold events decompiles to its `def State_<index>():` line, then,
/// when there are any, the `#EntryEvents:` title and the entry events'
/// lines, then the `#ExitEvents:` title and the exit events' lines.
pub proof fn law_state_event_lines(
    st: crate::types::structs::SpecState,
    d: SpecImportantData,
    visited: Set<u32>,
    entry: Seq<crate::types::structs::SpecEvent>,
    entry_lines: Seq<Seq<char>>,
    exit: Seq<crate::types::structs::SpecEvent>,
    exit_lines: Seq<Seq<char>>,
)
    requires
        d.ref_data.dom().finite(),
        event_refs(st.entry_events.references, entry, entry_lines, d),
        event_refs(st.exit_events.references, exit, exit_lines, d),
        st.transitions.ref_count == 0,
    ensures
        crate::types::decompile::text_spec::dc_state(st, d, visited) == Some(
            seq!["    def State_"@ + crate::utils::text::dec_nat(st.state_index as nat) + "():"@]
                + (if st.entry_events.ref_count != 0 { seq!["        #EntryEvents:"@] + entry_lines } else { seq![] })
                + (if st.exit_events.ref_count != 0 { seq!["        #ExitEvents:"@] + exit_lines } else { seq![] }),
        ),
{
    lemma_event_section("        #EntryEvents:"@, st.entry_events, entry, entry_lines, d, visited);
    lemma_event_section("        #ExitEvents:"@, st.exit_events, exit, exit_lines, d, visited);
    let h = seq!["    def State_"@ + crate::utils::text::dec_nat(st.state_index as nat) + "():"@];
    let a: Seq<Seq<char>> = if st.entry_events.ref_count != 0 { seq!["        #EntryEvents:"@] + entry_lines } else { seq![] };
    let b: Seq<Seq<char>> = if st.exit_events.ref_count != 0 { seq!["        #ExitEvents:"@] + exit_lines } else { seq![] };
    assert(h + a + b + Seq::<Seq<char>>::empty() =~= h + a + b);
}

} // verus!
