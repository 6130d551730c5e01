use std::collections::HashMap;
use vstd::prelude::*;
use crate::types::decompile::read::{field_u64, read_refs};
use crate::types::decompile::read_spec::{
    lemma_refs_progress, spec_read_header, spec_read_project, spec_read_refs, u64_field,
};
use crate::types::structs::{
    Header, Project, RefValue, Reference, SpecHeader, SpecProject, SpecRefValue, SpecReference,
    ref_models,
};
use crate::types::compile::write_spec::{spec_write_esd, spec_write_reference, spec_write_refs};
use crate::types::compile::write_tree::lemma_refs_none;
use crate::types::decompile::condition_text::opt_view;
use crate::types::decompile::text_spec::dc_project;
use crate::types::compile::tree_spec::{compile_header, compile_project, new_ref};
use crate::utils::important_comp_data::{ImportantCompData, initial_comp_data};
use crate::utils::strings::{replace_all, replace_text};
use crate::utils::text_reader::{TextReader, text_lines};
use crate::utils::binary_reader::BinaryReader;
use crate::utils::text::{chars_of, push_char, push_str};
use crate::utils::text_writer::{TextWriter, string_views};
use crate::utils::binary_writer::BinaryWriter;
use crate::utils::defs::json_string_pairs;
use crate::utils::important_data::{ImportantData, SpecImportantData, initial_data};

verus! {

/// A whole TalkESD file.
pub struct DlseEsd {
    pub header: Header,
    pub project: Project,
    pub unkx00: u64,
    pub state_refs: Option<Vec<Reference>>,
    pub important_data: ImportantData,
}

/// The model of a whole file.
pub struct SpecDlseEsd {
    pub header: SpecHeader,
    pub project: SpecProject,
    pub unkx00: u64,
    pub state_refs: Option<Seq<SpecReference>>,
    pub important_data: SpecImportantData,
}

impl View for DlseEsd {
    type V = SpecDlseEsd;

    open spec fn view(&self) -> SpecDlseEsd {
        SpecDlseEsd {
            header: self.header@,
            project: self.project@,
            unkx00: self.unkx00,
            state_refs: match &self.state_refs {
                Some(v) => Some(ref_models(v@)),
                None => None,
            },
            important_data: self.important_data@,
        }
    }
}

/// One step of linking transitions to target states: the entry `e` (a
/// transition id and its position) names the state of `sref` when its position
/// is `idx`; the object of `sref` must then be stored, and when it is a state
/// its index is recorded for the transition.
pub open spec fn link_entry(
    m: Option<Map<u32, u32>>,
    data: Map<u32, SpecRefValue>,
    sref: SpecReference,
    idx: int,
    e: (u32, usize),
) -> Option<Map<u32, u32>> {
    match m {
        Some(m) => if e.1 == idx {
            if !data.contains_key(sref.id) {
                None
            } else {
                match data[sref.id] {
                    SpecRefValue::State(s) => Some(m.insert(e.0, s.state_index)),
                    _ => Some(m),
                }
            }
        } else {
            Some(m)
        },
        None => None,
    }
}

/// Linking the state reference at position `idx` through the first `j`
/// entries of the transition list.
pub open spec fn link_inner(
    m: Option<Map<u32, u32>>,
    data: Map<u32, SpecRefValue>,
    sref: SpecReference,
    idx: int,
    l: Seq<(u32, usize)>,
    j: nat,
) -> Option<Map<u32, u32>>
    decreases j,
{
    if j == 0 {
        m
    } else {
        link_entry(link_inner(m, data, sref, idx, l, (j - 1) as nat), data, sref, idx, l[j - 1])
    }
}

/// Linking the first `i` state references.
pub open spec fn link_outer(
    m: Map<u32, u32>,
    data: Map<u32, SpecRefValue>,
    srefs: Seq<SpecReference>,
    l: Seq<(u32, usize)>,
    i: nat,
) -> Option<Map<u32, u32>>
    decreases i,
{
    if i == 0 {
        Some(m)
    } else {
        link_inner(link_outer(m, data, srefs, l, (i - 1) as nat), data, srefs[i - 1], i - 1, l, l.len())
    }
}

/// A whole file as the bytes `b` hold it, with the function and event
/// definitions of the JSON texts `fj` and `ej`: the header, the project and a
/// `u64`; for version `3` then one state reference per transition, each
/// transition id being mapped to the index of the state at its position.
pub open spec fn spec_read_esd(b: Seq<u8>, fj: Seq<char>, ej: Seq<char>) -> Option<SpecDlseEsd> {
    match spec_read_header(b, 0) {
        Some((header, p1)) => match (json_string_pairs(fj), json_string_pairs(ej)) {
            (Some(f), Some(e)) => match spec_read_project(b, p1, initial_data(header, f, e)) {
                Some((project, p2, d1)) => match u64_field(b, p2) {
                    Some((unkx00, p3)) => if header.version == 3 {
                        match header.transition_count {
                            Some(tc) => match spec_read_refs(b, p3, tc as nat, 0, d1) {
                                Some((refs, p4, d2)) => match link_outer(
                                    d2.trans_id_state_idx,
                                    d2.ref_data,
                                    refs,
                                    d2.trans_id_idx,
                                    refs.len(),
                                ) {
                                    Some(m) => Some(
                                        SpecDlseEsd {
                                            header,
                                            project,
                                            unkx00,
                                            state_refs: Some(refs),
                                            important_data: SpecImportantData {
                                                trans_id_state_idx: m,
                                                ..d2
                                            },
                                        },
                                    ),
                                    None => None,
                                },
                                None => None,
                            },
                            None => None,
                        }
                    } else {
                        Some(
                            SpecDlseEsd {
                                header,
                                project,
                                unkx00,
                                state_refs: None,
                                important_data: d1,
                            },
                        )
                    },
                    None => None,
                },
                None => None,
            },
            _ => None,
        },
        None => None,
    }
}

impl DlseEsd {
    /// Reads a whole file from its bytes, with the function and event
    /// definitions of the two JSON texts; `None` where the bytes do not hold a
    /// file or a text is not a JSON object of strings.
    #[verifier::loop_isolation(false)]
    pub fn read(bytes: Vec<u8>, func_defs_json: &str, event_defs_json: &str) -> (r: Option<DlseEsd>)
        ensures
            match spec_read_esd(bytes@, func_defs_json@, event_defs_json@) {
                Some(e) => r matches Some(x) && x@ == e,
                None => r is None,
            },
    {
        broadcast use vstd::std_specs::hash::group_hash_axioms;
        let ghost b = bytes@;
        let mut br = BinaryReader::new(bytes);
        let header = match Header::read(&mut br) {
            Some(h) => h,
            None => return None,
        };
        let mut important_data = match ImportantData::default(&header, func_defs_json, event_defs_json) {
            Some(d) => d,
            None => return None,
        };
        let project = match Project::read(&mut br, &mut important_data) {
            Some(p) => p,
            None => return None,
        };
        let unkx00 = match field_u64(&mut br) {
            Some(v) => v,
            None => return None,
        };
        let mut state_refs = None;
        if header.version == 3 {
            let tc = match header.transition_count {
                Some(t) => t,
                None => return None,
            };
            if br.current_position > br.bytes.len() {
                return None;
            }
            let state_ref_vec = match read_refs(&mut br, tc, 0, &mut important_data) {
                Some(v) => v,
                None => return None,
            };
            let ghost d2 = important_data@;
            let ghost srefs = ref_models(state_ref_vec@);
            let n = state_ref_vec.len();
            let mut idx: usize = 0;
            while idx < n
                invariant
                    0 <= idx <= n,
                    n == state_ref_vec@.len(),
                    srefs.len() == n,
                    important_data@ == (SpecImportantData {
                        trans_id_state_idx: important_data@.trans_id_state_idx,
                        ..d2
                    }),
                    link_outer(d2.trans_id_state_idx, d2.ref_data, srefs, d2.trans_id_idx, idx as nat)
                        == Some(important_data@.trans_id_state_idx),
                decreases n - idx,
            {
                let id = state_ref_vec[idx].id;
                let ghost before = important_data@.trans_id_state_idx;
                let mut j: usize = 0;
                while j < important_data.trans_id_idx_dict.len()
                    invariant
                        0 <= j <= important_data.trans_id_idx_dict@.len(),
                        0 <= idx < n,
                        id == srefs[idx as int].id,
                        important_data@ == (SpecImportantData {
                            trans_id_state_idx: important_data@.trans_id_state_idx,
                            ..d2
                        }),
                        link_inner(Some(before), d2.ref_data, srefs[idx as int], idx as int, d2.trans_id_idx, j as nat)
                            == Some(important_data@.trans_id_state_idx),
                    decreases important_data.trans_id_idx_dict@.len() - j,
                {
                    let (trans_id, trans_idx) = important_data.trans_id_idx_dict[j];
                    if trans_idx == idx {
                        let v = important_data.ref_id_ref_data_map.get(&id);
                        match v {
                            None => {
                                proof {
                                    lemma_link_inner_fail(
                                        Some(before),
                                        d2.ref_data,
                                        srefs[idx as int],
                                        idx as int,
                                        d2.trans_id_idx,
                                        (j + 1) as nat,
                                        d2.trans_id_idx.len(),
                                    );
                                    lemma_link_outer_fail(
                                        d2.trans_id_state_idx,
                                        d2.ref_data,
                                        srefs,
                                        d2.trans_id_idx,
                                        (idx + 1) as nat,
                                        n as nat,
                                    );
                                }
                                return None;
                            },
                            Some(val) => {
                                if let RefValue::State(state) = &**val {
                                    important_data.trans_id_state_idx_dict.insert(
                                        trans_id,
                                        state.state_index,
                                    );
                                }
                            },
                        }
                    }
                    j = j + 1;
                }
                idx = idx + 1;
            }
            state_refs = Some(state_ref_vec);
        }
        Some(DlseEsd { header, project, unkx00, state_refs, important_data })
    }
}

/// Once a step of the inner linking fails, every longer run fails.
pub proof fn lemma_link_inner_fail(
    m: Option<Map<u32, u32>>,
    data: Map<u32, SpecRefValue>,
    sref: SpecReference,
    idx: int,
    l: Seq<(u32, usize)>,
    i: nat,
    j: nat,
)
    requires
        i <= j <= l.len(),
        0 < i,
        link_inner(m, data, sref, idx, l, i) is None,
    ensures
        link_inner(m, data, sref, idx, l, j) is None,
    decreases j,
{
    if j > i {
        lemma_link_inner_fail(m, data, sref, idx, l, i, (j - 1) as nat);
    }
}

/// Once linking the first `i` references fails, linking more fails.
pub proof fn lemma_link_outer_fail(
    m: Map<u32, u32>,
    data: Map<u32, SpecRefValue>,
    srefs: Seq<SpecReference>,
    l: Seq<(u32, usize)>,
    i: nat,
    n: nat,
)
    requires
        i <= n,
        link_outer(m, data, srefs, l, i) is None,
    ensures
        link_outer(m, data, srefs, l, n) is None,
    decreases n,
{
    if n > i {
        lemma_link_outer_fail(m, data, srefs, l, i, (n - 1) as nat);
        lemma_link_none(data, srefs[n - 1], n - 1, l, l.len());
    }
}

/// Linking from a failed state fails.
pub proof fn lemma_link_none(data: Map<u32, SpecRefValue>, sref: SpecReference, idx: int, l: Seq<(u32, usize)>, j: nat)
    ensures
        link_inner(None, data, sref, idx, l, j) is None,
    decreases j,
{
    if j > 0 {
        lemma_link_none(data, sref, idx, l, (j - 1) as nat);
    }
}

impl DlseEsd {
    /// Writes the whole file for the path `path`: the header, the project, the
    /// `u64` and, for header version `3`, the state references. The writer
    /// holds the bytes to store at `path`; `None` where the file cannot be
    /// written (a missing header number, type or object, or an overflow).
    #[verifier::loop_isolation(false)]
    pub fn write(&mut self, path: &str) -> (r: Option<BinaryWriter>)
        ensures
            final(self).header == old(self).header,
            final(self).project == old(self).project,
            final(self).unkx00 == old(self).unkx00,
            final(self).state_refs == old(self).state_refs,
            match spec_write_esd(
                old(self)@.header,
                old(self)@.project,
                old(self)@.unkx00,
                old(self)@.state_refs,
                old(self)@.important_data,
            ) {
                Some((bytes, d)) => r matches Some(bw) && bw.bytes@ == bytes && bw.path@ == path@
                    && final(self)@.important_data == d,
                None => r is None,
            },
    {
        if self.header.version == 3 && (self.header.unk08.is_none()
            || self.header.transition_count.is_none()
            || self.header.highest_ref_id_plus_one.is_none()) {
            return None;
        }
        let mut bw = BinaryWriter::new(path);
        self.header.write(&mut bw);
        match self.project.write(&mut bw, &mut self.important_data) {
            Some(_) => {},
            None => return None,
        }
        bw.write_uint64(self.unkx00);
        if self.header.version == 3 {
            let refs = match &self.state_refs {
                Some(v) => v,
                None => return None,
            };
            let ghost refs_m = ref_models(refs@);
            let ghost start = bw.bytes@;
            let ghost d1 = self.important_data@;
            reveal(spec_write_refs);
            let mut i: usize = 0;
            while i < refs.len()
                invariant
                    0 <= i <= refs@.len(),
                    refs_m == ref_models(refs@),
                    self.header == old(self).header,
                    self.project == old(self).project,
                    self.unkx00 == old(self).unkx00,
                    self.state_refs == old(self).state_refs,
                    old(self).state_refs == Some(*refs),
                    bw.path@ == path@,
                    spec_write_refs(refs_m, i as nat, 0, d1) matches Some((b, d))
                        && bw.bytes@ == start + b && self.important_data@ == d,
                decreases refs@.len() - i,
            {
                reveal(spec_write_refs);
                let ghost b = spec_write_refs(refs_m, i as nat, 0, d1).unwrap().0;
                let ghost di = spec_write_refs(refs_m, i as nat, 0, d1).unwrap().1;
                assert(refs_m[i as int] == refs@[i as int]@);
                match refs[i].write(&mut bw, 0, &mut self.important_data) {
                    Some(_) => {},
                    None => {
                        proof {
                            lemma_refs_none(refs_m, (i + 1) as nat, refs@.len(), 0, d1);
                        }
                        return None;
                    },
                }
                proof {
                    let rb = spec_write_reference(refs_m[i as int], 0, di).unwrap().0;
                    assert(bw.bytes@ =~= start + (b + rb));
                }
                i = i + 1;
            }
        }
        proof {
            reveal(spec_write_refs);
            assert(bw.bytes@ =~= spec_write_esd(
                old(self)@.header,
                old(self)@.project,
                old(self)@.unkx00,
                old(self)@.state_refs,
                old(self)@.important_data,
            ).unwrap().0);
        }
        Some(bw)
    }
}

/// The path of the decompiled text of the file at `p`: its last three
/// characters replaced by `esd.py`; `None` when it has fewer than three
/// characters or one of them is not ASCII.
pub open spec fn decompiled_path(p: Seq<char>) -> Option<Seq<char>> {
    if p.len() < 3 || (p[p.len() - 1] as u32) >= 0x80 || (p[p.len() - 2] as u32) >= 0x80
        || (p[p.len() - 3] as u32) >= 0x80 {
        None
    } else {
        Some(p.take(p.len() - 3) + "esd.py"@)
    }
}

/// The decompiled text of a file: the lines of its project.
pub open spec fn decompiled_lines(b: Seq<u8>, fj: Seq<char>, ej: Seq<char>) -> Option<Seq<Seq<char>>> {
    match spec_read_esd(b, fj, ej) {
        Some(e) => dc_project(e.project, e.important_data),
        None => None,
    }
}

/// The path of the decompiled text of the file at `path`.
fn decompiled_file_path(path: &str) -> (r: Option<String>)
    ensures
        opt_view(r) == decompiled_path(path@),
{
    let cs = chars_of(path);
    let n = cs.len();
    if n < 3 || (cs[n - 1] as u32) >= 0x80 || (cs[n - 2] as u32) >= 0x80 || (cs[n - 3] as u32) >= 0x80 {
        return None;
    }
    let mut out = String::new();
    let mut i: usize = 0;
    while i < n - 3
        invariant
            0 <= i <= n - 3,
            n == cs@.len(),
            cs@ == path@,
            out@ == cs@.take(i as int),
        decreases n - 3 - i,
    {
        push_char(&mut out, cs[i]);
        proof {
            assert(cs@.take(i + 1) =~= cs@.take(i as int).push(cs@[i as int]));
        }
        i = i + 1;
    }
    push_str(&mut out, "esd.py");
    Some(out)
}

impl DlseEsd {
    /// Decompiles the file at `path`, whose bytes are `bytes`, with the
    /// function and event definitions of the two JSON texts: the writer
    /// holds the lines of the project, to be stored at the path with the last
    /// three characters replaced by `esd.py`. `None` where the file cannot be
    /// read or decompiled, or the path is too short.
    pub fn decompile(path: &str, bytes: Vec<u8>, func_defs_json: &str, event_defs_json: &str) -> (r: Option<TextWriter>)
        ensures
            match (decompiled_lines(bytes@, func_defs_json@, event_defs_json@), decompiled_path(path@)) {
                (Some(lines), Some(p)) => r matches Some(tw) && string_views(tw.lines@) == lines
                    && tw.path@ == p,
                _ => r is None,
            },
    {
        let esd = match DlseEsd::read(bytes, func_defs_json, event_defs_json) {
            Some(e) => e,
            None => return None,
        };
        let out_path = match decompiled_file_path(path) {
            Some(p) => p,
            None => return None,
        };
        let mut tw = TextWriter::new(out_path.as_str());
        match esd.project.decompile(&mut tw, &esd.important_data) {
            Some(_) => {},
            None => return None,
        }
        proof {
            assert(string_views(tw.lines@) =~= decompiled_lines(bytes@, func_defs_json@, event_defs_json@).unwrap());
        }
        Some(tw)
    }
}

/// The path of the compiled file of the text at `src`: `.esd.py` replaced by
/// `.esd`.
pub open spec fn compiled_path(src: Seq<char>) -> Seq<char> {
    replace_all(src, ".esd.py"@, ".esd"@)
}

/// The state references of a compiled file: one per recorded target state
/// index, by that state's id.
pub open spec fn state_refs_of(order: Seq<u32>, ids: Map<u32, u32>) -> Option<Seq<SpecReference>>
    decreases order.len(),
{
    if order.len() == 0 {
        Some(seq![])
    } else {
        match state_refs_of(order.drop_last(), ids) {
            Some(p) => if ids.contains_key(order.last()) {
                Some(p.push(new_ref(4, ids[order.last()], None)))
            } else {
                None
            },
            None => None,
        }
    }
}

/// The bytes of the file compiled from a text, with the function and event
/// definitions of the JSON texts `fj` and `ej`: the project of its lines, the
/// header, and the state references, written as a whole file.
pub open spec fn compiled_bytes(text: Seq<char>, fj: Seq<char>, ej: Seq<char>) -> Option<Seq<u8>> {
    match (json_string_pairs(fj), json_string_pairs(ej)) {
        (Some(f), Some(e)) => match compile_project(text_lines(text), initial_comp_data(f, e)) {
            Some((p, c1)) => match compile_header(c1) {
                Some((h, c2)) => match state_refs_of(c2.state_ref_order, c2.state_ids) {
                    Some(refs) => match spec_write_esd(h, p, 0x2695380AB4E4C27, Some(refs), initial_data(h, f, e)) {
                        Some((bytes, _)) => Some(bytes),
                        None => None,
                    },
                    None => None,
                },
                None => None,
            },
            None => None,
        },
        _ => None,
    }
}

/// The path of the compiled file of the text at `src_path`.
pub fn compiled_file_path(src_path: &str) -> (r: String)
    ensures
        r@ == compiled_path(src_path@),
{
    proof {
        reveal_strlit(".esd.py");
    }
    replace_text(src_path, ".esd.py", ".esd")
}

impl DlseEsd {
    /// Compiles the text `text` of the file at `src_path`, with the
    /// function and event definitions of the two JSON texts: the writer holds
    /// the bytes of the compiled file, to be stored at `src_path` with
    /// `.esd.py` replaced by `.esd`. `None` where the text cannot be compiled
    /// or the result cannot be written.
    #[verifier::loop_isolation(false)]
    pub fn compile(src_path: &str, text: &str, func_defs_json: &str, event_defs_json: &str) -> (r: Option<BinaryWriter>)
        ensures
            match compiled_bytes(text@, func_defs_json@, event_defs_json@) {
                Some(b) => r matches Some(bw) && bw.bytes@ == b && bw.path@ == compiled_path(src_path@),
                None => r is None,
            },
    {
        broadcast use vstd::std_specs::hash::group_hash_axioms;
        let dest_path = compiled_file_path(src_path);
        let mut tr = TextReader::new(text);
        let mut important_comp_data = match ImportantCompData::new(func_defs_json, event_defs_json) {
            Some(c) => c,
            None => return None,
        };
        let project = match Project::compile(&mut tr, &mut important_comp_data) {
            Some(p) => p,
            None => return None,
        };
        let header = match Header::compile(&mut important_comp_data) {
            Some(h) => h,
            None => return None,
        };
        let important_data = match ImportantData::default(&header, func_defs_json, event_defs_json) {
            Some(d) => d,
            None => return None,
        };
        let ghost c2 = important_comp_data@;
        let mut state_refs: Vec<Reference> = Vec::new();
        let mut k: usize = 0;
        proof {
            assert(c2.state_ref_order.take(0) =~= Seq::<u32>::empty());
            assert(ref_models(state_refs@) =~= Seq::<SpecReference>::empty());
        }
        while k < important_comp_data.state_ref_order.len()
            invariant
                0 <= k <= important_comp_data.state_ref_order@.len(),
                c2 == important_comp_data@,
                state_refs_of(c2.state_ref_order.take(k as int), c2.state_ids) == Some(ref_models(state_refs@)),
            decreases important_comp_data.state_ref_order@.len() - k,
        {
            let state_idx = important_comp_data.state_ref_order[k];
            proof {
                assert(c2.state_ref_order.take(k + 1).drop_last() =~= c2.state_ref_order.take(k as int));
            }
            let id = match important_comp_data.state_idx_state_id_dict.get(&state_idx) {
                Some(id) => *id,
                None => {
                    proof {
                        lemma_state_refs_none(c2.state_ref_order, c2.state_ids, (k + 1) as nat);
                    }
                    return None;
                },
            };
            let r = Reference { ref_type: 4, id, value: None };
            let ghost before = ref_models(state_refs@);
            proof {
                assert(r@ == new_ref(4, id, None));
            }
            state_refs.push(r);
            proof {
                assert(ref_models(state_refs@) =~= before.push(new_ref(4, id, None)));
            }
            k = k + 1;
        }
        proof {
            assert(c2.state_ref_order.take(k as int) =~= c2.state_ref_order);
        }
        let mut esd = DlseEsd {
            header,
            project,
            unkx00: 0x2695380AB4E4C27,
            state_refs: Some(state_refs),
            important_data,
        };
        esd.write(dest_path.as_str())
    }
}

/// Once a state reference is missing, the state references of a longer
/// order are missing too.
proof fn lemma_state_refs_none(order: Seq<u32>, ids: Map<u32, u32>, i: nat)
    requires
        i <= order.len(),
        state_refs_of(order.take(i as int), ids) is None,
    ensures
        state_refs_of(order, ids) is None,
    decreases order.len() - i,
{
    if i < order.len() {
        assert(order.take(i + 1 as int).drop_last() =~= order.take(i as int));
        lemma_state_refs_none(order, ids, i + 1);
    } else {
        assert(order.take(i as int) =~= order);
    }
}

} // verus!
