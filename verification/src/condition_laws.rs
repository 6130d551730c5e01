//! Properties of conditions joined by `and` and `or`: what decompiling
//! prints of what compiling writes for them.
use vstd::prelude::*;
use crate::types::compile::condition_spec::{
    PostfixState, postfix_run, precedence, reversed,
};
use crate::types::decompile::condition_spec::{
    ast_build, cond_stack, condition_line, infix, is_binary_token, render, SpecNode, SpecNodeType,
};
use crate::utils::defs::{
    defs_has_name, defs_lookup, last_id_of,
};
use crate::utils::strings::{
    is_digit, parse_in,
};
use crate::utils::text::{
    dec_int, dec_nat, split_on,
};
use crate::laws::{
    comparison_op, is_name_char, law_parse_printed_number, lemma_comparison_post_plain, lemma_comparison_token_bytes, lemma_cond_bytes_step, lemma_contains_self, lemma_count_one_bytes, lemma_dec_int_plain, lemma_dec_nat_digits, lemma_last_id_found, lemma_not_defined, lemma_not_number, lemma_op_code, lemma_op_render, lemma_reveal_ops, lemma_reveal_words, lemma_split_absent, lemma_split_at_sep, lemma_stack_number, lemma_step_if, lemma_step_number, number_bytes, plain_defs, plain_name,
};

verus! {

/// One comparison of a condition chain: a function name, its id, its
/// argument (if any), the operator and the number compared with.
pub type ChainAtom = (Seq<char>, int, Option<nat>, Seq<char>, nat);

/// The call text of a comparison: the name and its argument in parentheses.
pub open spec fn atom_call(a: ChainAtom) -> Seq<char> {
    match a.2 {
        Some(u) => a.0 + seq!['('] + dec_nat(u) + seq![')'],
        None => a.0 + seq!['(', ')'],
    }
}

/// The bytecode that compiling writes for a comparison.
pub open spec fn atom_code(a: ChainAtom) -> Seq<u8> {
    let head = match a.2 {
        Some(u) => seq![(a.1 + 64) as u8] + number_bytes(u) + seq![0x85u8],
        None => seq![(a.1 + 64) as u8, 0x84u8],
    };
    head + number_bytes(a.4) + seq![crate::types::compile::condition_spec::op_byte(a.3)->0]
}

/// The postfix text that running the bytecode of a comparison pushes.
pub open spec fn atom_stack_text(a: ChainAtom) -> Seq<char> {
    dec_nat(a.4) + seq![' '] + atom_call(a) + seq![' '] + a.3
}

/// How decompiling prints a comparison.
pub open spec fn atom_print(a: ChainAtom) -> Seq<char> {
    atom_call(a) + seq![' '] + a.3 + seq![' '] + dec_nat(a.4)
}

/// Whether a comparison decompiles: a plain name whose id is below 64 and
/// gives the name back, an operator, and numbers up to `u32::MAX`.
pub open spec fn atom_ok(a: ChainAtom, funcs: Seq<(Seq<char>, Seq<char>)>) -> bool {
    &&& plain_name(a.0)
    &&& 0 <= a.1 < 64
    &&& defs_lookup(funcs, dec_nat(a.1 as nat)) == Some(a.0)
    &&& comparison_op(a.3)
    &&& a.4 <= u32::MAX
    &&& (a.2 matches Some(u) ==> u <= u32::MAX)
}

/// The byte of a connective: `0x98` for `and`, `0x99` for `or`.
pub open spec fn conn_byte(conn: Seq<char>) -> u8 {
    if conn == seq!['a', 'n', 'd'] {
        0x98u8
    } else {
        0x99u8
    }
}

/// The bytecode of the first `k` comparisons joined by a connective, in
/// postfix order: each comparison after the first is followed by the
/// connective.
pub open spec fn chain_code(atoms: Seq<ChainAtom>, k: nat, conn: Seq<char>) -> Seq<u8>
    decreases k,
{
    if k <= 1 {
        atom_code(atoms[0])
    } else {
        chain_code(atoms, (k - 1) as nat, conn) + atom_code(atoms[k - 1]) + seq![conn_byte(conn)]
    }
}

/// How decompiling prints the first `k` comparisons joined by a connective.
pub open spec fn chain_print(atoms: Seq<ChainAtom>, k: nat, conn: Seq<char>) -> Seq<char>
    decreases k,
{
    if k <= 1 {
        atom_print(atoms[0])
    } else {
        chain_print(atoms, (k - 1) as nat, conn) + seq![' '] + conn + seq![' '] + atom_print(atoms[k - 1])
    }
}

/// The postfix text that running the bytecode of a chain leaves.
spec fn chain_stack(atoms: Seq<ChainAtom>, k: nat, conn: Seq<char>) -> Seq<char>
    decreases k,
{
    if k <= 1 {
        atom_stack_text(atoms[0])
    } else {
        atom_stack_text(atoms[k - 1]) + seq![' '] + chain_stack(atoms, (k - 1) as nat, conn) + seq![' '] + conn
    }
}

/// Running the bytecode of a comparison at `p` pushes its postfix text.
#[verifier::rlimit(60)]
proof fn lemma_atom_stack(code: Seq<u8>, p: nat, st: Seq<Seq<char>>, a: ChainAtom, funcs: Seq<(Seq<char>, Seq<char>)>)
    requires
        atom_ok(a, funcs),
        p + atom_code(a).len() <= code.len(),
        code.subrange(p as int, (p + atom_code(a).len()) as int) == atom_code(a),
    ensures
        cond_stack(code, p, st, funcs) == cond_stack(code, p + atom_code(a).len(), st.push(atom_stack_text(a)), funcs),
{
    lemma_op_code(a.3);
    let ob = crate::types::compile::condition_spec::op_byte(a.3)->0;
    let ac = atom_code(a);
    let q = p as int;
    let f = a.0;
    let id = a.1;
    let d = dec_nat(id as nat);
    let call = atom_call(a);
    let n = dec_nat(a.4);
    let nv = number_bytes(a.4);
    let mv = nv.len() as int;
    assert forall|j: int| 0 <= j < ac.len() implies code[q + j] == ac[j] by {
        assert(code.subrange(q, q + ac.len())[j] == code[q + j]);
    }
    assert(ac[0] == (id + 64) as u8);
    assert(((id + 64) as u8 - 64) as int == id);
    assert(dec_int(id) == d);
    let st1 = st.push(d);
    assert(cond_stack(code, p, st, funcs) == cond_stack(code, p + 1, st1, funcs));
    let m: int = if a.2 is Some { 2 + number_bytes(a.2->0).len() as int } else { 2 };
    if a.2 is Some {
        let u = a.2->0;
        let nu = number_bytes(u);
        let mu = nu.len() as int;
        let ua = dec_nat(u);
        assert(ac =~= seq![(id + 64) as u8] + nu + seq![0x85u8] + nv + seq![ob]);
        assert(code.subrange(q + 1, q + 1 + mu) =~= nu) by {
            assert forall|j: int| 0 <= j < mu implies code.subrange(q + 1, q + 1 + mu)[j] == nu[j] by {
                assert(code[q + 1 + j] == ac[1 + j]);
            }
        }
        lemma_stack_number(code, p + 1, st1, u, funcs);
        let st2 = st1.push(ua);
        assert(code[q + 1 + mu] == ac[1 + mu]);
        assert(code[q + 1 + mu] == 0x85u8);
        let k = st2.len() as int;
        assert(st2.subrange(k - 1, k) =~= seq![ua]);
        assert(st2[k - 2] == d);
        assert(crate::types::decompile::condition_spec::args_text(seq![ua], 1) =~= ua) by {
            assert(crate::types::decompile::condition_spec::args_text(seq![ua], 0) == Seq::<char>::empty());
        }
        assert(crate::types::decompile::condition_spec::call_text(f, seq![ua]) =~= call);
        assert(st2.subrange(0, k - 2).push(call) =~= st.push(call));
        assert(cond_stack(code, (q + 1 + mu) as nat, st2, funcs) == cond_stack(code, (q + 2 + mu) as nat, st.push(call), funcs));
    } else {
        assert(ac =~= seq![(id + 64) as u8, 0x84u8] + nv + seq![ob]);
        assert(code[q + 1] == ac[1]);
        let k = st1.len() as int;
        assert(st1.subrange(k, k) =~= Seq::<Seq<char>>::empty());
        assert(st1[k - 1] == d);
        assert(crate::types::decompile::condition_spec::call_text(f, Seq::<Seq<char>>::empty()) =~= call);
        assert(st1.subrange(0, k - 1).push(call) =~= st.push(call));
        assert(cond_stack(code, p + 1, st1, funcs) == cond_stack(code, p + 2, st.push(call), funcs));
    }
    assert(ac.len() == m + mv + 1);
    assert(code.subrange(q + m, q + m + mv) =~= nv) by {
        assert forall|j: int| 0 <= j < mv implies code.subrange(q + m, q + m + mv)[j] == nv[j] by {
            assert(code[q + m + j] == ac[m + j]);
        }
    }
    lemma_stack_number(code, (q + m) as nat, st.push(call), a.4, funcs);
    let st3 = st.push(call).push(n);
    assert(code[q + m + mv] == ac[m + mv]);
    assert(code[q + m + mv] == ob);
    let k = st3.len() as int;
    assert(st3[k - 1] == n && st3[k - 2] == call);
    assert(st3.subrange(0, k - 2).push(n + seq![' '] + call + seq![' '] + a.3) =~= st.push(atom_stack_text(a)));
}

/// Running a connective byte joins the two topmost postfix texts.
proof fn lemma_conn_stack(code: Seq<u8>, p: nat, st: Seq<Seq<char>>, x: Seq<char>, y: Seq<char>, conn: Seq<char>, funcs: Seq<(Seq<char>, Seq<char>)>)
    requires
        conn == seq!['a', 'n', 'd'] || conn == seq!['o', 'r'],
        p < code.len(),
        code[p as int] == conn_byte(conn),
    ensures
        cond_stack(code, p, st.push(x).push(y), funcs) == cond_stack(
            code,
            p + 1,
            st.push(y + seq![' '] + x + seq![' '] + conn),
            funcs,
        ),
{
    lemma_reveal_words();
    let s2 = st.push(x).push(y);
    let k = s2.len();
    assert(s2[k - 1] == y && s2[k - 2] == x);
    assert(s2.subrange(0, k - 2) =~= st);
}

/// Running the bytecode of the first `k` comparisons of a chain, found at
/// `p`, pushes its postfix text.
proof fn lemma_chain_stack(code: Seq<u8>, p: nat, st: Seq<Seq<char>>, atoms: Seq<ChainAtom>, k: nat, conn: Seq<char>, funcs: Seq<(Seq<char>, Seq<char>)>)
    requires
        1 <= k <= atoms.len(),
        forall|i: int| 0 <= i < atoms.len() ==> atom_ok(#[trigger] atoms[i], funcs),
        conn == seq!['a', 'n', 'd'] || conn == seq!['o', 'r'],
        p + chain_code(atoms, k, conn).len() <= code.len(),
        code.subrange(p as int, (p + chain_code(atoms, k, conn).len()) as int) == chain_code(atoms, k, conn),
    ensures
        cond_stack(code, p, st, funcs) == cond_stack(
            code,
            p + chain_code(atoms, k, conn).len(),
            st.push(chain_stack(atoms, k, conn)),
            funcs,
        ),
    decreases k,
{
    let cc = chain_code(atoms, k, conn);
    assert forall|j: int| 0 <= j < cc.len() implies code[p + j] == cc[j] by {
        assert(code.subrange(p as int, (p + cc.len()) as int)[j] == code[p + j]);
    }
    if k == 1 {
        assert(atoms[0] == atoms[0]);
        assert(code.subrange(p as int, (p + atom_code(atoms[0]).len()) as int) =~= atom_code(atoms[0]));
        lemma_atom_stack(code, p, st, atoms[0], funcs);
    } else {
        let prev = chain_code(atoms, (k - 1) as nat, conn);
        let a = atoms[k - 1];
        let ac = atom_code(a);
        assert(cc == prev + ac + seq![conn_byte(conn)]);
        assert(code.subrange(p as int, (p + prev.len()) as int) =~= prev) by {
            assert forall|j: int| 0 <= j < prev.len() implies code.subrange(p as int, (p + prev.len()) as int)[j] == prev[j] by {
                assert(code[p + j] == cc[j]);
            }
        }
        lemma_chain_stack(code, p, st, atoms, (k - 1) as nat, conn, funcs);
        let x = chain_stack(atoms, (k - 1) as nat, conn);
        let q = p + prev.len();
        assert(code.subrange(q as int, (q + ac.len()) as int) =~= ac) by {
            assert forall|j: int| 0 <= j < ac.len() implies code.subrange(q as int, (q + ac.len()) as int)[j] == ac[j] by {
                assert(code[p + prev.len() + j] == cc[prev.len() + j]);
            }
        }
        lemma_atom_stack(code, q, st.push(x), a, funcs);
        assert(code[(q + ac.len()) as int] == cc[(prev.len() + ac.len()) as int]);
        lemma_conn_stack(code, q + ac.len(), st, x, atom_stack_text(a), conn, funcs);
        assert(st.push(atom_stack_text(a) + seq![' '] + x + seq![' '] + conn) =~= st.push(chain_stack(atoms, k, conn)));
    }
}

/// The tokens of the postfix text of a comparison.
spec fn atom_tokens(a: ChainAtom) -> Seq<Seq<char>> {
    seq![dec_nat(a.4), atom_call(a), a.3]
}

/// The tokens of the postfix text of a chain.
spec fn chain_tokens(atoms: Seq<ChainAtom>, k: nat, conn: Seq<char>) -> Seq<Seq<char>>
    decreases k,
{
    if k <= 1 {
        atom_tokens(atoms[0])
    } else {
        atom_tokens(atoms[k - 1]) + chain_tokens(atoms, (k - 1) as nat, conn) + seq![conn]
    }
}

/// The call text of a comparison holds no space and ends in `)`.
proof fn lemma_atom_call_plain(a: ChainAtom, funcs: Seq<(Seq<char>, Seq<char>)>)
    requires
        atom_ok(a, funcs),
    ensures
        atom_call(a).len() > 0,
        atom_call(a)[atom_call(a).len() - 1] == ')',
        forall|j: int| 0 <= j < atom_call(a).len() ==> atom_call(a)[j] != ' ',
{
    let c = atom_call(a);
    let f = a.0;
    assert forall|j: int| 0 <= j < c.len() implies c[j] != ' ' by {
        if j < f.len() {
            assert(c[j] == f[j]);
            assert(is_name_char(f[j]));
        } else if a.2 is Some && f.len() < j < c.len() - 1 {
            let u = a.2->0;
            lemma_dec_nat_digits(u);
            assert(c[j] == dec_nat(u)[j - f.len() - 1]);
            assert(is_digit(dec_nat(u)[j - f.len() - 1]));
        }
    }
}

/// Splitting the postfix text of a chain at spaces gives its tokens.
proof fn lemma_chain_split(atoms: Seq<ChainAtom>, k: nat, conn: Seq<char>, funcs: Seq<(Seq<char>, Seq<char>)>)
    requires
        1 <= k <= atoms.len(),
        forall|i: int| 0 <= i < atoms.len() ==> atom_ok(#[trigger] atoms[i], funcs),
        conn == seq!['a', 'n', 'd'] || conn == seq!['o', 'r'],
    ensures
        split_on(chain_stack(atoms, k, conn), ' ') == chain_tokens(atoms, k, conn),
    decreases k,
{
    let a = atoms[k - 1];
    assert(atom_ok(a, funcs));
    lemma_atom_call_plain(a, funcs);
    lemma_op_code(a.3);
    let n = dec_nat(a.4);
    lemma_dec_nat_digits(a.4);
    assert forall|j: int| 0 <= j < n.len() implies n[j] != ' ' by {
        assert(is_digit(n[j]));
    }
    lemma_split_absent(n, ' ');
    lemma_split_absent(atom_call(a), ' ');
    lemma_split_absent(a.3, ' ');
    lemma_split_at_sep(atom_call(a), ' ', a.3);
    let st = atom_stack_text(a);
    assert(st =~= n + seq![' '] + (atom_call(a) + seq![' '] + a.3));
    lemma_split_at_sep(n, ' ', atom_call(a) + seq![' '] + a.3);
    assert(split_on(st, ' ') =~= atom_tokens(a));
    if k > 1 {
        lemma_chain_split(atoms, (k - 1) as nat, conn, funcs);
        let r = chain_stack(atoms, (k - 1) as nat, conn);
        lemma_split_absent(conn, ' ');
        lemma_split_at_sep(r, ' ', conn);
        assert(chain_stack(atoms, k, conn) =~= st + seq![' '] + (r + seq![' '] + conn));
        lemma_split_at_sep(st, ' ', r + seq![' '] + conn);
        assert(split_on(chain_stack(atoms, k, conn), ' ') =~= chain_tokens(atoms, k, conn));
    }
}

/// The node stack after the tokens `ts`, from the stack `st`.
spec fn ast_fold(st: Seq<SpecNodeType>, ts: Seq<Seq<char>>) -> Option<Seq<SpecNodeType>>
    decreases ts.len(),
{
    if ts.len() == 0 {
        Some(st)
    } else {
        match crate::types::decompile::condition_spec::ast_push(st, ts[0]) {
            Some(s2) => ast_fold(s2, ts.drop_first()),
            None => None,
        }
    }
}

/// Folding two token lists one after the other.
proof fn lemma_fold_concat(st: Seq<SpecNodeType>, xs: Seq<Seq<char>>, ys: Seq<Seq<char>>)
    ensures
        ast_fold(st, xs + ys) == match ast_fold(st, xs) {
            Some(s) => ast_fold(s, ys),
            None => None,
        },
    decreases xs.len(),
{
    if xs.len() == 0 {
        assert(xs + ys =~= ys);
    } else {
        assert((xs + ys).drop_first() =~= xs.drop_first() + ys);
        assert((xs + ys)[0] == xs[0]);
        match crate::types::decompile::condition_spec::ast_push(st, xs[0]) {
            Some(s2) => lemma_fold_concat(s2, xs.drop_first(), ys),
            None => {},
        }
    }
}

/// Folding one token is pushing it.
proof fn lemma_fold_one(st: Seq<SpecNodeType>, t: Seq<char>)
    ensures
        ast_fold(st, seq![t]) == crate::types::decompile::condition_spec::ast_push(st, t),
{
    assert(seq![t].drop_first() =~= Seq::<Seq<char>>::empty());
    assert(seq![t][0] == t);
    match crate::types::decompile::condition_spec::ast_push(st, t) {
        Some(s2) => {
            assert(ast_fold(s2, Seq::<Seq<char>>::empty()) == Some(s2));
        },
        None => {},
    }
}

/// Building the tree of the first `n` tokens is folding them.
proof fn lemma_build_fold(ts: Seq<Seq<char>>, n: nat)
    requires
        n <= ts.len(),
    ensures
        ast_build(ts, n) == ast_fold(seq![], ts.take(n as int)),
    decreases n,
{
    if n == 0 {
        assert(ts.take(0) =~= Seq::<Seq<char>>::empty());
    } else {
        lemma_build_fold(ts, (n - 1) as nat);
        assert(ts.take(n as int) =~= ts.take(n - 1) + seq![ts[n - 1]]);
        lemma_fold_concat(seq![], ts.take(n - 1), seq![ts[n - 1]]);
        match ast_fold(seq![], ts.take(n - 1)) {
            Some(s) => lemma_fold_one(s, ts[n - 1]),
            None => {},
        }
    }
}

/// The tree of a comparison.
spec fn atom_tree(a: ChainAtom) -> SpecNodeType {
    SpecNodeType::Eq(
        SpecNode {
            children: seq![SpecNodeType::Value(atom_call(a)), SpecNodeType::Value(dec_nat(a.4))],
            operator: a.3,
        },
    )
}

/// The tree of a chain: each connective joins the chain so far and the next
/// comparison.
spec fn chain_tree(atoms: Seq<ChainAtom>, k: nat, conn: Seq<char>) -> SpecNodeType
    decreases k,
{
    if k <= 1 {
        atom_tree(atoms[0])
    } else {
        let node = SpecNode { children: seq![chain_tree(atoms, (k - 1) as nat, conn), atom_tree(atoms[k - 1])], operator: conn };
        if conn == seq!['a', 'n', 'd'] {
            SpecNodeType::And(node)
        } else {
            SpecNodeType::Or(node)
        }
    }
}

/// The tokens of a comparison push its tree.
proof fn lemma_atom_fold(st: Seq<SpecNodeType>, a: ChainAtom, funcs: Seq<(Seq<char>, Seq<char>)>)
    requires
        atom_ok(a, funcs),
    ensures
        ast_fold(st, atom_tokens(a)) == Some(st.push(atom_tree(a))),
{
    lemma_reveal_words();
    lemma_reveal_ops();
    lemma_op_code(a.3);
    lemma_atom_call_plain(a, funcs);
    let n = dec_nat(a.4);
    let call = atom_call(a);
    lemma_dec_nat_digits(a.4);
    assert(!is_binary_token(n)) by {
        assert(is_digit(n[0]));
    }
    assert(n != "not"@) by {
        assert(is_digit(n[0]));
    }
    assert(!is_binary_token(call));
    assert(call != "not"@);
    let ts = atom_tokens(a);
    let s1 = st.push(SpecNodeType::Value(n));
    let s2 = s1.push(SpecNodeType::Value(call));
    assert(ts.drop_first() =~= seq![call, a.3]);
    assert(ts.drop_first().drop_first() =~= seq![a.3]);
    assert(seq![a.3].drop_first() =~= Seq::<Seq<char>>::empty());
    let k = s2.len() as int;
    assert(s2[k - 1] == SpecNodeType::Value(call) && s2[k - 2] == SpecNodeType::Value(n));
    assert(s2.subrange(0, k - 2) =~= st);
    assert(seq![s2[k - 1], s2[k - 2]] =~= seq![SpecNodeType::Value(call), SpecNodeType::Value(n)]);
    assert(crate::types::decompile::condition_spec::ast_push(s2, a.3) == Some(st.push(atom_tree(a))));
    lemma_fold_one(s2, a.3);
    assert(ast_fold(s2, seq![a.3]) == Some(st.push(atom_tree(a))));
    assert(crate::types::decompile::condition_spec::ast_push(s1, call) == Some(s2));
    assert(seq![call, a.3].drop_first() =~= seq![a.3]);
    assert(ast_fold(s1, seq![call, a.3]) == Some(st.push(atom_tree(a))));
}

/// The tokens of a chain push its tree.
proof fn lemma_chain_fold(st: Seq<SpecNodeType>, atoms: Seq<ChainAtom>, k: nat, conn: Seq<char>, funcs: Seq<(Seq<char>, Seq<char>)>)
    requires
        1 <= k <= atoms.len(),
        forall|i: int| 0 <= i < atoms.len() ==> atom_ok(#[trigger] atoms[i], funcs),
        conn == seq!['a', 'n', 'd'] || conn == seq!['o', 'r'],
    ensures
        ast_fold(st, chain_tokens(atoms, k, conn)) == Some(st.push(chain_tree(atoms, k, conn))),
    decreases k,
{
    let a = atoms[k - 1];
    assert(atom_ok(a, funcs));
    if k == 1 {
        lemma_atom_fold(st, a, funcs);
    } else {
        lemma_reveal_words();
        lemma_reveal_ops();
        let at = atom_tree(a);
        let ct = chain_tree(atoms, (k - 1) as nat, conn);
        lemma_atom_fold(st, a, funcs);
        lemma_chain_fold(st.push(at), atoms, (k - 1) as nat, conn, funcs);
        let rest = chain_tokens(atoms, (k - 1) as nat, conn);
        assert(chain_tokens(atoms, k, conn) == atom_tokens(a) + rest + seq![conn]);
        lemma_fold_concat(st, atom_tokens(a), rest + seq![conn]);
        assert(atom_tokens(a) + rest + seq![conn] =~= atom_tokens(a) + (rest + seq![conn]));
        lemma_fold_concat(st.push(at), rest, seq![conn]);
        let s2 = st.push(at).push(ct);
        assert(is_binary_token(conn));
        assert(!crate::types::decompile::condition_spec::is_eq_token(conn));
        assert(!crate::types::decompile::condition_spec::is_low_token(conn));
        assert(!crate::types::decompile::condition_spec::is_high_token(conn));
        let kk = s2.len() as int;
        assert(s2[kk - 1] == ct && s2[kk - 2] == at);
        assert(s2.subrange(0, kk - 2) =~= st);
        assert(seq![s2[kk - 1], s2[kk - 2]] =~= seq![ct, at]);
        assert(crate::types::decompile::condition_spec::ast_push(s2, conn) == Some(st.push(chain_tree(atoms, k, conn))));
        lemma_fold_one(s2, conn);
        assert(ast_fold(s2, seq![conn]) == Some(st.push(chain_tree(atoms, k, conn))));
    }
}

/// The tree of a chain prints as the chain, and as an operand of its own
/// connective it needs no parentheses.
proof fn lemma_chain_render(atoms: Seq<ChainAtom>, k: nat, conn: Seq<char>, funcs: Seq<(Seq<char>, Seq<char>)>)
    requires
        1 <= k <= atoms.len(),
        forall|i: int| 0 <= i < atoms.len() ==> atom_ok(#[trigger] atoms[i], funcs),
        conn == seq!['a', 'n', 'd'] || conn == seq!['o', 'r'],
    ensures
        render(chain_tree(atoms, k, conn)) == Some(chain_print(atoms, k, conn)),
        conn == seq!['a', 'n', 'd'] ==> crate::types::decompile::condition_spec::and_part(chain_tree(atoms, k, conn))
            == Some(chain_print(atoms, k, conn)),
        conn == seq!['o', 'r'] ==> crate::types::decompile::condition_spec::or_part(chain_tree(atoms, k, conn))
            == Some(chain_print(atoms, k, conn)),
    decreases k,
{
    let a = atoms[k - 1];
    assert(atom_ok(a, funcs));
    lemma_atom_call_plain(a, funcs);
    lemma_op_render(atom_call(a), a.3, a.4);
    assert(atom_call(a) + seq![' '] + a.3 + seq![' '] + dec_nat(a.4) == atom_print(a));
    if k > 1 {
        lemma_chain_render(atoms, (k - 1) as nat, conn, funcs);
        let x = chain_print(atoms, (k - 1) as nat, conn);
        assert(infix(x, conn, atom_print(a)) =~= chain_print(atoms, k, conn));
    }
}

/// Decompiling the bytecode of comparisons joined by one connective (`and`
/// or `or`), each comparison compiled as `law_comparison_roundtrip` and
/// `law_call_comparison_roundtrip` show and the connective written after
/// each comparison but the first, prints the comparisons back joined by the
/// connective, on an indented `if` line.
pub proof fn law_chain_decompiles(atoms: Seq<ChainAtom>, conn: Seq<char>, funcs: Seq<(Seq<char>, Seq<char>)>)
    requires
        atoms.len() >= 1,
        forall|i: int| 0 <= i < atoms.len() ==> atom_ok(#[trigger] atoms[i], funcs),
        conn == seq!['a', 'n', 'd'] || conn == seq!['o', 'r'],
    ensures
        condition_line(chain_code(atoms, atoms.len(), conn) + seq![0xA1u8], funcs) == Some(
            "        if "@ + chain_print(atoms, atoms.len(), conn) + seq![':'],
        ),
{
    let k = atoms.len();
    let cc = chain_code(atoms, k, conn);
    let code = cc + seq![0xA1u8];
    assert(code.subrange(0, cc.len() as int) =~= cc);
    lemma_chain_stack(code, 0, seq![], atoms, k, conn, funcs);
    assert(Seq::<Seq<char>>::empty().push(chain_stack(atoms, k, conn)) =~= seq![chain_stack(atoms, k, conn)]);
    let text = chain_stack(atoms, k, conn);
    assert(code[cc.len() as int] == 0xA1u8);
    assert(cond_stack(code, cc.len(), seq![text], funcs) == Some(seq![text]));
    reveal_strlit("1");
    let a = atoms[k - 1];
    assert(atom_ok(a, funcs));
    lemma_atom_call_plain(a, funcs);
    lemma_dec_nat_digits(a.4);
    assert(text.len() > 1) by {
        if k > 1 {
        } else {
            assert(atoms[0] == a);
        }
    }
    assert(text != "1"@);
    lemma_chain_split(atoms, k, conn, funcs);
    let tokens = chain_tokens(atoms, k, conn);
    lemma_build_fold(tokens, tokens.len());
    assert(tokens.take(tokens.len() as int) =~= tokens);
    lemma_chain_fold(seq![], atoms, k, conn, funcs);
    assert(Seq::<SpecNodeType>::empty().push(chain_tree(atoms, k, conn)) =~= seq![chain_tree(atoms, k, conn)]);
    lemma_chain_render(atoms, k, conn, funcs);
}


/// A state of the conversion to postfix order between comparisons: the
/// output and stack given, one value counted or none, no call open.
spec fn pf_state(out: Seq<Seq<char>>, stk: Seq<Seq<char>>, v: i32) -> PostfixState {
    PostfixState { output: out, stack: stk, values: seq![v], is_fn: seq![false], opens_call: false }
}

/// The conversion state after the tokens `ts`, from the state `st`.
spec fn pf_fold(st: PostfixState, ts: Seq<Seq<char>>, funcs: Seq<(Seq<char>, Seq<char>)>) -> Option<PostfixState>
    decreases ts.len(),
{
    if ts.len() == 0 {
        Some(st)
    } else {
        match crate::types::compile::condition_spec::postfix_step(st, ts[0], funcs) {
            Some(s2) => pf_fold(s2, ts.drop_first(), funcs),
            None => None,
        }
    }
}

/// Converting two token lists one after the other.
proof fn lemma_pf_fold_concat(st: PostfixState, xs: Seq<Seq<char>>, ys: Seq<Seq<char>>, funcs: Seq<(Seq<char>, Seq<char>)>)
    ensures
        pf_fold(st, xs + ys, funcs) == match pf_fold(st, xs, funcs) {
            Some(s) => pf_fold(s, ys, funcs),
            None => None,
        },
    decreases xs.len(),
{
    if xs.len() == 0 {
        assert(xs + ys =~= ys);
    } else {
        assert((xs + ys).drop_first() =~= xs.drop_first() + ys);
        assert((xs + ys)[0] == xs[0]);
        match crate::types::compile::condition_spec::postfix_step(st, xs[0], funcs) {
            Some(s2) => lemma_pf_fold_concat(s2, xs.drop_first(), ys, funcs),
            None => {},
        }
    }
}

/// Converting one token is one step.
proof fn lemma_pf_fold_one(st: PostfixState, t: Seq<char>, funcs: Seq<(Seq<char>, Seq<char>)>)
    ensures
        pf_fold(st, seq![t], funcs) == crate::types::compile::condition_spec::postfix_step(st, t, funcs),
{
    assert(seq![t].drop_first() =~= Seq::<Seq<char>>::empty());
    assert(seq![t][0] == t);
    match crate::types::compile::condition_spec::postfix_step(st, t, funcs) {
        Some(s2) => {
            assert(pf_fold(s2, Seq::<Seq<char>>::empty(), funcs) == Some(s2));
        },
        None => {},
    }
}

/// Running the conversion over the first `n` tokens is folding them.
proof fn lemma_run_fold(ts: Seq<Seq<char>>, n: nat, funcs: Seq<(Seq<char>, Seq<char>)>)
    requires
        n <= ts.len(),
    ensures
        postfix_run(ts, n, funcs) == pf_fold(pf_state(seq![], seq![], 0), ts.take(n as int), funcs),
    decreases n,
{
    if n == 0 {
        assert(ts.take(0) =~= Seq::<Seq<char>>::empty());
    } else {
        lemma_run_fold(ts, (n - 1) as nat, funcs);
        assert(ts.take(n as int) =~= ts.take(n - 1) + seq![ts[n - 1]]);
        lemma_pf_fold_concat(pf_state(seq![], seq![], 0), ts.take(n - 1), seq![ts[n - 1]], funcs);
        match pf_fold(pf_state(seq![], seq![], 0), ts.take(n - 1), funcs) {
            Some(s) => lemma_pf_fold_one(s, ts[n - 1], funcs),
            None => {},
        }
    }
}


/// The connectives `and` and `or`.
pub open spec fn is_conn(conn: Seq<char>) -> bool {
    conn == seq!['a', 'n', 'd'] || conn == seq!['o', 'r']
}

/// A stack that holds connectives only.
spec fn quiet_stack(stk: Seq<Seq<char>>) -> bool {
    forall|i: int| 0 <= i < stk.len() ==> is_conn(#[trigger] stk[i])
}

/// A connective is no number, names no definition and is no `True`; its
/// precedence is 0 or 1 and its byte that of `conn_byte`.
proof fn lemma_conn_facts(t: Seq<char>, funcs: Seq<(Seq<char>, Seq<char>)>)
    requires
        plain_defs(funcs),
        is_conn(t),
    ensures
        parse_in(t, i64::MIN as int, i64::MAX as int) is None,
        !defs_has_name(funcs, t),
        t != "True"@,
        forall|j: int| 0 <= j < t.len() ==> t[j] != ':',
        precedence(t) matches Some(p) && 0 <= p <= 1,
        crate::types::compile::condition_spec::op_byte(t) == Some(conn_byte(t)),
{
    lemma_contains_self(t);
    lemma_not_defined(funcs, t);
    assert(!is_digit(t[0]));
    lemma_not_number(t, i64::MIN as int, i64::MAX as int);
    assert(t != "True"@) by {
        lemma_reveal_ops();
    }
    assert(forall|j: int| 0 <= j < t.len() ==> t[j] != ':');
    assert(precedence(t) matches Some(p) && 0 <= p <= 1) by {
        lemma_reveal_words();
        lemma_reveal_ops();
    }
    assert(crate::types::compile::condition_spec::op_byte(t) == Some(conn_byte(t))) by {
        lemma_reveal_words();
        lemma_reveal_ops();
    }
}

/// The conversion puts a defined function into the output and expects its
/// call.
proof fn lemma_g_name(out: Seq<Seq<char>>, stk: Seq<Seq<char>>, f: Seq<char>, funcs: Seq<(Seq<char>, Seq<char>)>)
    requires
        plain_defs(funcs),
        defs_has_name(funcs, f),
    ensures
        crate::types::compile::condition_spec::postfix_step(pf_state(out, stk, 0), f, funcs) == Some(
            PostfixState { output: out.push(f), stack: stk, values: seq![1], is_fn: seq![false, true], opens_call: true },
        ),
{
    let i = choose|i: int| 0 <= i < funcs.len() && (#[trigger] funcs[i]).1 == f;
    assert(plain_name(funcs[i].1));
    assert(is_name_char(f[0]));
    lemma_not_number(f, i64::MIN as int, i64::MAX as int);
    assert(seq![0i32].update(0, 1) =~= seq![1i32]);
}

/// The conversion opens a call at `(`.
proof fn lemma_g_open(out: Seq<Seq<char>>, stk: Seq<Seq<char>>, funcs: Seq<(Seq<char>, Seq<char>)>)
    requires
        plain_defs(funcs),
    ensures
        crate::types::compile::condition_spec::postfix_step(
            PostfixState { output: out, stack: stk, values: seq![1], is_fn: seq![false, true], opens_call: true },
            seq!['('],
            funcs,
        ) == Some(
            PostfixState { output: out, stack: stk.push(seq!['(']), values: seq![1, 0], is_fn: seq![false, true], opens_call: false },
        ),
{
    lemma_reveal_words();
    lemma_reveal_ops();
    let po = seq!['('];
    lemma_not_defined(funcs, po);
    lemma_not_number(po, i64::MIN as int, i64::MAX as int);
    assert(precedence(po) is None);
    assert(seq![1i32].push(0) =~= seq![1i32, 0i32]);
}

/// The conversion puts a number inside a call into the output and counts
/// it.
proof fn lemma_g_arg(out: Seq<Seq<char>>, stk: Seq<Seq<char>>, a: Seq<char>, funcs: Seq<(Seq<char>, Seq<char>)>)
    requires
        parse_in(a, i64::MIN as int, i64::MAX as int) is Some,
    ensures
        crate::types::compile::condition_spec::postfix_step(
            PostfixState { output: out, stack: stk.push(seq!['(']), values: seq![1, 0], is_fn: seq![false, true], opens_call: false },
            a,
            funcs,
        ) == Some(
            PostfixState { output: out.push(a), stack: stk.push(seq!['(']), values: seq![1, 1], is_fn: seq![false, true], opens_call: false },
        ),
{
    assert(seq![1i32, 0i32].update(1, 1) =~= seq![1i32, 1i32]);
}

/// The conversion closes a call at `)`, adding its argument count.
proof fn lemma_g_close(out: Seq<Seq<char>>, stk: Seq<Seq<char>>, c: i32, funcs: Seq<(Seq<char>, Seq<char>)>)
    requires
        plain_defs(funcs),
    ensures
        crate::types::compile::condition_spec::postfix_step(
            PostfixState { output: out, stack: stk.push(seq!['(']), values: seq![1, c], is_fn: seq![false, true], opens_call: false },
            seq![')'],
            funcs,
        ) == Some(pf_state(out.push(seq!['('] + dec_int(c as int) + seq![')']), stk, 1)),
{
    lemma_reveal_words();
    lemma_reveal_ops();
    let pc = seq![')'];
    lemma_not_defined(funcs, pc);
    lemma_not_number(pc, i64::MIN as int, i64::MAX as int);
    assert(precedence(pc) is None);
    assert(stk.push(seq!['(']).drop_last() =~= stk);
    assert(stk.push(seq!['(']).last() == "("@);
    assert(seq![1i32, c].drop_last() =~= seq![1i32]);
    assert(seq![false, true].drop_last() =~= seq![false]);
}

/// The conversion stacks a comparison operator above at most one
/// connective.
proof fn lemma_g_op(out: Seq<Seq<char>>, stk: Seq<Seq<char>>, op: Seq<char>, funcs: Seq<(Seq<char>, Seq<char>)>)
    requires
        plain_defs(funcs),
        comparison_op(op),
        quiet_stack(stk),
    ensures
        crate::types::compile::condition_spec::postfix_step(pf_state(out, stk, 1), op, funcs) == Some(
            pf_state(out, stk.push(op), 0),
        ),
{
    lemma_op_code(op);
    assert(!is_name_char(op[0]));
    lemma_not_defined(funcs, op);
    lemma_not_number(op, i64::MIN as int, i64::MAX as int);
    if stk.len() > 0 {
        assert(is_conn(stk[stk.len() - 1]));
        lemma_conn_facts(stk.last(), funcs);
    }
    assert(crate::types::compile::condition_spec::pop_ops(out, stk, 3) == (out, stk));
    assert(seq![1i32].update(0, 0) =~= seq![0i32]);
}

/// The conversion moves the operator, and an earlier connective, to the
/// output at a connective.
proof fn lemma_g_conn(out: Seq<Seq<char>>, stk: Seq<Seq<char>>, op: Seq<char>, conn: Seq<char>, funcs: Seq<(Seq<char>, Seq<char>)>)
    requires
        plain_defs(funcs),
        comparison_op(op),
        is_conn(conn),
        stk.len() == 0 || stk == seq![conn],
    ensures
        crate::types::compile::condition_spec::postfix_step(pf_state(out, stk.push(op), 1), conn, funcs) == Some(
            pf_state(if stk.len() == 0 { out.push(op) } else { out.push(op).push(conn) }, seq![conn], 0),
        ),
{
    lemma_op_code(op);
    lemma_conn_facts(conn, funcs);
    let p = precedence(conn)->0;
    let s1 = stk.push(op);
    assert(s1.last() == op);
    assert(s1.drop_last() =~= stk);
    if stk.len() == 0 {
        assert(crate::types::compile::condition_spec::pop_ops(out.push(op), stk, p) == (out.push(op), stk));
    } else {
        assert(stk.last() == conn);
        assert(stk.drop_last() =~= Seq::<Seq<char>>::empty());
        assert(crate::types::compile::condition_spec::pop_ops(
            out.push(op).push(conn),
            Seq::<Seq<char>>::empty(),
            p,
        ) == (out.push(op).push(conn), Seq::<Seq<char>>::empty()));
        assert(crate::types::compile::condition_spec::pop_ops(out.push(op), stk, p) == (
            out.push(op).push(conn),
            Seq::<Seq<char>>::empty(),
        ));
    }
    assert(Seq::<Seq<char>>::empty().push(conn) =~= seq![conn]);
    assert(seq![1i32].update(0, 0) =~= seq![0i32]);
}


/// Whether a comparison compiles and decompiles: it decompiles (`atom_ok`),
/// and its id is the one that compiling finds for its name.
pub open spec fn atom_compiles(a: ChainAtom, funcs: Seq<(Seq<char>, Seq<char>)>) -> bool {
    &&& atom_ok(a, funcs)
    &&& last_id_of(funcs, a.0, 0, 255) == Some(Some(a.1))
}

/// The tokens that compiling reads for a comparison.
pub open spec fn atom_in(a: ChainAtom) -> Seq<Seq<char>> {
    match a.2 {
        Some(u) => seq![a.0, seq!['('], dec_nat(u), seq![')'], a.3, dec_nat(a.4)],
        None => seq![a.0, seq!['('], seq![')'], a.3, dec_nat(a.4)],
    }
}

/// The postfix tokens of a comparison but its operator.
spec fn atom_out(a: ChainAtom) -> Seq<Seq<char>> {
    match a.2 {
        Some(u) => seq![a.0, dec_nat(u), seq!['(', '1', ')'], dec_nat(a.4)],
        None => seq![a.0, seq!['(', '0', ')'], dec_nat(a.4)],
    }
}

/// A printed number up to `u32::MAX` reads back as a number.
proof fn lemma_printed_is_number(v: nat)
    requires
        v <= u32::MAX,
    ensures
        parse_in(dec_nat(v), i64::MIN as int, i64::MAX as int) is Some,
{
    law_parse_printed_number(v as int, i64::MIN as int, i64::MAX as int);
    lemma_dec_int_plain(v as int);
}

/// Converting the tokens of a comparison puts all but its operator into the
/// output and stacks the operator.
proof fn lemma_atom_pf(out: Seq<Seq<char>>, stk: Seq<Seq<char>>, a: ChainAtom, funcs: Seq<(Seq<char>, Seq<char>)>)
    requires
        plain_defs(funcs),
        atom_compiles(a, funcs),
        quiet_stack(stk),
    ensures
        pf_fold(pf_state(out, stk, 0), atom_in(a), funcs) == Some(pf_state(out + atom_out(a), stk.push(a.3), 1)),
{
    lemma_last_id_found(funcs, a.0, 0, 255);
    let f = a.0;
    let op = a.3;
    let n = dec_nat(a.4);
    lemma_printed_is_number(a.4);
    let po = seq!['('];
    let pc = seq![')'];
    lemma_g_name(out, stk, f, funcs);
    let s1 = PostfixState { output: out.push(f), stack: stk, values: seq![1], is_fn: seq![false, true], opens_call: true };
    lemma_g_open(out.push(f), stk, funcs);
    let s2 = PostfixState { output: out.push(f), stack: stk.push(po), values: seq![1, 0], is_fn: seq![false, true], opens_call: false };
    match a.2 {
        Some(u) => {
            let d = dec_nat(u);
            lemma_printed_is_number(u);
            lemma_g_arg(out.push(f), stk, d, funcs);
            let s3 = PostfixState { output: out.push(f).push(d), stack: stk.push(po), values: seq![1, 1], is_fn: seq![false, true], opens_call: false };
            lemma_g_close(out.push(f).push(d), stk, 1, funcs);
            assert(dec_int(1) =~= seq!['1']);
            let o4 = out.push(f).push(d).push(seq!['(', '1', ')']);
            assert(seq!['('] + dec_int(1) + seq![')'] =~= seq!['(', '1', ')']);
            let s4 = pf_state(o4, stk, 1);
            lemma_g_op(o4, stk, op, funcs);
            let s5 = pf_state(o4, stk.push(op), 0);
            lemma_step_number(o4, stk.push(op), n, funcs);
            let s6 = pf_state(o4.push(n), stk.push(op), 1);
            let ts = atom_in(a);
            assert(ts.drop_first() =~= seq![po, d, pc, op, n]);
            assert(seq![po, d, pc, op, n].drop_first() =~= seq![d, pc, op, n]);
            assert(seq![d, pc, op, n].drop_first() =~= seq![pc, op, n]);
            assert(seq![pc, op, n].drop_first() =~= seq![op, n]);
            assert(seq![op, n].drop_first() =~= seq![n]);
            lemma_pf_fold_one(s5, n, funcs);
            assert(pf_fold(s4, seq![op, n], funcs) == Some(s6));
            assert(pf_fold(s3, seq![pc, op, n], funcs) == Some(s6));
            assert(pf_fold(s2, seq![d, pc, op, n], funcs) == Some(s6));
            assert(pf_fold(s1, seq![po, d, pc, op, n], funcs) == Some(s6));
            assert(o4.push(n) =~= out + atom_out(a));
        },
        None => {
            lemma_g_close(out.push(f), stk, 0, funcs);
            assert(dec_int(0) =~= seq!['0']);
            let o4 = out.push(f).push(seq!['(', '0', ')']);
            assert(seq!['('] + dec_int(0) + seq![')'] =~= seq!['(', '0', ')']);
            let s4 = pf_state(o4, stk, 1);
            lemma_g_op(o4, stk, op, funcs);
            let s5 = pf_state(o4, stk.push(op), 0);
            lemma_step_number(o4, stk.push(op), n, funcs);
            let s6 = pf_state(o4.push(n), stk.push(op), 1);
            let ts = atom_in(a);
            assert(ts.drop_first() =~= seq![po, pc, op, n]);
            assert(seq![po, pc, op, n].drop_first() =~= seq![pc, op, n]);
            assert(seq![pc, op, n].drop_first() =~= seq![op, n]);
            assert(seq![op, n].drop_first() =~= seq![n]);
            lemma_pf_fold_one(s5, n, funcs);
            assert(pf_fold(s4, seq![op, n], funcs) == Some(s6));
            assert(pf_fold(s2, seq![pc, op, n], funcs) == Some(s6));
            assert(pf_fold(s1, seq![po, pc, op, n], funcs) == Some(s6));
            assert(o4.push(n) =~= out + atom_out(a));
        },
    }
}


/// The tokens that compiling reads for the first `k` comparisons of a chain
/// joined by a connective, after `if`.
pub open spec fn chain_in(atoms: Seq<ChainAtom>, k: nat, conn: Seq<char>) -> Seq<Seq<char>>
    decreases k,
{
    if k <= 1 {
        seq![seq!['i', 'f']] + atom_in(atoms[0])
    } else {
        chain_in(atoms, (k - 1) as nat, conn) + seq![conn] + atom_in(atoms[k - 1])
    }
}

/// The postfix tokens of the first `k` comparisons of a chain.
spec fn chain_post(atoms: Seq<ChainAtom>, k: nat, conn: Seq<char>) -> Seq<Seq<char>>
    decreases k,
{
    if k <= 1 {
        atom_out(atoms[0]).push(atoms[0].3)
    } else {
        chain_post(atoms, (k - 1) as nat, conn) + atom_out(atoms[k - 1]) + seq![atoms[k - 1].3, conn]
    }
}

/// The conversion state after the tokens of the first `k` comparisons.
spec fn chain_pf_state(atoms: Seq<ChainAtom>, k: nat, conn: Seq<char>) -> PostfixState {
    if k <= 1 {
        pf_state(atom_out(atoms[0]), seq![atoms[0].3], 1)
    } else {
        pf_state(
            chain_post(atoms, (k - 2) as nat + 1, conn) + atom_out(atoms[k - 1]),
            seq![conn, atoms[k - 1].3],
            1,
        )
    }
}

/// Converting the tokens of the first `k` comparisons of a chain.
proof fn lemma_chain_pf(atoms: Seq<ChainAtom>, k: nat, conn: Seq<char>, funcs: Seq<(Seq<char>, Seq<char>)>)
    requires
        plain_defs(funcs),
        1 <= k <= atoms.len(),
        forall|i: int| 0 <= i < atoms.len() ==> atom_compiles(#[trigger] atoms[i], funcs),
        is_conn(conn),
    ensures
        pf_fold(pf_state(seq![], seq![], 0), chain_in(atoms, k, conn), funcs) == Some(chain_pf_state(atoms, k, conn)),
    decreases k,
{
    let s0 = pf_state(seq![], seq![], 0);
    let a = atoms[k - 1];
    assert(atom_compiles(a, funcs));
    if k == 1 {
        lemma_step_if(funcs);
        lemma_pf_fold_one(s0, seq!['i', 'f'], funcs);
        lemma_pf_fold_concat(s0, seq![seq!['i', 'f']], atom_in(a), funcs);
        lemma_atom_pf(seq![], seq![], a, funcs);
        assert(Seq::<Seq<char>>::empty() + atom_out(a) =~= atom_out(a));
        assert(Seq::<Seq<char>>::empty().push(a.3) =~= seq![a.3]);
    } else {
        lemma_chain_pf(atoms, (k - 1) as nat, conn, funcs);
        let prev = chain_in(atoms, (k - 1) as nat, conn);
        assert(chain_in(atoms, k, conn) =~= prev + (seq![conn] + atom_in(a)));
        lemma_pf_fold_concat(s0, prev, seq![conn] + atom_in(a), funcs);
        let ps = chain_pf_state(atoms, (k - 1) as nat, conn);
        lemma_pf_fold_concat(ps, seq![conn], atom_in(a), funcs);
        lemma_pf_fold_one(ps, conn, funcs);
        let b = atoms[k - 2];
        let y = chain_post(atoms, (k - 1) as nat, conn);
        if k == 2 {
            assert(atoms[0] == b);
            lemma_g_conn(atom_out(b), seq![], b.3, conn, funcs);
            assert(Seq::<Seq<char>>::empty().push(b.3) =~= seq![b.3]);
        } else {
            let x = chain_post(atoms, (k - 3) as nat + 1, conn) + atom_out(b);
            lemma_g_conn(x, seq![conn], b.3, conn, funcs);
            assert(seq![conn].push(b.3) =~= seq![conn, b.3]);
            assert(x.push(b.3).push(conn) =~= y);
        }
        lemma_reveal_words();
        lemma_atom_pf(y, seq![conn], a, funcs);
        assert(seq![conn].push(a.3) =~= seq![conn, a.3]);
        assert((k - 2) as nat + 1 == (k - 1) as nat);
    }
}


/// The postfix order of the tokens of a chain.
proof fn lemma_chain_postfix(atoms: Seq<ChainAtom>, conn: Seq<char>, funcs: Seq<(Seq<char>, Seq<char>)>)
    requires
        plain_defs(funcs),
        1 <= atoms.len(),
        forall|i: int| 0 <= i < atoms.len() ==> atom_compiles(#[trigger] atoms[i], funcs),
        is_conn(conn),
    ensures
        crate::types::compile::condition_spec::to_postfix_spec(chain_in(atoms, atoms.len(), conn), funcs)
            == Some(chain_post(atoms, atoms.len(), conn)),
{
    let k = atoms.len();
    let ts = chain_in(atoms, k, conn);
    lemma_chain_pf(atoms, k, conn, funcs);
    lemma_run_fold(ts, ts.len(), funcs);
    assert(ts.take(ts.len() as int) =~= ts);
    let st = chain_pf_state(atoms, k, conn);
    let a = atoms[k - 1];
    assert(reversed(Seq::<Seq<char>>::empty()) == Seq::<Seq<char>>::empty());
    assert(seq![a.3].drop_last() =~= Seq::<Seq<char>>::empty());
    assert(reversed(seq![a.3]) =~= seq![a.3]);
    if k == 1 {
        assert(st.output + reversed(st.stack) =~= chain_post(atoms, k, conn));
    } else {
        assert(seq![conn].drop_last() =~= Seq::<Seq<char>>::empty());
        assert(reversed(seq![conn]) =~= seq![conn]);
        assert(seq![conn, a.3].drop_last() =~= seq![conn]);
        assert(reversed(seq![conn, a.3]) =~= seq![a.3, conn]);
        assert((k - 2) as nat + 1 == (k - 1) as nat);
        assert(st.output + reversed(st.stack) =~= chain_post(atoms, k, conn));
    }
}

/// The bytes of the postfix tokens of a comparison of a function without
/// arguments.
proof fn lemma_atom_cb_zero(post: Seq<Seq<char>>, i: nat, acc: Seq<u8>, a: ChainAtom, funcs: Seq<(Seq<char>, Seq<char>)>)
    requires
        plain_defs(funcs),
        atom_compiles(a, funcs),
        a.2 is None,
        i + 4 <= post.len(),
        post[i as int] == a.0,
        post[i as int + 1] == seq!['(', '0', ')'],
        post[i as int + 2] == dec_nat(a.4),
        post[i as int + 3] == a.3,
    ensures
        crate::types::compile::condition_spec::cond_bytes(post, i, acc, funcs)
            == crate::types::compile::condition_spec::cond_bytes(post, i + 4, acc + atom_code(a), funcs),
{
    lemma_last_id_found(funcs, a.0, 0, 255);
    let f = a.0;
    let id = a.1;
    let v = a.4;
    lemma_comparison_token_bytes(f, v, funcs, id);
    lemma_op_code(a.3);
    let ob = crate::types::compile::condition_spec::op_byte(a.3)->0;
    lemma_comparison_post_plain(f, v);
    let b0 = seq![(id + 64) as u8];
    let b1 = acc + b0;
    let b2 = b1 + seq![0x84u8];
    let b3 = b2 + number_bytes(v);
    let b4 = b3 + seq![ob];
    lemma_cond_bytes_step(post, i, acc, funcs, b0);
    lemma_cond_bytes_step(post, (i + 1) as nat, b1, funcs, seq![0x84u8]);
    lemma_cond_bytes_step(post, (i + 2) as nat, b2, funcs, number_bytes(v));
    lemma_cond_bytes_step(post, (i + 3) as nat, b3, funcs, seq![ob]);
    assert(b4 =~= acc + atom_code(a));
}

/// The bytes of the postfix tokens of a comparison of a function of one
/// argument.
#[verifier::rlimit(50)]
proof fn lemma_atom_cb_one(post: Seq<Seq<char>>, i: nat, acc: Seq<u8>, a: ChainAtom, funcs: Seq<(Seq<char>, Seq<char>)>)
    requires
        plain_defs(funcs),
        atom_compiles(a, funcs),
        a.2 is Some,
        i + 5 <= post.len(),
        post[i as int] == a.0,
        post[i as int + 1] == dec_nat(a.2->0),
        post[i as int + 2] == seq!['(', '1', ')'],
        post[i as int + 3] == dec_nat(a.4),
        post[i as int + 4] == a.3,
    ensures
        crate::types::compile::condition_spec::cond_bytes(post, i, acc, funcs)
            == crate::types::compile::condition_spec::cond_bytes(post, i + 5, acc + atom_code(a), funcs),
{
    lemma_last_id_found(funcs, a.0, 0, 255);
    let f = a.0;
    let id = a.1;
    let v = a.4;
    let u = a.2->0;
    lemma_comparison_token_bytes(f, v, funcs, id);
    lemma_comparison_token_bytes(f, u, funcs, id);
    lemma_count_one_bytes(funcs);
    lemma_op_code(a.3);
    let ob = crate::types::compile::condition_spec::op_byte(a.3)->0;
    lemma_comparison_post_plain(f, v);
    lemma_comparison_post_plain(f, u);
    let b0 = seq![(id + 64) as u8];
    let b1 = acc + b0;
    let b2 = b1 + number_bytes(u);
    let b3 = b2 + seq![0x85u8];
    let b4 = b3 + number_bytes(v);
    let b5 = b4 + seq![ob];
    lemma_cond_bytes_step(post, i, acc, funcs, b0);
    lemma_cond_bytes_step(post, (i + 1) as nat, b1, funcs, number_bytes(u));
    lemma_cond_bytes_step(post, (i + 2) as nat, b2, funcs, seq![0x85u8]);
    lemma_cond_bytes_step(post, (i + 3) as nat, b3, funcs, number_bytes(v));
    lemma_cond_bytes_step(post, (i + 4) as nat, b4, funcs, seq![ob]);
    assert(b5 =~= acc + atom_code(a));
}

/// The bytes of the postfix tokens of a comparison are its bytecode.
proof fn lemma_atom_cb(post: Seq<Seq<char>>, i: nat, acc: Seq<u8>, a: ChainAtom, funcs: Seq<(Seq<char>, Seq<char>)>)
    requires
        plain_defs(funcs),
        atom_compiles(a, funcs),
        i + atom_out(a).len() + 1 <= post.len(),
        post.subrange(i as int, (i + atom_out(a).len() + 1) as int) == atom_out(a).push(a.3),
    ensures
        crate::types::compile::condition_spec::cond_bytes(post, i, acc, funcs)
            == crate::types::compile::condition_spec::cond_bytes(post, i + atom_out(a).len() + 1, acc + atom_code(a), funcs),
{
    let seg = atom_out(a).push(a.3);
    assert forall|j: int| 0 <= j < seg.len() implies post[i + j] == seg[j] by {
        assert(post.subrange(i as int, (i + seg.len()) as int)[j] == post[i + j]);
    }
    match a.2 {
        Some(u) => {
            assert(seg =~= seq![a.0, dec_nat(u), seq!['(', '1', ')'], dec_nat(a.4), a.3]);
            assert(post[i as int + 0] == seg[0]);
            assert(post[i as int + 1] == seg[1]);
            assert(post[i as int + 2] == seg[2]);
            assert(post[i as int + 3] == seg[3]);
            assert(post[i as int + 4] == seg[4]);
            lemma_atom_cb_one(post, i, acc, a, funcs);
        },
        None => {
            assert(seg =~= seq![a.0, seq!['(', '0', ')'], dec_nat(a.4), a.3]);
            assert(post[i as int + 0] == seg[0]);
            assert(post[i as int + 1] == seg[1]);
            assert(post[i as int + 2] == seg[2]);
            assert(post[i as int + 3] == seg[3]);
            lemma_atom_cb_zero(post, i, acc, a, funcs);
        },
    }
}


/// The bytes of the postfix tokens of the first `k` comparisons of a chain,
/// found at `i`, add the chain's bytecode.
proof fn lemma_chain_cb(post: Seq<Seq<char>>, i: nat, acc: Seq<u8>, atoms: Seq<ChainAtom>, k: nat, conn: Seq<char>, funcs: Seq<(Seq<char>, Seq<char>)>)
    requires
        plain_defs(funcs),
        1 <= k <= atoms.len(),
        forall|n: int| 0 <= n < atoms.len() ==> atom_compiles(#[trigger] atoms[n], funcs),
        is_conn(conn),
        i + chain_post(atoms, k, conn).len() <= post.len(),
        post.subrange(i as int, (i + chain_post(atoms, k, conn).len()) as int) == chain_post(atoms, k, conn),
    ensures
        crate::types::compile::condition_spec::cond_bytes(post, i, acc, funcs)
            == crate::types::compile::condition_spec::cond_bytes(
            post,
            i + chain_post(atoms, k, conn).len(),
            acc + chain_code(atoms, k, conn),
            funcs,
        ),
    decreases k,
{
    let cp = chain_post(atoms, k, conn);
    let a = atoms[k - 1];
    assert(atom_compiles(a, funcs));
    assert forall|j: int| 0 <= j < cp.len() implies post[i + j] == cp[j] by {
        assert(post.subrange(i as int, (i + cp.len()) as int)[j] == post[i + j]);
    }
    if k == 1 {
        assert(post.subrange(i as int, (i + atom_out(a).len() + 1) as int) =~= atom_out(a).push(a.3));
        lemma_atom_cb(post, i, acc, a, funcs);
    } else {
        let pp = chain_post(atoms, (k - 1) as nat, conn);
        assert(cp == pp + atom_out(a) + seq![a.3, conn]);
        assert(post.subrange(i as int, (i + pp.len()) as int) =~= pp) by {
            assert forall|j: int| 0 <= j < pp.len() implies post.subrange(i as int, (i + pp.len()) as int)[j] == pp[j] by {
                assert(post[i + j] == cp[j]);
            }
        }
        lemma_chain_cb(post, i, acc, atoms, (k - 1) as nat, conn, funcs);
        let m = atom_out(a).len() + 1;
        let q = i + pp.len();
        assert(post.subrange(q as int, (q + m) as int) =~= atom_out(a).push(a.3)) by {
            assert forall|j: int| 0 <= j < m implies post.subrange(q as int, (q + m) as int)[j]
                == atom_out(a).push(a.3)[j] by {
                assert(post[i + pp.len() + j] == cp[pp.len() + j]);
            }
        }
        let prev = acc + chain_code(atoms, (k - 1) as nat, conn);
        lemma_atom_cb(post, q, prev, a, funcs);
        let idx = q + m;
        assert(post[idx as int] == cp[(pp.len() + m) as int]);
        assert(post[idx as int] == conn);
        lemma_conn_facts(conn, funcs);
        lemma_cond_bytes_step(post, idx, prev + atom_code(a), funcs, seq![conn_byte(conn)]);
        assert(chain_code(atoms, k, conn) == chain_code(atoms, (k - 1) as nat, conn) + atom_code(a) + seq![conn_byte(conn)]);
        assert(prev + atom_code(a) + seq![conn_byte(conn)] =~= acc + chain_code(atoms, k, conn));
        assert(cp.len() == pp.len() + m + 1);
    }
}

/// The tokens that compiling reads for comparisons joined by one connective
/// (`and` or `or`), after `if`, convert to postfix order and compile to
/// bytecode that decompiles to the comparisons joined by the connective, on
/// an indented `if` line: when every defined function has a plain name, and
/// each comparison names a function with an id below 64 that compiling
/// finds for the name and that gives the name back, with numbers up to
/// `u32::MAX`.
pub proof fn law_chain_roundtrip(atoms: Seq<ChainAtom>, conn: Seq<char>, funcs: Seq<(Seq<char>, Seq<char>)>)
    requires
        plain_defs(funcs),
        atoms.len() >= 1,
        forall|i: int| 0 <= i < atoms.len() ==> atom_compiles(#[trigger] atoms[i], funcs),
        is_conn(conn),
    ensures
        crate::types::compile::condition_spec::to_postfix_spec(chain_in(atoms, atoms.len(), conn), funcs) matches Some(
            post,
        ) && crate::types::compile::condition_spec::cond_bytes(post, 0, seq![], funcs) matches Some(code)
            && condition_line(code, funcs) == Some("        if "@ + chain_print(atoms, atoms.len(), conn) + seq![':']),
{
    let k = atoms.len();
    lemma_chain_postfix(atoms, conn, funcs);
    let post = chain_post(atoms, k, conn);
    assert(post.subrange(0, post.len() as int) =~= post);
    lemma_chain_cb(post, 0, seq![], atoms, k, conn, funcs);
    assert(Seq::<u8>::empty() + chain_code(atoms, k, conn) =~= chain_code(atoms, k, conn));
    let cc = chain_code(atoms, k, conn);
    assert(crate::types::compile::condition_spec::cond_bytes(post, post.len(), cc, funcs) == Some(cc.push(0xA1)));
    assert(cc.push(0xA1) =~= cc + seq![0xA1u8]);
    assert forall|i: int| 0 <= i < atoms.len() implies atom_ok(#[trigger] atoms[i], funcs) by {
        assert(atom_compiles(atoms[i], funcs));
    }
    law_chain_decompiles(atoms, conn, funcs);
}




/// Comparisons joined by `and` and `or` without parentheses, read as `or`
/// binds them: the groups that `or` joins, each a list of comparisons that
/// `and` joins.
pub type MixedChain = Seq<Seq<ChainAtom>>;

/// Whether every group holds a comparison and every comparison decompiles.
pub open spec fn groups_ok(gs: MixedChain, funcs: Seq<(Seq<char>, Seq<char>)>) -> bool {
    &&& gs.len() >= 1
    &&& forall|i: int| 0 <= i < gs.len() ==> (#[trigger] gs[i]).len() >= 1
    &&& forall|i: int, j: int| 0 <= i < gs.len() && 0 <= j < gs[i].len() ==> atom_ok(#[trigger] gs[i][j], funcs)
}

/// The bytecode that compiling writes for the first `m` groups: each group
/// as an `and` chain, and `or` after each group but the first.
pub open spec fn mix_code(gs: MixedChain, m: nat) -> Seq<u8>
    decreases m,
{
    if m <= 1 {
        chain_code(gs[0], gs[0].len(), seq!['a', 'n', 'd'])
    } else {
        mix_code(gs, (m - 1) as nat) + chain_code(gs[m - 1], gs[m - 1].len(), seq!['a', 'n', 'd']) + seq![0x99u8]
    }
}

/// How decompiling prints the first `m` groups: the groups joined by `or`,
/// the comparisons of each joined by `and`.
pub open spec fn mix_print(gs: MixedChain, m: nat) -> Seq<char>
    decreases m,
{
    if m <= 1 {
        chain_print(gs[0], gs[0].len(), seq!['a', 'n', 'd'])
    } else {
        mix_print(gs, (m - 1) as nat) + seq![' ', 'o', 'r', ' '] + chain_print(gs[m - 1], gs[m - 1].len(), seq!['a', 'n', 'd'])
    }
}

/// The postfix text that running the bytecode of the first `m` groups leaves.
spec fn mix_stack(gs: MixedChain, m: nat) -> Seq<char>
    decreases m,
{
    if m <= 1 {
        chain_stack(gs[0], gs[0].len(), seq!['a', 'n', 'd'])
    } else {
        chain_stack(gs[m - 1], gs[m - 1].len(), seq!['a', 'n', 'd']) + seq![' '] + mix_stack(gs, (m - 1) as nat)
            + seq![' '] + seq!['o', 'r']
    }
}

/// The tokens of that postfix text.
spec fn mix_tokens(gs: MixedChain, m: nat) -> Seq<Seq<char>>
    decreases m,
{
    if m <= 1 {
        chain_tokens(gs[0], gs[0].len(), seq!['a', 'n', 'd'])
    } else {
        chain_tokens(gs[m - 1], gs[m - 1].len(), seq!['a', 'n', 'd']) + mix_tokens(gs, (m - 1) as nat) + seq![
            seq!['o', 'r'],
        ]
    }
}

/// The tree of the first `m` groups: each `or` joins the groups so far and
/// the next group.
spec fn mix_tree(gs: MixedChain, m: nat) -> SpecNodeType
    decreases m,
{
    if m <= 1 {
        chain_tree(gs[0], gs[0].len(), seq!['a', 'n', 'd'])
    } else {
        SpecNodeType::Or(
            SpecNode {
                children: seq![mix_tree(gs, (m - 1) as nat), chain_tree(gs[m - 1], gs[m - 1].len(), seq!['a', 'n', 'd'])],
                operator: seq!['o', 'r'],
            },
        )
    }
}

/// Every comparison of a group decompiles.
proof fn lemma_group_ok(gs: MixedChain, i: int, funcs: Seq<(Seq<char>, Seq<char>)>)
    requires
        groups_ok(gs, funcs),
        0 <= i < gs.len(),
    ensures
        gs[i].len() >= 1,
        forall|j: int| 0 <= j < gs[i].len() ==> atom_ok(#[trigger] gs[i][j], funcs),
{
    assert(gs[i].len() >= 1);
}

/// Running the bytecode of the first `m` groups leaves their postfix text.
#[verifier::rlimit(60)]
proof fn lemma_mix_stack(code: Seq<u8>, gs: MixedChain, m: nat, funcs: Seq<(Seq<char>, Seq<char>)>)
    requires
        groups_ok(gs, funcs),
        1 <= m <= gs.len(),
        mix_code(gs, m).len() <= code.len(),
        code.subrange(0, mix_code(gs, m).len() as int) == mix_code(gs, m),
    ensures
        cond_stack(code, 0, seq![], funcs) == cond_stack(code, mix_code(gs, m).len(), seq![mix_stack(gs, m)], funcs),
    decreases m,
{
    let w_and = seq!['a', 'n', 'd'];
    let mc = mix_code(gs, m);
    let g = gs[m - 1];
    lemma_group_ok(gs, m - 1, funcs);
    let gc = chain_code(g, g.len(), w_and);
    assert forall|j: int| 0 <= j < mc.len() implies code[j] == mc[j] by {
        assert(code.subrange(0, mc.len() as int)[j] == code[j]);
    }
    if m == 1 {
        lemma_chain_stack(code, 0, seq![], g, g.len(), w_and, funcs);
        assert(Seq::<Seq<char>>::empty().push(chain_stack(g, g.len(), w_and)) =~= seq![chain_stack(g, g.len(), w_and)]);
    } else {
        let prev = mix_code(gs, (m - 1) as nat);
        assert(mc == prev + gc + seq![0x99u8]);
        assert(code.subrange(0, prev.len() as int) =~= prev) by {
            assert forall|j: int| 0 <= j < prev.len() implies code.subrange(0, prev.len() as int)[j] == prev[j] by {
                assert(code[j] == mc[j]);
            }
        }
        lemma_mix_stack(code, gs, (m - 1) as nat, funcs);
        let x = mix_stack(gs, (m - 1) as nat);
        let q = prev.len();
        assert(code.subrange(q as int, (q + gc.len()) as int) =~= gc) by {
            assert forall|j: int| 0 <= j < gc.len() implies code.subrange(q as int, (q + gc.len()) as int)[j] == gc[j] by {
                assert(code[q + j] == mc[q + j]);
            }
        }
        lemma_chain_stack(code, q, seq![x], g, g.len(), w_and, funcs);
        let y = chain_stack(g, g.len(), w_and);
        assert(code[(q + gc.len()) as int] == mc[(q + gc.len()) as int]);
        assert(conn_byte(seq!['o', 'r']) == 0x99u8);
        lemma_conn_stack(code, q + gc.len(), Seq::<Seq<char>>::empty(), x, y, seq!['o', 'r'], funcs);
        assert(Seq::<Seq<char>>::empty().push(x) =~= seq![x]);
        assert(Seq::<Seq<char>>::empty().push(y + seq![' '] + x + seq![' '] + seq!['o', 'r']) =~= seq![mix_stack(gs, m)]);
    }
}

/// Splitting the postfix text of the first `m` groups at spaces gives its
/// tokens.
proof fn lemma_mix_split(gs: MixedChain, m: nat, funcs: Seq<(Seq<char>, Seq<char>)>)
    requires
        groups_ok(gs, funcs),
        1 <= m <= gs.len(),
    ensures
        split_on(mix_stack(gs, m), ' ') == mix_tokens(gs, m),
    decreases m,
{
    let w_and = seq!['a', 'n', 'd'];
    let w_or = seq!['o', 'r'];
    let g = gs[m - 1];
    lemma_group_ok(gs, m - 1, funcs);
    lemma_chain_split(g, g.len(), w_and, funcs);
    if m > 1 {
        lemma_mix_split(gs, (m - 1) as nat, funcs);
        let x = mix_stack(gs, (m - 1) as nat);
        let y = chain_stack(g, g.len(), w_and);
        lemma_split_absent(w_or, ' ');
        lemma_split_at_sep(x, ' ', w_or);
        assert(mix_stack(gs, m) =~= y + seq![' '] + (x + seq![' '] + w_or));
        lemma_split_at_sep(y, ' ', x + seq![' '] + w_or);
        assert(split_on(mix_stack(gs, m), ' ') =~= mix_tokens(gs, m));
    }
}

/// The tokens of the first `m` groups push their tree.
proof fn lemma_mix_fold(st: Seq<SpecNodeType>, gs: MixedChain, m: nat, funcs: Seq<(Seq<char>, Seq<char>)>)
    requires
        groups_ok(gs, funcs),
        1 <= m <= gs.len(),
    ensures
        ast_fold(st, mix_tokens(gs, m)) == Some(st.push(mix_tree(gs, m))),
    decreases m,
{
    let w_and = seq!['a', 'n', 'd'];
    let w_or = seq!['o', 'r'];
    let g = gs[m - 1];
    lemma_group_ok(gs, m - 1, funcs);
    if m == 1 {
        lemma_chain_fold(st, g, g.len(), w_and, funcs);
    } else {
        lemma_reveal_words();
        lemma_reveal_ops();
        let gt = chain_tree(g, g.len(), w_and);
        let mt = mix_tree(gs, (m - 1) as nat);
        lemma_chain_fold(st, g, g.len(), w_and, funcs);
        lemma_mix_fold(st.push(gt), gs, (m - 1) as nat, funcs);
        let gtok = chain_tokens(g, g.len(), w_and);
        let rest = mix_tokens(gs, (m - 1) as nat);
        assert(mix_tokens(gs, m) =~= gtok + (rest + seq![w_or]));
        lemma_fold_concat(st, gtok, rest + seq![w_or]);
        lemma_fold_concat(st.push(gt), rest, seq![w_or]);
        let s2 = st.push(gt).push(mt);
        assert(is_binary_token(w_or));
        assert(!crate::types::decompile::condition_spec::is_eq_token(w_or));
        assert(!crate::types::decompile::condition_spec::is_low_token(w_or));
        assert(!crate::types::decompile::condition_spec::is_high_token(w_or));
        assert(w_or != "and"@);
        let kk = s2.len() as int;
        assert(s2[kk - 1] == mt && s2[kk - 2] == gt);
        assert(s2.subrange(0, kk - 2) =~= st);
        assert(seq![s2[kk - 1], s2[kk - 2]] =~= seq![mt, gt]);
        assert(crate::types::decompile::condition_spec::ast_push(s2, w_or) == Some(st.push(mix_tree(gs, m))));
        lemma_fold_one(s2, w_or);
    }
}

/// An `and` chain prints the same as an operand of `or`.
proof fn lemma_group_or_part(g: Seq<ChainAtom>, funcs: Seq<(Seq<char>, Seq<char>)>)
    requires
        g.len() >= 1,
        forall|j: int| 0 <= j < g.len() ==> atom_ok(#[trigger] g[j], funcs),
    ensures
        crate::types::decompile::condition_spec::or_part(chain_tree(g, g.len(), seq!['a', 'n', 'd'])) == Some(
            chain_print(g, g.len(), seq!['a', 'n', 'd']),
        ),
{
    let w_and = seq!['a', 'n', 'd'];
    lemma_chain_render(g, g.len(), w_and, funcs);
}

/// The tree of the first `m` groups prints as the groups, also as an
/// operand of `or`.
proof fn lemma_mix_render(gs: MixedChain, m: nat, funcs: Seq<(Seq<char>, Seq<char>)>)
    requires
        groups_ok(gs, funcs),
        1 <= m <= gs.len(),
    ensures
        render(mix_tree(gs, m)) == Some(mix_print(gs, m)),
        crate::types::decompile::condition_spec::or_part(mix_tree(gs, m)) == Some(mix_print(gs, m)),
    decreases m,
{
    let w_and = seq!['a', 'n', 'd'];
    let g = gs[m - 1];
    lemma_group_ok(gs, m - 1, funcs);
    lemma_chain_render(g, g.len(), w_and, funcs);
    lemma_group_or_part(g, funcs);
    if m > 1 {
        lemma_mix_render(gs, (m - 1) as nat, funcs);
        let x = mix_print(gs, (m - 1) as nat);
        let y = chain_print(g, g.len(), w_and);
        assert(infix(x, seq!['o', 'r'], y) =~= mix_print(gs, m));
    }
}

/// Decompiling the bytecode of comparisons joined by `and` and `or` without
/// parentheses (each comparison compiled as `law_comparison_roundtrip` and
/// `law_call_comparison_roundtrip` show, each group of `and`s written as an
/// `and` chain and `or` written after each group but the first) prints the
/// comparisons back joined as they were, on an indented `if` line.
pub proof fn law_mixed_decompiles(gs: MixedChain, funcs: Seq<(Seq<char>, Seq<char>)>)
    requires
        groups_ok(gs, funcs),
    ensures
        condition_line(mix_code(gs, gs.len()) + seq![0xA1u8], funcs) == Some(
            "        if "@ + mix_print(gs, gs.len()) + seq![':'],
        ),
{
    let m = gs.len();
    let mc = mix_code(gs, m);
    let code = mc + seq![0xA1u8];
    assert(code.subrange(0, mc.len() as int) =~= mc);
    lemma_mix_stack(code, gs, m, funcs);
    let text = mix_stack(gs, m);
    assert(code[mc.len() as int] == 0xA1u8);
    assert(cond_stack(code, mc.len(), seq![text], funcs) == Some(seq![text]));
    reveal_strlit("1");
    lemma_group_ok(gs, m - 1, funcs);
    assert(text.len() > 1) by {
        if m <= 1 {
            let g = gs[0];
            if g.len() > 1 {
            } else {
                assert(chain_stack(g, g.len(), seq!['a', 'n', 'd']) == atom_stack_text(g[0]));
            }
        }
    }
    assert(text != "1"@);
    lemma_mix_split(gs, m, funcs);
    let tokens = mix_tokens(gs, m);
    lemma_build_fold(tokens, tokens.len());
    assert(tokens.take(tokens.len() as int) =~= tokens);
    lemma_mix_fold(seq![], gs, m, funcs);
    assert(Seq::<SpecNodeType>::empty().push(mix_tree(gs, m)) =~= seq![mix_tree(gs, m)]);
    lemma_mix_render(gs, m, funcs);
}


/// At `and`, the conversion moves the operator and an `and` below it to
/// the output, stopping at an `or`.
proof fn lemma_g_and(out: Seq<Seq<char>>, base: Seq<Seq<char>>, mid: Seq<Seq<char>>, op: Seq<char>, funcs: Seq<(Seq<char>, Seq<char>)>)
    requires
        plain_defs(funcs),
        comparison_op(op),
        base == Seq::<Seq<char>>::empty() || base == seq![seq!['o', 'r']],
        mid == Seq::<Seq<char>>::empty() || mid == seq![seq!['a', 'n', 'd']],
    ensures
        crate::types::compile::condition_spec::postfix_step(pf_state(out, base + mid + seq![op], 1), seq!['a', 'n', 'd'], funcs)
            == Some(pf_state(out.push(op) + mid, base.push(seq!['a', 'n', 'd']), 0)),
{
    let w_and = seq!['a', 'n', 'd'];
    let w_or = seq!['o', 'r'];
    lemma_op_code(op);
    lemma_conn_facts(w_and, funcs);
    lemma_conn_facts(w_or, funcs);
    lemma_reveal_words();
    let s1 = base + mid + seq![op];
    assert(s1.last() == op);
    assert(s1.drop_last() =~= base + mid);
    let o1 = out.push(op);
    assert(crate::types::compile::condition_spec::pop_ops(o1 + mid, base, 1) == (o1 + mid, base)) by {
        if base.len() == 1 {
            assert(base.last() == w_or);
        }
    }
    if mid.len() == 1 {
        assert((base + mid).last() == w_and);
        assert((base + mid).drop_last() =~= base);
        assert(o1.push(w_and) =~= o1 + mid);
        assert(crate::types::compile::condition_spec::pop_ops(o1, base + mid, 1) == (o1 + mid, base));
    } else {
        assert(base + mid =~= base);
        assert(o1 + mid =~= o1);
    }
    assert(crate::types::compile::condition_spec::pop_ops(out, s1, 1) == (o1 + mid, base));
    assert(seq![1i32].update(0, 0) =~= seq![0i32]);
}

/// At `or`, the conversion moves the operator and every connective below
/// it to the output.
proof fn lemma_g_or(out: Seq<Seq<char>>, base: Seq<Seq<char>>, mid: Seq<Seq<char>>, op: Seq<char>, funcs: Seq<(Seq<char>, Seq<char>)>)
    requires
        plain_defs(funcs),
        comparison_op(op),
        base == Seq::<Seq<char>>::empty() || base == seq![seq!['o', 'r']],
        mid == Seq::<Seq<char>>::empty() || mid == seq![seq!['a', 'n', 'd']],
    ensures
        crate::types::compile::condition_spec::postfix_step(pf_state(out, base + mid + seq![op], 1), seq!['o', 'r'], funcs)
            == Some(pf_state(out.push(op) + mid + base, seq![seq!['o', 'r']], 0)),
{
    let w_and = seq!['a', 'n', 'd'];
    let w_or = seq!['o', 'r'];
    lemma_op_code(op);
    lemma_conn_facts(w_and, funcs);
    lemma_conn_facts(w_or, funcs);
    lemma_reveal_words();
    let e = Seq::<Seq<char>>::empty();
    let s1 = base + mid + seq![op];
    assert(s1.last() == op);
    assert(s1.drop_last() =~= base + mid);
    let o1 = out.push(op);
    let o2 = o1 + mid;
    assert(crate::types::compile::condition_spec::pop_ops(o2 + base, e, 0) == (o2 + base, e));
    assert(crate::types::compile::condition_spec::pop_ops(o2, base, 0) == (o2 + base, e)) by {
        if base.len() == 1 {
            assert(base.last() == w_or);
            assert(base.drop_last() =~= e);
            assert(o2.push(w_or) =~= o2 + base);
        } else {
            assert(base =~= e);
            assert(o2 + base =~= o2);
        }
    }
    if mid.len() == 1 {
        assert((base + mid).last() == w_and);
        assert((base + mid).drop_last() =~= base);
        assert(o1.push(w_and) =~= o2);
        assert(crate::types::compile::condition_spec::pop_ops(o1, base + mid, 0) == (o2 + base, e));
    } else {
        assert(base + mid =~= base);
        assert(o2 =~= o1);
    }
    assert(crate::types::compile::condition_spec::pop_ops(out, s1, 0) == (o2 + base, e));
    assert(e.push(w_or) =~= seq![w_or]);
    assert(seq![1i32].update(0, 0) =~= seq![0i32]);
}


/// The tokens that compiling reads for the first `k` comparisons of a group
/// joined by `and`.
pub open spec fn group_in(g: Seq<ChainAtom>, k: nat) -> Seq<Seq<char>>
    decreases k,
{
    if k <= 1 {
        atom_in(g[0])
    } else {
        group_in(g, (k - 1) as nat) + seq![seq!['a', 'n', 'd']] + atom_in(g[k - 1])
    }
}

/// The output after the first `k` comparisons of a group, before the last
/// operator leaves the stack.
spec fn group_pre(out: Seq<Seq<char>>, g: Seq<ChainAtom>, k: nat) -> Seq<Seq<char>> {
    if k <= 1 {
        out + atom_out(g[0])
    } else {
        out + chain_post(g, (k - 2) as nat + 1, seq!['a', 'n', 'd']) + atom_out(g[k - 1])
    }
}

/// The `and` left on the stack after the first `k` comparisons of a group.
spec fn group_mid(k: nat) -> Seq<Seq<char>> {
    if k <= 1 {
        seq![]
    } else {
        seq![seq!['a', 'n', 'd']]
    }
}

/// Whether a group holds a comparison and each of its comparisons compiles
/// and decompiles.
pub open spec fn group_compiles(g: Seq<ChainAtom>, funcs: Seq<(Seq<char>, Seq<char>)>) -> bool {
    &&& g.len() >= 1
    &&& forall|j: int| 0 <= j < g.len() ==> atom_compiles(#[trigger] g[j], funcs)
}

/// The output of a group, once its operators have left the stack, is its
/// postfix order.
proof fn lemma_group_close(out: Seq<Seq<char>>, g: Seq<ChainAtom>, k: nat)
    requires
        1 <= k <= g.len(),
    ensures
        group_pre(out, g, k).push(g[k - 1].3) + group_mid(k) == out + chain_post(g, k, seq!['a', 'n', 'd']),
{
    if k == 1 {
        assert(group_pre(out, g, k).push(g[k - 1].3) + group_mid(k) =~= out + chain_post(g, k, seq!['a', 'n', 'd']));
    } else {
        assert((k - 2) as nat + 1 == (k - 1) as nat);
        assert(group_pre(out, g, k).push(g[k - 1].3) + group_mid(k) =~= out + chain_post(g, k, seq!['a', 'n', 'd']));
    }
}

/// Converting the tokens of the first `k` comparisons of a group, above at
/// most an `or`.
proof fn lemma_group_pf(out: Seq<Seq<char>>, base: Seq<Seq<char>>, g: Seq<ChainAtom>, k: nat, funcs: Seq<(Seq<char>, Seq<char>)>)
    requires
        plain_defs(funcs),
        group_compiles(g, funcs),
        1 <= k <= g.len(),
        base == Seq::<Seq<char>>::empty() || base == seq![seq!['o', 'r']],
    ensures
        pf_fold(pf_state(out, base, 0), group_in(g, k), funcs) == Some(
            pf_state(group_pre(out, g, k), base + group_mid(k) + seq![g[k - 1].3], 1),
        ),
    decreases k,
{
    let w_and = seq!['a', 'n', 'd'];
    let a = g[k - 1];
    assert(atom_compiles(a, funcs));
    assert(quiet_stack(base)) by {
        if base.len() == 1 {
            assert(base[0] == seq!['o', 'r']);
        }
    }
    if k == 1 {
        lemma_atom_pf(out, base, a, funcs);
        assert(base.push(a.3) =~= base + group_mid(k) + seq![a.3]);
    } else {
        lemma_group_pf(out, base, g, (k - 1) as nat, funcs);
        let prev = group_in(g, (k - 1) as nat);
        let b = g[k - 2];
        let ps = pf_state(group_pre(out, g, (k - 1) as nat), base + group_mid((k - 1) as nat) + seq![b.3], 1);
        assert(group_in(g, k) =~= prev + (seq![w_and] + atom_in(a)));
        let s0 = pf_state(out, base, 0);
        lemma_pf_fold_concat(s0, prev, seq![w_and] + atom_in(a), funcs);
        lemma_pf_fold_concat(ps, seq![w_and], atom_in(a), funcs);
        lemma_pf_fold_one(ps, w_and, funcs);
        assert(atom_compiles(b, funcs));
        lemma_g_and(group_pre(out, g, (k - 1) as nat), base, group_mid((k - 1) as nat), b.3, funcs);
        lemma_group_close(out, g, (k - 1) as nat);
        let y = out + chain_post(g, (k - 1) as nat, w_and);
        assert(quiet_stack(base.push(w_and))) by {
            if base.len() == 1 {
                assert(base.push(w_and)[0] == seq!['o', 'r']);
            }
            assert(base.push(w_and)[base.len() as int] == w_and);
        }
        lemma_atom_pf(y, base.push(w_and), a, funcs);
        assert(base.push(w_and).push(a.3) =~= base + group_mid(k) + seq![a.3]);
        assert((k - 2) as nat + 1 == (k - 1) as nat);
        assert(y + atom_out(a) =~= group_pre(out, g, k));
    }
}


/// Whether every group holds a comparison and every comparison compiles and
/// decompiles.
pub open spec fn groups_compile(gs: MixedChain, funcs: Seq<(Seq<char>, Seq<char>)>) -> bool {
    &&& gs.len() >= 1
    &&& forall|i: int| 0 <= i < gs.len() ==> group_compiles(#[trigger] gs[i], funcs)
}

/// The tokens that compiling reads for the first `m` groups: `if`, then the
/// groups joined by `or`.
pub open spec fn mix_in(gs: MixedChain, m: nat) -> Seq<Seq<char>>
    decreases m,
{
    if m <= 1 {
        seq![seq!['i', 'f']] + group_in(gs[0], gs[0].len())
    } else {
        mix_in(gs, (m - 1) as nat) + seq![seq!['o', 'r']] + group_in(gs[m - 1], gs[m - 1].len())
    }
}

/// The postfix tokens of the first `m` groups.
spec fn mix_post(gs: MixedChain, m: nat) -> Seq<Seq<char>>
    decreases m,
{
    if m <= 1 {
        chain_post(gs[0], gs[0].len(), seq!['a', 'n', 'd'])
    } else {
        mix_post(gs, (m - 1) as nat) + chain_post(gs[m - 1], gs[m - 1].len(), seq!['a', 'n', 'd']) + seq![seq!['o', 'r']]
    }
}

/// The output before the `m`-th group.
spec fn mix_out(gs: MixedChain, m: nat) -> Seq<Seq<char>> {
    if m <= 1 {
        seq![]
    } else {
        mix_post(gs, (m - 2) as nat + 1)
    }
}

/// The stack below the `m`-th group.
spec fn mix_base(m: nat) -> Seq<Seq<char>> {
    if m <= 1 {
        seq![]
    } else {
        seq![seq!['o', 'r']]
    }
}

/// The conversion state after the tokens of the first `m` groups.
spec fn mix_state(gs: MixedChain, m: nat) -> PostfixState {
    let g = gs[m - 1];
    pf_state(group_pre(mix_out(gs, m), g, g.len()), mix_base(m) + group_mid(g.len()) + seq![g[g.len() - 1].3], 1)
}

/// Every comparison of a group compiles.
proof fn lemma_group_compiles(gs: MixedChain, i: int, funcs: Seq<(Seq<char>, Seq<char>)>)
    requires
        groups_compile(gs, funcs),
        0 <= i < gs.len(),
    ensures
        group_compiles(gs[i], funcs),
{
}

/// Converting the tokens of the first `m` groups.
proof fn lemma_mix_pf(gs: MixedChain, m: nat, funcs: Seq<(Seq<char>, Seq<char>)>)
    requires
        plain_defs(funcs),
        groups_compile(gs, funcs),
        1 <= m <= gs.len(),
    ensures
        pf_fold(pf_state(seq![], seq![], 0), mix_in(gs, m), funcs) == Some(mix_state(gs, m)),
    decreases m,
{
    let s0 = pf_state(seq![], seq![], 0);
    let g = gs[m - 1];
    lemma_group_compiles(gs, m - 1, funcs);
    if m == 1 {
        lemma_step_if(funcs);
        lemma_pf_fold_one(s0, seq!['i', 'f'], funcs);
        lemma_pf_fold_concat(s0, seq![seq!['i', 'f']], group_in(g, g.len()), funcs);
        lemma_group_pf(seq![], seq![], g, g.len(), funcs);
    } else {
        let w_or = seq!['o', 'r'];
        lemma_mix_pf(gs, (m - 1) as nat, funcs);
        let prev = mix_in(gs, (m - 1) as nat);
        assert(mix_in(gs, m) =~= prev + (seq![w_or] + group_in(g, g.len())));
        lemma_pf_fold_concat(s0, prev, seq![w_or] + group_in(g, g.len()), funcs);
        let ps = mix_state(gs, (m - 1) as nat);
        lemma_pf_fold_concat(ps, seq![w_or], group_in(g, g.len()), funcs);
        lemma_pf_fold_one(ps, w_or, funcs);
        let h = gs[m - 2];
        lemma_group_compiles(gs, m - 2, funcs);
        let lh = h[h.len() - 1];
        assert(atom_compiles(lh, funcs));
        let base = mix_base((m - 1) as nat);
        let o = mix_out(gs, (m - 1) as nat);
        lemma_g_or(group_pre(o, h, h.len()), base, group_mid(h.len()), lh.3, funcs);
        lemma_group_close(o, h, h.len());
        let y = o + chain_post(h, h.len(), seq!['a', 'n', 'd']) + base;
        assert(y =~= mix_post(gs, (m - 1) as nat)) by {
            if m - 1 <= 1 {
                assert(o =~= Seq::<Seq<char>>::empty());
            } else {
                assert((m - 3) as nat + 1 == (m - 2) as nat);
            }
        }
        assert(mix_out(gs, m) == mix_post(gs, (m - 1) as nat)) by {
            assert((m - 2) as nat + 1 == (m - 1) as nat);
        }
        lemma_group_pf(y, seq![w_or], g, g.len(), funcs);
    }
}


/// A stack of at most three entries, in reverse.
proof fn lemma_reversed_small(base: Seq<Seq<char>>, mid: Seq<Seq<char>>, op: Seq<char>)
    requires
        base.len() <= 1,
        mid.len() <= 1,
    ensures
        reversed(base + mid + seq![op]) == seq![op] + mid + base,
{
    let e = Seq::<Seq<char>>::empty();
    assert(reversed(e) == e);
    let s = base + mid + seq![op];
    assert(s.last() == op);
    assert(s.drop_last() =~= base + mid);
    assert(reversed(base) == base) by {
        if base.len() == 1 {
            assert(base.drop_last() =~= e);
            assert(seq![base.last()] + e =~= base);
        } else {
            assert(base =~= e);
        }
    }
    assert(reversed(base + mid) == mid + base) by {
        if mid.len() == 1 {
            assert((base + mid).last() == mid[0]);
            assert((base + mid).drop_last() =~= base);
            assert(seq![mid[0]] + base =~= mid + base);
        } else {
            assert(base + mid =~= base);
            assert(mid + base =~= base);
        }
    }
    assert(seq![op] + (mid + base) =~= seq![op] + mid + base);
}

/// The postfix order of the tokens of comparisons joined by `and` and `or`.
proof fn lemma_mix_postfix(gs: MixedChain, funcs: Seq<(Seq<char>, Seq<char>)>)
    requires
        plain_defs(funcs),
        groups_compile(gs, funcs),
    ensures
        crate::types::compile::condition_spec::to_postfix_spec(mix_in(gs, gs.len()), funcs) == Some(
            mix_post(gs, gs.len()),
        ),
{
    let m = gs.len();
    let ts = mix_in(gs, m);
    lemma_mix_pf(gs, m, funcs);
    lemma_run_fold(ts, ts.len(), funcs);
    assert(ts.take(ts.len() as int) =~= ts);
    let g = gs[m - 1];
    lemma_group_compiles(gs, m - 1, funcs);
    let op = g[g.len() - 1].3;
    let o = mix_out(gs, m);
    let base = mix_base(m);
    lemma_reversed_small(base, group_mid(g.len()), op);
    lemma_group_close(o, g, g.len());
    assert(group_pre(o, g, g.len()) + (seq![op] + group_mid(g.len()) + base) =~= o + chain_post(g, g.len(), seq![
        'a',
        'n',
        'd',
    ]) + base);
    assert(o + chain_post(g, g.len(), seq!['a', 'n', 'd']) + base =~= mix_post(gs, m)) by {
        if m <= 1 {
            assert(o =~= Seq::<Seq<char>>::empty());
        } else {
            assert((m - 2) as nat + 1 == (m - 1) as nat);
        }
    }
}

/// The bytes of the postfix tokens of the first `m` groups are their
/// bytecode.
proof fn lemma_mix_cb(post: Seq<Seq<char>>, gs: MixedChain, m: nat, funcs: Seq<(Seq<char>, Seq<char>)>)
    requires
        plain_defs(funcs),
        groups_compile(gs, funcs),
        1 <= m <= gs.len(),
        mix_post(gs, m).len() <= post.len(),
        post.subrange(0, mix_post(gs, m).len() as int) == mix_post(gs, m),
    ensures
        crate::types::compile::condition_spec::cond_bytes(post, 0, seq![], funcs)
            == crate::types::compile::condition_spec::cond_bytes(post, mix_post(gs, m).len(), mix_code(gs, m), funcs),
    decreases m,
{
    let w_and = seq!['a', 'n', 'd'];
    let mp = mix_post(gs, m);
    let g = gs[m - 1];
    lemma_group_compiles(gs, m - 1, funcs);
    let cp = chain_post(g, g.len(), w_and);
    assert forall|j: int| 0 <= j < mp.len() implies post[j] == mp[j] by {
        assert(post.subrange(0, mp.len() as int)[j] == post[j]);
    }
    if m == 1 {
        lemma_chain_cb(post, 0, seq![], g, g.len(), w_and, funcs);
        assert(Seq::<u8>::empty() + chain_code(g, g.len(), w_and) =~= chain_code(g, g.len(), w_and));
    } else {
        let pp = mix_post(gs, (m - 1) as nat);
        assert(mp == pp + cp + seq![seq!['o', 'r']]);
        assert(post.subrange(0, pp.len() as int) =~= pp) by {
            assert forall|j: int| 0 <= j < pp.len() implies post.subrange(0, pp.len() as int)[j] == pp[j] by {
                assert(post[j] == mp[j]);
            }
        }
        lemma_mix_cb(post, gs, (m - 1) as nat, funcs);
        let q = pp.len();
        assert(post.subrange(q as int, (q + cp.len()) as int) =~= cp) by {
            assert forall|j: int| 0 <= j < cp.len() implies post.subrange(q as int, (q + cp.len()) as int)[j] == cp[j] by {
                assert(post[q + j] == mp[q + j]);
            }
        }
        let prev = mix_code(gs, (m - 1) as nat);
        lemma_chain_cb(post, q, prev, g, g.len(), w_and, funcs);
        let idx = q + cp.len();
        assert(post[idx as int] == mp[idx as int]);
        assert(post[idx as int] == seq!['o', 'r']);
        lemma_conn_facts(seq!['o', 'r'], funcs);
        lemma_cond_bytes_step(post, idx, prev + chain_code(g, g.len(), w_and), funcs, seq![conn_byte(seq!['o', 'r'])]);
        assert(conn_byte(seq!['o', 'r']) == 0x99u8);
        assert(prev + chain_code(g, g.len(), w_and) + seq![0x99u8] =~= mix_code(gs, m));
        assert(mp.len() == idx + 1);
    }
}

/// The tokens that compiling reads for comparisons joined by `and` and `or`
/// without parentheses, after `if`, convert to postfix order (`and` binding
/// closer than `or`) and compile to bytecode that decompiles to the
/// comparisons joined as they were, on an indented `if` line: when every
/// defined function has a plain name, and each comparison names a function
/// with an id below 64 that compiling finds for the name and that gives the
/// name back, with numbers up to `u32::MAX`. The comparisons are given as
/// the groups that `or` joins, each a list of comparisons that `and` joins,
/// so every sequence of the two connectives between them is covered.
pub proof fn law_mixed_roundtrip(gs: MixedChain, funcs: Seq<(Seq<char>, Seq<char>)>)
    requires
        plain_defs(funcs),
        groups_compile(gs, funcs),
    ensures
        crate::types::compile::condition_spec::to_postfix_spec(mix_in(gs, gs.len()), funcs) matches Some(post)
            && crate::types::compile::condition_spec::cond_bytes(post, 0, seq![], funcs) matches Some(code)
            && condition_line(code, funcs) == Some("        if "@ + mix_print(gs, gs.len()) + seq![':']),
{
    let m = gs.len();
    lemma_mix_postfix(gs, funcs);
    let post = mix_post(gs, m);
    assert(post.subrange(0, post.len() as int) =~= post);
    lemma_mix_cb(post, gs, m, funcs);
    let mc = mix_code(gs, m);
    assert(crate::types::compile::condition_spec::cond_bytes(post, post.len(), mc, funcs) == Some(mc.push(0xA1)));
    assert(mc.push(0xA1) =~= mc + seq![0xA1u8]);
    assert forall|i: int, j: int| 0 <= i < gs.len() && 0 <= j < gs[i].len() implies atom_ok(#[trigger] gs[i][j], funcs) by {
        lemma_group_compiles(gs, i, funcs);
        assert(atom_compiles(gs[i][j], funcs));
    }
    assert forall|i: int| 0 <= i < gs.len() implies (#[trigger] gs[i]).len() >= 1 by {
        lemma_group_compiles(gs, i, funcs);
    }
    law_mixed_decompiles(gs, funcs);
}

} // verus!
