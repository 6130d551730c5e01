//! Properties of splitting a condition line into tokens: the passes that set
//! keywords and operators apart work piece by piece, so a line of
//! comparisons joined by `and` and `or` splits into the tokens of its
//! comparisons and connectives.
use vstd::prelude::*;
use crate::utils::strings::replace_all;
use crate::types::compile::condition_spec::{spread_keywords, non_empty, space_angles, spread_operators, tokenize_spec};
use crate::utils::text::{dec_nat, split_on};
use crate::condition_laws::{ChainAtom, atom_in, group_in, mix_in, groups_compile, mix_print, law_mixed_roundtrip};
use crate::laws::{comparison_op, is_letter, is_name_char, plain_name};
use crate::utils::strings::{contains_text, is_digit, occurs_at};

verus! {

/// Whether no occurrence of `p` in `x + y` covers both the last character
/// of `x` and the first of `y`: the last of `x` is not among the characters
/// of `p` but its last, or the first of `y` is not among those but its first.
pub open spec fn no_straddle(x: Seq<char>, y: Seq<char>, p: Seq<char>) -> bool {
    ||| x.len() == 0
    ||| y.len() == 0
    ||| !p.take(p.len() - 1).contains(x.last())
    ||| !p.skip(1).contains(y[0])
}

/// Replacing in a concatenation whose seam no occurrence covers replaces in
/// each part.
pub proof fn lemma_replace_concat(x: Seq<char>, y: Seq<char>, p: Seq<char>, r: Seq<char>)
    requires
        p.len() > 0,
        no_straddle(x, y, p),
    ensures
        replace_all(x + y, p, r) == replace_all(x, p, r) + replace_all(y, p, r),
    decreases x.len(),
{
    let n = p.len() as int;
    let s = x + y;
    if x.len() == 0 {
        assert(s =~= y);
        assert(replace_all(x, p, r) == x);
        assert(x + replace_all(y, p, r) =~= replace_all(y, p, r));
    } else if s.len() < n {
        assert(replace_all(x, p, r) == x);
        assert(replace_all(y, p, r) == y);
    } else if s.take(n) == p {
        if x.len() < n {
            if y.len() > 0 {
                let k = x.len() - 1;
                assert(s.take(n)[k] == s[k]);
                assert(p.take(n - 1)[k] == p[k]);
                assert(p.take(n - 1).contains(x.last()));
                assert(s.take(n)[k + 1] == s[k + 1]);
                assert(p.skip(1)[k] == p[k + 1]);
                assert(p.skip(1).contains(y[0]));
            } else {
                assert(s =~= x);
            }
        }
        if y.len() == 0 {
            assert(s =~= x);
            assert(x + replace_all(y, p, r) =~= x + y);
            assert(replace_all(x, p, r) + y =~= replace_all(x, p, r));
        } else {
            assert(x.take(n) =~= s.take(n));
            let x2 = x.skip(n);
            assert(s.skip(n) =~= x2 + y);
            if x2.len() > 0 {
                assert(x2.last() == x.last());
            }
            lemma_replace_concat(x2, y, p, r);
            assert(r + (replace_all(x2, p, r) + replace_all(y, p, r)) =~= r + replace_all(x2, p, r) + replace_all(y, p, r));
        }
    } else {
        let x2 = x.skip(1);
        assert(s.skip(1) =~= x2 + y);
        assert(s[0] == x[0]);
        if x2.len() > 0 {
            assert(x2.last() == x.last());
        }
        lemma_replace_concat(x2, y, p, r);
        if x.len() >= n {
            assert(x.take(n) =~= s.take(n));
        } else {
            assert(replace_all(x, p, r) == x);
            assert(replace_all(x2, p, r) == x2);
            assert(seq![x[0]] + x2 =~= x);
        }
        assert(seq![s[0]] + (replace_all(x2, p, r) + replace_all(y, p, r)) =~= seq![x[0]] + replace_all(x2, p, r)
            + replace_all(y, p, r));
    }
}


/// One pass on a text with a space in it, for a pattern without spaces,
/// replaces on each side of the space.
pub proof fn lemma_pass_space(x: Seq<char>, y: Seq<char>, p: Seq<char>, r: Seq<char>)
    requires
        p.len() > 0,
        !p.contains(' '),
    ensures
        replace_all(x + seq![' '] + y, p, r) == replace_all(x, p, r) + seq![' '] + replace_all(y, p, r),
{
    let sp = seq![' '];
    assert(x + sp + y =~= x + (sp + y));
    assert(no_straddle(x, sp + y, p)) by {
        assert((sp + y)[0] == ' ');
        if p.skip(1).contains(' ') {
            let t = p.skip(1);
            let j = choose|j: int| 0 <= j < t.len() && t[j] == ' ';
            assert(p[j + 1] == ' ');
        }
    }
    lemma_replace_concat(x, sp + y, p, r);
    assert(no_straddle(sp, y, p)) by {
        if p.take(p.len() - 1).contains(' ') {
            let t = p.take(p.len() - 1);
            let j = choose|j: int| 0 <= j < t.len() && t[j] == ' ';
            assert(p[j] == ' ');
        }
    }
    lemma_replace_concat(sp, y, p, r);
    assert(p[0] != ' ');
    crate::laws::lemma_replace_missing(sp, p, 0, r);
    assert(replace_all(x, p, r) + (sp + replace_all(y, p, r)) =~= replace_all(x, p, r) + sp + replace_all(y, p, r));
}

/// One pass on a text that ends in a colon, for a pattern that holds no
/// colon, or is the colon itself, keeps the colon at the end (or drops it).
pub proof fn lemma_pass_colon(z: Seq<char>, p: Seq<char>, r: Seq<char>)
    requires
        p.len() > 0,
        p == seq![':'] || !p.contains(':'),
    ensures
        replace_all(z + seq![':'], p, r) == replace_all(z, p, r) + (if p == seq![':'] { r } else { seq![':'] }),
{
    let c = seq![':'];
    assert(no_straddle(z, c, p)) by {
        if p.skip(1).contains(':') {
            let t = p.skip(1);
            let j = choose|j: int| 0 <= j < t.len() && t[j] == ':';
            assert(p[j + 1] == ':');
        }
    }
    lemma_replace_concat(z, c, p, r);
    if p == c {
        assert(c.take(1) =~= p);
        assert(c.skip(1) =~= Seq::<char>::empty());
        assert(replace_all(c, p, r) == r + replace_all(Seq::<char>::empty(), p, r));
        assert(r + Seq::<char>::empty() =~= r);
    } else {
        assert(p[0] != ':');
        crate::laws::lemma_replace_missing(c, p, 0, r);
    }
}

/// Setting operators apart works on each side of a space.
#[verifier::rlimit(60)]
pub proof fn lemma_so_space(x: Seq<char>, y: Seq<char>)
    ensures
        spread_operators(x + seq![' '] + y) == spread_operators(x) + seq![' '] + spread_operators(y),
{
    reveal_strlit("not");
    reveal_strlit("and");
    reveal_strlit("or");
    reveal_strlit("==");
    reveal_strlit("!=");
    reveal_strlit("<=");
    reveal_strlit(">=");
    reveal_strlit("+");
    reveal_strlit("-");
    reveal_strlit("*");
    reveal_strlit("/");
    reveal_strlit("(");
    reveal_strlit(")");
    reveal_strlit(",");
    reveal_strlit(":");
    reveal_strlit(" not ");
    reveal_strlit(" and ");
    reveal_strlit(" or ");
    reveal_strlit(" == ");
    reveal_strlit(" != ");
    reveal_strlit(" <= ");
    reveal_strlit(" >= ");
    reveal_strlit(" + ");
    reveal_strlit(" - ");
    reveal_strlit(" * ");
    reveal_strlit(" / ");
    reveal_strlit(" ( ");
    reveal_strlit(" ) ");
    reveal_strlit(" ");
    reveal_strlit("");
    let sp = seq![' '];
    lemma_pass_space(x, y, "not"@, " not "@);
    let x1 = replace_all(x, "not"@, " not "@);
    let y1 = replace_all(y, "not"@, " not "@);
    lemma_pass_space(x1, y1, "and"@, " and "@);
    let x2 = replace_all(x1, "and"@, " and "@);
    let y2 = replace_all(y1, "and"@, " and "@);
    lemma_pass_space(x2, y2, "or"@, " or "@);
    let x3 = replace_all(x2, "or"@, " or "@);
    let y3 = replace_all(y2, "or"@, " or "@);
    lemma_pass_space(x3, y3, "=="@, " == "@);
    let x4 = replace_all(x3, "=="@, " == "@);
    let y4 = replace_all(y3, "=="@, " == "@);
    lemma_pass_space(x4, y4, "!="@, " != "@);
    let x5 = replace_all(x4, "!="@, " != "@);
    let y5 = replace_all(y4, "!="@, " != "@);
    lemma_pass_space(x5, y5, "<="@, " <= "@);
    let x6 = replace_all(x5, "<="@, " <= "@);
    let y6 = replace_all(y5, "<="@, " <= "@);
    lemma_pass_space(x6, y6, ">="@, " >= "@);
    let x7 = replace_all(x6, ">="@, " >= "@);
    let y7 = replace_all(y6, ">="@, " >= "@);
    lemma_pass_space(x7, y7, "+"@, " + "@);
    let x8 = replace_all(x7, "+"@, " + "@);
    let y8 = replace_all(y7, "+"@, " + "@);
    lemma_pass_space(x8, y8, "-"@, " - "@);
    let x9 = replace_all(x8, "-"@, " - "@);
    let y9 = replace_all(y8, "-"@, " - "@);
    lemma_pass_space(x9, y9, "*"@, " * "@);
    let x10 = replace_all(x9, "*"@, " * "@);
    let y10 = replace_all(y9, "*"@, " * "@);
    lemma_pass_space(x10, y10, "/"@, " / "@);
    let x11 = replace_all(x10, "/"@, " / "@);
    let y11 = replace_all(y10, "/"@, " / "@);
    lemma_pass_space(x11, y11, "("@, " ( "@);
    let x12 = replace_all(x11, "("@, " ( "@);
    let y12 = replace_all(y11, "("@, " ( "@);
    lemma_pass_space(x12, y12, ")"@, " ) "@);
    let x13 = replace_all(x12, ")"@, " ) "@);
    let y13 = replace_all(y12, ")"@, " ) "@);
    lemma_pass_space(x13, y13, ","@, " "@);
    let x14 = replace_all(x13, ","@, " "@);
    let y14 = replace_all(y13, ","@, " "@);
    lemma_pass_space(x14, y14, ":"@, seq![]);
    let x15 = replace_all(x14, ":"@, seq![]);
    let y15 = replace_all(y14, ":"@, seq![]);
}

/// Setting operators apart drops a colon at the end.
#[verifier::rlimit(60)]
pub proof fn lemma_so_colon(z: Seq<char>)
    ensures
        spread_operators(z + seq![':']) == spread_operators(z),
{
    reveal_strlit("not");
    reveal_strlit("and");
    reveal_strlit("or");
    reveal_strlit("==");
    reveal_strlit("!=");
    reveal_strlit("<=");
    reveal_strlit(">=");
    reveal_strlit("+");
    reveal_strlit("-");
    reveal_strlit("*");
    reveal_strlit("/");
    reveal_strlit("(");
    reveal_strlit(")");
    reveal_strlit(",");
    reveal_strlit(":");
    reveal_strlit(" not ");
    reveal_strlit(" and ");
    reveal_strlit(" or ");
    reveal_strlit(" == ");
    reveal_strlit(" != ");
    reveal_strlit(" <= ");
    reveal_strlit(" >= ");
    reveal_strlit(" + ");
    reveal_strlit(" - ");
    reveal_strlit(" * ");
    reveal_strlit(" / ");
    reveal_strlit(" ( ");
    reveal_strlit(" ) ");
    reveal_strlit(" ");
    reveal_strlit("");
    assert("not"@ != seq![':']) by { assert("not"@.len() != 1 || "not"@[0] != ':'); }
    lemma_pass_colon(z, "not"@, " not "@);
    assert(replace_all(z + seq![':'], "not"@, " not "@) == replace_all(z, "not"@, " not "@) + seq![':']);
    let z1 = replace_all(z, "not"@, " not "@);
    assert("and"@ != seq![':']) by { assert("and"@.len() != 1 || "and"@[0] != ':'); }
    lemma_pass_colon(z1, "and"@, " and "@);
    assert(replace_all(z1 + seq![':'], "and"@, " and "@) == replace_all(z1, "and"@, " and "@) + seq![':']);
    let z2 = replace_all(z1, "and"@, " and "@);
    assert("or"@ != seq![':']) by { assert("or"@.len() != 1 || "or"@[0] != ':'); }
    lemma_pass_colon(z2, "or"@, " or "@);
    assert(replace_all(z2 + seq![':'], "or"@, " or "@) == replace_all(z2, "or"@, " or "@) + seq![':']);
    let z3 = replace_all(z2, "or"@, " or "@);
    assert("=="@ != seq![':']) by { assert("=="@.len() != 1 || "=="@[0] != ':'); }
    lemma_pass_colon(z3, "=="@, " == "@);
    assert(replace_all(z3 + seq![':'], "=="@, " == "@) == replace_all(z3, "=="@, " == "@) + seq![':']);
    let z4 = replace_all(z3, "=="@, " == "@);
    assert("!="@ != seq![':']) by { assert("!="@.len() != 1 || "!="@[0] != ':'); }
    lemma_pass_colon(z4, "!="@, " != "@);
    assert(replace_all(z4 + seq![':'], "!="@, " != "@) == replace_all(z4, "!="@, " != "@) + seq![':']);
    let z5 = replace_all(z4, "!="@, " != "@);
    assert("<="@ != seq![':']) by { assert("<="@.len() != 1 || "<="@[0] != ':'); }
    lemma_pass_colon(z5, "<="@, " <= "@);
    assert(replace_all(z5 + seq![':'], "<="@, " <= "@) == replace_all(z5, "<="@, " <= "@) + seq![':']);
    let z6 = replace_all(z5, "<="@, " <= "@);
    assert(">="@ != seq![':']) by { assert(">="@.len() != 1 || ">="@[0] != ':'); }
    lemma_pass_colon(z6, ">="@, " >= "@);
    assert(replace_all(z6 + seq![':'], ">="@, " >= "@) == replace_all(z6, ">="@, " >= "@) + seq![':']);
    let z7 = replace_all(z6, ">="@, " >= "@);
    assert("+"@ != seq![':']) by { assert("+"@.len() != 1 || "+"@[0] != ':'); }
    lemma_pass_colon(z7, "+"@, " + "@);
    assert(replace_all(z7 + seq![':'], "+"@, " + "@) == replace_all(z7, "+"@, " + "@) + seq![':']);
    let z8 = replace_all(z7, "+"@, " + "@);
    assert("-"@ != seq![':']) by { assert("-"@.len() != 1 || "-"@[0] != ':'); }
    lemma_pass_colon(z8, "-"@, " - "@);
    assert(replace_all(z8 + seq![':'], "-"@, " - "@) == replace_all(z8, "-"@, " - "@) + seq![':']);
    let z9 = replace_all(z8, "-"@, " - "@);
    assert("*"@ != seq![':']) by { assert("*"@.len() != 1 || "*"@[0] != ':'); }
    lemma_pass_colon(z9, "*"@, " * "@);
    assert(replace_all(z9 + seq![':'], "*"@, " * "@) == replace_all(z9, "*"@, " * "@) + seq![':']);
    let z10 = replace_all(z9, "*"@, " * "@);
    assert("/"@ != seq![':']) by { assert("/"@.len() != 1 || "/"@[0] != ':'); }
    lemma_pass_colon(z10, "/"@, " / "@);
    assert(replace_all(z10 + seq![':'], "/"@, " / "@) == replace_all(z10, "/"@, " / "@) + seq![':']);
    let z11 = replace_all(z10, "/"@, " / "@);
    assert("("@ != seq![':']) by { assert("("@.len() != 1 || "("@[0] != ':'); }
    lemma_pass_colon(z11, "("@, " ( "@);
    assert(replace_all(z11 + seq![':'], "("@, " ( "@) == replace_all(z11, "("@, " ( "@) + seq![':']);
    let z12 = replace_all(z11, "("@, " ( "@);
    assert(")"@ != seq![':']) by { assert(")"@.len() != 1 || ")"@[0] != ':'); }
    lemma_pass_colon(z12, ")"@, " ) "@);
    assert(replace_all(z12 + seq![':'], ")"@, " ) "@) == replace_all(z12, ")"@, " ) "@) + seq![':']);
    let z13 = replace_all(z12, ")"@, " ) "@);
    assert(","@ != seq![':']) by { assert(","@.len() != 1 || ","@[0] != ':'); }
    lemma_pass_colon(z13, ","@, " "@);
    assert(replace_all(z13 + seq![':'], ","@, " "@) == replace_all(z13, ","@, " "@) + seq![':']);
    let z14 = replace_all(z13, ","@, " "@);
    assert(":"@ =~= seq![':']);
    lemma_pass_colon(z14, ":"@, seq![]);
    let z15 = replace_all(z14, ":"@, seq![]);
    assert(z15 + Seq::<char>::empty() =~= z15);
}


/// Setting angles apart from a position in a suffix does not look at what
/// comes before it.
proof fn lemma_sa_shift(z: Seq<char>, y: Seq<char>, j: nat)
    requires
        j <= y.len(),
    ensures
        space_angles(z + y, z.len() + j) == space_angles(y, j),
    decreases y.len() - j,
{
    let s = z + y;
    let i = z.len() + j;
    if j < y.len() {
        assert(s[i as int] == y[j as int]);
        if j + 1 < y.len() {
            assert(s[i as int + 1] == y[j as int + 1]);
        }
        lemma_sa_shift(z, y, j + 1);
    }
}

/// Setting angles apart works on each side of a space, from a position in
/// the left part where it works on the left part alone.
proof fn lemma_sa_space_from(x: Seq<char>, y: Seq<char>, i: nat)
    requires
        i <= x.len(),
        space_angles(x, i) is Some,
    ensures
        space_angles(x + seq![' '] + y, i) == match space_angles(y, 0) {
            Some(b) => Some(space_angles(x, i)->0 + seq![' '] + b),
            None => None,
        },
    decreases x.len() - i,
{
    let s = x + seq![' '] + y;
    if i == x.len() {
        assert(s[i as int] == ' ');
        assert(s =~= (x + seq![' ']) + y);
        lemma_sa_shift(x + seq![' '], y, 0);
        assert(space_angles(x, i) == Some(Seq::<char>::empty()));
        match space_angles(y, 0) {
            Some(b) => {
                assert(seq![' '] + b =~= Seq::<char>::empty() + seq![' '] + b);
            },
            None => {},
        }
    } else {
        assert(s[i as int] == x[i as int]);
        if i + 1 < x.len() {
            assert(s[i as int + 1] == x[i as int + 1]);
        }
        lemma_sa_space_from(x, y, i + 1);
        match space_angles(y, 0) {
            Some(b) => {
                let c = x[i as int];
                let here: Seq<char> = if c == '<' || c == '>' {
                    if x[i as int + 1] != '=' { seq![' ', c, ' '] } else { seq![c] }
                } else {
                    seq![c]
                };
                assert(space_angles(x, i)->0 == here + space_angles(x, i + 1)->0);
                assert(here + (space_angles(x, i + 1)->0 + seq![' '] + b) =~= space_angles(x, i)->0 + seq![' '] + b);
            },
            None => {},
        }
    }
}

/// Setting angles apart works on each side of a space.
pub proof fn lemma_sa_space(x: Seq<char>, y: Seq<char>)
    requires
        space_angles(x, 0) is Some,
    ensures
        space_angles(x + seq![' '] + y, 0) == match space_angles(y, 0) {
            Some(b) => Some(space_angles(x, 0)->0 + seq![' '] + b),
            None => None,
        },
{
    lemma_sa_space_from(x, y, 0);
}

/// The non-empty pieces of two lists, one after the other.
pub proof fn lemma_non_empty_concat(a: Seq<Seq<char>>, b: Seq<Seq<char>>)
    ensures
        non_empty(a + b) == non_empty(a) + non_empty(b),
    decreases b.len(),
{
    if b.len() == 0 {
        assert(a + b =~= a);
        assert(non_empty(a) + non_empty(b) =~= non_empty(a));
    } else {
        assert((a + b).drop_last() =~= a + b.drop_last());
        assert((a + b).last() == b.last());
        lemma_non_empty_concat(a, b.drop_last());
        if b.last().len() > 0 {
            assert(non_empty(a) + non_empty(b.drop_last()).push(b.last()) =~= (non_empty(a) + non_empty(b.drop_last())).push(
                b.last(),
            ));
        }
    }
}

/// Whether the text of a piece of a condition line sets apart.
#[verifier::opaque]
pub open spec fn piece_ok(q: Seq<char>) -> bool {
    space_angles(spread_operators(q), 0) is Some
}

/// The tokens of a piece of a condition line.
#[verifier::opaque]
pub open spec fn piece_tokens(q: Seq<char>) -> Seq<Seq<char>> {
    match space_angles(spread_operators(q), 0) {
        Some(t) => non_empty(split_on(t, ' ')),
        None => seq![],
    }
}

/// Two pieces with a space between them give the tokens of each.
pub proof fn lemma_tokens_space(x: Seq<char>, y: Seq<char>)
    requires
        piece_ok(x),
        piece_ok(y),
    ensures
        piece_ok(x + seq![' '] + y),
        piece_tokens(x + seq![' '] + y) == piece_tokens(x) + piece_tokens(y),
{
    reveal(piece_ok);
    reveal(piece_tokens);
    lemma_so_space(x, y);
    let a = spread_operators(x);
    let b = spread_operators(y);
    lemma_sa_space(a, b);
    let ta = space_angles(a, 0)->0;
    let tb = space_angles(b, 0)->0;
    crate::laws::lemma_split_at_sep(ta, ' ', tb);
    lemma_non_empty_concat(split_on(ta, ' '), split_on(tb, ' '));
}

/// If one piece with a space and another sets apart, so does the other.
pub proof fn lemma_piece_ok_right(x: Seq<char>, y: Seq<char>)
    requires
        piece_ok(x),
        piece_ok(x + seq![' '] + y),
    ensures
        piece_ok(y),
{
    reveal(piece_ok);
    reveal(piece_tokens);
    lemma_so_space(x, y);
    lemma_sa_space(spread_operators(x), spread_operators(y));
}

/// Splitting a line into tokens is taking the tokens of the line without
/// its colon.
pub proof fn lemma_tokenize_piece(z: Seq<char>)
    ensures
        tokenize_spec(z + seq![':']) == if piece_ok(z) { Some(piece_tokens(z)) } else { None::<Seq<Seq<char>>> },
{
    reveal(piece_ok);
    reveal(piece_tokens);
    lemma_so_colon(z);
}


/// Replacing a pattern in itself gives the replacement.
proof fn lemma_replace_whole(p: Seq<char>, r: Seq<char>)
    requires
        p.len() > 0,
    ensures
        replace_all(p, p, r) == r,
{
    assert(p.take(p.len() as int) =~= p);
    assert(p.skip(p.len() as int) =~= Seq::<char>::empty());
    assert(replace_all(Seq::<char>::empty(), p, r) == Seq::<char>::empty());
    assert(r + Seq::<char>::empty() =~= r);
}

/// The word `if` is a piece of its own token.
pub proof fn lemma_word_if_tokens()
    ensures
        piece_ok(seq!['i', 'f']),
        piece_tokens(seq!['i', 'f']) == seq![seq!['i', 'f']],
{
    reveal(piece_ok);
    reveal(piece_tokens);
    reveal_strlit("not");
    reveal_strlit("and");
    reveal_strlit("or");
    reveal_strlit("==");
    reveal_strlit("!=");
    reveal_strlit("<=");
    reveal_strlit(">=");
    reveal_strlit("+");
    reveal_strlit("-");
    reveal_strlit("*");
    reveal_strlit("/");
    reveal_strlit("(");
    reveal_strlit(")");
    reveal_strlit(",");
    reveal_strlit(":");
    reveal_strlit(" not ");
    reveal_strlit(" and ");
    reveal_strlit(" or ");
    reveal_strlit(" == ");
    reveal_strlit(" != ");
    reveal_strlit(" <= ");
    reveal_strlit(" >= ");
    reveal_strlit(" + ");
    reveal_strlit(" - ");
    reveal_strlit(" * ");
    reveal_strlit(" / ");
    reveal_strlit(" ( ");
    reveal_strlit(" ) ");
    reveal_strlit(" ");
    crate::laws::lemma_replace_missing(seq!['i', 'f'], "not"@, 0, " not "@);
    crate::laws::lemma_replace_missing(seq!['i', 'f'], "and"@, 0, " and "@);
    crate::laws::lemma_replace_missing(seq!['i', 'f'], "or"@, 0, " or "@);
    crate::laws::lemma_replace_missing(seq!['i', 'f'], "=="@, 0, " == "@);
    crate::laws::lemma_replace_missing(seq!['i', 'f'], "!="@, 0, " != "@);
    crate::laws::lemma_replace_missing(seq!['i', 'f'], "<="@, 0, " <= "@);
    crate::laws::lemma_replace_missing(seq!['i', 'f'], ">="@, 0, " >= "@);
    crate::laws::lemma_replace_missing(seq!['i', 'f'], "+"@, 0, " + "@);
    crate::laws::lemma_replace_missing(seq!['i', 'f'], "-"@, 0, " - "@);
    crate::laws::lemma_replace_missing(seq!['i', 'f'], "*"@, 0, " * "@);
    crate::laws::lemma_replace_missing(seq!['i', 'f'], "/"@, 0, " / "@);
    crate::laws::lemma_replace_missing(seq!['i', 'f'], "("@, 0, " ( "@);
    crate::laws::lemma_replace_missing(seq!['i', 'f'], ")"@, 0, " ) "@);
    crate::laws::lemma_replace_missing(seq!['i', 'f'], ","@, 0, " "@);
    crate::laws::lemma_replace_missing(seq!['i', 'f'], ":"@, 0, seq![]);
    let t = seq!['i', 'f'];
    assert(spread_operators(seq!['i', 'f']) == t);
    crate::laws::lemma_angles_before_eq(t, 0);
    assert(t.skip(0) =~= t);
    reveal_with_fuel(split_on, 8);
    reveal_with_fuel(non_empty, 4);
    crate::laws::lemma_split_absent(t, ' ');
    assert(split_on(t, ' ') =~= seq![seq!['i', 'f']]);
    assert(non_empty(split_on(t, ' ')) =~= seq![seq!['i', 'f']]);
}

/// The word `and` is a piece of its own token.
pub proof fn lemma_word_and_tokens()
    ensures
        piece_ok(seq!['a', 'n', 'd']),
        piece_tokens(seq!['a', 'n', 'd']) == seq![seq!['a', 'n', 'd']],
{
    reveal(piece_ok);
    reveal(piece_tokens);
    reveal_strlit("not");
    reveal_strlit("and");
    reveal_strlit("or");
    reveal_strlit("==");
    reveal_strlit("!=");
    reveal_strlit("<=");
    reveal_strlit(">=");
    reveal_strlit("+");
    reveal_strlit("-");
    reveal_strlit("*");
    reveal_strlit("/");
    reveal_strlit("(");
    reveal_strlit(")");
    reveal_strlit(",");
    reveal_strlit(":");
    reveal_strlit(" not ");
    reveal_strlit(" and ");
    reveal_strlit(" or ");
    reveal_strlit(" == ");
    reveal_strlit(" != ");
    reveal_strlit(" <= ");
    reveal_strlit(" >= ");
    reveal_strlit(" + ");
    reveal_strlit(" - ");
    reveal_strlit(" * ");
    reveal_strlit(" / ");
    reveal_strlit(" ( ");
    reveal_strlit(" ) ");
    reveal_strlit(" ");
    crate::laws::lemma_replace_missing(seq!['a', 'n', 'd'], "not"@, 1, " not "@);
    assert("and"@ =~= seq!['a', 'n', 'd']);
    lemma_replace_whole(seq!['a', 'n', 'd'], " and "@);
    assert(" and "@ =~= seq![' ', 'a', 'n', 'd', ' ']);
    crate::laws::lemma_replace_missing(seq![' ', 'a', 'n', 'd', ' '], "or"@, 0, " or "@);
    crate::laws::lemma_replace_missing(seq![' ', 'a', 'n', 'd', ' '], "=="@, 0, " == "@);
    crate::laws::lemma_replace_missing(seq![' ', 'a', 'n', 'd', ' '], "!="@, 0, " != "@);
    crate::laws::lemma_replace_missing(seq![' ', 'a', 'n', 'd', ' '], "<="@, 0, " <= "@);
    crate::laws::lemma_replace_missing(seq![' ', 'a', 'n', 'd', ' '], ">="@, 0, " >= "@);
    crate::laws::lemma_replace_missing(seq![' ', 'a', 'n', 'd', ' '], "+"@, 0, " + "@);
    crate::laws::lemma_replace_missing(seq![' ', 'a', 'n', 'd', ' '], "-"@, 0, " - "@);
    crate::laws::lemma_replace_missing(seq![' ', 'a', 'n', 'd', ' '], "*"@, 0, " * "@);
    crate::laws::lemma_replace_missing(seq![' ', 'a', 'n', 'd', ' '], "/"@, 0, " / "@);
    crate::laws::lemma_replace_missing(seq![' ', 'a', 'n', 'd', ' '], "("@, 0, " ( "@);
    crate::laws::lemma_replace_missing(seq![' ', 'a', 'n', 'd', ' '], ")"@, 0, " ) "@);
    crate::laws::lemma_replace_missing(seq![' ', 'a', 'n', 'd', ' '], ","@, 0, " "@);
    crate::laws::lemma_replace_missing(seq![' ', 'a', 'n', 'd', ' '], ":"@, 0, seq![]);
    let t = seq![' ', 'a', 'n', 'd', ' '];
    assert(spread_operators(seq!['a', 'n', 'd']) == t);
    crate::laws::lemma_angles_before_eq(t, 0);
    assert(t.skip(0) =~= t);
    reveal_with_fuel(split_on, 8);
    reveal_with_fuel(non_empty, 4);
    let e = Seq::<char>::empty();
    crate::laws::lemma_split_absent(seq!['a', 'n', 'd'], ' ');
    crate::laws::lemma_split_at_sep(seq!['a', 'n', 'd'], ' ', e);
    crate::laws::lemma_split_at_sep(e, ' ', seq!['a', 'n', 'd'] + seq![' '] + e);
    assert(t =~= e + seq![' '] + (seq!['a', 'n', 'd'] + seq![' '] + e));
    assert(split_on(e, ' ') =~= seq![e]);
    assert(split_on(t, ' ') =~= seq![Seq::<char>::empty(), seq!['a', 'n', 'd'], Seq::<char>::empty()]);
    assert(non_empty(split_on(t, ' ')) =~= seq![seq!['a', 'n', 'd']]);
}

/// The word `or` is a piece of its own token.
pub proof fn lemma_word_or_tokens()
    ensures
        piece_ok(seq!['o', 'r']),
        piece_tokens(seq!['o', 'r']) == seq![seq!['o', 'r']],
{
    reveal(piece_ok);
    reveal(piece_tokens);
    reveal_strlit("not");
    reveal_strlit("and");
    reveal_strlit("or");
    reveal_strlit("==");
    reveal_strlit("!=");
    reveal_strlit("<=");
    reveal_strlit(">=");
    reveal_strlit("+");
    reveal_strlit("-");
    reveal_strlit("*");
    reveal_strlit("/");
    reveal_strlit("(");
    reveal_strlit(")");
    reveal_strlit(",");
    reveal_strlit(":");
    reveal_strlit(" not ");
    reveal_strlit(" and ");
    reveal_strlit(" or ");
    reveal_strlit(" == ");
    reveal_strlit(" != ");
    reveal_strlit(" <= ");
    reveal_strlit(" >= ");
    reveal_strlit(" + ");
    reveal_strlit(" - ");
    reveal_strlit(" * ");
    reveal_strlit(" / ");
    reveal_strlit(" ( ");
    reveal_strlit(" ) ");
    reveal_strlit(" ");
    crate::laws::lemma_replace_missing(seq!['o', 'r'], "not"@, 0, " not "@);
    crate::laws::lemma_replace_missing(seq!['o', 'r'], "and"@, 0, " and "@);
    assert("or"@ =~= seq!['o', 'r']);
    lemma_replace_whole(seq!['o', 'r'], " or "@);
    assert(" or "@ =~= seq![' ', 'o', 'r', ' ']);
    crate::laws::lemma_replace_missing(seq![' ', 'o', 'r', ' '], "=="@, 0, " == "@);
    crate::laws::lemma_replace_missing(seq![' ', 'o', 'r', ' '], "!="@, 0, " != "@);
    crate::laws::lemma_replace_missing(seq![' ', 'o', 'r', ' '], "<="@, 0, " <= "@);
    crate::laws::lemma_replace_missing(seq![' ', 'o', 'r', ' '], ">="@, 0, " >= "@);
    crate::laws::lemma_replace_missing(seq![' ', 'o', 'r', ' '], "+"@, 0, " + "@);
    crate::laws::lemma_replace_missing(seq![' ', 'o', 'r', ' '], "-"@, 0, " - "@);
    crate::laws::lemma_replace_missing(seq![' ', 'o', 'r', ' '], "*"@, 0, " * "@);
    crate::laws::lemma_replace_missing(seq![' ', 'o', 'r', ' '], "/"@, 0, " / "@);
    crate::laws::lemma_replace_missing(seq![' ', 'o', 'r', ' '], "("@, 0, " ( "@);
    crate::laws::lemma_replace_missing(seq![' ', 'o', 'r', ' '], ")"@, 0, " ) "@);
    crate::laws::lemma_replace_missing(seq![' ', 'o', 'r', ' '], ","@, 0, " "@);
    crate::laws::lemma_replace_missing(seq![' ', 'o', 'r', ' '], ":"@, 0, seq![]);
    let t = seq![' ', 'o', 'r', ' '];
    assert(spread_operators(seq!['o', 'r']) == t);
    crate::laws::lemma_angles_before_eq(t, 0);
    assert(t.skip(0) =~= t);
    reveal_with_fuel(split_on, 8);
    reveal_with_fuel(non_empty, 4);
    let e = Seq::<char>::empty();
    crate::laws::lemma_split_absent(seq!['o', 'r'], ' ');
    crate::laws::lemma_split_at_sep(seq!['o', 'r'], ' ', e);
    crate::laws::lemma_split_at_sep(e, ' ', seq!['o', 'r'] + seq![' '] + e);
    assert(t =~= e + seq![' '] + (seq!['o', 'r'] + seq![' '] + e));
    assert(split_on(e, ' ') =~= seq![e]);
    assert(split_on(t, ' ') =~= seq![Seq::<char>::empty(), seq!['o', 'r'], Seq::<char>::empty()]);
    assert(non_empty(split_on(t, ' ')) =~= seq![seq!['o', 'r']]);
}


/// The argument text of a comparison: its number, or nothing.
pub open spec fn arg_txt(a: ChainAtom) -> Seq<char> {
    match a.2 {
        Some(u) => dec_nat(u),
        None => seq![],
    }
}

/// The text of a comparison as a condition line holds it, spaces removed:
/// the call, the operator and the number.
pub open spec fn atom_txt(a: ChainAtom) -> Seq<char> {
    a.0 + seq!['('] + arg_txt(a) + seq![')'] + a.3 + dec_nat(a.4)
}

/// The characters of a comparison operator are no letters.
proof fn lemma_op_nonletter(op: Seq<char>)
    requires
        comparison_op(op),
    ensures
        forall|j: int| 0 <= j < op.len() ==> !is_letter(#[trigger] op[j]),
{
}

/// What follows the name in a comparison line holds no letter.
proof fn lemma_tail_nonletter(u: Seq<char>, op: Seq<char>, n: Seq<char>)
    requires
        forall|j: int| 0 <= j < u.len() ==> is_digit(#[trigger] u[j]),
        forall|j: int| 0 <= j < n.len() ==> is_digit(#[trigger] n[j]),
        comparison_op(op),
    ensures
        ({
            let tail0 = seq!['('] + u + seq![')'] + op + n + seq![':'];
            forall|j: int| 0 <= j < tail0.len() ==> !is_letter(#[trigger] tail0[j])
        }),
{
    lemma_op_nonletter(op);
    let tail0 = seq!['('] + u + seq![')'] + op + n + seq![':'];
    assert forall|j: int| 0 <= j < tail0.len() implies !is_letter(#[trigger] tail0[j]) by {
        let k1 = 1 + u.len();
        let k2 = k1 + 1 + op.len();
        if 1 <= j < k1 {
            assert(tail0[j] == u[j - 1]);
        } else if k1 < j < k2 {
            assert(tail0[j] == op[j - k1 - 1]);
        } else if k2 <= j < k2 + n.len() {
            assert(tail0[j] == n[j - k2]);
        }
    }
}

/// The text of a comparison sets apart into its tokens.
pub proof fn lemma_atom_tokens(a: ChainAtom)
    requires
        plain_name(a.0),
        comparison_op(a.3),
    ensures
        piece_ok(atom_txt(a)),
        piece_tokens(atom_txt(a)) == atom_in(a),
{
    let f = a.0;
    let u = arg_txt(a);
    let op = a.3;
    let n = dec_nat(a.4);
    crate::laws::lemma_dec_nat_digits(a.4);
    match a.2 {
        Some(v) => crate::laws::lemma_dec_nat_digits(v),
        None => {},
    }
    assert forall|j: int| 0 <= j < u.len() implies is_digit(#[trigger] u[j]) by {
        match a.2 {
            Some(v) => {},
            None => {},
        }
    }
    crate::laws::lemma_comparison_line_tokens(f, u, op, n);
    let tail0 = seq!['('] + u + seq![')'] + op + n + seq![':'];
    lemma_tail_nonletter(u, op, n);
    crate::laws::lemma_keywords_spread(f, tail0);
    assert(crate::laws::comparison_text(f, u, op, n) =~= seq!['i', 'f'] + f + tail0);
    let w_if = seq!['i', 'f'];
    let x = w_if + seq![' '] + atom_txt(a);
    assert(seq!['i', 'f', ' '] + f + tail0 =~= x + seq![':']);
    lemma_tokenize_piece(x);
    lemma_word_if_tokens();
    lemma_piece_ok_right(w_if, atom_txt(a));
    lemma_tokens_space(w_if, atom_txt(a));
    let ct = crate::laws::comparison_tokens(f, u, op, n);
    assert(piece_tokens(atom_txt(a)) =~= ct.drop_first()) by {
        assert(seq![w_if] + piece_tokens(atom_txt(a)) == ct);
        assert((seq![w_if] + piece_tokens(atom_txt(a))).drop_first() =~= piece_tokens(atom_txt(a)));
    }
    match a.2 {
        Some(v) => {
            assert(u.len() > 0);
            assert(ct.drop_first() =~= atom_in(a));
        },
        None => {
            assert(ct.drop_first() =~= atom_in(a));
        },
    }
}


/// A comparison's text holds no keyword: its only letters are those of its
/// name, which holds none.
proof fn lemma_atom_no_kw(a: ChainAtom, kw: Seq<char>, r: Seq<char>)
    requires
        plain_name(a.0),
        comparison_op(a.3),
        kw.len() > 0,
        forall|j: int| 0 <= j < kw.len() ==> is_letter(#[trigger] kw[j]),
        !contains_text(a.0, kw),
    ensures
        replace_all(atom_txt(a), kw, r) == atom_txt(a),
{
    let f = a.0;
    let t = atom_txt(a);
    let u = arg_txt(a);
    let n = dec_nat(a.4);
    crate::laws::lemma_dec_nat_digits(a.4);
    match a.2 {
        Some(v) => crate::laws::lemma_dec_nat_digits(v),
        None => {},
    }
    assert forall|j: int| 0 <= j < u.len() implies is_digit(#[trigger] u[j]) by {
        match a.2 {
            Some(v) => {},
            None => {},
        }
    }
    lemma_tail_nonletter(u, a.3, n);
    let tail0 = seq!['('] + u + seq![')'] + a.3 + n + seq![':'];
    assert forall|j: int| f.len() <= j < t.len() implies !is_letter(#[trigger] t[j]) by {
        assert(t[j] == tail0[j - f.len()]);
    }
    assert forall|i: int| 0 <= i < t.len() implies !occurs_at(t, kw, i) by {
        if occurs_at(t, kw, i) {
            let e = i + kw.len() - 1;
            assert(t.subrange(i, i + kw.len())[0] == t[i]);
            assert(t.subrange(i, i + kw.len())[kw.len() - 1] == t[e]);
            assert(is_letter(t[e]));
            assert(e < f.len());
            assert(f.subrange(i, i + kw.len()) =~= t.subrange(i, i + kw.len()));
            assert(occurs_at(f, kw, i));
        }
    }
    crate::laws::lemma_replace_none(t, kw, r);
}

/// The text of the first `k` comparisons of a group, joined by `aw`.
pub open spec fn grp_txt(g: Seq<ChainAtom>, k: nat, aw: Seq<char>) -> Seq<char>
    decreases k,
{
    if k <= 1 {
        atom_txt(g[0])
    } else {
        grp_txt(g, (k - 1) as nat, aw) + aw + atom_txt(g[k - 1])
    }
}

/// The text of the first `m` groups joined by `ow`, their comparisons by
/// `aw`.
pub open spec fn mix_txt(gs: Seq<Seq<ChainAtom>>, m: nat, aw: Seq<char>, ow: Seq<char>) -> Seq<char>
    decreases m,
{
    if m <= 1 {
        grp_txt(gs[0], gs[0].len(), aw)
    } else {
        mix_txt(gs, (m - 1) as nat, aw, ow) + ow + grp_txt(gs[m - 1], gs[m - 1].len(), aw)
    }
}

/// A comparison's text ends in a digit.
proof fn lemma_atom_last(a: ChainAtom)
    ensures
        atom_txt(a).len() > 0,
        is_digit(atom_txt(a).last()),
{
    crate::laws::lemma_dec_nat_digits(a.4);
    let n = dec_nat(a.4);
    assert(atom_txt(a).last() == n[n.len() - 1]);
}

/// The text of a group ends in a digit.
proof fn lemma_grp_last(g: Seq<ChainAtom>, k: nat, aw: Seq<char>)
    requires
        1 <= k <= g.len(),
    ensures
        grp_txt(g, k, aw).len() > 0,
        is_digit(grp_txt(g, k, aw).last()),
{
    lemma_atom_last(g[k - 1]);
}

/// The text of groups ends in a digit.
proof fn lemma_mix_last(gs: Seq<Seq<ChainAtom>>, m: nat, aw: Seq<char>, ow: Seq<char>)
    requires
        1 <= m <= gs.len(),
        forall|i: int| 0 <= i < gs.len() ==> (#[trigger] gs[i]).len() >= 1,
    ensures
        mix_txt(gs, m, aw, ow).len() > 0,
        is_digit(mix_txt(gs, m, aw, ow).last()),
{
    assert(gs[m - 1].len() >= 1);
    lemma_grp_last(gs[m - 1], gs[m - 1].len(), aw);
}

/// A seam after a digit is covered by no occurrence of a pattern without
/// digits.
proof fn lemma_seam_digit(x: Seq<char>, y: Seq<char>, p: Seq<char>)
    requires
        x.len() > 0,
        p.len() > 0,
        is_digit(x.last()),
        forall|j: int| 0 <= j < p.len() ==> !is_digit(#[trigger] p[j]),
    ensures
        no_straddle(x, y, p),
{
    if p.take(p.len() - 1).contains(x.last()) {
        let t = p.take(p.len() - 1);
        let j = choose|j: int| 0 <= j < t.len() && t[j] == x.last();
        assert(p[j] == t[j]);
    }
}

/// One pass over the text of a group, when it leaves each comparison alone
/// and no occurrence covers a seam after a connective.
proof fn lemma_pass_grp(g: Seq<ChainAtom>, k: nat, aw: Seq<char>, p: Seq<char>, r: Seq<char>)
    requires
        1 <= k <= g.len(),
        p.len() > 0,
        forall|j: int| 0 <= j < g.len() ==> replace_all(atom_txt(#[trigger] g[j]), p, r) == atom_txt(g[j]),
        forall|j: int| 0 <= j < p.len() ==> !is_digit(#[trigger] p[j]),
        aw.len() > 0,
        !p.take(p.len() - 1).contains(aw.last()),
    ensures
        replace_all(grp_txt(g, k, aw), p, r) == grp_txt(g, k, replace_all(aw, p, r)),
    decreases k,
{
    let a = g[k - 1];
    assert(replace_all(atom_txt(a), p, r) == atom_txt(a));
    if k > 1 {
        let x = grp_txt(g, (k - 1) as nat, aw);
        lemma_pass_grp(g, (k - 1) as nat, aw, p, r);
        lemma_grp_last(g, (k - 1) as nat, aw);
        assert((x + aw).last() == aw.last());
        lemma_replace_concat(x + aw, atom_txt(a), p, r);
        lemma_seam_digit(x, aw, p);
        lemma_replace_concat(x, aw, p, r);
    }
}

/// One pass over the text of groups, under the same conditions.
proof fn lemma_pass_mix(gs: Seq<Seq<ChainAtom>>, m: nat, aw: Seq<char>, ow: Seq<char>, p: Seq<char>, r: Seq<char>)
    requires
        1 <= m <= gs.len(),
        forall|i: int| 0 <= i < gs.len() ==> (#[trigger] gs[i]).len() >= 1,
        p.len() > 0,
        forall|i: int, j: int| 0 <= i < gs.len() && 0 <= j < gs[i].len() ==> replace_all(atom_txt(#[trigger] gs[i][j]), p, r)
            == atom_txt(gs[i][j]),
        forall|j: int| 0 <= j < p.len() ==> !is_digit(#[trigger] p[j]),
        aw.len() > 0,
        !p.take(p.len() - 1).contains(aw.last()),
        ow.len() > 0,
        !p.take(p.len() - 1).contains(ow.last()),
    ensures
        replace_all(mix_txt(gs, m, aw, ow), p, r) == mix_txt(gs, m, replace_all(aw, p, r), replace_all(ow, p, r)),
    decreases m,
{
    let g = gs[m - 1];
    assert(g.len() >= 1);
    assert forall|j: int| 0 <= j < g.len() implies replace_all(atom_txt(#[trigger] g[j]), p, r) == atom_txt(g[j]) by {
        assert(replace_all(atom_txt(gs[m - 1][j]), p, r) == atom_txt(gs[m - 1][j]));
    }
    lemma_pass_grp(g, g.len(), aw, p, r);
    if m > 1 {
        let x = mix_txt(gs, (m - 1) as nat, aw, ow);
        lemma_pass_mix(gs, (m - 1) as nat, aw, ow, p, r);
        lemma_mix_last(gs, (m - 1) as nat, aw, ow);
        assert((x + ow).last() == ow.last());
        lemma_replace_concat(x + ow, grp_txt(g, g.len(), aw), p, r);
        lemma_seam_digit(x, ow, p);
        lemma_replace_concat(x, ow, p, r);
    }
}


/// Whether every group holds a comparison and each comparison has a plain
/// name and a comparison operator.
pub open spec fn groups_plain(gs: Seq<Seq<ChainAtom>>) -> bool {
    &&& gs.len() >= 1
    &&& forall|i: int| 0 <= i < gs.len() ==> (#[trigger] gs[i]).len() >= 1
    &&& forall|i: int, j: int| 0 <= i < gs.len() && 0 <= j < gs[i].len() ==> plain_name((#[trigger] gs[i][j]).0)
        && comparison_op(gs[i][j].3)
}

/// One pass over a line `pre + text + ":"`.
proof fn lemma_pass_line(pre: Seq<char>, t: Seq<char>, p: Seq<char>, r: Seq<char>)
    requires
        pre.len() > 0,
        p.len() > 0,
        !p.take(p.len() - 1).contains(pre.last()),
        t.len() > 0,
        is_digit(t.last()),
        forall|j: int| 0 <= j < p.len() ==> !is_digit(#[trigger] p[j]),
    ensures
        replace_all(pre + t + seq![':'], p, r) == replace_all(pre, p, r) + replace_all(t, p, r) + replace_all(seq![':'], p, r),
{
    assert((pre + t).last() == t.last());
    lemma_seam_digit(pre + t, seq![':'], p);
    lemma_replace_concat(pre + t, seq![':'], p, r);
    lemma_replace_concat(pre, t, p, r);
}

/// A keyword pass leaves every comparison alone.
proof fn lemma_atoms_no_kw(gs: Seq<Seq<ChainAtom>>, kw: Seq<char>, r: Seq<char>)
    requires
        groups_plain(gs),
        kw == seq!['i', 'f'] || kw == seq!['a', 'n', 'd'] || kw == seq!['o', 'r'] || kw == seq!['n', 'o', 't'],
    ensures
        forall|i: int, j: int| 0 <= i < gs.len() && 0 <= j < gs[i].len() ==> replace_all(atom_txt(#[trigger] gs[i][j]), kw, r)
            == atom_txt(gs[i][j]),
        forall|j: int| 0 <= j < kw.len() ==> !is_digit(#[trigger] kw[j]),
{
    assert forall|i: int, j: int| 0 <= i < gs.len() && 0 <= j < gs[i].len() implies replace_all(
        atom_txt(#[trigger] gs[i][j]),
        kw,
        r,
    ) == atom_txt(gs[i][j]) by {
        lemma_atom_no_kw(gs[i][j], kw, r);
    }
}

/// Setting keywords apart in a line of comparisons joined by `and` and
/// `or`: a space after `if` and around each connective.
#[verifier::rlimit(60)]
pub proof fn lemma_keywords_line(gs: Seq<Seq<ChainAtom>>)
    requires
        groups_plain(gs),
    ensures
        spread_keywords(seq!['i', 'f'] + mix_txt(gs, gs.len(), seq!['a', 'n', 'd'], seq!['o', 'r']) + seq![':'])
            == seq!['i', 'f', ' '] + mix_txt(gs, gs.len(), seq![' ', 'a', 'n', 'd', ' '], seq![' ', 'o', 'r', ' ']) + seq![':'],
{
    reveal_strlit("if");
    reveal_strlit("if ");
    reveal_strlit("and");
    reveal_strlit(" and ");
    reveal_strlit("or");
    reveal_strlit(" or ");
    reveal_strlit("not");
    reveal_strlit(" not ");
    let m = gs.len();
    let w_if = seq!['i', 'f'];
    let w_if_sp = seq!['i', 'f', ' '];
    let w_and = seq!['a', 'n', 'd'];
    let w_and_sp = seq![' ', 'a', 'n', 'd', ' '];
    let w_or = seq!['o', 'r'];
    let w_or_sp = seq![' ', 'o', 'r', ' '];
    let w_not = seq!['n', 'o', 't'];
    let colon = seq![':'];
    assert("if"@ =~= w_if && "if "@ =~= w_if_sp && "and"@ =~= w_and && " and "@ =~= w_and_sp);
    assert("or"@ =~= w_or && " or "@ =~= w_or_sp && "not"@ =~= w_not && " not "@ =~= seq![' ', 'n', 'o', 't', ' ']);
    let r_not = seq![' ', 'n', 'o', 't', ' '];
    let m0 = mix_txt(gs, m, w_and, w_or);
    let m1 = mix_txt(gs, m, w_and_sp, w_or);
    let m2 = mix_txt(gs, m, w_and_sp, w_or_sp);
    lemma_mix_last(gs, m, w_and, w_or);
    lemma_mix_last(gs, m, w_and_sp, w_or);
    lemma_mix_last(gs, m, w_and_sp, w_or_sp);
    // `if`
    lemma_atoms_no_kw(gs, w_if, w_if_sp);
    lemma_pass_line(w_if, m0, w_if, w_if_sp);
    lemma_replace_whole(w_if, w_if_sp);
    crate::laws::lemma_replace_missing(w_and, w_if, 0, w_if_sp);
    crate::laws::lemma_replace_missing(w_or, w_if, 0, w_if_sp);
    crate::laws::lemma_replace_missing(colon, w_if, 0, w_if_sp);
    lemma_pass_mix(gs, m, w_and, w_or, w_if, w_if_sp);
    let c1 = w_if_sp + m0 + colon;
    assert(replace_all(w_if + m0 + colon, w_if, w_if_sp) == c1);
    // `and`
    lemma_atoms_no_kw(gs, w_and, w_and_sp);
    lemma_pass_line(w_if_sp, m0, w_and, w_and_sp);
    crate::laws::lemma_replace_missing(w_if_sp, w_and, 0, w_and_sp);
    lemma_replace_whole(w_and, w_and_sp);
    crate::laws::lemma_replace_missing(w_or, w_and, 0, w_and_sp);
    crate::laws::lemma_replace_missing(colon, w_and, 0, w_and_sp);
    lemma_pass_mix(gs, m, w_and, w_or, w_and, w_and_sp);
    let c2 = w_if_sp + m1 + colon;
    assert(replace_all(c1, w_and, w_and_sp) == c2);
    // `or`
    lemma_atoms_no_kw(gs, w_or, w_or_sp);
    lemma_pass_line(w_if_sp, m1, w_or, w_or_sp);
    crate::laws::lemma_replace_missing(w_if_sp, w_or, 0, w_or_sp);
    crate::laws::lemma_replace_missing(w_and_sp, w_or, 0, w_or_sp);
    lemma_replace_whole(w_or, w_or_sp);
    crate::laws::lemma_replace_missing(colon, w_or, 0, w_or_sp);
    lemma_pass_mix(gs, m, w_and_sp, w_or, w_or, w_or_sp);
    let c3 = w_if_sp + m2 + colon;
    assert(replace_all(c2, w_or, w_or_sp) == c3);
    // `not`
    lemma_atoms_no_kw(gs, w_not, r_not);
    lemma_pass_line(w_if_sp, m2, w_not, r_not);
    crate::laws::lemma_replace_missing(w_if_sp, w_not, 0, r_not);
    crate::laws::lemma_replace_missing(w_and_sp, w_not, 1, r_not);
    crate::laws::lemma_replace_missing(w_or_sp, w_not, 0, r_not);
    crate::laws::lemma_replace_missing(colon, w_not, 0, r_not);
    lemma_pass_mix(gs, m, w_and_sp, w_or_sp, w_not, r_not);
    assert(replace_all(c3, w_not, r_not) == c3);
}


/// The tokens of the text of a group, its comparisons joined by ` and `.
proof fn lemma_grp_tokens(g: Seq<ChainAtom>, k: nat)
    requires
        1 <= k <= g.len(),
        forall|j: int| 0 <= j < g.len() ==> plain_name((#[trigger] g[j]).0) && comparison_op(g[j].3),
    ensures
        piece_ok(grp_txt(g, k, seq![' ', 'a', 'n', 'd', ' '])),
        piece_tokens(grp_txt(g, k, seq![' ', 'a', 'n', 'd', ' '])) == group_in(g, k),
    decreases k,
{
    let a = g[k - 1];
    lemma_atom_tokens(a);
    if k > 1 {
        let w_and = seq!['a', 'n', 'd'];
        let x = grp_txt(g, (k - 1) as nat, seq![' ', 'a', 'n', 'd', ' ']);
        lemma_grp_tokens(g, (k - 1) as nat);
        lemma_word_and_tokens();
        lemma_tokens_space(x, w_and);
        lemma_tokens_space(x + seq![' '] + w_and, atom_txt(a));
        assert(x + seq![' '] + w_and + seq![' '] + atom_txt(a) =~= grp_txt(g, k, seq![' ', 'a', 'n', 'd', ' ']));
        assert(group_in(g, (k - 1) as nat) + seq![w_and] + atom_in(a) =~= group_in(g, k));
    }
}

/// The tokens of the text of groups joined by ` or `, their comparisons by
/// ` and `: those that compiling reads, but the first, `if`.
proof fn lemma_mix_tokens(gs: Seq<Seq<ChainAtom>>, m: nat)
    requires
        groups_plain(gs),
        1 <= m <= gs.len(),
    ensures
        piece_ok(mix_txt(gs, m, seq![' ', 'a', 'n', 'd', ' '], seq![' ', 'o', 'r', ' '])),
        seq![seq!['i', 'f']] + piece_tokens(mix_txt(gs, m, seq![' ', 'a', 'n', 'd', ' '], seq![' ', 'o', 'r', ' ']))
            == mix_in(gs, m),
    decreases m,
{
    let aw = seq![' ', 'a', 'n', 'd', ' '];
    let ow = seq![' ', 'o', 'r', ' '];
    let g = gs[m - 1];
    assert(g.len() >= 1);
    assert forall|j: int| 0 <= j < g.len() implies plain_name((#[trigger] g[j]).0) && comparison_op(g[j].3) by {
        assert(plain_name(gs[m - 1][j].0) && comparison_op(gs[m - 1][j].3));
    }
    lemma_grp_tokens(g, g.len());
    if m > 1 {
        let w_or = seq!['o', 'r'];
        let x = mix_txt(gs, (m - 1) as nat, aw, ow);
        let y = grp_txt(g, g.len(), aw);
        lemma_mix_tokens(gs, (m - 1) as nat);
        lemma_word_or_tokens();
        lemma_tokens_space(x, w_or);
        lemma_tokens_space(x + seq![' '] + w_or, y);
        assert(x + seq![' '] + w_or + seq![' '] + y =~= mix_txt(gs, m, aw, ow));
        assert(seq![seq!['i', 'f']] + (piece_tokens(x) + seq![w_or] + piece_tokens(y)) =~= (seq![seq!['i', 'f']]
            + piece_tokens(x)) + seq![w_or] + group_in(g, g.len()));
    }
}

/// A condition line of comparisons joined by `and` and `or`, spaces
/// removed, splits into the tokens that `law_mixed_roundtrip` starts from.
pub proof fn lemma_line_tokens(gs: Seq<Seq<ChainAtom>>)
    requires
        groups_plain(gs),
    ensures
        tokenize_spec(spread_keywords(seq!['i', 'f'] + mix_txt(gs, gs.len(), seq!['a', 'n', 'd'], seq!['o', 'r']) + seq![':']))
            == Some(mix_in(gs, gs.len())),
{
    let aw = seq![' ', 'a', 'n', 'd', ' '];
    let ow = seq![' ', 'o', 'r', ' '];
    let m1 = mix_txt(gs, gs.len(), aw, ow);
    lemma_keywords_line(gs);
    let w_if = seq!['i', 'f'];
    assert(seq!['i', 'f', ' '] + m1 + seq![':'] =~= (w_if + seq![' '] + m1) + seq![':']);
    lemma_tokenize_piece(w_if + seq![' '] + m1);
    lemma_mix_tokens(gs, gs.len());
    lemma_word_if_tokens();
    lemma_tokens_space(w_if, m1);
}


/// A text with its spaces removed.
pub open spec fn strip_spaces(s: Seq<char>) -> Seq<char>
    decreases s.len(),
{
    if s.len() == 0 {
        seq![]
    } else if s.last() == ' ' {
        strip_spaces(s.drop_last())
    } else {
        strip_spaces(s.drop_last()).push(s.last())
    }
}

/// Removing spaces from two texts one after the other.
proof fn lemma_strip_concat(a: Seq<char>, b: Seq<char>)
    ensures
        strip_spaces(a + b) == strip_spaces(a) + strip_spaces(b),
    decreases b.len(),
{
    if b.len() == 0 {
        assert(a + b =~= a);
        assert(strip_spaces(a) + strip_spaces(b) =~= strip_spaces(a));
    } else {
        assert((a + b).drop_last() =~= a + b.drop_last());
        assert((a + b).last() == b.last());
        lemma_strip_concat(a, b.drop_last());
        if b.last() != ' ' {
            assert(strip_spaces(a) + strip_spaces(b.drop_last()).push(b.last()) =~= (strip_spaces(a) + strip_spaces(
                b.drop_last(),
            )).push(b.last()));
        }
    }
}

/// A text without spaces is left as it is.
proof fn lemma_strip_none(s: Seq<char>)
    requires
        forall|j: int| 0 <= j < s.len() ==> s[j] != ' ',
    ensures
        strip_spaces(s) == s,
    decreases s.len(),
{
    if s.len() > 0 {
        lemma_strip_none(s.drop_last());
        assert(s.drop_last().push(s.last()) =~= s);
    }
}

/// A comparison prints as its text with spaces around the operator.
proof fn lemma_strip_atom(a: ChainAtom)
    requires
        plain_name(a.0),
        comparison_op(a.3),
    ensures
        strip_spaces(crate::condition_laws::atom_print(a)) == atom_txt(a),
{
    let call = crate::condition_laws::atom_call(a);
    let n = dec_nat(a.4);
    crate::laws::lemma_dec_nat_digits(a.4);
    let sp = seq![' '];
    assert(forall|j: int| 0 <= j < sp.len() ==> sp[j] == ' ');
    assert(strip_spaces(sp) == Seq::<char>::empty()) by {
        assert(sp.drop_last() =~= Seq::<char>::empty());
        assert(sp.last() == ' ');
        assert(strip_spaces(Seq::<char>::empty()) == Seq::<char>::empty());
    }
    assert forall|j: int| 0 <= j < call.len() implies call[j] != ' ' by {
        if j < a.0.len() {
            assert(call[j] == a.0[j]);
            assert(is_name_char(a.0[j]));
        } else {
            match a.2 {
                Some(u) => {
                    crate::laws::lemma_dec_nat_digits(u);
                    if a.0.len() < j < call.len() - 1 {
                        assert(call[j] == dec_nat(u)[j - a.0.len() - 1]);
                        assert(is_digit(dec_nat(u)[j - a.0.len() - 1]));
                    }
                },
                None => {},
            }
        }
    }
    assert forall|j: int| 0 <= j < n.len() implies n[j] != ' ' by {
        assert(is_digit(n[j]));
    }
    lemma_op_nonletter(a.3);
    assert forall|j: int| 0 <= j < a.3.len() implies a.3[j] != ' ' by {
    }
    lemma_strip_none(call);
    lemma_strip_none(a.3);
    lemma_strip_none(n);
    lemma_strip_concat(call + sp + a.3 + sp, n);
    lemma_strip_concat(call + sp + a.3, sp);
    lemma_strip_concat(call + sp, a.3);
    lemma_strip_concat(call, sp);
    assert(call + Seq::<char>::empty() + a.3 + Seq::<char>::empty() + n =~= atom_txt(a)) by {
        match a.2 {
            Some(u) => {},
            None => {},
        }
    }
}

/// A group prints as its text with spaces around the operators and `and`s.
proof fn lemma_strip_grp(g: Seq<ChainAtom>, k: nat)
    requires
        1 <= k <= g.len(),
        forall|j: int| 0 <= j < g.len() ==> plain_name((#[trigger] g[j]).0) && comparison_op(g[j].3),
    ensures
        strip_spaces(crate::condition_laws::chain_print(g, k, seq!['a', 'n', 'd'])) == grp_txt(g, k, seq!['a', 'n', 'd']),
    decreases k,
{
    let w_and = seq!['a', 'n', 'd'];
    let a = g[k - 1];
    lemma_strip_atom(a);
    if k > 1 {
        lemma_strip_grp(g, (k - 1) as nat);
        let x = crate::condition_laws::chain_print(g, (k - 1) as nat, w_and);
        let sp = seq![' '];
        assert(strip_spaces(sp) == Seq::<char>::empty()) by {
            assert(sp.drop_last() =~= Seq::<char>::empty());
            assert(sp.last() == ' ');
            assert(strip_spaces(Seq::<char>::empty()) == Seq::<char>::empty());
        }
        lemma_strip_none(w_and);
        lemma_strip_concat(x + sp + w_and + sp, crate::condition_laws::atom_print(a));
        lemma_strip_concat(x + sp + w_and, sp);
        lemma_strip_concat(x + sp, w_and);
        lemma_strip_concat(x, sp);
        assert(grp_txt(g, (k - 1) as nat, w_and) + Seq::<char>::empty() + w_and + Seq::<char>::empty() + atom_txt(a)
            =~= grp_txt(g, k, w_and));
    }
}

/// ` or ` without its spaces.
proof fn lemma_strip_or()
    ensures
        strip_spaces(seq![' ', 'o', 'r', ' ']) == seq!['o', 'r'],
{
    let w = seq![' ', 'o', 'r', ' '];
    let sp = seq![' '];
    lemma_strip_none(seq!['o', 'r']);
    assert(strip_spaces(sp) == Seq::<char>::empty()) by {
        assert(sp.drop_last() =~= Seq::<char>::empty());
        assert(sp.last() == ' ');
        assert(strip_spaces(Seq::<char>::empty()) == Seq::<char>::empty());
    }
    lemma_strip_concat(sp + seq!['o', 'r'], sp);
    lemma_strip_concat(sp, seq!['o', 'r']);
    assert(w =~= sp + seq!['o', 'r'] + sp);
    assert(Seq::<char>::empty() + seq!['o', 'r'] + Seq::<char>::empty() =~= seq!['o', 'r']);
}

/// The decompiled condition, spaces removed, is the text of the groups.
proof fn lemma_strip_mix(gs: Seq<Seq<ChainAtom>>, m: nat)
    requires
        groups_plain(gs),
        1 <= m <= gs.len(),
    ensures
        strip_spaces(mix_print(gs, m)) == mix_txt(gs, m, seq!['a', 'n', 'd'], seq!['o', 'r']),
    decreases m,
{
    let g = gs[m - 1];
    assert(g.len() >= 1);
    assert forall|j: int| 0 <= j < g.len() implies plain_name((#[trigger] g[j]).0) && comparison_op(g[j].3) by {
        assert(plain_name(gs[m - 1][j].0) && comparison_op(gs[m - 1][j].3));
    }
    lemma_strip_grp(g, g.len());
    if m > 1 {
        lemma_strip_mix(gs, (m - 1) as nat);
        let x = mix_print(gs, (m - 1) as nat);
        let y = crate::condition_laws::chain_print(g, g.len(), seq!['a', 'n', 'd']);
        let w = seq![' ', 'o', 'r', ' '];
        lemma_strip_or();
        lemma_strip_concat(x + w, y);
        lemma_strip_concat(x, w);
    }
}

/// A condition line `if<condition>:` (spaces removed, as the script reader
/// gives it) made of comparisons joined by `and` and `or` in any order,
/// without parentheses, compiles to bytecode that decompiles to the same
/// condition with its spaces, on an indented `if` line: when every defined
/// function has a plain name, and each comparison names a function with an
/// id below 64 that compiling finds for the name and that gives the name
/// back, with at most one number argument and numbers up to `u32::MAX`.
pub proof fn law_condition_line_roundtrip(gs: Seq<Seq<ChainAtom>>, funcs: Seq<(Seq<char>, Seq<char>)>)
    requires
        crate::laws::plain_defs(funcs),
        groups_compile(gs, funcs),
    ensures
        crate::types::compile::condition_spec::condition_bytes(
            seq!['i', 'f'] + mix_txt(gs, gs.len(), seq!['a', 'n', 'd'], seq!['o', 'r']) + seq![':'],
            funcs,
        ) matches Some(code) && crate::types::decompile::condition_spec::condition_line(code, funcs) == Some(
            "        if "@ + mix_print(gs, gs.len()) + seq![':'],
        ),
        strip_spaces(mix_print(gs, gs.len())) == mix_txt(gs, gs.len(), seq!['a', 'n', 'd'], seq!['o', 'r']),
{
    assert(groups_plain(gs)) by {
        assert forall|i: int, j: int| 0 <= i < gs.len() && 0 <= j < gs[i].len() implies plain_name((#[trigger] gs[i][j]).0)
            && comparison_op(gs[i][j].3) by {
            assert(crate::condition_laws::group_compiles(gs[i], funcs));
            assert(crate::condition_laws::atom_compiles(gs[i][j], funcs));
        }
        assert forall|i: int| 0 <= i < gs.len() implies (#[trigger] gs[i]).len() >= 1 by {
            assert(crate::condition_laws::group_compiles(gs[i], funcs));
        }
    }
    lemma_line_tokens(gs);
    law_mixed_roundtrip(gs, funcs);
    lemma_strip_mix(gs, gs.len());
}

} // verus!
