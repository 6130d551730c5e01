//! Compiling condition texts into bytecode.
use vstd::prelude::*;
use crate::types::compile::condition_spec::{
    bump, cond_bytes, condition_bytes, le4, non_empty, op_byte, pop_ops, pop_to_paren,
    postfix_run, postfix_step, precedence, reversed, space_angles, spread_keywords,
    spread_operators, to_postfix_spec, token_bytes, tokenize_spec, PostfixState,
};
use crate::utils::defs::{Defs, defs_has_name, last_id_of};
use crate::utils::strings::{contains_text, parse_in, parse_int, replace_all, replace_text, text_contains};
use crate::utils::text::{chars_of, dec_int, i64_to_string, push_char, push_str, split_chars, split_on, str_eq, string_of};
use crate::utils::text_writer::string_views;

verus! {

/// The tokens of a condition text; `None` when a `<` or `>` ends it.
pub fn tokenize(condition: &str) -> (r: Option<Vec<String>>)
    ensures
        match r {
            Some(t) => tokenize_spec(condition@) == Some(string_views(t@)),
            None => tokenize_spec(condition@) is None,
        },
{
    proof {
        reveal_strlit("not");
        reveal_strlit("and");
        reveal_strlit("or");
        reveal_strlit("==");
        reveal_strlit("!=");
        reveal_strlit("<=");
        reveal_strlit(">=");
        reveal_strlit("+");
        reveal_strlit("-");
        reveal_strlit("*");
        reveal_strlit("/");
        reveal_strlit("(");
        reveal_strlit(")");
        reveal_strlit(",");
        reveal_strlit(":");
        reveal_strlit("");
    }
    let c = replace_text(condition, "not", " not ");
    let c = replace_text(c.as_str(), "and", " and ");
    let c = replace_text(c.as_str(), "or", " or ");
    let c = replace_text(c.as_str(), "==", " == ");
    let c = replace_text(c.as_str(), "!=", " != ");
    let c = replace_text(c.as_str(), "<=", " <= ");
    let c = replace_text(c.as_str(), ">=", " >= ");
    let c = replace_text(c.as_str(), "+", " + ");
    let c = replace_text(c.as_str(), "-", " - ");
    let c = replace_text(c.as_str(), "*", " * ");
    let c = replace_text(c.as_str(), "/", " / ");
    let c = replace_text(c.as_str(), "(", " ( ");
    let c = replace_text(c.as_str(), ")", " ) ");
    let c = replace_text(c.as_str(), ",", " ");
    let c = replace_text(c.as_str(), ":", "");
    proof {
        assert(""@ =~= Seq::<char>::empty());
        assert(c@ == spread_operators(condition@));
    }
    let cs = chars_of(c.as_str());
    let ghost s = cs@;
    let mut out: Vec<char> = Vec::new();
    let mut i: usize = 0;
    while i < cs.len()
        invariant
            0 <= i <= cs@.len(),
            s == cs@,
            s == spread_operators(condition@),
            space_angles(s, 0) == match space_angles(s, i as nat) {
                Some(rest) => Some(out@ + rest),
                None => None,
            },
        decreases cs@.len() - i,
    {
        let ch = cs[i];
        let ghost before = out@;
        if ch == '<' || ch == '>' {
            if i + 1 >= cs.len() {
                proof {
                    assert(space_angles(s, i as nat) is None);
                    assert(s == spread_operators(condition@));
                }
                return None;
            }
            if cs[i + 1] != '=' {
                out.push(' ');
                out.push(ch);
                out.push(' ');
                proof {
                    assert(out@ =~= before + seq![' ', ch, ' ']);
                }
            } else {
                out.push(ch);
                proof {
                    assert(out@ =~= before + seq![ch]);
                }
            }
        } else {
            out.push(ch);
            proof {
                assert(out@ =~= before + seq![ch]);
            }
        }
        proof {
            match space_angles(s, (i + 1) as nat) {
                Some(rest) => {
                    assert(before + (out@.subrange(before.len() as int, out@.len() as int) + rest) =~= out@ + rest);
                },
                None => {},
            }
        }
        i = i + 1;
    }
    proof {
        assert(out@ + seq![] =~= out@);
    }
    let spaced = string_of(&out);
    let pieces = split_chars(spaced.as_str(), ' ');
    let mut tokens: Vec<String> = Vec::new();
    let mut j: usize = 0;
    proof {
        assert(string_views(pieces@).take(0) =~= Seq::<Seq<char>>::empty());
        assert(string_views(tokens@) =~= Seq::<Seq<char>>::empty());
    }
    while j < pieces.len()
        invariant
            0 <= j <= pieces@.len(),
            string_views(tokens@) == non_empty(string_views(pieces@).take(j as int)),
        decreases pieces@.len() - j,
    {
        proof {
            let pv = string_views(pieces@);
            assert(pv.take(j + 1).drop_last() =~= pv.take(j as int));
            assert(pv.take(j + 1).last() == pieces@[j as int]@);
        }
        if pieces[j].as_str().unicode_len() > 0 {
            let ghost before = string_views(tokens@);
            tokens.push(pieces[j].clone());
            proof {
                assert(string_views(tokens@) =~= before.push(pieces@[j as int]@));
            }
        }
        j = j + 1;
    }
    proof {
        assert(string_views(pieces@).take(pieces@.len() as int) =~= string_views(pieces@));
    }
    Some(tokens)
}

/// The precedence of an operator token.
fn precedence_of(t: &str) -> (r: Option<i64>)
    ensures
        match r {
            Some(p) => precedence(t@) == Some(p as int),
            None => precedence(t@) is None,
        },
{
    if str_eq(t, "==") || str_eq(t, "!=") || str_eq(t, "<=") || str_eq(t, ">=") || str_eq(t, "<")
        || str_eq(t, ">") {
        Some(3)
    } else if str_eq(t, "and") {
        Some(1)
    } else if str_eq(t, "or") {
        Some(0)
    } else if str_eq(t, "not") {
        Some(2)
    } else if str_eq(t, "+") || str_eq(t, "-") {
        Some(4)
    } else if str_eq(t, "*") || str_eq(t, "/") {
        Some(5)
    } else {
        None
    }
}

/// Adds `delta` to the innermost counter; `false` when there is none or it
/// would leave the range of `i32`.
fn bump_last(values: &mut Vec<i32>, delta: i32) -> (r: bool)
    requires
        delta == 1 || delta == -1,
    ensures
        r == (bump(old(values)@, delta as int) is Some),
        r ==> final(values)@ == bump(old(values)@, delta as int).unwrap(),
{
    let n = values.len();
    if n == 0 {
        return false;
    }
    let last = values[n - 1];
    if (delta == 1 && last == i32::MAX) || (delta == -1 && last == i32::MIN) {
        return false;
    }
    values.pop();
    values.push(last + delta);
    proof {
        assert(values@ =~= old(values)@.update(n - 1, (last + delta) as i32));
    }
    true
}

/// The model of the conversion state.
spec fn state_of(output: Seq<String>, stack: Seq<String>, values: Seq<i32>, is_fn: Seq<bool>, opens_call: bool) -> PostfixState {
    PostfixState { output: string_views(output), stack: string_views(stack), values, is_fn, opens_call }
}

/// Adds `delta` to the innermost counter; `false` when there is none or it
/// would leave the range of `i32`.
fn add_last(values: &mut Vec<i32>, delta: i32) -> (r: bool)
    ensures
        r == (bump(old(values)@, delta as int) is Some),
        r ==> final(values)@ == bump(old(values)@, delta as int).unwrap(),
        !r ==> final(values)@ == old(values)@,
{
    let n = values.len();
    if n == 0 {
        return false;
    }
    let last = values[n - 1];
    let sum: i64 = last as i64 + delta as i64;
    if sum < i32::MIN as i64 || sum > i32::MAX as i64 {
        return false;
    }
    values.pop();
    values.push(sum as i32);
    proof {
        assert(values@ =~= old(values)@.update(n - 1, sum as i32));
    }
    true
}

/// Once the conversion fails, it fails for every longer token list.
proof fn lemma_postfix_none(tokens: Seq<Seq<char>>, i: nat, n: nat, funcs: Seq<(Seq<char>, Seq<char>)>)
    requires
        i <= n,
        postfix_run(tokens, i, funcs) is None,
    ensures
        postfix_run(tokens, n, funcs) is None,
    decreases n,
{
    if n > i {
        lemma_postfix_none(tokens, i, (n - 1) as nat, funcs);
    }
}

/// The tokens in postfix order: operators after their operands, following
/// their precedence, and each function followed by `(<count>)`, its number
/// of arguments. `None` on an unknown token, an unmatched `)` or a counter
/// overflow.
#[verifier::loop_isolation(false)]
pub fn to_postfix(tokens: &Vec<String>, important_comp_data: &crate::utils::important_comp_data::ImportantCompData) -> (r: Option<Vec<String>>)
    ensures
        match r {
            Some(o) => to_postfix_spec(string_views(tokens@), important_comp_data@.func_defs) == Some(string_views(o@)),
            None => to_postfix_spec(string_views(tokens@), important_comp_data@.func_defs) is None,
        },
{
    let funcs = &important_comp_data.func_defs;
    let ghost f = funcs@;
    let ghost tv = string_views(tokens@);
    let mut output: Vec<String> = Vec::new();
    let mut stack: Vec<String> = Vec::new();
    let mut values: Vec<i32> = Vec::new();
    values.push(0);
    let mut is_fn: Vec<bool> = Vec::new();
    is_fn.push(false);
    let mut opens_call = false;
    proof {
        assert(string_views(output@) =~= Seq::<Seq<char>>::empty());
        assert(string_views(stack@) =~= Seq::<Seq<char>>::empty());
        assert(values@ =~= seq![0i32]);
        assert(is_fn@ =~= seq![false]);
        assert(state_of(output@, stack@, values@, is_fn@, opens_call) =~= postfix_run(tv, 0, f).unwrap());
    }
    let mut i: usize = 0;
    while i < tokens.len()
        invariant
            0 <= i <= tokens@.len(),
            tv == string_views(tokens@),
            f == funcs@,
            f == important_comp_data@.func_defs,
            postfix_run(tv, i as nat, f) == Some(state_of(output@, stack@, values@, is_fn@, opens_call)),
        decreases tokens@.len() - i,
    {
        let t = tokens[i].as_str();
        let ghost st = state_of(output@, stack@, values@, is_fn@, opens_call);
        proof {
            assert(tv[i as int] == t@);
        }
        if parse_int(t, i64::MIN, i64::MAX).is_some() {
            if !bump_last(&mut values, 1) {
                proof { lemma_postfix_none(tv, (i + 1) as nat, tv.len(), f); }
                return None;
            }
            let ghost ov = string_views(output@);
            output.push(tokens[i].clone());
            opens_call = false;
            proof {
                assert(string_views(output@) =~= ov.push(t@));
                assert(state_of(output@, stack@, values@, is_fn@, opens_call) =~= postfix_step(st, t@, f).unwrap());
            }
        } else if funcs.has_name(t) || str_eq(t, "True") {
            if !bump_last(&mut values, 1) {
                proof { lemma_postfix_none(tv, (i + 1) as nat, tv.len(), f); }
                return None;
            }
            let ghost ov = string_views(output@);
            output.push(tokens[i].clone());
            is_fn.push(true);
            opens_call = true;
            proof {
                assert(string_views(output@) =~= ov.push(t@));
                assert(state_of(output@, stack@, values@, is_fn@, opens_call) =~= postfix_step(st, t@, f).unwrap());
            }
        } else if let Some(p) = precedence_of(t) {
            if !bump_last(&mut values, -1) {
                proof { lemma_postfix_none(tv, (i + 1) as nat, tv.len(), f); }
                return None;
            }
            let ghost target = pop_ops(st.output, st.stack, p as int);
            while stack.len() > 0
                invariant
                    pop_ops(string_views(output@), string_views(stack@), p as int) == target,
                decreases stack@.len(),
            {
                let n = stack.len();
                match precedence_of(stack[n - 1].as_str()) {
                    Some(q) => {
                        if q >= p {
                            let ghost sv = string_views(stack@);
                            let top = match stack.pop() {
                                Some(x) => x,
                                None => return None,
                            };
                            let ghost before_o = string_views(output@);
                            output.push(top);
                            proof {
                                assert(string_views(output@) =~= before_o.push(sv.last()));
                                assert(string_views(stack@) =~= sv.drop_last());
                            }
                        } else {
                            break;
                        }
                    },
                    None => break,
                }
            }
            let ghost sv = string_views(stack@);
            stack.push(tokens[i].clone());
            opens_call = false;
            proof {
                assert(string_views(stack@) =~= sv.push(t@));
                assert(state_of(output@, stack@, values@, is_fn@, opens_call) =~= postfix_step(st, t@, f).unwrap());
            }
        } else if str_eq(t, "(") {
            let ghost sv = string_views(stack@);
            stack.push(tokens[i].clone());
            values.push(0);
            if !opens_call {
                is_fn.push(false);
            }
            opens_call = false;
            proof {
                assert(string_views(stack@) =~= sv.push(t@));
                assert(state_of(output@, stack@, values@, is_fn@, opens_call) =~= postfix_step(st, t@, f).unwrap());
            }
        } else if str_eq(t, ")") {
            let ghost target = pop_to_paren(st.output, st.stack);
            loop
                invariant
                    pop_to_paren(string_views(output@), string_views(stack@)) == target,
                decreases stack@.len(),
            {
                let n = stack.len();
                if n == 0 {
                    proof { lemma_postfix_none(tv, (i + 1) as nat, tv.len(), f); }
                    return None;
                }
                if str_eq(stack[n - 1].as_str(), "(") {
                    break;
                }
                let ghost sv = string_views(stack@);
                let ghost ov = string_views(output@);
                let top = match stack.pop() {
                    Some(x) => x,
                    None => return None,
                };
                output.push(top);
                proof {
                    assert(string_views(output@) =~= ov.push(sv.last()));
                    assert(string_views(stack@) =~= sv.drop_last());
                }
            }
            let ghost sv = string_views(stack@);
            stack.pop();
            proof {
                assert(string_views(stack@) =~= sv.drop_last());
            }
            if is_fn.len() == 0 || values.len() == 0 {
                proof { lemma_postfix_none(tv, (i + 1) as nat, tv.len(), f); }
                return None;
            }
            let ghost vals = values@;
            let f_top = match is_fn.pop() {
                Some(b) => b,
                None => return None,
            };
            let v = match values.pop() {
                Some(v) => v,
                None => return None,
            };
            if f_top {
                let mut text = String::new();
                push_char(&mut text, '(');
                let num = i64_to_string(v as i64);
                push_str(&mut text, num.as_str());
                push_char(&mut text, ')');
                let ghost ov = string_views(output@);
                output.push(text);
                proof {
                    assert(text@ =~= seq!['('] + dec_int(v as int) + seq![')']);
                    assert(string_views(output@) =~= ov.push(text@));
                }
            } else {
                proof {
                    assert(values@ =~= vals.drop_last());
                }
                if !add_last(&mut values, v) {
                    proof { lemma_postfix_none(tv, (i + 1) as nat, tv.len(), f); }
                    return None;
                }
            }
            opens_call = false;
            proof {
                assert(state_of(output@, stack@, values@, is_fn@, opens_call) =~= postfix_step(st, t@, f).unwrap());
            }
        } else if str_eq(t, "if") || str_eq(t, ",") {
        } else {
            proof { lemma_postfix_none(tv, (i + 1) as nat, tv.len(), f); }
            return None;
        }
        i = i + 1;
    }
    let ghost fin = state_of(output@, stack@, values@, is_fn@, opens_call);
    let ghost base = string_views(output@);
    while stack.len() > 0
        invariant
            base + reversed(fin.stack) == string_views(output@) + reversed(string_views(stack@)),
        decreases stack@.len(),
    {
        let ghost sv = string_views(stack@);
        let top = match stack.pop() {
            Some(x) => x,
            None => return None,
        };
        let ghost ov = string_views(output@);
        output.push(top);
        proof {
            assert(string_views(stack@) =~= sv.drop_last());
            assert(string_views(output@) =~= ov.push(top@));
            assert(reversed(sv) =~= seq![top@] + reversed(sv.drop_last()));
            assert(ov + reversed(sv) =~= ov.push(top@) + reversed(sv.drop_last()));
        }
    }
    proof {
        assert(string_views(stack@) =~= Seq::<Seq<char>>::empty());
        assert(string_views(output@) =~= base + reversed(fin.stack));
    }
    Some(output)
}

/// The byte of an operator token.
fn op_byte_of(t: &str) -> (r: Option<u8>)
    ensures
        r == op_byte(t@),
{
    if str_eq(t, "+") {
        Some(0x8C)
    } else if str_eq(t, "N") {
        Some(0x8D)
    } else if str_eq(t, "-") {
        Some(0x8E)
    } else if str_eq(t, "*") {
        Some(0x8F)
    } else if str_eq(t, "/") {
        Some(0x90)
    } else if str_eq(t, "<=") {
        Some(0x91)
    } else if str_eq(t, ">=") {
        Some(0x92)
    } else if str_eq(t, "<") {
        Some(0x93)
    } else if str_eq(t, ">") {
        Some(0x94)
    } else if str_eq(t, "==") {
        Some(0x95)
    } else if str_eq(t, "!=") {
        Some(0x96)
    } else if str_eq(t, "and") {
        Some(0x98)
    } else if str_eq(t, "or") {
        Some(0x99)
    } else if str_eq(t, "not") {
        Some(0x9A)
    } else {
        None
    }
}

/// Appends the four little-endian bytes of `v`.
pub fn push_le4(bytes: &mut Vec<u8>, v: u32)
    ensures
        final(bytes)@ == old(bytes)@ + le4(v),
{
    bytes.push((v % 256) as u8);
    bytes.push(((v / 256) % 256) as u8);
    bytes.push(((v / 65536) % 256) as u8);
    bytes.push((v / 16777216) as u8);
    proof {
        assert(bytes@ =~= old(bytes)@ + le4(v));
    }
}

/// Appends the bytes of one postfix token (not `True`).
fn push_token_bytes(c: &str, funcs: &Defs, bytes: &mut Vec<u8>) -> (r: bool)
    ensures
        match token_bytes(c@, funcs@) {
            Some(b) => r && final(bytes)@ == old(bytes)@ + b,
            None => !r,
        },
{
    proof {
        reveal_strlit("(");
        reveal_strlit(")");
        reveal_strlit("");
    }
    match op_byte_of(c) {
        Some(b) => {
            bytes.push(b);
            proof {
                assert(bytes@ =~= old(bytes)@ + seq![b]);
            }
            return true;
        },
        None => {},
    }
    if funcs.has_name(c) {
        let pieces = split_chars(c, '(');
        proof {
            crate::utils::text::lemma_split_nonempty(c@, '(');
            assert(string_views(pieces@)[0] == pieces@[0]@);
        }
        match funcs.last_id(pieces[0].as_str(), 0, 255) {
            Some(Some(id)) => {
                if id + 64 > 255 {
                    return false;
                }
                bytes.push((id + 64) as u8);
                proof {
                    assert(bytes@ =~= old(bytes)@ + seq![(id + 64) as u8]);
                }
                true
            },
            _ => false,
        }
    } else if text_contains(c, "(") {
        let a = replace_text(c, "(", "");
        let b = replace_text(a.as_str(), ")", "");
        proof {
            assert(""@ =~= Seq::<char>::empty());
        }
        match parse_int(b.as_str(), 0, 255) {
            Some(n) => {
                if 0x84 + n > 255 {
                    return false;
                }
                bytes.push((0x84 + n) as u8);
                proof {
                    assert(bytes@ =~= old(bytes)@ + seq![(0x84 + n) as u8]);
                }
                true
            },
            None => false,
        }
    } else if c.unicode_len() == 0 {
        proof {
            assert(bytes@ =~= old(bytes)@ + seq![]);
        }
        true
    } else {
        match parse_int(c, i64::MIN, i64::MAX) {
            Some(v) => {
                if v > i64::MAX - 64 {
                    return false;
                }
                let w = v + 64;
                if w <= 0x7F {
                    bytes.push(w as u8);
                    proof {
                        assert(bytes@ =~= old(bytes)@ + seq![(v + 64) as u8]);
                    }
                } else {
                    bytes.push(0x82);
                    push_le4(bytes, v as u32);
                    proof {
                        assert(bytes@ =~= old(bytes)@ + (seq![0x82u8] + le4(v as u32)));
                    }
                }
                true
            },
            None => false,
        }
    }
}

/// The bytecode of postfix condition tokens: each token's bytes and a final
/// `0xA1`, or `0x41 0xA1` at a `True` token.
pub fn postfix_bytes(tokens: &Vec<String>, funcs: &Defs) -> (r: Option<Vec<u8>>)
    ensures
        match r {
            Some(b) => cond_bytes(string_views(tokens@), 0, seq![], funcs@) == Some(b@),
            None => cond_bytes(string_views(tokens@), 0, seq![], funcs@) is None,
        },
{
    proof {
        reveal_strlit(":");
        reveal_strlit("");
    }
    let ghost tv = string_views(tokens@);
    let mut bytes: Vec<u8> = Vec::new();
    let mut i: usize = 0;
    while i < tokens.len()
        invariant
            0 <= i <= tokens@.len(),
            tv == string_views(tokens@),
            cond_bytes(tv, 0, seq![], funcs@) == cond_bytes(tv, i as nat, bytes@, funcs@),
        decreases tokens@.len() - i,
    {
        proof {
            reveal_strlit(":");
            reveal_strlit("");
        }
        let c = replace_text(tokens[i].as_str(), ":", "");
        proof {
            assert(""@ =~= Seq::<char>::empty());
            assert(tv[i as int] == tokens@[i as int]@);
        }
        if str_eq(c.as_str(), "True") {
            let mut t: Vec<u8> = Vec::new();
            t.push(65);
            t.push(0xA1);
            proof {
                assert(t@ =~= seq![65u8, 0xA1]);
            }
            return Some(t);
        }
        let ghost before = bytes@;
        if !push_token_bytes(c.as_str(), funcs, &mut bytes) {
            return None;
        }
        i = i + 1;
    }
    bytes.push(0xA1);
    Some(bytes)
}

/// The bytecode of the condition of a transition line: the keywords set
/// apart, the text split into tokens, put in postfix order and turned into
/// bytes.
pub fn compile_condition(line: &str, important_comp_data: &crate::utils::important_comp_data::ImportantCompData) -> (r: Option<Vec<u8>>)
    ensures
        match r {
            Some(b) => condition_bytes(line@, important_comp_data@.func_defs) == Some(b@),
            None => condition_bytes(line@, important_comp_data@.func_defs) is None,
        },
{
    proof {
        reveal_strlit("if");
        reveal_strlit("and");
        reveal_strlit("or");
        reveal_strlit("not");
    }
    let c = replace_text(line, "if", "if ");
    let c = replace_text(c.as_str(), "and", " and ");
    let c = replace_text(c.as_str(), "or", " or ");
    let c = replace_text(c.as_str(), "not", " not ");
    let tokens = match tokenize(c.as_str()) {
        Some(t) => t,
        None => return None,
    };
    let postfix = match to_postfix(&tokens, important_comp_data) {
        Some(p) => p,
        None => return None,
    };
    postfix_bytes(&postfix, &important_comp_data.func_defs)
}

} // verus!
