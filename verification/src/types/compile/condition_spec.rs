//! Compiling the text of a condition into bytecode: the text is split into
//! tokens, put in postfix order and each token turned into bytes.
use vstd::prelude::*;
use crate::utils::defs::{defs_has_name, last_id_of};
use crate::utils::strings::{contains_text, parse_in, replace_all};
use crate::utils::text::{dec_int, split_on};

verus! {

/// `s` with the operators, parentheses and commas set apart by spaces and the
/// colons removed.
pub open spec fn spread_operators(c: Seq<char>) -> Seq<char> {
    let c = replace_all(c, "not"@, " not "@);
    let c = replace_all(c, "and"@, " and "@);
    let c = replace_all(c, "or"@, " or "@);
    let c = replace_all(c, "=="@, " == "@);
    let c = replace_all(c, "!="@, " != "@);
    let c = replace_all(c, "<="@, " <= "@);
    let c = replace_all(c, ">="@, " >= "@);
    let c = replace_all(c, "+"@, " + "@);
    let c = replace_all(c, "-"@, " - "@);
    let c = replace_all(c, "*"@, " * "@);
    let c = replace_all(c, "/"@, " / "@);
    let c = replace_all(c, "("@, " ( "@);
    let c = replace_all(c, ")"@, " ) "@);
    let c = replace_all(c, ","@, " "@);
    replace_all(c, ":"@, seq![])
}

/// `s[i..]` with each `<` or `>` not followed by `=` set apart by spaces;
/// `None` when one of them is the last character.
pub open spec fn space_angles(s: Seq<char>, i: nat) -> Option<Seq<char>>
    decreases s.len() - i,
{
    if i >= s.len() {
        Some(seq![])
    } else {
        let c = s[i as int];
        let here: Option<Seq<char>> = if c == '<' || c == '>' {
            if i + 1 >= s.len() {
                None
            } else if s[i + 1 as int] != '=' {
                Some(seq![' ', c, ' '])
            } else {
                Some(seq![c])
            }
        } else {
            Some(seq![c])
        };
        match (here, space_angles(s, i + 1)) {
            (Some(h), Some(rest)) => Some(h + rest),
            _ => None,
        }
    }
}

/// The non-empty pieces, in order.
pub open spec fn non_empty(ts: Seq<Seq<char>>) -> Seq<Seq<char>>
    decreases ts.len(),
{
    if ts.len() == 0 {
        seq![]
    } else if ts.last().len() > 0 {
        non_empty(ts.drop_last()).push(ts.last())
    } else {
        non_empty(ts.drop_last())
    }
}

/// The tokens of a condition text.
pub open spec fn tokenize_spec(c: Seq<char>) -> Option<Seq<Seq<char>>> {
    match space_angles(spread_operators(c), 0) {
        Some(t) => Some(non_empty(split_on(t, ' '))),
        None => None,
    }
}

/// The precedence of an operator token.
pub open spec fn precedence(t: Seq<char>) -> Option<int> {
    if t == "=="@ || t == "!="@ || t == "<="@ || t == ">="@ || t == "<"@ || t == ">"@ {
        Some(3)
    } else if t == "and"@ {
        Some(1)
    } else if t == "or"@ {
        Some(0)
    } else if t == "not"@ {
        Some(2)
    } else if t == "+"@ || t == "-"@ {
        Some(4)
    } else if t == "*"@ || t == "/"@ {
        Some(5)
    } else {
        None
    }
}

/// The state of the conversion to postfix order.
#[verifier::ext_equal]
pub struct PostfixState {
    pub output: Seq<Seq<char>>,
    pub stack: Seq<Seq<char>>,
    pub values: Seq<i32>,
    pub is_fn: Seq<bool>,
    pub opens_call: bool,
}

/// Moves the operators of at least precedence `p` from the top of the stack
/// to the output.
pub open spec fn pop_ops(output: Seq<Seq<char>>, stack: Seq<Seq<char>>, p: int) -> (Seq<Seq<char>>, Seq<Seq<char>>)
    decreases stack.len(),
{
    if stack.len() == 0 {
        (output, stack)
    } else {
        match precedence(stack.last()) {
            Some(q) => if q >= p {
                pop_ops(output.push(stack.last()), stack.drop_last(), p)
            } else {
                (output, stack)
            },
            None => (output, stack),
        }
    }
}

/// Moves the tokens above the topmost `(` to the output; `None` without one.
pub open spec fn pop_to_paren(output: Seq<Seq<char>>, stack: Seq<Seq<char>>) -> Option<(Seq<Seq<char>>, Seq<Seq<char>>)>
    decreases stack.len(),
{
    if stack.len() == 0 {
        None
    } else if stack.last() == "("@ {
        Some((output, stack))
    } else {
        pop_to_paren(output.push(stack.last()), stack.drop_last())
    }
}

/// The counters after adding `delta` to the innermost one; `None` when there
/// is none or it leaves the range of `i32`.
pub open spec fn bump(values: Seq<i32>, delta: int) -> Option<Seq<i32>> {
    if values.len() == 0 {
        None
    } else {
        let v = values.last() + delta;
        if i32::MIN <= v <= i32::MAX {
            Some(values.update(values.len() - 1, v as i32))
        } else {
            None
        }
    }
}

/// One token of the conversion to postfix order: numbers and functions go to
/// the output, operators wait on the stack for those of lower precedence,
/// parentheses group (the one right after a function opens its call), and a
/// function's closing parenthesis adds its value count as `(<count>)`; a
/// group adds its count to the enclosing one.
pub open spec fn postfix_step(st: PostfixState, t: Seq<char>, funcs: Seq<(Seq<char>, Seq<char>)>) -> Option<PostfixState> {
    if parse_in(t, i64::MIN as int, i64::MAX as int) is Some {
        match bump(st.values, 1) {
            Some(v) => Some(PostfixState { output: st.output.push(t), values: v, opens_call: false, ..st }),
            None => None,
        }
    } else if defs_has_name(funcs, t) || t == "True"@ {
        match bump(st.values, 1) {
            Some(v) => Some(
                PostfixState {
                    output: st.output.push(t),
                    values: v,
                    is_fn: st.is_fn.push(true),
                    opens_call: true,
                    ..st
                },
            ),
            None => None,
        }
    } else if precedence(t) is Some {
        match bump(st.values, -1) {
            Some(v) => {
                let (o, s) = pop_ops(st.output, st.stack, precedence(t).unwrap());
                Some(PostfixState { output: o, stack: s.push(t), values: v, opens_call: false, ..st })
            },
            None => None,
        }
    } else if t == "("@ {
        if st.opens_call {
            Some(PostfixState { stack: st.stack.push(t), values: st.values.push(0), opens_call: false, ..st })
        } else {
            Some(
                PostfixState {
                    stack: st.stack.push(t),
                    values: st.values.push(0),
                    is_fn: st.is_fn.push(false),
                    opens_call: false,
                    ..st
                },
            )
        }
    } else if t == ")"@ {
        match pop_to_paren(st.output, st.stack) {
            Some((o, s)) => if st.is_fn.len() == 0 || st.values.len() == 0 {
                None
            } else if st.is_fn.last() {
                Some(
                    PostfixState {
                        output: o.push(seq!['('] + dec_int(st.values.last() as int) + seq![')']),
                        stack: s.drop_last(),
                        values: st.values.drop_last(),
                        is_fn: st.is_fn.drop_last(),
                        opens_call: false,
                    },
                )
            } else {
                match bump(st.values.drop_last(), st.values.last() as int) {
                    Some(v) => Some(
                        PostfixState {
                            output: o,
                            stack: s.drop_last(),
                            values: v,
                            is_fn: st.is_fn.drop_last(),
                            opens_call: false,
                        },
                    ),
                    None => None,
                }
            },
            None => None,
        }
    } else if t == "if"@ || t == ","@ {
        Some(st)
    } else {
        None
    }
}

/// The conversion state after the first `n` tokens.
pub open spec fn postfix_run(tokens: Seq<Seq<char>>, n: nat, funcs: Seq<(Seq<char>, Seq<char>)>) -> Option<PostfixState>
    decreases n,
{
    if n == 0 {
        Some(PostfixState { output: seq![], stack: seq![], values: seq![0], is_fn: seq![false], opens_call: false })
    } else {
        match postfix_run(tokens, (n - 1) as nat, funcs) {
            Some(st) => postfix_step(st, tokens[n - 1], funcs),
            None => None,
        }
    }
}

/// The elements in reverse order.
pub open spec fn reversed(s: Seq<Seq<char>>) -> Seq<Seq<char>>
    decreases s.len(),
{
    if s.len() == 0 {
        seq![]
    } else {
        seq![s.last()] + reversed(s.drop_last())
    }
}

/// The tokens in postfix order: the output, then the rest of the stack from
/// the top.
pub open spec fn to_postfix_spec(tokens: Seq<Seq<char>>, funcs: Seq<(Seq<char>, Seq<char>)>) -> Option<Seq<Seq<char>>> {
    match postfix_run(tokens, tokens.len(), funcs) {
        Some(st) => Some(st.output + reversed(st.stack)),
        None => None,
    }
}

/// The byte of an operator token.
pub open spec fn op_byte(t: Seq<char>) -> Option<u8> {
    if t == "+"@ {
        Some(0x8C)
    } else if t == "N"@ {
        Some(0x8D)
    } else if t == "-"@ {
        Some(0x8E)
    } else if t == "*"@ {
        Some(0x8F)
    } else if t == "/"@ {
        Some(0x90)
    } else if t == "<="@ {
        Some(0x91)
    } else if t == ">="@ {
        Some(0x92)
    } else if t == "<"@ {
        Some(0x93)
    } else if t == ">"@ {
        Some(0x94)
    } else if t == "=="@ {
        Some(0x95)
    } else if t == "!="@ {
        Some(0x96)
    } else if t == "and"@ {
        Some(0x98)
    } else if t == "or"@ {
        Some(0x99)
    } else if t == "not"@ {
        Some(0x9A)
    } else {
        None
    }
}

/// The four little-endian bytes of `v`.
pub open spec fn le4(v: u32) -> Seq<u8> {
    seq![(v % 256) as u8, ((v / 256) % 256) as u8, ((v / 65536) % 256) as u8, (v / 16777216) as u8]
}

/// The bytes of one postfix token (not `True`): an operator, a function (its
/// id plus 64; one without a definition, or whose byte would pass 255, is refused), an
/// argument count `(<n>)`, nothing for an empty token, or a number (one byte
/// for those up to 63, else `0x82` and four bytes).
pub open spec fn token_bytes(c: Seq<char>, funcs: Seq<(Seq<char>, Seq<char>)>) -> Option<Seq<u8>> {
    match op_byte(c) {
        Some(b) => Some(seq![b]),
        None => if defs_has_name(funcs, c) {
            match last_id_of(funcs, split_on(c, '(')[0], 0, 255) {
                Some(Some(id)) => if id + 64 > 255 {
                    None
                } else {
                    Some(seq![(id + 64) as u8])
                },
                _ => None,
            }
        } else if contains_text(c, "("@) {
            match parse_in(replace_all(replace_all(c, "("@, seq![]), ")"@, seq![]), 0, 255) {
                Some(n) => if 0x84 + n > 255 {
                    None
                } else {
                    Some(seq![(0x84 + n) as u8])
                },
                None => None,
            }
        } else if c.len() == 0 {
            Some(seq![])
        } else {
            match parse_in(c, i64::MIN as int, i64::MAX as int) {
                Some(v) => if v + 64 > i64::MAX {
                    None
                } else if v + 64 <= 0x7F {
                    Some(seq![(v + 64) as u8])
                } else {
                    Some(seq![0x82u8] + le4(v as u32))
                },
                None => None,
            }
        },
    }
}

/// The bytecode of the postfix tokens from `i` on, after `acc`: a `True`
/// token makes the whole code `0x41`; `0xA1` ends it.
pub open spec fn cond_bytes(tokens: Seq<Seq<char>>, i: nat, acc: Seq<u8>, funcs: Seq<(Seq<char>, Seq<char>)>) -> Option<Seq<u8>>
    decreases tokens.len() - i,
{
    if i >= tokens.len() {
        Some(acc.push(0xA1))
    } else {
        let c = replace_all(tokens[i as int], ":"@, seq![]);
        if c == "True"@ {
            Some(seq![65u8, 0xA1])
        } else {
            match token_bytes(c, funcs) {
                Some(b) => cond_bytes(tokens, i + 1, acc + b, funcs),
                None => None,
            }
        }
    }
}

/// The condition text of a transition line with its keywords set apart.
pub open spec fn spread_keywords(c: Seq<char>) -> Seq<char> {
    let c = replace_all(c, "if"@, "if "@);
    let c = replace_all(c, "and"@, " and "@);
    let c = replace_all(c, "or"@, " or "@);
    replace_all(c, "not"@, " not "@)
}

/// The bytecode of the condition of a transition line.
pub open spec fn condition_bytes(line: Seq<char>, funcs: Seq<(Seq<char>, Seq<char>)>) -> Option<Seq<u8>> {
    match tokenize_spec(spread_keywords(line)) {
        Some(tokens) => match to_postfix_spec(tokens, funcs) {
            Some(post) => cond_bytes(post, 0, seq![], funcs),
            None => None,
        },
        None => None,
    }
}

} // verus!
