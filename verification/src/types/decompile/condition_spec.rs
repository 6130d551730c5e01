//! The text of a condition: its bytecode is run on a stack of strings, the
//! resulting postfix text is parsed into a tree, and the tree is printed in
//! infix form.
use vstd::prelude::*;
use crate::utils::defs::defs_lookup;
use crate::utils::text::{dec_int, dec_nat, split_on};

verus! {

/// The operator that a bytecode byte stands for, if any.
pub open spec fn op_name(b: u8) -> Option<Seq<char>> {
    if b == 0x8C {
        Some("+"@)
    } else if b == 0x8D {
        Some("N"@)
    } else if b == 0x8E {
        Some("-"@)
    } else if b == 0x8F {
        Some("*"@)
    } else if b == 0x90 {
        Some("/"@)
    } else if b == 0x91 {
        Some("<="@)
    } else if b == 0x92 {
        Some(">="@)
    } else if b == 0x93 {
        Some("<"@)
    } else if b == 0x94 {
        Some(">"@)
    } else if b == 0x95 {
        Some("=="@)
    } else if b == 0x96 {
        Some("!="@)
    } else if b == 0x98 {
        Some("and"@)
    } else if b == 0x99 {
        Some("or"@)
    } else if b == 0x9A {
        Some("not"@)
    } else {
        None
    }
}

/// The little-endian value of four bytes.
pub open spec fn le_u32(b: Seq<u8>) -> nat {
    (b[0] + 256 * b[1] + 65536 * b[2] + 16777216 * b[3]) as nat
}

/// The first `n` arguments, each followed by a comma except the last one of
/// `args`.
pub open spec fn args_text(args: Seq<Seq<char>>, n: nat) -> Seq<char>
    decreases n,
{
    if n == 0 {
        seq![]
    } else {
        args_text(args, (n - 1) as nat) + args[n - 1] + (if n != args.len() {
            seq![',']
        } else {
            seq![]
        })
    }
}

/// A function call: the name, then the arguments in parentheses.
pub open spec fn call_text(name: Seq<char>, args: Seq<Seq<char>>) -> Seq<char> {
    name + seq!['('] + args_text(args, args.len()) + seq![')']
}

/// Running the bytecode from `pos` on the stack `stack`: small integers
/// (a byte up to `0x7F` stands for its value minus 64), 32-bit integers, function calls (the id below the arguments names the
/// function) and operators (in postfix text, topmost operand first) push
/// texts; `0xA1` or the end stops. `None` where the bytecode is malformed and
/// running it could not go on: a cut integer, too few operands, an unknown
/// function or an unknown byte.
pub open spec fn cond_stack(
    data: Seq<u8>,
    pos: nat,
    stack: Seq<Seq<char>>,
    funcs: Seq<(Seq<char>, Seq<char>)>,
) -> Option<Seq<Seq<char>>>
    decreases data.len() - pos,
{
    if pos >= data.len() {
        Some(stack)
    } else {
        let b = data[pos as int];
        if b <= 0x7F {
            cond_stack(data, pos + 1, stack.push(dec_int(b - 64)), funcs)
        } else if b == 0x82 {
            if pos + 5 > data.len() {
                None
            } else {
                let v = le_u32(data.subrange(pos + 1 as int, pos + 5 as int));
                cond_stack(data, pos + 5, stack.push(dec_nat(v)), funcs)
            }
        } else if 0x84 <= b <= 0x8A {
            let k = (b - 0x84) as nat;
            let n = stack.len();
            if n < k + 1 {
                None
            } else {
                let args = stack.subrange(n - k as int, n as int);
                match defs_lookup(funcs, stack[n - k - 1]) {
                    Some(name) => cond_stack(
                        data,
                        pos + 1,
                        stack.subrange(0, n - k - 1).push(call_text(name, args)),
                        funcs,
                    ),
                    None => None,
                }
            }
        } else {
            match op_name(b) {
                Some(op) => {
                    let n = stack.len();
                    if b == 0x9A {
                        if n < 1 {
                            None
                        } else {
                            cond_stack(
                                data,
                                pos + 1,
                                stack.drop_last().push(stack.last() + seq![' '] + op),
                                funcs,
                            )
                        }
                    } else if n < 2 {
                        None
                    } else {
                        let text = stack[n - 1] + seq![' '] + stack[n - 2] + seq![' '] + op;
                        cond_stack(data, pos + 1, stack.subrange(0, n - 2).push(text), funcs)
                    }
                },
                None => if b == 0xA1 {
                    Some(stack)
                } else {
                    None
                },
            }
        }
    }
}

/// An operator node: its operands and the operator.
pub struct SpecNode {
    pub children: Seq<SpecNodeType>,
    pub operator: Seq<char>,
}

/// A node of a condition tree.
pub enum SpecNodeType {
    And(SpecNode),
    Or(SpecNode),
    Not(SpecNode),
    HighMath(SpecNode),
    LowMath(SpecNode),
    Eq(SpecNode),
    Value(Seq<char>),
}

/// The comparison operators.
pub open spec fn is_eq_token(t: Seq<char>) -> bool {
    t == "=="@ || t == "!="@ || t == "<="@ || t == ">="@ || t == "<"@ || t == ">"@
}

/// `+` and `-`.
pub open spec fn is_low_token(t: Seq<char>) -> bool {
    t == "+"@ || t == "-"@
}

/// `*` and `/`.
pub open spec fn is_high_token(t: Seq<char>) -> bool {
    t == "*"@ || t == "/"@
}

/// The operators with two operands.
pub open spec fn is_binary_token(t: Seq<char>) -> bool {
    is_eq_token(t) || is_low_token(t) || is_high_token(t) || t == "and"@ || t == "or"@
}

/// The node stack after the token `t`: a binary operator takes the top two
/// nodes (the top one first), `not` the top one, anything else is a value.
pub open spec fn ast_push(st: Seq<SpecNodeType>, t: Seq<char>) -> Option<Seq<SpecNodeType>> {
    if is_binary_token(t) {
        if st.len() < 2 {
            None
        } else {
            let node = SpecNode { children: seq![st[st.len() - 1], st[st.len() - 2]], operator: t };
            let rest = st.subrange(0, st.len() - 2);
            if is_eq_token(t) {
                Some(rest.push(SpecNodeType::Eq(node)))
            } else if is_low_token(t) {
                Some(rest.push(SpecNodeType::LowMath(node)))
            } else if is_high_token(t) {
                Some(rest.push(SpecNodeType::HighMath(node)))
            } else if t == "and"@ {
                Some(rest.push(SpecNodeType::And(node)))
            } else {
                Some(rest.push(SpecNodeType::Or(node)))
            }
        }
    } else if t == "not"@ {
        if st.len() < 1 {
            None
        } else {
            Some(
                st.drop_last().push(
                    SpecNodeType::Not(SpecNode { children: seq![st.last()], operator: t }),
                ),
            )
        }
    } else {
        Some(st.push(SpecNodeType::Value(t)))
    }
}

/// The node stack after the first `n` tokens.
pub open spec fn ast_build(tokens: Seq<Seq<char>>, n: nat) -> Option<Seq<SpecNodeType>>
    decreases n,
{
    if n == 0 {
        Some(seq![])
    } else {
        match ast_build(tokens, (n - 1) as nat) {
            Some(st) => ast_push(st, tokens[n - 1]),
            None => None,
        }
    }
}

/// Two operands joined by the operator, with spaces.
pub open spec fn infix(a: Seq<char>, op: Seq<char>, b: Seq<char>) -> Seq<char> {
    a + seq![' '] + op + seq![' '] + b
}

/// Text in parentheses.
pub open spec fn paren(a: Seq<char>) -> Seq<char> {
    seq!['('] + a + seq![')']
}

/// Both operands printed by `part` and joined by the operator; `None` with
/// fewer than two operands or an operand that `part` refuses.
pub open spec fn binary_text(a: Option<Seq<char>>, op: Seq<char>, b: Option<Seq<char>>) -> Option<Seq<char>> {
    match (a, b) {
        (Some(x), Some(y)) => Some(infix(x, op, y)),
        _ => None,
    }
}

/// `*` and `/`: operands that are products, sums (in parentheses) or values;
/// a product on the right is put in parentheses too.
pub open spec fn eval_high(n: SpecNode) -> Option<Seq<char>>
    decreases n, 1nat,
{
    if n.children.len() < 2 {
        None
    } else {
        proof {
            assert(decreases_to!(n => n.children));
            assert(decreases_to!(n.children => n.children[0]));
            assert(decreases_to!(n.children => n.children[1]));
        }
        binary_text(high_part(n.children[0]), n.operator, high_right(n.children[1]))
    }
}

/// The right operand of `*` and `/`: a product or sum in parentheses, or a
/// value.
pub open spec fn high_right(c: SpecNodeType) -> Option<Seq<char>>
    decreases c, 0nat,
{
    match c {
        SpecNodeType::HighMath(m) => match eval_high(m) {
            Some(x) => Some(paren(x)),
            None => None,
        },
        SpecNodeType::LowMath(m) => match eval_low(m) {
            Some(x) => Some(paren(x)),
            None => None,
        },
        SpecNodeType::Value(v) => Some(v),
        _ => None,
    }
}

pub open spec fn high_part(c: SpecNodeType) -> Option<Seq<char>>
    decreases c, 0nat,
{
    match c {
        SpecNodeType::HighMath(m) => eval_high(m),
        SpecNodeType::LowMath(m) => match eval_low(m) {
            Some(x) => Some(paren(x)),
            None => None,
        },
        SpecNodeType::Value(v) => Some(v),
        _ => None,
    }
}

/// `+` and `-`: operands that are products, sums or values; a sum on the
/// right is put in parentheses.
pub open spec fn eval_low(n: SpecNode) -> Option<Seq<char>>
    decreases n, 1nat,
{
    if n.children.len() < 2 {
        None
    } else {
        proof {
            assert(decreases_to!(n => n.children));
            assert(decreases_to!(n.children => n.children[0]));
            assert(decreases_to!(n.children => n.children[1]));
        }
        binary_text(low_part(n.children[0]), n.operator, low_right(n.children[1]))
    }
}

/// The right operand of `+` and `-`: a product, a sum in parentheses or a
/// value.
pub open spec fn low_right(c: SpecNodeType) -> Option<Seq<char>>
    decreases c, 0nat,
{
    match c {
        SpecNodeType::HighMath(m) => eval_high(m),
        SpecNodeType::LowMath(m) => match eval_low(m) {
            Some(x) => Some(paren(x)),
            None => None,
        },
        SpecNodeType::Value(v) => Some(v),
        _ => None,
    }
}

pub open spec fn low_part(c: SpecNodeType) -> Option<Seq<char>>
    decreases c, 0nat,
{
    match c {
        SpecNodeType::HighMath(m) => eval_high(m),
        SpecNodeType::LowMath(m) => eval_low(m),
        SpecNodeType::Value(v) => Some(v),
        _ => None,
    }
}

/// Comparisons: operands that are products, sums or values.
pub open spec fn eval_eq(n: SpecNode) -> Option<Seq<char>> {
    if n.children.len() < 2 {
        None
    } else {
        binary_text(low_part(n.children[0]), n.operator, low_part(n.children[1]))
    }
}

/// `and`: operands that are comparisons, `and`s, `not`s, `or`s (in
/// parentheses) or values.
pub open spec fn eval_and(n: SpecNode) -> Option<Seq<char>>
    decreases n, 1nat,
{
    if n.children.len() < 2 {
        None
    } else {
        proof {
            assert(decreases_to!(n => n.children));
            assert(decreases_to!(n.children => n.children[0]));
            assert(decreases_to!(n.children => n.children[1]));
        }
        binary_text(and_part(n.children[0]), n.operator, and_part(n.children[1]))
    }
}

pub open spec fn and_part(c: SpecNodeType) -> Option<Seq<char>>
    decreases c, 0nat,
{
    match c {
        SpecNodeType::Eq(m) => eval_eq(m),
        SpecNodeType::And(m) => eval_and(m),
        SpecNodeType::Not(m) => eval_not(m),
        SpecNodeType::Or(m) => match eval_or(m) {
            Some(x) => Some(paren(x)),
            None => None,
        },
        SpecNodeType::Value(v) => Some(v),
        _ => None,
    }
}

/// `or`: operands that are comparisons, `and`s, `not`s, `or`s or values.
pub open spec fn eval_or(n: SpecNode) -> Option<Seq<char>>
    decreases n, 1nat,
{
    if n.children.len() < 2 {
        None
    } else {
        proof {
            assert(decreases_to!(n => n.children));
            assert(decreases_to!(n.children => n.children[0]));
            assert(decreases_to!(n.children => n.children[1]));
        }
        binary_text(or_part(n.children[0]), n.operator, or_part(n.children[1]))
    }
}

pub open spec fn or_part(c: SpecNodeType) -> Option<Seq<char>>
    decreases c, 0nat,
{
    match c {
        SpecNodeType::Eq(m) => eval_eq(m),
        SpecNodeType::And(m) => eval_and(m),
        SpecNodeType::Not(m) => eval_not(m),
        SpecNodeType::Or(m) => eval_or(m),
        SpecNodeType::Value(v) => Some(v),
        _ => None,
    }
}

/// `not`: the operator with spaces around it, then an operand that is a
/// comparison, an `and` or `or` (in parentheses), a `not` or a value.
pub open spec fn eval_not(n: SpecNode) -> Option<Seq<char>>
    decreases n, 1nat,
{
    if n.children.len() < 1 {
        None
    } else {
        proof {
            assert(decreases_to!(n => n.children));
            assert(decreases_to!(n.children => n.children[0]));
        }
        match not_part(n.children[0]) {
            Some(x) => Some(seq![' '] + n.operator + seq![' '] + x),
            None => None,
        }
    }
}

pub open spec fn not_part(c: SpecNodeType) -> Option<Seq<char>>
    decreases c, 0nat,
{
    match c {
        SpecNodeType::Eq(m) => eval_eq(m),
        SpecNodeType::And(m) => match eval_and(m) {
            Some(x) => Some(paren(x)),
            None => None,
        },
        SpecNodeType::Not(m) => eval_not(m),
        SpecNodeType::Or(m) => match eval_or(m) {
            Some(x) => Some(paren(x)),
            None => None,
        },
        SpecNodeType::Value(v) => Some(v),
        _ => None,
    }
}

/// The infix text of a condition tree.
pub open spec fn render(a: SpecNodeType) -> Option<Seq<char>> {
    match a {
        SpecNodeType::HighMath(n) => eval_high(n),
        SpecNodeType::LowMath(n) => eval_low(n),
        SpecNodeType::Eq(n) => eval_eq(n),
        SpecNodeType::And(n) => eval_and(n),
        SpecNodeType::Or(n) => eval_or(n),
        SpecNodeType::Not(n) => eval_not(n),
        SpecNodeType::Value(v) => Some(v),
    }
}

/// The line of a condition: `if True:` when the first text on the stack is
/// `1`, otherwise `if`, the infix text of the tree of the first text and a
/// colon.
pub open spec fn condition_line(data: Seq<u8>, funcs: Seq<(Seq<char>, Seq<char>)>) -> Option<Seq<char>> {
    match cond_stack(data, 0, seq![], funcs) {
        Some(st) => if st.len() == 0 {
            None
        } else if st[0] == "1"@ {
            Some("        if True:"@)
        } else {
            let tokens = split_on(st[0], ' ');
            match ast_build(tokens, tokens.len()) {
                Some(nodes) => if nodes.len() == 0 {
                    None
                } else {
                    match render(nodes[0]) {
                        Some(t) => Some("        if "@ + t + seq![':']),
                        None => None,
                    }
                },
                None => None,
            }
        },
        None => None,
    }
}

} // verus!
