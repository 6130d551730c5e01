//! Decompiling conditions into `if` lines.
use vstd::prelude::*;
use crate::types::decompile::condition_spec::{
    and_part, args_text, ast_build, ast_push, call_text, cond_stack, condition_line, eval_and,
    eval_eq, eval_high, eval_low, eval_not, eval_or, high_part, high_right, infix, is_binary_token,
    is_eq_token, is_high_token, is_low_token, le_u32, low_part, low_right, not_part, op_name, or_part,
    paren, render, SpecNode, SpecNodeType,
};
use crate::types::structs::{Buffer, Condition};
use crate::utils::defs::{Defs, defs_lookup};
use crate::utils::important_data::ImportantData;
use crate::utils::text::{dec_int, dec_nat, i64_to_string, push_char, push_str, split_chars, split_on, str_eq, string_eq, u64_to_string};
use crate::utils::text_writer::{TextWriter, string_views};

verus! {

/// The model of an optional string.
pub open spec fn opt_view(r: Option<String>) -> Option<Seq<char>> {
    match r {
        Some(s) => Some(s@),
        None => None,
    }
}

/// An operator node of a condition tree.
pub struct Node {
    pub children: Vec<NodeType>,
    pub operator: String,
}

/// A node of a condition tree.
pub enum NodeType {
    And(Node),
    Or(Node),
    Not(Node),
    HighMath(Node),
    LowMath(Node),
    Eq(Node),
    Value(String),
}

impl Node {
    /// The model of an operator node.
    pub open spec fn model(&self) -> SpecNode
        decreases self,
    {
        let c = self.children@;
        proof {
            assert forall|i: int| 0 <= i < c.len() implies decreases_to!(self => c[i]) by {
                assert(decreases_to!(self => self.children));
                assert(decreases_to!(self.children => c));
                assert(decreases_to!(c => c[i]));
            }
        }
        SpecNode {
            children: Seq::new(
                c.len(),
                |i: int|
                    if 0 <= i < c.len() {
                        c[i].model()
                    } else {
                        SpecNodeType::Value(seq![])
                    },
            ),
            operator: self.operator@,
        }
    }
}

impl NodeType {
    /// The model of a node.
    pub open spec fn model(&self) -> SpecNodeType
        decreases self,
    {
        match self {
            NodeType::And(n) => SpecNodeType::And(n.model()),
            NodeType::Or(n) => SpecNodeType::Or(n.model()),
            NodeType::Not(n) => SpecNodeType::Not(n.model()),
            NodeType::HighMath(n) => SpecNodeType::HighMath(n.model()),
            NodeType::LowMath(n) => SpecNodeType::LowMath(n.model()),
            NodeType::Eq(n) => SpecNodeType::Eq(n.model()),
            NodeType::Value(s) => SpecNodeType::Value(s@),
        }
    }
}

/// The models of a node stack.
pub open spec fn node_views(v: Seq<NodeType>) -> Seq<SpecNodeType> {
    v.map_values(|n: NodeType| n.model())
}

/// The operator text of a bytecode byte.
fn op_text(b: u8) -> (r: Option<&'static str>)
    ensures
        match r {
            Some(s) => op_name(b) == Some(s@),
            None => op_name(b) is None,
        },
{
    if b == 0x8C {
        Some("+")
    } else if b == 0x8D {
        Some("N")
    } else if b == 0x8E {
        Some("-")
    } else if b == 0x8F {
        Some("*")
    } else if b == 0x90 {
        Some("/")
    } else if b == 0x91 {
        Some("<=")
    } else if b == 0x92 {
        Some(">=")
    } else if b == 0x93 {
        Some("<")
    } else if b == 0x94 {
        Some(">")
    } else if b == 0x95 {
        Some("==")
    } else if b == 0x96 {
        Some("!=")
    } else if b == 0x98 {
        Some("and")
    } else if b == 0x99 {
        Some("or")
    } else if b == 0x9A {
        Some("not")
    } else {
        None
    }
}

/// The call text of the function `name` with the texts `stack[from..]` as
/// arguments.
fn call_string(name: String, stack: &Vec<String>, from: usize) -> (r: String)
    requires
        from <= stack@.len(),
    ensures
        r@ == call_text(name@, string_views(stack@).subrange(from as int, stack@.len() as int)),
{
    let ghost args = string_views(stack@).subrange(from as int, stack@.len() as int);
    let n = stack.len();
    let mut text = name;
    push_char(&mut text, '(');
    let ghost head = text@;
    let mut j = from;
    while j < n
        invariant
            from <= j <= n,
            n == stack@.len(),
            args == string_views(stack@).subrange(from as int, n as int),
            text@ == head + args_text(args, (j - from) as nat),
        decreases n - j,
    {
        push_str(&mut text, stack[j].as_str());
        if j != n - 1 {
            push_char(&mut text, ',');
        }
        proof {
            let m = (j - from) as nat;
            assert(args[m as int] == stack@[j as int]@);
            assert(text@ =~= head + args_text(args, m + 1));
        }
        j = j + 1;
    }
    push_char(&mut text, ')');
    proof {
        assert(text@ =~= call_text(name@, args));
    }
    text
}

/// Runs the bytecode of a condition on a stack of texts.
pub fn run_condition(data: &Vec<u8>, funcs: &Defs) -> (r: Option<Vec<String>>)
    ensures
        match r {
            Some(st) => cond_stack(data@, 0, seq![], funcs@) == Some(string_views(st@)),
            None => cond_stack(data@, 0, seq![], funcs@) is None,
        },
{
    let mut cond_vec: Vec<String> = Vec::new();
    let mut counter: usize = 0;
    proof {
        assert(string_views(cond_vec@) =~= Seq::<Seq<char>>::empty());
    }
    while counter < data.len()
        invariant
            counter <= data@.len(),
            cond_stack(data@, 0, seq![], funcs@) == cond_stack(
                data@,
                counter as nat,
                string_views(cond_vec@),
                funcs@,
            ),
        decreases data@.len() - counter,
    {
        let b = data[counter];
        let ghost st = string_views(cond_vec@);
        if b <= 0x7F {
            cond_vec.push(i64_to_string(b as i64 - 64));
            proof {
                assert(string_views(cond_vec@) =~= st.push(dec_int(b - 64)));
            }
            counter = counter + 1;
        } else if b == 0x82 {
            if data.len() - counter < 5 {
                return None;
            }
            let v: u64 = data[counter + 1] as u64 + 256 * data[counter + 2] as u64 + 65536
                * data[counter + 3] as u64 + 16777216 * data[counter + 4] as u64;
            proof {
                assert(v == le_u32(data@.subrange(counter + 1 as int, counter + 5 as int)));
            }
            cond_vec.push(u64_to_string(v));
            proof {
                assert(string_views(cond_vec@) =~= st.push(
                    dec_nat(le_u32(data@.subrange(counter + 1 as int, counter + 5 as int))),
                ));
            }
            counter = counter + 5;
        } else if 0x84 <= b && b <= 0x8A {
            let k = (b - 0x84) as usize;
            let n = cond_vec.len();
            if n < k + 1 {
                return None;
            }
            let name = match funcs.get(cond_vec[n - k - 1].as_str()) {
                Some(x) => x,
                None => return None,
            };
            let text = call_string(name, &cond_vec, n - k);
            cond_vec.truncate(n - k - 1);
            cond_vec.push(text);
            proof {
                assert(string_views(cond_vec@) =~= st.subrange(0, n - k - 1).push(
                    call_text(name@, st.subrange(n - k as int, n as int)),
                ));
            }
            counter = counter + 1;
        } else {
            match op_text(b) {
                Some(op) => {
                    let n = cond_vec.len();
                    if b == 0x9A {
                        if n < 1 {
                            return None;
                        }
                        let mut text = match cond_vec.pop() {
                            Some(t) => t,
                            None => return None,
                        };
                        push_char(&mut text, ' ');
                        push_str(&mut text, op);
                        proof {
                            assert(text@ =~= st.last() + seq![' '] + op@);
                        }
                        cond_vec.push(text);
                        proof {
                            assert(string_views(cond_vec@) =~= st.drop_last().push(
                                st.last() + seq![' '] + op@,
                            ));
                        }
                    } else {
                        if n < 2 {
                            return None;
                        }
                        let mut text = match cond_vec.pop() {
                            Some(t) => t,
                            None => return None,
                        };
                        proof {
                            assert(text@ == st[n - 1]);
                            assert(string_views(cond_vec@) =~= st.drop_last());
                        }
                        let operand2 = match cond_vec.pop() {
                            Some(t) => t,
                            None => return None,
                        };
                        proof {
                            assert(operand2@ == st[n - 2]);
                            assert(string_views(cond_vec@) =~= st.subrange(0, n - 2));
                        }
                        push_char(&mut text, ' ');
                        push_str(&mut text, operand2.as_str());
                        push_char(&mut text, ' ');
                        push_str(&mut text, op);
                        proof {
                            assert(text@ =~= st[n - 1] + seq![' '] + st[n - 2] + seq![' '] + op@);
                        }
                        cond_vec.push(text);
                        proof {
                            assert(string_views(cond_vec@) =~= st.subrange(0, n - 2).push(
                                st[n - 1] + seq![' '] + st[n - 2] + seq![' '] + op@,
                            ));
                        }
                    }
                    counter = counter + 1;
                },
                None => {
                    if b == 0xA1 {
                        return Some(cond_vec);
                    }
                    return None;
                },
            }
        }
    }
    Some(cond_vec)
}

fn eq_token(t: &str) -> (r: bool)
    ensures
        r == is_eq_token(t@),
{
    str_eq(t, "==") || str_eq(t, "!=") || str_eq(t, "<=") || str_eq(t, ">=") || str_eq(t, "<")
        || str_eq(t, ">")
}

fn low_token(t: &str) -> (r: bool)
    ensures
        r == is_low_token(t@),
{
    str_eq(t, "+") || str_eq(t, "-")
}

fn high_token(t: &str) -> (r: bool)
    ensures
        r == is_high_token(t@),
{
    str_eq(t, "*") || str_eq(t, "/")
}

/// Parses postfix tokens into a stack of condition trees.
pub fn build_ast(tokens: &Vec<String>) -> (r: Option<Vec<NodeType>>)
    ensures
        match r {
            Some(st) => ast_build(string_views(tokens@), tokens@.len()) == Some(node_views(st@)),
            None => ast_build(string_views(tokens@), tokens@.len()) is None,
        },
{
    let ghost tv = string_views(tokens@);
    let mut st: Vec<NodeType> = Vec::new();
    let mut i: usize = 0;
    proof {
        assert(node_views(st@) =~= Seq::<SpecNodeType>::empty());
    }
    while i < tokens.len()
        invariant
            0 <= i <= tokens@.len(),
            tv == string_views(tokens@),
            ast_build(tv, i as nat) == Some(node_views(st@)),
        decreases tokens@.len() - i,
    {
        let t = tokens[i].as_str();
        let ghost before = node_views(st@);
        assert(tv[i as int] == t@);
        if eq_token(t) || low_token(t) || high_token(t) || str_eq(t, "and") || str_eq(t, "or") {
            let n = st.len();
            if n < 2 {
                proof {
                    lemma_ast_none(tv, (i + 1) as nat, tokens@.len());
                }
                return None;
            }
            let a1 = match st.pop() {
                Some(a) => a,
                None => return None,
            };
            let a2 = match st.pop() {
                Some(a) => a,
                None => return None,
            };
            proof {
                assert(a1.model() == before[n - 1]);
                assert(a2.model() == before[n - 2]);
                assert(node_views(st@) =~= before.subrange(0, n - 2));
            }
            let mut children: Vec<NodeType> = Vec::new();
            children.push(a1);
            children.push(a2);
            let node = Node { children, operator: tokens[i].clone() };
            proof {
                assert(node.model().children =~= seq![before[n - 1], before[n - 2]]);
            }
            if eq_token(t) {
                st.push(NodeType::Eq(node));
            } else if low_token(t) {
                st.push(NodeType::LowMath(node));
            } else if high_token(t) {
                st.push(NodeType::HighMath(node));
            } else if str_eq(t, "and") {
                st.push(NodeType::And(node));
            } else {
                st.push(NodeType::Or(node));
            }
            proof {
                assert(node_views(st@) =~= ast_push(before, t@).unwrap());
            }
        } else if str_eq(t, "not") {
            let n = st.len();
            if n < 1 {
                proof {
                    lemma_ast_none(tv, (i + 1) as nat, tokens@.len());
                }
                return None;
            }
            let a = match st.pop() {
                Some(a) => a,
                None => return None,
            };
            proof {
                assert(a.model() == before.last());
                assert(node_views(st@) =~= before.drop_last());
            }
            let mut children: Vec<NodeType> = Vec::new();
            children.push(a);
            let node = Node { children, operator: tokens[i].clone() };
            proof {
                assert(node.model().children =~= seq![before.last()]);
            }
            st.push(NodeType::Not(node));
            proof {
                assert(node_views(st@) =~= ast_push(before, t@).unwrap());
            }
        } else {
            st.push(NodeType::Value(tokens[i].clone()));
            proof {
                assert(node_views(st@) =~= before.push(SpecNodeType::Value(t@)));
            }
        }
        i = i + 1;
    }
    Some(st)
}

/// Once parsing fails, parsing more tokens fails.
proof fn lemma_ast_none(tokens: Seq<Seq<char>>, i: nat, n: nat)
    requires
        i <= n,
        ast_build(tokens, i) is None,
    ensures
        ast_build(tokens, n) is None,
    decreases n,
{
    if n > i {
        lemma_ast_none(tokens, i, (n - 1) as nat);
    }
}

/// Joins two operand texts with the operator.
fn join_infix(a: Option<String>, op: &String, b: Option<String>) -> (r: Option<String>)
    ensures
        opt_view(r) == crate::types::decompile::condition_spec::binary_text(opt_view(a), op@, opt_view(b)),
{
    match (a, b) {
        (Some(x), Some(y)) => {
            let mut s = x;
            push_char(&mut s, ' ');
            push_str(&mut s, op.as_str());
            push_char(&mut s, ' ');
            push_str(&mut s, y.as_str());
            proof {
                assert(s@ =~= infix(x@, op@, y@));
            }
            Some(s)
        },
        _ => None,
    }
}

/// Puts an optional text in parentheses.
fn in_parens(a: Option<String>) -> (r: Option<String>)
    ensures
        opt_view(r) == match opt_view(a) {
            Some(x) => Some(paren(x)),
            None => None,
        },
{
    match a {
        Some(x) => {
            let mut s = String::new();
            push_char(&mut s, '(');
            push_str(&mut s, x.as_str());
            push_char(&mut s, ')');
            proof {
                assert(s@ =~= paren(x@));
            }
            Some(s)
        },
        None => None,
    }
}

/// Prints a product or quotient.
fn eval_high_math_node(n: &Node) -> (r: Option<String>)
    ensures
        opt_view(r) == eval_high(n.model()),
    decreases n, 1nat,
{
    if n.children.len() < 2 {
        return None;
    }
    proof {
        assert(decreases_to!(n => n.children));
        assert(decreases_to!(n.children => n.children@));
        assert(decreases_to!(n.children@ => n.children@[0]));
        assert(decreases_to!(n.children@ => n.children@[1]));
    }
    let a = high_part_of(&n.children[0]);
    let b = high_right_of(&n.children[1]);
    join_infix(a, &n.operator, b)
}

fn high_right_of(c: &NodeType) -> (r: Option<String>)
    ensures
        opt_view(r) == high_right(c.model()),
    decreases c, 0nat,
{
    match c {
        NodeType::HighMath(m) => in_parens(eval_high_math_node(m)),
        NodeType::LowMath(m) => in_parens(eval_low_math_node(m)),
        NodeType::Value(v) => Some(v.clone()),
        _ => None,
    }
}

fn high_part_of(c: &NodeType) -> (r: Option<String>)
    ensures
        opt_view(r) == high_part(c.model()),
    decreases c, 0nat,
{
    match c {
        NodeType::HighMath(m) => eval_high_math_node(m),
        NodeType::LowMath(m) => in_parens(eval_low_math_node(m)),
        NodeType::Value(v) => Some(v.clone()),
        _ => None,
    }
}

/// Prints a sum or difference.
fn eval_low_math_node(n: &Node) -> (r: Option<String>)
    ensures
        opt_view(r) == eval_low(n.model()),
    decreases n, 1nat,
{
    if n.children.len() < 2 {
        return None;
    }
    proof {
        assert(decreases_to!(n => n.children));
        assert(decreases_to!(n.children => n.children@));
        assert(decreases_to!(n.children@ => n.children@[0]));
        assert(decreases_to!(n.children@ => n.children@[1]));
    }
    let a = low_part_of(&n.children[0]);
    let b = low_right_of(&n.children[1]);
    join_infix(a, &n.operator, b)
}

fn low_right_of(c: &NodeType) -> (r: Option<String>)
    ensures
        opt_view(r) == low_right(c.model()),
    decreases c, 0nat,
{
    match c {
        NodeType::HighMath(m) => eval_high_math_node(m),
        NodeType::LowMath(m) => in_parens(eval_low_math_node(m)),
        NodeType::Value(v) => Some(v.clone()),
        _ => None,
    }
}

fn low_part_of(c: &NodeType) -> (r: Option<String>)
    ensures
        opt_view(r) == low_part(c.model()),
    decreases c, 0nat,
{
    match c {
        NodeType::HighMath(m) => eval_high_math_node(m),
        NodeType::LowMath(m) => eval_low_math_node(m),
        NodeType::Value(v) => Some(v.clone()),
        _ => None,
    }
}

/// Prints a comparison.
fn eval_eq_node(n: &Node) -> (r: Option<String>)
    ensures
        opt_view(r) == eval_eq(n.model()),
{
    if n.children.len() < 2 {
        return None;
    }
    let a = low_part_of(&n.children[0]);
    let b = low_part_of(&n.children[1]);
    join_infix(a, &n.operator, b)
}

/// Prints an `and`.
fn eval_and_node(n: &Node) -> (r: Option<String>)
    ensures
        opt_view(r) == eval_and(n.model()),
    decreases n, 1nat,
{
    if n.children.len() < 2 {
        return None;
    }
    proof {
        assert(decreases_to!(n => n.children));
        assert(decreases_to!(n.children => n.children@));
        assert(decreases_to!(n.children@ => n.children@[0]));
        assert(decreases_to!(n.children@ => n.children@[1]));
    }
    let a = and_part_of(&n.children[0]);
    let b = and_part_of(&n.children[1]);
    join_infix(a, &n.operator, b)
}

fn and_part_of(c: &NodeType) -> (r: Option<String>)
    ensures
        opt_view(r) == and_part(c.model()),
    decreases c, 0nat,
{
    match c {
        NodeType::Eq(m) => eval_eq_node(m),
        NodeType::And(m) => eval_and_node(m),
        NodeType::Not(m) => eval_not_node(m),
        NodeType::Or(m) => in_parens(eval_or_node(m)),
        NodeType::Value(v) => Some(v.clone()),
        _ => None,
    }
}

/// Prints an `or`.
fn eval_or_node(n: &Node) -> (r: Option<String>)
    ensures
        opt_view(r) == eval_or(n.model()),
    decreases n, 1nat,
{
    if n.children.len() < 2 {
        return None;
    }
    proof {
        assert(decreases_to!(n => n.children));
        assert(decreases_to!(n.children => n.children@));
        assert(decreases_to!(n.children@ => n.children@[0]));
        assert(decreases_to!(n.children@ => n.children@[1]));
    }
    let a = or_part_of(&n.children[0]);
    let b = or_part_of(&n.children[1]);
    join_infix(a, &n.operator, b)
}

fn or_part_of(c: &NodeType) -> (r: Option<String>)
    ensures
        opt_view(r) == or_part(c.model()),
    decreases c, 0nat,
{
    match c {
        NodeType::Eq(m) => eval_eq_node(m),
        NodeType::And(m) => eval_and_node(m),
        NodeType::Not(m) => eval_not_node(m),
        NodeType::Or(m) => eval_or_node(m),
        NodeType::Value(v) => Some(v.clone()),
        _ => None,
    }
}

/// Prints a `not`.
fn eval_not_node(n: &Node) -> (r: Option<String>)
    ensures
        opt_view(r) == eval_not(n.model()),
    decreases n, 1nat,
{
    if n.children.len() < 1 {
        return None;
    }
    proof {
        assert(decreases_to!(n => n.children));
        assert(decreases_to!(n.children => n.children@));
        assert(decreases_to!(n.children@ => n.children@[0]));
    }
    match not_part_of(&n.children[0]) {
        Some(x) => {
            let mut s = String::new();
            push_char(&mut s, ' ');
            push_str(&mut s, n.operator.as_str());
            push_char(&mut s, ' ');
            push_str(&mut s, x.as_str());
            proof {
                assert(s@ =~= seq![' '] + n.operator@ + seq![' '] + x@);
            }
            Some(s)
        },
        None => None,
    }
}

fn not_part_of(c: &NodeType) -> (r: Option<String>)
    ensures
        opt_view(r) == not_part(c.model()),
    decreases c, 0nat,
{
    match c {
        NodeType::Eq(m) => eval_eq_node(m),
        NodeType::And(m) => in_parens(eval_and_node(m)),
        NodeType::Not(m) => eval_not_node(m),
        NodeType::Or(m) => in_parens(eval_or_node(m)),
        NodeType::Value(v) => Some(v.clone()),
        _ => None,
    }
}

/// The infix text of a condition tree.
fn render_node(a: &NodeType) -> (r: Option<String>)
    ensures
        opt_view(r) == render(a.model()),
{
    match a {
        NodeType::HighMath(n) => eval_high_math_node(n),
        NodeType::LowMath(n) => eval_low_math_node(n),
        NodeType::Eq(n) => eval_eq_node(n),
        NodeType::And(n) => eval_and_node(n),
        NodeType::Or(n) => eval_or_node(n),
        NodeType::Not(n) => eval_not_node(n),
        NodeType::Value(v) => Some(v.clone()),
    }
}

impl Condition {
    /// Writes the `if` line of the condition.
    pub fn decompile(&self, tw: &mut TextWriter, important_data: &ImportantData) -> (r: Option<()>)
        ensures
            final(tw).path == old(tw).path,
            match condition_line(self.evaluator.buffer.data@, important_data@.func_defs) {
                Some(line) => r is Some && string_views(final(tw).lines@) == string_views(
                    old(tw).lines@,
                ).push(line),
                None => r is None,
            },
    {
        Self::decompile_condition_buffer(&self.evaluator.buffer, tw, important_data)
    }

    /// Writes the `if` line of a condition buffer: the bytecode is run on a
    /// stack of texts, the first text is parsed into a tree and the tree is
    /// printed in infix form; `if True:` when that text is `1`. `None` where
    /// the bytecode or the tree is malformed.
    pub fn decompile_condition_buffer(buffer: &Buffer, tw: &mut TextWriter, important_data: &ImportantData) -> (r: Option<()>)
        ensures
            final(tw).path == old(tw).path,
            match condition_line(buffer.data@, important_data@.func_defs) {
                Some(line) => r is Some && string_views(final(tw).lines@) == string_views(
                    old(tw).lines@,
                ).push(line),
                None => r is None,
            },
    {
        let cond_vec = match run_condition(&buffer.data, &important_data.func_defs) {
            Some(v) => v,
            None => return None,
        };
        if cond_vec.len() == 0 {
            return None;
        }
        let condition = &cond_vec[0];
        proof {
            assert(string_views(cond_vec@)[0] == condition@);
        }
        if string_eq(condition, "1") {
            tw.write_line("        if True:".to_string());
            return Some(());
        }
        let tokens = split_chars(condition.as_str(), ' ');
        let node_stack = match build_ast(&tokens) {
            Some(st) => st,
            None => return None,
        };
        if node_stack.len() == 0 {
            return None;
        }
        proof {
            assert(node_views(node_stack@)[0] == node_stack@[0].model());
        }
        let text = match render_node(&node_stack[0]) {
            Some(t) => t,
            None => return None,
        };
        let mut condition_str = String::new();
        push_str(&mut condition_str, "        if ");
        push_str(&mut condition_str, text.as_str());
        push_char(&mut condition_str, ':');
        proof {
            assert(condition_str@ =~= "        if "@ + text@ + seq![':']);
        }
        tw.write_line(condition_str);
        Some(())
    }
}

} // verus!
