use vstd::prelude::*;

use crate::text::{copy_string, str_eq};
use crate::token::{Tok, Token, TokenKind, toks};

verus! {

/// A parsed program: the modules it declares and its functions.
#[derive(PartialEq, Eq, Debug)]
pub struct Program {
    pub mods: Vec<String>,
    pub functions: Vec<Function>,
}

/// A function definition: its name, parameters, body, return type name, and
/// the module it belongs to (none for the root file).
#[derive(PartialEq, Eq, Debug)]
pub struct Function {
    pub name: String,
    pub args: Vec<Arg>,
    pub body: Node,
    pub ty: String,
    pub mod_name: Option<String>,
}

/// A parameter: its name and type name.
#[derive(PartialEq, Eq, Debug)]
pub struct Arg {
    pub name: String,
    pub ty: String,
}

/// A statement or an expression.
#[derive(PartialEq, Eq, Debug)]
pub enum Node {
    Add(Box<Node>, Box<Node>),
    Sub(Box<Node>, Box<Node>),
    Mul(Box<Node>, Box<Node>),
    Div(Box<Node>, Box<Node>),
    Num(i32),
    String(String),
    Bool(bool),
    Ret(Box<Node>),
    Let(String, Option<String>, Box<Node>, bool),
    RLet(String),
    Assign(String, Box<Node>),
    Call(String, Vec<Node>),
    Comparison(ComparisonType, Box<Node>, Box<Node>),
    And(Box<Node>, Box<Node>),
    Or(Box<Node>, Box<Node>),
    If(Box<Node>, Box<Node>, Option<Box<Node>>),
    While(Box<Node>, Box<Node>),
    Block(Vec<Node>),
}

/// The relation that a comparison tests.
#[derive(PartialEq, Eq, Debug, Clone, Copy)]
pub enum ComparisonType {
    Eq,
    Ne,
    Gt,
    Ge,
    Lt,
    Le,
}

/// The model of a [`Node`].
pub enum SNode {
    Add(Box<SNode>, Box<SNode>),
    Sub(Box<SNode>, Box<SNode>),
    Mul(Box<SNode>, Box<SNode>),
    Div(Box<SNode>, Box<SNode>),
    Num(i32),
    String(Seq<char>),
    Bool(bool),
    Ret(Box<SNode>),
    Let(Seq<char>, Option<Seq<char>>, Box<SNode>, bool),
    RLet(Seq<char>),
    Assign(Seq<char>, Box<SNode>),
    Call(Seq<char>, Seq<SNode>),
    Comparison(ComparisonType, Box<SNode>, Box<SNode>),
    And(Box<SNode>, Box<SNode>),
    Or(Box<SNode>, Box<SNode>),
    If(Box<SNode>, Box<SNode>, Option<Box<SNode>>),
    While(Box<SNode>, Box<SNode>),
    Block(Seq<SNode>),
}

/// The model of an [`Arg`].
pub struct SArg {
    pub name: Seq<char>,
    pub ty: Seq<char>,
}

/// The model of a [`Function`].
pub struct SFunction {
    pub name: Seq<char>,
    pub args: Seq<SArg>,
    pub body: SNode,
    pub ty: Seq<char>,
    pub mod_name: Option<Seq<char>>,
}

/// The model of a [`Program`].
pub struct SProgram {
    pub mods: Seq<Seq<char>>,
    pub functions: Seq<SFunction>,
}

pub open spec fn opt_str_view(o: Option<String>) -> Option<Seq<char>> {
    match o {
        Some(s) => Some(s@),
        None => None,
    }
}

impl Node {
    pub open spec fn view(&self) -> SNode
        decreases self,
    {
        match self {
            Node::Add(l, r) => SNode::Add(Box::new((**l).view()), Box::new((**r).view())),
            Node::Sub(l, r) => SNode::Sub(Box::new((**l).view()), Box::new((**r).view())),
            Node::Mul(l, r) => SNode::Mul(Box::new((**l).view()), Box::new((**r).view())),
            Node::Div(l, r) => SNode::Div(Box::new((**l).view()), Box::new((**r).view())),
            Node::Num(n) => SNode::Num(*n),
            Node::String(s) => SNode::String(s@),
            Node::Bool(b) => SNode::Bool(*b),
            Node::Ret(n) => SNode::Ret(Box::new((**n).view())),
            Node::Let(name, ty, n, m) => SNode::Let(name@, opt_str_view(*ty), Box::new((**n).view()), *m),
            Node::RLet(name) => SNode::RLet(name@),
            Node::Assign(name, n) => SNode::Assign(name@, Box::new((**n).view())),
            Node::Call(name, args) => SNode::Call(name@, nodes_view(args@)),
            Node::Comparison(c, l, r) => SNode::Comparison(*c, Box::new((**l).view()), Box::new((**r).view())),
            Node::And(l, r) => SNode::And(Box::new((**l).view()), Box::new((**r).view())),
            Node::Or(l, r) => SNode::Or(Box::new((**l).view()), Box::new((**r).view())),
            Node::If(c, b, e) => SNode::If(
                Box::new((**c).view()),
                Box::new((**b).view()),
                match e {
                    Some(x) => Some(Box::new((**x).view())),
                    None => None,
                },
            ),
            Node::While(c, b) => SNode::While(Box::new((**c).view()), Box::new((**b).view())),
            Node::Block(items) => SNode::Block(nodes_view(items@)),
        }
    }
}

/// The models of a sequence of nodes.
pub open spec fn nodes_view(s: Seq<Node>) -> Seq<SNode>
    decreases s,
{
    if s.len() == 0 {
        Seq::empty()
    } else {
        nodes_view(s.subrange(0, s.len() - 1)).push(s[s.len() - 1].view())
    }
}

pub proof fn lemma_nodes_view(s: Seq<Node>)
    ensures
        nodes_view(s).len() == s.len(),
        forall|i: int| 0 <= i < s.len() ==> #[trigger] nodes_view(s)[i] == s[i]@,
    decreases s.len(),
{
    if s.len() > 0 {
        lemma_nodes_view(s.subrange(0, s.len() - 1));
    }
}

pub proof fn lemma_nodes_view_push(s: Seq<Node>, x: Node)
    ensures
        nodes_view(s.push(x)) == nodes_view(s).push(x@),
{
    assert(s.push(x).subrange(0, s.len() as int) =~= s);
}

impl Arg {
    pub open spec fn view(&self) -> SArg {
        SArg { name: self.name@, ty: self.ty@ }
    }
}

impl Function {
    pub open spec fn view(&self) -> SFunction {
        SFunction {
            name: self.name@,
            args: self.args@.map_values(|a: Arg| a@),
            body: self.body@,
            ty: self.ty@,
            mod_name: opt_str_view(self.mod_name),
        }
    }
}

impl Program {
    pub open spec fn view(&self) -> SProgram {
        SProgram {
            mods: self.mods@.map_values(|m: String| m@),
            functions: self.functions@.map_values(|f: Function| f@),
        }
    }
}

// ---------------------------------------------------------------------
// The grammar, as functions from a token position to what is parsed there
// and the position after it. `None` is a syntax error. Every successful
// parse moves forward; the checks `p < q` below say so, and they are what
// makes each definition terminate.
// ---------------------------------------------------------------------

/// The token at `p`, if there is one.
pub open spec fn tok_at(t: Seq<Tok>, p: int) -> Option<Tok> {
    if 0 <= p < t.len() {
        Some(t[p])
    } else {
        None
    }
}

pub open spec fn is_tok(t: Seq<Tok>, p: int, k: Tok) -> bool {
    tok_at(t, p) == Some(k)
}

/// The identifier at `p`, if the token there is one.
pub open spec fn ident_at(t: Seq<Tok>, p: int) -> Option<Seq<char>> {
    match tok_at(t, p) {
        Some(Tok::Identifier(n)) => Some(n),
        _ => None,
    }
}

/// What a comparison means: whether it holds of the integers `a` and `b`.
pub open spec fn compares(c: ComparisonType, a: int, b: int) -> bool {
    match c {
        ComparisonType::Eq => a == b,
        ComparisonType::Ne => a != b,
        ComparisonType::Gt => a > b,
        ComparisonType::Ge => a >= b,
        ComparisonType::Lt => a < b,
        ComparisonType::Le => a <= b,
    }
}

/// The relation that a comparison operator token is written for, if it is
/// one: `==`, `!=`, `>`, `>=`, `<` or `<=` between `a` and `b`.
pub open spec fn tok_relation(t: Tok, a: int, b: int) -> Option<bool> {
    match t {
        Tok::Eq => Some(a == b),
        Tok::Ne => Some(a != b),
        Tok::Gt => Some(a > b),
        Tok::Ge => Some(a >= b),
        Tok::Lt => Some(a < b),
        Tok::Le => Some(a <= b),
        _ => None,
    }
}

/// The comparison that the token at `p` denotes, if it is one.
pub open spec fn comparison_at(t: Seq<Tok>, p: int) -> Option<ComparisonType> {
    match tok_at(t, p) {
        Some(Tok::Eq) => Some(ComparisonType::Eq),
        Some(Tok::Ne) => Some(ComparisonType::Ne),
        Some(Tok::Gt) => Some(ComparisonType::Gt),
        Some(Tok::Ge) => Some(ComparisonType::Ge),
        Some(Tok::Lt) => Some(ComparisonType::Lt),
        Some(Tok::Le) => Some(ComparisonType::Le),
        _ => None,
    }
}

pub open spec fn bx(n: SNode) -> Box<SNode> {
    Box::new(n)
}

/// `expr := equality (("&&" | "||") equality)?`
pub open spec fn p_expr(t: Seq<Tok>, p: int) -> Option<(SNode, int)>
    decreases t.len() - p, 8int,
{
    match p_equality(t, p) {
        None => None,
        Some((n, p1)) => if p <= p1 <= t.len() {
            if is_tok(t, p1, Tok::And) {
                match p_equality(t, p1 + 1) {
                    None => None,
                    Some((r, p2)) => Some((SNode::And(bx(n), bx(r)), p2)),
                }
            } else if is_tok(t, p1, Tok::Or) {
                match p_equality(t, p1 + 1) {
                    None => None,
                    Some((r, p2)) => Some((SNode::Or(bx(n), bx(r)), p2)),
                }
            } else {
                Some((n, p1))
            }
        } else {
            None
        },
    }
}

/// `equality := add (comparison add)?`
pub open spec fn p_equality(t: Seq<Tok>, p: int) -> Option<(SNode, int)>
    decreases t.len() - p, 7int,
{
    match p_add(t, p) {
        None => None,
        Some((n, p1)) => if p <= p1 <= t.len() {
            match comparison_at(t, p1) {
                Some(c) => match p_add(t, p1 + 1) {
                    None => None,
                    Some((r, p2)) => Some((SNode::Comparison(c, bx(n), bx(r)), p2)),
                },
                None => Some((n, p1)),
            }
        } else {
            None
        },
    }
}

/// `add := mul (("+" | "-") mul)*`, left-associative.
pub open spec fn p_add(t: Seq<Tok>, p: int) -> Option<(SNode, int)>
    decreases t.len() - p, 6int,
{
    match p_mul(t, p) {
        None => None,
        Some((n, p1)) => if p <= p1 <= t.len() {
            p_add_rest(t, p1, n)
        } else {
            None
        },
    }
}

/// The `("+" | "-") mul` repetitions after `acc`.
pub open spec fn p_add_rest(t: Seq<Tok>, p: int, acc: SNode) -> Option<(SNode, int)>
    decreases t.len() - p, 5int,
{
    if is_tok(t, p, Tok::Plus) || is_tok(t, p, Tok::Minus) {
        match p_mul(t, p + 1) {
            None => None,
            Some((r, p2)) => if p < p2 <= t.len() {
                p_add_rest(
                    t,
                    p2,
                    if is_tok(t, p, Tok::Plus) {
                        SNode::Add(bx(acc), bx(r))
                    } else {
                        SNode::Sub(bx(acc), bx(r))
                    },
                )
            } else {
                None
            },
        }
    } else {
        Some((acc, p))
    }
}

/// `mul := unary (("*" | "/") mul)*`: the right operand is a whole `mul`.
pub open spec fn p_mul(t: Seq<Tok>, p: int) -> Option<(SNode, int)>
    decreases t.len() - p, 4int,
{
    match p_unary(t, p) {
        None => None,
        Some((n, p1)) => if p <= p1 <= t.len() {
            p_mul_rest(t, p1, n)
        } else {
            None
        },
    }
}

/// The `("*" | "/") mul` repetitions after `acc`.
pub open spec fn p_mul_rest(t: Seq<Tok>, p: int, acc: SNode) -> Option<(SNode, int)>
    decreases t.len() - p, 3int,
{
    if is_tok(t, p, Tok::Mul) || is_tok(t, p, Tok::Div) {
        match p_mul(t, p + 1) {
            None => None,
            Some((r, p2)) => if p < p2 <= t.len() {
                p_mul_rest(
                    t,
                    p2,
                    if is_tok(t, p, Tok::Mul) {
                        SNode::Mul(bx(acc), bx(r))
                    } else {
                        SNode::Div(bx(acc), bx(r))
                    },
                )
            } else {
                None
            },
        }
    } else {
        Some((acc, p))
    }
}

/// `unary := "+" primary | "-" primary | primary`, where `- x` is `0 - x`.
pub open spec fn p_unary(t: Seq<Tok>, p: int) -> Option<(SNode, int)>
    decreases t.len() - p, 2int,
{
    if is_tok(t, p, Tok::Plus) {
        p_primary(t, p + 1)
    } else if is_tok(t, p, Tok::Minus) {
        match p_primary(t, p + 1) {
            None => None,
            Some((r, p2)) => Some((SNode::Sub(bx(SNode::Num(0)), bx(r)), p2)),
        }
    } else {
        p_primary(t, p)
    }
}

/// `primary := name ("::" name)? tail | "(" expr ")" | literal`
pub open spec fn p_primary(t: Seq<Tok>, p: int) -> Option<(SNode, int)>
    decreases t.len() - p, 1int,
{
    match ident_at(t, p) {
        Some(id) => if is_tok(t, p + 1, Tok::ColonColon) {
            match ident_at(t, p + 2) {
                None => None,
                Some(m) => p_name_tail(t, p + 3, id, Some(m)),
            }
        } else {
            p_name_tail(t, p + 1, id, None)
        },
        None => if is_tok(t, p, Tok::LParen) {
            match p_expr(t, p + 1) {
                None => None,
                Some((n, p1)) => if is_tok(t, p1, Tok::RParen) {
                    Some((n, p1 + 1))
                } else {
                    None
                },
            }
        } else {
            match tok_at(t, p) {
                Some(Tok::Num(n)) => Some((SNode::Num(n), p + 1)),
                Some(Tok::String(s)) => Some((SNode::String(s), p + 1)),
                Some(Tok::Bool(b)) => Some((SNode::Bool(b), p + 1)),
                _ => None,
            }
        },
    }
}

/// What follows a name at `p`: a call `"(" args ")"` (of the name after `::`
/// where there is one), an assignment `"=" expr`, or nothing (a read).
pub open spec fn p_name_tail(t: Seq<Tok>, p: int, id: Seq<char>, m: Option<Seq<char>>) -> Option<(SNode, int)>
    decreases t.len() - p, 1int,
{
    if is_tok(t, p, Tok::LParen) {
        match p_args(t, p + 1, Seq::empty()) {
            None => None,
            Some((args, p2)) => Some((
                SNode::Call(
                    match m {
                        Some(x) => x,
                        None => id,
                    },
                    args,
                ),
                p2,
            )),
        }
    } else if is_tok(t, p, Tok::Assign) {
        match p_expr(t, p + 1) {
            None => None,
            Some((e, p2)) => Some((SNode::Assign(id, bx(e)), p2)),
        }
    } else {
        Some((SNode::RLet(id), p))
    }
}

/// `args := (expr ","?)* ")"`, the arguments after `acc`.
pub open spec fn p_args(t: Seq<Tok>, p: int, acc: Seq<SNode>) -> Option<(Seq<SNode>, int)>
    decreases t.len() - p, 9int,
{
    if is_tok(t, p, Tok::RParen) {
        Some((acc, p + 1))
    } else {
        match p_expr(t, p) {
            None => None,
            Some((e, p1)) => if p < p1 <= t.len() {
                p_args(t, if is_tok(t, p1, Tok::Comma) { p1 + 1 } else { p1 }, acc.push(e))
            } else {
                None
            },
        }
    }
}

/// `block := "{" stmt* "}"`
pub open spec fn p_block(t: Seq<Tok>, p: int) -> Option<(SNode, int)>
    decreases t.len() - p, 0int,
{
    if is_tok(t, p, Tok::LBrace) {
        p_block_items(t, p + 1, Seq::empty())
    } else {
        None
    }
}

/// The statements of a block after `acc`, up to and with the `}`.
pub open spec fn p_block_items(t: Seq<Tok>, p: int, acc: Seq<SNode>) -> Option<(SNode, int)>
    decreases t.len() - p, 2int,
{
    if is_tok(t, p, Tok::RBrace) {
        Some((SNode::Block(acc), p + 1))
    } else {
        match p_stmt(t, p) {
            None => None,
            Some((n, p1)) => if p < p1 <= t.len() {
                p_block_items(t, p1, acc.push(n))
            } else {
                None
            },
        }
    }
}

/// The `else` part of an `if` at `p`: `"else" ("if" stmt | block)`, or nothing.
pub open spec fn p_else(t: Seq<Tok>, p: int) -> Option<(Option<Box<SNode>>, int)>
    decreases t.len() - p, 0int,
{
    if is_tok(t, p, Tok::Else) {
        if is_tok(t, p + 1, Tok::If) {
            match p_stmt(t, p + 1) {
                None => None,
                Some((e, p2)) => Some((Some(bx(e)), p2)),
            }
        } else {
            match p_block(t, p + 1) {
                None => None,
                Some((e, p2)) => Some((Some(bx(e)), p2)),
            }
        }
    } else {
        Some((None, p))
    }
}

/// The type annotation of a `let` at `p`: `":" name`, or nothing.
pub open spec fn p_annotation(t: Seq<Tok>, p: int) -> Option<(Option<Seq<char>>, int)> {
    if is_tok(t, p, Tok::Colon) {
        match ident_at(t, p + 1) {
            None => None,
            Some(ty) => Some((Some(ty), p + 2)),
        }
    } else {
        Some((None, p))
    }
}

/// An expression followed by `;`: the expression and the position after the `;`.
pub open spec fn p_expr_semi(t: Seq<Tok>, p: int) -> Option<(SNode, int)> {
    match p_expr(t, p) {
        None => None,
        Some((e, p1)) => if is_tok(t, p1, Tok::Semi) {
            Some((e, p1 + 1))
        } else {
            None
        },
    }
}

/// An `if` statement after its `if`: `expr block else?`.
pub open spec fn p_if_rest(t: Seq<Tok>, p: int) -> Option<(SNode, int)>
    decreases t.len() - p, 0int,
{
    match p_expr(t, p) {
        None => None,
        Some((c, p1)) => if p < p1 <= t.len() {
            match p_block(t, p1) {
                None => None,
                Some((b, p2)) => if p1 <= p2 <= t.len() {
                    match p_else(t, p2) {
                        None => None,
                        Some((e, p3)) => Some((SNode::If(bx(c), bx(b), e), p3)),
                    }
                } else {
                    None
                },
            }
        } else {
            None
        },
    }
}

/// A `let` statement after its `let`: `"mut"? name (":" name)? "=" expr ";"`.
pub open spec fn p_let_rest(t: Seq<Tok>, p: int) -> Option<(SNode, int)> {
    let is_mut = is_tok(t, p, Tok::Mut);
    let q = if is_mut { p + 1 } else { p };
    match ident_at(t, q) {
        None => None,
        Some(name) => match p_annotation(t, q + 1) {
            None => None,
            Some((ty, q1)) => if is_tok(t, q1, Tok::Assign) {
                match p_expr_semi(t, q1 + 1) {
                    None => None,
                    Some((e, q2)) => Some((SNode::Let(name, ty, bx(e), is_mut), q2)),
                }
            } else {
                None
            },
        },
    }
}

/// `stmt := "if" expr block else? | "while" expr block | "return" expr ";"
///        | "let" "mut"? name (":" name)? "=" expr ";" | expr ";"`
pub open spec fn p_stmt(t: Seq<Tok>, p: int) -> Option<(SNode, int)>
    decreases t.len() - p, 1int,
{
    if is_tok(t, p, Tok::If) {
        p_if_rest(t, p + 1)
    } else if is_tok(t, p, Tok::While) {
        match p_expr(t, p + 1) {
            None => None,
            Some((c, p1)) => if p < p1 <= t.len() {
                match p_block(t, p1) {
                    None => None,
                    Some((b, p2)) => Some((SNode::While(bx(c), bx(b)), p2)),
                }
            } else {
                None
            },
        }
    } else if is_tok(t, p, Tok::Ret) {
        match p_expr_semi(t, p + 1) {
            None => None,
            Some((e, p1)) => Some((SNode::Ret(bx(e)), p1)),
        }
    } else if is_tok(t, p, Tok::Let) {
        p_let_rest(t, p + 1)
    } else {
        p_expr_semi(t, p)
    }
}

/// The parameters of a function after `acc`, up to and with the `)`:
/// `(name ":" name ","?)* ")"`.
pub open spec fn p_params(t: Seq<Tok>, p: int, acc: Seq<SArg>) -> Option<(Seq<SArg>, int)>
    decreases t.len() - p,
{
    if is_tok(t, p, Tok::RParen) {
        Some((acc, p + 1))
    } else {
        match ident_at(t, p) {
            None => None,
            Some(name) => if is_tok(t, p + 1, Tok::Colon) {
                match ident_at(t, p + 2) {
                    None => None,
                    Some(ty) => p_params(
                        t,
                        if is_tok(t, p + 3, Tok::Comma) { p + 4 } else { p + 3 },
                        acc.push(SArg { name, ty }),
                    ),
                }
            } else {
                None
            },
        }
    }
}

/// The return type of a function at `p`: `"->" name`, or `void` where
/// none is written.
pub open spec fn p_return_type(t: Seq<Tok>, p: int) -> Option<(Seq<char>, int)> {
    if is_tok(t, p, Tok::Arrow) {
        match ident_at(t, p + 1) {
            None => None,
            Some(ty) => Some((ty, p + 2)),
        }
    } else {
        Some(("void"@, p))
    }
}

/// `function := name "(" params ("->" name)? block`, after the `fn`; the
/// return type is `void` where none is written.
pub open spec fn p_function(t: Seq<Tok>, p: int) -> Option<(SFunction, int)> {
    match ident_at(t, p) {
        None => None,
        Some(name) => if is_tok(t, p + 1, Tok::LParen) {
            match p_params(t, p + 2, Seq::empty()) {
                None => None,
                Some((args, q)) => {
                    match p_return_type(t, q) {
                        None => None,
                        Some((ty, q1)) => match p_block(t, q1) {
                            None => None,
                            Some((body, q2)) => Some((SFunction { name, args, body, ty, mod_name: None }, q2)),
                        },
                    }
                },
            }
        } else {
            None
        },
    }
}

/// The module declarations `("mod" name ";")*` after `acc`.
pub open spec fn p_mods(t: Seq<Tok>, p: int, acc: Seq<Seq<char>>) -> Option<(Seq<Seq<char>>, int)>
    decreases t.len() - p,
{
    if is_tok(t, p, Tok::Mod) {
        match ident_at(t, p + 1) {
            None => None,
            Some(m) => if is_tok(t, p + 2, Tok::Semi) {
                p_mods(t, p + 3, acc.push(m))
            } else {
                None
            },
        }
    } else {
        Some((acc, p))
    }
}

/// The function definitions `("fn" function)*` after `acc`.
pub open spec fn p_functions(t: Seq<Tok>, p: int, acc: Seq<SFunction>) -> Option<(Seq<SFunction>, int)>
    decreases t.len() - p,
{
    if is_tok(t, p, Tok::Fn) {
        match p_function(t, p + 1) {
            None => None,
            Some((f, p1)) => if p < p1 <= t.len() {
                p_functions(t, p1, acc.push(f))
            } else {
                None
            },
        }
    } else {
        Some((acc, p))
    }
}

/// `program := ("mod" name ";")* ("fn" function)*`; what follows the last
/// function is not read.
pub open spec fn p_program(t: Seq<Tok>, p: int) -> Option<(SProgram, int)> {
    match p_mods(t, p, Seq::empty()) {
        None => None,
        Some((mods, p1)) => match p_functions(t, p1, Seq::empty()) {
            None => None,
            Some((functions, p2)) => Some((SProgram { mods, functions }, p2)),
        },
    }
}

/// The parser reads each comparison operator as the comparison it is
/// written for: the token at `p` gives a comparison exactly when it is a
/// comparison operator, and that comparison holds of two integers exactly
/// when the operator's relation does (so `<=` holds of equal numbers and `<`
/// does not).
pub proof fn lemma_comparison_means_its_operator(t: Seq<Tok>, p: int)
    ensures
        comparison_at(t, p) is Some <==> (tok_at(t, p) matches Some(k) && tok_relation(k, 0, 0) is Some),
        comparison_at(t, p) matches Some(c) ==> (tok_at(t, p) matches Some(k)
            && forall|a: int, b: int| tok_relation(k, a, b) == Some(#[trigger] compares(c, a, b))),
{
}

/// Whether a parser result is what the grammar gives: `spec` is the
/// grammar's answer, `r` the node returned and `pos` the position after it.
pub open spec fn parsed(spec: Option<(SNode, int)>, r: Option<Node>, pos: int) -> bool {
    match spec {
        None => r is None,
        Some((n, q)) => r matches Some(x) && x@ == n && pos == q,
    }
}

/// Whether two token kinds are the same.
pub fn same_kind(a: &TokenKind, b: &TokenKind) -> (r: bool)
    ensures
        r == (a@ == b@),
{
    match (a, b) {
        (TokenKind::Plus, TokenKind::Plus) => true,
        (TokenKind::Minus, TokenKind::Minus) => true,
        (TokenKind::Mul, TokenKind::Mul) => true,
        (TokenKind::Div, TokenKind::Div) => true,
        (TokenKind::LParen, TokenKind::LParen) => true,
        (TokenKind::RParen, TokenKind::RParen) => true,
        (TokenKind::LBrace, TokenKind::LBrace) => true,
        (TokenKind::RBrace, TokenKind::RBrace) => true,
        (TokenKind::Mod, TokenKind::Mod) => true,
        (TokenKind::Fn, TokenKind::Fn) => true,
        (TokenKind::Semi, TokenKind::Semi) => true,
        (TokenKind::Colon, TokenKind::Colon) => true,
        (TokenKind::ColonColon, TokenKind::ColonColon) => true,
        (TokenKind::Ret, TokenKind::Ret) => true,
        (TokenKind::Let, TokenKind::Let) => true,
        (TokenKind::Mut, TokenKind::Mut) => true,
        (TokenKind::Assign, TokenKind::Assign) => true,
        (TokenKind::Comma, TokenKind::Comma) => true,
        (TokenKind::Eq, TokenKind::Eq) => true,
        (TokenKind::Ne, TokenKind::Ne) => true,
        (TokenKind::Gt, TokenKind::Gt) => true,
        (TokenKind::Ge, TokenKind::Ge) => true,
        (TokenKind::Lt, TokenKind::Lt) => true,
        (TokenKind::Le, TokenKind::Le) => true,
        (TokenKind::And, TokenKind::And) => true,
        (TokenKind::Or, TokenKind::Or) => true,
        (TokenKind::If, TokenKind::If) => true,
        (TokenKind::Else, TokenKind::Else) => true,
        (TokenKind::Arrow, TokenKind::Arrow) => true,
        (TokenKind::While, TokenKind::While) => true,
        (TokenKind::Not, TokenKind::Not) => true,
        (TokenKind::Identifier(x), TokenKind::Identifier(y)) => str_eq(x.as_str(), y.as_str()),
        (TokenKind::Num(x), TokenKind::Num(y)) => *x == *y,
        (TokenKind::String(x), TokenKind::String(y)) => str_eq(x.as_str(), y.as_str()),
        (TokenKind::Bool(x), TokenKind::Bool(y)) => *x == *y,
        _ => false,
    }
}

/// A recursive-descent parser over a token sequence.
pub struct Parser<'a> {
    tokens: &'a Vec<Token>,
    pos: usize,
}

impl<'a> Parser<'a> {
    /// The kinds of the tokens being parsed.
    pub closed spec fn kinds(&self) -> Seq<Tok> {
        toks(self.tokens@)
    }

    /// The index of the next token to read.
    pub closed spec fn position(&self) -> int {
        self.pos as int
    }

    /// A parser at the first of `tokens`.
    pub fn new(tokens: &'a Vec<Token>) -> (p: Self)
        ensures
            p.kinds() == toks(tokens@),
            p.position() == 0,
    {
        Self { tokens, pos: 0 }
    }

    /// The token at the current position, if there is one.
    fn current(&self) -> (r: Option<&Token>)
        ensures
            r is Some <==> tok_at(self.kinds(), self.position()) is Some,
            r matches Some(t) ==> tok_at(self.kinds(), self.position()) == Some(t@),
    {
        if self.pos < self.tokens.len() {
            Some(&self.tokens[self.pos])
        } else {
            None
        }
    }

    /// Whether the current token is of kind `kind`.
    fn peek(&self, kind: TokenKind) -> (r: bool)
        ensures
            r == is_tok(self.kinds(), self.position(), kind@),
    {
        if let Some(t) = self.current() {
            if same_kind(&t.kind, &kind) {
                return true;
            }
        }
        false
    }

    /// Moves past the current token where it is of kind `kind`.
    fn consume(&mut self, kind: TokenKind) -> (r: bool)
        ensures
            r == is_tok(old(self).kinds(), old(self).position(), kind@),
            final(self).kinds() == old(self).kinds(),
            final(self).position() == old(self).position() + if r { 1int } else { 0 },
    {
        if self.peek(kind) {
            assert(toks(self.tokens@).len() == self.tokens@.len() && self.tokens@.len() == self.tokens.len());
            self.pos = self.pos + 1;
            return true;
        }
        false
    }

    /// Moves past the current token where it is an identifier, and returns
    /// its name.
    fn identifier(&mut self) -> (r: Option<String>)
        ensures
            final(self).kinds() == old(self).kinds(),
            match ident_at(old(self).kinds(), old(self).position()) {
                Some(n) => r matches Some(s) && s@ == n && final(self).position() == old(self).position() + 1,
                None => r is None && final(self).position() == old(self).position(),
            },
    {
        let result = if let Some(Token { kind: TokenKind::Identifier(n) }) = self.current() {
            Some(copy_string(n))
        } else {
            None
        };
        if result.is_some() {
            assert(toks(self.tokens@).len() == self.tokens@.len() && self.tokens@.len() == self.tokens.len());
            self.pos = self.pos + 1;
        }
        result
    }

    /// Moves past a comparison operator at the current position, and
    /// returns the comparison it denotes.
    fn comparison(&mut self) -> (r: Option<ComparisonType>)
        ensures
            final(self).kinds() == old(self).kinds(),
            r == comparison_at(old(self).kinds(), old(self).position()),
            final(self).position() == old(self).position() + if r is Some { 1int } else { 0 },
    {
        if self.consume(TokenKind::Eq) {
            Some(ComparisonType::Eq)
        } else if self.consume(TokenKind::Ne) {
            Some(ComparisonType::Ne)
        } else if self.consume(TokenKind::Gt) {
            Some(ComparisonType::Gt)
        } else if self.consume(TokenKind::Ge) {
            Some(ComparisonType::Ge)
        } else if self.consume(TokenKind::Lt) {
            Some(ComparisonType::Lt)
        } else if self.consume(TokenKind::Le) {
            Some(ComparisonType::Le)
        } else {
            None
        }
    }

    /// Parses an `expr` (see [`p_expr`]); `None` on a syntax error.
    #[verifier::spinoff_prover]
    #[verifier::rlimit(40)]
    fn parse_expr(&mut self) -> (r: Option<Node>)
        ensures
            final(self).kinds() == old(self).kinds(),
            parsed(p_expr(old(self).kinds(), old(self).position()), r, final(self).position()),
            r is Some ==> old(self).position() < final(self).position() <= old(self).kinds().len(),
        decreases old(self).kinds().len() - old(self).position(), 8int,
    {
        let n = match self.parse_equality() {
            Some(n) => n,
            None => return None,
        };
        if self.consume(TokenKind::And) {
            let r = match self.parse_equality() {
                Some(r) => r,
                None => return None,
            };
            Some(Node::And(Box::new(n), Box::new(r)))
        } else if self.consume(TokenKind::Or) {
            let r = match self.parse_equality() {
                Some(r) => r,
                None => return None,
            };
            Some(Node::Or(Box::new(n), Box::new(r)))
        } else {
            Some(n)
        }
    }

    /// Parses an `equality` (see [`p_equality`]).
    fn parse_equality(&mut self) -> (r: Option<Node>)
        ensures
            final(self).kinds() == old(self).kinds(),
            parsed(p_equality(old(self).kinds(), old(self).position()), r, final(self).position()),
            r is Some ==> old(self).position() < final(self).position() <= old(self).kinds().len(),
        decreases old(self).kinds().len() - old(self).position(), 7int,
    {
        let n = match self.parse_add() {
            Some(n) => n,
            None => return None,
        };
        match self.comparison() {
            Some(c) => {
                let r = match self.parse_add() {
                    Some(r) => r,
                    None => return None,
                };
                Some(Node::Comparison(c, Box::new(n), Box::new(r)))
            },
            None => Some(n),
        }
    }

    /// Parses an `add` (see [`p_add`]).
    #[verifier::spinoff_prover]
    #[verifier::rlimit(40)]
    fn parse_add(&mut self) -> (r: Option<Node>)
        ensures
            final(self).kinds() == old(self).kinds(),
            parsed(p_add(old(self).kinds(), old(self).position()), r, final(self).position()),
            r is Some ==> old(self).position() < final(self).position() <= old(self).kinds().len(),
        decreases old(self).kinds().len() - old(self).position(), 6int,
    {
        let ghost t = self.kinds();
        let ghost p0 = self.position();
        let mut node = match self.parse_mul() {
            Some(n) => n,
            None => return None,
        };
        loop
            invariant
                self.kinds() == t,
                t == old(self).kinds(),
                p0 == old(self).position(),
                p0 < self.position() <= t.len(),
                p_add(t, p0) == p_add_rest(t, self.position(), node@),
            decreases t.len() - self.position(),
        {
            if self.consume(TokenKind::Plus) {
                let r = match self.parse_mul() {
                    Some(r) => r,
                    None => return None,
                };
                node = Node::Add(Box::new(node), Box::new(r));
            } else if self.consume(TokenKind::Minus) {
                let r = match self.parse_mul() {
                    Some(r) => r,
                    None => return None,
                };
                node = Node::Sub(Box::new(node), Box::new(r));
            } else {
                return Some(node);
            }
        }
    }

    /// Parses a `mul` (see [`p_mul`]).
    #[verifier::spinoff_prover]
    #[verifier::rlimit(40)]
    fn parse_mul(&mut self) -> (r: Option<Node>)
        ensures
            final(self).kinds() == old(self).kinds(),
            parsed(p_mul(old(self).kinds(), old(self).position()), r, final(self).position()),
            r is Some ==> old(self).position() < final(self).position() <= old(self).kinds().len(),
        decreases old(self).kinds().len() - old(self).position(), 4int,
    {
        let ghost t = self.kinds();
        let ghost p0 = self.position();
        let mut node = match self.parse_unary() {
            Some(n) => n,
            None => return None,
        };
        loop
            invariant
                self.kinds() == t,
                t == old(self).kinds(),
                p0 == old(self).position(),
                p0 < self.position() <= t.len(),
                p_mul(t, p0) == p_mul_rest(t, self.position(), node@),
            decreases t.len() - self.position(),
        {
            if self.consume(TokenKind::Mul) {
                let r = match self.parse_mul() {
                    Some(r) => r,
                    None => return None,
                };
                node = Node::Mul(Box::new(node), Box::new(r));
            } else if self.consume(TokenKind::Div) {
                let r = match self.parse_mul() {
                    Some(r) => r,
                    None => return None,
                };
                node = Node::Div(Box::new(node), Box::new(r));
            } else {
                return Some(node);
            }
        }
    }

    /// Parses a `unary` (see [`p_unary`]).
    fn parse_unary(&mut self) -> (r: Option<Node>)
        ensures
            final(self).kinds() == old(self).kinds(),
            parsed(p_unary(old(self).kinds(), old(self).position()), r, final(self).position()),
            r is Some ==> old(self).position() < final(self).position() <= old(self).kinds().len(),
        decreases old(self).kinds().len() - old(self).position(), 2int,
    {
        if self.consume(TokenKind::Plus) {
            // a leading `+` changes nothing
        } else if self.consume(TokenKind::Minus) {
            let r = match self.parse_primary() {
                Some(r) => r,
                None => return None,
            };
            let zero = Node::Num(0);
            assert(zero@ == SNode::Num(0));
            let res = Node::Sub(Box::new(zero), Box::new(r));
            assert(res@ == SNode::Sub(bx(SNode::Num(0)), bx(r@)));
            return Some(res);
        }
        self.parse_primary()
    }

    /// Parses a `primary` (see [`p_primary`]).
    #[verifier::spinoff_prover]
    #[verifier::rlimit(40)]
    fn parse_primary(&mut self) -> (r: Option<Node>)
        ensures
            final(self).kinds() == old(self).kinds(),
            parsed(p_primary(old(self).kinds(), old(self).position()), r, final(self).position()),
            r is Some ==> old(self).position() < final(self).position() <= old(self).kinds().len(),
        decreases old(self).kinds().len() - old(self).position(), 1int,
    {
        let ghost t = self.kinds();
        let ghost p0 = self.position();
        if let Some(identifier) = self.identifier() {
            let mod_function = if self.consume(TokenKind::ColonColon) {
                match self.identifier() {
                    Some(m) => Some(m),
                    None => return None,
                }
            } else {
                None
            };
            let ghost q = self.position();
            assert(p_primary(t, p0) == p_name_tail(t, q, identifier@, opt_str_view(mod_function)));
            if self.consume(TokenKind::LParen) {
                let mut args: Vec<Node> = Vec::new();
                assert(nodes_view(args@) =~= Seq::<SNode>::empty());
                loop
                    invariant
                        self.kinds() == t,
                        t == old(self).kinds(),
                        p0 == old(self).position(),
                        p0 < q,
                        q < self.position() <= t.len(),
                        is_tok(t, q, Tok::LParen),
                        p_primary(t, p0) == p_name_tail(t, q, identifier@, opt_str_view(mod_function)),
                        p_args(t, q + 1, Seq::empty()) == p_args(t, self.position(), nodes_view(args@)),
                    decreases t.len() - self.position(),
                {
                    let ghost pa = self.position();
                    assert(p_args(t, pa, nodes_view(args@)) == if is_tok(t, pa, Tok::RParen) {
                        Some((nodes_view(args@), pa + 1))
                    } else {
                        match p_expr(t, pa) {
                            None => None,
                            Some((e, p1)) => if pa < p1 <= t.len() {
                                p_args(t, if is_tok(t, p1, Tok::Comma) { p1 + 1 } else { p1 }, nodes_view(args@).push(e))
                            } else {
                                None
                            },
                        }
                    });
                    if self.consume(TokenKind::RParen) {
                        let name = match mod_function {
                            Some(m) => m,
                            None => identifier,
                        };
                        return Some(Node::Call(name, args));
                    }
                    let e = match self.parse_expr() {
                        Some(e) => e,
                        None => return None,
                    };
                    proof { lemma_nodes_view_push(args@, e); }
                    args.push(e);
                    self.consume(TokenKind::Comma);
                }
            }
            if self.consume(TokenKind::Assign) {
                let e = match self.parse_expr() {
                    Some(e) => e,
                    None => return None,
                };
                return Some(Node::Assign(identifier, Box::new(e)));
            }
            return Some(Node::RLet(identifier));
        }
        if self.consume(TokenKind::LParen) {
            let node = match self.parse_expr() {
                Some(n) => n,
                None => return None,
            };
            if !self.consume(TokenKind::RParen) {
                return None;
            }
            return Some(node);
        }
        let parsed_node = match self.current() {
            Some(Token { kind: TokenKind::Num(n) }) => Some(Node::Num(*n)),
            Some(Token { kind: TokenKind::String(s) }) => Some(Node::String(copy_string(s))),
            Some(Token { kind: TokenKind::Bool(b) }) => Some(Node::Bool(*b)),
            _ => None,
        };
        if let Some(node) = parsed_node {
            assert(toks(self.tokens@).len() == self.tokens@.len() && self.tokens@.len() == self.tokens.len());
            self.pos = self.pos + 1;
            return Some(node);
        }
        None
    }

    /// Parses a `block` (see [`p_block`]).
    #[verifier::spinoff_prover]
    #[verifier::rlimit(60)]
    fn parse_block(&mut self) -> (r: Option<Node>)
        ensures
            final(self).kinds() == old(self).kinds(),
            parsed(p_block(old(self).kinds(), old(self).position()), r, final(self).position()),
            r is Some ==> old(self).position() < final(self).position() <= old(self).kinds().len(),
        decreases old(self).kinds().len() - old(self).position(), 0int,
    {
        let ghost t = self.kinds();
        let ghost p0 = self.position();
        if !self.consume(TokenKind::LBrace) {
            return None;
        }
        let mut body: Vec<Node> = Vec::new();
        assert(nodes_view(body@) =~= Seq::<SNode>::empty());
        loop
            invariant
                self.kinds() == t,
                t == old(self).kinds(),
                p0 == old(self).position(),
                p0 < self.position() <= t.len(),
                p_block(t, p0) == p_block_items(t, self.position(), nodes_view(body@)),
            decreases t.len() - self.position(),
        {
            if self.consume(TokenKind::RBrace) {
                return Some(Node::Block(body));
            }
            let n = match self.parse_stmt() {
                Some(n) => n,
                None => return None,
            };
            proof { lemma_nodes_view_push(body@, n); }
            body.push(n);
        }
    }

    /// Parses an expression and the `;` after it (see [`p_expr_semi`]).
    fn parse_expr_semi(&mut self) -> (r: Option<Node>)
        ensures
            final(self).kinds() == old(self).kinds(),
            parsed(p_expr_semi(old(self).kinds(), old(self).position()), r, final(self).position()),
            r is Some ==> old(self).position() < final(self).position() <= old(self).kinds().len(),
    {
        let node = match self.parse_expr() {
            Some(n) => n,
            None => return None,
        };
        if !self.consume(TokenKind::Semi) {
            return None;
        }
        Some(node)
    }

    /// Parses a `stmt` (see [`p_stmt`]).
    #[verifier::spinoff_prover]
    #[verifier::rlimit(100)]
    fn parse_stmt(&mut self) -> (r: Option<Node>)
        ensures
            final(self).kinds() == old(self).kinds(),
            parsed(p_stmt(old(self).kinds(), old(self).position()), r, final(self).position()),
            r is Some ==> old(self).position() < final(self).position() <= old(self).kinds().len(),
        decreases old(self).kinds().len() - old(self).position(), 1int,
    {
        let ghost t = self.kinds();
        let ghost p0 = self.position();
        if self.consume(TokenKind::If) {
            return self.parse_if_rest();
        }
        if self.consume(TokenKind::While) {
            let node = match self.parse_expr() {
                Some(n) => n,
                None => return None,
            };
            let body = match self.parse_block() {
                Some(n) => n,
                None => return None,
            };
            return Some(Node::While(Box::new(node), Box::new(body)));
        }
        if self.consume(TokenKind::Ret) {
            let node = match self.parse_expr_semi() {
                Some(n) => n,
                None => return None,
            };
            return Some(Node::Ret(Box::new(node)));
        }
        if self.consume(TokenKind::Let) {
            return self.parse_let_rest();
        }
        self.parse_expr_semi()
    }

    /// Parses an `if` statement after its `if` (see [`p_if_rest`]).
    #[verifier::spinoff_prover]
    #[verifier::rlimit(60)]
    fn parse_if_rest(&mut self) -> (r: Option<Node>)
        ensures
            final(self).kinds() == old(self).kinds(),
            parsed(p_if_rest(old(self).kinds(), old(self).position()), r, final(self).position()),
            r is Some ==> old(self).position() < final(self).position() <= old(self).kinds().len(),
        decreases old(self).kinds().len() - old(self).position(), 0int,
    {
        let ghost t = self.kinds();
        let node = match self.parse_expr() {
            Some(n) => n,
            None => return None,
        };
        let body = match self.parse_block() {
            Some(n) => n,
            None => return None,
        };
        let ghost p2 = self.position();
        let ebody = if self.consume(TokenKind::Else) {
            if self.peek(TokenKind::If) {
                match self.parse_stmt() {
                    Some(e) => Some(Box::new(e)),
                    None => return None,
                }
            } else {
                match self.parse_block() {
                    Some(e) => Some(Box::new(e)),
                    None => return None,
                }
            }
        } else {
            None
        };
        let ghost ev: Option<Box<SNode>> = match &ebody {
            Some(x) => Some(bx((**x)@)),
            None => None,
        };
        assert(p_else(t, p2) == Some((ev, self.position())));
        Some(Node::If(Box::new(node), Box::new(body), ebody))
    }

    /// Parses a `let` statement after its `let` (see [`p_let_rest`]).
    #[verifier::spinoff_prover]
    #[verifier::rlimit(60)]
    fn parse_let_rest(&mut self) -> (r: Option<Node>)
        ensures
            final(self).kinds() == old(self).kinds(),
            parsed(p_let_rest(old(self).kinds(), old(self).position()), r, final(self).position()),
            r is Some ==> old(self).position() < final(self).position() <= old(self).kinds().len(),
    {
        let ghost t = self.kinds();
        let is_mut = self.consume(TokenKind::Mut);
        let identifier = match self.identifier() {
            Some(n) => n,
            None => return None,
        };
        let ghost q1 = self.position();
        let ty = if self.consume(TokenKind::Colon) {
            match self.identifier() {
                Some(ty) => Some(ty),
                None => return None,
            }
        } else {
            None
        };
        assert(p_annotation(t, q1) == Some((opt_str_view(ty), self.position())));
        if !self.consume(TokenKind::Assign) {
            return None;
        }
        let node = match self.parse_expr_semi() {
            Some(n) => n,
            None => return None,
        };
        Some(Node::Let(identifier, ty, Box::new(node), is_mut))
    }

    /// Parses the parameters of a function after its `(` (see [`p_params`]).
    #[verifier::spinoff_prover]
    #[verifier::rlimit(60)]
    fn parse_params(&mut self) -> (r: Option<Vec<Arg>>)
        ensures
            final(self).kinds() == old(self).kinds(),
            match p_params(old(self).kinds(), old(self).position(), Seq::empty()) {
                None => r is None,
                Some((args, q)) => r matches Some(v) && v@.map_values(|a: Arg| a@) == args
                    && final(self).position() == q,
            },
            r is Some ==> old(self).position() < final(self).position() <= old(self).kinds().len(),
    {
        let ghost t = self.kinds();
        let ghost p0 = self.position();
        let mut args: Vec<Arg> = Vec::new();
        assert(args@.map_values(|a: Arg| a@) =~= Seq::<SArg>::empty());
        loop
            invariant
                self.kinds() == t,
                t == old(self).kinds(),
                p0 == old(self).position(),
                p0 <= self.position(),
                self.position() > p0 ==> self.position() <= t.len(),
                p_params(t, p0, Seq::empty()) == p_params(t, self.position(), args@.map_values(|a: Arg| a@)),
            decreases t.len() - self.position(),
        {
            if self.consume(TokenKind::RParen) {
                return Some(args);
            }
            let name = match self.identifier() {
                Some(n) => n,
                None => return None,
            };
            if !self.consume(TokenKind::Colon) {
                return None;
            }
            let ty = match self.identifier() {
                Some(n) => n,
                None => return None,
            };
            self.consume(TokenKind::Comma);
            let a = Arg { name, ty };
            let ghost before = args@;
            args.push(a);
            assert(args@.map_values(|a: Arg| a@) =~= before.map_values(|a: Arg| a@).push(a@));
        }
    }

    /// Parses a function definition after its `fn` (see [`p_function`]).
    #[verifier::spinoff_prover]
    #[verifier::rlimit(100)]
    fn parse_function(&mut self) -> (r: Option<Function>)
        ensures
            final(self).kinds() == old(self).kinds(),
            match p_function(old(self).kinds(), old(self).position()) {
                None => r is None,
                Some((f, q)) => r matches Some(x) && x@ == f && final(self).position() == q,
            },
            r is Some ==> old(self).position() < final(self).position() <= old(self).kinds().len(),
    {
        let ghost t = self.kinds();
        let name = match self.identifier() {
            Some(n) => n,
            None => return None,
        };
        if !self.consume(TokenKind::LParen) {
            return None;
        }
        let args = match self.parse_params() {
            Some(a) => a,
            None => return None,
        };
        let ghost q = self.position();
        let ty = if self.consume(TokenKind::Arrow) {
            match self.identifier() {
                Some(ty) => ty,
                None => return None,
            }
        } else {
            "void".to_owned()
        };
        assert(p_return_type(t, q) == Some((ty@, self.position())));
        let body = match self.parse_block() {
            Some(b) => b,
            None => return None,
        };
        Some(Function { name, args, body, ty, mod_name: None })
    }

    /// Parses a whole program (see [`p_program`]); `None` on a syntax error.
    #[verifier::spinoff_prover]
    #[verifier::rlimit(100)]
    pub fn try_program(&mut self) -> (r: Option<Program>)
        ensures
            final(self).kinds() == old(self).kinds(),
            match p_program(old(self).kinds(), old(self).position()) {
                None => r is None,
                Some((prog, q)) => r matches Some(x) && x@ == prog && final(self).position() == q,
            },
    {
        let ghost t = self.kinds();
        let ghost p0 = self.position();
        let mut mods: Vec<String> = Vec::new();
        let mut functions: Vec<Function> = Vec::new();
        assert(mods@.map_values(|m: String| m@) =~= Seq::<Seq<char>>::empty());
        loop
            invariant
                self.kinds() == t,
                t == old(self).kinds(),
                p0 == old(self).position(),
                p0 <= self.position(),
                self.position() > p0 ==> self.position() <= t.len(),
                p_mods(t, p0, Seq::empty()) == p_mods(t, self.position(), mods@.map_values(|m: String| m@)),
            ensures
                self.kinds() == t,
                p0 <= self.position(),
                self.position() > p0 ==> self.position() <= t.len(),
                p_mods(t, p0, Seq::empty()) == Some((mods@.map_values(|m: String| m@), self.position())),
            decreases t.len() - self.position(),
        {
            if !self.consume(TokenKind::Mod) {
                assert(p_mods(t, self.position(), mods@.map_values(|m: String| m@))
                    == Some((mods@.map_values(|m: String| m@), self.position())));
                break;
            }
            let identifier = match self.identifier() {
                Some(n) => n,
                None => return None,
            };
            if !self.consume(TokenKind::Semi) {
                return None;
            }
            let ghost before = mods@;
            mods.push(identifier);
            assert(mods@.map_values(|m: String| m@) =~= before.map_values(|m: String| m@).push(identifier@));
        }
        let ghost p1 = self.position();
        assert(p_mods(t, p0, Seq::empty()) == Some((mods@.map_values(|m: String| m@), p1)));
        assert(functions@.map_values(|f: Function| f@) =~= Seq::<SFunction>::empty());
        loop
            invariant
                self.kinds() == t,
                t == old(self).kinds(),
                p1 <= self.position(),
                p0 == old(self).position(),
                p_mods(t, p0, Seq::empty()) == Some((mods@.map_values(|m: String| m@), p1)),
                self.position() > p1 ==> self.position() <= t.len(),
                p_functions(t, p1, Seq::empty()) == p_functions(t, self.position(), functions@.map_values(|f: Function| f@)),
            ensures
                self.kinds() == t,
                p_functions(t, p1, Seq::empty()) == Some((functions@.map_values(|f: Function| f@), self.position())),
            decreases t.len() - self.position(),
        {
            if !self.consume(TokenKind::Fn) {
                assert(p_functions(t, self.position(), functions@.map_values(|f: Function| f@))
                    == Some((functions@.map_values(|f: Function| f@), self.position())));
                break;
            }
            let f = match self.parse_function() {
                Some(f) => f,
                None => return None,
            };
            let ghost before = functions@;
            functions.push(f);
            assert(functions@.map_values(|f: Function| f@) =~= before.map_values(|f: Function| f@).push(f@));
        }
        Some(Program { mods, functions })
    }

    /// Parses a whole program, where the tokens form one (see [`p_program`]).
    pub fn program(&mut self) -> (r: Program)
        requires
            p_program(old(self).kinds(), old(self).position()) is Some,
        ensures
            final(self).kinds() == old(self).kinds(),
            p_program(old(self).kinds(), old(self).position()) == Some((r@, final(self).position())),
    {
        match self.try_program() {
            Some(p) => p,
            None => Program { mods: Vec::new(), functions: Vec::new() },
        }
    }

    /// Parses an expression, where one starts at the current position (see
    /// [`p_expr`]).
    pub fn expr(&mut self) -> (r: Node)
        requires
            p_expr(old(self).kinds(), old(self).position()) is Some,
        ensures
            final(self).kinds() == old(self).kinds(),
            p_expr(old(self).kinds(), old(self).position()) == Some((r@, final(self).position())),
    {
        match self.parse_expr() {
            Some(n) => n,
            None => Node::Num(0),
        }
    }

    /// Parses a primary expression, where one starts at the current position
    /// (see [`p_primary`]).
    pub fn primary(&mut self) -> (r: Node)
        requires
            p_primary(old(self).kinds(), old(self).position()) is Some,
        ensures
            final(self).kinds() == old(self).kinds(),
            p_primary(old(self).kinds(), old(self).position()) == Some((r@, final(self).position())),
    {
        match self.parse_primary() {
            Some(n) => n,
            None => Node::Num(0),
        }
    }
}

} // verus!