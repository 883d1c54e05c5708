use vstd::prelude::*;

use crate::ast::ComparisonType;
use crate::types::{SType, Type};

verus! {

/// An analyzed program: its functions, the string literals they use, and
/// the struct and enum declarations, each list ordered by name.
#[derive(Debug)]
pub struct Program {
    pub functions: Vec<Function>,
    pub strings: Vec<String>,
    pub struct_map: Vec<(String, Vec<(String, StructField)>)>,
    pub enum_map: Vec<(String, Vec<(String, EnumVariant)>)>,
}

/// An analyzed function definition.
#[derive(PartialEq, Eq, Debug)]
pub struct Function {
    pub name: String,
    pub args: Vec<Arg>,
    pub body: Node,
    pub ty: String,
    pub mod_name: Option<String>,
}

/// A typed statement or expression.
#[derive(PartialEq, Eq, Debug)]
pub enum Node {
    Add(Box<Node>, Box<Node>, Type),
    Sub(Box<Node>, Box<Node>),
    Mul(Box<Node>, Box<Node>),
    Div(Box<Node>, Box<Node>),
    Num(i32),
    String(usize),
    Bool(bool),
    Ret(Box<Node>),
    Let(String, Type, Box<Node>, bool),
    RLet(String, Type),
    FieldAccess(Box<Node>, usize, Type),
    Assign(Box<Node>, Box<Node>),
    Call(String, Vec<Node>, Type),
    Comparison(ComparisonType, Box<Node>, Box<Node>),
    And(Box<Node>, Box<Node>, Type),
    Or(Box<Node>, Box<Node>, Type),
    If(Box<Node>, Box<Node>, Option<Box<Node>>),
    While(Box<Node>, Box<Node>),
    Break,
    Continue,
    Block(Vec<Node>),
    Not(Box<Node>),
    Struct(String, Vec<(usize, Node)>),
    Enum(String, String, Vec<Node>),
    EnumLabel(String, String, Vec<String>),
    EnumFieldAccess(Box<Node>, usize),
    Match(Box<Node>, Vec<(Node, Node)>),
    Array(Vec<Node>, Type),
    ArrayAccess(Box<Node>, Box<Node>, Type),
    Ref(Box<Node>),
    Deref(Box<Node>),
    Underscore,
}

/// A field of a struct: its type and its place among the fields.
#[derive(Debug)]
pub struct StructField {
    pub ty: Type,
    pub index: usize,
}

/// A variant of an enum: its number and the type names of its fields.
#[derive(Debug)]
pub struct EnumVariant {
    pub index: usize,
    pub types: Vec<String>,
}

/// A parameter with its type.
#[derive(PartialEq, Eq, Debug)]
pub struct Arg {
    pub name: String,
    pub ty: Type,
}

/// The model of a [`Node`].
pub enum HNode {
    Add(Box<HNode>, Box<HNode>, SType),
    Sub(Box<HNode>, Box<HNode>),
    Mul(Box<HNode>, Box<HNode>),
    Div(Box<HNode>, Box<HNode>),
    Num(i32),
    String(nat),
    Bool(bool),
    Ret(Box<HNode>),
    Let(Seq<char>, SType, Box<HNode>, bool),
    RLet(Seq<char>, SType),
    FieldAccess(Box<HNode>, nat, SType),
    Assign(Box<HNode>, Box<HNode>),
    Call(Seq<char>, Seq<HNode>, SType),
    Comparison(ComparisonType, Box<HNode>, Box<HNode>),
    And(Box<HNode>, Box<HNode>, SType),
    Or(Box<HNode>, Box<HNode>, SType),
    If(Box<HNode>, Box<HNode>, Option<Box<HNode>>),
    While(Box<HNode>, Box<HNode>),
    Break,
    Continue,
    Block(Seq<HNode>),
    Not(Box<HNode>),
    Struct(Seq<char>, Seq<(nat, HNode)>),
    Enum(Seq<char>, Seq<char>, Seq<HNode>),
    EnumLabel(Seq<char>, Seq<char>, Seq<Seq<char>>),
    EnumFieldAccess(Box<HNode>, nat),
    Match(Box<HNode>, Seq<(HNode, HNode)>),
    Array(Seq<HNode>, SType),
    ArrayAccess(Box<HNode>, Box<HNode>, SType),
    Ref(Box<HNode>),
    Deref(Box<HNode>),
    Underscore,
}

pub open spec fn hb(n: HNode) -> Box<HNode> {
    Box::new(n)
}

impl Node {
    pub open spec fn view(&self) -> HNode
        decreases self,
    {
        match self {
            Node::Add(l, r, t) => HNode::Add(hb((**l).view()), hb((**r).view()), t@),
            Node::Sub(l, r) => HNode::Sub(hb((**l).view()), hb((**r).view())),
            Node::Mul(l, r) => HNode::Mul(hb((**l).view()), hb((**r).view())),
            Node::Div(l, r) => HNode::Div(hb((**l).view()), hb((**r).view())),
            Node::Num(n) => HNode::Num(*n),
            Node::String(i) => HNode::String(*i as nat),
            Node::Bool(b) => HNode::Bool(*b),
            Node::Ret(n) => HNode::Ret(hb((**n).view())),
            Node::Let(name, t, n, m) => HNode::Let(name@, t@, hb((**n).view()), *m),
            Node::RLet(name, t) => HNode::RLet(name@, t@),
            Node::FieldAccess(n, i, t) => HNode::FieldAccess(hb((**n).view()), *i as nat, t@),
            Node::Assign(l, r) => HNode::Assign(hb((**l).view()), hb((**r).view())),
            Node::Call(name, args, t) => HNode::Call(name@, hnodes_view(args@), t@),
            Node::Comparison(c, l, r) => HNode::Comparison(*c, hb((**l).view()), hb((**r).view())),
            Node::And(l, r, t) => HNode::And(hb((**l).view()), hb((**r).view()), t@),
            Node::Or(l, r, t) => HNode::Or(hb((**l).view()), hb((**r).view()), t@),
            Node::If(c, b, e) => HNode::If(
                hb((**c).view()),
                hb((**b).view()),
                match e {
                    Some(x) => Some(hb((**x).view())),
                    None => None,
                },
            ),
            Node::While(c, b) => HNode::While(hb((**c).view()), hb((**b).view())),
            Node::Break => HNode::Break,
            Node::Continue => HNode::Continue,
            Node::Block(items) => HNode::Block(hnodes_view(items@)),
            Node::Not(n) => HNode::Not(hb((**n).view())),
            Node::Struct(name, fields) => HNode::Struct(name@, fields_view(fields@)),
            Node::Enum(name, v, args) => HNode::Enum(name@, v@, hnodes_view(args@)),
            Node::EnumLabel(name, v, fields) => HNode::EnumLabel(name@, v@, fields@.map_values(|f: String| f@)),
            Node::EnumFieldAccess(n, i) => HNode::EnumFieldAccess(hb((**n).view()), *i as nat),
            Node::Match(n, arms) => HNode::Match(hb((**n).view()), arms_view(arms@)),
            Node::Array(items, t) => HNode::Array(hnodes_view(items@), t@),
            Node::ArrayAccess(a, i, t) => HNode::ArrayAccess(hb((**a).view()), hb((**i).view()), t@),
            Node::Ref(n) => HNode::Ref(hb((**n).view())),
            Node::Deref(n) => HNode::Deref(hb((**n).view())),
            Node::Underscore => HNode::Underscore,
        }
    }
}

/// The models of a sequence of nodes.
pub open spec fn hnodes_view(s: Seq<Node>) -> Seq<HNode>
    decreases s,
{
    if s.len() == 0 {
        Seq::empty()
    } else {
        hnodes_view(s.subrange(0, s.len() - 1)).push(s[s.len() - 1].view())
    }
}

/// The models of the field initializers of a struct value.
pub open spec fn fields_view(s: Seq<(usize, Node)>) -> Seq<(nat, HNode)>
    decreases s,
{
    if s.len() == 0 {
        Seq::empty()
    } else {
        fields_view(s.subrange(0, s.len() - 1)).push((s[s.len() - 1].0 as nat, s[s.len() - 1].1.view()))
    }
}

/// The models of the arms of a match.
pub open spec fn arms_view(s: Seq<(Node, Node)>) -> Seq<(HNode, HNode)>
    decreases s,
{
    if s.len() == 0 {
        Seq::empty()
    } else {
        arms_view(s.subrange(0, s.len() - 1)).push((s[s.len() - 1].0.view(), s[s.len() - 1].1.view()))
    }
}

pub proof fn lemma_hnodes_view(s: Seq<Node>)
    ensures
        hnodes_view(s).len() == s.len(),
        forall|i: int| 0 <= i < s.len() ==> #[trigger] hnodes_view(s)[i] == s[i]@,
    decreases s.len(),
{
    if s.len() > 0 {
        lemma_hnodes_view(s.subrange(0, s.len() - 1));
    }
}

pub proof fn lemma_hnodes_view_push(s: Seq<Node>, x: Node)
    ensures
        hnodes_view(s.push(x)) == hnodes_view(s).push(x@),
{
    assert(s.push(x).subrange(0, s.len() as int) =~= s);
}

pub proof fn lemma_fields_view(s: Seq<(usize, Node)>)
    ensures
        fields_view(s).len() == s.len(),
        forall|i: int| 0 <= i < s.len() ==> #[trigger] fields_view(s)[i] == (s[i].0 as nat, s[i].1@),
    decreases s.len(),
{
    if s.len() > 0 {
        lemma_fields_view(s.subrange(0, s.len() - 1));
    }
}

pub proof fn lemma_arms_view(s: Seq<(Node, Node)>)
    ensures
        arms_view(s).len() == s.len(),
        forall|i: int| 0 <= i < s.len() ==> #[trigger] arms_view(s)[i] == (s[i].0@, s[i].1@),
    decreases s.len(),
{
    if s.len() > 0 {
        lemma_arms_view(s.subrange(0, s.len() - 1));
    }
}

/// The model of an [`Arg`].
pub struct HArg {
    pub name: Seq<char>,
    pub ty: SType,
}

impl Arg {
    pub open spec fn view(&self) -> HArg {
        HArg { name: self.name@, ty: self.ty@ }
    }
}

/// The model of a [`Function`].
pub struct HFunction {
    pub name: Seq<char>,
    pub args: Seq<HArg>,
    pub body: HNode,
    pub ty: Seq<char>,
    pub mod_name: Option<Seq<char>>,
}

/// The name a function is called by: its module's name and `::` in front
/// of its own name, where it has a module.
pub open spec fn qualified_name(mod_name: Option<Seq<char>>, name: Seq<char>) -> Seq<char> {
    match mod_name {
        Some(m) => m + "::"@ + name,
        None => name,
    }
}

impl Function {
    pub open spec fn view(&self) -> HFunction {
        HFunction {
            name: self.name@,
            args: self.args@.map_values(|a: Arg| a@),
            body: self.body@,
            ty: self.ty@,
            mod_name: match self.mod_name {
                Some(m) => Some(m@),
                None => None,
            },
        }
    }

    /// The name this function is called by (see [`qualified_name`]).
    pub fn full_name(&self) -> (r: String)
        ensures
            r@ == qualified_name(self@.mod_name, self@.name),
    {
        qualify(&self.mod_name, self.name.as_str())
    }
}

/// The name a function `name` of module `mod_name` is called by (see
/// [`qualified_name`]).
pub fn qualify(mod_name: &Option<String>, name: &str) -> (r: String)
    ensures
        r@ == qualified_name(crate::ast::opt_str_view(*mod_name), name@),
{
    let mut r = String::new();
    match mod_name {
        Some(m) => {
            r.append(m.as_str());
            r.append("::");
        },
        None => {},
    }
    r.append(name);
    assert(r@ =~= qualified_name(crate::ast::opt_str_view(*mod_name), name@));
    r
}

/// The model of a [`StructField`].
pub struct HField {
    pub ty: SType,
    pub index: nat,
}

impl StructField {
    pub open spec fn view(&self) -> HField {
        HField { ty: self.ty@, index: self.index as nat }
    }
}

/// The model of an [`EnumVariant`].
pub struct HVariant {
    pub index: nat,
    pub types: Seq<Seq<char>>,
}

impl EnumVariant {
    pub open spec fn view(&self) -> HVariant {
        HVariant { index: self.index as nat, types: self.types@.map_values(|t: String| t@) }
    }
}

/// The model of a [`Program`].
pub struct HProgram {
    pub functions: Seq<HFunction>,
    pub strings: Seq<Seq<char>>,
    pub struct_map: Seq<(Seq<char>, Seq<(Seq<char>, HField)>)>,
    pub enum_map: Seq<(Seq<char>, Seq<(Seq<char>, HVariant)>)>,
}

/// The models of the struct declarations of a program.
pub open spec fn structs_view(s: Seq<(String, Vec<(String, StructField)>)>) -> Seq<(Seq<char>, Seq<(Seq<char>, HField)>)> {
    s.map_values(|d: (String, Vec<(String, StructField)>)| (d.0@, d.1@.map_values(|f: (String, StructField)| (f.0@, f.1@))))
}

/// The models of the enum declarations of a program.
pub open spec fn enums_view(s: Seq<(String, Vec<(String, EnumVariant)>)>) -> Seq<(Seq<char>, Seq<(Seq<char>, HVariant)>)> {
    s.map_values(|d: (String, Vec<(String, EnumVariant)>)| (d.0@, d.1@.map_values(|v: (String, EnumVariant)| (v.0@, v.1@))))
}

impl Program {
    pub open spec fn view(&self) -> HProgram {
        HProgram {
            functions: self.functions@.map_values(|f: Function| f@),
            strings: self.strings@.map_values(|t: String| t@),
            struct_map: structs_view(self.struct_map@),
            enum_map: enums_view(self.enum_map@),
        }
    }
}

/// Whether one character sequence comes before another in the order of
/// `String`: by code points, a prefix first.
pub open spec fn text_less(a: Seq<char>, b: Seq<char>) -> bool
    decreases a.len(),
{
    if a.len() == 0 {
        b.len() > 0
    } else if b.len() == 0 {
        false
    } else if a[0] != b[0] {
        (a[0] as u32) < (b[0] as u32)
    } else {
        text_less(a.drop_first(), b.drop_first())
    }
}

/// Whether the names of a list are in strictly increasing order, as the
/// keys of an ordered map are.
pub open spec fn names_increasing<T>(s: Seq<(String, T)>) -> bool {
    forall|i: int, j: int| 0 <= i < j < s.len() ==> text_less((#[trigger] s[i]).0@, (#[trigger] s[j]).0@)
}

impl Program {
    /// The declarations are ordered by name, each name once.
    pub open spec fn wf(&self) -> bool {
        &&& names_increasing(self.struct_map@)
        &&& forall|i: int| 0 <= i < self.struct_map@.len() ==> names_increasing(#[trigger] self.struct_map@[i].1@)
        &&& names_increasing(self.enum_map@)
        &&& forall|i: int| 0 <= i < self.enum_map@.len() ==> names_increasing(#[trigger] self.enum_map@[i].1@)
    }
}

} // verus!
