use vstd::prelude::*;

use crate::ast::ComparisonType;
use crate::hir::{
    EnumVariant, Function, HArg, HFunction, HNode, HProgram, HVariant, Node, Program, hnodes_view, lemma_hnodes_view, qualified_name,
};
use crate::scope::{ScopeMap, bind, lookup};
use crate::semantic::function::strs;
use crate::text::{copy_string, int_text, nat_text, push_int, push_nat, str_eq};
use crate::types::{SType, Type, type_text};

verus! {

/// Why code cannot be generated for a program.
#[derive(Debug)]
pub enum CodegenError {
    /// A variable is read or assigned that no parameter or `let` defined.
    UndefinedVariable(String),
    /// An enum value names an enum or a variant that is not declared.
    UnknownVariant(String, String),
    /// A `break` or `continue` stands outside every loop.
    OutsideLoop,
    /// A function whose type is not `void` has no `return`.
    MissingReturn,
    /// A node that has no translation, or an assignment to something that
    /// is not a variable.
    Unsupported,
    /// The registers or labels of a function ran out.
    Overflow,
}

/// The model of a [`CodegenError`].
pub enum GErr {
    UndefinedVariable(Seq<char>),
    UnknownVariant(Seq<char>, Seq<char>),
    OutsideLoop,
    MissingReturn,
    Unsupported,
    Overflow,
}

impl CodegenError {
    pub open spec fn view(&self) -> GErr {
        match self {
            CodegenError::UndefinedVariable(n) => GErr::UndefinedVariable(n@),
            CodegenError::UnknownVariant(a, b) => GErr::UnknownVariant(a@, b@),
            CodegenError::OutsideLoop => GErr::OutsideLoop,
            CodegenError::MissingReturn => GErr::MissingReturn,
            CodegenError::Unsupported => GErr::Unsupported,
            CodegenError::Overflow => GErr::Overflow,
        }
    }
}

/// A generated value: the operand that denotes it, and its type.
pub struct GValue {
    pub name: Seq<char>,
    pub ty: SType,
}

/// What the generation of a function carries from node to node: the lines
/// written so far, the next register and label numbers, the variables with
/// the registers that hold their addresses, whether a `ret` was met, whether
/// the current block ended in a jump, and the labels of the loop around.
#[verifier::ext_equal]
pub struct GState {
    pub out: Seq<Seq<char>>,
    pub index: nat,
    pub label: nat,
    pub vars: Map<Seq<char>, GValue>,
    pub has_return: bool,
    pub terminated: bool,
    pub next_start: Option<Seq<char>>,
    pub next_end: Option<Seq<char>>,
}

/// The outcome of generating code for a node: its value and the state
/// after it, or the lines written before the failure and why it failed.
pub type GRes = Result<(GValue, GState), (Seq<Seq<char>>, GErr)>;

/// The outcome of generating code with no value to give.
pub type GOut = Result<GState, (Seq<Seq<char>>, GErr)>;

/// The enum declarations that an enum value is looked up in.
pub type EnumTable = Seq<(Seq<char>, Seq<(Seq<char>, HVariant)>)>;

/// The name of register `k`.
pub open spec fn reg_name(k: nat) -> Seq<char> {
    "%r"@ + nat_text(k)
}

/// A value with no operand, as statements give.
pub open spec fn no_value() -> GValue {
    GValue { name: Seq::empty(), ty: SType::Int }
}

pub open spec fn emit(s: GState, line: Seq<char>) -> GState {
    GState { out: s.out.push(line), ..s }
}

pub open spec fn fail(s: GState, e: GErr) -> GRes {
    Err((s.out, e))
}

pub open spec fn fail_out(s: GState, e: GErr) -> GOut {
    Err((s.out, e))
}

/// A fresh register that receives `rest`: the line `  %rK = rest`.
pub open spec fn reg_line(s: GState, rest: Seq<char>, ty: SType) -> GRes {
    if s.index >= u64::MAX {
        fail(s, GErr::Overflow)
    } else {
        Ok((
            GValue { name: reg_name(s.index), ty },
            emit(GState { index: s.index + 1, ..s }, "  "@ + reg_name(s.index) + " = "@ + rest),
        ))
    }
}

/// The `icmp` condition of a comparison.
pub open spec fn cmp_op(c: ComparisonType) -> Seq<char> {
    match c {
        ComparisonType::Eq => "eq"@,
        ComparisonType::Ne => "ne"@,
        ComparisonType::Gt => "sgt"@,
        ComparisonType::Ge => "sge"@,
        ComparisonType::Lt => "slt"@,
        ComparisonType::Le => "sle"@,
    }
}

/// Whether the LLVM `icmp` condition `cond` holds of the signed integers `a`
/// and `b`, as the LLVM reference defines its conditions.
pub open spec fn icmp_holds(cond: Seq<char>, a: int, b: int) -> bool {
    if cond == "eq"@ {
        a == b
    } else if cond == "ne"@ {
        a != b
    } else if cond == "sgt"@ {
        a > b
    } else if cond == "sge"@ {
        a >= b
    } else if cond == "slt"@ {
        a < b
    } else if cond == "sle"@ {
        a <= b
    } else {
        false
    }
}

/// The instruction of a node with two operands.
pub open spec fn bin_op(n: HNode) -> Seq<char> {
    match n {
        HNode::Add(..) => "add"@,
        HNode::Sub(..) => "sub"@,
        HNode::Mul(..) => "mul"@,
        HNode::Div(..) => "sdiv"@,
        HNode::Comparison(c, _, _) => "icmp "@ + cmp_op(c),
        HNode::And(..) => "and"@,
        HNode::Or(..) => "or"@,
        _ => "extractvalue"@,
    }
}

/// The operand type written in the instruction of a node with two operands,
/// `lt` being the type of its left operand.
pub open spec fn bin_operand_ty(n: HNode, lt: SType) -> SType {
    match n {
        HNode::Add(_, _, t) => t,
        HNode::Comparison(..) => SType::Int,
        HNode::And(_, _, t) => t,
        HNode::Or(_, _, t) => t,
        _ => lt,
    }
}

/// The type of the value of a node with two operands.
pub open spec fn bin_result_ty(n: HNode, lt: SType) -> SType {
    match n {
        HNode::Comparison(..) => SType::Int,
        HNode::And(_, _, t) => t,
        HNode::Or(_, _, t) => t,
        HNode::ArrayAccess(_, _, t) => t,
        _ => lt,
    }
}

/// The texts `TYPE NAME` of call arguments.
pub open spec fn arg_texts(vs: Seq<GValue>) -> Seq<Seq<char>> {
    vs.map_values(|v: GValue| type_text(v.ty) + " "@ + v.name)
}

/// The parts joined by `sep`.
pub open spec fn join(parts: Seq<Seq<char>>, sep: Seq<char>) -> Seq<char>
    decreases parts.len(),
{
    if parts.len() == 0 {
        Seq::empty()
    } else if parts.len() == 1 {
        parts[0]
    } else {
        join(parts.drop_last(), sep) + sep + parts.last()
    }
}

/// The entry for `name` in a list of named entries, the first if there are several.
pub open spec fn find_named<T>(s: Seq<(Seq<char>, T)>, name: Seq<char>) -> Option<T>
    decreases s.len(),
{
    if s.len() == 0 {
        None
    } else if s[0].0 == name {
        Some(s[0].1)
    } else {
        find_named(s.subrange(1, s.len() as int), name)
    }
}

/// The number of a variant of an enum.
pub open spec fn enum_index(e: EnumTable, name: Seq<char>, variant: Seq<char>) -> Option<nat> {
    match find_named(e, name) {
        None => None,
        Some(vs) => match find_named(vs, variant) {
            None => None,
            Some(v) => Some(v.index),
        },
    }
}

/// The code for a node: the value it gives and the state after it.
pub open spec fn g(e: EnumTable, s: GState, n: HNode) -> GRes
    decreases n, 2int,
{
    match n {
        HNode::Add(..) | HNode::Sub(..) | HNode::Mul(..) | HNode::Div(..) | HNode::Comparison(..)
        | HNode::And(..) | HNode::Or(..) | HNode::ArrayAccess(..) => g_bin(e, s, n),
        HNode::FieldAccess(v, i, t) => match g(e, s, *v) {
            Err(x) => Err(x),
            Ok((rv, s1)) => reg_line(s1, "extractvalue "@ + type_text(rv.ty) + " "@ + rv.name + ", "@ + nat_text(i), t),
        },
        HNode::Not(v) => match g(e, s, *v) {
            Err(x) => Err(x),
            Ok((rv, s1)) => reg_line(s1, "xor i1 "@ + rv.name + ", 1"@, SType::Bool),
        },
        HNode::Num(v) => Ok((GValue { name: int_text(v as int), ty: SType::Int }, s)),
        HNode::String(id) => Ok((GValue { name: "@.str."@ + nat_text(id), ty: SType::Ptr(Box::new(SType::Int)) }, s)),
        HNode::Bool(b) => Ok((GValue { name: if b { "1"@ } else { "0"@ }, ty: SType::Bool }, s)),
        HNode::Ret(v) => match g(e, GState { has_return: true, ..s }, *v) {
            Err(x) => Err(x),
            Ok((rv, s1)) => Ok((
                GValue { name: Seq::empty(), ty: rv.ty },
                emit(GState { terminated: true, ..s1 }, "  ret "@ + type_text(rv.ty) + " "@ + rv.name),
            )),
        },
        HNode::Call(name, args, t) => match g_seq(e, s, args) {
            Err(x) => Err(x),
            Ok((vs, s1)) => reg_line(
                s1,
                "call "@ + type_text(t) + " @\""@ + name + "\"("@ + join(arg_texts(vs), ", "@) + ")"@,
                t,
            ),
        },
        HNode::Let(name, t, v, _) => match g(e, s, *v) {
            Err(x) => Err(x),
            Ok((rv, s1)) => if s1.index >= u64::MAX {
                fail(s1, GErr::Overflow)
            } else {
                Ok((rv, GState {
                    out: s1.out.push("  "@ + reg_name(s1.index) + " = alloca "@ + type_text(t)).push(
                        "  store "@ + type_text(t) + " "@ + rv.name + ", ptr "@ + reg_name(s1.index),
                    ),
                    index: s1.index + 1,
                    vars: s1.vars.insert(name, GValue { name: reg_name(s1.index), ty: SType::Ptr(Box::new(t)) }),
                    ..s1
                }))
            },
        },
        HNode::RLet(name, t) => if s.index >= u64::MAX {
            fail(s, GErr::Overflow)
        } else if !s.vars.contains_key(name) {
            fail(s, GErr::UndefinedVariable(name))
        } else {
            reg_line(s, "load "@ + type_text(t) + ", ptr "@ + s.vars[name].name, t)
        },
        HNode::Assign(lhs, v) => match g(e, s, *v) {
            Err(x) => Err(x),
            Ok((rv, s1)) => match *lhs {
                HNode::RLet(name, _) => if s1.vars.contains_key(name) {
                    Ok((rv, emit(s1, "  store "@ + type_text(rv.ty) + " "@ + rv.name + ", ptr "@ + s1.vars[name].name)))
                } else {
                    fail(s1, GErr::UndefinedVariable(name))
                },
                _ => fail(s1, GErr::Unsupported),
            },
        },
        HNode::If(..) => g_if(e, s, n),
        HNode::While(..) => g_while(e, s, n),
        HNode::Break => match s.next_end {
            None => fail(s, GErr::OutsideLoop),
            Some(l) => Ok((no_value(), emit(GState { terminated: true, ..s }, "  br label %"@ + l))),
        },
        HNode::Continue => match s.next_start {
            None => fail(s, GErr::OutsideLoop),
            Some(l) => Ok((no_value(), emit(GState { terminated: true, ..s }, "  br label %"@ + l))),
        },
        HNode::Block(items) => match g_seq(e, s, items) {
            Err(x) => Err(x),
            Ok((_, s1)) => Ok((no_value(), s1)),
        },
        HNode::Struct(..) => g_struct(e, s, n),
        HNode::Enum(name, variant, _) => match enum_index(e, name, variant) {
            None => fail(s, GErr::UnknownVariant(name, variant)),
            Some(i) => Ok((GValue { name: nat_text(i), ty: SType::Int }, s)),
        },
        HNode::Match(..) => g_match(e, s, n),
        HNode::Array(..) => g_array(e, s, n),
        _ => fail(s, GErr::Unsupported),
    }
}

/// The code for a node with two operands: the left one, the right one,
/// then one instruction.
pub open spec fn g_bin(e: EnumTable, s: GState, n: HNode) -> GRes
    decreases n, 1int,
{
    match n {
        HNode::Add(l, r, _) | HNode::Sub(l, r) | HNode::Mul(l, r) | HNode::Div(l, r) | HNode::Comparison(_, l, r)
        | HNode::And(l, r, _) | HNode::Or(l, r, _) | HNode::ArrayAccess(l, r, _) => match g(e, s, *l) {
            Err(x) => Err(x),
            Ok((lv, s1)) => match g(e, s1, *r) {
                Err(x) => Err(x),
                Ok((rv, s2)) => reg_line(
                    s2,
                    bin_op(n) + " "@ + type_text(bin_operand_ty(n, lv.ty)) + " "@ + lv.name + ", "@ + rv.name,
                    bin_result_ty(n, lv.ty),
                ),
            },
        },
        _ => fail(s, GErr::Unsupported),
    }
}

/// The code for a sequence of nodes, first to last, with their values.
pub open spec fn g_seq(e: EnumTable, s: GState, items: Seq<HNode>) -> Result<(Seq<GValue>, GState), (Seq<Seq<char>>, GErr)>
    decreases items, 1int,
{
    if items.len() == 0 {
        Ok((Seq::empty(), s))
    } else {
        match g(e, s, items[0]) {
            Err(x) => Err(x),
            Ok((v, s1)) => match g_seq(e, s1, items.subrange(1, items.len() as int)) {
                Err(x) => Err(x),
                Ok((vs, s2)) => Ok((seq![v] + vs, s2)),
            },
        }
    }
}

/// The label line that ends an `if`, unless the code before it jumped away.
pub open spec fn if_tail(s: GState, k: nat) -> GState {
    if s.terminated {
        s
    } else {
        emit(s, "ifafter_"@ + nat_text(k) + ":"@)
    }
}

/// A jump to `target`, unless the code before it jumped away.
pub open spec fn jump_unless_terminated(s: GState, target: Seq<char>) -> GState {
    if s.terminated {
        s
    } else {
        emit(s, "  br label %"@ + target)
    }
}

/// The code for an `if`.
pub open spec fn g_if(e: EnumTable, s: GState, n: HNode) -> GRes
    decreases n, 1int,
{
    match n {
        HNode::If(c, b, eb) => match g(e, s, *c) {
            Err(x) => Err(x),
            Ok((cv, s1)) => if s1.label >= u64::MAX {
                fail(s1, GErr::Overflow)
            } else {
                let k = s1.label;
                let s2 = emit(
                    GState { label: k + 1, ..s1 },
                    "  br i1 "@ + cv.name + ", label %if_"@ + nat_text(k)
                        + (if eb is Some { ", label %else_"@ } else { ", label %ifafter_"@ }) + nat_text(k),
                );
                let s3 = emit(GState { terminated: false, ..s2 }, "if_"@ + nat_text(k) + ":"@);
                match g(e, s3, *b) {
                    Err(x) => Err(x),
                    Ok((_, s4)) => {
                        let s5 = jump_unless_terminated(s4, "ifafter_"@ + nat_text(k));
                        let s6 = GState { terminated: false, ..s5 };
                        match eb {
                            None => Ok((no_value(), if_tail(s6, k))),
                            Some(x) => match g(e, emit(s6, "else_"@ + nat_text(k) + ":"@), *x) {
                                Err(err) => Err(err),
                                Ok((_, s7)) => Ok((
                                    no_value(),
                                    if_tail(jump_unless_terminated(s7, "ifafter_"@ + nat_text(k)), k),
                                )),
                            },
                        }
                    },
                }
            },
        },
        _ => fail(s, GErr::Unsupported),
    }
}

/// The code for a `while` loop.
pub open spec fn g_while(e: EnumTable, s: GState, n: HNode) -> GRes
    decreases n, 1int,
{
    match n {
        HNode::While(c, b) => {
            let s1 = emit(s, "  ; while"@);
            if s1.label >= u64::MAX {
                fail(s1, GErr::Overflow)
            } else {
                let k = s1.label;
                let s2 = emit(
                    emit(GState { label: k + 1, ..s1 }, "  br label %cond_"@ + nat_text(k)),
                    "cond_"@ + nat_text(k) + ":"@,
                );
                match g(e, s2, *c) {
                    Err(x) => Err(x),
                    Ok((cv, s3)) => {
                        let s4 = emit(
                            emit(
                                s3,
                                "  br i1 "@ + cv.name + ", label %while_"@ + nat_text(k) + ", label%whileend_"@
                                    + nat_text(k),
                            ),
                            "while_"@ + nat_text(k) + ":"@,
                        );
                        let s5 = GState {
                            next_start: Some("cond_"@ + nat_text(k)),
                            next_end: Some("whileend_"@ + nat_text(k)),
                            ..s4
                        };
                        match g(e, s5, *b) {
                            Err(x) => Err(x),
                            Ok((_, s6)) => Ok((
                                no_value(),
                                emit(jump_unless_terminated(s6, "cond_"@ + nat_text(k)), "whileend_"@ + nat_text(k) + ":"@),
                            )),
                        }
                    },
                }
            }
        },
        _ => fail(s, GErr::Unsupported),
    }
}

/// The code for a struct value: its storage, each field stored in it, then
/// the load of the whole.
pub open spec fn g_struct(e: EnumTable, s: GState, n: HNode) -> GRes
    decreases n, 1int,
{
    match n {
        HNode::Struct(name, fields) => if s.index >= u64::MAX {
            fail(s, GErr::Overflow)
        } else {
            let k = s.index;
            let s1 = emit(GState { index: k + 1, ..s }, "  "@ + reg_name(k) + " = alloca %"@ + name);
            match g_fields(e, s1, name, k, fields) {
                Err(x) => Err(x),
                Ok(s2) => reg_line(s2, "load %"@ + name + ", ptr "@ + reg_name(k), SType::Struct(name)),
            }
        },
        _ => fail(s, GErr::Unsupported),
    }
}

/// The code that stores each field value of a struct whose storage is in
/// register `base`.
pub open spec fn g_fields(e: EnumTable, s: GState, name: Seq<char>, base: nat, fields: Seq<(nat, HNode)>) -> GOut
    decreases fields, 1int,
{
    if fields.len() == 0 {
        Ok(s)
    } else {
        match g(e, s, fields[0].1) {
            Err(x) => Err(x),
            Ok((rv, s1)) => if s1.index >= u64::MAX {
                fail_out(s1, GErr::Overflow)
            } else {
                let f = s1.index;
                let s2 = emit(
                    emit(
                        GState { index: f + 1, ..s1 },
                        "  "@ + reg_name(f) + " = getelementptr %"@ + name + ", ptr "@ + reg_name(base) + ", i32 0, i32 "@
                            + nat_text(fields[0].0),
                    ),
                    "  store "@ + type_text(rv.ty) + " "@ + rv.name + ", ptr "@ + reg_name(f),
                );
                g_fields(e, s2, name, base, fields.subrange(1, fields.len() as int))
            },
        }
    }
}

/// The code for an array value: its storage, each element stored in it,
/// then the load of the whole.
pub open spec fn g_array(e: EnumTable, s: GState, n: HNode) -> GRes
    decreases n, 1int,
{
    match n {
        HNode::Array(items, t) => if s.index >= u64::MAX {
            fail(s, GErr::Overflow)
        } else {
            let k = s.index;
            let aty = SType::Array(Box::new(t), items.len());
            let s1 = emit(GState { index: k + 1, ..s }, "  "@ + reg_name(k) + " = alloca "@ + type_text(aty));
            match g_elems(e, s1, type_text(aty), k, items, 0) {
                Err(x) => Err(x),
                Ok(s2) => reg_line(
                    s2,
                    "load ["@ + nat_text(items.len()) + " x i32], ptr "@ + reg_name(k),
                    SType::Array(Box::new(SType::Int), items.len()),
                ),
            }
        },
        _ => fail(s, GErr::Unsupported),
    }
}

/// The code that stores each element of an array, the first at place `i`,
/// whose storage of type `aty` is in register `base`.
pub open spec fn g_elems(e: EnumTable, s: GState, aty: Seq<char>, base: nat, items: Seq<HNode>, i: nat) -> GOut
    decreases items, 1int,
{
    if items.len() == 0 {
        Ok(s)
    } else {
        match g(e, s, items[0]) {
            Err(x) => Err(x),
            Ok((rv, s1)) => if s1.index >= u64::MAX {
                fail_out(s1, GErr::Overflow)
            } else {
                let f = s1.index;
                let s2 = emit(
                    emit(
                        GState { index: f + 1, ..s1 },
                        "  "@ + reg_name(f) + " = getelementptr "@ + aty + ", ptr "@ + reg_name(base) + ", i32 0, i32 "@
                            + nat_text(i),
                    ),
                    "  store "@ + type_text(rv.ty) + " "@ + rv.name + ", ptr "@ + reg_name(f),
                );
                g_elems(e, s2, aty, base, items.subrange(1, items.len() as int), i + 1)
            },
        }
    }
}

/// The label of arm `i` of the switch numbered `k`.
pub open spec fn arm_label(k: nat, i: nat) -> Seq<char> {
    "switch_"@ + nat_text(k) + "_"@ + nat_text(i)
}

/// The code for a `match`: the scrutinee, the value of each arm's pattern,
/// the switch, then each arm's block.
pub open spec fn g_match(e: EnumTable, s: GState, n: HNode) -> GRes
    decreases n, 1int,
{
    match n {
        HNode::Match(v, arms) => match g(e, s, *v) {
            Err(x) => Err(x),
            Ok((lv, s1)) => if s1.label >= u64::MAX {
                fail(s1, GErr::Overflow)
            } else {
                let k = s1.label;
                match g_conds(e, GState { label: k + 1, ..s1 }, k, arms, 0) {
                    Err(x) => Err(x),
                    Ok((texts, s3)) => {
                        let s4 = emit(
                            emit(
                                emit(
                                    s3,
                                    "  switch "@ + type_text(lv.ty) + " "@ + lv.name + ", label %switch_"@ + nat_text(k)
                                        + "_default ["@ + join(texts, " "@) + "]"@,
                                ),
                                "switch_"@ + nat_text(k) + "_default:"@,
                            ),
                            "  unreachable"@,
                        );
                        match g_arms(e, s4, k, arms, 0) {
                            Err(x) => Err(x),
                            Ok(s5) => Ok((
                                GValue { name: "testtest"@, ty: SType::Int },
                                emit(s5, "switch_"@ + nat_text(k) + "_after:"@),
                            )),
                        }
                    },
                }
            },
        },
        _ => fail(s, GErr::Unsupported),
    }
}

/// The values of the patterns of the arms, the first being arm `i`, each
/// as a switch case `TYPE VALUE, label %LABEL`.
pub open spec fn g_conds(e: EnumTable, s: GState, k: nat, arms: Seq<(HNode, HNode)>, i: nat) -> Result<(Seq<Seq<char>>, GState), (Seq<Seq<char>>, GErr)>
    decreases arms, 1int,
{
    if arms.len() == 0 {
        Ok((Seq::empty(), s))
    } else {
        match g(e, s, arms[0].0) {
            Err(x) => Err(x),
            Ok((cv, s1)) => match g_conds(e, s1, k, arms.subrange(1, arms.len() as int), i + 1) {
                Err(x) => Err(x),
                Ok((texts, s2)) => Ok((
                    seq![type_text(cv.ty) + " "@ + cv.name + ", label %"@ + arm_label(k, i)] + texts,
                    s2,
                )),
            },
        }
    }
}

/// The blocks of the arms, the first being arm `i`, each under its label
/// and followed by a jump past the switch.
pub open spec fn g_arms(e: EnumTable, s: GState, k: nat, arms: Seq<(HNode, HNode)>, i: nat) -> GOut
    decreases arms, 1int,
{
    if arms.len() == 0 {
        Ok(s)
    } else {
        match g(e, emit(s, arm_label(k, i) + ":"@), arms[0].1) {
            Err(x) => Err(x),
            Ok((_, s1)) => g_arms(
                e,
                emit(s1, "  br label %switch_"@ + nat_text(k) + "_after"@),
                k,
                arms.subrange(1, arms.len() as int),
                i + 1,
            ),
        }
    }
}

/// The length in bytes of the UTF-8 encoding of a text.
pub open spec fn byte_len(v: Seq<char>) -> nat {
    (vstd::utf8::encode_utf8(v).len() as usize) as nat
}

/// The declaration of string literal number `k`.
pub open spec fn string_line(k: nat, v: Seq<char>) -> Seq<char> {
    "@.str."@ + nat_text(k) + " = private unnamed_addr constant ["@ + nat_text(byte_len(v) + 1) + " x i8] c\""@ + v
        + "\\00\""@
}

/// The declaration of a struct type: its field types in the order of the
/// field names.
pub open spec fn struct_line(d: (Seq<char>, Seq<(Seq<char>, crate::hir::HField)>)) -> Seq<char> {
    "%"@ + d.0 + " = type {"@ + join(d.1.map_values(|f: (Seq<char>, crate::hir::HField)| type_text(f.1.ty)), ","@) + "}"@
}

/// The lines before the functions: the string literals, the struct types
/// and the declaration of `printf`.
pub open spec fn header_lines(p: HProgram) -> Seq<Seq<char>> {
    Seq::new(p.strings.len(), |k: int| string_line(k as nat, p.strings[k]))
        + p.struct_map.map_values(|d: (Seq<char>, Seq<(Seq<char>, crate::hir::HField)>)| struct_line(d))
        + seq!["declare i32 @printf(ptr, ...)"@]
}

/// The state at the start of a function, after the lines `out`.
pub open spec fn start_state(out: Seq<Seq<char>>) -> GState {
    GState {
        out,
        index: 0,
        label: 0,
        vars: Map::empty(),
        has_return: false,
        terminated: false,
        next_start: None,
        next_end: None,
    }
}

/// The parameters, each given two registers: the one it arrives in and the
/// one that holds its address. Gives the state, the parameter list texts
/// and the lines that store the parameters.
pub open spec fn g_params(s: GState, args: Seq<HArg>, regs: Seq<Seq<char>>, entry: Seq<Seq<char>>) -> Result<(GState, Seq<Seq<char>>, Seq<Seq<char>>), (Seq<Seq<char>>, GErr)>
    decreases args.len(),
{
    if args.len() == 0 {
        Ok((s, regs, entry))
    } else if s.index + 1 >= u64::MAX {
        Err((s.out, GErr::Overflow))
    } else {
        let a = args[0];
        let ar = s.index;
        let r = s.index + 1;
        g_params(
            GState {
                index: s.index + 2,
                vars: s.vars.insert(a.name, GValue { name: reg_name(r), ty: SType::Ptr(Box::new(a.ty)) }),
                ..s
            },
            args.subrange(1, args.len() as int),
            regs.push(type_text(a.ty) + " "@ + reg_name(ar)),
            entry.push("  "@ + reg_name(r) + " = alloca "@ + type_text(a.ty)).push(
                "  store "@ + type_text(a.ty) + " "@ + reg_name(ar) + ", ptr "@ + reg_name(r),
            ),
        )
    }
}

/// The return type written in a function's definition.
pub open spec fn ret_text(f: HFunction) -> Seq<char> {
    if f.name == "main"@ {
        "i32"@
    } else {
        f.ty
    }
}

/// The code for a function, after the lines `out`: all the lines, or the
/// lines written before the failure and why it failed.
pub open spec fn gen_function(e: EnumTable, f: HFunction, out: Seq<Seq<char>>) -> Result<Seq<Seq<char>>, (Seq<Seq<char>>, GErr)> {
    match g_params(start_state(out), f.args, Seq::empty(), Seq::empty()) {
        Err(x) => Err(x),
        Ok((s1, regs, entry)) => {
            let head = "define "@ + ret_text(f) + " @\""@ + qualified_name(f.mod_name, f.name) + "\"("@
                + join(regs, ", "@) + ") {"@;
            let s2 = GState { out: s1.out.push(head).push("entry:"@) + entry, ..s1 };
            match g(e, s2, f.body) {
                Err(x) => Err(x),
                Ok((_, s3)) => if s3.has_return {
                    Ok(s3.out.push("}"@))
                } else if f.ty != "void"@ {
                    Err((s3.out, GErr::MissingReturn))
                } else if f.name == "main"@ {
                    Ok(s3.out.push("  ret i32 0"@).push("}"@))
                } else {
                    Ok(s3.out.push("  ret void"@).push("}"@))
                },
            }
        },
    }
}

/// The code for the functions `fs[i..]`, each after an empty line.
pub open spec fn gen_functions(e: EnumTable, fs: Seq<HFunction>, i: int, out: Seq<Seq<char>>) -> Result<Seq<Seq<char>>, (Seq<Seq<char>>, GErr)>
    decreases fs.len() - i,
{
    if i < 0 || i >= fs.len() {
        Ok(out)
    } else {
        match gen_function(e, fs[i], out.push(Seq::empty())) {
            Err(x) => Err(x),
            Ok(o) => gen_functions(e, fs, i + 1, o),
        }
    }
}

/// The LLVM module for a program: all its lines, or the lines written
/// before the failure and why it failed.
pub open spec fn gen_program(p: HProgram) -> Result<Seq<Seq<char>>, (Seq<Seq<char>>, GErr)> {
    gen_functions(p.enum_map, p.functions, 0, header_lines(p))
}

/// Whether the lines `b` begin with the lines `a`.
pub open spec fn extends(a: Seq<Seq<char>>, b: Seq<Seq<char>>) -> bool {
    a.len() <= b.len() && forall|i: int| 0 <= i < a.len() ==> #[trigger] b[i] == a[i]
}

/// Whether the state `s1` comes after `s`: the lines written stay as they
/// were, and the register and label counters have not gone back.
pub open spec fn advanced(s: GState, s1: GState) -> bool {
    extends(s.out, s1.out) && s.index <= s1.index && s.label <= s1.label
}

/// Whether an outcome comes after `s`: the lines written before it stay,
/// and on success the counters have not gone back.
pub open spec fn res_advanced(s: GState, r: GRes) -> bool {
    match r {
        Ok((_, s1)) => advanced(s, s1),
        Err((out, _)) => extends(s.out, out),
    }
}

pub open spec fn out_advanced(s: GState, r: GOut) -> bool {
    match r {
        Ok(s1) => advanced(s, s1),
        Err((out, _)) => extends(s.out, out),
    }
}

pub open spec fn seq_advanced<T>(s: GState, r: Result<(T, GState), (Seq<Seq<char>>, GErr)>) -> bool {
    match r {
        Ok((_, s1)) => advanced(s, s1),
        Err((out, _)) => extends(s.out, out),
    }
}

/// Code generation only ever adds lines after those already written, and
/// its register and label counters never go back: each register and each
/// label is defined once.
pub proof fn lemma_g_advances(e: EnumTable, s: GState, n: HNode)
    ensures
        res_advanced(s, g(e, s, n)),
    decreases n, 2int,
{
    match n {
        HNode::Add(..) | HNode::Sub(..) | HNode::Mul(..) | HNode::Div(..) | HNode::Comparison(..)
        | HNode::And(..) | HNode::Or(..) | HNode::ArrayAccess(..) => lemma_g_bin_advances(e, s, n),
        HNode::FieldAccess(v, _, _) => lemma_g_advances(e, s, *v),
        HNode::Not(v) => lemma_g_advances(e, s, *v),
        HNode::Ret(v) => lemma_g_advances(e, GState { has_return: true, ..s }, *v),
        HNode::Call(_, args, _) => lemma_g_seq_advances(e, s, args),
        HNode::Let(_, _, v, _) => lemma_g_advances(e, s, *v),
        HNode::Assign(_, v) => lemma_g_advances(e, s, *v),
        HNode::If(..) => lemma_g_if_advances(e, s, n),
        HNode::While(..) => lemma_g_while_advances(e, s, n),
        HNode::Block(items) => lemma_g_seq_advances(e, s, items),
        HNode::Struct(..) => lemma_g_struct_advances(e, s, n),
        HNode::Match(..) => lemma_g_match_advances(e, s, n),
        HNode::Array(..) => lemma_g_array_advances(e, s, n),
        _ => {},
    }
}

proof fn lemma_g_bin_advances(e: EnumTable, s: GState, n: HNode)
    ensures
        res_advanced(s, g_bin(e, s, n)),
    decreases n, 1int,
{
    match n {
        HNode::Add(l, r, _) | HNode::Sub(l, r) | HNode::Mul(l, r) | HNode::Div(l, r) | HNode::Comparison(_, l, r)
        | HNode::And(l, r, _) | HNode::Or(l, r, _) | HNode::ArrayAccess(l, r, _) => {
            lemma_g_advances(e, s, *l);
            if let Ok((_, s1)) = g(e, s, *l) {
                lemma_g_advances(e, s1, *r);
            }
        },
        _ => {},
    }
}

proof fn lemma_g_seq_advances(e: EnumTable, s: GState, items: Seq<HNode>)
    ensures
        seq_advanced(s, g_seq(e, s, items)),
    decreases items, 1int,
{
    if items.len() > 0 {
        lemma_g_advances(e, s, items[0]);
        if let Ok((_, s1)) = g(e, s, items[0]) {
            lemma_g_seq_advances(e, s1, items.subrange(1, items.len() as int));
        }
    }
}

proof fn lemma_g_if_advances(e: EnumTable, s: GState, n: HNode)
    ensures
        res_advanced(s, g_if(e, s, n)),
    decreases n, 1int,
{
    if let HNode::If(c, b, eb) = n {
        lemma_g_advances(e, s, *c);
        if let Ok((cv, s1)) = g(e, s, *c) {
            if s1.label < u64::MAX {
                let k = s1.label;
                let s2 = emit(
                    GState { label: k + 1, ..s1 },
                    "  br i1 "@ + cv.name + ", label %if_"@ + nat_text(k)
                        + (if eb is Some { ", label %else_"@ } else { ", label %ifafter_"@ }) + nat_text(k),
                );
                let s3 = emit(GState { terminated: false, ..s2 }, "if_"@ + nat_text(k) + ":"@);
                lemma_g_advances(e, s3, *b);
                if let Ok((_, s4)) = g(e, s3, *b) {
                    let s5 = jump_unless_terminated(s4, "ifafter_"@ + nat_text(k));
                    let s6 = GState { terminated: false, ..s5 };
                    if let Some(x) = eb {
                        lemma_g_advances(e, emit(s6, "else_"@ + nat_text(k) + ":"@), *x);
                    }
                }
            }
        }
    }
}

proof fn lemma_g_while_advances(e: EnumTable, s: GState, n: HNode)
    ensures
        res_advanced(s, g_while(e, s, n)),
    decreases n, 1int,
{
    if let HNode::While(c, b) = n {
        let s1 = emit(s, "  ; while"@);
        if s1.label < u64::MAX {
            let k = s1.label;
            let s2 = emit(
                emit(GState { label: k + 1, ..s1 }, "  br label %cond_"@ + nat_text(k)),
                "cond_"@ + nat_text(k) + ":"@,
            );
            lemma_g_advances(e, s2, *c);
            if let Ok((cv, s3)) = g(e, s2, *c) {
                let s4 = emit(
                    emit(
                        s3,
                        "  br i1 "@ + cv.name + ", label %while_"@ + nat_text(k) + ", label%whileend_"@ + nat_text(k),
                    ),
                    "while_"@ + nat_text(k) + ":"@,
                );
                let s5 = GState {
                    next_start: Some("cond_"@ + nat_text(k)),
                    next_end: Some("whileend_"@ + nat_text(k)),
                    ..s4
                };
                lemma_g_advances(e, s5, *b);
            }
        }
    }
}

proof fn lemma_g_struct_advances(e: EnumTable, s: GState, n: HNode)
    ensures
        res_advanced(s, g_struct(e, s, n)),
    decreases n, 1int,
{
    if let HNode::Struct(name, fields) = n {
        if s.index < u64::MAX {
            let k = s.index;
            let s1 = emit(GState { index: k + 1, ..s }, "  "@ + reg_name(k) + " = alloca %"@ + name);
            lemma_g_fields_advances(e, s1, name, k, fields);
        }
    }
}

proof fn lemma_g_fields_advances(e: EnumTable, s: GState, name: Seq<char>, base: nat, fields: Seq<(nat, HNode)>)
    ensures
        out_advanced(s, g_fields(e, s, name, base, fields)),
    decreases fields, 1int,
{
    if fields.len() > 0 {
        lemma_g_advances(e, s, fields[0].1);
        if let Ok((rv, s1)) = g(e, s, fields[0].1) {
            if s1.index < u64::MAX {
                let f = s1.index;
                let s2 = emit(
                    emit(
                        GState { index: f + 1, ..s1 },
                        "  "@ + reg_name(f) + " = getelementptr %"@ + name + ", ptr "@ + reg_name(base) + ", i32 0, i32 "@
                            + nat_text(fields[0].0),
                    ),
                    "  store "@ + type_text(rv.ty) + " "@ + rv.name + ", ptr "@ + reg_name(f),
                );
                lemma_g_fields_advances(e, s2, name, base, fields.subrange(1, fields.len() as int));
            }
        }
    }
}

proof fn lemma_g_array_advances(e: EnumTable, s: GState, n: HNode)
    ensures
        res_advanced(s, g_array(e, s, n)),
    decreases n, 1int,
{
    if let HNode::Array(items, t) = n {
        if s.index < u64::MAX {
            let k = s.index;
            let aty = SType::Array(Box::new(t), items.len());
            let s1 = emit(GState { index: k + 1, ..s }, "  "@ + reg_name(k) + " = alloca "@ + type_text(aty));
            lemma_g_elems_advances(e, s1, type_text(aty), k, items, 0);
        }
    }
}

proof fn lemma_g_elems_advances(e: EnumTable, s: GState, aty: Seq<char>, base: nat, items: Seq<HNode>, i: nat)
    ensures
        out_advanced(s, g_elems(e, s, aty, base, items, i)),
    decreases items, 1int,
{
    if items.len() > 0 {
        lemma_g_advances(e, s, items[0]);
        if let Ok((rv, s1)) = g(e, s, items[0]) {
            if s1.index < u64::MAX {
                let f = s1.index;
                let s2 = emit(
                    emit(
                        GState { index: f + 1, ..s1 },
                        "  "@ + reg_name(f) + " = getelementptr "@ + aty + ", ptr "@ + reg_name(base) + ", i32 0, i32 "@
                            + nat_text(i),
                    ),
                    "  store "@ + type_text(rv.ty) + " "@ + rv.name + ", ptr "@ + reg_name(f),
                );
                lemma_g_elems_advances(e, s2, aty, base, items.subrange(1, items.len() as int), i + 1);
            }
        }
    }
}

proof fn lemma_g_match_advances(e: EnumTable, s: GState, n: HNode)
    ensures
        res_advanced(s, g_match(e, s, n)),
    decreases n, 1int,
{
    if let HNode::Match(v, arms) = n {
        lemma_g_advances(e, s, *v);
        if let Ok((lv, s1)) = g(e, s, *v) {
            if s1.label < u64::MAX {
                let k = s1.label;
                lemma_g_conds_advances(e, GState { label: k + 1, ..s1 }, k, arms, 0);
                if let Ok((texts, s3)) = g_conds(e, GState { label: k + 1, ..s1 }, k, arms, 0) {
                    let s4 = emit(
                        emit(
                            emit(
                                s3,
                                "  switch "@ + type_text(lv.ty) + " "@ + lv.name + ", label %switch_"@ + nat_text(k)
                                    + "_default ["@ + join(texts, " "@) + "]"@,
                            ),
                            "switch_"@ + nat_text(k) + "_default:"@,
                        ),
                        "  unreachable"@,
                    );
                    lemma_g_arms_advances(e, s4, k, arms, 0);
                }
            }
        }
    }
}

proof fn lemma_g_conds_advances(e: EnumTable, s: GState, k: nat, arms: Seq<(HNode, HNode)>, i: nat)
    ensures
        seq_advanced(s, g_conds(e, s, k, arms, i)),
    decreases arms, 1int,
{
    if arms.len() > 0 {
        lemma_g_advances(e, s, arms[0].0);
        if let Ok((_, s1)) = g(e, s, arms[0].0) {
            lemma_g_conds_advances(e, s1, k, arms.subrange(1, arms.len() as int), i + 1);
        }
    }
}

proof fn lemma_g_arms_advances(e: EnumTable, s: GState, k: nat, arms: Seq<(HNode, HNode)>, i: nat)
    ensures
        out_advanced(s, g_arms(e, s, k, arms, i)),
    decreases arms, 1int,
{
    if arms.len() > 0 {
        let s0 = emit(s, arm_label(k, i) + ":"@);
        lemma_g_advances(e, s0, arms[0].1);
        if let Ok((_, s1)) = g(e, s0, arms[0].1) {
            lemma_g_arms_advances(
                e,
                emit(s1, "  br label %switch_"@ + nat_text(k) + "_after"@),
                k,
                arms.subrange(1, arms.len() as int),
                i + 1,
            );
        }
    }
}

proof fn lemma_g_params_keeps_out(s: GState, args: Seq<HArg>, regs: Seq<Seq<char>>, entry: Seq<Seq<char>>)
    ensures
        match g_params(s, args, regs, entry) {
            Ok((s1, _, _)) => s1.out == s.out && s.index <= s1.index && s1.label == s.label,
            Err((out, _)) => out == s.out,
        },
    decreases args.len(),
{
    if args.len() > 0 && s.index + 1 < u64::MAX {
        let a = args[0];
        let r = s.index + 1;
        lemma_g_params_keeps_out(
            GState {
                index: s.index + 2,
                vars: s.vars.insert(a.name, GValue { name: reg_name(r), ty: SType::Ptr(Box::new(a.ty)) }),
                ..s
            },
            args.subrange(1, args.len() as int),
            regs.push(type_text(a.ty) + " "@ + reg_name(s.index)),
            entry.push("  "@ + reg_name(r) + " = alloca "@ + type_text(a.ty)).push(
                "  store "@ + type_text(a.ty) + " "@ + reg_name(s.index) + ", ptr "@ + reg_name(r),
            ),
        );
    }
}

/// The code for a function comes after the lines before it, which stay as
/// they were, whether it succeeds or not.
pub proof fn lemma_gen_function_extends(e: EnumTable, f: HFunction, out: Seq<Seq<char>>)
    ensures
        match gen_function(e, f, out) {
            Ok(o) => extends(out, o),
            Err((o, _)) => extends(out, o),
        },
{
    lemma_g_params_keeps_out(start_state(out), f.args, Seq::empty(), Seq::empty());
    if let Ok((s1, regs, entry)) = g_params(start_state(out), f.args, Seq::empty(), Seq::empty()) {
        let head = "define "@ + ret_text(f) + " @\""@ + qualified_name(f.mod_name, f.name) + "\"("@ + join(regs, ", "@)
            + ") {"@;
        let s2 = GState { out: s1.out.push(head).push("entry:"@) + entry, ..s1 };
        assert(extends(out, s2.out));
        lemma_g_advances(e, s2, f.body);
    }
}

proof fn lemma_gen_functions_extends(e: EnumTable, fs: Seq<HFunction>, i: int, out: Seq<Seq<char>>)
    ensures
        match gen_functions(e, fs, i, out) {
            Ok(o) => extends(out, o),
            Err((o, _)) => extends(out, o),
        },
    decreases fs.len() - i,
{
    if 0 <= i < fs.len() {
        lemma_gen_function_extends(e, fs[i], out.push(Seq::empty()));
        if let Ok(o) = gen_function(e, fs[i], out.push(Seq::empty())) {
            lemma_gen_functions_extends(e, fs, i + 1, o);
        }
    }
}

/// Every module begins with the declarations of the string literals, the
/// struct types and `printf`, whether the code for the functions can be
/// generated or not.
pub proof fn lemma_program_starts_with_header(p: HProgram)
    ensures
        match gen_program(p) {
            Ok(o) => extends(header_lines(p), o),
            Err((o, _)) => extends(header_lines(p), o),
        },
{
    lemma_gen_functions_extends(p.enum_map, p.functions, 0, header_lines(p));
}

/// The condition written for each comparison tests that comparison: it
/// holds of two signed integers exactly when the comparison does.
pub proof fn lemma_cmp_op_means(c: ComparisonType)
    ensures
        forall|a: int, b: int| #[trigger] icmp_holds(cmp_op(c), a, b) == crate::ast::compares(c, a, b),
{
    reveal_strlit("eq");
    reveal_strlit("ne");
    reveal_strlit("sgt");
    reveal_strlit("sge");
    reveal_strlit("slt");
    reveal_strlit("sle");
    match c {
        ComparisonType::Eq => {},
        ComparisonType::Ne => {
            assert("ne"@[0] != "eq"@[0]);
        },
        ComparisonType::Gt => {
            assert("sgt"@.len() != "eq"@.len() && "sgt"@.len() != "ne"@.len());
        },
        ComparisonType::Ge => {
            assert("sge"@.len() != "eq"@.len() && "sge"@.len() != "ne"@.len());
            assert("sge"@[2] != "sgt"@[2]);
        },
        ComparisonType::Lt => {
            assert("slt"@.len() != "eq"@.len() && "slt"@.len() != "ne"@.len());
            assert("slt"@[1] != "sgt"@[1] && "slt"@[1] != "sge"@[1]);
        },
        ComparisonType::Le => {
            assert("sle"@.len() != "eq"@.len() && "sle"@.len() != "ne"@.len());
            assert("sle"@[1] != "sgt"@[1] && "sle"@[1] != "sge"@[1] && "sle"@[2] != "slt"@[2]);
        },
    }
}

/// Division that rounds toward zero, as both the source language's `/` and
/// LLVM's `sdiv` do.
pub open spec fn trunc_div(a: int, b: int) -> int {
    let q = (if a >= 0 { a } else { -a }) / (if b >= 0 { b } else { -b });
    if (a >= 0) == (b >= 0) {
        q
    } else {
        -q
    }
}

/// What the LLVM arithmetic instruction `op` computes from `a` and `b`, as the
/// LLVM reference defines it (ignoring wrapping).
pub open spec fn llvm_arith(op: Seq<char>, a: int, b: int) -> Option<int> {
    if op == "add"@ {
        Some(a + b)
    } else if op == "sub"@ {
        Some(a - b)
    } else if op == "mul"@ {
        Some(a * b)
    } else if op == "sdiv"@ {
        Some(trunc_div(a, b))
    } else {
        None
    }
}

/// What an arithmetic node of the source computes from its operands' values.
pub open spec fn source_arith(n: HNode, a: int, b: int) -> Option<int> {
    match n {
        HNode::Add(..) => Some(a + b),
        HNode::Sub(..) => Some(a - b),
        HNode::Mul(..) => Some(a * b),
        HNode::Div(..) => Some(trunc_div(a, b)),
        _ => None,
    }
}

/// Each arithmetic node is generated as the LLVM instruction that computes
/// the same operation of its operands.
pub proof fn lemma_arith_op_means(n: HNode)
    requires
        n is Add || n is Sub || n is Mul || n is Div,
    ensures
        forall|a: int, b: int| #[trigger] llvm_arith(bin_op(n), a, b) == source_arith(n, a, b),
{
    reveal_strlit("add");
    reveal_strlit("sub");
    reveal_strlit("mul");
    reveal_strlit("sdiv");
    assert("sub"@[0] != "add"@[0]);
    assert("mul"@[0] != "add"@[0] && "mul"@[0] != "sub"@[0]);
    assert("sdiv"@.len() != "add"@.len() && "sdiv"@.len() != "sub"@.len() && "sdiv"@.len() != "mul"@.len());
}

/// A comparison is generated as the one `icmp` instruction that tests it:
/// after the code for its two operands, the line `%rK = icmp COND i32 L, R`
/// whose condition holds of two integers exactly when the source comparison
/// does (so `>` is the strict `sgt`, false of equal numbers).
#[verifier::spinoff_prover]
#[verifier::rlimit(40)]
pub proof fn lemma_comparison_instruction(e: EnumTable, s: GState, c: ComparisonType, l: HNode, r: HNode)
    ensures
        match g(e, s, l) {
            Ok((lv, s1)) => match g(e, s1, r) {
                Ok((rv, _)) => match g(e, s, HNode::Comparison(c, Box::new(l), Box::new(r))) {
                    Ok((v, s3)) => exists|cond: Seq<char>|
                        s3.out.last() == "  "@ + v.name + " = "@ + ("icmp "@ + cond) + " "@ + "i32"@ + " "@ + lv.name + ", "@
                            + rv.name && forall|a: int, b: int| #[trigger] icmp_holds(cond, a, b)
                            == crate::ast::compares(c, a, b),
                    Err(_) => true,
                },
                Err(_) => true,
            },
            Err(_) => true,
        },
{
    lemma_cmp_op_means(c);
    let n = HNode::Comparison(c, Box::new(l), Box::new(r));
    assert(g(e, s, n) == g_bin(e, s, n));
    assert(bin_op(n) == "icmp "@ + cmp_op(c));
    assert(type_text(bin_operand_ty(n, SType::Int)) == "i32"@);
}

/// A generated value: the operand that denotes it, and its type.
struct Value {
    name: String,
    ty: Type,
}

impl Value {
    spec fn view(&self) -> GValue {
        GValue { name: self.name@, ty: self.ty@ }
    }
}

spec fn values_view(v: Seq<Value>) -> Seq<GValue> {
    v.map_values(|x: Value| x@)
}

spec fn opt_view(o: Option<String>) -> Option<Seq<char>> {
    match o {
        Some(s) => Some(s@),
        None => None,
    }
}

/// The variables of a generator's map: the bindings of its one scope.
spec fn vars_of(m: Seq<Map<Seq<char>, Value>>) -> Map<Seq<char>, GValue> {
    if m.len() > 0 {
        m[0].map_values(|v: Value| v@)
    } else {
        Map::empty()
    }
}

proof fn lemma_vars_bind(m: Seq<Map<Seq<char>, Value>>, k: Seq<char>, v: Value)
    requires
        m.len() == 1,
    ensures
        bind(m, k, v).len() == 1,
        vars_of(bind(m, k, v)) == vars_of(m).insert(k, v@),
{
    assert(m[0].insert(k, v).map_values(|x: Value| x@) =~= m[0].map_values(|x: Value| x@).insert(k, v@));
}

proof fn lemma_vars_lookup(m: Seq<Map<Seq<char>, Value>>, k: Seq<char>)
    requires
        m.len() == 1,
    ensures
        match lookup(m, k) {
            Some(v) => vars_of(m).contains_key(k) && vars_of(m)[k] == v@,
            None => !vars_of(m).contains_key(k),
        },
{
    assert(lookup(m.drop_last(), k) is None);
}

/// Whether a generator result is what the model gives, `st` being the state after it.
spec fn produced(spec: GRes, r: Result<Value, CodegenError>, st: GState) -> bool {
    match spec {
        Ok((v, s1)) => r matches Ok(x) && x@ == v && st == s1,
        Err((out, e)) => r matches Err(x) && x@ == e && st.out == out,
    }
}

/// Whether a generator result with no value is what the model gives.
spec fn produced_out(spec: GOut, r: Result<(), CodegenError>, st: GState) -> bool {
    match spec {
        Ok(s1) => r is Ok && st == s1,
        Err((out, e)) => r matches Err(x) && x@ == e && st.out == out,
    }
}

/// Whether a result for a sequence of nodes is what [`g_seq`] gives.
spec fn produced_seq(spec: Result<(Seq<GValue>, GState), (Seq<Seq<char>>, GErr)>, r: Result<Vec<Value>, CodegenError>, st: GState) -> bool {
    match spec {
        Ok((vs, s1)) => r matches Ok(x) && values_view(x@) == vs && st == s1,
        Err((out, e)) => r matches Err(x) && x@ == e && st.out == out,
    }
}

/// Whether a result for the patterns of a match is what [`g_conds`] gives.
spec fn produced_conds(spec: Result<(Seq<Seq<char>>, GState), (Seq<Seq<char>>, GErr)>, r: Result<Vec<String>, CodegenError>, st: GState) -> bool {
    match spec {
        Ok((ts, s1)) => r matches Ok(x) && strs(x@) == ts && st == s1,
        Err((out, e)) => r matches Err(x) && x@ == e && st.out == out,
    }
}

spec fn values_then(done: Seq<GValue>, r: Result<(Seq<GValue>, GState), (Seq<Seq<char>>, GErr)>) -> Result<(Seq<GValue>, GState), (Seq<Seq<char>>, GErr)> {
    match r {
        Ok((vs, s)) => Ok((done + vs, s)),
        Err(x) => Err(x),
    }
}

spec fn texts_then(done: Seq<Seq<char>>, r: Result<(Seq<Seq<char>>, GState), (Seq<Seq<char>>, GErr)>) -> Result<(Seq<Seq<char>>, GState), (Seq<Seq<char>>, GErr)> {
    match r {
        Ok((ts, s)) => Ok((done + ts, s)),
        Err(x) => Err(x),
    }
}

proof fn lemma_join_push(parts: Seq<Seq<char>>, x: Seq<char>, sep: Seq<char>)
    ensures
        join(parts.push(x), sep) == if parts.len() == 0 { x } else { join(parts, sep) + sep + x },
{
    assert(parts.push(x).drop_last() =~= parts);
}

/// The name of register `k`.
fn reg_text(k: u64) -> (s: String)
    ensures
        s@ == reg_name(k as nat),
{
    let mut s = String::new();
    s.append("%r");
    push_nat(&mut s, k as u128);
    s
}

/// The decimal notation of `k`.
fn num_text(k: u64) -> (s: String)
    ensures
        s@ == nat_text(k as nat),
{
    let mut s = String::new();
    push_nat(&mut s, k as u128);
    assert(s@ =~= nat_text(k as nat));
    s
}

/// The `icmp` condition of a comparison.
fn cmp_str(c: &ComparisonType) -> (s: &'static str)
    ensures
        s@ == cmp_op(*c),
{
    match c {
        ComparisonType::Eq => "eq",
        ComparisonType::Ne => "ne",
        ComparisonType::Gt => "sgt",
        ComparisonType::Ge => "sge",
        ComparisonType::Lt => "slt",
        ComparisonType::Le => "sle",
    }
}

/// The texts joined by `sep`.
fn join_texts(texts: &Vec<String>, sep: &str) -> (s: String)
    ensures
        s@ == join(strs(texts@), sep@),
{
    let mut s = String::new();
    let mut i: usize = 0;
    while i < texts.len()
        invariant
            i <= texts@.len(),
            s@ == join(strs(texts@.take(i as int)), sep@),
        decreases texts.len() - i,
    {
        proof {
            lemma_join_push(strs(texts@.take(i as int)), texts@[i as int]@, sep@);
            assert(strs(texts@.take(i + 1)) =~= strs(texts@.take(i as int)).push(texts@[i as int]@));
        }
        if i > 0 {
            s.append(sep);
        }
        s.append(texts[i].as_str());
        i = i + 1;
    }
    assert(texts@.take(texts@.len() as int) =~= texts@);
    s
}

/// The texts `TYPE NAME` of call arguments.
fn arg_text_list(vs: &Vec<Value>) -> (r: Vec<String>)
    ensures
        strs(r@) == arg_texts(values_view(vs@)),
{
    let mut r: Vec<String> = Vec::new();
    let mut i: usize = 0;
    while i < vs.len()
        invariant
            i <= vs@.len(),
            strs(r@) == arg_texts(values_view(vs@.take(i as int))),
        decreases vs.len() - i,
    {
        let mut t = vs[i].ty.to_text();
        t.append(" ");
        t.append(vs[i].name.as_str());
        let ghost before = r@;
        r.push(t);
        proof {
            assert(vs@.take(i + 1) =~= vs@.take(i as int).push(vs@[i as int]));
            assert(strs(r@) =~= strs(before).push(t@));
            assert(arg_texts(values_view(vs@.take(i + 1))) =~= arg_texts(values_view(vs@.take(i as int))).push(t@));
        }
        i = i + 1;
    }
    assert(vs@.take(vs@.len() as int) =~= vs@);
    r
}

/// The first entry of `v` named `name`.
fn find_first<T>(v: &Vec<(String, T)>, name: &str) -> (r: Option<usize>)
    ensures
        match r {
            Some(j) => j < v@.len() && v@[j as int].0@ == name@
                && forall|m: int| 0 <= m < j ==> (#[trigger] v@[m]).0@ != name@,
            None => forall|m: int| 0 <= m < v@.len() ==> (#[trigger] v@[m]).0@ != name@,
        },
{
    let mut j: usize = 0;
    while j < v.len()
        invariant
            j <= v@.len(),
            forall|m: int| 0 <= m < j ==> (#[trigger] v@[m]).0@ != name@,
        decreases v.len() - j,
    {
        if str_eq(v[j].0.as_str(), name) {
            return Some(j);
        }
        j = j + 1;
    }
    None
}

proof fn lemma_find_named<T>(s: Seq<(Seq<char>, T)>, name: Seq<char>, j: int)
    requires
        0 <= j < s.len(),
        s[j].0 == name,
        forall|m: int| 0 <= m < j ==> (#[trigger] s[m]).0 != name,
    ensures
        find_named(s, name) == Some(s[j].1),
    decreases j,
{
    if j > 0 {
        let t = s.subrange(1, s.len() as int);
        assert(s[0].0 != name);
        assert forall|m: int| 0 <= m < j - 1 implies (#[trigger] t[m]).0 != name by {
            assert(t[m] == s[m + 1]);
        }
        lemma_find_named(t, name, j - 1);
    }
}

proof fn lemma_find_named_none<T>(s: Seq<(Seq<char>, T)>, name: Seq<char>)
    requires
        forall|m: int| 0 <= m < s.len() ==> (#[trigger] s[m]).0 != name,
    ensures
        find_named(s, name) is None,
    decreases s.len(),
{
    if s.len() > 0 {
        let t = s.subrange(1, s.len() as int);
        assert(s[0].0 != name);
        assert forall|m: int| 0 <= m < t.len() implies (#[trigger] t[m]).0 != name by {
            assert(t[m] == s[m + 1]);
        }
        lemma_find_named_none(t, name);
    }
}

/// The generation of one function.
struct GenerateFunction<'a> {
    lines: Vec<String>,
    index: u64,
    label: u64,
    map: ScopeMap<Value>,
    enum_map: &'a Vec<(String, Vec<(String, EnumVariant)>)>,
    has_return: bool,
    terminated: bool,
    next_start_label: Option<String>,
    next_end_label: Option<String>,
}

impl<'a> GenerateFunction<'a> {
    spec fn state(&self) -> GState {
        GState {
            out: strs(self.lines@),
            index: self.index as nat,
            label: self.label as nat,
            vars: vars_of(self.map@),
            has_return: self.has_return,
            terminated: self.terminated,
            next_start: opt_view(self.next_start_label),
            next_end: opt_view(self.next_end_label),
        }
    }

    spec fn enums(&self) -> EnumTable {
        crate::hir::enums_view(self.enum_map@)
    }

    /// The variables live in the one scope of the map.
    spec fn wf(&self) -> bool {
        self.map@.len() == 1
    }

    fn emit_line(&mut self, line: String)
        ensures
            final(self).state() == emit(old(self).state(), line@),
            final(self).map@ == old(self).map@,
            final(self).enum_map == old(self).enum_map,
    {
        let ghost before = self.lines@;
        self.lines.push(line);
        assert(strs(self.lines@) =~= strs(before).push(line@));
        assert(self.state() =~= emit(old(self).state(), line@));
    }

    /// A jump to `target`, unless the code before it jumped away.
    fn jump_unless_terminated(&mut self, target: &String)
        ensures
            final(self).state() == jump_unless_terminated(old(self).state(), target@),
            final(self).map@ == old(self).map@,
            final(self).enum_map == old(self).enum_map,
    {
        if !self.terminated {
            let mut line = String::new();
            line.append("  br label %");
            line.append(target.as_str());
            self.emit_line(line);
        }
    }

    /// The next register.
    fn fresh_reg(&mut self) -> (r: Result<u64, CodegenError>)
        ensures
            final(self).map@ == old(self).map@,
            final(self).enum_map == old(self).enum_map,
            old(self).index >= u64::MAX ==> (r matches Err(e) && e@ == GErr::Overflow && final(self).state() == old(self).state()),
            old(self).index < u64::MAX ==> r == Ok::<u64, CodegenError>(old(self).index)
                && final(self).state() == (GState { index: (old(self).index + 1) as nat, ..old(self).state() }),
    {
        if self.index == u64::MAX {
            return Err(CodegenError::Overflow);
        }
        let k = self.index;
        self.index = self.index + 1;
        assert(self.state() =~= (GState { index: (old(self).index + 1) as nat, ..old(self).state() }));
        Ok(k)
    }

    /// The next label number.
    fn fresh_label(&mut self) -> (r: Result<u64, CodegenError>)
        ensures
            final(self).map@ == old(self).map@,
            final(self).enum_map == old(self).enum_map,
            old(self).label >= u64::MAX ==> (r matches Err(e) && e@ == GErr::Overflow && final(self).state() == old(self).state()),
            old(self).label < u64::MAX ==> r == Ok::<u64, CodegenError>(old(self).label)
                && final(self).state() == (GState { label: (old(self).label + 1) as nat, ..old(self).state() }),
    {
        if self.label == u64::MAX {
            return Err(CodegenError::Overflow);
        }
        let k = self.label;
        self.label = self.label + 1;
        assert(self.state() =~= (GState { label: (old(self).label + 1) as nat, ..old(self).state() }));
        Ok(k)
    }

    /// A fresh register that receives `rest` (see [`reg_line`]).
    fn reg_line(&mut self, rest: String, ty: Type) -> (r: Result<Value, CodegenError>)
        ensures
            final(self).map@ == old(self).map@,
            final(self).enum_map == old(self).enum_map,
            produced(reg_line(old(self).state(), rest@, ty@), r, final(self).state()),
    {
        let k = match self.fresh_reg() {
            Ok(k) => k,
            Err(e) => return Err(e),
        };
        let name = reg_text(k);
        let mut line = String::new();
        line.append("  ");
        line.append(name.as_str());
        line.append(" = ");
        line.append(rest.as_str());
        assert(line@ =~= "  "@ + reg_name(k as nat) + " = "@ + rest@);
        self.emit_line(line);
        Ok(Value { name, ty })
    }

    /// The code for a node (see [`g`]).
    #[verifier::spinoff_prover]
    #[verifier::rlimit(60)]
    fn gen_node(&mut self, node: &Node) -> (r: Result<Value, CodegenError>)
        requires
            old(self).wf(),
        ensures
            final(self).wf(),
            final(self).enum_map == old(self).enum_map,
            produced(g(old(self).enums(), old(self).state(), node@), r, final(self).state()),
        decreases node, 2int,
    {
        match node {
            Node::Add(..) | Node::Sub(..) | Node::Mul(..) | Node::Div(..) | Node::Comparison(..) | Node::And(..)
            | Node::Or(..) | Node::ArrayAccess(..) => self.gen_bin(node),
            Node::FieldAccess(..) | Node::Not(..) => self.gen_unary(node),
            Node::Num(n) => {
                let mut name = String::new();
                push_int(&mut name, *n as i64);
                assert(name@ =~= int_text(*n as int));
                Ok(Value { name, ty: Type::Int })
            },
            Node::String(id) => {
                let mut name = String::new();
                name.append("@.str.");
                push_nat(&mut name, *id as u128);
                assert(name@ =~= "@.str."@ + nat_text(*id as nat));
                Ok(Value { name, ty: Type::Ptr(Box::new(Type::Int)) })
            },
            Node::Bool(b) => {
                let mut name = String::new();
                if *b {
                    name.append("1");
                } else {
                    name.append("0");
                }
                assert(name@ =~= if *b { "1"@ } else { "0"@ });
                Ok(Value { name, ty: Type::Bool })
            },
            Node::Ret(..) => self.gen_ret(node),
            Node::Call(..) => self.gen_call(node),
            Node::Let(..) => self.gen_let(node),
            Node::RLet(name, t) => self.gen_rlet(name, t),
            Node::Assign(..) => self.gen_assign(node),
            Node::If(..) => self.gen_if(node),
            Node::While(..) => self.gen_while(node),
            Node::Break | Node::Continue => self.gen_jump(node),
            Node::Block(items) => {
                match self.gen_seq(items) {
                    Ok(_) => {
                        let v = Value { name: String::new(), ty: Type::Int };
                        assert(v@ == no_value());
                        Ok(v)
                    },
                    Err(e) => Err(e),
                }
            },
            Node::Struct(..) => self.gen_struct(node),
            Node::Enum(name, variant, _) => self.gen_enum(name, variant),
            Node::Match(..) => self.gen_match(node),
            Node::Array(..) => self.gen_array(node),
            _ => Err(CodegenError::Unsupported),
        }
    }

    /// The code for a node with two operands (see [`g_bin`]).
    #[verifier::spinoff_prover]
    #[verifier::rlimit(60)]
    fn gen_bin(&mut self, node: &Node) -> (r: Result<Value, CodegenError>)
        requires
            old(self).wf(),
        ensures
            final(self).wf(),
            final(self).enum_map == old(self).enum_map,
            produced(g_bin(old(self).enums(), old(self).state(), node@), r, final(self).state()),
        decreases node, 1int,
    {
        match node {
            Node::Add(l, r, _) | Node::Sub(l, r) | Node::Mul(l, r) | Node::Div(l, r) | Node::Comparison(_, l, r)
            | Node::And(l, r, _) | Node::Or(l, r, _) | Node::ArrayAccess(l, r, _) => {
                let lv = match self.gen_node(l) {
                    Ok(v) => v,
                    Err(e) => return Err(e),
                };
                let rv = match self.gen_node(r) {
                    Ok(v) => v,
                    Err(e) => return Err(e),
                };
                let mut rest = String::new();
                let operand_ty: &Type = match node {
                    Node::Add(_, _, t) => {
                        rest.append("add");
                        t
                    },
                    Node::Sub(..) => {
                        rest.append("sub");
                        &lv.ty
                    },
                    Node::Mul(..) => {
                        rest.append("mul");
                        &lv.ty
                    },
                    Node::Div(..) => {
                        rest.append("sdiv");
                        &lv.ty
                    },
                    Node::Comparison(c, _, _) => {
                        rest.append("icmp ");
                        rest.append(cmp_str(c));
                        &Type::Int
                    },
                    Node::And(_, _, t) => {
                        rest.append("and");
                        t
                    },
                    Node::Or(_, _, t) => {
                        rest.append("or");
                        t
                    },
                    _ => {
                        rest.append("extractvalue");
                        &lv.ty
                    },
                };
                assert(rest@ =~= bin_op(node@));
                assert(operand_ty@ == bin_operand_ty(node@, lv@.ty));
                rest.append(" ");
                operand_ty.write_text(&mut rest);
                rest.append(" ");
                rest.append(lv.name.as_str());
                rest.append(", ");
                rest.append(rv.name.as_str());
                assert(rest@ =~= bin_op(node@) + " "@ + type_text(bin_operand_ty(node@, lv@.ty)) + " "@ + lv@.name
                    + ", "@ + rv@.name);
                let result_ty = match node {
                    Node::Comparison(..) => Type::Int,
                    Node::And(_, _, t) | Node::Or(_, _, t) | Node::ArrayAccess(_, _, t) => t.copy(),
                    _ => lv.ty.copy(),
                };
                self.reg_line(rest, result_ty)
            },
            _ => Err(CodegenError::Unsupported),
        }
    }

    /// The code for a field read or a negation.
    #[verifier::spinoff_prover]
    fn gen_unary(&mut self, node: &Node) -> (r: Result<Value, CodegenError>)
        requires
            old(self).wf(),
            node is FieldAccess || node is Not,
        ensures
            final(self).wf(),
            final(self).enum_map == old(self).enum_map,
            produced(g(old(self).enums(), old(self).state(), node@), r, final(self).state()),
        decreases node, 1int,
    {
        match node {
            Node::FieldAccess(v, i, t) => {
                let rv = match self.gen_node(v) {
                    Ok(x) => x,
                    Err(e) => return Err(e),
                };
                let mut rest = String::new();
                rest.append("extractvalue ");
                rv.ty.write_text(&mut rest);
                rest.append(" ");
                rest.append(rv.name.as_str());
                rest.append(", ");
                push_nat(&mut rest, *i as u128);
                assert(rest@ =~= "extractvalue "@ + type_text(rv@.ty) + " "@ + rv@.name + ", "@ + nat_text(*i as nat));
                self.reg_line(rest, t.copy())
            },
            Node::Not(v) => {
                let rv = match self.gen_node(v) {
                    Ok(x) => x,
                    Err(e) => return Err(e),
                };
                let mut rest = String::new();
                rest.append("xor i1 ");
                rest.append(rv.name.as_str());
                rest.append(", 1");
                assert(rest@ =~= "xor i1 "@ + rv@.name + ", 1"@);
                self.reg_line(rest, Type::Bool)
            },
            _ => Err(CodegenError::Unsupported),
        }
    }

    /// The code for a `return`.
    #[verifier::spinoff_prover]
    fn gen_ret(&mut self, node: &Node) -> (r: Result<Value, CodegenError>)
        requires
            old(self).wf(),
            node is Ret,
        ensures
            final(self).wf(),
            final(self).enum_map == old(self).enum_map,
            produced(g(old(self).enums(), old(self).state(), node@), r, final(self).state()),
        decreases node, 1int,
    {
        match node {
            Node::Ret(v) => {
                self.has_return = true;
                assert(self.state() =~= (GState { has_return: true, ..old(self).state() }));
                let rv = match self.gen_node(v) {
                    Ok(x) => x,
                    Err(e) => return Err(e),
                };
                self.terminated = true;
                let mut line = String::new();
                line.append("  ret ");
                rv.ty.write_text(&mut line);
                line.append(" ");
                line.append(rv.name.as_str());
                assert(line@ =~= "  ret "@ + type_text(rv@.ty) + " "@ + rv@.name);
                self.emit_line(line);
                Ok(Value { name: String::new(), ty: rv.ty })
            },
            _ => Err(CodegenError::Unsupported),
        }
    }

    /// The code for a `break` or a `continue`.
    #[verifier::spinoff_prover]
    fn gen_jump(&mut self, node: &Node) -> (r: Result<Value, CodegenError>)
        requires
            old(self).wf(),
            node is Break || node is Continue,
        ensures
            final(self).wf(),
            final(self).enum_map == old(self).enum_map,
            produced(g(old(self).enums(), old(self).state(), node@), r, final(self).state()),
    {
        let target = match node {
            Node::Break => match &self.next_end_label {
                Some(l) => copy_string(l),
                None => return Err(CodegenError::OutsideLoop),
            },
            _ => match &self.next_start_label {
                Some(l) => copy_string(l),
                None => return Err(CodegenError::OutsideLoop),
            },
        };
        self.terminated = true;
        let mut line = String::new();
        line.append("  br label %");
        line.append(target.as_str());
        self.emit_line(line);
        Ok(Value { name: String::new(), ty: Type::Int })
    }

    /// The code for reading a variable.
    #[verifier::spinoff_prover]
    fn gen_rlet(&mut self, name: &String, t: &Type) -> (r: Result<Value, CodegenError>)
        requires
            old(self).wf(),
        ensures
            final(self).wf(),
            final(self).enum_map == old(self).enum_map,
            produced(g(old(self).enums(), old(self).state(), HNode::RLet(name@, t@)), r, final(self).state()),
    {
        if self.index == u64::MAX {
            return Err(CodegenError::Overflow);
        }
        proof { lemma_vars_lookup(self.map@, name@); }
        let mut rest = String::new();
        match self.map.get(name.as_str()) {
            Some(v) => {
                rest.append("load ");
                t.write_text(&mut rest);
                rest.append(", ptr ");
                rest.append(v.name.as_str());
            },
            None => return Err(CodegenError::UndefinedVariable(copy_string(name))),
        }
        assert(rest@ =~= "load "@ + type_text(t@) + ", ptr "@ + self.state().vars[name@].name);
        self.reg_line(rest, t.copy())
    }

    /// The code for an assignment.
    #[verifier::spinoff_prover]
    fn gen_assign(&mut self, node: &Node) -> (r: Result<Value, CodegenError>)
        requires
            old(self).wf(),
            node is Assign,
        ensures
            final(self).wf(),
            final(self).enum_map == old(self).enum_map,
            produced(g(old(self).enums(), old(self).state(), node@), r, final(self).state()),
        decreases node, 1int,
    {
        match node {
            Node::Assign(lhs, v) => {
                let rv = match self.gen_node(v) {
                    Ok(x) => x,
                    Err(e) => return Err(e),
                };
                match &**lhs {
                    Node::RLet(name, t) => {
                        assert((**lhs)@ == HNode::RLet(name@, t@));
                        proof { lemma_vars_lookup(self.map@, name@); }
                        let mut line = String::new();
                        match self.map.get(name.as_str()) {
                            Some(l) => {
                                line.append("  store ");
                                rv.ty.write_text(&mut line);
                                line.append(" ");
                                line.append(rv.name.as_str());
                                line.append(", ptr ");
                                line.append(l.name.as_str());
                            },
                            None => return Err(CodegenError::UndefinedVariable(copy_string(name))),
                        }
                        assert(line@ =~= "  store "@ + type_text(rv@.ty) + " "@ + rv@.name + ", ptr "@
                            + self.state().vars[name@].name);
                        self.emit_line(line);
                        Ok(rv)
                    },
                    _ => Err(CodegenError::Unsupported),
                }
            },
            _ => Err(CodegenError::Unsupported),
        }
    }

    /// The code for a `let`.
    #[verifier::spinoff_prover]
    fn gen_let(&mut self, node: &Node) -> (r: Result<Value, CodegenError>)
        requires
            old(self).wf(),
            node is Let,
        ensures
            final(self).wf(),
            final(self).enum_map == old(self).enum_map,
            produced(g(old(self).enums(), old(self).state(), node@), r, final(self).state()),
        decreases node, 1int,
    {
        match node {
            Node::Let(name, t, v, _) => {
                let rv = match self.gen_node(v) {
                    Ok(x) => x,
                    Err(e) => return Err(e),
                };
                let ghost s1 = self.state();
                let k = match self.fresh_reg() {
                    Ok(k) => k,
                    Err(e) => return Err(e),
                };
                let reg = reg_text(k);
                let mut alloca = String::new();
                alloca.append("  ");
                alloca.append(reg.as_str());
                alloca.append(" = alloca ");
                t.write_text(&mut alloca);
                assert(alloca@ =~= "  "@ + reg_name(k as nat) + " = alloca "@ + type_text(t@));
                self.emit_line(alloca);
                let mut store = String::new();
                store.append("  store ");
                t.write_text(&mut store);
                store.append(" ");
                store.append(rv.name.as_str());
                store.append(", ptr ");
                store.append(reg.as_str());
                assert(store@ =~= "  store "@ + type_text(t@) + " "@ + rv@.name + ", ptr "@ + reg_name(k as nat));
                self.emit_line(store);
                let value = Value { name: reg, ty: Type::Ptr(Box::new(t.copy())) };
                proof { lemma_vars_bind(self.map@, name@, value); }
                self.map.insert(copy_string(name), value);
                assert(self.state() =~= (GState {
                    out: s1.out.push("  "@ + reg_name(s1.index) + " = alloca "@ + type_text(t@)).push(
                        "  store "@ + type_text(t@) + " "@ + rv@.name + ", ptr "@ + reg_name(s1.index),
                    ),
                    index: s1.index + 1,
                    vars: s1.vars.insert(name@, GValue { name: reg_name(s1.index), ty: SType::Ptr(Box::new(t@)) }),
                    ..s1
                }));
                Ok(rv)
            },
            _ => Err(CodegenError::Unsupported),
        }
    }

    /// The code for a sequence of nodes, first to last (see [`g_seq`]).
    #[verifier::spinoff_prover]
    #[verifier::rlimit(60)]
    fn gen_seq(&mut self, items: &Vec<Node>) -> (r: Result<Vec<Value>, CodegenError>)
        requires
            old(self).wf(),
        ensures
            final(self).wf(),
            final(self).enum_map == old(self).enum_map,
            produced_seq(g_seq(old(self).enums(), old(self).state(), hnodes_view(items@)), r, final(self).state()),
        decreases items, 1int,
    {
        let ghost e = self.enums();
        let ghost s0 = self.state();
        let ghost all = hnodes_view(items@);
        proof { lemma_hnodes_view(items@); }
        let mut out: Vec<Value> = Vec::new();
        let mut i: usize = 0;
        assert(all.subrange(0, all.len() as int) =~= all);
        assert(values_view(out@) =~= Seq::<GValue>::empty());
        while i < items.len()
            invariant
                i <= items@.len(),
                all == hnodes_view(items@),
                all.len() == items@.len(),
                forall|k: int| 0 <= k < items@.len() ==> #[trigger] all[k] == items@[k]@,
                self.wf(),
                self.enum_map == old(self).enum_map,
                e == old(self).enums(),
                s0 == old(self).state(),
                g_seq(e, s0, all) == values_then(values_view(out@), g_seq(e, self.state(), all.subrange(i as int, all.len() as int))),
            decreases items.len() - i,
        {
            let ghost rest = all.subrange(i as int, all.len() as int);
            assert(rest[0] == items@[i as int]@);
            assert(rest.subrange(1, rest.len() as int) =~= all.subrange(i + 1, all.len() as int));
            let v = match self.gen_node(&items[i]) {
                Ok(v) => v,
                Err(e) => return Err(e),
            };
            let ghost before = values_view(out@);
            out.push(v);
            proof {
                assert(values_view(out@) =~= before.push(v@));
                match g_seq(e, self.state(), all.subrange(i + 1, all.len() as int)) {
                    Ok((vs, st)) => {
                        assert(before + (seq![v@] + vs) =~= values_view(out@) + vs);
                    },
                    Err(_) => {},
                }
            }
            i = i + 1;
        }
        assert(values_view(out@) + Seq::<GValue>::empty() =~= values_view(out@));
        Ok(out)
    }

    /// The code for a call.
    #[verifier::spinoff_prover]
    fn gen_call(&mut self, node: &Node) -> (r: Result<Value, CodegenError>)
        requires
            old(self).wf(),
            node is Call,
        ensures
            final(self).wf(),
            final(self).enum_map == old(self).enum_map,
            produced(g(old(self).enums(), old(self).state(), node@), r, final(self).state()),
        decreases node, 1int,
    {
        match node {
            Node::Call(name, args, t) => {
                let vs = match self.gen_seq(args) {
                    Ok(vs) => vs,
                    Err(e) => return Err(e),
                };
                let texts = arg_text_list(&vs);
                let joined = join_texts(&texts, ", ");
                let mut rest = String::new();
                rest.append("call ");
                t.write_text(&mut rest);
                rest.append(" @\"");
                rest.append(name.as_str());
                rest.append("\"(");
                rest.append(joined.as_str());
                rest.append(")");
                assert(rest@ =~= "call "@ + type_text(t@) + " @\""@ + name@ + "\"("@
                    + join(arg_texts(values_view(vs@)), ", "@) + ")"@);
                self.reg_line(rest, t.copy())
            },
            _ => Err(CodegenError::Unsupported),
        }
    }

    /// The code for an `if` (see [`g_if`]).
    #[verifier::spinoff_prover]
    #[verifier::rlimit(60)]
    fn gen_if(&mut self, node: &Node) -> (r: Result<Value, CodegenError>)
        requires
            old(self).wf(),
        ensures
            final(self).wf(),
            final(self).enum_map == old(self).enum_map,
            produced(g_if(old(self).enums(), old(self).state(), node@), r, final(self).state()),
        decreases node, 1int,
    {
        match node {
            Node::If(c, b, eb) => {
                let cv = match self.gen_node(c) {
                    Ok(v) => v,
                    Err(e) => return Err(e),
                };
                let k = match self.fresh_label() {
                    Ok(k) => k,
                    Err(e) => return Err(e),
                };
                let kt = num_text(k);
                let mut br = String::new();
                br.append("  br i1 ");
                br.append(cv.name.as_str());
                br.append(", label %if_");
                br.append(kt.as_str());
                match eb {
                    Some(_) => br.append(", label %else_"),
                    None => br.append(", label %ifafter_"),
                }
                br.append(kt.as_str());
                assert(br@ =~= "  br i1 "@ + cv@.name + ", label %if_"@ + nat_text(k as nat)
                    + (if eb is Some { ", label %else_"@ } else { ", label %ifafter_"@ }) + nat_text(k as nat));
                self.emit_line(br);
                self.terminated = false;
                let mut head = String::new();
                head.append("if_");
                head.append(kt.as_str());
                head.append(":");
                self.emit_line(head);
                match self.gen_node(b) {
                    Ok(_) => {},
                    Err(e) => return Err(e),
                }
                let mut after = String::new();
                after.append("ifafter_");
                after.append(kt.as_str());
                self.jump_unless_terminated(&after);
                self.terminated = false;
                match eb {
                    None => {},
                    Some(x) => {
                        let mut else_head = String::new();
                        else_head.append("else_");
                        else_head.append(kt.as_str());
                        else_head.append(":");
                        self.emit_line(else_head);
                        match self.gen_node(x) {
                            Ok(_) => {},
                            Err(e) => return Err(e),
                        }
                        self.jump_unless_terminated(&after);
                    },
                }
                if !self.terminated {
                    let mut tail = String::new();
                    tail.append("ifafter_");
                    tail.append(kt.as_str());
                    tail.append(":");
                    self.emit_line(tail);
                }
                Ok(Value { name: String::new(), ty: Type::Int })
            },
            _ => Err(CodegenError::Unsupported),
        }
    }

    /// The code for a `while` loop (see [`g_while`]).
    #[verifier::spinoff_prover]
    #[verifier::rlimit(60)]
    fn gen_while(&mut self, node: &Node) -> (r: Result<Value, CodegenError>)
        requires
            old(self).wf(),
        ensures
            final(self).wf(),
            final(self).enum_map == old(self).enum_map,
            produced(g_while(old(self).enums(), old(self).state(), node@), r, final(self).state()),
        decreases node, 1int,
    {
        match node {
            Node::While(c, b) => {
                let mut note = String::new();
                note.append("  ; while");
                self.emit_line(note);
                let k = match self.fresh_label() {
                    Ok(k) => k,
                    Err(e) => return Err(e),
                };
                let kt = num_text(k);
                let mut cond_label = String::new();
                cond_label.append("cond_");
                cond_label.append(kt.as_str());
                let mut while_label = String::new();
                while_label.append("while_");
                while_label.append(kt.as_str());
                let mut end_label = String::new();
                end_label.append("whileend_");
                end_label.append(kt.as_str());
                let mut br = String::new();
                br.append("  br label %cond_");
                br.append(kt.as_str());
                self.emit_line(br);
                let mut cond_head = cond_label.as_str().to_owned();
                cond_head.append(":");
                self.emit_line(cond_head);
                let cv = match self.gen_node(c) {
                    Ok(v) => v,
                    Err(e) => return Err(e),
                };
                let mut test = String::new();
                test.append("  br i1 ");
                test.append(cv.name.as_str());
                test.append(", label %while_");
                test.append(kt.as_str());
                test.append(", label%whileend_");
                test.append(kt.as_str());
                assert(test@ =~= "  br i1 "@ + cv@.name + ", label %while_"@ + nat_text(k as nat) + ", label%whileend_"@
                    + nat_text(k as nat));
                self.emit_line(test);
                let mut body_head = while_label.as_str().to_owned();
                body_head.append(":");
                self.emit_line(body_head);
                self.next_start_label = Some(copy_string(&cond_label));
                self.next_end_label = Some(copy_string(&end_label));
                match self.gen_node(b) {
                    Ok(_) => {},
                    Err(e) => return Err(e),
                }
                self.jump_unless_terminated(&cond_label);
                let mut end_head = end_label;
                end_head.append(":");
                self.emit_line(end_head);
                Ok(Value { name: String::new(), ty: Type::Int })
            },
            _ => Err(CodegenError::Unsupported),
        }
    }

    /// The code for a struct value (see [`g_struct`]).
    #[verifier::spinoff_prover]
    fn gen_struct(&mut self, node: &Node) -> (r: Result<Value, CodegenError>)
        requires
            old(self).wf(),
        ensures
            final(self).wf(),
            final(self).enum_map == old(self).enum_map,
            produced(g_struct(old(self).enums(), old(self).state(), node@), r, final(self).state()),
        decreases node, 1int,
    {
        match node {
            Node::Struct(name, fields) => {
                let k = match self.fresh_reg() {
                    Ok(k) => k,
                    Err(e) => return Err(e),
                };
                let reg = reg_text(k);
                let mut alloca = String::new();
                alloca.append("  ");
                alloca.append(reg.as_str());
                alloca.append(" = alloca %");
                alloca.append(name.as_str());
                assert(alloca@ =~= "  "@ + reg_name(k as nat) + " = alloca %"@ + name@);
                self.emit_line(alloca);
                match self.gen_fields(name, k, fields) {
                    Ok(()) => {},
                    Err(e) => return Err(e),
                }
                let mut rest = String::new();
                rest.append("load %");
                rest.append(name.as_str());
                rest.append(", ptr ");
                rest.append(reg.as_str());
                assert(rest@ =~= "load %"@ + name@ + ", ptr "@ + reg_name(k as nat));
                self.reg_line(rest, Type::Struct(copy_string(name)))
            },
            _ => Err(CodegenError::Unsupported),
        }
    }

    /// Stores each field value of a struct whose storage is in register
    /// `base` (see [`g_fields`]).
    #[verifier::spinoff_prover]
    #[verifier::rlimit(60)]
    fn gen_fields(&mut self, name: &String, base: u64, fields: &Vec<(usize, Node)>) -> (r: Result<(), CodegenError>)
        requires
            old(self).wf(),
        ensures
            final(self).wf(),
            final(self).enum_map == old(self).enum_map,
            produced_out(
                g_fields(old(self).enums(), old(self).state(), name@, base as nat, crate::hir::fields_view(fields@)),
                r,
                final(self).state(),
            ),
        decreases fields, 1int,
    {
        let ghost e = self.enums();
        let ghost s0 = self.state();
        let ghost all = crate::hir::fields_view(fields@);
        proof { crate::hir::lemma_fields_view(fields@); }
        let reg = reg_text(base);
        let mut i: usize = 0;
        assert(all.subrange(0, all.len() as int) =~= all);
        while i < fields.len()
            invariant
                i <= fields@.len(),
                all == crate::hir::fields_view(fields@),
                all.len() == fields@.len(),
                forall|k: int| 0 <= k < fields@.len() ==> #[trigger] all[k] == (fields@[k].0 as nat, fields@[k].1@),
                reg@ == reg_name(base as nat),
                self.wf(),
                self.enum_map == old(self).enum_map,
                e == old(self).enums(),
                s0 == old(self).state(),
                g_fields(e, s0, name@, base as nat, all) == g_fields(e, self.state(), name@, base as nat, all.subrange(i as int, all.len() as int)),
            decreases fields.len() - i,
        {
            let ghost rest = all.subrange(i as int, all.len() as int);
            assert(rest[0] == all[i as int]);
            assert(rest.subrange(1, rest.len() as int) =~= all.subrange(i + 1, all.len() as int));
            let (index, n) = (&fields[i].0, &fields[i].1);
            let rv = match self.gen_node(n) {
                Ok(v) => v,
                Err(e) => return Err(e),
            };
            let f = match self.fresh_reg() {
                Ok(f) => f,
                Err(e) => return Err(e),
            };
            let freg = reg_text(f);
            let mut gep = String::new();
            gep.append("  ");
            gep.append(freg.as_str());
            gep.append(" = getelementptr %");
            gep.append(name.as_str());
            gep.append(", ptr ");
            gep.append(reg.as_str());
            gep.append(", i32 0, i32 ");
            push_nat(&mut gep, *index as u128);
            assert(gep@ =~= "  "@ + reg_name(f as nat) + " = getelementptr %"@ + name@ + ", ptr "@ + reg_name(base as nat)
                + ", i32 0, i32 "@ + nat_text(*index as nat));
            self.emit_line(gep);
            let mut store = String::new();
            store.append("  store ");
            rv.ty.write_text(&mut store);
            store.append(" ");
            store.append(rv.name.as_str());
            store.append(", ptr ");
            store.append(freg.as_str());
            assert(store@ =~= "  store "@ + type_text(rv@.ty) + " "@ + rv@.name + ", ptr "@ + reg_name(f as nat));
            self.emit_line(store);
            i = i + 1;
        }
        Ok(())
    }

    /// The code for an array value (see [`g_array`]).
    #[verifier::spinoff_prover]
    fn gen_array(&mut self, node: &Node) -> (r: Result<Value, CodegenError>)
        requires
            old(self).wf(),
        ensures
            final(self).wf(),
            final(self).enum_map == old(self).enum_map,
            produced(g_array(old(self).enums(), old(self).state(), node@), r, final(self).state()),
        decreases node, 1int,
    {
        match node {
            Node::Array(items, t) => {
                proof { lemma_hnodes_view(items@); }
                let k = match self.fresh_reg() {
                    Ok(k) => k,
                    Err(e) => return Err(e),
                };
                let reg = reg_text(k);
                let aty = Type::Array(Box::new(t.copy()), items.len());
                let aty_text = aty.to_text();
                let mut alloca = String::new();
                alloca.append("  ");
                alloca.append(reg.as_str());
                alloca.append(" = alloca ");
                alloca.append(aty_text.as_str());
                assert(alloca@ =~= "  "@ + reg_name(k as nat) + " = alloca "@ + type_text(aty@));
                self.emit_line(alloca);
                match self.gen_elems(&aty_text, k, items) {
                    Ok(()) => {},
                    Err(e) => return Err(e),
                }
                let mut rest = String::new();
                rest.append("load [");
                push_nat(&mut rest, items.len() as u128);
                rest.append(" x i32], ptr ");
                rest.append(reg.as_str());
                assert(rest@ =~= "load ["@ + nat_text(items@.len()) + " x i32], ptr "@ + reg_name(k as nat));
                self.reg_line(rest, Type::Array(Box::new(Type::Int), items.len()))
            },
            _ => Err(CodegenError::Unsupported),
        }
    }

    /// Stores each element of an array whose storage, of type `aty`, is in
    /// register `base` (see [`g_elems`]).
    #[verifier::spinoff_prover]
    #[verifier::rlimit(60)]
    fn gen_elems(&mut self, aty: &String, base: u64, items: &Vec<Node>) -> (r: Result<(), CodegenError>)
        requires
            old(self).wf(),
        ensures
            final(self).wf(),
            final(self).enum_map == old(self).enum_map,
            produced_out(
                g_elems(old(self).enums(), old(self).state(), aty@, base as nat, hnodes_view(items@), 0),
                r,
                final(self).state(),
            ),
        decreases items, 1int,
    {
        let ghost e = self.enums();
        let ghost s0 = self.state();
        let ghost all = hnodes_view(items@);
        proof { lemma_hnodes_view(items@); }
        let reg = reg_text(base);
        let mut i: usize = 0;
        assert(all.subrange(0, all.len() as int) =~= all);
        while i < items.len()
            invariant
                i <= items@.len(),
                all == hnodes_view(items@),
                all.len() == items@.len(),
                forall|k: int| 0 <= k < items@.len() ==> #[trigger] all[k] == items@[k]@,
                reg@ == reg_name(base as nat),
                self.wf(),
                self.enum_map == old(self).enum_map,
                e == old(self).enums(),
                s0 == old(self).state(),
                g_elems(e, s0, aty@, base as nat, all, 0) == g_elems(e, self.state(), aty@, base as nat, all.subrange(i as int, all.len() as int), i as nat),
            decreases items.len() - i,
        {
            let ghost rest = all.subrange(i as int, all.len() as int);
            assert(rest[0] == items@[i as int]@);
            assert(rest.subrange(1, rest.len() as int) =~= all.subrange(i + 1, all.len() as int));
            let rv = match self.gen_node(&items[i]) {
                Ok(v) => v,
                Err(e) => return Err(e),
            };
            let f = match self.fresh_reg() {
                Ok(f) => f,
                Err(e) => return Err(e),
            };
            let freg = reg_text(f);
            let mut gep = String::new();
            gep.append("  ");
            gep.append(freg.as_str());
            gep.append(" = getelementptr ");
            gep.append(aty.as_str());
            gep.append(", ptr ");
            gep.append(reg.as_str());
            gep.append(", i32 0, i32 ");
            push_nat(&mut gep, i as u128);
            assert(gep@ =~= "  "@ + reg_name(f as nat) + " = getelementptr "@ + aty@ + ", ptr "@ + reg_name(base as nat)
                + ", i32 0, i32 "@ + nat_text(i as nat));
            self.emit_line(gep);
            let mut store = String::new();
            store.append("  store ");
            rv.ty.write_text(&mut store);
            store.append(" ");
            store.append(rv.name.as_str());
            store.append(", ptr ");
            store.append(freg.as_str());
            assert(store@ =~= "  store "@ + type_text(rv@.ty) + " "@ + rv@.name + ", ptr "@ + reg_name(f as nat));
            self.emit_line(store);
            i = i + 1;
        }
        Ok(())
    }

    /// The value of an enum variant: its number.
    #[verifier::spinoff_prover]
    fn gen_enum(&self, name: &String, variant: &String) -> (r: Result<Value, CodegenError>)
        ensures
            match enum_index(self.enums(), name@, variant@) {
                Some(i) => r matches Ok(x) && x@ == (GValue { name: nat_text(i), ty: SType::Int }),
                None => r matches Err(x) && x@ == GErr::UnknownVariant(name@, variant@),
            },
    {
        let ghost table = self.enums();
        assert forall|m: int| 0 <= m < self.enum_map@.len() implies #[trigger] table[m].0 == self.enum_map@[m].0@ by {}
        match find_first(self.enum_map, name.as_str()) {
            None => {
                proof { lemma_find_named_none(table, name@); }
                Err(CodegenError::UnknownVariant(copy_string(name), copy_string(variant)))
            },
            Some(j) => {
                proof { lemma_find_named(table, name@, j as int); }
                let variants = &self.enum_map[j].1;
                let ghost vs = table[j as int].1;
                assert(vs == variants@.map_values(|v: (String, EnumVariant)| (v.0@, v.1@)));
                assert forall|m: int| 0 <= m < variants@.len() implies #[trigger] vs[m].0 == variants@[m].0@ by {}
                match find_first(variants, variant.as_str()) {
                    None => {
                        proof { lemma_find_named_none(vs, variant@); }
                        Err(CodegenError::UnknownVariant(copy_string(name), copy_string(variant)))
                    },
                    Some(w) => {
                        proof { lemma_find_named(vs, variant@, w as int); }
                        let mut text = String::new();
                        push_nat(&mut text, variants[w].1.index as u128);
                        assert(text@ =~= nat_text(variants@[w as int].1.index as nat));
                        Ok(Value { name: text, ty: Type::Int })
                    },
                }
            },
        }
    }

    /// The code for a `match` (see [`g_match`]).
    #[verifier::spinoff_prover]
    #[verifier::rlimit(60)]
    fn gen_match(&mut self, node: &Node) -> (r: Result<Value, CodegenError>)
        requires
            old(self).wf(),
        ensures
            final(self).wf(),
            final(self).enum_map == old(self).enum_map,
            produced(g_match(old(self).enums(), old(self).state(), node@), r, final(self).state()),
        decreases node, 1int,
    {
        match node {
            Node::Match(v, arms) => {
                let lv = match self.gen_node(v) {
                    Ok(x) => x,
                    Err(e) => return Err(e),
                };
                let k = match self.fresh_label() {
                    Ok(k) => k,
                    Err(e) => return Err(e),
                };
                let kt = num_text(k);
                let texts = match self.gen_conds(k, arms) {
                    Ok(t) => t,
                    Err(e) => return Err(e),
                };
                let joined = join_texts(&texts, " ");
                let mut switch = String::new();
                switch.append("  switch ");
                lv.ty.write_text(&mut switch);
                switch.append(" ");
                switch.append(lv.name.as_str());
                switch.append(", label %switch_");
                switch.append(kt.as_str());
                switch.append("_default [");
                switch.append(joined.as_str());
                switch.append("]");
                assert(switch@ =~= "  switch "@ + type_text(lv@.ty) + " "@ + lv@.name + ", label %switch_"@
                    + nat_text(k as nat) + "_default ["@ + join(strs(texts@), " "@) + "]"@);
                self.emit_line(switch);
                let mut default_head = String::new();
                default_head.append("switch_");
                default_head.append(kt.as_str());
                default_head.append("_default:");
                self.emit_line(default_head);
                let mut unreachable = String::new();
                unreachable.append("  unreachable");
                self.emit_line(unreachable);
                match self.gen_arms(k, arms) {
                    Ok(()) => {},
                    Err(e) => return Err(e),
                }
                let mut after = String::new();
                after.append("switch_");
                after.append(kt.as_str());
                after.append("_after:");
                self.emit_line(after);
                let mut name = String::new();
                name.append("testtest");
                Ok(Value { name, ty: Type::Int })
            },
            _ => Err(CodegenError::Unsupported),
        }
    }

    /// The switch cases for the patterns of the arms (see [`g_conds`]).
    #[verifier::spinoff_prover]
    #[verifier::rlimit(60)]
    fn gen_conds(&mut self, k: u64, arms: &Vec<(Node, Node)>) -> (r: Result<Vec<String>, CodegenError>)
        requires
            old(self).wf(),
        ensures
            final(self).wf(),
            final(self).enum_map == old(self).enum_map,
            produced_conds(
                g_conds(old(self).enums(), old(self).state(), k as nat, crate::hir::arms_view(arms@), 0),
                r,
                final(self).state(),
            ),
        decreases arms, 1int,
    {
        let ghost e = self.enums();
        let ghost s0 = self.state();
        let ghost all = crate::hir::arms_view(arms@);
        proof { crate::hir::lemma_arms_view(arms@); }
        let kt = num_text(k);
        let mut out: Vec<String> = Vec::new();
        let mut i: usize = 0;
        assert(all.subrange(0, all.len() as int) =~= all);
        assert(strs(out@) =~= Seq::<Seq<char>>::empty());
        while i < arms.len()
            invariant
                i <= arms@.len(),
                all == crate::hir::arms_view(arms@),
                all.len() == arms@.len(),
                forall|m: int| 0 <= m < arms@.len() ==> #[trigger] all[m] == (arms@[m].0@, arms@[m].1@),
                kt@ == nat_text(k as nat),
                self.wf(),
                self.enum_map == old(self).enum_map,
                e == old(self).enums(),
                s0 == old(self).state(),
                g_conds(e, s0, k as nat, all, 0) == texts_then(strs(out@), g_conds(e, self.state(), k as nat, all.subrange(i as int, all.len() as int), i as nat)),
            decreases arms.len() - i,
        {
            let ghost rest = all.subrange(i as int, all.len() as int);
            assert(rest[0] == all[i as int]);
            assert(rest.subrange(1, rest.len() as int) =~= all.subrange(i + 1, all.len() as int));
            let cv = match self.gen_node(&arms[i].0) {
                Ok(v) => v,
                Err(e) => return Err(e),
            };
            let mut text = String::new();
            cv.ty.write_text(&mut text);
            text.append(" ");
            text.append(cv.name.as_str());
            text.append(", label %");
            text.append("switch_");
            text.append(kt.as_str());
            text.append("_");
            push_nat(&mut text, i as u128);
            assert(text@ =~= type_text(cv@.ty) + " "@ + cv@.name + ", label %"@ + arm_label(k as nat, i as nat));
            let ghost before = strs(out@);
            out.push(text);
            proof {
                assert(strs(out@) =~= before.push(text@));
                match g_conds(e, self.state(), k as nat, all.subrange(i + 1, all.len() as int), (i + 1) as nat) {
                    Ok((ts, st)) => {
                        assert(before + (seq![text@] + ts) =~= strs(out@) + ts);
                    },
                    Err(_) => {},
                }
            }
            i = i + 1;
        }
        assert(strs(out@) + Seq::<Seq<char>>::empty() =~= strs(out@));
        Ok(out)
    }

    /// The blocks of the arms (see [`g_arms`]).
    #[verifier::spinoff_prover]
    #[verifier::rlimit(60)]
    fn gen_arms(&mut self, k: u64, arms: &Vec<(Node, Node)>) -> (r: Result<(), CodegenError>)
        requires
            old(self).wf(),
        ensures
            final(self).wf(),
            final(self).enum_map == old(self).enum_map,
            produced_out(
                g_arms(old(self).enums(), old(self).state(), k as nat, crate::hir::arms_view(arms@), 0),
                r,
                final(self).state(),
            ),
        decreases arms, 1int,
    {
        let ghost e = self.enums();
        let ghost s0 = self.state();
        let ghost all = crate::hir::arms_view(arms@);
        proof { crate::hir::lemma_arms_view(arms@); }
        let kt = num_text(k);
        let mut i: usize = 0;
        assert(all.subrange(0, all.len() as int) =~= all);
        while i < arms.len()
            invariant
                i <= arms@.len(),
                all == crate::hir::arms_view(arms@),
                all.len() == arms@.len(),
                forall|m: int| 0 <= m < arms@.len() ==> #[trigger] all[m] == (arms@[m].0@, arms@[m].1@),
                kt@ == nat_text(k as nat),
                self.wf(),
                self.enum_map == old(self).enum_map,
                e == old(self).enums(),
                s0 == old(self).state(),
                g_arms(e, s0, k as nat, all, 0) == g_arms(e, self.state(), k as nat, all.subrange(i as int, all.len() as int), i as nat),
            decreases arms.len() - i,
        {
            let ghost rest = all.subrange(i as int, all.len() as int);
            assert(rest[0] == all[i as int]);
            assert(rest.subrange(1, rest.len() as int) =~= all.subrange(i + 1, all.len() as int));
            let mut head = String::new();
            head.append("switch_");
            head.append(kt.as_str());
            head.append("_");
            push_nat(&mut head, i as u128);
            head.append(":");
            assert(head@ =~= arm_label(k as nat, i as nat) + ":"@);
            self.emit_line(head);
            match self.gen_node(&arms[i].1) {
                Ok(_) => {},
                Err(e) => return Err(e),
            }
            let mut br = String::new();
            br.append("  br label %switch_");
            br.append(kt.as_str());
            br.append("_after");
            assert(br@ =~= "  br label %switch_"@ + nat_text(k as nat) + "_after"@);
            self.emit_line(br);
            i = i + 1;
        }
        Ok(())
    }
}

/// The code for a function after the lines `lines` (see [`gen_function`]):
/// all the lines, and why the generation stopped, if it did.
#[verifier::spinoff_prover]
#[verifier::rlimit(60)]
#[verifier::loop_isolation(false)]
fn generate_function(function: &Function, enum_map: &Vec<(String, Vec<(String, EnumVariant)>)>, lines: Vec<String>) -> (r: (Vec<String>, Option<CodegenError>))
    ensures
        match gen_function(crate::hir::enums_view(enum_map@), function@, strs(lines@)) {
            Ok(out) => strs(r.0@) == out && r.1 is None,
            Err((out, e)) => strs(r.0@) == out && (r.1 matches Some(x) && x@ == e),
        },
{
    let ghost out0 = strs(lines@);
    let ghost e = crate::hir::enums_view(enum_map@);
    let mut map: ScopeMap<Value> = ScopeMap::new();
    map.new_stack();
    let mut gen = GenerateFunction {
        lines,
        index: 0,
        label: 0,
        map,
        enum_map,
        has_return: false,
        terminated: false,
        next_start_label: None,
        next_end_label: None,
    };
    assert(Map::<Seq<char>, Value>::empty().map_values(|v: Value| v@) =~= Map::<Seq<char>, GValue>::empty());
    assert(gen.state() =~= start_state(out0));
    let ghost args = function@.args;
    let mut regs: Vec<String> = Vec::new();
    let mut entry: Vec<String> = Vec::new();
    let n = function.args.len();
    let mut i: usize = 0;
    assert(args.subrange(0, args.len() as int) =~= args);
    assert(strs(regs@) =~= Seq::<Seq<char>>::empty());
    assert(strs(entry@) =~= Seq::<Seq<char>>::empty());
    while i < n
        invariant
            n == function.args@.len(),
            args == function@.args,
            args.len() == n,
            i <= n,
            gen.wf(),
            gen.enum_map == enum_map,
            e == gen.enums(),
            gen.state().out == out0,
            g_params(start_state(out0), args, Seq::empty(), Seq::empty())
                == g_params(gen.state(), args.subrange(i as int, n as int), strs(regs@), strs(entry@)),
        decreases n - i,
    {
        let ghost rest = args.subrange(i as int, n as int);
        assert(rest[0] == function.args@[i as int]@);
        assert(rest.subrange(1, rest.len() as int) =~= args.subrange(i + 1, n as int));
        let a = &function.args[i];
        let ghost s_before = gen.state();
        let ghost acc = (strs(regs@), strs(entry@));
        assert(s_before.index + 1 >= u64::MAX ==> g_params(s_before, rest, acc.0, acc.1) == Err::<(GState, Seq<Seq<char>>, Seq<Seq<char>>), (Seq<Seq<char>>, GErr)>((out0, GErr::Overflow)));
        let ar = match gen.fresh_reg() {
            Ok(k) => k,
            Err(err) => return (gen.lines, Some(err)),
        };
        let rr = match gen.fresh_reg() {
            Ok(k) => k,
            Err(err) => return (gen.lines, Some(err)),
        };
        let arg_reg = reg_text(ar);
        let reg = reg_text(rr);
        let ty = a.ty.to_text();
        let mut param = ty.as_str().to_owned();
        param.append(" ");
        param.append(arg_reg.as_str());
        let mut alloca = String::new();
        alloca.append("  ");
        alloca.append(reg.as_str());
        alloca.append(" = alloca ");
        alloca.append(ty.as_str());
        let mut store = String::new();
        store.append("  store ");
        store.append(ty.as_str());
        store.append(" ");
        store.append(arg_reg.as_str());
        store.append(", ptr ");
        store.append(reg.as_str());
        let ghost (before_regs, before_entry) = (strs(regs@), strs(entry@));
        regs.push(param);
        entry.push(alloca);
        entry.push(store);
        let value = Value { name: reg, ty: Type::Ptr(Box::new(a.ty.copy())) };
        proof { lemma_vars_bind(gen.map@, a.name@, value); }
        gen.map.insert(copy_string(&a.name), value);
        proof {
            assert(strs(regs@) =~= before_regs.push(type_text(a.ty@) + " "@ + reg_name(ar as nat)));
            assert(strs(entry@) =~= before_entry.push("  "@ + reg_name(rr as nat) + " = alloca "@ + type_text(a.ty@)).push(
                "  store "@ + type_text(a.ty@) + " "@ + reg_name(ar as nat) + ", ptr "@ + reg_name(rr as nat)));
        }
        i = i + 1;
    }
    let ghost s1 = gen.state();
    let mut head = String::new();
    head.append("define ");
    if str_eq(function.name.as_str(), "main") {
        head.append("i32");
    } else {
        head.append(function.ty.as_str());
    }
    head.append(" @\"");
    head.append(function.full_name().as_str());
    head.append("\"(");
    head.append(join_texts(&regs, ", ").as_str());
    head.append(") {");
    assert(head@ =~= "define "@ + ret_text(function@) + " @\""@ + qualified_name(function@.mod_name, function@.name)
        + "\"("@ + join(strs(regs@), ", "@) + ") {"@);
    gen.emit_line(head);
    let mut entry_head = String::new();
    entry_head.append("entry:");
    gen.emit_line(entry_head);
    let ghost base = gen.state().out;
    let mut j: usize = 0;
    while j < entry.len()
        invariant
            j <= entry@.len(),
            gen.wf(),
            gen.enum_map == enum_map,
            gen.state() == (GState { out: base + strs(entry@).take(j as int), ..s1 }),
        decreases entry.len() - j,
    {
        let line = copy_string(&entry[j]);
        gen.emit_line(line);
        assert(base + strs(entry@).take(j + 1) =~= (base + strs(entry@).take(j as int)).push(entry@[j as int]@));
        j = j + 1;
    }
    assert(strs(entry@).take(entry@.len() as int) =~= strs(entry@));
    match gen.gen_node(&function.body) {
        Ok(_) => {},
        Err(err) => return (gen.lines, Some(err)),
    }
    if !gen.has_return {
        if !str_eq(function.ty.as_str(), "void") {
            return (gen.lines, Some(CodegenError::MissingReturn));
        }
        let mut ret = String::new();
        if str_eq(function.name.as_str(), "main") {
            ret.append("  ret i32 0");
        } else {
            ret.append("  ret void");
        }
        gen.emit_line(ret);
    }
    let mut close = String::new();
    close.append("}");
    gen.emit_line(close);
    (gen.lines, None)
}

/// The declaration of a string literal (see [`string_line`]).
fn string_decl(k: usize, v: &String) -> (s: String)
    ensures
        s@ == string_line(k as nat, v@),
{
    let mut s = String::new();
    s.append("@.str.");
    push_nat(&mut s, k as u128);
    s.append(" = private unnamed_addr constant [");
    let len = v.as_str().len();
    push_nat(&mut s, len as u128 + 1);
    s.append(" x i8] c\"");
    s.append(v.as_str());
    s.append("\\00\"");
    assert(s@ =~= string_line(k as nat, v@));
    s
}

/// The declaration of a struct type (see [`struct_line`]).
fn struct_decl(d: &(String, Vec<(String, crate::hir::StructField)>)) -> (s: String)
    ensures
        s@ == struct_line((d.0@, d.1@.map_values(|f: (String, crate::hir::StructField)| (f.0@, f.1@)))),
{
    let ghost fields = d.1@.map_values(|f: (String, crate::hir::StructField)| (f.0@, f.1@));
    let mut tys: Vec<String> = Vec::new();
    let mut i: usize = 0;
    while i < d.1.len()
        invariant
            i <= d.1@.len(),
            fields == d.1@.map_values(|f: (String, crate::hir::StructField)| (f.0@, f.1@)),
            strs(tys@) == fields.take(i as int).map_values(|f: (Seq<char>, crate::hir::HField)| type_text(f.1.ty)),
        decreases d.1.len() - i,
    {
        let t = d.1[i].1.ty.to_text();
        let ghost before = strs(tys@);
        tys.push(t);
        assert(strs(tys@) =~= before.push(t@));
        assert(fields.take(i + 1) =~= fields.take(i as int).push(fields[i as int]));
        assert(fields.take(i + 1).map_values(|f: (Seq<char>, crate::hir::HField)| type_text(f.1.ty))
            =~= fields.take(i as int).map_values(|f: (Seq<char>, crate::hir::HField)| type_text(f.1.ty)).push(t@));
        i = i + 1;
    }
    assert(fields.take(fields.len() as int) =~= fields);
    let mut s = String::new();
    s.append("%");
    s.append(d.0.as_str());
    s.append(" = type {");
    s.append(join_texts(&tys, ",").as_str());
    s.append("}");
    assert(s@ =~= struct_line((d.0@, fields)));
    s
}

/// The LLVM module for a program (see [`gen_program`]): its lines, and why
/// the generation stopped, if it did.
#[verifier::spinoff_prover]
#[verifier::rlimit(60)]
pub fn generate(program: &Program) -> (r: (Vec<String>, Option<CodegenError>))
    ensures
        match gen_program(program@) {
            Ok(out) => strs(r.0@) == out && r.1 is None,
            Err((out, e)) => strs(r.0@) == out && (r.1 matches Some(x) && x@ == e),
        },
{
    let ghost p = program@;
    let mut lines: Vec<String> = Vec::new();
    let mut k: usize = 0;
    while k < program.strings.len()
        invariant
            k <= program.strings@.len(),
            p == program@,
            strs(lines@) == Seq::new(k as nat, |m: int| string_line(m as nat, p.strings[m])),
        decreases program.strings.len() - k,
    {
        let line = string_decl(k, &program.strings[k]);
        let ghost before = strs(lines@);
        lines.push(line);
        assert(strs(lines@) =~= before.push(line@));
        assert(strs(lines@) =~= Seq::new((k + 1) as nat, |m: int| string_line(m as nat, p.strings[m])));
        k = k + 1;
    }
    let ghost strings_part = strs(lines@);
    assert(strings_part =~= Seq::new(p.strings.len(), |m: int| string_line(m as nat, p.strings[m])));
    let ghost decls = p.struct_map.map_values(|d: (Seq<char>, Seq<(Seq<char>, crate::hir::HField)>)| struct_line(d));
    let mut d: usize = 0;
    while d < program.struct_map.len()
        invariant
            d <= program.struct_map@.len(),
            p == program@,
            decls == p.struct_map.map_values(|d: (Seq<char>, Seq<(Seq<char>, crate::hir::HField)>)| struct_line(d)),
            strs(lines@) == strings_part + decls.take(d as int),
        decreases program.struct_map.len() - d,
    {
        let line = struct_decl(&program.struct_map[d]);
        let ghost before = strs(lines@);
        lines.push(line);
        assert(strs(lines@) =~= before.push(line@));
        assert(decls.take(d + 1) =~= decls.take(d as int).push(decls[d as int]));
        assert(strs(lines@) =~= strings_part + decls.take(d + 1));
        d = d + 1;
    }
    assert(decls.take(decls.len() as int) =~= decls);
    let mut printf = String::new();
    printf.append("declare i32 @printf(ptr, ...)");
    lines.push(printf);
    assert(strs(lines@) =~= header_lines(p));
    let ghost fs = p.functions;
    let mut i: usize = 0;
    while i < program.functions.len()
        invariant
            i <= program.functions@.len(),
            p == program@,
            fs == p.functions,
            fs.len() == program.functions@.len(),
            gen_program(p) == gen_functions(p.enum_map, fs, i as int, strs(lines@)),
        decreases program.functions.len() - i,
    {
        let mut blank = String::new();
        let ghost before = strs(lines@);
        lines.push(blank);
        assert(strs(lines@) =~= before.push(Seq::empty()));
        assert(fs[i as int] == program.functions@[i as int]@);
        let (next, err) = generate_function(&program.functions[i], &program.enum_map, lines);
        if err.is_some() {
            return (next, err);
        }
        lines = next;
        i = i + 1;
    }
    (lines, None)
}

} // verus!
