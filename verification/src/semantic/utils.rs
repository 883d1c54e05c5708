use vstd::prelude::*;

use crate::ast::Arg;
use crate::hir::{Arg as HirArg, HArg, HNode, Node as HirNode};
use crate::text::{copy_string, str_eq};
use crate::types::{SType, Type, type_of_name};

verus! {

/// The type of a parameter: the implementing type where the parameter is
/// written `Self` inside an `impl`, else the type its name denotes.
pub open spec fn arg_type(arg_ty: Seq<char>, impl_name: Option<Seq<char>>) -> SType {
    match impl_name {
        Some(n) => if arg_ty == "Self"@ { type_of_name(n) } else { type_of_name(arg_ty) },
        None => type_of_name(arg_ty),
    }
}

/// A parameter with its type (see [`arg_type`]).
pub fn parse_arg(arg: &Arg, impl_name: Option<String>) -> (r: HirArg)
    ensures
        r@ == (HArg {
            name: arg.name@,
            ty: arg_type(arg.ty@, match impl_name {
                Some(n) => Some(n@),
                None => None,
            }),
        }),
{
    let ty = match impl_name {
        Some(actual_ty) => if str_eq(arg.ty.as_str(), "Self") {
            Type::from_name(actual_ty.as_str())
        } else {
            Type::from_name(arg.ty.as_str())
        },
        None => Type::from_name(arg.ty.as_str()),
    };
    HirArg { name: copy_string(&arg.name), ty }
}

/// The type of a typed node; `None` for the kinds of node that have none
/// here, and for a dereference of what is neither a pointer nor an array.
pub open spec fn hir_type(n: HNode) -> Option<SType>
    decreases n,
{
    match n {
        HNode::Num(_) => Some(SType::Int),
        HNode::Bool(_) => Some(SType::Bool),
        HNode::Add(_, _, t) => Some(t),
        HNode::Sub(_, _) => Some(SType::Int),
        HNode::Mul(_, _) => Some(SType::Int),
        HNode::Div(_, _) => Some(SType::Int),
        HNode::RLet(_, t) => Some(t),
        HNode::FieldAccess(_, _, t) => Some(t),
        HNode::Call(_, _, t) => Some(t),
        HNode::Struct(name, _) => Some(SType::Struct(name)),
        HNode::Enum(name, v, _) => Some(SType::Enum(name, v)),
        HNode::Comparison(_, _, _) => Some(SType::Bool),
        HNode::Array(data, t) => Some(SType::Array(Box::new(t), data.len())),
        HNode::ArrayAccess(_, _, t) => Some(t),
        HNode::Deref(v) => match hir_type(*v) {
            Some(SType::Array(i, _)) => Some(*i),
            Some(SType::Ptr(i)) => Some(*i),
            _ => None,
        },
        _ => None,
    }
}

/// The type of a node (see [`hir_type`]), or `None` where it has none.
pub fn try_type_of(node: &HirNode) -> (r: Option<Type>)
    ensures
        match hir_type(node@) {
            Some(t) => r matches Some(x) && x@ == t,
            None => r is None,
        },
    decreases node,
{
    match node {
        HirNode::Num(_) => Some(Type::Int),
        HirNode::Bool(_) => Some(Type::Bool),
        HirNode::Add(_, _, ty) => Some(ty.copy()),
        HirNode::Sub(_, _) => Some(Type::Int),
        HirNode::Mul(_, _) => Some(Type::Int),
        HirNode::Div(_, _) => Some(Type::Int),
        HirNode::RLet(_, ty) => Some(ty.copy()),
        HirNode::FieldAccess(_, _, ty) => Some(ty.copy()),
        HirNode::Call(_, _, ty) => Some(ty.copy()),
        HirNode::Struct(name, _) => Some(Type::Struct(copy_string(name))),
        HirNode::Enum(name, variant, _) => Some(Type::Enum(copy_string(name), copy_string(variant))),
        HirNode::Comparison(_, _, _) => Some(Type::Bool),
        HirNode::Array(data, ty) => {
            proof { crate::hir::lemma_hnodes_view(data@); }
            Some(Type::Array(Box::new(ty.copy()), data.len()))
        },
        HirNode::ArrayAccess(_, _, ty) => Some(ty.copy()),
        HirNode::Deref(v) => match try_type_of(v) {
            Some(t) => match t {
                Type::Array(_, _) => Some(t.inner()),
                Type::Ptr(_) => Some(t.inner()),
                _ => None,
            },
            None => None,
        },
        _ => None,
    }
}

/// The type of a node that has one (see [`hir_type`]).
pub fn type_of(node: &HirNode) -> (t: Type)
    requires
        hir_type(node@) is Some,
    ensures
        hir_type(node@) == Some(t@),
{
    match try_type_of(node) {
        Some(t) => t,
        None => Type::Void,
    }
}

} // verus!
