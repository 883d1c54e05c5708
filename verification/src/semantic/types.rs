use vstd::prelude::*;

use crate::ast::{Arg, SArg};
use crate::types::{SType, Type};

verus! {

/// What a call needs to know of a function: its parameters and its type.
#[derive(Debug)]
pub struct FunctionMetadata {
    pub args: Vec<Arg>,
    pub ty: Type,
}

/// The model of a [`FunctionMetadata`].
pub struct FnSig {
    pub args: Seq<SArg>,
    pub ty: SType,
}

impl FunctionMetadata {
    pub open spec fn view(&self) -> FnSig {
        FnSig { args: self.args@.map_values(|a: Arg| a@), ty: self.ty@ }
    }
}

/// What the analysis knows of a variable: whether it may be assigned, and
/// its type.
#[derive(Debug)]
pub struct LetMetadata {
    pub is_mut: bool,
    pub ty: Type,
}

/// The model of a [`LetMetadata`].
pub struct LetInfo {
    pub is_mut: bool,
    pub ty: SType,
}

impl LetMetadata {
    pub open spec fn view(&self) -> LetInfo {
        LetInfo { is_mut: self.is_mut, ty: self.ty@ }
    }
}

} // verus!
