use vstd::prelude::*;

use crate::text::{nat_text, push_nat, str_eq, copy_string};

verus! {

/// A value type of the source language, as the later passes see it.
#[derive(PartialEq, Eq, Debug)]
pub enum Type {
    Int,
    Int8,
    Bool,
    Ptr(Box<Type>),
    Struct(String),
    Enum(String, String),
    Array(Box<Type>, usize),
    Void,
}

/// The mathematical model of a [`Type`]: names are character sequences.
pub enum SType {
    Int,
    Int8,
    Bool,
    Ptr(Box<SType>),
    Struct(Seq<char>),
    Enum(Seq<char>, Seq<char>),
    Array(Box<SType>, nat),
    Void,
}

/// The type that a type name written in a program denotes: the four
/// primitive names, and any other name is a struct.
pub open spec fn type_of_name(name: Seq<char>) -> SType {
    if name == "i32"@ {
        SType::Int
    } else if name == "i8"@ {
        SType::Int8
    } else if name == "bool"@ {
        SType::Bool
    } else if name == "void"@ {
        SType::Void
    } else {
        SType::Struct(name)
    }
}

/// The LLVM spelling of a type.
pub open spec fn type_text(t: SType) -> Seq<char>
    decreases t,
{
    match t {
        SType::Int => "i32"@,
        SType::Int8 => "i8"@,
        SType::Bool => "i1"@,
        SType::Void => "void"@,
        SType::Ptr(_) => "ptr"@,
        SType::Struct(name) => "%"@ + name,
        SType::Enum(name, _) => "%"@ + name,
        SType::Array(inner, len) => "["@ + nat_text(len) + " x "@ + type_text(*inner) + "]"@,
    }
}

impl Type {
    pub open spec fn view(&self) -> SType
        decreases self,
    {
        match self {
            Type::Int => SType::Int,
            Type::Int8 => SType::Int8,
            Type::Bool => SType::Bool,
            Type::Ptr(t) => SType::Ptr(Box::new((**t).view())),
            Type::Struct(n) => SType::Struct(n@),
            Type::Enum(n, v) => SType::Enum(n@, v@),
            Type::Array(t, len) => SType::Array(Box::new((**t).view()), *len as nat),
            Type::Void => SType::Void,
        }
    }

    /// The type that a type name denotes (see [`type_of_name`]).
    pub fn from_name(value: &str) -> (t: Type)
        ensures
            t@ == type_of_name(value@),
    {
        if str_eq(value, "i32") {
            Type::Int
        } else if str_eq(value, "i8") {
            Type::Int8
        } else if str_eq(value, "bool") {
            Type::Bool
        } else if str_eq(value, "void") {
            Type::Void
        } else {
            Type::Struct(value.to_owned())
        }
    }

    /// The element type of an array, or the pointee of a pointer.
    pub fn inner(&self) -> (t: Type)
        requires
            self@ is Array || self@ is Ptr,
        ensures
            self@ matches SType::Array(i, _) ==> t@ == *i,
            self@ matches SType::Ptr(i) ==> t@ == *i,
    {
        match self {
            Type::Array(ty, _) => ty.copy(),
            Type::Ptr(ty) => ty.copy(),
            _ => Type::Void,
        }
    }

    /// A copy of this type.
    pub fn copy(&self) -> (t: Type)
        ensures
            t@ == self@,
        decreases self,
    {
        match self {
            Type::Int => Type::Int,
            Type::Int8 => Type::Int8,
            Type::Bool => Type::Bool,
            Type::Ptr(t) => Type::Ptr(Box::new(t.copy())),
            Type::Struct(n) => Type::Struct(copy_string(n)),
            Type::Enum(n, v) => Type::Enum(copy_string(n), copy_string(v)),
            Type::Array(t, len) => Type::Array(Box::new(t.copy()), *len),
            Type::Void => Type::Void,
        }
    }

    /// Whether two types are the same.
    pub fn same(&self, other: &Type) -> (r: bool)
        ensures
            r == (self@ == other@),
        decreases self,
    {
        match (self, other) {
            (Type::Int, Type::Int) => true,
            (Type::Int8, Type::Int8) => true,
            (Type::Bool, Type::Bool) => true,
            (Type::Void, Type::Void) => true,
            (Type::Ptr(a), Type::Ptr(b)) => a.same(b),
            (Type::Struct(a), Type::Struct(b)) => str_eq(a.as_str(), b.as_str()),
            (Type::Enum(a, x), Type::Enum(b, y)) => {
                str_eq(a.as_str(), b.as_str()) && str_eq(x.as_str(), y.as_str())
            },
            (Type::Array(a, n), Type::Array(b, m)) => *n == *m && a.same(b),
            _ => false,
        }
    }

    /// The LLVM spelling of this type.
    pub fn to_text(&self) -> (s: String)
        ensures
            s@ == type_text(self@),
    {
        let mut s = String::new();
        self.write_text(&mut s);
        assert(s@ =~= type_text(self@));
        s
    }

    /// Appends the LLVM spelling of this type to `out`.
    pub fn write_text(&self, out: &mut String)
        ensures
            final(out)@ == old(out)@ + type_text(self@),
        decreases self,
    {
        match self {
            Type::Int => out.append("i32"),
            Type::Int8 => out.append("i8"),
            Type::Bool => out.append("i1"),
            Type::Void => out.append("void"),
            Type::Ptr(_) => out.append("ptr"),
            Type::Struct(name) => {
                out.append("%");
                out.append(name.as_str());
                assert(final(out)@ =~= old(out)@ + type_text(self@));
            },
            Type::Enum(name, _) => {
                out.append("%");
                out.append(name.as_str());
                assert(final(out)@ =~= old(out)@ + type_text(self@));
            },
            Type::Array(ty, len) => {
                out.append("[");
                push_nat(out, *len as u128);
                out.append(" x ");
                ty.write_text(out);
                out.append("]");
                assert(final(out)@ =~= old(out)@ + type_text(self@));
            },
        }
    }
}

impl Clone for Type {
    fn clone(&self) -> (t: Type)
        ensures
            t@ == self@,
    {
        self.copy()
    }
}

impl std::str::FromStr for Type {
    type Err = ();

    fn from_str(value: &str) -> (r: Result<Type, ()>)
        ensures
            r matches Ok(t) && t@ == type_of_name(value@),
    {
        Ok(Type::from_name(value))
    }
}

} // verus!
