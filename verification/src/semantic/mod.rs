use vstd::prelude::*;

use crate::ast::{Arg, Program, SArg, SFunction, SProgram};
use crate::hir::{Arg as HirArg, Function as HirFunction, HArg, HFunction, Program as HirProgram, qualified_name, qualify};
use crate::semantic::function::{
    AState, FunctionAnalyzer, SErr, SemanticError, an, initial_scopes, lookup_in, sig_lookup, sigs_view, strs,
};
use crate::semantic::types::{FnSig, FunctionMetadata};
use crate::semantic::utils::{arg_type, parse_arg};
use crate::text::{copy_string, str_eq};
use crate::types::{Type, type_of_name};

pub mod function;
pub mod types;
pub mod utils;

verus! {

/// The names that a sequence of functions are called by: each qualified
/// with its module (see [`qualified_name`]).
pub open spec fn fn_names(fs: Seq<SFunction>) -> Seq<Seq<char>> {
    fs.map_values(|f: SFunction| qualified_name(f.mod_name, f.name))
}

/// The name of the first function, in order, whose own name (not qualified
/// with its module) an earlier function is already called by.
pub open spec fn first_duplicate(fs: Seq<SFunction>, i: int) -> Option<Seq<char>>
    decreases fs.len() - i,
{
    if i < 0 || i >= fs.len() {
        None
    } else if fn_names(fs.take(i)).contains(fs[i].name) {
        Some(fs[i].name)
    } else {
        first_duplicate(fs, i + 1)
    }
}

/// The signature table of a sequence of functions, in order, each under the
/// name it is called by.
pub open spec fn sig_table(fs: Seq<SFunction>) -> Seq<(Seq<char>, FnSig)> {
    fs.map_values(|f: SFunction| (qualified_name(f.mod_name, f.name), FnSig { args: f.args, ty: type_of_name(f.ty) }))
}

/// The signature table, or the error: a duplicated name, or no `main`.
pub open spec fn check_functions(fs: Seq<SFunction>) -> Result<Seq<(Seq<char>, FnSig)>, SErr> {
    match first_duplicate(fs, 0) {
        Some(n) => Err(SErr::Duplicated(n)),
        None => if sig_lookup(sig_table(fs), "main"@) is None {
            Err(SErr::NotDefined("main"@))
        } else {
            Ok(sig_table(fs))
        },
    }
}

/// The parameters of a function with their types.
pub open spec fn typed_args(args: Seq<SArg>) -> Seq<HArg> {
    args.map_values(|a: SArg| HArg { name: a.name, ty: arg_type(a.ty, None) })
}

/// The analysis of one function, with the string literals met before it:
/// the analyzed function and the string literals after it.
pub open spec fn an_function(sigs: Seq<(Seq<char>, FnSig)>, st: Seq<Seq<char>>, f: SFunction) -> Result<(HFunction, Seq<Seq<char>>), SErr> {
    match an(sigs, AState { scopes: initial_scopes(f.args), strings: st, module: f.mod_name }, f.body) {
        Err(e) => Err(e),
        Ok((h, s1)) => Ok((
            HFunction { name: f.name, args: typed_args(f.args), body: h, ty: f.ty, mod_name: f.mod_name },
            s1.strings,
        )),
    }
}

/// The analysis of the functions `fs[i..]`, in order.
pub open spec fn an_functions(sigs: Seq<(Seq<char>, FnSig)>, st: Seq<Seq<char>>, fs: Seq<SFunction>, i: int) -> Result<(Seq<HFunction>, Seq<Seq<char>>), SErr>
    decreases fs.len() - i,
{
    if i < 0 || i >= fs.len() {
        Ok((Seq::empty(), st))
    } else {
        match an_function(sigs, st, fs[i]) {
            Err(e) => Err(e),
            Ok((hf, st1)) => match an_functions(sigs, st1, fs, i + 1) {
                Err(e) => Err(e),
                Ok((hfs, st2)) => Ok((seq![hf] + hfs, st2)),
            },
        }
    }
}

/// The analysis of a program: its analyzed functions and string literals,
/// or why it is refused.
pub open spec fn an_program(p: SProgram) -> Result<(Seq<HFunction>, Seq<Seq<char>>), SErr> {
    match check_functions(p.functions) {
        Err(e) => Err(e),
        Ok(sigs) => an_functions(sigs, Seq::empty(), p.functions, 0),
    }
}

/// Analyzes a program (see [`an_program`]): the typed program, or why it is
/// refused.
pub fn try_analyze(program: &Program) -> (r: Result<HirProgram, SemanticError>)
    ensures
        match an_program(program@) {
            Ok((fs, st)) => r matches Ok(x) && x.functions@.map_values(|f: HirFunction| f@) == fs
                && strs(x.strings@) == st && x.struct_map@.len() == 0 && x.enum_map@.len() == 0 && x.wf(),
            Err(e) => r matches Err(x) && x@ == e,
        },
{
    let mut analyzer = Analyzer::new(program);
    analyzer.analyze()
}

/// Analyzes a program that the analysis accepts (see [`an_program`]): the
/// typed program.
pub fn analyze(program: &Program) -> (r: HirProgram)
    requires
        an_program(program@) is Ok,
    ensures
        match an_program(program@) {
            Ok((fs, st)) => r.functions@.map_values(|f: HirFunction| f@) == fs && strs(r.strings@) == st
                && r.struct_map@.len() == 0 && r.enum_map@.len() == 0 && r.wf(),
            Err(_) => false,
        },
{
    match try_analyze(program) {
        Ok(p) => p,
        Err(_) => HirProgram { functions: Vec::new(), strings: Vec::new(), struct_map: Vec::new(), enum_map: Vec::new() },
    }
}

/// A copy of a list of parameters.
fn copy_args(args: &Vec<Arg>) -> (r: Vec<Arg>)
    ensures
        r@.map_values(|a: Arg| a@) == args@.map_values(|a: Arg| a@),
{
    let mut r: Vec<Arg> = Vec::new();
    let mut i: usize = 0;
    while i < args.len()
        invariant
            i <= args@.len(),
            r@.map_values(|a: Arg| a@) == args@.take(i as int).map_values(|a: Arg| a@),
        decreases args.len() - i,
    {
        let ghost before = r@;
        let a = Arg { name: copy_string(&args[i].name), ty: copy_string(&args[i].ty) };
        assert(a@ == args@[i as int]@);
        r.push(a);
        assert(r@.map_values(|a: Arg| a@) =~= before.map_values(|a: Arg| a@).push(a@));
        assert(args@.take(i + 1) =~= args@.take(i as int).push(args@[i as int]));
        assert(args@.take(i + 1).map_values(|a: Arg| a@) =~= args@.take(i as int).map_values(|a: Arg| a@).push(a@));
        i = i + 1;
    }
    assert(args@.take(args@.len() as int) =~= args@);
    r
}

/// The analysis of a whole program.
struct Analyzer<'a> {
    program: &'a Program,
    functions: Vec<(String, FunctionMetadata)>,
}

impl<'a> Analyzer<'a> {
    fn new(program: &'a Program) -> (r: Self)
        ensures
            r.program == program,
            r.functions@.len() == 0,
    {
        Self { program, functions: Vec::new() }
    }

    /// Whether a function named `name` is in the table.
    fn has_function(&self, name: &String) -> (r: bool)
        ensures
            r == sigs_view(self.functions@).map_values(|e: (Seq<char>, FnSig)| e.0).contains(name@),
    {
        let ghost names = sigs_view(self.functions@).map_values(|e: (Seq<char>, FnSig)| e.0);
        let mut i: usize = 0;
        while i < self.functions.len()
            invariant
                i <= self.functions@.len(),
                names == sigs_view(self.functions@).map_values(|e: (Seq<char>, FnSig)| e.0),
                names.len() == self.functions@.len(),
                forall|k: int| 0 <= k < i ==> names[k] != name@,
            decreases self.functions.len() - i,
        {
            if str_eq(self.functions[i].0.as_str(), name.as_str()) {
                assert(names[i as int] == name@);
                return true;
            }
            i = i + 1;
        }
        false
    }

    /// Builds the signature table (see [`check_functions`]).
    fn analyze_functions(&mut self) -> (r: Result<(), SemanticError>)
        requires
            old(self).functions@.len() == 0,
        ensures
            final(self).program == old(self).program,
            match check_functions(old(self).program@.functions) {
                Ok(sigs) => r is Ok && sigs_view(final(self).functions@) == sigs,
                Err(e) => r matches Err(x) && x@ == e,
            },
    {
        let ghost fs = self.program@.functions;
        let n = self.program.functions.len();
        let mut i: usize = 0;
        assert(sigs_view(self.functions@) =~= sig_table(fs.take(0)));
        while i < n
            invariant
                n == self.program.functions@.len(),
                fs == self.program@.functions,
                fs.len() == n,
                self.program == old(self).program,
                i <= n,
                sigs_view(self.functions@) == sig_table(fs.take(i as int)),
                first_duplicate(fs, 0) == first_duplicate(fs, i as int),
            decreases n - i,
        {
            let f = &self.program.functions[i];
            proof {
                assert(sigs_view(self.functions@).map_values(|e: (Seq<char>, FnSig)| e.0)
                    =~= fn_names(fs.take(i as int)));
                assert(fs[i as int] == f@);
            }
            if self.has_function(&f.name) {
                return Err(SemanticError::Duplicated(copy_string(&f.name)));
            }
            let ghost before = self.functions@;
            let meta = FunctionMetadata { args: copy_args(&f.args), ty: Type::from_name(f.ty.as_str()) };
            let entry = (qualify(&f.mod_name, f.name.as_str()), meta);
            assert((entry.0@, entry.1@) == (qualified_name(f@.mod_name, f@.name), FnSig { args: f@.args, ty: type_of_name(f@.ty) }));
            self.functions.push(entry);
            proof {
                assert(fs.take(i + 1) =~= fs.take(i as int).push(f@));
                assert(sigs_view(self.functions@) =~= sigs_view(before).push((entry.0@, entry.1@)));
                assert(sig_table(fs.take(i + 1)) =~= sig_table(fs.take(i as int)).push((entry.0@, entry.1@)));
            }
            i = i + 1;
        }
        assert(fs.take(n as int) =~= fs);
        if lookup_in(&self.functions, "main").is_none() {
            return Err(SemanticError::NotDefined("main".to_owned()));
        }
        Ok(())
    }

    /// Analyzes every function, once the table is built.
    fn analyze(&mut self) -> (r: Result<HirProgram, SemanticError>)
        requires
            old(self).functions@.len() == 0,
        ensures
            match an_program(old(self).program@) {
                Ok((fs, st)) => r matches Ok(x) && x.functions@.map_values(|f: HirFunction| f@) == fs
                    && strs(x.strings@) == st && x.struct_map@.len() == 0 && x.enum_map@.len() == 0 && x.wf(),
                Err(e) => r matches Err(x) && x@ == e,
            },
    {
        match self.analyze_functions() {
            Ok(()) => {},
            Err(e) => return Err(e),
        }
        let ghost sigs = sigs_view(self.functions@);
        let ghost fs = self.program@.functions;
        let mut strings: Vec<String> = Vec::new();
        let mut functions: Vec<HirFunction> = Vec::new();
        let n = self.program.functions.len();
        let mut i: usize = 0;
        assert(strs(strings@) =~= Seq::<Seq<char>>::empty());
        assert(functions@.map_values(|f: HirFunction| f@) =~= Seq::<HFunction>::empty());
        while i < n
            invariant
                n == self.program.functions@.len(),
                fs == self.program@.functions,
                fs.len() == n,
                i <= n,
                sigs == sigs_view(self.functions@),
                self.program == old(self).program,
                an_program(old(self).program@) == an_functions(sigs, Seq::empty(), fs, 0),
                an_functions(sigs, Seq::empty(), fs, 0) == match an_functions(sigs, strs(strings@), fs, i as int) {
                    Err(e) => Err(e),
                    Ok((hfs, st)) => Ok((functions@.map_values(|f: HirFunction| f@) + hfs, st)),
                },
            decreases n - i,
        {
            let f = &self.program.functions[i];
            assert(fs[i as int] == f@);
            let mut analyzer = FunctionAnalyzer::new(f, &self.functions, strings);
            proof { crate::semantic::function::lemma_initial_scopes_len(f@.args); }
            let body = match analyzer.try_analyze_node(&f.body) {
                Ok(b) => b,
                Err(e) => return Err(e),
            };
            strings = analyzer.into_strings();
            let mut args: Vec<HirArg> = Vec::new();
            let mut j: usize = 0;
            while j < f.args.len()
                invariant
                    j <= f.args@.len(),
                    args@.map_values(|a: HirArg| a@) == typed_args(f@.args.take(j as int)),
                decreases f.args.len() - j,
            {
                let a = parse_arg(&f.args[j], None);
                let ghost before_args = args@;
                args.push(a);
                assert(f@.args[j as int] == f.args@[j as int]@);
                assert(f@.args.take(j + 1) =~= f@.args.take(j as int).push(f.args@[j as int]@));
                assert(args@.map_values(|a: HirArg| a@) =~= before_args.map_values(|a: HirArg| a@).push(a@));
                assert(typed_args(f@.args.take(j + 1)) =~= typed_args(f@.args.take(j as int)).push(a@));
                j = j + 1;
            }
            assert(f@.args.take(f.args@.len() as int) =~= f@.args);
            let mod_name = match &f.mod_name {
                Some(m) => Some(copy_string(m)),
                None => None,
            };
            let hf = HirFunction { name: copy_string(&f.name), args, body, ty: copy_string(&f.ty), mod_name };
            let ghost before = functions@;
            functions.push(hf);
            proof {
                assert(functions@.map_values(|f: HirFunction| f@) =~= before.map_values(|f: HirFunction| f@).push(hf@));
                match an_functions(sigs, strs(strings@), fs, i + 1) {
                    Err(_) => {},
                    Ok((hfs, st)) => {
                        assert(before.map_values(|f: HirFunction| f@) + (seq![hf@] + hfs)
                            =~= functions@.map_values(|f: HirFunction| f@) + hfs);
                    },
                }
            }
            i = i + 1;
        }
        assert(functions@.map_values(|f: HirFunction| f@) + Seq::<HFunction>::empty()
            =~= functions@.map_values(|f: HirFunction| f@));
        Ok(HirProgram { functions, strings, struct_map: Vec::new(), enum_map: Vec::new() })
    }
}

} // verus!
