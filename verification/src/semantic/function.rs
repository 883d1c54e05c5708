use vstd::prelude::*;

use crate::ast::{Function, Node, SNode, nodes_view, lemma_nodes_view};
use crate::hir::{HNode, Node as HirNode, hb, hnodes_view, lemma_hnodes_view_push, qualified_name, qualify};
use crate::scope::{ScopeMap, bind, enter, leave, lookup};
use crate::semantic::types::{FnSig, FunctionMetadata, LetInfo, LetMetadata};
use crate::semantic::utils::{arg_type, hir_type, parse_arg, try_type_of};
use crate::text::{copy_string, str_eq};
use crate::types::{SType, Type, type_of_name};

verus! {

/// Why a program is refused.
#[derive(Debug)]
pub enum SemanticError {
    /// A variable or function is used but not defined.
    NotDefined(String),
    /// Two functions have the same name.
    Duplicated(String),
    /// A variable that is not `mut` is assigned.
    NotMutable(String),
    /// Two operands, or the two sides of an assignment, differ in type:
    /// the expected type, then the one found.
    Mismatch(Type, Type),
    /// A call has the wrong number of arguments: the function, the number
    /// it expects, the number given.
    ArgCount(String, usize, usize),
    /// The type of this node was asked for, but it has none.
    Untyped(HirNode),
}

/// The model of a [`SemanticError`].
pub enum SErr {
    NotDefined(Seq<char>),
    Duplicated(Seq<char>),
    NotMutable(Seq<char>),
    Mismatch(SType, SType),
    ArgCount(Seq<char>, nat, nat),
    Untyped(HNode),
}

impl SemanticError {
    pub open spec fn view(&self) -> SErr {
        match self {
            SemanticError::NotDefined(n) => SErr::NotDefined(n@),
            SemanticError::Duplicated(n) => SErr::Duplicated(n@),
            SemanticError::NotMutable(n) => SErr::NotMutable(n@),
            SemanticError::Mismatch(a, b) => SErr::Mismatch(a@, b@),
            SemanticError::ArgCount(n, a, b) => SErr::ArgCount(n@, *a as nat, *b as nat),
            SemanticError::Untyped(h) => SErr::Untyped(h@),
        }
    }
}

/// The state the analysis of a function carries from node to node: the
/// variables in scope, the string literals met so far, and the module of the
/// function, which names called from it are qualified with.
pub struct AState {
    pub scopes: Seq<Map<Seq<char>, LetInfo>>,
    pub strings: Seq<Seq<char>>,
    pub module: Option<Seq<char>>,
}

/// The signature of the first function named `name`.
pub open spec fn sig_lookup(sigs: Seq<(Seq<char>, FnSig)>, name: Seq<char>) -> Option<FnSig>
    decreases sigs.len(),
{
    if sigs.len() == 0 {
        None
    } else if sigs[0].0 == name {
        Some(sigs[0].1)
    } else {
        sig_lookup(sigs.drop_first(), name)
    }
}

/// The type of a node, or the error that it has none.
pub open spec fn typed(h: HNode) -> Result<SType, SErr> {
    match hir_type(h) {
        Some(t) => Ok(t),
        None => Err(SErr::Untyped(h)),
    }
}

/// The string table after meeting the literal `s`, and the number that the
/// literal is given: the last entry of the table, where `s` is added to it
/// or was in it already.
pub open spec fn intern(st: Seq<Seq<char>>, s: Seq<char>) -> (Seq<Seq<char>>, nat) {
    if st.contains(s) {
        (st, (st.len() - 1) as nat)
    } else {
        (st.push(s), st.len())
    }
}

/// A string literal met for the first time joins the end of the table, and
/// its number is its place there; one met again leaves the table as it is.
/// (A literal met again is given the number of the last entry, which is its
/// own place only when it is that last entry.)
pub proof fn lemma_intern_table(st: Seq<Seq<char>>, s: Seq<char>)
    ensures
        !st.contains(s) ==> intern(st, s).0 == st.push(s) && intern(st, s).0[intern(st, s).1 as int] == s,
        st.contains(s) ==> intern(st, s).0 == st,
        st.len() > 0 && st.last() == s ==> intern(st, s).0[intern(st, s).1 as int] == s,
{
    if st.len() > 0 && st.last() == s {
        assert(st.contains(s)) by {
            assert(st[st.len() - 1] == s);
        }
    }
}

/// The typed node of two operands of the same type, or the error.
pub open spec fn same_typed(ln: HNode, rn: HNode) -> Result<SType, SErr> {
    match typed(ln) {
        Err(e) => Err(e),
        Ok(lt) => match typed(rn) {
            Err(e) => Err(e),
            Ok(rt) => if lt == rt {
                Ok(lt)
            } else {
                Err(SErr::Mismatch(lt, rt))
            },
        },
    }
}

pub enum Bin {
    Add,
    Sub,
    Mul,
    Div,
    And,
    Or,
    Cmp(crate::ast::ComparisonType),
}

/// The typed node for a binary operation on analyzed operands.
pub open spec fn bin_node(op: Bin, ln: HNode, rn: HNode) -> Result<HNode, SErr> {
    match op {
        Bin::Add => match same_typed(ln, rn) {
            Err(e) => Err(e),
            Ok(t) => Ok(HNode::Add(hb(ln), hb(rn), t)),
        },
        Bin::And => match same_typed(ln, rn) {
            Err(e) => Err(e),
            Ok(t) => Ok(HNode::And(hb(ln), hb(rn), t)),
        },
        Bin::Or => match same_typed(ln, rn) {
            Err(e) => Err(e),
            Ok(t) => Ok(HNode::Or(hb(ln), hb(rn), t)),
        },
        Bin::Sub => Ok(HNode::Sub(hb(ln), hb(rn))),
        Bin::Mul => Ok(HNode::Mul(hb(ln), hb(rn))),
        Bin::Div => Ok(HNode::Div(hb(ln), hb(rn))),
        Bin::Cmp(c) => Ok(HNode::Comparison(c, hb(ln), hb(rn))),
    }
}

/// The operator of a binary node of the syntax tree.
pub open spec fn bin_of(n: SNode) -> Bin {
    match n {
        SNode::Sub(..) => Bin::Sub,
        SNode::Mul(..) => Bin::Mul,
        SNode::Div(..) => Bin::Div,
        SNode::And(..) => Bin::And,
        SNode::Or(..) => Bin::Or,
        SNode::Comparison(c, _, _) => Bin::Cmp(c),
        _ => Bin::Add,
    }
}

/// The analysis of a node: the typed node and the state after it, or why
/// the program is refused.
pub open spec fn an(sigs: Seq<(Seq<char>, FnSig)>, s: AState, n: SNode) -> Result<(HNode, AState), SErr>
    decreases n, 1int,
{
    match n {
        SNode::Num(v) => Ok((HNode::Num(v), s)),
        SNode::Bool(b) => Ok((HNode::Bool(b), s)),
        SNode::String(text) => {
            let (st, i) = intern(s.strings, text);
            Ok((HNode::String(i), AState { strings: st, ..s }))
        },
        SNode::Add(..) | SNode::Sub(..) | SNode::Mul(..) | SNode::Div(..) | SNode::And(..)
        | SNode::Or(..) | SNode::Comparison(..) => an_bin(sigs, s, n),
        SNode::Ret(r) => match an(sigs, s, *r) {
            Err(e) => Err(e),
            Ok((h, s1)) => Ok((HNode::Ret(hb(h)), s1)),
        },
        SNode::Let(name, ty, value, m) => match an(sigs, s, *value) {
            Err(e) => Err(e),
            Ok((h, s1)) => match typed(h) {
                Err(e) => Err(e),
                Ok(vt) => {
                    let t = match ty {
                        Some(tn) => type_of_name(tn),
                        None => vt,
                    };
                    Ok((
                        HNode::Let(name, t, hb(h), m),
                        AState { scopes: bind(s1.scopes, name, LetInfo { is_mut: m, ty: t }), ..s1 },
                    ))
                },
            },
        },
        SNode::RLet(name) => match lookup(s.scopes, name) {
            None => Err(SErr::NotDefined(name)),
            Some(info) => Ok((HNode::RLet(name, info.ty), s)),
        },
        SNode::Assign(name, value) => match lookup(s.scopes, name) {
            None => Err(SErr::NotDefined(name)),
            Some(i0) => match an(sigs, s, *value) {
                Err(e) => Err(e),
                Ok((rn, s1)) => match lookup(s1.scopes, name) {
                    None => Err(SErr::NotDefined(name)),
                    Some(i1) => if !i1.is_mut {
                        Err(SErr::NotMutable(name))
                    } else {
                        match typed(rn) {
                            Err(e) => Err(e),
                            Ok(rt) => if i0.ty == rt {
                                Ok((HNode::Assign(hb(HNode::RLet(name, i0.ty)), hb(rn)), s1))
                            } else {
                                Err(SErr::Mismatch(i0.ty, rt))
                            },
                        }
                    },
                },
            },
        },
        SNode::Call(name, args) => if name == "printf"@ {
            match an_seq(sigs, s, args) {
                Err(e) => Err(e),
                Ok((hs, s1)) => Ok((HNode::Call(name, hs, SType::Int), s1)),
            }
        } else {
            match sig_lookup(sigs, qualified_name(s.module, name)) {
                None => Err(SErr::NotDefined(name)),
                Some(f) => if f.args.len() != args.len() {
                    Err(SErr::ArgCount(name, f.args.len(), args.len()))
                } else {
                    match an_seq(sigs, s, args) {
                        Err(e) => Err(e),
                        Ok((hs, s1)) => Ok((HNode::Call(qualified_name(s.module, name), hs, f.ty), s1)),
                    }
                },
            }
        },
        SNode::If(c, b, e) => match an(sigs, s, *c) {
            Err(x) => Err(x),
            Ok((hc, s1)) => match an(sigs, s1, *b) {
                Err(x) => Err(x),
                Ok((hbody, s2)) => match e {
                    None => Ok((HNode::If(hb(hc), hb(hbody), None), s2)),
                    Some(eb) => match an(sigs, s2, *eb) {
                        Err(x) => Err(x),
                        Ok((he, s3)) => Ok((HNode::If(hb(hc), hb(hbody), Some(hb(he))), s3)),
                    },
                },
            },
        },
        SNode::While(c, b) => match an(sigs, s, *c) {
            Err(x) => Err(x),
            Ok((hc, s1)) => match an(sigs, s1, *b) {
                Err(x) => Err(x),
                Ok((hbody, s2)) => Ok((HNode::While(hb(hc), hb(hbody)), s2)),
            },
        },
        SNode::Block(items) => match an_seq(sigs, AState { scopes: enter(s.scopes), ..s }, items) {
            Err(x) => Err(x),
            Ok((hs, s1)) => Ok((HNode::Block(hs), AState { scopes: leave(s1.scopes), ..s1 })),
        },
    }
}

/// The analysis of the two operands of a binary node, left first, and the
/// typed node for it.
pub open spec fn an_bin(sigs: Seq<(Seq<char>, FnSig)>, s: AState, n: SNode) -> Result<(HNode, AState), SErr>
    decreases n, 0int,
{
    match n {
        SNode::Add(l, r) | SNode::Sub(l, r) | SNode::Mul(l, r) | SNode::Div(l, r) | SNode::And(l, r)
        | SNode::Or(l, r) | SNode::Comparison(_, l, r) => match an(sigs, s, *l) {
            Err(e) => Err(e),
            Ok((ln, s1)) => match an(sigs, s1, *r) {
                Err(e) => Err(e),
                Ok((rn, s2)) => match bin_node(bin_of(n), ln, rn) {
                    Err(e) => Err(e),
                    Ok(h) => Ok((h, s2)),
                },
            },
        },
        _ => Ok((HNode::Underscore, s)),
    }
}

/// The analysis of a sequence of nodes, first to last.
pub open spec fn an_seq(sigs: Seq<(Seq<char>, FnSig)>, s: AState, items: Seq<SNode>) -> Result<(Seq<HNode>, AState), SErr>
    decreases items, 1int,
{
    if items.len() == 0 {
        Ok((Seq::empty(), s))
    } else {
        match an(sigs, s, items[0]) {
            Err(e) => Err(e),
            Ok((h, s1)) => match an_seq(sigs, s1, items.subrange(1, items.len() as int)) {
                Err(e) => Err(e),
                Ok((hs, s2)) => Ok((seq![h] + hs, s2)),
            },
        }
    }
}

/// The variables of a stack of scopes with what the analysis knows of them.
pub open spec fn info_scopes(fr: Seq<Map<Seq<char>, LetMetadata>>) -> Seq<Map<Seq<char>, LetInfo>> {
    Seq::new(fr.len(), |i: int| fr[i].map_values(|v: LetMetadata| v@))
}

pub open spec fn sigs_view(t: Seq<(String, FunctionMetadata)>) -> Seq<(Seq<char>, FnSig)> {
    t.map_values(|e: (String, FunctionMetadata)| (e.0@, e.1@))
}

pub open spec fn strs(v: Seq<String>) -> Seq<Seq<char>> {
    v.map_values(|s: String| s@)
}

/// The scopes at the start of a function: one scope, which binds each
/// parameter, not `mut`, to its type.
pub open spec fn initial_scopes(args: Seq<crate::ast::SArg>) -> Seq<Map<Seq<char>, LetInfo>>
    decreases args.len(),
{
    if args.len() == 0 {
        seq![Map::empty()]
    } else {
        bind(
            initial_scopes(args.drop_last()),
            args.last().name,
            LetInfo { is_mut: false, ty: arg_type(args.last().ty, None) },
        )
    }
}

pub proof fn lemma_initial_scopes_len(args: Seq<crate::ast::SArg>)
    ensures
        initial_scopes(args).len() == 1,
    decreases args.len(),
{
    if args.len() > 0 {
        lemma_initial_scopes_len(args.drop_last());
    }
}

proof fn lemma_info_lookup(fr: Seq<Map<Seq<char>, LetMetadata>>, k: Seq<char>)
    ensures
        lookup(info_scopes(fr), k) == match lookup(fr, k) {
            Some(v) => Some(v@),
            None => None::<LetInfo>,
        },
    decreases fr.len(),
{
    if fr.len() > 0 {
        assert(info_scopes(fr).drop_last() =~= info_scopes(fr.drop_last()));
        lemma_info_lookup(fr.drop_last(), k);
    }
}

proof fn lemma_info_bind(fr: Seq<Map<Seq<char>, LetMetadata>>, k: Seq<char>, v: LetMetadata)
    requires
        fr.len() > 0,
    ensures
        info_scopes(bind(fr, k, v)) == bind(info_scopes(fr), k, v@),
{
    assert(fr.last().insert(k, v).map_values(|x: LetMetadata| x@)
        =~= fr.last().map_values(|x: LetMetadata| x@).insert(k, v@));
    assert(info_scopes(bind(fr, k, v)) =~= bind(info_scopes(fr), k, v@));
}

proof fn lemma_info_enter_leave(fr: Seq<Map<Seq<char>, LetMetadata>>)
    ensures
        info_scopes(enter(fr)) == enter(info_scopes(fr)),
        info_scopes(leave(fr)) == leave(info_scopes(fr)),
{
    assert(Map::<Seq<char>, LetMetadata>::empty().map_values(|x: LetMetadata| x@) =~= Map::<Seq<char>, LetInfo>::empty());
    assert(info_scopes(enter(fr)) =~= enter(info_scopes(fr)));
    assert(info_scopes(leave(fr)) =~= leave(info_scopes(fr)));
}

/// The number of parameters and the type of the first function named
/// `name` in a signature table.
pub fn lookup_in(functions: &Vec<(String, FunctionMetadata)>, name: &str) -> (r: Option<(usize, Type)>)
    ensures
        match sig_lookup(sigs_view(functions@), name@) {
            Some(f) => r matches Some((n, t)) && n == f.args.len() && t@ == f.ty,
            None => r is None,
        },
{
    let mut i: usize = 0;
    assert(sigs_view(functions@).subrange(0, functions@.len() as int) =~= sigs_view(functions@));
    while i < functions.len()
        invariant
            i <= functions@.len(),
            sig_lookup(sigs_view(functions@), name@) == sig_lookup(sigs_view(functions@).subrange(i as int, functions@.len() as int), name@),
        decreases functions.len() - i,
    {
        let ghost rest = sigs_view(functions@).subrange(i as int, functions@.len() as int);
        let entry = &functions[i];
        if str_eq(entry.0.as_str(), name) {
            return Some((entry.1.args.len(), entry.1.ty.copy()));
        }
        assert(rest.drop_first() =~= sigs_view(functions@).subrange(i + 1, functions@.len() as int));
        i = i + 1;
    }
    None
}

/// Whether `v` holds the text of `s`.
pub fn contains_string(v: &Vec<String>, s: &String) -> (r: bool)
    ensures
        r == strs(v@).contains(s@),
{
    let mut i: usize = 0;
    while i < v.len()
        invariant
            i <= v@.len(),
            forall|k: int| 0 <= k < i ==> strs(v@)[k] != s@,
        decreases v.len() - i,
    {
        if v[i].as_str().to_owned() == s.as_str().to_owned() {
            assert(strs(v@)[i as int] == s@);
            return true;
        }
        i = i + 1;
    }
    false
}

/// The analysis of one function body.
pub struct FunctionAnalyzer<'a> {
    functions: &'a Vec<(String, FunctionMetadata)>,
    let_map: ScopeMap<LetMetadata>,
    strings: Vec<String>,
    mod_name: Option<String>,
}

impl<'a> FunctionAnalyzer<'a> {
    /// The signatures of the functions that may be called.
    pub closed spec fn sigs(&self) -> Seq<(Seq<char>, FnSig)> {
        sigs_view(self.functions@)
    }

    /// The variables in scope, the string literals met so far, and the
    /// module of the function.
    pub closed spec fn state(&self) -> AState {
        AState {
            scopes: info_scopes(self.let_map@),
            strings: strs(self.strings@),
            module: crate::ast::opt_str_view(self.mod_name),
        }
    }

    /// An analyzer for the body of `function`, with its parameters in scope,
    /// the function signatures `functions`, and the string literals met so far.
    pub fn new(function: &Function, functions: &'a Vec<(String, FunctionMetadata)>, strings: Vec<String>) -> (r: Self)
        ensures
            r.sigs() == sigs_view(functions@),
            r.state() == (AState { scopes: initial_scopes(function@.args), strings: strs(strings@), module: function@.mod_name }),
    {
        let mut let_map: ScopeMap<LetMetadata> = ScopeMap::new();
        let_map.new_stack();
        let ghost args = function@.args;
        proof {
            lemma_info_enter_leave(Seq::<Map<Seq<char>, LetMetadata>>::empty());
            assert(let_map@ =~= enter(Seq::<Map<Seq<char>, LetMetadata>>::empty()));
            assert(info_scopes(Seq::<Map<Seq<char>, LetMetadata>>::empty()) =~= Seq::<Map<Seq<char>, LetInfo>>::empty());
            assert(info_scopes(let_map@) =~= initial_scopes(args.take(0)));
        }
        let mut i: usize = 0;
        while i < function.args.len()
            invariant
                i <= function.args@.len(),
                args == function@.args,
                args.len() == function.args@.len(),
                let_map@.len() == 1,
                info_scopes(let_map@) == initial_scopes(args.take(i as int)),
            decreases function.args.len() - i,
        {
            let arg = &function.args[i];
            let a = parse_arg(arg, None);
            let ghost before = let_map@;
            let_map.insert(copy_string(&arg.name), LetMetadata { is_mut: false, ty: a.ty });
            proof {
                lemma_info_bind(before, arg.name@, LetMetadata { is_mut: false, ty: a.ty });
                assert(args.take(i + 1).drop_last() =~= args.take(i as int));
                assert(args.take(i + 1).last() == arg@);
            }
            i = i + 1;
        }
        assert(args.take(args.len() as int) =~= args);
        let mod_name = match &function.mod_name {
            Some(m) => Some(copy_string(m)),
            None => None,
        };
        FunctionAnalyzer { functions, let_map, strings, mod_name }
    }

    /// The string literals met so far.
    pub fn into_strings(self) -> (r: Vec<String>)
        ensures
            strs(r@) == self.state().strings,
    {
        self.strings
    }

    /// The number of parameters and the type of the first function named `name`.
    fn lookup_sig(&self, name: &str) -> (r: Option<(usize, Type)>)
        ensures
            match sig_lookup(self.sigs(), name@) {
                Some(f) => r matches Some((n, t)) && n == f.args.len() && t@ == f.ty,
                None => r is None,
            },
    {
        lookup_in(self.functions, name)
    }

    /// Meets the string literal `text` (see [`intern`]).
    fn intern(&mut self, text: &String) -> (r: usize)
        ensures
            final(self).sigs() == old(self).sigs(),
            final(self).let_map@ == old(self).let_map@,
            final(self).mod_name == old(self).mod_name,
            (final(self).state().strings, r as nat) == intern(old(self).state().strings, text@),
    {
        let found = contains_string(&self.strings, text);
        if !found {
            let ghost before = self.strings@;
            self.strings.push(copy_string(text));
            assert(strs(self.strings@) =~= strs(before).push(text@));
        }
        self.strings.len() - 1
    }

    /// Analyzes a binary node (see [`an_bin`]).
    #[verifier::spinoff_prover]
    #[verifier::rlimit(60)]
    fn analyze_bin(&mut self, node: &Node) -> (r: Result<HirNode, SemanticError>)
        requires
            old(self).state().scopes.len() > 0,
        ensures
            final(self).sigs() == old(self).sigs(),
            analyzed(an_bin(old(self).sigs(), old(self).state(), node@), r, final(self).state()),
            r is Ok ==> final(self).state().scopes.len() == old(self).state().scopes.len(),
        decreases node, 0int,
    {
        match node {
            Node::Add(l, r) | Node::Sub(l, r) | Node::Mul(l, r) | Node::Div(l, r) | Node::And(l, r)
            | Node::Or(l, r) | Node::Comparison(_, l, r) => {
                let ln = match self.try_analyze_node(l) {
                    Ok(h) => h,
                    Err(e) => return Err(e),
                };
                let rn = match self.try_analyze_node(r) {
                    Ok(h) => h,
                    Err(e) => return Err(e),
                };
                match node {
                    Node::Add(..) => match same_typed_pair(ln, rn) {
                        Ok((ln, rn, t)) => Ok(HirNode::Add(Box::new(ln), Box::new(rn), t)),
                        Err(e) => Err(e),
                    },
                    Node::And(..) => match same_typed_pair(ln, rn) {
                        Ok((ln, rn, t)) => Ok(HirNode::And(Box::new(ln), Box::new(rn), t)),
                        Err(e) => Err(e),
                    },
                    Node::Or(..) => match same_typed_pair(ln, rn) {
                        Ok((ln, rn, t)) => Ok(HirNode::Or(Box::new(ln), Box::new(rn), t)),
                        Err(e) => Err(e),
                    },
                    Node::Sub(..) => Ok(HirNode::Sub(Box::new(ln), Box::new(rn))),
                    Node::Mul(..) => Ok(HirNode::Mul(Box::new(ln), Box::new(rn))),
                    Node::Div(..) => Ok(HirNode::Div(Box::new(ln), Box::new(rn))),
                    Node::Comparison(c, _, _) => Ok(HirNode::Comparison(*c, Box::new(ln), Box::new(rn))),
                    _ => Ok(HirNode::Underscore),
                }
            },
            _ => Ok(HirNode::Underscore),
        }
    }

    /// Analyzes a node that the analysis accepts (see [`an`]): the typed node.
    pub fn analyze_node(&mut self, node: &Node) -> (r: HirNode)
        requires
            old(self).state().scopes.len() > 0,
            an(old(self).sigs(), old(self).state(), node@) is Ok,
        ensures
            final(self).sigs() == old(self).sigs(),
            an(old(self).sigs(), old(self).state(), node@) == Ok::<(HNode, AState), SErr>((r@, final(self).state())),
            node is Block ==> final(self).state().scopes == old(self).state().scopes,
    {
        proof {
            if let Node::Block(items) = node {
                lemma_nodes_view(items@);
                lemma_block_restores_scopes(self.sigs(), self.state(), nodes_view(items@));
            }
        }
        match self.try_analyze_node(node) {
            Ok(h) => h,
            Err(_) => HirNode::Underscore,
        }
    }

    /// Analyzes a node (see [`an`]): the typed node, or why the program is
    /// refused.
    #[verifier::spinoff_prover]
    #[verifier::rlimit(100)]
    pub fn try_analyze_node(&mut self, node: &Node) -> (r: Result<HirNode, SemanticError>)
        requires
            old(self).state().scopes.len() > 0,
        ensures
            final(self).sigs() == old(self).sigs(),
            analyzed(an(old(self).sigs(), old(self).state(), node@), r, final(self).state()),
            r is Ok ==> final(self).state().scopes.len() == old(self).state().scopes.len(),
        decreases node, 1int,
    {
        match node {
            Node::Num(n) => Ok(HirNode::Num(*n)),
            Node::Bool(b) => Ok(HirNode::Bool(*b)),
            Node::String(text) => {
                let i = self.intern(text);
                Ok(HirNode::String(i))
            },
            Node::Add(..) | Node::Sub(..) | Node::Mul(..) | Node::Div(..) | Node::And(..) | Node::Or(..)
            | Node::Comparison(..) => self.analyze_bin(node),
            Node::Ret(value) => {
                let h = match self.try_analyze_node(value) {
                    Ok(h) => h,
                    Err(e) => return Err(e),
                };
                Ok(HirNode::Ret(Box::new(h)))
            },
            Node::Let(name, ty, value, is_mut) => {
                let h = match self.try_analyze_node(value) {
                    Ok(h) => h,
                    Err(e) => return Err(e),
                };
                let (h, vt) = match typed_node(h) {
                    Ok(x) => x,
                    Err(e) => return Err(e),
                };
                let t = match ty {
                    Some(tn) => Type::from_name(tn.as_str()),
                    None => vt,
                };
                let meta = LetMetadata { is_mut: *is_mut, ty: t.copy() };
                proof { lemma_info_bind(self.let_map@, name@, meta); }
                self.let_map.insert(copy_string(name), meta);
                Ok(HirNode::Let(copy_string(name), t, Box::new(h), *is_mut))
            },
            Node::RLet(name) => {
                proof { lemma_info_lookup(self.let_map@, name@); }
                match self.let_map.get(name.as_str()) {
                    Some(info) => Ok(HirNode::RLet(copy_string(name), info.ty.copy())),
                    None => Err(SemanticError::NotDefined(copy_string(name))),
                }
            },
            Node::Assign(..) => self.analyze_assign(node),
            Node::Call(name, args) => {
                proof { lemma_nodes_view(args@); }
                if str_eq(name.as_str(), "printf") {
                    let hs = match self.analyze_items(args) {
                        Ok(hs) => hs,
                        Err(e) => return Err(e),
                    };
                    return Ok(HirNode::Call(copy_string(name), hs, Type::Int));
                }
                let call_name = qualify(&self.mod_name, name.as_str());
                match self.lookup_sig(call_name.as_str()) {
                    None => Err(SemanticError::NotDefined(copy_string(name))),
                    Some((n, ty)) => {
                        if n != args.len() {
                            return Err(SemanticError::ArgCount(copy_string(name), n, args.len()));
                        }
                        let hs = match self.analyze_items(args) {
                            Ok(hs) => hs,
                            Err(e) => return Err(e),
                        };
                        Ok(HirNode::Call(call_name, hs, ty))
                    },
                }
            },
            Node::If(c, b, e) => {
                let hc = match self.try_analyze_node(c) {
                    Ok(h) => h,
                    Err(x) => return Err(x),
                };
                let hbody = match self.try_analyze_node(b) {
                    Ok(h) => h,
                    Err(x) => return Err(x),
                };
                let he = match e {
                    None => None,
                    Some(x) => match self.try_analyze_node(x) {
                        Ok(h) => Some(Box::new(h)),
                        Err(err) => return Err(err),
                    },
                };
                Ok(HirNode::If(Box::new(hc), Box::new(hbody), he))
            },
            Node::While(c, b) => {
                let hc = match self.try_analyze_node(c) {
                    Ok(h) => h,
                    Err(x) => return Err(x),
                };
                let hbody = match self.try_analyze_node(b) {
                    Ok(h) => h,
                    Err(x) => return Err(x),
                };
                Ok(HirNode::While(Box::new(hc), Box::new(hbody)))
            },
            Node::Block(items) => {
                proof { lemma_info_enter_leave(self.let_map@); }
                self.let_map.new_stack();
                let hs = match self.analyze_items(items) {
                    Ok(hs) => hs,
                    Err(x) => return Err(x),
                };
                proof { lemma_info_enter_leave(self.let_map@); }
                self.let_map.drop_stack();
                Ok(HirNode::Block(hs))
            },
        }
    }

    /// Analyzes an assignment to `name` (the `Assign` case of [`an`]).
    #[verifier::spinoff_prover]
    #[verifier::rlimit(60)]
    fn analyze_assign(&mut self, node: &Node) -> (r: Result<HirNode, SemanticError>)
        requires
            old(self).state().scopes.len() > 0,
            node is Assign,
        ensures
            final(self).sigs() == old(self).sigs(),
            analyzed(an(old(self).sigs(), old(self).state(), node@), r, final(self).state()),
            r is Ok ==> final(self).state().scopes.len() == old(self).state().scopes.len(),
        decreases node, 0int,
    {
        let (name, value) = match node {
            Node::Assign(name, value) => (name, value),
            _ => return Ok(HirNode::Underscore),
        };
        proof { lemma_info_lookup(self.let_map@, name@); }
        let t0 = match self.let_map.get(name.as_str()) {
            Some(info) => info.ty.copy(),
            None => return Err(SemanticError::NotDefined(copy_string(name))),
        };
        let rn = match self.try_analyze_node(value) {
            Ok(h) => h,
            Err(e) => return Err(e),
        };
        proof { lemma_info_lookup(self.let_map@, name@); }
        let is_mut = match self.let_map.get(name.as_str()) {
            Some(info) => info.is_mut,
            None => return Err(SemanticError::NotDefined(copy_string(name))),
        };
        if !is_mut {
            return Err(SemanticError::NotMutable(copy_string(name)));
        }
        let (rn, rt) = match typed_node(rn) {
            Ok(x) => x,
            Err(e) => return Err(e),
        };
        if !t0.same(&rt) {
            return Err(SemanticError::Mismatch(t0, rt));
        }
        let lhs = HirNode::RLet(copy_string(name), t0);
        assert(lhs@ == HNode::RLet(name@, t0@));
        Ok(HirNode::Assign(Box::new(lhs), Box::new(rn)))
    }

    /// Analyzes a sequence of nodes, first to last (see [`an_seq`]).
    #[verifier::spinoff_prover]
    #[verifier::rlimit(60)]
    fn analyze_items(&mut self, items: &Vec<Node>) -> (r: Result<Vec<HirNode>, SemanticError>)
        requires
            old(self).state().scopes.len() > 0,
        ensures
            final(self).sigs() == old(self).sigs(),
            analyzed_seq(an_seq(old(self).sigs(), old(self).state(), nodes_view(items@)), r, final(self).state()),
            r is Ok ==> final(self).state().scopes.len() == old(self).state().scopes.len(),
        decreases items, 1int,
    {
        let ghost sigs = self.sigs();
        let ghost s0 = self.state();
        let ghost all = nodes_view(items@);
        proof { lemma_nodes_view(items@); }
        let mut out: Vec<HirNode> = Vec::new();
        let mut i: usize = 0;
        assert(all.subrange(0, all.len() as int) =~= all);
        assert(hnodes_view(out@) =~= Seq::<HNode>::empty());
        while i < items.len()
            invariant
                i <= items@.len(),
                all == nodes_view(items@),
                all.len() == items@.len(),
                forall|k: int| 0 <= k < items@.len() ==> #[trigger] all[k] == items@[k]@,
                self.sigs() == sigs,
                sigs == old(self).sigs(),
                s0 == old(self).state(),
                self.state().scopes.len() == s0.scopes.len(),
                s0.scopes.len() > 0,
                an_seq(sigs, s0, all) == seq_then(hnodes_view(out@), an_seq(sigs, self.state(), all.subrange(i as int, all.len() as int))),
            decreases items.len() - i,
        {
            let ghost rest = all.subrange(i as int, all.len() as int);
            assert(rest[0] == items@[i as int]@);
            assert(rest.subrange(1, rest.len() as int) =~= all.subrange(i + 1, all.len() as int));
            let h = match self.try_analyze_node(&items[i]) {
                Ok(h) => h,
                Err(e) => return Err(e),
            };
            proof { lemma_hnodes_view_push(out@, h); }
            let ghost before = hnodes_view(out@);
            out.push(h);
            proof {
                match an_seq(sigs, self.state(), all.subrange(i + 1, all.len() as int)) {
                    Ok((hs, st)) => {
                        assert(before + (seq![h@] + hs) =~= hnodes_view(out@) + hs);
                    },
                    Err(_) => {},
                }
            }
            i = i + 1;
        }
        assert(hnodes_view(out@) + Seq::<HNode>::empty() =~= hnodes_view(out@));
        Ok(out)
    }
}

/// `done` in front of the nodes of an analysis result.
pub open spec fn seq_then(done: Seq<HNode>, r: Result<(Seq<HNode>, AState), SErr>) -> Result<(Seq<HNode>, AState), SErr> {
    match r {
        Ok((hs, s)) => Ok((done + hs, s)),
        Err(e) => Err(e),
    }
}

/// Whether an analyzer result is what [`an`] gives, with `st` the state after it.
pub open spec fn analyzed(spec: Result<(HNode, AState), SErr>, r: Result<HirNode, SemanticError>, st: AState) -> bool {
    match spec {
        Ok((h, s1)) => r matches Ok(x) && x@ == h && st == s1,
        Err(e) => r matches Err(x) && x@ == e,
    }
}

/// Whether a result for a sequence of nodes is what [`an_seq`] gives.
pub open spec fn analyzed_seq(spec: Result<(Seq<HNode>, AState), SErr>, r: Result<Vec<HirNode>, SemanticError>, st: AState) -> bool {
    match spec {
        Ok((hs, s1)) => r matches Ok(x) && hnodes_view(x@) == hs && st == s1,
        Err(e) => r matches Err(x) && x@ == e,
    }
}

/// A node with its type, or the error that it has none (see [`typed`]).
fn typed_node(h: HirNode) -> (r: Result<(HirNode, Type), SemanticError>)
    ensures
        match typed(h@) {
            Ok(t) => r matches Ok((x, y)) && x@ == h@ && y@ == t,
            Err(e) => r matches Err(x) && x@ == e,
        },
{
    match try_type_of(&h) {
        Some(t) => Ok((h, t)),
        None => Err(SemanticError::Untyped(h)),
    }
}

/// Two operands with their common type, or the error (see [`same_typed`]).
fn same_typed_pair(ln: HirNode, rn: HirNode) -> (r: Result<(HirNode, HirNode, Type), SemanticError>)
    ensures
        match same_typed(ln@, rn@) {
            Ok(t) => r matches Ok((x, y, z)) && x@ == ln@ && y@ == rn@ && z@ == t,
            Err(e) => r matches Err(x) && x@ == e,
        },
{
    let (ln, lt) = match typed_node(ln) {
        Ok(x) => x,
        Err(e) => return Err(e),
    };
    let (rn, rt) = match typed_node(rn) {
        Ok(x) => x,
        Err(e) => return Err(e),
    };
    if lt.same(&rt) {
        Ok((ln, rn, lt))
    } else {
        Err(SemanticError::Mismatch(lt, rt))
    }
}

/// The analysis of a node changes only the innermost scope: it leaves as
/// many scopes open as it found, and the outer ones as they were.
pub proof fn lemma_an_keeps_outer_scopes(sigs: Seq<(Seq<char>, FnSig)>, s: AState, n: SNode)
    requires
        s.scopes.len() > 0,
    ensures
        an(sigs, s, n) matches Ok((_, s1)) ==> s1.scopes.len() == s.scopes.len()
            && s1.scopes.drop_last() == s.scopes.drop_last(),
    decreases n, 1int,
{
    match n {
        SNode::Add(..) | SNode::Sub(..) | SNode::Mul(..) | SNode::Div(..) | SNode::And(..) | SNode::Or(..)
        | SNode::Comparison(..) => lemma_an_bin_keeps_outer_scopes(sigs, s, n),
        SNode::Ret(r) => lemma_an_keeps_outer_scopes(sigs, s, *r),
        SNode::Let(name, _, v, m) => {
            lemma_an_keeps_outer_scopes(sigs, s, *v);
            if let Ok((_, s1)) = an(sigs, s, *v) {
                if let Ok((_, s2)) = an(sigs, s, n) {
                    assert(s2.scopes.drop_last() =~= s1.scopes.drop_last());
                }
            }
        },
        SNode::Assign(_, v) => lemma_an_keeps_outer_scopes(sigs, s, *v),
        SNode::Call(_, args) => lemma_an_seq_keeps_outer_scopes(sigs, s, args),
        SNode::If(c, b, eb) => {
            lemma_an_keeps_outer_scopes(sigs, s, *c);
            if let Ok((_, s1)) = an(sigs, s, *c) {
                lemma_an_keeps_outer_scopes(sigs, s1, *b);
                if let Ok((_, s2)) = an(sigs, s1, *b) {
                    if let Some(x) = eb {
                        lemma_an_keeps_outer_scopes(sigs, s2, *x);
                    }
                }
            }
        },
        SNode::While(c, b) => {
            lemma_an_keeps_outer_scopes(sigs, s, *c);
            if let Ok((_, s1)) = an(sigs, s, *c) {
                lemma_an_keeps_outer_scopes(sigs, s1, *b);
            }
        },
        SNode::Block(items) => {
            let inner = AState { scopes: enter(s.scopes), ..s };
            lemma_an_seq_keeps_outer_scopes(sigs, inner, items);
            assert(enter(s.scopes).drop_last() =~= s.scopes);
            if let Ok((_, s1)) = an_seq(sigs, inner, items) {
                assert(leave(s1.scopes) =~= s.scopes);
            }
        },
        _ => {},
    }
}

proof fn lemma_an_bin_keeps_outer_scopes(sigs: Seq<(Seq<char>, FnSig)>, s: AState, n: SNode)
    requires
        s.scopes.len() > 0,
    ensures
        an_bin(sigs, s, n) matches Ok((_, s1)) ==> s1.scopes.len() == s.scopes.len()
            && s1.scopes.drop_last() == s.scopes.drop_last(),
    decreases n, 0int,
{
    match n {
        SNode::Add(l, r) | SNode::Sub(l, r) | SNode::Mul(l, r) | SNode::Div(l, r) | SNode::And(l, r)
        | SNode::Or(l, r) | SNode::Comparison(_, l, r) => {
            lemma_an_keeps_outer_scopes(sigs, s, *l);
            if let Ok((_, s1)) = an(sigs, s, *l) {
                lemma_an_keeps_outer_scopes(sigs, s1, *r);
            }
        },
        _ => {},
    }
}

proof fn lemma_an_seq_keeps_outer_scopes(sigs: Seq<(Seq<char>, FnSig)>, s: AState, items: Seq<SNode>)
    requires
        s.scopes.len() > 0,
    ensures
        an_seq(sigs, s, items) matches Ok((_, s1)) ==> s1.scopes.len() == s.scopes.len()
            && s1.scopes.drop_last() == s.scopes.drop_last(),
    decreases items, 1int,
{
    if items.len() > 0 {
        lemma_an_keeps_outer_scopes(sigs, s, items[0]);
        if let Ok((_, s1)) = an(sigs, s, items[0]) {
            lemma_an_seq_keeps_outer_scopes(sigs, s1, items.subrange(1, items.len() as int));
        }
    }
}

/// A block leaves the variables as they were before it: the names bound by a
/// `let` inside it are no longer in scope after it, and the outer bindings
/// they hid are seen again.
pub proof fn lemma_block_restores_scopes(sigs: Seq<(Seq<char>, FnSig)>, s: AState, items: Seq<SNode>)
    requires
        s.scopes.len() > 0,
    ensures
        an(sigs, s, SNode::Block(items)) matches Ok((_, s1)) ==> s1.scopes == s.scopes
            && forall|k: Seq<char>| lookup(s1.scopes, k) == lookup(s.scopes, k),
{
    let inner = AState { scopes: enter(s.scopes), ..s };
    lemma_an_seq_keeps_outer_scopes(sigs, inner, items);
    assert(enter(s.scopes).drop_last() =~= s.scopes);
    if let Ok((_, s1)) = an_seq(sigs, inner, items) {
        assert(leave(s1.scopes) =~= s.scopes);
    }
}

/// The parameters of a function are in scope at the start of its body, and
/// none of them may be assigned: a name is bound there exactly when some
/// parameter has it, and every such binding is not `mut`.
pub proof fn lemma_parameters_not_mut(args: Seq<crate::ast::SArg>, k: Seq<char>)
    ensures
        lookup(initial_scopes(args), k) is Some <==> exists|j: int| 0 <= j < args.len() && #[trigger] args[j].name == k,
        lookup(initial_scopes(args), k) matches Some(info) ==> !info.is_mut,
    decreases args.len(),
{
    lemma_initial_scopes_len(args);
    if args.len() == 0 {
        let sc = initial_scopes(args);
        assert(!sc.last().contains_key(k));
        assert(lookup(sc.drop_last(), k) is None);
    } else {
        let prev = args.drop_last();
        lemma_initial_scopes_len(prev);
        lemma_parameters_not_mut(prev, k);
        let info = LetInfo { is_mut: false, ty: arg_type(args.last().ty, None) };
        assert(initial_scopes(args) == bind(initial_scopes(prev), args.last().name, info));
        if k == args.last().name {
            crate::scope::lemma_lookup_after_bind(initial_scopes(prev), k, info);
            assert(args[args.len() - 1].name == k);
        } else {
            crate::scope::lemma_lookup_other_after_bind(initial_scopes(prev), args.last().name, info, k);
            if exists|j: int| 0 <= j < args.len() && #[trigger] args[j].name == k {
                let j = choose|j: int| 0 <= j < args.len() && #[trigger] args[j].name == k;
                assert(prev[j].name == k);
            }
            if exists|j: int| 0 <= j < prev.len() && #[trigger] prev[j].name == k {
                let j = choose|j: int| 0 <= j < prev.len() && #[trigger] prev[j].name == k;
                assert(args[j].name == k);
            }
        }
    }
}

/// Assigning to a variable that is not `mut` is refused: unless the value
/// itself is refused first, the assignment is refused as `NotMutable`, as
/// long as the value does not rebind the variable.
pub proof fn lemma_assign_to_immutable(sigs: Seq<(Seq<char>, FnSig)>, s: AState, name: Seq<char>, v: SNode)
    requires
        lookup(s.scopes, name) matches Some(info) && !info.is_mut,
        an(sigs, s, v) matches Ok((_, s1)) ==> lookup(s1.scopes, name) == lookup(s.scopes, name),
    ensures
        an(sigs, s, SNode::Assign(name, Box::new(v))) == match an(sigs, s, v) {
            Err(e) => Err::<(HNode, AState), SErr>(e),
            Ok(_) => Err(SErr::NotMutable(name)),
        },
{
}

/// A function's parameter cannot be assigned at the start of its body: the
/// assignment is refused as `NotMutable` (unless the value is refused first
/// or rebinds the parameter).
pub proof fn lemma_parameter_not_assignable(sigs: Seq<(Seq<char>, FnSig)>, args: Seq<crate::ast::SArg>, strings: Seq<Seq<char>>, module: Option<Seq<char>>, j: int, v: SNode)
    requires
        0 <= j < args.len(),
        ({
            let s = AState { scopes: initial_scopes(args), strings, module };
            an(sigs, s, v) matches Ok((_, s1)) ==> lookup(s1.scopes, args[j].name) == lookup(s.scopes, args[j].name)
        }),
    ensures
        ({
            let s = AState { scopes: initial_scopes(args), strings, module };
            an(sigs, s, SNode::Assign(args[j].name, Box::new(v))) == match an(sigs, s, v) {
                Err(e) => Err::<(HNode, AState), SErr>(e),
                Ok(_) => Err(SErr::NotMutable(args[j].name)),
            }
        }),
{
    lemma_parameters_not_mut(args, args[j].name);
    lemma_assign_to_immutable(sigs, AState { scopes: initial_scopes(args), strings, module }, args[j].name, v);
}

} // verus!