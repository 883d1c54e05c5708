use vstd::prelude::*;

use crate::ast::{SArg, SNode, SProgram};
use crate::code::{
    EnumTable, GErr, GState, GValue, emit, g, g_params, g_seq, gen_function, gen_functions, gen_program,
    jump_unless_terminated, start_state,
};
use crate::hir::{HArg, HFunction, HNode, HProgram};
use crate::scope::{bind, enter, leave, lookup};
use crate::semantic::function::{AState, an, an_bin, an_seq, initial_scopes, lemma_initial_scopes_len};
use crate::semantic::types::{FnSig, LetInfo};
use crate::semantic::{an_function, an_functions, an_program, typed_args};
use crate::text::nat_text;

verus! {

/// Whether every variable in the analysis scopes `sc` has a place among the
/// generator's variables `vars`.
pub open spec fn covers(sc: Seq<Map<Seq<char>, LetInfo>>, vars: Map<Seq<char>, GValue>) -> bool {
    forall|i: int, k: Seq<char>| 0 <= i < sc.len() && #[trigger] sc[i].contains_key(k) ==> vars.contains_key(k)
}

/// Whether the code for an analyzed node was generated, with the variables
/// of `sc` still in place, or stopped only because a counter ran out.
pub open spec fn generated_fine<T>(r: Result<(T, GState), (Seq<Seq<char>>, GErr)>, sc: Seq<Map<Seq<char>, LetInfo>>) -> bool {
    match r {
        Ok((_, cs)) => covers(sc, cs.vars),
        Err((_, e)) => e == GErr::Overflow,
    }
}

proof fn lemma_lookup_some(frames: Seq<Map<Seq<char>, LetInfo>>, k: Seq<char>)
    ensures
        lookup(frames, k) is Some ==> exists|i: int| 0 <= i < frames.len() && #[trigger] frames[i].contains_key(k),
    decreases frames.len(),
{
    if frames.len() > 0 {
        if frames.last().contains_key(k) {
            assert(frames[frames.len() - 1].contains_key(k));
        } else {
            lemma_lookup_some(frames.drop_last(), k);
            if lookup(frames.drop_last(), k) is Some {
                let i = choose|i: int| 0 <= i < frames.drop_last().len() && #[trigger] frames.drop_last()[i].contains_key(k);
                assert(frames[i].contains_key(k));
            }
        }
    }
}

proof fn lemma_covers_bind(sc: Seq<Map<Seq<char>, LetInfo>>, vars: Map<Seq<char>, GValue>, k: Seq<char>, info: LetInfo, v: GValue)
    requires
        sc.len() > 0,
        covers(sc, vars),
    ensures
        covers(bind(sc, k, info), vars.insert(k, v)),
        bind(sc, k, info).len() == sc.len(),
{
    let b = bind(sc, k, info);
    assert forall|i: int, x: Seq<char>| 0 <= i < b.len() && #[trigger] b[i].contains_key(x) implies vars.insert(k, v).contains_key(x) by {
        if i != sc.len() - 1 {
            assert(sc[i].contains_key(x));
        } else if x != k {
            assert(sc[i].contains_key(x));
        }
    }
}

proof fn lemma_covers_enter_leave(sc: Seq<Map<Seq<char>, LetInfo>>, vars: Map<Seq<char>, GValue>)
    ensures
        covers(sc, vars) ==> covers(enter(sc), vars),
        covers(sc, vars) ==> covers(leave(sc), vars),
{
    if covers(sc, vars) {
        assert forall|i: int, x: Seq<char>| 0 <= i < enter(sc).len() && #[trigger] enter(sc)[i].contains_key(x) implies vars.contains_key(x) by {
            if i < sc.len() {
                assert(sc[i].contains_key(x));
            }
        }
        assert forall|i: int, x: Seq<char>| 0 <= i < leave(sc).len() && #[trigger] leave(sc)[i].contains_key(x) implies vars.contains_key(x) by {
            assert(sc[i].contains_key(x));
        }
    }
}

/// The analysis of a node leaves as many scopes open as it found: a block
/// closes the scope it opened, so the bindings around it are again those in
/// force after it.
pub proof fn lemma_an_depth(sigs: Seq<(Seq<char>, FnSig)>, s: AState, n: SNode)
    requires
        s.scopes.len() > 0,
    ensures
        an(sigs, s, n) matches Ok((_, s1)) ==> s1.scopes.len() == s.scopes.len(),
    decreases n, 1int,
{
    match n {
        SNode::Add(..) | SNode::Sub(..) | SNode::Mul(..) | SNode::Div(..) | SNode::And(..) | SNode::Or(..)
        | SNode::Comparison(..) => lemma_an_bin_depth(sigs, s, n),
        SNode::Ret(r) => lemma_an_depth(sigs, s, *r),
        SNode::Let(_, _, v, _) => lemma_an_depth(sigs, s, *v),
        SNode::Assign(_, v) => lemma_an_depth(sigs, s, *v),
        SNode::Call(_, args) => lemma_an_seq_depth(sigs, s, args),
        SNode::If(c, b, eb) => {
            lemma_an_depth(sigs, s, *c);
            if let Ok((_, s1)) = an(sigs, s, *c) {
                lemma_an_depth(sigs, s1, *b);
                if let Ok((_, s2)) = an(sigs, s1, *b) {
                    if let Some(x) = eb {
                        lemma_an_depth(sigs, s2, *x);
                    }
                }
            }
        },
        SNode::While(c, b) => {
            lemma_an_depth(sigs, s, *c);
            if let Ok((_, s1)) = an(sigs, s, *c) {
                lemma_an_depth(sigs, s1, *b);
            }
        },
        SNode::Block(items) => lemma_an_seq_depth(sigs, AState { scopes: enter(s.scopes), ..s }, items),
        _ => {},
    }
}

proof fn lemma_an_bin_depth(sigs: Seq<(Seq<char>, FnSig)>, s: AState, n: SNode)
    requires
        s.scopes.len() > 0,
    ensures
        an_bin(sigs, s, n) matches Ok((_, s1)) ==> s1.scopes.len() == s.scopes.len(),
    decreases n, 0int,
{
    match n {
        SNode::Add(l, r) | SNode::Sub(l, r) | SNode::Mul(l, r) | SNode::Div(l, r) | SNode::And(l, r)
        | SNode::Or(l, r) | SNode::Comparison(_, l, r) => {
            lemma_an_depth(sigs, s, *l);
            if let Ok((_, s1)) = an(sigs, s, *l) {
                lemma_an_depth(sigs, s1, *r);
            }
        },
        _ => {},
    }
}

proof fn lemma_an_seq_depth(sigs: Seq<(Seq<char>, FnSig)>, s: AState, items: Seq<SNode>)
    requires
        s.scopes.len() > 0,
    ensures
        an_seq(sigs, s, items) matches Ok((_, s1)) ==> s1.scopes.len() == s.scopes.len(),
    decreases items, 1int,
{
    if items.len() > 0 {
        lemma_an_depth(sigs, s, items[0]);
        if let Ok((_, s1)) = an(sigs, s, items[0]) {
            lemma_an_seq_depth(sigs, s1, items.subrange(1, items.len() as int));
        }
    }
}

/// The code for an analyzed node can be generated, as long as every variable
/// in scope has its place: the analysis only gives nodes that the generator
/// translates, and only reads variables that a `let` or a parameter defined.
#[verifier::spinoff_prover]
proof fn lemma_analyzed_node(sigs: Seq<(Seq<char>, FnSig)>, s: AState, n: SNode, e: EnumTable, cs: GState)
    requires
        s.scopes.len() > 0,
        covers(s.scopes, cs.vars),
    ensures
        match an(sigs, s, n) {
            Ok((h, s1)) => generated_fine(g(e, cs, h), s1.scopes),
            Err(_) => true,
        },
    decreases n, 1int,
{
    match n {
        SNode::Add(..) | SNode::Sub(..) | SNode::Mul(..) | SNode::Div(..) | SNode::And(..) | SNode::Or(..)
        | SNode::Comparison(..) => lemma_analyzed_bin(sigs, s, n, e, cs),
        SNode::Ret(r) => {
            lemma_analyzed_node(sigs, s, *r, e, GState { has_return: true, ..cs });
        },
        SNode::Let(name, ty, value, m) => {
            lemma_analyzed_node(sigs, s, *value, e, cs);
            lemma_an_depth(sigs, s, *value);
            if let Ok((h, s1)) = an(sigs, s, *value) {
                if let Ok((rv, cs1)) = g(e, cs, h) {
                    if let Ok(vt) = crate::semantic::function::typed(h) {
                        let t = match ty {
                            Some(tn) => crate::types::type_of_name(tn),
                            None => vt,
                        };
                        lemma_covers_bind(
                            s1.scopes,
                            cs1.vars,
                            name,
                            LetInfo { is_mut: m, ty: t },
                            GValue { name: crate::code::reg_name(cs1.index), ty: crate::types::SType::Ptr(Box::new(t)) },
                        );
                    }
                }
            }
        },
        SNode::RLet(name) => {
            lemma_lookup_some(s.scopes, name);
        },
        SNode::Assign(name, value) => {
            lemma_analyzed_node(sigs, s, *value, e, cs);
            if let Ok((rn, s1)) = an(sigs, s, *value) {
                lemma_lookup_some(s1.scopes, name);
            }
        },
        SNode::Call(_, args) => {
            lemma_analyzed_seq(sigs, s, args, e, cs);
        },
        SNode::If(..) => lemma_analyzed_if(sigs, s, n, e, cs),
        SNode::While(..) => lemma_analyzed_while(sigs, s, n, e, cs),
        SNode::Block(items) => {
            let inner = AState { scopes: enter(s.scopes), ..s };
            lemma_covers_enter_leave(s.scopes, cs.vars);
            lemma_analyzed_seq(sigs, inner, items, e, cs);
            lemma_an_seq_depth(sigs, inner, items);
            if let Ok((hs, s1)) = an_seq(sigs, inner, items) {
                if let Ok((_, cs1)) = g_seq(e, cs, hs) {
                    lemma_covers_enter_leave(s1.scopes, cs1.vars);
                }
            }
        },
        _ => {},
    }
}

#[verifier::spinoff_prover]
#[verifier::rlimit(50)]
proof fn lemma_analyzed_if(sigs: Seq<(Seq<char>, FnSig)>, s: AState, n: SNode, e: EnumTable, cs: GState)
    requires
        s.scopes.len() > 0,
        covers(s.scopes, cs.vars),
        n is If,
    ensures
        match an(sigs, s, n) {
            Ok((h, s1)) => generated_fine(g(e, cs, h), s1.scopes),
            Err(_) => true,
        },
    decreases n, 0int,
{
    if let SNode::If(c, b, eb) = n {
        lemma_analyzed_node(sigs, s, *c, e, cs);
        lemma_an_depth(sigs, s, *c);
        if let Ok((hc, s1)) = an(sigs, s, *c) {
            lemma_an_depth(sigs, s1, *b);
            if let Ok((cv, cs1)) = g(e, cs, hc) {
                if cs1.label < u64::MAX {
                    let k = cs1.label;
                    let cs2 = emit(
                        GState { label: k + 1, ..cs1 },
                        "  br i1 "@ + cv.name + ", label %if_"@ + nat_text(k)
                            + (if eb is Some { ", label %else_"@ } else { ", label %ifafter_"@ }) + nat_text(k),
                    );
                    let cs3 = emit(GState { terminated: false, ..cs2 }, "if_"@ + nat_text(k) + ":"@);
                    lemma_analyzed_node(sigs, s1, *b, e, cs3);
                    if let Ok((hbody, s2)) = an(sigs, s1, *b) {
                        if let Ok((_, cs4)) = g(e, cs3, hbody) {
                            let cs5 = jump_unless_terminated(cs4, "ifafter_"@ + nat_text(k));
                            let cs6 = GState { terminated: false, ..cs5 };
                            match eb {
                                None => {
                                    let h = HNode::If(Box::new(hc), Box::new(hbody), None);
                                    assert(an(sigs, s, n) == Ok::<(HNode, AState), crate::semantic::function::SErr>((h, s2)));
                                    assert(g(e, cs, h) == crate::code::g_if(e, cs, h));
                                },
                                Some(x) => {
                                    lemma_analyzed_node(sigs, s2, *x, e, emit(cs6, "else_"@ + nat_text(k) + ":"@));
                                    if let Ok((he, s3)) = an(sigs, s2, *x) {
                                        let h = HNode::If(Box::new(hc), Box::new(hbody), Some(Box::new(he)));
                                        assert(an(sigs, s, n) == Ok::<(HNode, AState), crate::semantic::function::SErr>((h, s3)));
                                        assert(g(e, cs, h) == crate::code::g_if(e, cs, h));
                                    }
                                },
                            }
                        }
                    }
                }
            }
        }
    }
}

#[verifier::spinoff_prover]
#[verifier::rlimit(50)]
proof fn lemma_analyzed_while(sigs: Seq<(Seq<char>, FnSig)>, s: AState, n: SNode, e: EnumTable, cs: GState)
    requires
        s.scopes.len() > 0,
        covers(s.scopes, cs.vars),
        n is While,
    ensures
        match an(sigs, s, n) {
            Ok((h, s1)) => generated_fine(g(e, cs, h), s1.scopes),
            Err(_) => true,
        },
    decreases n, 0int,
{
    if let SNode::While(c, b) = n {
        let cs1 = emit(cs, "  ; while"@);
        lemma_an_depth(sigs, s, *c);
        if cs1.label < u64::MAX {
            let k = cs1.label;
            let cs2 = emit(
                emit(GState { label: k + 1, ..cs1 }, "  br label %cond_"@ + nat_text(k)),
                "cond_"@ + nat_text(k) + ":"@,
            );
            lemma_analyzed_node(sigs, s, *c, e, cs2);
            if let Ok((hc, s1)) = an(sigs, s, *c) {
                if let Ok((cv, cs3)) = g(e, cs2, hc) {
                    let cs4 = emit(
                        emit(
                            cs3,
                            "  br i1 "@ + cv.name + ", label %while_"@ + nat_text(k) + ", label%whileend_"@ + nat_text(k),
                        ),
                        "while_"@ + nat_text(k) + ":"@,
                    );
                    let cs5 = GState {
                        next_start: Some("cond_"@ + nat_text(k)),
                        next_end: Some("whileend_"@ + nat_text(k)),
                        ..cs4
                    };
                    lemma_analyzed_node(sigs, s1, *b, e, cs5);
                    if let Ok((hbody, s2)) = an(sigs, s1, *b) {
                        let h = HNode::While(Box::new(hc), Box::new(hbody));
                        assert(an(sigs, s, n) == Ok::<(HNode, AState), crate::semantic::function::SErr>((h, s2)));
                        assert(g(e, cs, h) == crate::code::g_while(e, cs, h));
                    }
                }
            }
        }
    }
}

proof fn lemma_analyzed_bin(sigs: Seq<(Seq<char>, FnSig)>, s: AState, n: SNode, e: EnumTable, cs: GState)
    requires
        s.scopes.len() > 0,
        covers(s.scopes, cs.vars),
        n is Add || n is Sub || n is Mul || n is Div || n is And || n is Or || n is Comparison,
    ensures
        match an_bin(sigs, s, n) {
            Ok((h, s1)) => generated_fine(g(e, cs, h), s1.scopes),
            Err(_) => true,
        },
    decreases n, 0int,
{
    match n {
        SNode::Add(l, r) | SNode::Sub(l, r) | SNode::Mul(l, r) | SNode::Div(l, r) | SNode::And(l, r)
        | SNode::Or(l, r) | SNode::Comparison(_, l, r) => {
            lemma_analyzed_node(sigs, s, *l, e, cs);
            lemma_an_depth(sigs, s, *l);
            if let Ok((ln, s1)) = an(sigs, s, *l) {
                if let Ok((_, cs1)) = g(e, cs, ln) {
                    lemma_analyzed_node(sigs, s1, *r, e, cs1);
                }
                if let Ok((rn, s2)) = an(sigs, s1, *r) {
                    let op = crate::semantic::function::bin_of(n);
                    if let Ok(h) = crate::semantic::function::bin_node(op, ln, rn) {
                        assert(an_bin(sigs, s, n) == Ok::<(HNode, AState), crate::semantic::function::SErr>((h, s2)));
                        match op {
                            crate::semantic::function::Bin::Add => assert(h matches HNode::Add(a, b, _) && *a == ln && *b == rn),
                            crate::semantic::function::Bin::Sub => assert(h == HNode::Sub(Box::new(ln), Box::new(rn))),
                            crate::semantic::function::Bin::Mul => assert(h == HNode::Mul(Box::new(ln), Box::new(rn))),
                            crate::semantic::function::Bin::Div => assert(h == HNode::Div(Box::new(ln), Box::new(rn))),
                            crate::semantic::function::Bin::And => assert(h matches HNode::And(a, b, _) && *a == ln && *b == rn),
                            crate::semantic::function::Bin::Or => assert(h matches HNode::Or(a, b, _) && *a == ln && *b == rn),
                            crate::semantic::function::Bin::Cmp(c) => assert(h == HNode::Comparison(c, Box::new(ln), Box::new(rn))),
                        }
                        assert(g(e, cs, h) == crate::code::g_bin(e, cs, h));
                    }
                }
            }
        },
        _ => {},
    }
}

proof fn lemma_analyzed_seq(sigs: Seq<(Seq<char>, FnSig)>, s: AState, items: Seq<SNode>, e: EnumTable, cs: GState)
    requires
        s.scopes.len() > 0,
        covers(s.scopes, cs.vars),
    ensures
        match an_seq(sigs, s, items) {
            Ok((hs, s1)) => generated_fine(g_seq(e, cs, hs), s1.scopes),
            Err(_) => true,
        },
    decreases items, 1int,
{
    if items.len() > 0 {
        lemma_analyzed_node(sigs, s, items[0], e, cs);
        lemma_an_depth(sigs, s, items[0]);
        if let Ok((h, s1)) = an(sigs, s, items[0]) {
            let rest = items.subrange(1, items.len() as int);
            if let Ok((_, cs1)) = g(e, cs, h) {
                lemma_analyzed_seq(sigs, s1, rest, e, cs1);
            }
            if let Ok((hs, s2)) = an_seq(sigs, s1, rest) {
                let all = seq![h] + hs;
                assert(all[0] == h);
                assert(all.subrange(1, all.len() as int) =~= hs);
            }
        }
    }
}

proof fn lemma_initial_scopes_names(args: Seq<SArg>, k: Seq<char>)
    ensures
        initial_scopes(args).len() == 1,
        initial_scopes(args)[0].contains_key(k) ==> exists|i: int| 0 <= i < args.len() && #[trigger] args[i].name == k,
    decreases args.len(),
{
    lemma_initial_scopes_len(args);
    if args.len() > 0 {
        lemma_initial_scopes_names(args.drop_last(), k);
        let prev = initial_scopes(args.drop_last());
        if initial_scopes(args)[0].contains_key(k) && k != args.last().name {
            assert(prev[0].contains_key(k));
            let i = choose|i: int| 0 <= i < args.drop_last().len() && #[trigger] args.drop_last()[i].name == k;
            assert(args[i].name == k);
        } else if initial_scopes(args)[0].contains_key(k) {
            assert(args[args.len() - 1].name == k);
        }
    }
}

proof fn lemma_params_names(s: GState, args: Seq<HArg>, regs: Seq<Seq<char>>, entry: Seq<Seq<char>>)
    ensures
        match g_params(s, args, regs, entry) {
            Ok((s1, _, _)) => (forall|i: int| 0 <= i < args.len() ==> s1.vars.contains_key(#[trigger] args[i].name))
                && (forall|k: Seq<char>| s.vars.contains_key(k) ==> #[trigger] s1.vars.contains_key(k)),
            Err((_, e)) => e == GErr::Overflow,
        },
    decreases args.len(),
{
    if args.len() > 0 && s.index + 1 < u64::MAX {
        let a = args[0];
        let r = s.index + 1;
        let next = GState {
            index: s.index + 2,
            vars: s.vars.insert(a.name, GValue { name: crate::code::reg_name(r), ty: crate::types::SType::Ptr(Box::new(a.ty)) }),
            ..s
        };
        let rest = args.subrange(1, args.len() as int);
        let regs1 = regs.push(crate::types::type_text(a.ty) + " "@ + crate::code::reg_name(s.index));
        let entry1 = entry.push("  "@ + crate::code::reg_name(r) + " = alloca "@ + crate::types::type_text(a.ty)).push(
            "  store "@ + crate::types::type_text(a.ty) + " "@ + crate::code::reg_name(s.index) + ", ptr "@
                + crate::code::reg_name(r),
        );
        lemma_params_names(next, rest, regs1, entry1);
        if let Ok((s1, _, _)) = g_params(next, rest, regs1, entry1) {
            assert forall|i: int| 0 <= i < args.len() implies s1.vars.contains_key(#[trigger] args[i].name) by {
                if i > 0 {
                    assert(args[i] == rest[i - 1]);
                }
            }
        }
    }
}

/// The code for an analyzed function can be generated, unless it lacks a
/// `return` while its type is not `void`, or a counter runs out.
proof fn lemma_analyzed_function(sigs: Seq<(Seq<char>, FnSig)>, st: Seq<Seq<char>>, f: crate::ast::SFunction, e: EnumTable, out: Seq<Seq<char>>)
    ensures
        match an_function(sigs, st, f) {
            Ok((hf, _)) => match gen_function(e, hf, out) {
                Ok(_) => true,
                Err((_, x)) => x == GErr::MissingReturn || x == GErr::Overflow,
            },
            Err(_) => true,
        },
{
    let sc = initial_scopes(f.args);
    lemma_initial_scopes_len(f.args);
    let hargs = typed_args(f.args);
    lemma_params_names(start_state(out), hargs, Seq::empty(), Seq::empty());
    if let Ok((s1, regs, entry)) = g_params(start_state(out), hargs, Seq::empty(), Seq::empty()) {
        assert forall|i: int, k: Seq<char>| 0 <= i < sc.len() && #[trigger] sc[i].contains_key(k) implies s1.vars.contains_key(k) by {
            lemma_initial_scopes_names(f.args, k);
            let j = choose|j: int| 0 <= j < f.args.len() && #[trigger] f.args[j].name == k;
            assert(hargs[j].name == k);
        }
        if let Ok((h, _)) = an(sigs, AState { scopes: sc, strings: st, module: f.mod_name }, f.body) {
            let hf = HFunction { name: f.name, args: hargs, body: h, ty: f.ty, mod_name: f.mod_name };
            let head = "define "@ + crate::code::ret_text(hf) + " @\""@ + crate::hir::qualified_name(hf.mod_name, hf.name)
                + "\"("@ + crate::code::join(regs, ", "@) + ") {"@;
            let s2 = GState { out: s1.out.push(head).push("entry:"@) + entry, ..s1 };
            lemma_analyzed_node(sigs, AState { scopes: sc, strings: st, module: f.mod_name }, f.body, e, s2);
        }
    }
}

proof fn lemma_gen_functions_shift(e: EnumTable, hf: HFunction, rest: Seq<HFunction>, j: int, out: Seq<Seq<char>>)
    requires
        0 <= j,
    ensures
        gen_functions(e, seq![hf] + rest, j + 1, out) == gen_functions(e, rest, j, out),
    decreases rest.len() - j,
{
    let all = seq![hf] + rest;
    if j < rest.len() {
        assert(all[j + 1] == rest[j]);
        if let Ok(o) = gen_function(e, rest[j], out.push(Seq::empty())) {
            lemma_gen_functions_shift(e, hf, rest, j + 1, o);
        }
    }
}

proof fn lemma_analyzed_functions(sigs: Seq<(Seq<char>, FnSig)>, st: Seq<Seq<char>>, fs: Seq<crate::ast::SFunction>, i: int, e: EnumTable, out: Seq<Seq<char>>)
    ensures
        match an_functions(sigs, st, fs, i) {
            Ok((hfs, _)) => match gen_functions(e, hfs, 0, out) {
                Ok(_) => true,
                Err((_, x)) => x == GErr::MissingReturn || x == GErr::Overflow,
            },
            Err(_) => true,
        },
    decreases fs.len() - i,
{
    if 0 <= i < fs.len() {
        lemma_analyzed_function(sigs, st, fs[i], e, out.push(Seq::empty()));
        if let Ok((hf, st1)) = an_function(sigs, st, fs[i]) {
            if let Ok((hfs, _)) = an_functions(sigs, st1, fs, i + 1) {
                if let Ok(o) = gen_function(e, hf, out.push(Seq::empty())) {
                    lemma_analyzed_functions(sigs, st1, fs, i + 1, e, o);
                    lemma_gen_functions_shift(e, hf, hfs, 0, o);
                }
            }
        }
    }
}

/// A program that the semantic analysis accepts can always be compiled:
/// code generation may only stop because a function whose type is not
/// `void` has no `return`, or because a function needs more registers or
/// labels than a counter can number.
pub proof fn lemma_analyzed_program_compiles(p: SProgram)
    ensures
        match an_program(p) {
            Ok((fs, st)) => match gen_program(
                HProgram { functions: fs, strings: st, struct_map: Seq::empty(), enum_map: Seq::empty() },
            ) {
                Ok(_) => true,
                Err((_, x)) => x == GErr::MissingReturn || x == GErr::Overflow,
            },
            Err(_) => true,
        },
{
    if let Ok(sigs) = crate::semantic::check_functions(p.functions) {
        if let Ok((fs, st)) = an_functions(sigs, Seq::empty(), p.functions, 0) {
            let hp = HProgram { functions: fs, strings: st, struct_map: Seq::empty(), enum_map: Seq::empty() };
            lemma_analyzed_functions(sigs, Seq::empty(), p.functions, 0, Seq::empty(), crate::code::header_lines(hp));
        }
    }
}

} // verus!
