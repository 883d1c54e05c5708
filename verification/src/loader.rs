use vstd::prelude::*;

use crate::ast::{Function, Parser, Program, SFunction, SProgram, p_program};
use crate::text::{copy_string, str_eq};
use crate::token::{lex_text, try_tokenize};

verus! {

/// A file that the loader asks to be read: the directory it is in, its
/// name there, and the name of the module it holds (none for the root file).
#[derive(Debug)]
pub struct LoadRequest {
    pub dir: String,
    pub file: String,
    pub mod_name: Option<String>,
}

/// What the loader wants next: a file read, or nothing more, the program
/// being complete.
#[derive(Debug)]
pub enum LoadStep {
    Read(LoadRequest),
    Done(Program),
}

/// Why a file handed to the loader cannot be used.
#[derive(Debug)]
pub enum LoadError {
    /// The text holds a character that starts no token.
    Tokenize,
    /// The tokens do not form a program.
    Parse,
}

/// Which file the loader asked for last.
#[derive(PartialEq, Eq, Structural, Debug, Clone, Copy)]
pub enum LoadPhase {
    /// No load has started.
    Idle,
    /// The root file of the program.
    Root,
    /// A module that a loaded file declares.
    Module,
    /// The standard module `std::cmp`.
    Std,
    /// Nothing: the program is complete.
    Done,
}

/// The model of a [`LoadRequest`].
pub struct LRequest {
    pub dir: Seq<char>,
    pub file: Seq<char>,
    pub mod_name: Option<Seq<char>>,
}

/// The model of a [`LoadStep`].
pub enum LAction {
    Read(LRequest),
    Done(SProgram),
}

/// The model of a [`Loader`].
#[verifier::ext_equal]
pub struct LState {
    pub base_dir: Seq<char>,
    pub std_dir: Seq<char>,
    pub resolved: Seq<Seq<char>>,
    pub pending: Seq<Seq<char>>,
    pub loaded: Seq<Seq<char>>,
    pub functions: Seq<SFunction>,
    pub phase: LoadPhase,
    pub current: Option<Seq<char>>,
}

pub open spec fn opt_text(o: Option<String>) -> Option<Seq<char>> {
    match o {
        Some(s) => Some(s@),
        None => None,
    }
}

impl LoadRequest {
    pub open spec fn view(&self) -> LRequest {
        LRequest { dir: self.dir@, file: self.file@, mod_name: opt_text(self.mod_name) }
    }
}

impl LoadStep {
    pub open spec fn view(&self) -> LAction {
        match self {
            LoadStep::Read(r) => LAction::Read(r@),
            LoadStep::Done(p) => LAction::Done(p@),
        }
    }
}

/// The program that a source text holds, if it tokenizes and parses.
pub open spec fn parse_source(text: Seq<char>) -> Option<SProgram> {
    match lex_text(text) {
        None => None,
        Some(t) => match p_program(t, 0) {
            None => None,
            Some((p, _)) => Some(p),
        },
    }
}

/// The name under which the standard comparison module is loaded.
pub open spec fn std_mod_name() -> Seq<char> {
    "std::cmp"@
}

/// The next module to load from the worklist `pending`, taken from its
/// end, skipping the modules already resolved; and what is left of the
/// worklist after it.
pub open spec fn next_pending(resolved: Seq<Seq<char>>, pending: Seq<Seq<char>>) -> (Seq<Seq<char>>, Option<Seq<char>>)
    decreases pending.len(),
{
    if pending.len() == 0 {
        (pending, None)
    } else if resolved.contains(pending.last()) {
        next_pending(resolved, pending.drop_last())
    } else {
        (pending.drop_last(), Some(pending.last()))
    }
}

/// The functions `fs`, each marked as belonging to module `m`.
pub open spec fn in_module(fs: Seq<SFunction>, m: Option<Seq<char>>) -> Seq<SFunction> {
    fs.map_values(|f: SFunction| SFunction { mod_name: m, ..f })
}

/// The state once the file asked for holds the program `p`: its functions
/// are added, marked with the module of the file, and, unless it is the
/// standard module, the modules it declares join the worklist.
pub open spec fn received(s: LState, p: SProgram) -> LState {
    LState {
        pending: if s.phase == LoadPhase::Std { s.pending } else { s.pending + p.mods },
        functions: s.functions + in_module(p.functions, s.current),
        ..s
    }
}

/// What the loader does next from state `s`: read the next unresolved
/// module, or else the standard module, or else give the program.
pub open spec fn advance(s: LState) -> (LState, LAction) {
    if s.phase == LoadPhase::Std {
        (
            LState { phase: LoadPhase::Done, loaded: Seq::empty(), functions: Seq::empty(), ..s },
            LAction::Done(SProgram { mods: s.loaded.push(std_mod_name()), functions: s.functions }),
        )
    } else {
        let (rest, next) = next_pending(s.resolved, s.pending);
        match next {
            Some(m) => (
                LState {
                    resolved: s.resolved.push(m),
                    pending: rest,
                    loaded: s.loaded.push(m),
                    phase: LoadPhase::Module,
                    current: Some(m),
                    ..s
                },
                LAction::Read(LRequest { dir: s.base_dir, file: m + ".rs"@, mod_name: Some(m) }),
            ),
            None => (
                LState { pending: rest, phase: LoadPhase::Std, current: Some(std_mod_name()), ..s },
                LAction::Read(LRequest { dir: s.std_dir, file: "cmp.rs"@, mod_name: Some(std_mod_name()) }),
            ),
        }
    }
}

/// Whether no name occurs twice in a list.
pub open spec fn distinct(s: Seq<Seq<char>>) -> bool {
    forall|i: int, j: int| 0 <= i < j < s.len() ==> s[i] != s[j]
}

/// Loads a program from its root file and the modules it declares, one
/// file at a time: it says which file to read, is handed its text, and in
/// the end gives the whole program. A module is loaded once, however many
/// files declare it; the standard module `std::cmp` comes last.
pub struct Loader {
    base_dir: String,
    std_dir: String,
    resolved_mod: Vec<String>,
    pending: Vec<String>,
    loaded: Vec<String>,
    functions: Vec<Function>,
    phase: LoadPhase,
    current_mod: Option<String>,
}

impl Loader {
    pub closed spec fn view(&self) -> LState {
        LState {
            base_dir: self.base_dir@,
            std_dir: self.std_dir@,
            resolved: self.resolved_mod@.map_values(|m: String| m@),
            pending: self.pending@.map_values(|m: String| m@),
            loaded: self.loaded@.map_values(|m: String| m@),
            functions: self.functions@.map_values(|f: Function| f@),
            phase: self.phase,
            current: crate::ast::opt_str_view(self.current_mod),
        }
    }

    /// A loader that finds modules in `base_dir` and the standard module
    /// in `std_dir`.
    pub fn new(base_dir: String, std_dir: String) -> (l: Self)
        ensures
            l@ == (LState {
                base_dir: base_dir@,
                std_dir: std_dir@,
                resolved: Seq::empty(),
                pending: Seq::empty(),
                loaded: Seq::empty(),
                functions: Seq::empty(),
                phase: LoadPhase::Idle,
                current: None,
            }),
    {
        let l = Self {
            base_dir,
            std_dir,
            resolved_mod: Vec::new(),
            pending: Vec::new(),
            loaded: Vec::new(),
            functions: Vec::new(),
            phase: LoadPhase::Idle,
            current_mod: None,
        };
        assert(l@.resolved =~= Seq::<Seq<char>>::empty());
        assert(l@.pending =~= Seq::<Seq<char>>::empty());
        assert(l@.loaded =~= Seq::<Seq<char>>::empty());
        assert(l@.functions =~= Seq::<SFunction>::empty());
        l
    }

    /// Starts loading the program whose root file is `file_path` in the
    /// base directory: the file to read first. The modules resolved by
    /// earlier loads stay resolved.
    pub fn load(&mut self, file_path: &str) -> (r: LoadRequest)
        ensures
            final(self)@ == (LState {
                pending: Seq::empty(),
                loaded: Seq::empty(),
                functions: Seq::empty(),
                phase: LoadPhase::Root,
                current: None,
                ..old(self)@
            }),
            r@ == (LRequest { dir: old(self)@.base_dir, file: file_path@, mod_name: None }),
    {
        self.pending = Vec::new();
        self.loaded = Vec::new();
        self.functions = Vec::new();
        self.phase = LoadPhase::Root;
        self.current_mod = None;
        assert(self@.pending =~= Seq::<Seq<char>>::empty());
        assert(self@.loaded =~= Seq::<Seq<char>>::empty());
        assert(self@.functions =~= Seq::<SFunction>::empty());
        LoadRequest { dir: copy_string(&self.base_dir), file: file_path.to_owned(), mod_name: None }
    }

    /// Which file the loader asked for last.
    pub fn phase(&self) -> (r: LoadPhase)
        ensures
            r == self@.phase,
    {
        self.phase
    }

    /// Whether module `m` was resolved already.
    fn is_resolved(&self, m: &String) -> (r: bool)
        ensures
            r == self@.resolved.contains(m@),
    {
        let ghost names = self@.resolved;
        let mut i: usize = 0;
        while i < self.resolved_mod.len()
            invariant
                i <= self.resolved_mod@.len(),
                names == self@.resolved,
                names.len() == self.resolved_mod@.len(),
                forall|k: int| 0 <= k < i ==> names[k] != m@,
            decreases self.resolved_mod.len() - i,
        {
            if str_eq(self.resolved_mod[i].as_str(), m.as_str()) {
                assert(names[i as int] == m@);
                return true;
            }
            i = i + 1;
        }
        false
    }

    /// Hands in the text of the file asked for last, and gets what to do
    /// next (see [`received`] and [`advance`]). A text that does not
    /// tokenize or parse is refused, and the loader is left as it was.
    #[verifier::spinoff_prover]
    #[verifier::rlimit(60)]
    pub fn next(&mut self, source: &str) -> (r: Result<LoadStep, LoadError>)
        requires
            old(self)@.phase == LoadPhase::Root || old(self)@.phase == LoadPhase::Module
                || old(self)@.phase == LoadPhase::Std,
        ensures
            match parse_source(source@) {
                None => final(self)@ == old(self)@ && (r matches Err(e) && (e is Tokenize <==> lex_text(source@) is None)),
                Some(p) => r matches Ok(step) && (final(self)@, step@) == advance(received(old(self)@, p)),
            },
            distinct(old(self)@.resolved) ==> distinct(final(self)@.resolved),
    {
        let tokens = match try_tokenize(source) {
            Some(t) => t,
            None => return Err(LoadError::Tokenize),
        };
        let mut parser = Parser::new(&tokens);
        let program = match parser.try_program() {
            Some(p) => p,
            None => return Err(LoadError::Parse),
        };
        let ghost s0 = self@;
        let ghost p = program@;
        let Program { mods, functions } = program;
        self.add_functions(functions);
        assert(self@.functions =~= s0.functions + in_module(p.functions, s0.current));
        if self.phase != LoadPhase::Std {
            let mut mods = mods;
            let ghost before_pending = self@.pending;
            self.pending.append(&mut mods);
            assert(self@.pending =~= before_pending + p.mods);
        }
        assert(self@ == received(s0, p));
        proof {
            if distinct(s0.resolved) {
                lemma_module_read_once(s0, p);
            }
        }
        Ok(self.advance())
    }

    /// Adds `functions`, marked with the module of the file asked for last.
    fn add_functions(&mut self, functions: Vec<Function>)
        ensures
            final(self)@ == (LState {
                functions: old(self)@.functions + in_module(functions@.map_values(|f: Function| f@), old(self)@.current),
                ..old(self)@
            }),
    {
        let ghost s0 = self@;
        let ghost all = functions@.map_values(|f: Function| f@);
        let mut rest = functions;
        let n = rest.len();
        let mut i: usize = 0;
        while rest.len() > 0
            invariant
                all.len() == n,
                i + rest@.len() == all.len(),
                rest@.map_values(|f: Function| f@) == all.subrange(i as int, all.len() as int),
                self@ == (LState { functions: s0.functions + in_module(all.take(i as int), s0.current), ..s0 }),
            decreases rest.len(),
        {
            let ghost before = self@.functions;
            let ghost r0 = rest@;
            assert(r0.map_values(|f: Function| f@)[0] == all[i as int]);
            let mut f = rest.remove(0);
            assert(f@ == all[i as int]);
            assert(rest@.map_values(|f: Function| f@) =~= r0.map_values(|f: Function| f@).subrange(1, r0.len() as int));
            f.mod_name = match &self.current_mod {
                Some(m) => Some(copy_string(m)),
                None => None,
            };
            self.functions.push(f);
            proof {
                assert(rest@.map_values(|f: Function| f@) =~= all.subrange(i + 1, all.len() as int));
                assert(all.take(i + 1) =~= all.take(i as int).push(all[i as int]));
                assert(in_module(all.take(i + 1), s0.current) =~= in_module(all.take(i as int), s0.current).push(f@));
                assert(self@.functions =~= before.push(f@));
            }
            i = i + 1;
        }
        assert(all.take(all.len() as int) =~= all);
    }

    /// The next step from the current state (see [`advance`]).
    #[verifier::spinoff_prover]
    #[verifier::rlimit(60)]
    fn advance(&mut self) -> (step: LoadStep)
        requires
            old(self)@.phase == LoadPhase::Root || old(self)@.phase == LoadPhase::Module
                || old(self)@.phase == LoadPhase::Std,
        ensures
            (final(self)@, step@) == advance(old(self)@),
    {
        let ghost s0 = self@;
        if self.phase == LoadPhase::Std {
            self.phase = LoadPhase::Done;
            let mut mods: Vec<String> = Vec::new();
            std::mem::swap(&mut mods, &mut self.loaded);
            let mut functions: Vec<Function> = Vec::new();
            std::mem::swap(&mut functions, &mut self.functions);
            mods.push("std::cmp".to_owned());
            assert(mods@.map_values(|m: String| m@) =~= s0.loaded.push(std_mod_name()));
            assert(self@ =~= (LState { phase: LoadPhase::Done, loaded: Seq::empty(), functions: Seq::empty(), ..s0 }));
            return LoadStep::Done(Program { mods, functions });
        }
        loop
            invariant
                s0 == old(self)@,
                self@.phase == s0.phase,
                s0.phase != LoadPhase::Std,
                self@ == (LState { pending: self@.pending, ..s0 }),
                next_pending(s0.resolved, s0.pending) == next_pending(s0.resolved, self@.pending),
            decreases self.pending.len(),
        {
            let ghost before = self@.pending;
            match self.pending.pop() {
                None => {
                    assert(self@.pending =~= before);
                    self.phase = LoadPhase::Std;
                    self.current_mod = Some("std::cmp".to_owned());
                    let req = LoadRequest {
                        dir: copy_string(&self.std_dir),
                        file: "cmp.rs".to_owned(),
                        mod_name: Some("std::cmp".to_owned()),
                    };
                    assert(self@ =~= (LState { pending: next_pending(s0.resolved, s0.pending).0, phase: LoadPhase::Std, current: Some(std_mod_name()), ..s0 }));
                    return LoadStep::Read(req);
                },
                Some(m) => {
                    assert(self@.pending =~= before.drop_last());
                    assert(m@ == before.last());
                    if !self.is_resolved(&m) {
                        let ghost rest = self@.pending;
                        self.resolved_mod.push(copy_string(&m));
                        self.loaded.push(copy_string(&m));
                        self.phase = LoadPhase::Module;
                        self.current_mod = Some(copy_string(&m));
                        let mut file = copy_string(&m);
                        file.append(".rs");
                        let req = LoadRequest { dir: copy_string(&self.base_dir), file, mod_name: Some(m) };
                        assert(self@ =~= (LState {
                            resolved: s0.resolved.push(req@.mod_name->Some_0),
                            pending: rest,
                            loaded: s0.loaded.push(req@.mod_name->Some_0),
                            phase: LoadPhase::Module,
                            current: req@.mod_name,
                            ..s0
                        }));
                        return LoadStep::Read(req);
                    }
                },
            }
        }
    }
}

proof fn lemma_next_pending(resolved: Seq<Seq<char>>, pending: Seq<Seq<char>>)
    ensures
        next_pending(resolved, pending).1 matches Some(m) ==> !resolved.contains(m),
    decreases pending.len(),
{
    if pending.len() > 0 && resolved.contains(pending.last()) {
        lemma_next_pending(resolved, pending.drop_last());
    }
}

/// A module is read at most once: whatever file was handed in, the module
/// the loader asks for next was not resolved before, it is resolved from
/// then on, and no module is resolved twice. When the loader gives the
/// program instead, the standard module is the last of its modules.
pub proof fn lemma_module_read_once(s: LState, p: SProgram)
    requires
        distinct(s.resolved),
    ensures
        distinct(advance(received(s, p)).0.resolved),
        advance(received(s, p)).1 matches LAction::Read(req) ==> (advance(received(s, p)).0.phase == LoadPhase::Module
            ==> (req.mod_name matches Some(m) && !s.resolved.contains(m)
                && advance(received(s, p)).0.resolved == s.resolved.push(m))),
        advance(received(s, p)).1 matches LAction::Done(prog) ==> prog.mods.last() == std_mod_name(),
{
    let r = received(s, p);
    lemma_next_pending(r.resolved, r.pending);
    let s2 = advance(r).0;
    if r.phase != LoadPhase::Std {
        if let Some(m) = next_pending(r.resolved, r.pending).1 {
            assert forall|i: int, j: int| 0 <= i < j < s2.resolved.len() implies s2.resolved[i] != s2.resolved[j] by {
                if j == s.resolved.len() {
                    assert(s.resolved.contains(s2.resolved[i]));
                }
            }
        }
    }
}

proof fn lemma_next_pending_keeps(resolved: Seq<Seq<char>>, pending: Seq<Seq<char>>, m: Seq<char>)
    ensures
        next_pending(resolved, pending).1 is None ==> next_pending(resolved, pending).0.len() == 0,
        pending.contains(m) ==> resolved.contains(m) || next_pending(resolved, pending).1 == Some(m)
            || next_pending(resolved, pending).0.contains(m),
    decreases pending.len(),
{
    if pending.len() > 0 {
        lemma_next_pending_keeps(resolved, pending.drop_last(), m);
        if pending.contains(m) && m != pending.last() {
            let k = choose|k: int| 0 <= k < pending.len() && pending[k] == m;
            assert(pending.drop_last()[k] == m);
        }
    }
}

/// Every module that the root file or a module file declares gets loaded:
/// once such a file is handed in, each module it declares, and each module
/// that was waiting, is resolved (asked for now or before) or still waits;
/// and the loader turns to the standard module only when every one of them
/// was resolved already.
pub proof fn lemma_declared_modules_are_loaded(s: LState, p: SProgram)
    requires
        s.phase == LoadPhase::Root || s.phase == LoadPhase::Module,
    ensures
        forall|m: Seq<char>| #![trigger p.mods.contains(m)] #![trigger s.pending.contains(m)]
            (p.mods.contains(m) || s.pending.contains(m)) ==> (advance(received(s, p)).0.resolved.contains(m)
                || advance(received(s, p)).0.pending.contains(m)),
        advance(received(s, p)).0.phase == LoadPhase::Std ==> forall|m: Seq<char>|
            #![trigger p.mods.contains(m)] #![trigger s.pending.contains(m)]
            (p.mods.contains(m) || s.pending.contains(m)) ==> s.resolved.contains(m),
{
    let r = received(s, p);
    assert forall|m: Seq<char>| #![trigger p.mods.contains(m)] #![trigger s.pending.contains(m)]
        (p.mods.contains(m) || s.pending.contains(m)) implies r.pending.contains(m) by {
        if p.mods.contains(m) {
            let k = choose|k: int| 0 <= k < p.mods.len() && p.mods[k] == m;
            assert(r.pending[s.pending.len() + k] == m);
        } else {
            let k = choose|k: int| 0 <= k < s.pending.len() && s.pending[k] == m;
            assert(r.pending[k] == m);
        }
    }
    assert forall|m: Seq<char>| #![trigger p.mods.contains(m)] #![trigger s.pending.contains(m)]
        (p.mods.contains(m) || s.pending.contains(m)) implies (advance(r).0.resolved.contains(m)
            || advance(r).0.pending.contains(m)) && (advance(r).0.phase == LoadPhase::Std ==> s.resolved.contains(m)) by {
        lemma_next_pending_keeps(r.resolved, r.pending, m);
        if next_pending(r.resolved, r.pending).1 == Some(m) {
            assert(advance(r).0.resolved[s.resolved.len() as int] == m);
        } else if r.resolved.contains(m) {
            let k = choose|k: int| 0 <= k < r.resolved.len() && r.resolved[k] == m;
            assert(advance(r).0.resolved[k] == m);
        } else {
            assert(advance(r).0.pending == next_pending(r.resolved, r.pending).0);
        }
    }
}

} // verus!
