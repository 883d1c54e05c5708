use vstd::prelude::*;

verus! {

/// The bindings of one scope, as a map from names.
pub open spec fn frame_map<V>(f: Seq<(String, V)>) -> Map<Seq<char>, V>
    decreases f.len(),
{
    if f.len() == 0 {
        Map::empty()
    } else {
        frame_map(f.drop_last()).insert(f.last().0@, f.last().1)
    }
}

/// Whether no name is bound twice in one scope.
pub open spec fn keys_distinct<V>(f: Seq<(String, V)>) -> bool {
    forall|i: int, j: int| 0 <= i < j < f.len() ==> (#[trigger] f[i]).0@ != (#[trigger] f[j]).0@
}

/// What `k` is bound to in a stack of scopes: its binding in the innermost
/// scope that binds it.
pub open spec fn lookup<V>(frames: Seq<Map<Seq<char>, V>>, k: Seq<char>) -> Option<V>
    decreases frames.len(),
{
    if frames.len() == 0 {
        None
    } else if frames.last().contains_key(k) {
        Some(frames.last()[k])
    } else {
        lookup(frames.drop_last(), k)
    }
}

/// The stack after binding `k` to `v` in the innermost scope.
pub open spec fn bind<V>(frames: Seq<Map<Seq<char>, V>>, k: Seq<char>, v: V) -> Seq<Map<Seq<char>, V>> {
    frames.update(frames.len() - 1, frames.last().insert(k, v))
}

/// The stack with a new, empty innermost scope.
pub open spec fn enter<V>(frames: Seq<Map<Seq<char>, V>>) -> Seq<Map<Seq<char>, V>> {
    frames.push(Map::empty())
}

/// The stack without its innermost scope (unchanged when there is none).
pub open spec fn leave<V>(frames: Seq<Map<Seq<char>, V>>) -> Seq<Map<Seq<char>, V>> {
    if frames.len() == 0 {
        frames
    } else {
        frames.drop_last()
    }
}

/// Reading a name right after binding it gives the value just bound.
pub proof fn lemma_lookup_after_bind<V>(frames: Seq<Map<Seq<char>, V>>, k: Seq<char>, v: V)
    requires
        frames.len() > 0,
    ensures
        lookup(bind(frames, k, v), k) == Some(v),
{
}

/// Binding a name leaves what every other name reads as it was.
pub proof fn lemma_lookup_other_after_bind<V>(frames: Seq<Map<Seq<char>, V>>, k: Seq<char>, v: V, other: Seq<char>)
    requires
        frames.len() > 0,
        other != k,
    ensures
        lookup(bind(frames, k, v), other) == lookup(frames, other),
{
    assert(bind(frames, k, v).drop_last() =~= frames.drop_last());
}

/// A new scope hides nothing: every name reads as it did outside it.
pub proof fn lemma_lookup_after_enter<V>(frames: Seq<Map<Seq<char>, V>>, k: Seq<char>)
    ensures
        lookup(enter(frames), k) == lookup(frames, k),
{
    assert(enter(frames).drop_last() =~= frames);
}

/// Closing a scope forgets every binding made in it: the stack is again
/// what it was before the scope was opened.
pub proof fn lemma_leave_forgets_bindings<V>(frames: Seq<Map<Seq<char>, V>>, k: Seq<char>, v: V)
    ensures
        leave(enter(frames)) == frames,
        leave(bind(enter(frames), k, v)) == frames,
{
    assert(leave(enter(frames)) =~= frames);
    assert(leave(bind(enter(frames), k, v)) =~= frames);
}

/// The stack after binding each pair of `kvs` in turn in the innermost scope.
pub open spec fn bind_all<V>(frames: Seq<Map<Seq<char>, V>>, kvs: Seq<(Seq<char>, V)>) -> Seq<Map<Seq<char>, V>>
    decreases kvs.len(),
{
    if kvs.len() == 0 {
        frames
    } else {
        bind(bind_all(frames, kvs.drop_last()), kvs.last().0, kvs.last().1)
    }
}

proof fn lemma_bind_all_keeps_outer<V>(frames: Seq<Map<Seq<char>, V>>, kvs: Seq<(Seq<char>, V)>)
    requires
        frames.len() > 0,
    ensures
        bind_all(frames, kvs).len() == frames.len(),
        bind_all(frames, kvs).drop_last() == frames.drop_last(),
    decreases kvs.len(),
{
    if kvs.len() > 0 {
        lemma_bind_all_keeps_outer(frames, kvs.drop_last());
        let inner = bind_all(frames, kvs.drop_last());
        assert(bind(inner, kvs.last().0, kvs.last().1).drop_last() =~= inner.drop_last());
    }
}

/// Closing a scope forgets every binding made in it, however many: after any
/// sequence of bindings in a new scope, closing it gives back the stack as it
/// was before the scope was opened.
pub proof fn lemma_leave_forgets_all_bindings<V>(frames: Seq<Map<Seq<char>, V>>, kvs: Seq<(Seq<char>, V)>)
    ensures
        leave(bind_all(enter(frames), kvs)) == frames,
{
    lemma_bind_all_keeps_outer(enter(frames), kvs);
    assert(enter(frames).drop_last() =~= frames);
}

/// A stack of scopes, each binding names to values; the innermost binding
/// of a name hides the outer ones.
#[derive(Debug)]
pub struct ScopeMap<V> {
    maps: Vec<Vec<(String, V)>>,
}

impl<V> ScopeMap<V> {
    #[verifier::type_invariant]
    closed spec fn distinct(&self) -> bool {
        forall|i: int| 0 <= i < self.maps@.len() ==> keys_distinct(#[trigger] self.maps@[i]@)
    }

    /// The scopes, outermost first.
    pub closed spec fn view(&self) -> Seq<Map<Seq<char>, V>> {
        Seq::new(self.maps@.len(), |i: int| frame_map(self.maps@[i]@))
    }

    /// A map with no scope.
    pub fn new() -> (s: Self)
        ensures
            s@ == Seq::<Map<Seq<char>, V>>::empty(),
    {
        let s = Self { maps: Vec::new() };
        assert(s@ =~= Seq::<Map<Seq<char>, V>>::empty());
        s
    }

    /// The value that `key` is bound to, in the innermost scope that binds it.
    pub fn get(&self, key: &str) -> (r: Option<&V>)
        ensures
            match lookup(self@, key@) {
                Some(v) => r matches Some(x) && *x == v,
                None => r is None,
            },
    {
        proof { use_type_invariant(self); }
        let mut i: usize = self.maps.len();
        assert(self@.subrange(0, i as int) =~= self@);
        while i > 0
            invariant
                i <= self.maps@.len(),
                self@.len() == self.maps@.len(),
                forall|m: int| 0 <= m < self.maps@.len() ==> keys_distinct(#[trigger] self.maps@[m]@),
                lookup(self@, key@) == lookup(self@.subrange(0, i as int), key@),
            decreases i,
        {
            let frame = &self.maps[i - 1];
            let ghost fr = self.maps@[i - 1]@;
            proof {
                assert(self@.subrange(0, i as int).drop_last() =~= self@.subrange(0, i - 1));
                assert(self@.subrange(0, i as int).last() == frame_map(fr));
                assert(keys_distinct(self.maps@[i - 1]@));
            }
            match find_key(frame, key) {
                Some(j) => {
                    proof { lemma_frame_map_entry(fr, j as int); }
                    return Some(&frame[j].1);
                },
                None => {
                    proof { lemma_frame_map_absent(fr, key@); }
                },
            }
            i = i - 1;
        }
        assert(self@.subrange(0, 0) =~= Seq::<Map<Seq<char>, V>>::empty());
        None
    }

    /// Binds `key` to `value` in the innermost scope, replacing a binding of
    /// `key` there.
    pub fn insert(&mut self, key: String, value: V)
        requires
            old(self)@.len() > 0,
        ensures
            final(self)@ == bind(old(self)@, key@, value),
    {
        proof { use_type_invariant(&*self); }
        let ghost old_view = self@;
        let ghost k = key@;
        let ghost n = self.maps@.len();
        let mut maps: Vec<Vec<(String, V)>> = Vec::new();
        std::mem::swap(&mut maps, &mut self.maps);
        let mut frame = maps.pop().unwrap();
        let ghost fr = frame@;
        assert(keys_distinct(fr));
        match find_key(&frame, key.as_str()) {
            Some(j) => {
                proof { lemma_frame_map_replace(fr, j as int, (key, value)); }
                frame.set(j, (key, value));
            },
            None => {
                proof { lemma_frame_map_absent(fr, k); }
                frame.push((key, value));
                assert(frame@.drop_last() =~= fr);
                assert(keys_distinct(frame@));
            },
        }
        let ghost nf = frame@;
        assert(keys_distinct(nf));
        maps.push(frame);
        self.maps = maps;
        assert(self@ =~= bind(old_view, k, value));
    }

    /// Opens a new, empty innermost scope.
    pub fn new_stack(&mut self)
        ensures
            final(self)@ == enter(old(self)@),
    {
        let ghost old_view = self@;
        proof { use_type_invariant(&*self); }
        let empty: Vec<(String, V)> = Vec::new();
        assert(keys_distinct(empty@));
        let mut maps: Vec<Vec<(String, V)>> = Vec::new();
        std::mem::swap(&mut maps, &mut self.maps);
        maps.push(empty);
        self.maps = maps;
        assert(frame_map(Seq::<(String, V)>::empty()) =~= Map::<Seq<char>, V>::empty());
        assert(self@ =~= enter(old_view));
    }

    /// Closes the innermost scope, and its bindings with it.
    pub fn drop_stack(&mut self)
        ensures
            final(self)@ == leave(old(self)@),
    {
        proof { use_type_invariant(&*self); }
        let ghost old_view = self@;
        let mut maps: Vec<Vec<(String, V)>> = Vec::new();
        std::mem::swap(&mut maps, &mut self.maps);
        maps.pop();
        self.maps = maps;
        assert(self@ =~= leave(old_view));
    }
}

/// The index of the binding of `key` in a scope, if there is one.
fn find_key<V>(frame: &Vec<(String, V)>, key: &str) -> (r: Option<usize>)
    ensures
        match r {
            Some(j) => j < frame@.len() && frame@[j as int].0@ == key@,
            None => forall|m: int| 0 <= m < frame@.len() ==> (#[trigger] frame@[m]).0@ != key@,
        },
{
    let mut j: usize = 0;
    while j < frame.len()
        invariant
            j <= frame@.len(),
            forall|m: int| 0 <= m < j ==> (#[trigger] frame@[m]).0@ != key@,
        decreases frame.len() - j,
    {
        let same = frame[j].0.as_str().to_owned() == key.to_owned();
        if same {
            return Some(j);
        }
        assert(frame@[j as int].0@ != key@);
        j = j + 1;
    }
    None
}

proof fn lemma_frame_map_absent<V>(f: Seq<(String, V)>, k: Seq<char>)
    requires
        forall|m: int| 0 <= m < f.len() ==> (#[trigger] f[m]).0@ != k,
    ensures
        !frame_map(f).contains_key(k),
    decreases f.len(),
{
    if f.len() > 0 {
        assert(forall|m: int| 0 <= m < f.len() - 1 ==> (#[trigger] f.drop_last()[m]) == f[m]);
        lemma_frame_map_absent(f.drop_last(), k);
    }
}

proof fn lemma_frame_map_entry<V>(f: Seq<(String, V)>, j: int)
    requires
        0 <= j < f.len(),
        keys_distinct(f),
    ensures
        frame_map(f).contains_key(f[j].0@),
        frame_map(f)[f[j].0@] == f[j].1,
    decreases f.len(),
{
    if j < f.len() - 1 {
        assert(forall|m: int| 0 <= m < f.len() - 1 ==> (#[trigger] f.drop_last()[m]) == f[m]);
        lemma_frame_map_entry(f.drop_last(), j);
    }
}

proof fn lemma_frame_map_replace<V>(f: Seq<(String, V)>, j: int, e: (String, V))
    requires
        0 <= j < f.len(),
        keys_distinct(f),
        f[j].0@ == e.0@,
    ensures
        frame_map(f.update(j, e)) == frame_map(f).insert(e.0@, e.1),
        keys_distinct(f.update(j, e)),
    decreases f.len(),
{
    let g = f.update(j, e);
    if j == f.len() - 1 {
        assert(g.drop_last() =~= f.drop_last());
        let k = e.0@;
        assert forall|m: int| 0 <= m < f.len() - 1 implies (#[trigger] f.drop_last()[m]).0@ != k by {
            assert(f.drop_last()[m] == f[m]);
        }
        lemma_frame_map_absent(f.drop_last(), k);
        assert(frame_map(g) =~= frame_map(f).insert(e.0@, e.1));
    } else {
        assert(g.drop_last() =~= f.drop_last().update(j, e));
        assert(keys_distinct(f.drop_last()));
        lemma_frame_map_replace(f.drop_last(), j, e);
        assert(f.last().0@ != e.0@);
        assert(frame_map(g) =~= frame_map(f).insert(e.0@, e.1));
    }
}

} // verus!
