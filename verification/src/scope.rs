//! Scope frames, the arena that owns them, and environments that chain them.
//!
//! A frame is a mutable mapping from names to values. Frames live in a
//! [`ScopeArena`]; an [`Env`] is a handle that lists frames of the arena,
//! outermost first. Handles that list the same frame share it: a binding
//! written through one is seen through every other.

use crate::ast::{Expr, ExprView};
use indexmap::IndexMap;
use vstd::prelude::*;

verus! {

/// `indexmap::IndexMap`, a hash map that keeps insertion order. Nothing of
/// its inside is read here.
#[verifier::external_type_specification]
#[verifier::external_body]
#[verifier::reject_recursive_types(K)]
#[verifier::reject_recursive_types(V)]
#[verifier::reject_recursive_types(S)]
pub struct ExIndexMap<K, V, S>(IndexMap<K, V, S>);

/// The bindings that an `IndexMap` from names to expressions holds: each name
/// that has an entry, with the value stored for it.
pub uninterp spec fn map_entries(m: IndexMap<String, Expr>) -> Map<Seq<char>, Expr>;

/// `IndexMap::new` makes a map without entries.
#[verifier::external_body]
fn index_map_new() -> (m: IndexMap<String, Expr>)
    ensures
        (map_entries(m) == Map::<Seq<char>, Expr>::empty()),
{
    IndexMap::new()
}

/// `IndexMap::get` returns the value stored for a key that spells `key`, and
/// `None` when the map has no such key.
#[verifier::external_body]
fn index_map_get<'a>(m: &'a IndexMap<String, Expr>, key: &str) -> (r: Option<&'a Expr>)
    ensures
        r matches Some(e) ==> map_entries(*m).contains_key(key@) && *e == map_entries(*m)[key@],
        r is None ==> !map_entries(*m).contains_key(key@),
{
    m.get(key)
}

/// `IndexMap::insert` stores `value` for `key`, replacing the value of an
/// equal key, and leaves every other entry as it was. It returns the value
/// that it replaced.
#[verifier::external_body]
fn index_map_insert(m: &mut IndexMap<String, Expr>, key: String, value: Expr) -> (previous: Option<
    Expr,
>)
    ensures
        map_entries(*final(m)) == map_entries(*old(m)).insert(key@, value),
        previous matches Some(e) ==> map_entries(*old(m)).contains_key(key@) && e == map_entries(
            *old(m),
        )[key@],
        previous is None ==> !map_entries(*old(m)).contains_key(key@),
{
    m.insert(key, value)
}

/// The bindings of one frame, as a mathematical map.
pub type Bindings = Map<Seq<char>, ExprView>;

/// The value of an optional expression.
pub open spec fn option_view(e: Option<Expr>) -> Option<ExprView> {
    match e {
        Some(e) => Some(e@),
        None => None,
    }
}

/// One frame: a mutable mapping from names to values that keeps the order in
/// which the names were first bound.
pub struct Scope(IndexMap<String, Expr>);

impl View for Scope {
    type V = Bindings;

    closed spec fn view(&self) -> Bindings {
        map_entries(self.0).map_values(|e: Expr| e@)
    }
}

impl Scope {
    /// A frame without bindings.
    pub fn new() -> (scope: Scope)
        ensures
            scope@ == Map::<Seq<char>, ExprView>::empty(),
    {
        let scope = Scope(index_map_new());
        assert(scope@ =~= Map::<Seq<char>, ExprView>::empty());
        scope
    }

    /// A copy of the value bound to `key` in this frame.
    pub fn get(&self, key: &str) -> (value: Option<Expr>)
        ensures
            option_view(value) == (if self@.contains_key(key@) {
                Some(self@[key@])
            } else {
                None
            }),
    {
        match index_map_get(&self.0, key) {
            Some(e) => Some(e.clone()),
            None => None,
        }
    }

    /// Binds `key` to `value` in this frame, replacing an earlier binding.
    pub fn insert(&mut self, key: String, value: Expr)
        ensures
            final(self)@ == old(self)@.insert(key@, value@),
    {
        let _ = index_map_insert(&mut self.0, key, value);
        assert(self@ =~= old(self)@.insert(key@, value@));
    }
}

/// The frames of an arena, in the order in which they were made.
pub type Frames = Seq<Bindings>;

/// Owner of every frame. A frame is named by its index, which never changes.
pub struct ScopeArena {
    frames: Vec<Scope>,
}

impl View for ScopeArena {
    type V = Frames;

    closed spec fn view(&self) -> Frames {
        Seq::new(self.frames@.len(), |i: int| self.frames@[i]@)
    }
}

/// What a lookup of `key` finds: the binding in the innermost frame of
/// `chain` that has one. Entries of `chain` that name no frame are passed over.
pub open spec fn lookup(frames: Frames, chain: Seq<usize>, key: Seq<char>) -> Option<ExprView>
    decreases chain.len(),
{
    if chain.len() == 0 {
        None
    } else if chain.last() < frames.len() && frames[chain.last() as int].contains_key(key) {
        Some(frames[chain.last() as int][key])
    } else {
        lookup(frames, chain.drop_last(), key)
    }
}

/// The frames after `key` is bound to `value` through `chain`: only the
/// innermost frame of the chain changes. A chain that is empty, or whose last
/// entry names no frame, binds nothing.
pub open spec fn bind(frames: Frames, chain: Seq<usize>, key: Seq<char>, value: ExprView) -> Frames {
    if chain.len() > 0 && chain.last() < frames.len() {
        frames.update(chain.last() as int, frames[chain.last() as int].insert(key, value))
    } else {
        frames
    }
}

impl ScopeArena {
    /// An arena without frames.
    pub fn new() -> (arena: ScopeArena)
        ensures
            arena@ == Seq::<Bindings>::empty(),
    {
        let arena = ScopeArena { frames: Vec::new() };
        assert(arena@ =~= Seq::<Bindings>::empty());
        arena
    }

    /// The number of frames.
    pub fn len(&self) -> (n: usize)
        ensures
            n == self@.len(),
    {
        self.frames.len()
    }

    /// Adds an empty frame and returns its index.
    pub fn allocate(&mut self) -> (id: usize)
        ensures
            id == old(self)@.len(),
            final(self)@ == old(self)@.push(Map::<Seq<char>, ExprView>::empty()),
    {
        let id = self.frames.len();
        self.frames.push(Scope::new());
        assert(self@ =~= old(self)@.push(Map::<Seq<char>, ExprView>::empty()));
        id
    }

    /// A copy of the value bound to `key` in frame `id`.
    pub fn get(&self, id: usize, key: &str) -> (value: Option<Expr>)
        ensures
            option_view(value) == (if id < self@.len() && self@[id as int].contains_key(key@) {
                Some(self@[id as int][key@])
            } else {
                None
            }),
    {
        if id < self.frames.len() {
            self.frames[id].get(key)
        } else {
            None
        }
    }

    /// Binds `key` to `value` in frame `id`; does nothing when there is no such frame.
    pub fn insert(&mut self, id: usize, key: String, value: Expr)
        ensures
            final(self)@ == (if id < old(self)@.len() {
                old(self)@.update(id as int, old(self)@[id as int].insert(key@, value@))
            } else {
                old(self)@
            }),
    {
        if id < self.frames.len() {
            let frame = &mut self.frames[id];
            frame.insert(key, value);
            assert(self@ =~= old(self)@.update(id as int, old(self)@[id as int].insert(key@, value@)));
        }
    }
}

/// An environment: the frames it can see, outermost first.
pub struct Env {
    pub scope_stack: Vec<usize>,
}

impl View for Env {
    type V = Seq<usize>;

    open spec fn view(&self) -> Seq<usize> {
        self.scope_stack@
    }
}

impl Clone for Env {
    /// Another handle on the same frames.
    fn clone(&self) -> (r: Self)
        ensures
            r@ == self@,
    {
        Env { scope_stack: self.scope_stack.clone() }
    }
}

impl Env {
    /// An environment with one new, empty frame.
    pub fn new(arena: &mut ScopeArena) -> (env: Env)
        ensures
            env@ == seq![old(arena)@.len() as usize],
            final(arena)@ == old(arena)@.push(Map::<Seq<char>, ExprView>::empty()),
    {
        let id = arena.allocate();
        let mut scope_stack: Vec<usize> = Vec::new();
        scope_stack.push(id);
        assert(scope_stack@ =~= seq![id]);
        Env { scope_stack }
    }

    /// An environment that sees every frame of this one and, innermost, one
    /// new empty frame of its own.
    pub fn clone_child(&self, arena: &mut ScopeArena) -> (child: Env)
        ensures
            child@ == self@.push(old(arena)@.len() as usize),
            final(arena)@ == old(arena)@.push(Map::<Seq<char>, ExprView>::empty()),
    {
        let mut child = self.clone();
        let id = arena.allocate();
        child.scope_stack.push(id);
        child
    }

    /// A copy of the value that `key` is bound to, looked up from the
    /// innermost frame outwards.
    pub fn get(&self, arena: &ScopeArena, key: &str) -> (value: Option<Expr>)
        ensures
            option_view(value) == lookup(arena@, self@, key@),
    {
        let mut i: usize = self.scope_stack.len();
        assert(self@.subrange(0, i as int) =~= self@);
        while i > 0
            invariant
                i <= self.scope_stack.len(),
                lookup(arena@, self@, key@) == lookup(arena@, self@.subrange(0, i as int), key@),
            decreases i,
        {
            i -= 1;
            let found = arena.get(self.scope_stack[i], key);
            proof {
                let longer = self@.subrange(0, i + 1);
                assert(longer.last() == self@[i as int]);
                assert(longer.drop_last() =~= self@.subrange(0, i as int));
            }
            if found.is_some() {
                return found;
            }
        }
        assert(self@.subrange(0, 0).len() == 0);
        None
    }

    /// Binds `key` to `value` in the innermost frame.
    pub fn set(&mut self, arena: &mut ScopeArena, key: String, value: Expr)
        ensures
            final(self)@ == old(self)@,
            final(arena)@ == bind(old(arena)@, old(self)@, key@, value@),
    {
        let n = self.scope_stack.len();
        if n > 0 {
            arena.insert(self.scope_stack[n - 1], key, value);
        }
    }
}

/// A lookup through a chain of which no frame binds `key` finds nothing.
pub proof fn lemma_lookup_unbound(frames: Frames, chain: Seq<usize>, key: Seq<char>)
    requires
        forall|i: int|
            0 <= i < chain.len() && chain[i] < frames.len() ==> !frames[chain[i] as int].contains_key(
                key,
            ),
    ensures
        lookup(frames, chain, key) is None,
    decreases chain.len(),
{
    if chain.len() > 0 {
        let shorter = chain.drop_last();
        assert forall|i: int| 0 <= i < shorter.len() && shorter[i] < frames.len() implies !frames[shorter[i] as int].contains_key(
            key,
        ) by {
            assert(shorter[i] == chain[i]);
        }
        lemma_lookup_unbound(frames, shorter, key);
    }
}

/// After a value is bound to a name through an environment, a lookup of the
/// name yields that value, both through the same environment and through
/// every environment that extends it with `inner` frames, as long as none of
/// those frames binds the name itself.
pub proof fn lemma_bound_value_is_visible(
    frames: Frames,
    chain: Seq<usize>,
    inner: Seq<usize>,
    key: Seq<char>,
    value: ExprView,
)
    requires
        chain.len() > 0,
        chain.last() < frames.len(),
        forall|i: int|
            0 <= i < inner.len() && inner[i] < frames.len() && inner[i] != chain.last()
                ==> !frames[inner[i] as int].contains_key(key),
    ensures
        lookup(bind(frames, chain, key, value), chain + inner, key) == Some(value),
    decreases inner.len(),
{
    let after = bind(frames, chain, key, value);
    let whole = chain + inner;
    if inner.len() == 0 {
        assert(whole =~= chain);
    } else {
        let shorter = inner.drop_last();
        assert(whole.drop_last() =~= chain + shorter);
        assert(whole.last() == inner.last());
        assert forall|i: int|
            0 <= i < shorter.len() && shorter[i] < frames.len() && shorter[i] != chain.last()
                implies !frames[shorter[i] as int].contains_key(key) by {
            assert(shorter[i] == inner[i]);
        }
        lemma_bound_value_is_visible(frames, chain, shorter, key, value);
    }
}

/// A binding is written to the innermost frame of the chain and to no other:
/// every other frame stays as it was, and in the innermost frame every other
/// name keeps its binding.
pub proof fn lemma_bind_is_local(frames: Frames, chain: Seq<usize>, key: Seq<char>, value: ExprView)
    ensures
        bind(frames, chain, key, value).len() == frames.len(),
        forall|i: int|
            0 <= i < frames.len() && !(chain.len() > 0 && i == chain.last()) ==> bind(
                frames,
                chain,
                key,
                value,
            )[i] == #[trigger] frames[i],
        forall|other: Seq<char>|
            chain.len() > 0 && chain.last() < frames.len() && other != key ==> {
                &&& bind(frames, chain, key, value)[chain.last() as int].contains_key(other)
                    == frames[chain.last() as int].contains_key(other)
                &&& (#[trigger] frames[chain.last() as int].contains_key(other)) ==> bind(
                    frames,
                    chain,
                    key,
                    value,
                )[chain.last() as int][other] == frames[chain.last() as int][other]
            },
{
}

/// A frame that is added to the arena after a binding was written leaves
/// the binding where it is: to bind and then add a frame is to add the frame
/// and then bind.
pub proof fn lemma_bind_then_extend(
    frames: Frames,
    chain: Seq<usize>,
    key: Seq<char>,
    value: ExprView,
    frame: Bindings,
)
    requires
        chain.len() > 0,
        chain.last() < frames.len(),
    ensures
        bind(frames, chain, key, value).push(frame) == bind(frames.push(frame), chain, key, value),
{
    assert(bind(frames, chain, key, value).push(frame) =~= bind(
        frames.push(frame),
        chain,
        key,
        value,
    ));
}

} // verus!
