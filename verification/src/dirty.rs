//! What has to be computed again, and what is asked of the engine that keeps track of it.

use vstd::prelude::*;
use vstd::relations::*;

use crate::access;
use crate::access::{KeyModel, ResourceKey};
use crate::history;
use crate::history::chain;
use crate::sort::{sorted_copy, Ordered};

verus! {

/// A resource key as the engine numbers it.
#[derive(Copy, Clone, Debug, PartialEq, Eq, PartialOrd, Ord, Hash, Structural)]
pub struct DirtyKey(pub u64);

/// Keys in the order of their numbers.
pub open spec fn key_order() -> spec_fn(DirtyKey, DirtyKey) -> bool {
    |a: DirtyKey, b: DirtyKey| a.0 <= b.0
}

impl Ordered for DirtyKey {
    open spec fn order() -> spec_fn(DirtyKey, DirtyKey) -> bool {
        key_order()
    }

    proof fn order_is_total() {
    }

    fn is_before(a: Self, b: Self) -> (res: bool) {
        a.0 <= b.0
    }
}

/// A key that a drain gives back.
#[derive(Clone, Debug, PartialEq, Eq)]
pub struct Drained {
    /// Number of the key.
    pub id: DirtyKey,
    /// The key.
    pub key: ResourceKey,
}

/// The contents of a drained key.
#[verifier::ext_equal]
pub struct DrainedModel {
    /// Number of the key.
    pub id: DirtyKey,
    /// The key.
    pub key: KeyModel,
}

impl View for Drained {
    type V = DrainedModel;

    open spec fn view(&self) -> DrainedModel {
        DrainedModel { id: self.id, key: self.key@ }
    }
}

/// The contents of drained keys.
pub open spec fn drained_models(v: Seq<Drained>) -> Seq<DrainedModel> {
    v.map_values(|d: Drained| d@)
}

/// An engine that numbers resource keys, keeps what each depends on, and tells which are affected
/// by what was marked dirty.
pub trait DirtyEngine {
    /// The number of a key.
    fn intern(&mut self, key: &ResourceKey) -> DirtyKey;

    /// Marks a key dirty.
    fn mark_dirty(&mut self, key: DirtyKey);

    /// Lets `key` depend on `on`, too.
    fn add_dependency(&mut self, key: DirtyKey, on: DirtyKey);

    /// Lets `key` depend on `on`, and on nothing else.
    fn set_dependencies(&mut self, key: DirtyKey, on: &[DirtyKey]);

    /// Takes the affected keys, each behind what it depends on.
    fn drain(&mut self) -> Vec<Drained>;

    /// Takes the affected keys that `key` depends on, directly or not, and `key` if it is affected.
    fn drain_within_dependencies_of(&mut self, key: DirtyKey) -> Vec<Drained>;

    /// As `drain`, and remembers how each key came to be affected.
    fn drain_traced(&mut self) -> Vec<Drained>;

    /// As `drain_within_dependencies_of`, and remembers how each key came to be affected.
    fn drain_within_dependencies_of_traced(&mut self, key: DirtyKey) -> Vec<Drained>;

    /// The keys from one that was marked dirty to `key`, as the last traced drain remembers them.
    fn explain_path(&mut self, key: DirtyKey) -> Option<Vec<ResourceKey>>;
}

/// Something that was asked of the engine, with the answer.
#[verifier::ext_equal]
pub enum Asked {
    /// The number of a key.
    Intern { key: KeyModel, id: DirtyKey },
    /// To mark a key dirty.
    MarkDirty { id: DirtyKey },
    /// To add a dependency.
    AddDependency { id: DirtyKey, on: DirtyKey },
    /// To set the dependencies of a key.
    SetDependencies { id: DirtyKey, on: Seq<DirtyKey> },
    /// The affected keys: all, or those within the dependencies of one.
    Drain { within: Option<DirtyKey>, traced: bool, keys: Seq<DrainedModel> },
    /// How a key came to be affected.
    Explain { id: DirtyKey, path: Option<Seq<KeyModel>> },
}

/// What a key depends on, going by what the engine was told.
pub open spec fn dependencies(asked: Seq<Asked>, id: DirtyKey) -> Set<DirtyKey>
    decreases asked.len(),
{
    if asked.len() == 0 {
        Set::empty()
    } else {
        let rest = dependencies(asked.drop_last(), id);
        match asked.last() {
            Asked::AddDependency { id: k, on } => if k == id {
                rest.insert(on)
            } else {
                rest
            },
            Asked::SetDependencies { id: k, on } => if k == id {
                on.to_set()
            } else {
                rest
            },
            _ => rest,
        }
    }
}

/// The engine gave a key a number.
pub open spec fn interned(asked: Seq<Asked>, key: KeyModel, id: DirtyKey) -> bool {
    asked.contains(Asked::Intern { key, id })
}

/// The engine gave no two keys the same number.
pub open spec fn distinct_numbers(asked: Seq<Asked>) -> bool {
    forall|a: KeyModel, b: KeyModel, id: DirtyKey| #[trigger]
        interned(asked, a, id) && #[trigger] interned(asked, b, id) ==> a == b
}

/// What was asked before is still asked.
pub proof fn lemma_interned_grows(asked: Seq<Asked>, more: Seq<Asked>, key: KeyModel, id: DirtyKey)
    requires
        interned(asked, key, id),
    ensures
        interned(asked + more, key, id),
{
    let e = Asked::Intern { key, id };
    let i = choose|i: int| 0 <= i < asked.len() && asked[i] == e;
    assert((asked + more)[i] == e);
}

/// Numbers that are distinct in the end were so before.
pub proof fn lemma_distinct_before(asked: Seq<Asked>, more: Seq<Asked>)
    requires
        distinct_numbers(asked + more),
    ensures
        distinct_numbers(asked),
{
    assert forall|a: KeyModel, b: KeyModel, id: DirtyKey| #[trigger]
        interned(asked, a, id) && #[trigger] interned(asked, b, id) implies a == b by {
        lemma_interned_grows(asked, more, a, id);
        lemma_interned_grows(asked, more, b, id);
    }
}

/// The contents of a path.
pub open spec fn path_model(path: Option<Vec<ResourceKey>>) -> Option<Seq<KeyModel>> {
    match path {
        Some(p) => Some(access::key_models(p@)),
        None => None,
    }
}

/// Asks an engine for the number of a key. The state of the engine comes back, too.
pub fn ask_intern<D: DirtyEngine>(engine: &mut D, key: &ResourceKey) -> (r: (DirtyKey, Ghost<D>))
    ensures
        r.1@ == *final(engine),
        exists|m: &mut D|
            *m == *old(engine) && *final(m) == *final(engine) && #[trigger] call_ensures(
                D::intern,
                (m, key),
                r.0,
            ),
{
    let id = engine.intern(key);
    let ghost after = *engine;
    assert(exists|m: &mut D|
        *m == *old(engine) && *final(m) == after && #[trigger] call_ensures(D::intern, (m, key), id));
    let r = (id, Ghost(after));
    assert(r.0 == id);
    r
}

/// Asks an engine to mark a key dirty. The state of the engine comes back.
pub fn ask_mark<D: DirtyEngine>(engine: &mut D, id: DirtyKey) -> (after: Ghost<D>)
    ensures
        after@ == *final(engine),
        exists|m: &mut D|
            *m == *old(engine) && *final(m) == *final(engine) && #[trigger] call_ensures(
                D::mark_dirty,
                (m, id),
                (),
            ),
{
    engine.mark_dirty(id);
    Ghost(*engine)
}

/// Asks an engine to add a dependency. The state of the engine comes back.
pub fn ask_add<D: DirtyEngine>(engine: &mut D, id: DirtyKey, on: DirtyKey) -> (after: Ghost<D>)
    ensures
        after@ == *final(engine),
        exists|m: &mut D|
            *m == *old(engine) && *final(m) == *final(engine) && #[trigger] call_ensures(
                D::add_dependency,
                (m, id, on),
                (),
            ),
{
    engine.add_dependency(id, on);
    Ghost(*engine)
}

/// Asks an engine to set dependencies. The state of the engine comes back.
pub fn ask_set<D: DirtyEngine>(engine: &mut D, id: DirtyKey, on: &[DirtyKey]) -> (after: Ghost<D>)
    ensures
        after@ == *final(engine),
        exists|m: &mut D|
            *m == *old(engine) && *final(m) == *final(engine) && #[trigger] call_ensures(
                D::set_dependencies,
                (m, id, on),
                (),
            ),
{
    engine.set_dependencies(id, on);
    Ghost(*engine)
}

/// Asks an engine for the affected keys: all, or those within the dependencies of one. The state of
/// the engine comes back, too.
pub fn ask_drain<D: DirtyEngine>(engine: &mut D, within: Option<DirtyKey>, traced: bool) -> (r: (
    Vec<Drained>,
    Ghost<D>,
))
    ensures
        r.1@ == *final(engine),
        match within {
            Some(id) => if traced {
                exists|m: &mut D|
                    *m == *old(engine) && *final(m) == *final(engine) && #[trigger] call_ensures(
                        D::drain_within_dependencies_of_traced,
                        (m, id),
                        r.0,
                    )
            } else {
                exists|m: &mut D|
                    *m == *old(engine) && *final(m) == *final(engine) && #[trigger] call_ensures(
                        D::drain_within_dependencies_of,
                        (m, id),
                        r.0,
                    )
            },
            None => if traced {
                exists|m: &mut D|
                    *m == *old(engine) && *final(m) == *final(engine) && #[trigger] call_ensures(
                        D::drain_traced,
                        (m,),
                        r.0,
                    )
            } else {
                exists|m: &mut D|
                    *m == *old(engine) && *final(m) == *final(engine) && #[trigger] call_ensures(
                        D::drain,
                        (m,),
                        r.0,
                    )
            },
        },
{
    match within {
        Some(id) => if traced {
            let keys = engine.drain_within_dependencies_of_traced(id);
            let ghost after = *engine;
            assert(exists|m: &mut D|
                *m == *old(engine) && *final(m) == after && #[trigger] call_ensures(
                    D::drain_within_dependencies_of_traced,
                    (m, id),
                    keys,
                ));
            let r = (keys, Ghost(after));
            assert(r.0 == keys);
            r
        } else {
            let keys = engine.drain_within_dependencies_of(id);
            let ghost after = *engine;
            assert(exists|m: &mut D|
                *m == *old(engine) && *final(m) == after && #[trigger] call_ensures(
                    D::drain_within_dependencies_of,
                    (m, id),
                    keys,
                ));
            let r = (keys, Ghost(after));
            assert(r.0 == keys);
            r
        },
        None => if traced {
            let keys = engine.drain_traced();
            let ghost after = *engine;
            assert(exists|m: &mut D|
                *m == *old(engine) && *final(m) == after && #[trigger] call_ensures(
                    D::drain_traced,
                    (m,),
                    keys,
                ));
            let r = (keys, Ghost(after));
            assert(r.0 == keys);
            r
        } else {
            let keys = engine.drain();
            let ghost after = *engine;
            assert(exists|m: &mut D|
                *m == *old(engine) && *final(m) == after && #[trigger] call_ensures(
                    D::drain,
                    (m,),
                    keys,
                ));
            let r = (keys, Ghost(after));
            assert(r.0 == keys);
            r
        },
    }
}

/// Asks an engine how a key came to be affected. The state of the engine comes back, too.
pub fn ask_path<D: DirtyEngine>(engine: &mut D, id: DirtyKey) -> (r: (
    Option<Vec<ResourceKey>>,
    Ghost<D>,
))
    ensures
        r.1@ == *final(engine),
        exists|m: &mut D|
            *m == *old(engine) && *final(m) == *final(engine) && #[trigger] call_ensures(
                D::explain_path,
                (m, id),
                r.0,
            ),
{
    let path = engine.explain_path(id);
    let ghost after = *engine;
    assert(exists|m: &mut D|
        *m == *old(engine) && *final(m) == after && #[trigger] call_ensures(
            D::explain_path,
            (m, id),
            path,
        ));
    let r = (path, Ghost(after));
    assert(r.0 == path);
    r
}

/// An engine gave the number of a key, and went from one state to another.
pub open spec fn gave_number<D: DirtyEngine>(before: D, key: KeyModel, id: DirtyKey, after: D) -> bool {
    exists|m: &mut D, k: &ResourceKey, r: (DirtyKey, Ghost<D>)|
        *m == before && k@ == key && r.0 == id && r.1@ == after && #[trigger] call_ensures(
            ask_intern::<D>,
            (m, k),
            r,
        )
}

/// An engine marked a key dirty, and went from one state to another.
pub open spec fn marked<D: DirtyEngine>(before: D, id: DirtyKey, after: D) -> bool {
    exists|m: &mut D, r: Ghost<D>|
        *m == before && r@ == after && #[trigger] call_ensures(ask_mark::<D>, (m, id), r)
}

/// An engine added a dependency, and went from one state to another.
pub open spec fn added<D: DirtyEngine>(before: D, id: DirtyKey, on: DirtyKey, after: D) -> bool {
    exists|m: &mut D, r: Ghost<D>|
        *m == before && r@ == after && #[trigger] call_ensures(ask_add::<D>, (m, id, on), r)
}

/// An engine set the dependencies of a key, and went from one state to another.
pub open spec fn replaced<D: DirtyEngine>(
    before: D,
    id: DirtyKey,
    on: Seq<DirtyKey>,
    after: D,
) -> bool {
    exists|m: &mut D, s: &[DirtyKey], r: Ghost<D>|
        *m == before && s@ == on && r@ == after && #[trigger] call_ensures(
            ask_set::<D>,
            (m, id, s),
            r,
        )
}

/// An engine gave affected keys, and went from one state to another.
pub open spec fn gave_keys<D: DirtyEngine>(
    before: D,
    within: Option<DirtyKey>,
    traced: bool,
    keys: Seq<DrainedModel>,
    after: D,
) -> bool {
    exists|m: &mut D, r: (Vec<Drained>, Ghost<D>)|
        *m == before && drained_models(r.0@) == keys && r.1@ == after && #[trigger] call_ensures(
            ask_drain::<D>,
            (m, within, traced),
            r,
        )
}

/// An engine explained how a key came to be affected, and went from one state to another.
pub open spec fn explained<D: DirtyEngine>(
    before: D,
    id: DirtyKey,
    path: Option<Seq<KeyModel>>,
    after: D,
) -> bool {
    exists|m: &mut D, r: (Option<Vec<ResourceKey>>, Ghost<D>)|
        *m == before && path_model(r.0) == path && r.1@ == after && #[trigger] call_ensures(
            ask_path::<D>,
            (m, id),
            r,
        )
}

/// An engine was asked something, gave the answer, and went from one state to another.
pub open spec fn engine_asked<D: DirtyEngine>(before: D, a: Asked, after: D) -> bool {
    match a {
        Asked::Intern { key, id } => gave_number(before, key, id, after),
        Asked::MarkDirty { id } => marked(before, id, after),
        Asked::AddDependency { id, on } => added(before, id, on, after),
        Asked::SetDependencies { id, on } => replaced(before, id, on, after),
        Asked::Drain { within, traced, keys } => gave_keys(before, within, traced, keys, after),
        Asked::Explain { id, path } => explained(before, id, path, after),
    }
}

/// How the states of an engine follow on each other.
pub open spec fn asks<D: DirtyEngine>() -> spec_fn(D, Asked, D) -> bool {
    |before: D, a: Asked, after: D| engine_asked(before, a, after)
}

/// An engine together with what was asked of it.
pub struct Tracker<D: DirtyEngine> {
    engine: D,
    asked: Ghost<Seq<Asked>>,
}

impl<D: DirtyEngine> Tracker<D> {
    /// What was asked of the engine, in order.
    pub closed spec fn asked(&self) -> Seq<Asked> {
        self.asked@
    }

    /// The engine.
    pub closed spec fn inner(&self) -> D {
        self.engine
    }

    /// The engine came to be as it is by what was asked of it.
    pub open spec fn wf(&self) -> bool {
        exists|first: D| #[trigger] chain(asks::<D>(), first, self.asked(), self.inner())
    }

    /// An engine that nothing was asked of.
    pub fn new(engine: D) -> (t: Self)
        ensures
            t.asked() == Seq::<Asked>::empty(),
            t.inner() == engine,
            t.wf(),
    {
        let t = Tracker { engine, asked: Ghost(Seq::empty()) };
        proof {
            history::lemma_none::<D, Asked>(asks::<D>(), t.inner());
        }
        t
    }

    /// What goes on from an engine that came to be by what was asked of it.
    proof fn lemma_more(before: Self, a: Asked, after: Self)
        requires
            engine_asked(before.inner(), a, after.inner()),
            after.asked() == before.asked().push(a),
        ensures
            before.wf() ==> after.wf(),
    {
        if before.wf() {
            let first = choose|first: D| #[trigger]
                chain(asks::<D>(), first, before.asked(), before.inner());
            history::lemma_push(
                asks::<D>(),
                first,
                before.asked(),
                before.inner(),
                a,
                after.inner(),
            );
        }
    }

    /// The number of a key.
    pub fn intern(&mut self, key: &ResourceKey) -> (id: DirtyKey)
        ensures
            final(self).asked() == old(self).asked().push((Asked::Intern { key: key@, id })),
            engine_asked(old(self).inner(), (Asked::Intern { key: key@, id }), final(self).inner()),
            old(self).wf() ==> final(self).wf(),
            exists|m: &mut D|
                *m == old(self).inner() && *final(m) == final(self).inner()
                    && #[trigger] call_ensures(D::intern, (m, key), id),
    {
        let r = ask_intern(&mut self.engine, key);
        proof {
            let a = (Asked::Intern { key: key@, id: r.0 });
            self.asked@ = self.asked@.push(a);
            Self::lemma_more(*old(self), a, *self);
        }
        r.0
    }

    /// Marks a key dirty.
    pub fn mark_dirty(&mut self, id: DirtyKey)
        ensures
            final(self).asked() == old(self).asked().push((Asked::MarkDirty { id })),
            engine_asked(old(self).inner(), (Asked::MarkDirty { id }), final(self).inner()),
            old(self).wf() ==> final(self).wf(),
            exists|m: &mut D|
                *m == old(self).inner() && *final(m) == final(self).inner()
                    && #[trigger] call_ensures(D::mark_dirty, (m, id), ()),
    {
        let r = ask_mark(&mut self.engine, id);
        proof {
            assert(r@ == self.engine);
            assert(marked(old(self).inner(), id, r@));
            let a = (Asked::MarkDirty { id });
            self.asked@ = self.asked@.push(a);
            Self::lemma_more(*old(self), a, *self);
        }
    }

    /// Lets a key depend on another, too.
    pub fn add_dependency(&mut self, id: DirtyKey, on: DirtyKey)
        ensures
            final(self).asked() == old(self).asked().push((Asked::AddDependency { id, on })),
            engine_asked(old(self).inner(), (Asked::AddDependency { id, on }), final(self).inner()),
            old(self).wf() ==> final(self).wf(),
            exists|m: &mut D|
                *m == old(self).inner() && *final(m) == final(self).inner()
                    && #[trigger] call_ensures(D::add_dependency, (m, id, on), ()),
    {
        let r = ask_add(&mut self.engine, id, on);
        proof {
            assert(r@ == self.engine);
            assert(added(old(self).inner(), id, on, r@));
            let a = (Asked::AddDependency { id, on });
            self.asked@ = self.asked@.push(a);
            Self::lemma_more(*old(self), a, *self);
        }
    }

    /// Lets a key depend on others, and on nothing else.
    pub fn set_dependencies(&mut self, id: DirtyKey, on: &[DirtyKey])
        ensures
            final(self).asked() == old(self).asked().push((Asked::SetDependencies { id, on: on@ })),
            engine_asked(old(self).inner(), (Asked::SetDependencies { id, on: on@ }), final(self).inner()),
            old(self).wf() ==> final(self).wf(),
            exists|m: &mut D|
                *m == old(self).inner() && *final(m) == final(self).inner()
                    && #[trigger] call_ensures(D::set_dependencies, (m, id, on), ()),
    {
        let r = ask_set(&mut self.engine, id, on);
        proof {
            assert(r@ == self.engine);
            assert(replaced(old(self).inner(), id, on@, r@));
            let a = (Asked::SetDependencies { id, on: on@ });
            self.asked@ = self.asked@.push(a);
            Self::lemma_more(*old(self), a, *self);
        }
    }

    /// Takes the affected keys: all, or those within the dependencies of one.
    pub fn drain(&mut self, within: Option<DirtyKey>, traced: bool) -> (keys: Vec<Drained>)
        ensures
            final(self).asked() == old(self).asked().push((Asked::Drain { within, traced, keys: drained_models(keys@) })),
            engine_asked(old(self).inner(), (Asked::Drain { within, traced, keys: drained_models(keys@) }), final(self).inner()),
            old(self).wf() ==> final(self).wf(),
            match (within, traced) {
                (Some(id), true) => exists|m: &mut D|
                    *m == old(self).inner() && *final(m) == final(self).inner()
                        && #[trigger] call_ensures(D::drain_within_dependencies_of_traced, (m, id), keys),
                (Some(id), false) => exists|m: &mut D|
                    *m == old(self).inner() && *final(m) == final(self).inner()
                        && #[trigger] call_ensures(D::drain_within_dependencies_of, (m, id), keys),
                (None, true) => exists|m: &mut D|
                    *m == old(self).inner() && *final(m) == final(self).inner()
                        && #[trigger] call_ensures(D::drain_traced, (m,), keys),
                (None, false) => exists|m: &mut D|
                    *m == old(self).inner() && *final(m) == final(self).inner()
                        && #[trigger] call_ensures(D::drain, (m,), keys),
            },
    {
        let r = ask_drain(&mut self.engine, within, traced);
        proof {
            let a = (Asked::Drain { within, traced, keys: drained_models(r.0@) });
            self.asked@ = self.asked@.push(a);
            Self::lemma_more(*old(self), a, *self);
        }
        r.0
    }

    /// How a key came to be affected.
    pub fn explain_path(&mut self, id: DirtyKey) -> (path: Option<Vec<ResourceKey>>)
        ensures
            final(self).asked() == old(self).asked().push((Asked::Explain { id, path: path_model(path) })),
            engine_asked(old(self).inner(), (Asked::Explain { id, path: path_model(path) }), final(self).inner()),
            old(self).wf() ==> final(self).wf(),
            exists|m: &mut D|
                *m == old(self).inner() && *final(m) == final(self).inner()
                    && #[trigger] call_ensures(D::explain_path, (m, id), path),
    {
        let r = ask_path(&mut self.engine, id);
        proof {
            assert(r.1@ == self.engine);
            assert(explained(old(self).inner(), id, path_model(r.0), r.1@));
            let a = (Asked::Explain { id, path: path_model(r.0) });
            self.asked@ = self.asked@.push(a);
            Self::lemma_more(*old(self), a, *self);
        }
        r.0
    }
}

/// Keys in increasing order, each once.
pub open spec fn increasing(ids: Seq<DirtyKey>) -> bool {
    forall|i: int, j: int| 0 <= i < j < ids.len() ==> (#[trigger] ids[i]).0 < (#[trigger] ids[j]).0
}

/// The keys of `ids` in increasing order, each once.
pub open spec fn canonical(ids: Seq<DirtyKey>) -> Seq<DirtyKey> {
    choose|c: Seq<DirtyKey>| #[trigger] increasing(c) && c.to_set() == ids.to_set()
}

/// Of the keys in increasing order there is only one sequence.
pub proof fn lemma_increasing_unique(a: Seq<DirtyKey>, b: Seq<DirtyKey>)
    requires
        increasing(a),
        increasing(b),
        a.to_set() == b.to_set(),
    ensures
        a == b,
    decreases a.len(),
{
    if a.len() == 0 {
        if b.len() > 0 {
            assert(b.to_set().contains(b[0]));
            assert(a.contains(b[0]));
        }
        assert(a =~= b);
    } else {
        assert(a.to_set().contains(a.last()));
        assert(b.contains(a.last()));
        assert(b.to_set().contains(b.last()));
        assert(a.contains(b.last()));
        let i = choose|i: int| 0 <= i < b.len() && b[i] == a.last();
        let j = choose|j: int| 0 <= j < a.len() && a[j] == b.last();
        assert(a.last() == b.last()) by {
            if i < b.len() - 1 && j < a.len() - 1 {
                assert(b[i].0 < b[b.len() - 1].0);
                assert(a[j].0 < a[a.len() - 1].0);
            }
        }
        let x = a.last();
        let c = a.drop_last();
        let d = b.drop_last();
        assert forall|k: DirtyKey| c.to_set().contains(k) == d.to_set().contains(k) by {
            if c.contains(k) {
                let m = choose|m: int| 0 <= m < c.len() && c[m] == k;
                assert(a[m].0 < a[a.len() - 1].0);
                assert(a.to_set().contains(a[m]));
                assert(b.contains(k));
                let n = choose|n: int| 0 <= n < b.len() && b[n] == k;
                assert(d[n] == k);
            }
            if d.contains(k) {
                let m = choose|m: int| 0 <= m < d.len() && d[m] == k;
                assert(b[m].0 < b[b.len() - 1].0);
                assert(b.to_set().contains(b[m]));
                assert(a.contains(k));
                let n = choose|n: int| 0 <= n < a.len() && a[n] == k;
                assert(c[n] == k);
            }
        }
        assert(c.to_set() =~= d.to_set());
        assert(increasing(c)) by {
            assert forall|m: int, n: int| 0 <= m < n < c.len() implies (#[trigger] c[m]).0
                < (#[trigger] c[n]).0 by {
                assert(a[m].0 < a[n].0);
            }
        }
        assert(increasing(d)) by {
            assert forall|m: int, n: int| 0 <= m < n < d.len() implies (#[trigger] d[m]).0
                < (#[trigger] d[n]).0 by {
                assert(b[m].0 < b[n].0);
            }
        }
        lemma_increasing_unique(c, d);
        assert(a =~= c.push(x));
        assert(b =~= d.push(x));
    }
}

/// What the keys in increasing order are.
pub proof fn lemma_canonical(ids: Seq<DirtyKey>, c: Seq<DirtyKey>)
    requires
        increasing(c),
        c.to_set() == ids.to_set(),
    ensures
        canonical(ids) == c,
{
    lemma_increasing_unique(canonical(ids), c);
}

/// The keys can be put in increasing order.
pub proof fn lemma_canonical_exists(ids: Seq<DirtyKey>)
    ensures
        increasing(canonical(ids)),
        canonical(ids).to_set() == ids.to_set(),
    decreases ids.len(),
{
    let c = if ids.len() == 0 {
        Seq::<DirtyKey>::empty()
    } else {
        lemma_canonical_exists(ids.drop_last());
        insert_key(canonical(ids.drop_last()), ids.last())
    };
    if ids.len() == 0 {
        assert(c.to_set() =~= ids.to_set());
    } else {
        let rest = canonical(ids.drop_last());
        lemma_insert_key(rest, ids.last());
        assert forall|k: DirtyKey| c.to_set().contains(k) == ids.to_set().contains(k) by {
            assert(rest.to_set().contains(k) == ids.drop_last().to_set().contains(k));
            if ids.contains(k) && k != ids.last() {
                let i = choose|i: int| 0 <= i < ids.len() && ids[i] == k;
                assert(ids.drop_last()[i] == k);
            }
            if ids.drop_last().contains(k) {
                let i = choose|i: int| 0 <= i < ids.drop_last().len() && ids.drop_last()[i] == k;
                assert(ids[i] == k);
            }
            if k == ids.last() {
                assert(ids[ids.len() - 1] == k);
            }
        }
        assert(c.to_set() =~= ids.to_set());
    }
    assert(increasing(c) && c.to_set() == ids.to_set());
}

/// Keys in increasing order, with one more.
spec fn insert_key(c: Seq<DirtyKey>, k: DirtyKey) -> Seq<DirtyKey>
    decreases c.len(),
{
    if c.len() == 0 {
        seq![k]
    } else if c.last().0 < k.0 {
        c.push(k)
    } else if c.last() == k {
        c
    } else {
        insert_key(c.drop_last(), k).push(c.last())
    }
}

/// One more key leaves them in increasing order.
proof fn lemma_insert_key(c: Seq<DirtyKey>, k: DirtyKey)
    requires
        increasing(c),
    ensures
        increasing(insert_key(c, k)),
        forall|x: DirtyKey| #[trigger] insert_key(c, k).contains(x) <==> c.contains(x) || x == k,
        insert_key(c, k).len() > 0,
        c.len() > 0 ==> insert_key(c, k).last().0 >= c.last().0,
        insert_key(c, k).last() == k || (c.len() > 0 && insert_key(c, k).last() == c.last()),
    decreases c.len(),
{
    let r = insert_key(c, k);
    if c.len() == 0 {
        assert(r[0] == k);
    } else if c.last().0 < k.0 {
        assert forall|i: int, j: int| 0 <= i < j < r.len() implies (#[trigger] r[i]).0
            < (#[trigger] r[j]).0 by {
            if j < c.len() {
                assert(c[i].0 < c[j].0);
            } else if i < c.len() - 1 {
                assert(c[i].0 < c[c.len() - 1].0);
            }
        }
        assert forall|x: DirtyKey| #[trigger] r.contains(x) <==> c.contains(x) || x == k by {
            if c.contains(x) {
                let i = choose|i: int| 0 <= i < c.len() && c[i] == x;
                assert(r[i] == x);
            }
            if x == k {
                assert(r[c.len() as int] == k);
            }
        }
    } else if c.last() == k {
        assert(c[c.len() - 1] == k);
    } else {
        let d = c.drop_last();
        assert(increasing(d)) by {
            assert forall|i: int, j: int| 0 <= i < j < d.len() implies (#[trigger] d[i]).0
                < (#[trigger] d[j]).0 by {
                assert(c[i].0 < c[j].0);
            }
        }
        lemma_insert_key(d, k);
        let e = insert_key(d, k);
        assert(e.last().0 < c.last().0) by {
            if d.len() > 0 {
                assert(c[c.len() - 2].0 < c[c.len() - 1].0);
            }
        }
        assert forall|i: int, j: int| 0 <= i < j < r.len() implies (#[trigger] r[i]).0
            < (#[trigger] r[j]).0 by {
            if j < e.len() {
                assert(e[i].0 < e[j].0);
            } else if i < e.len() - 1 {
                assert(e[i].0 < e[e.len() - 1].0);
            }
        }
        assert forall|x: DirtyKey| #[trigger] r.contains(x) <==> c.contains(x) || x == k by {
            assert(e.contains(x) <==> d.contains(x) || x == k);
            if r.contains(x) && x != c.last() {
                let i = choose|i: int| 0 <= i < r.len() && r[i] == x;
                assert(e[i] == x);
            }
            if d.contains(x) {
                let i = choose|i: int| 0 <= i < d.len() && d[i] == x;
                assert(c[i] == x);
            }
            if c.contains(x) && x != c.last() {
                let i = choose|i: int| 0 <= i < c.len() && c[i] == x;
                assert(d[i] == x);
            }
            if e.contains(x) {
                let i = choose|i: int| 0 <= i < e.len() && e[i] == x;
                assert(r[i] == x);
            }
            if x == c.last() {
                assert(r[e.len() as int] == x);
                assert(c[c.len() - 1] == x);
            }
        }
    }
}

/// The keys of `ids` in increasing order, each once.
pub fn canonical_keys(ids: &Vec<DirtyKey>) -> (out: Vec<DirtyKey>)
    ensures
        out@ == canonical(ids@),
        increasing(out@),
        out@.to_set() == ids@.to_set(),
{
    let sorted = sorted_copy(ids);
    let ghost s = sorted@;
    proof {
        DirtyKey::order_is_total();
        ids@.lemma_sort_by_ensures(key_order());
    }
    let mut out: Vec<DirtyKey> = Vec::new();
    let mut i: usize = 0;
    while i < sorted.len()
        invariant
            i <= sorted@.len(),
            s == sorted@,
            sorted_by(s, key_order()),
            increasing(out@),
            forall|k: int| 0 <= k < out@.len() ==> s.contains(#[trigger] out@[k]),
            forall|k: int| 0 <= k < i ==> out@.contains(#[trigger] s[k]),
            i > 0 ==> out@.len() > 0 && out@.last() == s[i - 1],
            i == 0 ==> out@.len() == 0,
        decreases sorted.len() - i,
    {
        let ghost before = out@;
        if i == 0 || sorted[i].0 != sorted[i - 1].0 {
            out.push(sorted[i]);
            proof {
                if i > 0 {
                    assert((key_order())(s[i - 1], s[i as int]));
                }
                assert(out@[out@.len() - 1] == s[i as int]);
                assert forall|m: int, n: int| 0 <= m < n < out@.len() implies (#[trigger] out@[m]).0
                    < (#[trigger] out@[n]).0 by {
                    if n < before.len() {
                        assert(before[m].0 < before[n].0);
                    } else if m < before.len() - 1 {
                        assert(before[m].0 < before[before.len() - 1].0);
                    }
                }
                assert forall|k: int| 0 <= k <= i implies out@.contains(#[trigger] s[k]) by {
                    if k < i {
                        let m = choose|m: int| 0 <= m < before.len() && before[m] == s[k];
                        assert(out@[m] == s[k]);
                    }
                }
            }
        }
        i = i + 1;
    }
    proof {
        assert forall|k: DirtyKey| out@.to_set().contains(k) == ids@.to_set().contains(k) by {
            vstd::seq_lib::to_multiset_contains(s, k);
            vstd::seq_lib::to_multiset_contains(ids@, k);
            assert(s.contains(k) == ids@.contains(k));
            if out@.contains(k) {
                let m = choose|m: int| 0 <= m < out@.len() && out@[m] == k;
                assert(s.contains(out@[m]));
            }
            if s.contains(k) {
                let m = choose|m: int| 0 <= m < s.len() && s[m] == k;
                assert(out@.contains(s[m]));
            }
        }
        assert(out@.to_set() =~= ids@.to_set());
        lemma_canonical(ids@, out@);
    }
    out
}

/// The order in which keys are read, and how often, does not matter to what they come to.
pub proof fn law_read_order_is_immaterial(a: Seq<DirtyKey>, b: Seq<DirtyKey>)
    requires
        a.to_set() == b.to_set(),
    ensures
        canonical(a) == canonical(b),
{
}

} // verus!
