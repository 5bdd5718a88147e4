//! Histories: what something outside was asked or told, one thing after the other.

use vstd::prelude::*;

verus! {

/// Something goes through the given states while the things of a history happen.
pub open spec fn through<S, E>(
    follows: spec_fn(S, E, S) -> bool,
    states: Seq<S>,
    log: Seq<E>,
) -> bool {
    &&& states.len() == log.len() + 1
    &&& forall|i: int|
        0 <= i < log.len() ==> #[trigger] follows(states[i], log[i], states[i + 1])
}

/// Something in the state `first` goes through a history and ends in the state `last`. The relation
/// says which state follows on which when something happens.
pub open spec fn chain<S, E>(
    follows: spec_fn(S, E, S) -> bool,
    first: S,
    log: Seq<E>,
    last: S,
) -> bool {
    exists|states: Seq<S>| #[trigger]
        through(follows, states, log) && states[0] == first && states.last() == last
}

/// Nothing happened.
pub proof fn lemma_none<S, E>(follows: spec_fn(S, E, S) -> bool, state: S)
    ensures
        chain(follows, state, Seq::<E>::empty(), state),
{
    assert(through(follows, seq![state], Seq::<E>::empty()));
}

/// One thing happened.
pub proof fn lemma_one<S, E>(follows: spec_fn(S, E, S) -> bool, first: S, e: E, last: S)
    requires
        follows(first, e, last),
    ensures
        chain(follows, first, seq![e], last),
{
    let states = seq![first, last];
    assert forall|i: int| 0 <= i < 1 implies #[trigger] follows(states[i], seq![e][i], states[i + 1]) by {
        assert(i == 0);
    }
    assert(through(follows, states, seq![e]));
}

/// One thing more happened.
pub proof fn lemma_push<S, E>(
    follows: spec_fn(S, E, S) -> bool,
    first: S,
    log: Seq<E>,
    mid: S,
    e: E,
    last: S,
)
    requires
        chain(follows, first, log, mid),
        follows(mid, e, last),
    ensures
        chain(follows, first, log.push(e), last),
{
    lemma_one(follows, mid, e, last);
    lemma_concat(follows, first, log, mid, seq![e], last);
    assert(log + seq![e] =~= log.push(e));
}

/// One history behind another.
pub proof fn lemma_concat<S, E>(
    follows: spec_fn(S, E, S) -> bool,
    first: S,
    log: Seq<E>,
    mid: S,
    more: Seq<E>,
    last: S,
)
    requires
        chain(follows, first, log, mid),
        chain(follows, mid, more, last),
    ensures
        chain(follows, first, log + more, last),
{
    let a = choose|states: Seq<S>| #[trigger]
        through(follows, states, log) && states[0] == first && states.last() == mid;
    let b = choose|states: Seq<S>| #[trigger]
        through(follows, states, more) && states[0] == mid && states.last() == last;
    let c = a + b.drop_first();
    let all = log + more;
    assert forall|i: int| 0 <= i < all.len() implies #[trigger] follows(c[i], all[i], c[i + 1]) by {
        if i < log.len() {
            assert(follows(a[i], log[i], a[i + 1]));
        } else {
            let j = i - log.len();
            assert(follows(b[j], more[j], b[j + 1]));
            assert(c[i] == b[j]);
            assert(c[i + 1] == b[j + 1]);
        }
    }
    assert(through(follows, c, all));
    assert(c.last() == last) by {
        if more.len() > 0 {
            assert(c.last() == b.last());
        }
    }
}

/// The state in a history behind its first `n` entries, and the one that follows on it.
pub proof fn lemma_at<S, E>(
    follows: spec_fn(S, E, S) -> bool,
    first: S,
    log: Seq<E>,
    last: S,
    n: int,
) -> (r: (S, S))
    requires
        chain(follows, first, log, last),
        0 <= n < log.len(),
    ensures
        chain(follows, first, log.take(n), r.0),
        follows(r.0, log[n], r.1),
        chain(follows, first, log.take(n + 1), r.1),
{
    let a = choose|states: Seq<S>| #[trigger]
        through(follows, states, log) && states[0] == first && states.last() == last;
    assert(follows(a[n], log[n], a[n + 1]));
    assert forall|m: int| 0 <= m <= log.len() implies #[trigger] through(
        follows,
        a.take(m + 1),
        log.take(m),
    ) by {
        assert forall|i: int| 0 <= i < m implies #[trigger] follows(
            a.take(m + 1)[i],
            log.take(m)[i],
            a.take(m + 1)[i + 1],
        ) by {
            assert(follows(a[i], log[i], a[i + 1]));
        }
    }
    assert(through(follows, a.take(n + 1), log.take(n)));
    assert(through(follows, a.take(n + 2), log.take(n + 1)));
    (a[n], a[n + 1])
}

/// Two ends of one history that started alike are the same, where a state and what happens have only
/// one state follow.
pub proof fn lemma_one_end<S, E>(
    follows: spec_fn(S, E, S) -> bool,
    first: S,
    log: Seq<E>,
    one: S,
    other: S,
)
    requires
        chain(follows, first, log, one),
        chain(follows, first, log, other),
        forall|a: S, e: E, b: S, c: S|
            #[trigger] follows(a, e, b) && #[trigger] follows(a, e, c) ==> b == c,
    ensures
        one == other,
    decreases log.len(),
{
    if log.len() > 0 {
        let n = log.len() - 1;
        let a = choose|states: Seq<S>| #[trigger]
            through(follows, states, log) && states[0] == first && states.last() == one;
        let b = choose|states: Seq<S>| #[trigger]
            through(follows, states, log) && states[0] == first && states.last() == other;
        assert(follows(a[n], log[n], a[n + 1]));
        assert(follows(b[n], log[n], b[n + 1]));
        let rest = log.take(n);
        assert(through(follows, a.take(n + 1), rest)) by {
            assert forall|i: int| 0 <= i < n implies #[trigger] follows(
                a.take(n + 1)[i],
                rest[i],
                a.take(n + 1)[i + 1],
            ) by {
                assert(follows(a[i], log[i], a[i + 1]));
            }
        }
        assert(through(follows, b.take(n + 1), rest)) by {
            assert forall|i: int| 0 <= i < n implies #[trigger] follows(
                b.take(n + 1)[i],
                rest[i],
                b.take(n + 1)[i + 1],
            ) by {
                assert(follows(b[i], log[i], b[i + 1]));
            }
        }
        lemma_one_end(follows, first, rest, a[n], b[n]);
    }
}

} // verus!
