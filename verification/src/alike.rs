//! Laws on runs whose hosts and float units are alike.

use vstd::prelude::*;
use vstd::utf8::*;

use crate::aggregates::AggModel;
use crate::history;
use crate::history::chain;
use crate::host::Host;
use crate::ieee;
use crate::ieee::{FloatCall, FloatUnit};
use crate::limits;
use crate::machine;
use crate::machine::{Limits, Next, Outcome, Reply};
use crate::strict;
use crate::strict::HostCall;
use crate::trap::TrapInfo;
use crate::value::ValueModel;
use crate::verify::VerifiedView;
use crate::vm;

verus! {

/// Whether a host was asked the same in two calls.
pub open spec fn same_request(a: HostCall, b: HostCall) -> bool {
    a.symbol == b.symbol && a.sig_hash == b.sig_hash && a.args == b.args && (a.accesses is Some
        == b.accesses is Some)
}

/// What a host does in a call rests on its state and on what it is asked.
pub open spec fn steady_host<H: Host>() -> bool {
    forall|state: H, c: HostCall, one: H, d: HostCall, other: H|
        #[trigger] strict::answered(state, c, one) && #[trigger] strict::answered(state, d, other)
            && same_request(c, d) ==> c == d && one == other
}

/// What a float unit does rests on its state and on what it is asked.
pub open spec fn steady_unit<F: FloatUnit>() -> bool {
    forall|state: F, c: FloatCall, one: F, d: FloatCall, other: F|
        #[trigger] ieee::performed(state, c, one) && #[trigger] ieee::performed(state, d, other)
            && limits::same_sum(c, d) ==> c == d && one == other
}

/// The next call of two histories that are the same so far.
proof fn lemma_next_call<H: Host>(
    host: H,
    calls: Seq<HostCall>,
    end: H,
    other_calls: Seq<HostCall>,
    other_end: H,
    k: int,
)
    requires
        steady_host::<H>(),
        chain(strict::answers_calls::<H>(), host, calls, end),
        chain(strict::answers_calls::<H>(), host, other_calls, other_end),
        0 <= k < calls.len(),
        k < other_calls.len(),
        calls.take(k) == other_calls.take(k),
        same_request(calls[k], other_calls[k]),
    ensures
        calls[k] == other_calls[k],
{
    let f = strict::answers_calls::<H>();
    let (a, a1) = history::lemma_at(f, host, calls, end, k);
    let (b, b1) = history::lemma_at(f, host, other_calls, other_end, k);
    assert forall|s: H, c: HostCall, x: H, y: H| #[trigger] f(s, c, x) && #[trigger] f(s, c, y) implies x
        == y by {
        assert(strict::answered(s, c, x) && strict::answered(s, c, y));
        assert(same_request(c, c));
    }
    history::lemma_one_end(f, host, calls.take(k), a, b);
    assert(strict::answered(a, calls[k], a1));
    assert(strict::answered(a, other_calls[k], b1));
}

/// The next sum of two histories that are the same so far.
proof fn lemma_next_sum<F: FloatUnit>(
    unit: F,
    sums: Seq<FloatCall>,
    end: F,
    other_sums: Seq<FloatCall>,
    other_end: F,
    k: int,
)
    requires
        steady_unit::<F>(),
        chain(ieee::performs::<F>(), unit, sums, end),
        chain(ieee::performs::<F>(), unit, other_sums, other_end),
        0 <= k < sums.len(),
        k < other_sums.len(),
        sums.take(k) == other_sums.take(k),
        limits::same_sum(sums[k], other_sums[k]),
    ensures
        sums[k] == other_sums[k],
{
    let f = ieee::performs::<F>();
    let (a, a1) = history::lemma_at(f, unit, sums, end, k);
    let (b, b1) = history::lemma_at(f, unit, other_sums, other_end, k);
    assert forall|s: F, c: FloatCall, x: F, y: F| #[trigger] f(s, c, x) && #[trigger] f(s, c, y) implies x
        == y by {
        assert(ieee::performed(s, c, x) && ieee::performed(s, c, y));
        assert(limits::same_sum(c, c));
    }
    history::lemma_one_end(f, unit, sums.take(k), a, b);
    assert(ieee::performed(a, sums[k], a1));
    assert(ieee::performed(a, other_sums[k], b1));
}

/// The first steps of two runs whose hosts and float units are alike.
proof fn lemma_alike<H: Host, F: FloatUnit>(
    vp: VerifiedView,
    lim: Limits,
    from: Next,
    a: Seq<Reply>,
    b: Seq<Reply>,
    calls: Seq<HostCall>,
    other_calls: Seq<HostCall>,
    sums: Seq<FloatCall>,
    other_sums: Seq<FloatCall>,
    host: H,
    hosts: (H, H),
    unit: F,
    units: (F, F),
    handed: bool,
    n: nat,
)
    requires
        steady_host::<H>(),
        steady_unit::<F>(),
        chain(strict::answers_calls::<H>(), host, calls, hosts.0),
        chain(strict::answers_calls::<H>(), host, other_calls, hosts.1),
        chain(ieee::performs::<F>(), unit, sums, units.0),
        chain(ieee::performs::<F>(), unit, other_sums, units.1),
        strict::all_handed(calls, handed),
        strict::all_handed(other_calls, handed),
        machine::hosts(vp, lim, from, a) == vm::answers(calls),
        machine::hosts(vp, lim, from, b) == vm::answers(other_calls),
        machine::floats(vp, lim, from, a) == sums,
        machine::floats(vp, lim, from, b) == other_sums,
        n <= a.len(),
        n <= b.len(),
    ensures
        ({
            let (p, q) = (a.take(n as int), b.take(n as int));
            let k = machine::hosts(vp, lim, from, p).len() as int;
            let m = machine::floats(vp, lim, from, p).len() as int;
            &&& machine::steps(vp, lim, from, p) == machine::steps(vp, lim, from, q)
            &&& machine::hosts(vp, lim, from, q).len() == k
            &&& machine::floats(vp, lim, from, q).len() == m
            &&& k <= calls.len() && k <= other_calls.len()
            &&& m <= sums.len() && m <= other_sums.len()
            &&& calls.take(k) == other_calls.take(k)
            &&& sums.take(m) == other_sums.take(m)
        }),
    decreases n,
{
    limits::lemma_first_steps(vp, lim, from, a, n);
    limits::lemma_first_steps(vp, lim, from, b, n);
    if n == 0 {
        assert(calls.take(0) =~= other_calls.take(0));
        assert(sums.take(0) =~= other_sums.take(0));
    } else {
        let (x, y) = (a.take(n as int), b.take(n as int));
        let (p, q) = (a.take(n - 1), b.take(n - 1));
        assert(x.drop_last() =~= p);
        assert(y.drop_last() =~= q);
        lemma_alike(
            vp,
            lim,
            from,
            a,
            b,
            calls,
            other_calls,
            sums,
            other_sums,
            host,
            hosts,
            unit,
            units,
            handed,
            (n - 1) as nat,
        );
        let k = machine::hosts(vp, lim, from, p).len() as int;
        let m = machine::floats(vp, lim, from, p).len() as int;
        match machine::steps(vp, lim, from, p) {
            Next::Running(st) => {
                match machine::next_outcome(vp, lim, st) {
                    Some(Outcome::Host { request, .. }) => {
                        let (c, d) = (calls[k], other_calls[k]);
                        assert(machine::hosts(vp, lim, from, x)[k] == vm::answers(calls)[k]);
                        assert(machine::hosts(vp, lim, from, y)[k] == vm::answers(other_calls)[k]);
                        assert(vm::answer(c).text == request.text);
                        assert(vm::answer(d).text == request.text);
                        encode_utf8_decode_utf8(c.symbol);
                        encode_utf8_decode_utf8(d.symbol);
                        lemma_next_call(host, calls, hosts.0, other_calls, hosts.1, k);
                        assert(x.last().host == c.reply);
                        assert(y.last().host == d.reply);
                        assert(calls.take(k + 1) =~= calls.take(k).push(c));
                        assert(other_calls.take(k + 1) =~= other_calls.take(k).push(d));
                    },
                    Some(Outcome::Float { .. }) => {
                        let (c, d) = (sums[m], other_sums[m]);
                        assert(machine::floats(vp, lim, from, x)[m] == sums[m]);
                        assert(machine::floats(vp, lim, from, y)[m] == other_sums[m]);
                        lemma_next_sum(unit, sums, units.0, other_sums, units.1, m);
                        assert(x.last().float == c.bits);
                        assert(y.last().float == d.bits);
                        assert(sums.take(m + 1) =~= sums.take(m).push(c));
                        assert(other_sums.take(m + 1) =~= other_sums.take(m).push(d));
                    },
                    _ => {},
                }
            },
            Next::Done(_, _) => {},
        }
    }
}

/// Two runs that start alike, with hosts in the same state and float units in the same state, make
/// the same calls, get the same answers and end alike, whatever ran before in their contexts. Of
/// hosts and float units it is asked that what they do rests on their states and on what they are
/// asked.
pub proof fn law_alike_runs<H: Host, F: FloatUnit>(
    vp: VerifiedView,
    lim: Limits,
    from: Next,
    one: (Result<Seq<ValueModel>, TrapInfo>, Seq<AggModel>),
    other: (Result<Seq<ValueModel>, TrapInfo>, Seq<AggModel>),
    calls: Seq<HostCall>,
    other_calls: Seq<HostCall>,
    sums: Seq<FloatCall>,
    other_sums: Seq<FloatCall>,
    host: H,
    hosts: (H, H),
    unit: F,
    units: (F, F),
    handed: bool,
)
    requires
        steady_host::<H>(),
        steady_unit::<F>(),
        vm::ends_in(vp, lim, from, one.0, one.1, calls, sums),
        vm::ends_in(vp, lim, from, other.0, other.1, other_calls, other_sums),
        chain(strict::answers_calls::<H>(), host, calls, hosts.0),
        chain(strict::answers_calls::<H>(), host, other_calls, hosts.1),
        chain(ieee::performs::<F>(), unit, sums, units.0),
        chain(ieee::performs::<F>(), unit, other_sums, units.1),
        strict::all_handed(calls, handed),
        strict::all_handed(other_calls, handed),
    ensures
        one == other,
        calls == other_calls,
        sums == other_sums,
{
    let a = limits::replies_of(vp, lim, from, one, calls, sums);
    let b = limits::replies_of(vp, lim, from, other, other_calls, other_sums);
    let n = if a.len() <= b.len() {
        a.len()
    } else {
        b.len()
    };
    assert(vm::answers(calls).len() == calls.len());
    assert(vm::answers(other_calls).len() == other_calls.len());
    limits::lemma_first_steps(vp, lim, from, a, n);
    limits::lemma_first_steps(vp, lim, from, b, n);
    lemma_alike(
        vp,
        lim,
        from,
        a,
        b,
        calls,
        other_calls,
        sums,
        other_sums,
        host,
        hosts,
        unit,
        units,
        handed,
        n,
    );
    if n == a.len() {
        assert(a.take(n as int) =~= a);
        assert(machine::steps(vp, lim, from, b.take(n as int)) is Done);
    } else {
        assert(b.take(n as int) =~= b);
        assert(machine::steps(vp, lim, from, a.take(n as int)) is Done);
    }
    assert(calls.take(calls.len() as int) =~= calls);
    assert(other_calls.take(other_calls.len() as int) =~= other_calls);
    assert(sums.take(sums.len() as int) =~= sums);
    assert(other_sums.take(other_sums.len() as int) =~= other_sums);
}

} // verus!
