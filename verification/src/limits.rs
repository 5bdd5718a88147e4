//! Laws of the abstract machine on limits and aggregates.

use vstd::prelude::*;

use crate::aggregates::AggModel;
use crate::machine;
use crate::ieee::FloatCall;
use crate::machine::{HostAnswer, Limits, Next, Outcome, Reply, State};
use crate::strict::HostCall;
use crate::trap::TrapInfo;
use crate::value::{FuncId, ValueModel};
use crate::verify::VerifiedView;
use crate::vm;

verus! {

/// What the next instruction of a state does.
pub open spec fn pending(vp: VerifiedView, lim: Limits, st: State) -> Outcome {
    let top = st.top();
    machine::decide(
        vp,
        lim,
        vp.functions[top.func.0 as int],
        top.ix,
        top.regs,
        st.heap,
        st.frames.len(),
        st.host_calls,
    )
}

/// A step depends on what comes back from outside only where its instruction calls the host or asks
/// for arithmetic that rounds.
pub proof fn law_step_deterministic(vp: VerifiedView, lim: Limits, st: State, a: Reply, b: Reply)
    requires
        !(pending(vp, lim, st) is Host),
        !(pending(vp, lim, st) is Float),
    ensures
        machine::step(vp, lim, st, a) == machine::step(vp, lim, st, b),
{
}

/// Every instruction uses fuel.
pub proof fn law_step_uses_fuel(vp: VerifiedView, lim: Limits, st: State, reply: Reply)
    requires
        st.frames.len() > 0,
    ensures
        machine::step(vp, lim, st, reply) matches Next::Running(s) ==> s.fuel < st.fuel
            && s.frames.len() > 0,
{
}

/// A state that keeps to the limits.
pub open spec fn within(lim: Limits, st: State) -> bool {
    &&& st.frames.len() > 0
    &&& st.frames.len() <= lim.max_call_depth || st.frames.len() == 1
    &&& st.host_calls <= lim.max_host_calls
}

/// No step goes beyond the limits on call depth and host calls.
pub proof fn law_step_keeps_limits(vp: VerifiedView, lim: Limits, st: State, reply: Reply)
    requires
        within(lim, st),
    ensures
        machine::step(vp, lim, st, reply) matches Next::Running(s) ==> within(lim, s),
{
}

/// The aggregates that there are stay as they are: a step adds at most one.
pub proof fn law_step_keeps_aggregates(vp: VerifiedView, lim: Limits, st: State, reply: Reply)
    ensures
        match machine::step(vp, lim, st, reply) {
            Next::Running(s) => s.heap == st.heap || exists|node: AggModel|
                s.heap == #[trigger] st.heap.push(node),
            Next::Done(_, heap) => heap == st.heap,
        },
{
    match machine::step(vp, lim, st, reply) {
        Next::Running(s) => {
            match pending(vp, lim, st) {
                Outcome::Build { dst, node } => {
                    assert(s.heap == st.heap.push(node));
                },
                _ => {},
            }
        },
        Next::Done(_, _) => {},
    }
}

proof fn lemma_fuel(vp: VerifiedView, lim: Limits, from: Next, replies: Seq<Reply>)
    requires
        from matches Next::Running(s) ==> s.frames.len() > 0,
    ensures
        machine::steps(vp, lim, from, replies) matches Next::Running(s) ==> {
            &&& s.frames.len() > 0
            &&& from matches Next::Running(f) && s.fuel + replies.len() <= f.fuel
        },
    decreases replies.len(),
{
    if replies.len() > 0 {
        lemma_fuel(vp, lim, from, replies.drop_last());
        match machine::steps(vp, lim, from, replies.drop_last()) {
            Next::Running(s) => {
                law_step_uses_fuel(vp, lim, s, replies.last());
            },
            Next::Done(_, _) => {},
        }
    }
}

/// A run executes no more instructions than it has fuel: after as many steps as there is fuel and
/// one more, it has ended.
pub proof fn law_fuel_bounds_run(
    vp: VerifiedView,
    lim: Limits,
    heap: Seq<AggModel>,
    entry: FuncId,
    args: Seq<ValueModel>,
    replies: Seq<Reply>,
)
    requires
        replies.len() > lim.fuel,
    ensures
        machine::steps(vp, lim, machine::start(vp, lim, heap, entry, args), replies) is Done,
{
    let from = machine::start(vp, lim, heap, entry, args);
    lemma_fuel(vp, lim, from, replies);
}

/// A run keeps to the limits on call depth and host calls at every point.
pub proof fn law_run_keeps_limits(
    vp: VerifiedView,
    lim: Limits,
    heap: Seq<AggModel>,
    entry: FuncId,
    args: Seq<ValueModel>,
    replies: Seq<Reply>,
)
    ensures
        machine::steps(vp, lim, machine::start(vp, lim, heap, entry, args), replies) matches Next::Running(
            s,
        ) ==> within(lim, s),
    decreases replies.len(),
{
    let from = machine::start(vp, lim, heap, entry, args);
    if replies.len() > 0 {
        law_run_keeps_limits(vp, lim, heap, entry, args, replies.drop_last());
        match machine::steps(vp, lim, from, replies.drop_last()) {
            Next::Running(s) => {
                law_step_keeps_limits(vp, lim, s, replies.last());
            },
            Next::Done(_, _) => {},
        }
    }
}

/// A run that has ended asks for nothing more.
proof fn lemma_ended(vp: VerifiedView, lim: Limits, from: Next, replies: Seq<Reply>)
    requires
        from is Done,
    ensures
        machine::steps(vp, lim, from, replies) == from,
        machine::hosts(vp, lim, from, replies).len() == 0,
        machine::floats(vp, lim, from, replies).len() == 0,
    decreases replies.len(),
{
    if replies.len() > 0 {
        lemma_ended(vp, lim, from, replies.drop_last());
    }
}

/// A run that is refused, because there is no such function or because it does not take the
/// arguments, ends with that trap, and neither the host nor the float unit is asked for anything.
pub proof fn law_refused_run_asks_nothing(
    vp: VerifiedView,
    lim: Limits,
    heap: Seq<AggModel>,
    entry: FuncId,
    args: Seq<ValueModel>,
    res: Result<Seq<ValueModel>, TrapInfo>,
    after: Seq<AggModel>,
    calls: Seq<HostCall>,
    sums: Seq<FloatCall>,
)
    requires
        machine::start(vp, lim, heap, entry, args) is Done,
        vm::ends_in(
            vp,
            lim,
            machine::start(vp, lim, heap, entry, args),
            res,
            after,
            calls,
            sums,
        ),
    ensures
        machine::start(vp, lim, heap, entry, args) == Next::Done(res, after),
        calls.len() == 0,
        sums.len() == 0,
{
    let from = machine::start(vp, lim, heap, entry, args);
    let replies = choose|replies: Seq<Reply>| #[trigger]
        machine::steps(vp, lim, from, replies) == Next::Done(res, after) && machine::hosts(
            vp,
            lim,
            from,
            replies,
        ) == vm::answers(calls) && machine::floats(vp, lim, from, replies) == sums;
    lemma_ended(vp, lim, from, replies);
    assert(vm::answers(calls).len() == calls.len());
}

/// What the first steps ask comes first in what all of them ask, and where they have ended the run
/// it stays so.
pub proof fn lemma_first_steps(vp: VerifiedView, lim: Limits, from: Next, replies: Seq<Reply>, k: nat)
    requires
        k <= replies.len(),
    ensures
        ({
            let first = replies.take(k as int);
            let h = machine::hosts(vp, lim, from, first);
            let f = machine::floats(vp, lim, from, first);
            let hs = machine::hosts(vp, lim, from, replies);
            let fs = machine::floats(vp, lim, from, replies);
            &&& h.len() <= hs.len()
            &&& forall|i: int| 0 <= i < h.len() ==> #[trigger] hs[i] == h[i]
            &&& f.len() <= fs.len()
            &&& forall|i: int| 0 <= i < f.len() ==> #[trigger] fs[i] == f[i]
            &&& machine::steps(vp, lim, from, first) is Done ==> machine::steps(
                vp,
                lim,
                from,
                replies,
            ) == machine::steps(vp, lim, from, first) && hs == h && fs == f
        }),
    decreases replies.len() - k,
{
    if k == replies.len() {
        assert(replies.take(k as int) =~= replies);
    } else {
        lemma_first_steps(vp, lim, from, replies, k + 1);
        assert(replies.take((k + 1) as int).drop_last() =~= replies.take(k as int));
        let (first, more) = (replies.take(k as int), replies.take((k + 1) as int));
        let hs = machine::hosts(vp, lim, from, replies);
        let fs = machine::floats(vp, lim, from, replies);
        let h = machine::hosts(vp, lim, from, first);
        let f = machine::floats(vp, lim, from, first);
        assert forall|i: int| 0 <= i < h.len() implies #[trigger] hs[i] == h[i] by {
            assert(machine::hosts(vp, lim, from, more)[i] == h[i]);
        }
        assert forall|i: int| 0 <= i < f.len() implies #[trigger] fs[i] == f[i] by {
            assert(machine::floats(vp, lim, from, more)[i] == f[i]);
        }
    }
}

/// Whether a host was asked the same in two calls.
pub open spec fn same_question(a: HostAnswer, b: HostAnswer) -> bool {
    a.text == b.text && a.sig_hash == b.sig_hash && a.args == b.args
}

/// Whether a float unit was asked the same twice.
pub open spec fn same_sum(a: FloatCall, b: FloatCall) -> bool {
    a.op == b.op && a.a == b.a && a.b == b.b
}

/// Whether a host replied the same to the first `n` calls of two histories, as far as both go.
pub open spec fn same_replies(a: Seq<HostAnswer>, b: Seq<HostAnswer>, n: nat) -> bool {
    forall|i: int|
        0 <= i < n && i < a.len() && i < b.len() ==> #[trigger] a[i].reply == #[trigger] b[i].reply
}

/// Whether a float unit gave the same bits to the first `n` questions of two histories, as far as
/// both go.
pub open spec fn same_bits(a: Seq<FloatCall>, b: Seq<FloatCall>, n: nat) -> bool {
    forall|i: int|
        0 <= i < n && i < a.len() && i < b.len() ==> #[trigger] a[i].bits == #[trigger] b[i].bits
}

/// Steps that ask no more than what was answered the same lead to the same states, with the same
/// questions.
proof fn lemma_same_answers(
    vp: VerifiedView,
    lim: Limits,
    from: Next,
    a: Seq<Reply>,
    b: Seq<Reply>,
    k: nat,
    hosts: nat,
    floats: nat,
)
    requires
        k <= a.len(),
        k <= b.len(),
        same_replies(machine::hosts(vp, lim, from, a), machine::hosts(vp, lim, from, b), hosts),
        same_bits(machine::floats(vp, lim, from, a), machine::floats(vp, lim, from, b), floats),
        machine::hosts(vp, lim, from, a.take(k as int)).len() <= hosts,
        machine::floats(vp, lim, from, a.take(k as int)).len() <= floats,
    ensures
        machine::steps(vp, lim, from, a.take(k as int)) == machine::steps(
            vp,
            lim,
            from,
            b.take(k as int),
        ),
        machine::hosts(vp, lim, from, a.take(k as int)) == machine::hosts(
            vp,
            lim,
            from,
            b.take(k as int),
        ),
        machine::floats(vp, lim, from, a.take(k as int)) == machine::floats(
            vp,
            lim,
            from,
            b.take(k as int),
        ),
    decreases k,
{
    if k > 0 {
        let (x, y) = (a.take(k as int), b.take(k as int));
        let (p, q) = (a.take(k - 1), b.take(k - 1));
        assert(x.drop_last() =~= p);
        assert(y.drop_last() =~= q);
        lemma_same_answers(vp, lim, from, a, b, (k - 1) as nat, hosts, floats);
        lemma_first_steps(vp, lim, from, a, k);
        lemma_first_steps(vp, lim, from, b, k);
        match machine::steps(vp, lim, from, p) {
            Next::Running(st) => {
                let hp = machine::hosts(vp, lim, from, p).len() as int;
                let fp = machine::floats(vp, lim, from, p).len() as int;
                match machine::next_outcome(vp, lim, st) {
                    Some(Outcome::Host { .. }) => {
                        assert(machine::hosts(vp, lim, from, x)[hp]
                            == machine::hosts(vp, lim, from, a)[hp]);
                        assert(machine::hosts(vp, lim, from, y)[hp]
                            == machine::hosts(vp, lim, from, b)[hp]);
                        assert(machine::hosts(vp, lim, from, a)[hp].reply
                            == machine::hosts(vp, lim, from, b)[hp].reply);
                        assert(machine::hosts(vp, lim, from, x)[hp].reply == x.last().host);
                        assert(machine::hosts(vp, lim, from, y)[hp].reply == y.last().host);
                        assert(x.last().host == y.last().host);
                    },
                    Some(Outcome::Float { .. }) => {
                        assert(machine::floats(vp, lim, from, x)[fp]
                            == machine::floats(vp, lim, from, a)[fp]);
                        assert(machine::floats(vp, lim, from, y)[fp]
                            == machine::floats(vp, lim, from, b)[fp]);
                        assert(machine::floats(vp, lim, from, a)[fp].bits
                            == machine::floats(vp, lim, from, b)[fp].bits);
                        assert(machine::floats(vp, lim, from, x)[fp].bits == x.last().float);
                        assert(machine::floats(vp, lim, from, y)[fp].bits == y.last().float);
                        assert(x.last().float == y.last().float);
                    },
                    _ => {},
                }
            },
            Next::Done(_, _) => {},
        }
    }
}

/// The step that makes host call number `k`.
proof fn lemma_step_of_call(
    vp: VerifiedView,
    lim: Limits,
    from: Next,
    replies: Seq<Reply>,
    k: nat,
) -> (n: nat)
    requires
        k < machine::hosts(vp, lim, from, replies).len(),
    ensures
        0 < n <= replies.len(),
        machine::hosts(vp, lim, from, replies.take(n - 1)).len() == k,
        machine::hosts(vp, lim, from, replies.take(n as int)).len() == k + 1,
    decreases replies.len(),
{
    let before = replies.drop_last();
    assert(replies.take(replies.len() as int) =~= replies);
    assert(replies.take(replies.len() - 1) =~= before);
    if k < machine::hosts(vp, lim, from, before).len() {
        let n = lemma_step_of_call(vp, lim, from, before, k);
        assert(before.take(n - 1) =~= replies.take(n - 1));
        assert(before.take(n as int) =~= replies.take(n as int));
        n
    } else {
        replies.len()
    }
}

/// The step that asks for sum number `k`.
proof fn lemma_step_of_sum(
    vp: VerifiedView,
    lim: Limits,
    from: Next,
    replies: Seq<Reply>,
    k: nat,
) -> (n: nat)
    requires
        k < machine::floats(vp, lim, from, replies).len(),
    ensures
        0 < n <= replies.len(),
        machine::floats(vp, lim, from, replies.take(n - 1)).len() == k,
        machine::floats(vp, lim, from, replies.take(n as int)).len() == k + 1,
    decreases replies.len(),
{
    let before = replies.drop_last();
    assert(replies.take(replies.len() as int) =~= replies);
    assert(replies.take(replies.len() - 1) =~= before);
    if k < machine::floats(vp, lim, from, before).len() {
        let n = lemma_step_of_sum(vp, lim, from, before, k);
        assert(before.take(n - 1) =~= replies.take(n - 1));
        assert(before.take(n as int) =~= replies.take(n as int));
        n
    } else {
        replies.len()
    }
}

/// Where the answers to what two runs asked in their first `n` steps agree, the two are in the same
/// state after these steps, and ask the same of outside in the next.
pub proof fn law_next_question(
    vp: VerifiedView,
    lim: Limits,
    from: Next,
    a: Seq<Reply>,
    b: Seq<Reply>,
    n: nat,
)
    requires
        n < a.len(),
        n < b.len(),
        same_replies(
            machine::hosts(vp, lim, from, a.take(n as int)),
            machine::hosts(vp, lim, from, b.take(n as int)),
            n,
        ),
        same_bits(
            machine::floats(vp, lim, from, a.take(n as int)),
            machine::floats(vp, lim, from, b.take(n as int)),
            n,
        ),
    ensures
        machine::steps(vp, lim, from, a.take(n as int)) == machine::steps(
            vp,
            lim,
            from,
            b.take(n as int),
        ),
        ({
            let one = machine::hosts(vp, lim, from, a.take((n + 1) as int));
            let other = machine::hosts(vp, lim, from, b.take((n + 1) as int));
            &&& one.len() == other.len()
            &&& forall|i: int| 0 <= i < one.len() ==> same_question(#[trigger] one[i], other[i])
        }),
        ({
            let one = machine::floats(vp, lim, from, a.take((n + 1) as int));
            let other = machine::floats(vp, lim, from, b.take((n + 1) as int));
            &&& one.len() == other.len()
            &&& forall|i: int| 0 <= i < one.len() ==> same_sum(#[trigger] one[i], other[i])
        }),
{
    let (p, q) = (a.take(n as int), b.take(n as int));
    assert(p.take(n as int) =~= p);
    assert(q.take(n as int) =~= q);
    lemma_few_questions(vp, lim, from, p);
    lemma_same_answers(vp, lim, from, p, q, n, n, n);
    assert(a.take((n + 1) as int).drop_last() =~= p);
    assert(b.take((n + 1) as int).drop_last() =~= q);
}

/// Steps ask no more than one thing each.
proof fn lemma_few_questions(vp: VerifiedView, lim: Limits, from: Next, replies: Seq<Reply>)
    ensures
        machine::hosts(vp, lim, from, replies).len() <= replies.len(),
        machine::floats(vp, lim, from, replies).len() <= replies.len(),
    decreases replies.len(),
{
    if replies.len() > 0 {
        lemma_few_questions(vp, lim, from, replies.drop_last());
    }
}

/// Two runs that start alike, whatever ran before in their contexts, ask the same of the host in
/// call number `k` where it replied the same to the calls before, and where the float unit gave the
/// same bits.
pub proof fn law_next_call(
    vp: VerifiedView,
    lim: Limits,
    from: Next,
    one: (Result<Seq<ValueModel>, TrapInfo>, Seq<AggModel>),
    other: (Result<Seq<ValueModel>, TrapInfo>, Seq<AggModel>),
    calls: Seq<HostCall>,
    other_calls: Seq<HostCall>,
    sums: Seq<FloatCall>,
    other_sums: Seq<FloatCall>,
    k: nat,
)
    requires
        vm::ends_in(vp, lim, from, one.0, one.1, calls, sums),
        vm::ends_in(vp, lim, from, other.0, other.1, other_calls, other_sums),
        k < calls.len(),
        k < other_calls.len(),
        same_replies(vm::answers(calls), vm::answers(other_calls), k),
        same_bits(sums, other_sums, sums.len()),
    ensures
        same_question(vm::answer(calls[k as int]), vm::answer(other_calls[k as int])),
{
    let a = replies_of(vp, lim, from, one, calls, sums);
    let b = replies_of(vp, lim, from, other, other_calls, other_sums);
    assert(vm::answers(calls)[k as int] == vm::answer(calls[k as int]));
    assert(vm::answers(other_calls)[k as int] == vm::answer(other_calls[k as int]));
    let n = lemma_step_of_call(vp, lim, from, a, k);
    let m = lemma_step_of_call(vp, lim, from, b, k);
    let (x, y) = if n <= m {
        (a, b)
    } else {
        (b, a)
    };
    let s = if n <= m {
        n
    } else {
        m
    };
    lemma_first_steps(vp, lim, from, x, (s - 1) as nat);
    lemma_same_answers(
        vp,
        lim,
        from,
        x,
        y,
        (s - 1) as nat,
        k,
        machine::floats(vp, lim, from, x).len(),
    );
    assert(x.take(s as int).drop_last() =~= x.take(s - 1));
    assert(y.take(s as int).drop_last() =~= y.take(s - 1));
    lemma_first_steps(vp, lim, from, x, s);
    lemma_first_steps(vp, lim, from, y, s);
    assert(machine::hosts(vp, lim, from, x.take(s as int))[k as int]
        == machine::hosts(vp, lim, from, x)[k as int]);
    assert(machine::hosts(vp, lim, from, y.take(s as int))[k as int]
        == machine::hosts(vp, lim, from, y)[k as int]);
}

/// Two runs that start alike, whatever ran before in their contexts, ask the same of the float unit
/// in question number `k` where it gave the same bits to the questions before, and where the host
/// replied the same.
pub proof fn law_next_sum(
    vp: VerifiedView,
    lim: Limits,
    from: Next,
    one: (Result<Seq<ValueModel>, TrapInfo>, Seq<AggModel>),
    other: (Result<Seq<ValueModel>, TrapInfo>, Seq<AggModel>),
    calls: Seq<HostCall>,
    other_calls: Seq<HostCall>,
    sums: Seq<FloatCall>,
    other_sums: Seq<FloatCall>,
    k: nat,
)
    requires
        vm::ends_in(vp, lim, from, one.0, one.1, calls, sums),
        vm::ends_in(vp, lim, from, other.0, other.1, other_calls, other_sums),
        k < sums.len(),
        k < other_sums.len(),
        same_replies(vm::answers(calls), vm::answers(other_calls), calls.len()),
        same_bits(sums, other_sums, k),
    ensures
        same_sum(sums[k as int], other_sums[k as int]),
{
    let a = replies_of(vp, lim, from, one, calls, sums);
    let b = replies_of(vp, lim, from, other, other_calls, other_sums);
    let n = lemma_step_of_sum(vp, lim, from, a, k);
    let m = lemma_step_of_sum(vp, lim, from, b, k);
    let (x, y) = if n <= m {
        (a, b)
    } else {
        (b, a)
    };
    let s = if n <= m {
        n
    } else {
        m
    };
    lemma_first_steps(vp, lim, from, x, (s - 1) as nat);
    lemma_same_answers(
        vp,
        lim,
        from,
        x,
        y,
        (s - 1) as nat,
        machine::hosts(vp, lim, from, x).len(),
        k,
    );
    assert(x.take(s as int).drop_last() =~= x.take(s - 1));
    assert(y.take(s as int).drop_last() =~= y.take(s - 1));
    lemma_first_steps(vp, lim, from, x, s);
    lemma_first_steps(vp, lim, from, y, s);
    assert(machine::floats(vp, lim, from, x.take(s as int))[k as int]
        == machine::floats(vp, lim, from, x)[k as int]);
    assert(machine::floats(vp, lim, from, y.take(s as int))[k as int]
        == machine::floats(vp, lim, from, y)[k as int]);
}

/// What came back from outside in the steps of a run.
pub open spec fn replies_of(
    vp: VerifiedView,
    lim: Limits,
    from: Next,
    end: (Result<Seq<ValueModel>, TrapInfo>, Seq<AggModel>),
    calls: Seq<HostCall>,
    sums: Seq<FloatCall>,
) -> Seq<Reply> {
    choose|replies: Seq<Reply>| #[trigger]
        machine::steps(vp, lim, from, replies) == Next::Done(end.0, end.1) && machine::hosts(
            vp,
            lim,
            from,
            replies,
        ) == vm::answers(calls) && machine::floats(vp, lim, from, replies) == sums
}

/// What a run gives back and what it asks rest on the program, the limits, the aggregates, the
/// arguments and what came back from outside: nothing else of an earlier run comes in. Two runs
/// that start alike, and of which the answers agree as far as both go, ask the same and end alike.
pub proof fn law_run_rests_on_answers(
    vp: VerifiedView,
    lim: Limits,
    from: Next,
    one: (Result<Seq<ValueModel>, TrapInfo>, Seq<AggModel>),
    other: (Result<Seq<ValueModel>, TrapInfo>, Seq<AggModel>),
    calls: Seq<HostCall>,
    other_calls: Seq<HostCall>,
    sums: Seq<FloatCall>,
    other_sums: Seq<FloatCall>,
)
    requires
        vm::ends_in(vp, lim, from, one.0, one.1, calls, sums),
        vm::ends_in(vp, lim, from, other.0, other.1, other_calls, other_sums),
        same_replies(vm::answers(calls), vm::answers(other_calls), calls.len()),
        same_bits(sums, other_sums, sums.len()),
    ensures
        one == other,
        vm::answers(calls) == vm::answers(other_calls),
        sums == other_sums,
{
    let a = replies_of(vp, lim, from, one, calls, sums);
    let b = replies_of(vp, lim, from, other, other_calls, other_sums);
    let k = if a.len() <= b.len() {
        a.len()
    } else {
        b.len()
    };
    assert(vm::answers(calls).len() == calls.len());
    lemma_first_steps(vp, lim, from, a, k);
    lemma_first_steps(vp, lim, from, b, k);
    lemma_same_answers(vp, lim, from, a, b, k, calls.len(), sums.len());
    if k == a.len() {
        assert(a.take(k as int) =~= a);
        assert(machine::steps(vp, lim, from, b.take(k as int)) is Done);
    } else {
        assert(b.take(k as int) =~= b);
        assert(machine::steps(vp, lim, from, a.take(k as int)) is Done);
    }
}

} // verus!
