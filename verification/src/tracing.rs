//! Laws on what a trace sink is told of a run.

use vstd::prelude::*;

use crate::aggregates::AggModel;
use crate::ieee::FloatCall;
use crate::machine;
use crate::machine::{Limits, Next, Reply};
use crate::strict::HostCall;
use crate::trace::{ScopeKind, TraceEvent, TraceMask};
use crate::trap::TrapInfo;
use crate::value::{FuncId, ValueModel};
use crate::verify::VerifiedView;
use crate::vm;

verus! {

/// Whether a mask asks for an event.
pub open spec fn asks_for(mask: TraceMask, e: TraceEvent) -> bool {
    match e {
        TraceEvent::Start { .. } | TraceEvent::End { .. } => mask.run,
        TraceEvent::Instr { .. } => mask.instr,
        TraceEvent::Enter { kind, .. } | TraceEvent::Exit { kind, .. } => match kind {
            ScopeKind::CallFrame { .. } => mask.call,
            ScopeKind::HostCall { .. } => mask.host,
        },
    }
}

/// Whether an event is the start or the end of a run.
pub open spec fn bounds_run(e: TraceEvent) -> bool {
    e is Start || e is End
}

proof fn lemma_inner(
    vp: VerifiedView,
    lim: Limits,
    mask: TraceMask,
    n: Next,
    replies: Seq<Reply>,
)
    ensures
        forall|k: int|
            0 <= k < machine::events(vp, lim, mask, n, replies).len() ==> {
                let e = #[trigger] machine::events(vp, lim, mask, n, replies)[k];
                asks_for(mask, e) && !bounds_run(e)
            },
    decreases replies.len(),
{
    if replies.len() > 0 {
        lemma_inner(vp, lim, mask, n, replies.drop_last());
    }
}

/// A sink is told of nothing that the mask does not ask for.
pub proof fn law_told_what_was_asked_for(
    vp: VerifiedView,
    lim: Limits,
    from: Next,
    res: Result<Seq<ValueModel>, TrapInfo>,
    heap: Seq<AggModel>,
    calls: Seq<HostCall>,
    sums: Seq<FloatCall>,
    mask: TraceMask,
    entry: FuncId,
    arg_count: nat,
    told: Seq<TraceEvent>,
)
    requires
        vm::told_of(vp, lim, from, res, heap, calls, sums, mask, entry, arg_count, told),
    ensures
        forall|k: int| 0 <= k < told.len() ==> asks_for(mask, #[trigger] told[k]),
{
    let inner = choose|inner: Seq<TraceEvent>| #[trigger]
        vm::ended(vp, lim, from, res, heap, calls, sums, mask, entry, inner) && told
            == machine::run_events(vp, mask, entry, arg_count, inner, res);
    let replies = choose|replies: Seq<Reply>| #[trigger]
        machine::steps(vp, lim, from, replies) == Next::Done(res, heap) && machine::hosts(
            vp,
            lim,
            from,
            replies,
        ) == vm::answers(calls) && machine::floats(vp, lim, from, replies) == sums && inner
            == machine::inner_events(vp, lim, mask, from, entry, replies);
    lemma_inner(vp, lim, mask, from, replies);
}

/// A sink that is told of runs is told of the start of a run first and of its end last, with the
/// trap that it ended in, and of neither in between.
pub proof fn law_start_first_end_last(
    vp: VerifiedView,
    lim: Limits,
    from: Next,
    res: Result<Seq<ValueModel>, TrapInfo>,
    heap: Seq<AggModel>,
    calls: Seq<HostCall>,
    sums: Seq<FloatCall>,
    mask: TraceMask,
    entry: FuncId,
    arg_count: nat,
    told: Seq<TraceEvent>,
)
    requires
        mask.run,
        vm::told_of(vp, lim, from, res, heap, calls, sums, mask, entry, arg_count, told),
    ensures
        told.len() >= 2,
        told.first() == (TraceEvent::Start {
            program: vp.program,
            entry,
            arg_count: arg_count as usize,
        }),
        told.last() == (TraceEvent::End {
            program: vp.program,
            trap: match res {
                Ok(_) => None,
                Err(t) => Some(t),
            },
        }),
        forall|k: int| 0 < k < told.len() - 1 ==> !bounds_run(#[trigger] told[k]),
{
    let inner = choose|inner: Seq<TraceEvent>| #[trigger]
        vm::ended(vp, lim, from, res, heap, calls, sums, mask, entry, inner) && told
            == machine::run_events(vp, mask, entry, arg_count, inner, res);
    let replies = choose|replies: Seq<Reply>| #[trigger]
        machine::steps(vp, lim, from, replies) == Next::Done(res, heap) && machine::hosts(
            vp,
            lim,
            from,
            replies,
        ) == vm::answers(calls) && machine::floats(vp, lim, from, replies) == sums && inner
            == machine::inner_events(vp, lim, mask, from, entry, replies);
    lemma_inner(vp, lim, mask, from, replies);
    assert forall|k: int| 0 < k < told.len() - 1 implies !bounds_run(#[trigger] told[k]) by {
        assert(told[k] == inner[k - 1]);
    }
}

} // verus!
