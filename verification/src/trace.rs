//! Tracing of execution.

use vstd::prelude::*;

use crate::host::SigHash;
use crate::history;
use crate::history::chain;
use crate::program::{HostSigId, Program, ProgramView, SymbolId};
use crate::value::FuncId;
use crate::trap::TrapInfo;

verus! {

/// Which events a trace wants.
#[derive(Copy, Clone, Debug, PartialEq, Eq, Structural)]
pub struct TraceMask {
    /// Start and end of runs.
    pub run: bool,
    /// Instructions.
    pub instr: bool,
    /// Call frames.
    pub call: bool,
    /// Host calls.
    pub host: bool,
}

impl TraceMask {
    /// No event.
    pub fn none() -> (m: TraceMask)
        ensures
            m == (TraceMask { run: false, instr: false, call: false, host: false }),
    {
        TraceMask { run: false, instr: false, call: false, host: false }
    }

    /// Start and end of runs.
    pub fn run_events() -> (m: TraceMask)
        ensures
            m == (TraceMask { run: true, instr: false, call: false, host: false }),
    {
        TraceMask { run: true, instr: false, call: false, host: false }
    }

    /// Instructions.
    pub fn instr_events() -> (m: TraceMask)
        ensures
            m == (TraceMask { run: false, instr: true, call: false, host: false }),
    {
        TraceMask { run: false, instr: true, call: false, host: false }
    }

    /// Call frames.
    pub fn call_events() -> (m: TraceMask)
        ensures
            m == (TraceMask { run: false, instr: false, call: true, host: false }),
    {
        TraceMask { run: false, instr: false, call: true, host: false }
    }

    /// Host calls.
    pub fn host_events() -> (m: TraceMask)
        ensures
            m == (TraceMask { run: false, instr: false, call: false, host: true }),
    {
        TraceMask { run: false, instr: false, call: false, host: true }
    }

    /// The events of both masks.
    pub fn union(self, other: TraceMask) -> (m: TraceMask)
        ensures
            m == (TraceMask {
                run: self.run || other.run,
                instr: self.instr || other.instr,
                call: self.call || other.call,
                host: self.host || other.host,
            }),
    {
        TraceMask {
            run: self.run || other.run,
            instr: self.instr || other.instr,
            call: self.call || other.call,
            host: self.host || other.host,
        }
    }
}

/// What a scope is.
#[derive(Copy, Clone, Debug, PartialEq, Eq, Structural)]
pub enum ScopeKind {
    /// A call frame.
    CallFrame {
        /// The function that runs in the frame.
        func: FuncId,
    },
    /// A host call.
    HostCall {
        /// Host signature.
        host_sig: HostSigId,
        /// Host symbol.
        symbol: SymbolId,
        /// Signature hash.
        sig_hash: SigHash,
    },
}

/// How a run ended.
#[derive(Copy, Clone, Debug, PartialEq, Eq)]
pub enum TraceOutcome<'a> {
    /// The entry function returned.
    Returned,
    /// The run trapped.
    Trap(&'a TrapInfo),
}

/// A receiver of trace events. Each event does nothing unless it is implemented.
pub trait TraceSink {
    /// The events that this sink wants.
    fn mask(&self) -> TraceMask;

    /// A run starts.
    fn run_start(&mut self, program: &Program, entry: FuncId, arg_count: usize) {
    }

    /// A run ends.
    fn run_end(&mut self, program: &Program, outcome: TraceOutcome<'_>) {
    }

    /// An instruction is about to be executed.
    fn instr(
        &mut self,
        program: &Program,
        func: FuncId,
        pc: u32,
        next_pc: u32,
        span_id: Option<u64>,
        opcode: u8,
    ) {
    }

    /// A scope is entered.
    fn scope_enter(
        &mut self,
        program: &Program,
        kind: ScopeKind,
        depth: usize,
        func: FuncId,
        pc: u32,
        span_id: Option<u64>,
    ) {
    }

    /// A scope is left.
    fn scope_exit(
        &mut self,
        program: &Program,
        kind: ScopeKind,
        depth: usize,
        func: FuncId,
        pc: u32,
        span_id: Option<u64>,
    ) {
    }
}

/// What a sink is told.
#[verifier::ext_equal]
pub enum TraceEvent {
    /// A run starts.
    Start { program: ProgramView, entry: FuncId, arg_count: usize },
    /// A run ends, with a trap or without.
    End { program: ProgramView, trap: Option<TrapInfo> },
    /// An instruction is about to be executed.
    Instr {
        program: ProgramView,
        func: FuncId,
        pc: u32,
        next_pc: u32,
        span_id: Option<u64>,
        opcode: u8,
    },
    /// A scope is entered.
    Enter {
        program: ProgramView,
        kind: ScopeKind,
        depth: usize,
        func: FuncId,
        pc: u32,
        span_id: Option<u64>,
    },
    /// A scope is left.
    Exit {
        program: ProgramView,
        kind: ScopeKind,
        depth: usize,
        func: FuncId,
        pc: u32,
        span_id: Option<u64>,
    },
}

/// Tells a sink of the start of a run. The state of the sink comes back.
pub fn tell_start<T: TraceSink>(
    sink: &mut T,
    program: &Program,
    entry: FuncId,
    arg_count: usize,
) -> (after: Ghost<T>)
    ensures
        after@ == *final(sink),
        exists|m: &mut T|
            *m == *old(sink) && *final(m) == *final(sink) && #[trigger] call_ensures(
                T::run_start,
                (m, program, entry, arg_count),
                (),
            ),
{
    sink.run_start(program, entry, arg_count);
    Ghost(*sink)
}

/// A sink was told of the start of a run, and went from one state to another.
pub open spec fn heard_start<T: TraceSink>(
    before: T,
    program: ProgramView,
    entry: FuncId,
    arg_count: usize,
    after: T,
) -> bool {
    exists|m: &mut T, p: &Program, r: Ghost<T>|
        *m == before && p@ == program && r@ == after && #[trigger] call_ensures(
            tell_start::<T>,
            (m, p, entry, arg_count),
            r,
        )
}

/// Tells a sink of the end of a run. The state of the sink comes back.
pub fn tell_end<T: TraceSink>(
    sink: &mut T,
    program: &Program,
    outcome: TraceOutcome<'_>,
) -> (after: Ghost<T>)
    ensures
        after@ == *final(sink),
        exists|m: &mut T|
            *m == *old(sink) && *final(m) == *final(sink) && #[trigger] call_ensures(
                T::run_end,
                (m, program, outcome),
                (),
            ),
{
    sink.run_end(program, outcome);
    Ghost(*sink)
}

/// A sink was told of the end of a run, and went from one state to another.
pub open spec fn heard_end<T: TraceSink>(
    before: T,
    program: ProgramView,
    trap: Option<TrapInfo>,
    after: T,
) -> bool {
    exists|m: &mut T, p: &Program, o: TraceOutcome<'_>, r: Ghost<T>|
        *m == before && p@ == program && trap_of(o) == trap && r@ == after && #[trigger] call_ensures(
            tell_end::<T>,
            (m, p, o),
            r,
        )
}

/// Tells a sink of an instruction. The state of the sink comes back.
pub fn tell_instr<T: TraceSink>(
    sink: &mut T,
    program: &Program,
    func: FuncId,
    pc: u32,
    next_pc: u32,
    span_id: Option<u64>,
    opcode: u8,
) -> (after: Ghost<T>)
    ensures
        after@ == *final(sink),
        exists|m: &mut T|
            *m == *old(sink) && *final(m) == *final(sink) && #[trigger] call_ensures(
                T::instr,
                (m, program, func, pc, next_pc, span_id, opcode),
                (),
            ),
{
    sink.instr(program, func, pc, next_pc, span_id, opcode);
    Ghost(*sink)
}

/// A sink was told of an instruction, and went from one state to another.
pub open spec fn heard_instr<T: TraceSink>(
    before: T,
    program: ProgramView,
    func: FuncId,
    pc: u32,
    next_pc: u32,
    span_id: Option<u64>,
    opcode: u8,
    after: T,
) -> bool {
    exists|m: &mut T, p: &Program, r: Ghost<T>|
        *m == before && p@ == program && r@ == after && #[trigger] call_ensures(
            tell_instr::<T>,
            (m, p, func, pc, next_pc, span_id, opcode),
            r,
        )
}

/// Tells a sink of a scope that is entered. The state of the sink comes back.
pub fn tell_enter<T: TraceSink>(
    sink: &mut T,
    program: &Program,
    kind: ScopeKind,
    depth: usize,
    func: FuncId,
    pc: u32,
    span_id: Option<u64>,
) -> (after: Ghost<T>)
    ensures
        after@ == *final(sink),
        exists|m: &mut T|
            *m == *old(sink) && *final(m) == *final(sink) && #[trigger] call_ensures(
                T::scope_enter,
                (m, program, kind, depth, func, pc, span_id),
                (),
            ),
{
    sink.scope_enter(program, kind, depth, func, pc, span_id);
    Ghost(*sink)
}

/// A sink was told of a scope that is entered, and went from one state to another.
pub open spec fn heard_enter<T: TraceSink>(
    before: T,
    program: ProgramView,
    kind: ScopeKind,
    depth: usize,
    func: FuncId,
    pc: u32,
    span_id: Option<u64>,
    after: T,
) -> bool {
    exists|m: &mut T, p: &Program, r: Ghost<T>|
        *m == before && p@ == program && r@ == after && #[trigger] call_ensures(
            tell_enter::<T>,
            (m, p, kind, depth, func, pc, span_id),
            r,
        )
}

/// Tells a sink of a scope that is left. The state of the sink comes back.
pub fn tell_exit<T: TraceSink>(
    sink: &mut T,
    program: &Program,
    kind: ScopeKind,
    depth: usize,
    func: FuncId,
    pc: u32,
    span_id: Option<u64>,
) -> (after: Ghost<T>)
    ensures
        after@ == *final(sink),
        exists|m: &mut T|
            *m == *old(sink) && *final(m) == *final(sink) && #[trigger] call_ensures(
                T::scope_exit,
                (m, program, kind, depth, func, pc, span_id),
                (),
            ),
{
    sink.scope_exit(program, kind, depth, func, pc, span_id);
    Ghost(*sink)
}

/// A sink was told of a scope that is left, and went from one state to another.
pub open spec fn heard_exit<T: TraceSink>(
    before: T,
    program: ProgramView,
    kind: ScopeKind,
    depth: usize,
    func: FuncId,
    pc: u32,
    span_id: Option<u64>,
    after: T,
) -> bool {
    exists|m: &mut T, p: &Program, r: Ghost<T>|
        *m == before && p@ == program && r@ == after && #[trigger] call_ensures(
            tell_exit::<T>,
            (m, p, kind, depth, func, pc, span_id),
            r,
        )
}

/// A sink was told of an event, and went from one state to another.
pub open spec fn heard<T: TraceSink>(before: T, e: TraceEvent, after: T) -> bool {
    match e {
        TraceEvent::Start { program, entry, arg_count } => heard_start(
            before,
            program,
            entry,
            arg_count,
            after,
        ),
        TraceEvent::End { program, trap } => heard_end(before, program, trap, after),
        TraceEvent::Instr { program, func, pc, next_pc, span_id, opcode } => heard_instr(
            before,
            program,
            func,
            pc,
            next_pc,
            span_id,
            opcode,
            after,
        ),
        TraceEvent::Enter { program, kind, depth, func, pc, span_id } => heard_enter(
            before,
            program,
            kind,
            depth,
            func,
            pc,
            span_id,
            after,
        ),
        TraceEvent::Exit { program, kind, depth, func, pc, span_id } => heard_exit(
            before,
            program,
            kind,
            depth,
            func,
            pc,
            span_id,
            after,
        ),
    }
}

/// How the states of a sink follow on each other.
pub open spec fn hears<T: TraceSink>() -> spec_fn(T, TraceEvent, T) -> bool {
    |before: T, e: TraceEvent, after: T| heard(before, e, after)
}

/// A sink was told of more events, and nothing else.
pub open spec fn told<T: TraceSink>(
    before: Traced<T>,
    after: Traced<T>,
    more: Seq<TraceEvent>,
) -> bool {
    &&& after.events() == before.events() + more
    &&& chain(hears::<T>(), before.inner(), more, after.inner())
}

/// A sink was told of nothing.
pub proof fn lemma_told_none<T: TraceSink>(t: Traced<T>)
    ensures
        told(t, t, Seq::<TraceEvent>::empty()),
{
    history::lemma_none::<T, TraceEvent>(hears::<T>(), t.inner());
    assert(t.events() + Seq::<TraceEvent>::empty() =~= t.events());
}

/// A sink was told of one event behind others.
pub proof fn lemma_told_both<T: TraceSink>(
    a: Traced<T>,
    b: Traced<T>,
    c: Traced<T>,
    first: Seq<TraceEvent>,
    second: Seq<TraceEvent>,
)
    requires
        told(a, b, first),
        told(b, c, second),
    ensures
        told(a, c, first + second),
{
    history::lemma_concat(hears::<T>(), a.inner(), first, b.inner(), second, c.inner());
    assert(a.events() + first + second =~= a.events() + (first + second));
}

/// A sink, with a history of what it was told.
pub struct Traced<T: TraceSink> {
    sink: T,
    events: Ghost<Seq<TraceEvent>>,
}

impl<T: TraceSink> Traced<T> {
    /// What the sink was told, in order.
    pub closed spec fn events(&self) -> Seq<TraceEvent> {
        self.events@
    }

    /// A sink that was told nothing.
    pub fn new(sink: T) -> (t: Self)
        ensures
            t.events() == Seq::<TraceEvent>::empty(),
            t.inner() == sink,
    {
        Traced { sink, events: Ghost(Seq::empty()) }
    }

    /// The sink.
    pub closed spec fn inner(&self) -> T {
        self.sink
    }

    /// The sink.
    pub fn sink(&self) -> (s: &T)
        ensures
            *s == self.inner(),
    {
        &self.sink
    }

    /// A run starts.
    pub fn run_start(
        &mut self,
        program: &Program,
        entry: FuncId,
        arg_count: usize,
    )
        ensures
            told(
                *old(self),
                *final(self),
                seq![(TraceEvent::Start { program: program@, entry, arg_count })],
            ),
            exists|m: &mut T|
                *m == old(self).inner() && *final(m) == final(self).inner()
                    && #[trigger] call_ensures(T::run_start, (m, program, entry, arg_count), ()),
    {
        let r = tell_start(&mut self.sink, program, entry, arg_count);
        proof {
            assert(r@ == self.sink);
            assert(heard_start(old(self).inner(), program@, entry, arg_count, r@));
            let e = TraceEvent::Start { program: program@, entry, arg_count };
            self.events@ = self.events@.push(e);
            history::lemma_one(hears::<T>(), old(self).inner(), e, self.inner());
            assert(self.events() =~= old(self).events() + seq![e]);
        }
    }

    /// A run ends.
    pub fn run_end(
        &mut self,
        program: &Program,
        outcome: TraceOutcome<'_>,
    )
        ensures
            told(
                *old(self),
                *final(self),
                seq![(TraceEvent::End { program: program@, trap: trap_of(outcome) })],
            ),
            exists|m: &mut T|
                *m == old(self).inner() && *final(m) == final(self).inner()
                    && #[trigger] call_ensures(T::run_end, (m, program, outcome), ()),
    {
        let r = tell_end(&mut self.sink, program, outcome);
        proof {
            assert(r@ == self.sink);
            assert(heard_end(old(self).inner(), program@, trap_of(outcome), r@));
            let e = TraceEvent::End { program: program@, trap: trap_of(outcome) };
            self.events@ = self.events@.push(e);
            history::lemma_one(hears::<T>(), old(self).inner(), e, self.inner());
            assert(self.events() =~= old(self).events() + seq![e]);
        }
    }

    /// An instruction is about to be executed.
    pub fn instr(
        &mut self,
        program: &Program,
        func: FuncId,
        pc: u32,
        next_pc: u32,
        span_id: Option<u64>,
        opcode: u8,
    )
        ensures
            told(
                *old(self),
                *final(self),
                seq![(TraceEvent::Instr { program: program@, func, pc, next_pc, span_id, opcode })],
            ),
            exists|m: &mut T|
                *m == old(self).inner() && *final(m) == final(self).inner()
                    && #[trigger] call_ensures(T::instr, (m, program, func, pc, next_pc, span_id, opcode), ()),
    {
        let r = tell_instr(&mut self.sink, program, func, pc, next_pc, span_id, opcode);
        proof {
            assert(r@ == self.sink);
            assert(heard_instr(old(self).inner(), program@, func, pc, next_pc, span_id, opcode, r@));
            let e = TraceEvent::Instr { program: program@, func, pc, next_pc, span_id, opcode };
            self.events@ = self.events@.push(e);
            history::lemma_one(hears::<T>(), old(self).inner(), e, self.inner());
            assert(self.events() =~= old(self).events() + seq![e]);
        }
    }

    /// A scope is entered.
    pub fn scope_enter(
        &mut self,
        program: &Program,
        kind: ScopeKind,
        depth: usize,
        func: FuncId,
        pc: u32,
        span_id: Option<u64>,
    )
        ensures
            told(
                *old(self),
                *final(self),
                seq![(TraceEvent::Enter { program: program@, kind, depth, func, pc, span_id })],
            ),
            exists|m: &mut T|
                *m == old(self).inner() && *final(m) == final(self).inner()
                    && #[trigger] call_ensures(T::scope_enter, (m, program, kind, depth, func, pc, span_id), ()),
    {
        let r = tell_enter(&mut self.sink, program, kind, depth, func, pc, span_id);
        proof {
            assert(r@ == self.sink);
            assert(heard_enter(old(self).inner(), program@, kind, depth, func, pc, span_id, r@));
            let e = TraceEvent::Enter { program: program@, kind, depth, func, pc, span_id };
            self.events@ = self.events@.push(e);
            history::lemma_one(hears::<T>(), old(self).inner(), e, self.inner());
            assert(self.events() =~= old(self).events() + seq![e]);
        }
    }

    /// A scope is left.
    pub fn scope_exit(
        &mut self,
        program: &Program,
        kind: ScopeKind,
        depth: usize,
        func: FuncId,
        pc: u32,
        span_id: Option<u64>,
    )
        ensures
            told(
                *old(self),
                *final(self),
                seq![(TraceEvent::Exit { program: program@, kind, depth, func, pc, span_id })],
            ),
            exists|m: &mut T|
                *m == old(self).inner() && *final(m) == final(self).inner()
                    && #[trigger] call_ensures(T::scope_exit, (m, program, kind, depth, func, pc, span_id), ()),
    {
        let r = tell_exit(&mut self.sink, program, kind, depth, func, pc, span_id);
        proof {
            assert(r@ == self.sink);
            assert(heard_exit(old(self).inner(), program@, kind, depth, func, pc, span_id, r@));
            let e = TraceEvent::Exit { program: program@, kind, depth, func, pc, span_id };
            self.events@ = self.events@.push(e);
            history::lemma_one(hears::<T>(), old(self).inner(), e, self.inner());
            assert(self.events() =~= old(self).events() + seq![e]);
        }
    }
}

/// The trap that a run ended with.
pub open spec fn trap_of(outcome: TraceOutcome<'_>) -> Option<TrapInfo> {
    match outcome {
        TraceOutcome::Returned => None,
        TraceOutcome::Trap(t) => Some(*t),
    }
}

/// A sink that wants no event.
#[derive(Copy, Clone, Debug, PartialEq, Eq)]
pub struct NoTrace;

impl TraceSink for NoTrace {
    fn mask(&self) -> TraceMask {
        TraceMask::none()
    }
}

} // verus!
