//! Limits, traces and hosts.

use execution_tape::assembler::Asm;
use execution_tape::builder::{FunctionSig, ProgramBuilder};
use execution_tape::host::{Host, HostError, HostSig, SigHash, ValueRef};
use execution_tape::ieee::{FloatOp, FloatUnit};
use execution_tape::machine::Limits;
use execution_tape::program::{Program, ValueType};
use execution_tape::trace::{NoTrace, ScopeKind, TraceMask, TraceOutcome, TraceSink, Traced};
use execution_tape::trap::{Trap, TrapInfo};
use execution_tape::value::{AggHandle, FuncId, Value};
use execution_tape::verify::VerifiedProgram;
use execution_tape::vm::{ExecutionContext, Vm};

struct NoFloats;

impl FloatUnit for NoFloats {
    fn compute(&mut self, _op: FloatOp, _a: u64, _b: u64) -> u64 {
        0
    }
}

/// A host that replies the same to every call.
struct Fixed(Result<(Vec<Value>, u64), HostError>);

impl Host for Fixed {
    fn call(
        &mut self,
        _symbol: &str,
        _sig_hash: SigHash,
        _args: &[ValueRef<'_>],
    ) -> Result<(Vec<Value>, u64), HostError> {
        self.0.clone()
    }
}

fn sig(args: &[ValueType], rets: &[ValueType], reg_count: u32) -> FunctionSig {
    FunctionSig { arg_types: args.to_vec(), ret_types: rets.to_vec(), reg_count }
}

fn build(code: impl FnOnce(&mut Asm), s: FunctionSig) -> VerifiedProgram {
    let mut a = Asm::new();
    code(&mut a);
    let mut pb = ProgramBuilder::new();
    pb.push_function_checked(a, s).unwrap();
    pb.build_verified().unwrap()
}

fn endless() -> VerifiedProgram {
    build(
        |a| {
            let l = a.label();
            a.place(l).unwrap();
            a.jmp(l);
        },
        sig(&[], &[], 1),
    )
}

/// A function that calls the host once and returns what comes back.
fn calling(extra: impl FnOnce(&mut Asm)) -> VerifiedProgram {
    let mut pb = ProgramBuilder::new();
    let hs = pb.host_sig_for("h", HostSig { args: vec![], rets: vec![ValueType::I64] });
    let mut a = Asm::new();
    a.host_call(0, hs, 0, &[], &[1]);
    extra(&mut a);
    a.ret(0, &[1]);
    pb.push_function_checked(a, sig(&[], &[ValueType::I64], 2)).unwrap();
    pb.build_verified().unwrap()
}

fn run(p: &VerifiedProgram, host: Fixed, limits: Limits, args: &[Value]) -> Result<Vec<Value>, TrapInfo> {
    Vm::new(host, NoFloats, limits).run(p, FuncId(0), args, TraceMask::none(), &mut Traced::new(NoTrace))
}

fn idle() -> Fixed {
    Fixed(Err(HostError::Failed))
}

#[test]
fn limits_have_defaults() {
    let l = Limits::default();
    assert_eq!(l.fuel, 1_000_000);
    assert_eq!(l.max_call_depth, 256);
    assert_eq!(l.max_host_calls, 1_000_000);
}

#[test]
fn fuel_bounds_a_run() {
    let limits = Limits { fuel: 10, ..Limits::default() };
    let e = run(&endless(), idle(), limits, &[]).unwrap_err();
    assert_eq!(e.trap, Trap::FuelExceeded);
    // Just enough fuel, and one less.
    let p = build(
        |a| {
            a.const_i64(1, 7);
            a.ret(0, &[1]);
        },
        sig(&[], &[ValueType::I64], 2),
    );
    assert_eq!(
        run(&p, idle(), Limits { fuel: 2, ..limits }, &[]),
        Ok(vec![Value::I64(7)])
    );
    assert_eq!(
        run(&p, idle(), Limits { fuel: 1, ..limits }, &[]).unwrap_err().trap,
        Trap::FuelExceeded
    );
}

#[test]
fn call_depth_is_bounded() {
    let p = build(
        |a| {
            a.call(0, FuncId(0), 0, &[], &[]);
            a.ret(0, &[]);
        },
        sig(&[], &[], 1),
    );
    let e = run(&p, idle(), Limits { max_call_depth: 3, ..Limits::default() }, &[]).unwrap_err();
    assert_eq!(e.trap, Trap::CallDepthExceeded);
}

#[test]
fn host_calls_are_bounded() {
    let p = calling(|_| {});
    let host = || Fixed(Ok((vec![Value::I64(5)], 0)));
    assert_eq!(run(&p, host(), Limits::default(), &[]), Ok(vec![Value::I64(5)]));
    let e = run(&p, host(), Limits { max_host_calls: 0, ..Limits::default() }, &[]).unwrap_err();
    assert_eq!(e.trap, Trap::HostCallLimitExceeded);
}

#[test]
fn host_calls_may_cost_fuel() {
    let p = calling(|_| {});
    let limits = Limits { fuel: 5, ..Limits::default() };
    assert_eq!(
        run(&p, Fixed(Ok((vec![Value::I64(5)], 3))), limits, &[]),
        Ok(vec![Value::I64(5)])
    );
    assert_eq!(
        run(&p, Fixed(Ok((vec![Value::I64(5)], 4))), limits, &[]).unwrap_err().trap,
        Trap::FuelExceeded
    );
    assert_eq!(
        run(&p, Fixed(Ok((vec![Value::I64(5)], u64::MAX))), limits, &[]).unwrap_err().trap,
        Trap::FuelExceeded
    );
}

#[test]
fn what_a_host_gives_back_is_checked() {
    let p = calling(|_| {});
    for e in [HostError::UnknownSymbol, HostError::SignatureMismatch, HostError::Failed] {
        assert_eq!(
            run(&p, Fixed(Err(e)), Limits::default(), &[]).unwrap_err().trap,
            Trap::HostCallFailed(e)
        );
    }
    assert_eq!(
        run(&p, Fixed(Ok((vec![], 0))), Limits::default(), &[]).unwrap_err().trap,
        Trap::HostReturnArityMismatch { expected: 1, actual: 0 }
    );
    assert_eq!(
        run(&p, Fixed(Ok((vec![Value::U64(1)], 0))), Limits::default(), &[]).unwrap_err().trap,
        Trap::TypeMismatch { expected: ValueType::I64, actual: ValueType::U64 }
    );
}

#[test]
fn arguments_are_checked() {
    let p = build(
        |a| {
            a.ret(0, &[1]);
        },
        sig(&[ValueType::I64], &[ValueType::I64], 2),
    );
    assert_eq!(run(&p, idle(), Limits::default(), &[Value::I64(3)]), Ok(vec![Value::I64(3)]));
    assert_eq!(run(&p, idle(), Limits::default(), &[]).unwrap_err().trap, Trap::InvalidPc);
    assert_eq!(
        run(&p, idle(), Limits::default(), &[Value::Bool(true)]).unwrap_err().trap,
        Trap::TypeMismatch { expected: ValueType::I64, actual: ValueType::Bool }
    );
    let mut vm = Vm::new(idle(), NoFloats, Limits::default());
    assert_eq!(
        vm.run(&p, FuncId(1), &[], TraceMask::none(), &mut Traced::new(NoTrace)).unwrap_err().trap,
        Trap::InvalidPc
    );
}

#[test]
fn calls_pass_arguments_and_results() {
    let mut pb = ProgramBuilder::new();
    let f = pb.declare_function(sig(
        &[ValueType::I64, ValueType::I64],
        &[ValueType::I64, ValueType::Bool],
        5,
    ));
    let mut a = Asm::new();
    a.i64_sub(3, 1, 2);
    a.i64_lt(4, 1, 2);
    a.ret(0, &[3, 4]);
    pb.define_function(f, a).unwrap();
    let mut main = Asm::new();
    main.call(0, f, 0, &[2, 1], &[3, 4]);
    main.ret(0, &[4, 3]);
    let m = pb
        .push_function_checked(
            main,
            sig(&[ValueType::I64, ValueType::I64], &[ValueType::Bool, ValueType::I64], 5),
        )
        .unwrap();
    let p = pb.build_verified().unwrap();
    let mut vm = Vm::new(idle(), NoFloats, Limits::default());
    let mut ctx = ExecutionContext::new();
    // The same context serves one run after the other.
    for _ in 0..2 {
        assert_eq!(
            vm.run_with_ctx(
                &mut ctx,
                &p,
                m,
                &[Value::I64(3), Value::I64(10)],
                TraceMask::none(),
                &mut Traced::new(NoTrace)
            ),
            Ok(vec![Value::Bool(false), Value::I64(7)])
        );
    }
}

#[test]
fn aggregates_stay() {
    let p = build(
        |a| {
            a.tuple_new(2, &[1]);
            a.ret(0, &[2]);
        },
        sig(&[ValueType::I64], &[ValueType::Agg], 3),
    );
    let mut vm = Vm::new(idle(), NoFloats, Limits::default());
    for k in 0..3u32 {
        let out = vm
            .run(&p, FuncId(0), &[Value::I64(i64::from(k))], TraceMask::none(), &mut Traced::new(NoTrace))
            .unwrap();
        assert_eq!(out, vec![Value::Agg(AggHandle(k))]);
        assert_eq!(vm.aggregates().len(), k as usize + 1);
    }
    let h = vm.aggregates_mut().tuple_new(vec![Value::Unit]);
    assert_eq!(h, AggHandle(3));
}

/// Writes down what it is told.
#[derive(Default)]
struct Diary(Vec<String>);

impl TraceSink for Diary {
    fn mask(&self) -> TraceMask {
        TraceMask::none()
    }

    fn run_start(&mut self, _program: &Program, entry: FuncId, arg_count: usize) {
        self.0.push(format!("start f{} {arg_count}", entry.0));
    }

    fn run_end(&mut self, _program: &Program, outcome: TraceOutcome<'_>) {
        self.0.push(match outcome {
            TraceOutcome::Returned => "end".to_string(),
            TraceOutcome::Trap(t) => format!("trap {}", t.trap.text()),
        });
    }

    fn instr(
        &mut self,
        _program: &Program,
        func: FuncId,
        _pc: u32,
        _next_pc: u32,
        span_id: Option<u64>,
        _opcode: u8,
    ) {
        self.0.push(format!("f{} {span_id:?}", func.0));
    }

    fn scope_enter(
        &mut self,
        _program: &Program,
        kind: ScopeKind,
        depth: usize,
        _func: FuncId,
        _pc: u32,
        _span_id: Option<u64>,
    ) {
        self.0.push(format!("enter {} {depth}", name(kind)));
    }

    fn scope_exit(
        &mut self,
        _program: &Program,
        kind: ScopeKind,
        depth: usize,
        _func: FuncId,
        _pc: u32,
        _span_id: Option<u64>,
    ) {
        self.0.push(format!("exit {} {depth}", name(kind)));
    }
}

fn name(kind: ScopeKind) -> &'static str {
    match kind {
        ScopeKind::CallFrame { .. } => "call",
        ScopeKind::HostCall { .. } => "host",
    }
}

#[test]
fn traces_follow_the_run() {
    let mut pb = ProgramBuilder::new();
    let hs = pb.host_sig_for("h", HostSig { args: vec![], rets: vec![] });
    let mut a = Asm::new();
    a.span(7);
    a.host_call(0, hs, 0, &[], &[]);
    a.span(8);
    a.ret(0, &[]);
    let f = pb.push_function_checked(a, sig(&[], &[], 1)).unwrap();
    let mut main = Asm::new();
    main.call(0, f, 0, &[], &[]);
    main.ret(0, &[]);
    let m = pb.push_function_checked(main, sig(&[], &[], 1)).unwrap();
    let p = pb.build_verified().unwrap();
    let mut vm = Vm::new(Fixed(Ok((vec![], 0))), NoFloats, Limits::default());
    let all = TraceMask::run_events()
        .union(TraceMask::instr_events())
        .union(TraceMask::call_events())
        .union(TraceMask::host_events());
    let mut diary = Traced::new(Diary::default());
    vm.run(&p, m, &[], all, &mut diary).unwrap();
    assert_eq!(
        diary.sink().0,
        [
            "start f1 0",
            "enter call 1",
            "f1 None",
            "enter call 2",
            "f0 Some(7)",
            "enter host 2",
            "exit host 2",
            "f0 Some(8)",
            "exit call 2",
            "f1 None",
            "exit call 1",
            "end",
        ]
    );
    let mut quiet = Traced::new(Diary::default());
    vm.run(&p, m, &[], TraceMask::none(), &mut quiet).unwrap();
    assert!(quiet.sink().0.is_empty());
}

#[test]
fn traps_say_where() {
    let mut pb = ProgramBuilder::new();
    let mut a = Asm::new();
    a.const_i64(1, 1);
    a.const_i64(2, 0);
    a.span(99);
    let pc = a.pc();
    a.i64_div(1, 1, 2);
    a.ret(0, &[1]);
    pb.push_function_checked(a, sig(&[], &[ValueType::I64], 3)).unwrap();
    let p = pb.build_verified().unwrap();
    let mut vm = Vm::new(idle(), NoFloats, Limits::default());
    let mut diary = Traced::new(Diary::default());
    let e = vm.run(&p, FuncId(0), &[], TraceMask::run_events(), &mut diary).unwrap_err();
    assert_eq!(e, TrapInfo { func: FuncId(0), pc, span_id: Some(99), trap: Trap::DivByZero });
    assert_eq!(diary.sink().0, ["start f0 0".to_string(), format!("trap {}", Trap::DivByZero.text())]);
}

#[test]
fn refused_runs_are_traced_and_call_no_host() {
    let p = calling(|_| {});
    let mut vm = Vm::new(Fixed(Ok((vec![Value::I64(5)], 0))), NoFloats, Limits::default());
    let mut diary = Traced::new(Diary::default());
    let all = TraceMask::run_events().union(TraceMask::host_events());
    let e = vm.run(&p, FuncId(0), &[Value::Unit], all, &mut diary).unwrap_err();
    assert_eq!(e, TrapInfo { func: FuncId(0), pc: 0, span_id: None, trap: Trap::InvalidPc });
    assert_eq!(diary.sink().0, ["start f0 1", "trap invalid pc"]);
}

#[test]
fn a_failed_host_call_is_not_left() {
    let p = calling(|_| {});
    let mask = TraceMask::run_events().union(TraceMask::host_events());
    let mut diary = Traced::new(Diary::default());
    let e = Vm::new(idle(), NoFloats, Limits::default())
        .run(&p, FuncId(0), &[], mask, &mut diary)
        .unwrap_err();
    assert_eq!(e.trap, Trap::HostCallFailed(HostError::Failed));
    assert_eq!(
        diary.sink().0,
        ["start f0 0".to_string(), "enter host 1".to_string(), format!("trap {}", e.trap.text())]
    );
    let mut diary = Traced::new(Diary::default());
    let e = Vm::new(Fixed(Ok((vec![], 0))), NoFloats, Limits::default())
        .run(&p, FuncId(0), &[], mask, &mut diary)
        .unwrap_err();
    assert_eq!(e.trap, Trap::HostReturnArityMismatch { expected: 1, actual: 0 });
    assert_eq!(
        diary.sink().0,
        [
            "start f0 0".to_string(),
            "enter host 1".to_string(),
            "exit host 1".to_string(),
            format!("trap {}", e.trap.text()),
        ]
    );
}

#[test]
fn runs_in_one_context_do_not_see_each_other() {
    let p = calling(|_| {});
    let q = build(
        |a| {
            a.i64_add(2, 1, 1);
            a.ret(0, &[2]);
        },
        sig(&[ValueType::I64], &[ValueType::I64], 3),
    );
    let mut vm = Vm::new(Fixed(Err(HostError::Failed)), NoFloats, Limits::default());
    let mut ctx = ExecutionContext::new();
    let mask = TraceMask::none();
    for _ in 0..2 {
        let e = vm.run_with_ctx(&mut ctx, &p, FuncId(0), &[], mask, &mut Traced::new(NoTrace));
        assert_eq!(e.unwrap_err().trap, Trap::HostCallFailed(HostError::Failed));
        let v = vm.run_with_ctx(
            &mut ctx,
            &q,
            FuncId(0),
            &[Value::I64(4)],
            mask,
            &mut Traced::new(NoTrace),
        );
        assert_eq!(v, Ok(vec![Value::I64(8)]));
    }
}
