//! Running functions.

use execution_tape::assembler::Asm;
use execution_tape::builder::{FunctionSig, ProgramBuilder};
use execution_tape::host::{
    AccessSink, Host, HostError, HostSig, NoAccess, ResourceKeyRef, SigHash, ValueRef,
};
use execution_tape::ieee::{FloatOp, FloatUnit};
use execution_tape::machine::Limits;
use execution_tape::program::{Program, ValueType};
use execution_tape::strict::Recorded;
use execution_tape::trace::{NoTrace, TraceMask, TraceOutcome, TraceSink, Traced};
use execution_tape::value::{FuncId, Value};
use execution_tape::vm::{ExecutionContext, Vm};

/// The floating-point arithmetic of the machine.
struct NativeFloats;

impl FloatUnit for NativeFloats {
    fn compute(&mut self, op: FloatOp, a: u64, b: u64) -> u64 {
        let x = f64::from_bits(a);
        let y = f64::from_bits(b);
        let r: f64 = match op {
            FloatOp::Sum => x + y,
            FloatOp::Difference => x - y,
            FloatOp::Product => x * y,
            FloatOp::Quotient => x / y,
            FloatOp::Remainder => x % y,
            FloatOp::FromI64 => (a as i64) as f64,
            FloatOp::FromU64 => a as f64,
        };
        r.to_bits()
    }
}

struct TestHost;

impl Host for TestHost {
    fn call(
        &mut self,
        symbol: &str,
        _sig_hash: SigHash,
        args: &[ValueRef<'_>],
    ) -> Result<(Vec<Value>, u64), HostError> {
        match symbol {
            "id" => Ok((args.iter().copied().map(ValueRef::to_value).collect(), 0)),
            _ => Err(HostError::UnknownSymbol),
        }
    }
}

#[test]
fn vm_runs_const_and_ret() {
    // const_i64 r1, 7; ret r0, r1
    let mut a = Asm::new();
    a.const_i64(1, 7);
    a.ret(0, &[1]);

    let mut pb = ProgramBuilder::new();
    pb.push_function_checked(
        a,
        FunctionSig {
            arg_types: vec![],
            ret_types: vec![ValueType::I64],
            reg_count: 2,
        },
    )
    .unwrap();
    let p = pb.build_verified().unwrap();

    let mut vm = Vm::new(TestHost, NativeFloats, Limits::default());
    let out = vm.run(&p, FuncId(0), &[], TraceMask::none(), &mut Traced::new(NoTrace)).unwrap();
    assert_eq!(out, vec![Value::I64(7)]);
}

#[test]
fn vm_trace_hooks_fire() {
    struct CollectingTrace {
        starts: u32,
        ends: u32,
        instrs: Vec<u8>,
    }

    impl TraceSink for CollectingTrace {
        fn mask(&self) -> TraceMask {
            TraceMask::run_events().union(TraceMask::instr_events())
        }

        fn run_start(&mut self, _program: &Program, _entry: FuncId, _arg_count: usize) {
            self.starts += 1;
        }

        fn instr(
            &mut self,
            _program: &Program,
            _func: FuncId,
            _pc: u32,
            _next_pc: u32,
            _span_id: Option<u64>,
            opcode: u8,
        ) {
            self.instrs.push(opcode);
        }

        fn run_end(&mut self, _program: &Program, outcome: TraceOutcome<'_>) {
            self.ends += 1;
            assert!(matches!(outcome, TraceOutcome::Returned));
        }
    }

    let mut a = Asm::new();
    a.const_i64(1, 7);
    a.ret(0, &[1]);

    let mut pb = ProgramBuilder::new();
    pb.push_function_checked(
        a,
        FunctionSig {
            arg_types: vec![],
            ret_types: vec![ValueType::I64],
            reg_count: 2,
        },
    )
    .unwrap();
    let p = pb.build_verified().unwrap();

    let mut vm = Vm::new(TestHost, NativeFloats, Limits::default());
    let mut trace = Traced::new(CollectingTrace {
        starts: 0,
        ends: 0,
        instrs: Vec::new(),
    });
    let out = vm
        .run(
            &p,
            FuncId(0),
            &[],
            TraceMask::run_events().union(TraceMask::instr_events()),
            &mut trace,
        )
        .unwrap();
    assert_eq!(out, vec![Value::I64(7)]);
    assert_eq!(trace.sink().starts, 1);
    assert_eq!(trace.sink().ends, 1);
    assert!(!trace.sink().instrs.is_empty());
}

#[test]
fn vm_calls_host() {
    // const_i64 r1, 9; host_call r0, sym0, hash, r0, argc=1 r1, retc=1 r2; ret r0, 1, r2
    let sig = HostSig {
        args: vec![ValueType::I64],
        rets: vec![ValueType::I64],
    };

    let mut pb = ProgramBuilder::new();
    let host_sig = pb.host_sig_for("id", sig.clone());

    let mut a = Asm::new();
    a.const_i64(1, 9);
    a.host_call(0, host_sig, 0, &[1], &[2]);
    a.ret(0, &[2]);
    pb.push_function_checked(
        a,
        FunctionSig {
            arg_types: vec![],
            ret_types: vec![ValueType::I64],
            reg_count: 3,
        },
    )
    .unwrap();
    let p = pb.build_verified().unwrap();

    let mut vm = Vm::new(TestHost, NativeFloats, Limits::default());
    let out = vm.run(&p, FuncId(0), &[], TraceMask::none(), &mut Traced::new(NoTrace)).unwrap();
    assert_eq!(out, vec![Value::I64(9)]);
}

#[derive(Debug, Default)]
struct CountingAccessSink {
    reads: usize,
    writes: usize,
}

impl AccessSink for CountingAccessSink {
    fn read(&mut self, _key: ResourceKeyRef<'_>) {
        self.reads += 1;
    }

    fn write(&mut self, _key: ResourceKeyRef<'_>) {
        self.writes += 1;
    }
}

struct RecordingHost;

impl Host for RecordingHost {
    fn call(
        &mut self,
        symbol: &str,
        _sig_hash: SigHash,
        args: &[ValueRef<'_>],
    ) -> Result<(Vec<Value>, u64), HostError> {
        match symbol {
            "id" => Ok((args.iter().copied().map(ValueRef::to_value).collect(), 0)),
            _ => Err(HostError::UnknownSymbol),
        }
    }

    fn call_with_access(
        &mut self,
        symbol: &str,
        sig_hash: SigHash,
        args: &[ValueRef<'_>],
        access: Option<&mut Recorded<NoAccess>>,
    ) -> Result<(Vec<Value>, u64), HostError> {
        if let Some(a) = access {
            a.read(ResourceKeyRef::OpaqueHost { op: sig_hash });
            a.read(ResourceKeyRef::HostState {
                op: sig_hash,
                key: 123,
            });
        }
        self.call(symbol, sig_hash, args)
    }
}

#[test]
fn vm_host_call_can_record_accesses() {
    let sig = HostSig {
        args: vec![ValueType::I64],
        rets: vec![ValueType::I64],
    };

    let mut pb = ProgramBuilder::new();
    let host_sig = pb.host_sig_for("id", sig);

    let mut a = Asm::new();
    a.const_i64(1, 9);
    a.host_call(0, host_sig, 0, &[1], &[2]);
    a.ret(0, &[2]);
    pb.push_function_checked(
        a,
        FunctionSig {
            arg_types: vec![],
            ret_types: vec![ValueType::I64],
            reg_count: 3,
        },
    )
    .unwrap();
    let p = pb.build_verified().unwrap();

    let mut vm = Vm::new(RecordingHost, NativeFloats, Limits::default());
    let mut ctx = ExecutionContext::new();
    let mut access = Recorded::new(CountingAccessSink::default());

    let out = vm
        .run_with_ctx_and_access_sink(
            &mut ctx,
            &p,
            FuncId(0),
            &[],
            TraceMask::none(),
            &mut Traced::new(NoTrace),
            &mut access,
        )
        .unwrap();

    assert_eq!(out, vec![Value::I64(9)]);
    assert!(access.sink().reads > 0);
}

/// Says whether it was handed a sink.
struct SinkSpotter;

impl Host for SinkSpotter {
    fn call(
        &mut self,
        _symbol: &str,
        _sig_hash: SigHash,
        _args: &[ValueRef<'_>],
    ) -> Result<(Vec<Value>, u64), HostError> {
        Ok((vec![Value::Bool(false)], 0))
    }

    fn call_with_access(
        &mut self,
        _symbol: &str,
        _sig_hash: SigHash,
        _args: &[ValueRef<'_>],
        access: Option<&mut Recorded<NoAccess>>,
    ) -> Result<(Vec<Value>, u64), HostError> {
        Ok((vec![Value::Bool(access.is_some())], 0))
    }
}

#[test]
fn hosts_are_handed_a_sink_only_where_there_is_one() {
    let mut pb = ProgramBuilder::new();
    let hs = pb.host_sig_for("has_sink", HostSig { args: vec![], rets: vec![ValueType::Bool] });
    let mut a = Asm::new();
    a.host_call(0, hs, 0, &[], &[1]);
    a.ret(0, &[1]);
    pb.push_function_checked(
        a,
        FunctionSig { arg_types: vec![], ret_types: vec![ValueType::Bool], reg_count: 2 },
    )
    .unwrap();
    let p = pb.build_verified().unwrap();
    let mut vm = Vm::new(SinkSpotter, NativeFloats, Limits::default());
    let mut ctx = ExecutionContext::new();
    let none = TraceMask::none();
    let quiet = &mut Traced::new(NoTrace);
    assert_eq!(vm.run(&p, FuncId(0), &[], none, quiet).unwrap(), [Value::Bool(false)]);
    assert_eq!(
        vm.run_with_ctx(&mut ctx, &p, FuncId(0), &[], none, quiet).unwrap(),
        [Value::Bool(false)]
    );
    let mut access = Recorded::none();
    let out = vm.run_with_ctx_and_access_sink(
        &mut ctx, &p, FuncId(0), &[], none, quiet, &mut access,
    );
    assert_eq!(out.unwrap(), [Value::Bool(false)]);
    let mut access = Recorded::new(CountingAccessSink::default());
    let out = vm.run_with_ctx_and_access_sink(
        &mut ctx, &p, FuncId(0), &[], none, quiet, &mut access,
    );
    assert_eq!(out.unwrap(), [Value::Bool(true)]);
    assert!(access.into_log().is_empty());
}

#[test]
fn vm_branches() {
    let mut a = Asm::new();
    let l_then = a.label();
    let l_else = a.label();
    a.const_bool(1, true);
    a.br(1, l_then, l_else);
    a.place(l_then).unwrap();
    a.const_i64(2, 1);
    a.ret(0, &[2]);
    a.place(l_else).unwrap();
    a.const_i64(2, 2);
    a.ret(0, &[2]);
    let mut pb = ProgramBuilder::new();
    pb.push_function_checked(
        a,
        FunctionSig {
            arg_types: vec![],
            ret_types: vec![ValueType::I64],
            reg_count: 3,
        },
    )
    .unwrap();
    let p = pb.build_verified().unwrap();

    let mut vm = Vm::new(TestHost, NativeFloats, Limits::default());
    let out = vm.run(&p, FuncId(0), &[], TraceMask::none(), &mut Traced::new(NoTrace)).unwrap();
    assert_eq!(out, vec![Value::I64(1)]);
}

#[test]
fn vm_i64_add() {
    let mut a = Asm::new();
    a.const_i64(1, 7);
    a.const_i64(2, 9);
    a.i64_add(3, 1, 2);
    a.ret(0, &[3]);

    let mut pb = ProgramBuilder::new();
    pb.push_function_checked(
        a,
        FunctionSig {
            arg_types: vec![],
            ret_types: vec![ValueType::I64],
            reg_count: 4,
        },
    )
    .unwrap();
    let p = pb.build_verified().unwrap();

    let mut vm = Vm::new(TestHost, NativeFloats, Limits::default());
    let out = vm.run(&p, FuncId(0), &[], TraceMask::none(), &mut Traced::new(NoTrace)).unwrap();
    assert_eq!(out, vec![Value::I64(16)]);
}
