//! What the verifier and the builder reject, and why.

use execution_tape::assembler::{Asm, UnresolvedLabel};
use execution_tape::builder::{AsmError, BuildError, FunctionSig, ProgramBuilder};
use execution_tape::bytecode::BytecodeError;
use execution_tape::host::HostSig;
use execution_tape::program::{
    ConstId, Const, ElemTypeId, FunctionDef, HostSigId, Program, StructTypeDef, TypeId,
    TypeTableDef, ValueType,
};
use execution_tape::value::FuncId;
use execution_tape::verify::{verify_program, VerifyConfig, VerifyError};
use execution_tape::wire::DecodeError;

fn sig(args: &[ValueType], rets: &[ValueType], reg_count: u32) -> FunctionSig {
    FunctionSig { arg_types: args.to_vec(), ret_types: rets.to_vec(), reg_count }
}

/// Why a function body is rejected.
fn rejected(args: &[ValueType], rets: &[ValueType], regs: u32, code: impl FnOnce(&mut Asm)) -> VerifyError {
    let mut a = Asm::new();
    code(&mut a);
    match a.finish_checked(&sig(args, rets, regs)) {
        Err(AsmError::Verify(e)) => e,
        other => panic!("expected a rejection, got {other:?}"),
    }
}

fn program_of(bytecode: Vec<u8>, reg_count: u32) -> Program {
    Program::new(
        vec![],
        vec![],
        vec![],
        TypeTableDef { structs: vec![], array_elems: vec![] },
        vec![FunctionDef {
            arg_types: vec![ValueType::I64],
            ret_types: vec![],
            reg_count,
            bytecode,
            spans: vec![],
        }],
    )
}

#[test]
fn too_few_or_too_many_registers() {
    let cfg = VerifyConfig::default();
    let mut a = Asm::new();
    a.ret(0, &[]);
    let code = a.finish().unwrap();
    assert_eq!(
        verify_program(&program_of(code.clone(), 1), &cfg),
        Err(VerifyError::BadRegCount { func: 0 })
    );
    assert_eq!(verify_program(&program_of(code.clone(), 2), &cfg), Ok(()));
    assert_eq!(
        verify_program(&program_of(code, 5), &VerifyConfig { max_regs: 4 }),
        Err(VerifyError::BadRegCount { func: 0 })
    );
}

#[test]
fn broken_bytecode() {
    let cfg = VerifyConfig::default();
    assert_eq!(
        verify_program(&program_of(vec![], 2), &cfg),
        Err(VerifyError::EmptyBody { func: 0 })
    );
    assert_eq!(
        verify_program(&program_of(vec![0xff], 2), &cfg),
        Err(VerifyError::Bytecode { func: 0, error: BytecodeError::UnknownOpcode { opcode: 0xff } })
    );
    // A return without its operands.
    assert_eq!(
        verify_program(&program_of(vec![0x51], 2), &cfg),
        Err(VerifyError::Bytecode {
            func: 0,
            error: BytecodeError::Decode(DecodeError::UnexpectedEof)
        })
    );
}

#[test]
fn broken_tables() {
    let mut a = Asm::new();
    a.ret(0, &[]);
    let mut p = program_of(a.finish().unwrap(), 2);
    p.functions[0].arg_types.len = 100;
    assert_eq!(
        verify_program(&p, &VerifyConfig::default()),
        Err(VerifyError::BadRange { func: 0 })
    );
}

#[test]
fn reads_of_registers_without_a_value() {
    assert_eq!(
        rejected(&[], &[ValueType::I64], 3, |a| {
            a.ret(0, &[2]);
        }),
        VerifyError::UninitializedRead { func: 0, pc: 0, reg: 2 }
    );
    // Written on one of two paths only.
    let e = rejected(&[ValueType::Bool], &[ValueType::I64], 3, |a| {
        let l = a.label();
        let m = a.label();
        a.br(1, l, m);
        a.place(l).unwrap();
        a.const_i64(2, 1);
        a.place(m).unwrap();
        a.ret(0, &[2]);
    });
    assert!(matches!(e, VerifyError::UninitializedRead { reg: 2, .. }));
}

#[test]
fn values_of_another_type() {
    assert_eq!(
        rejected(&[ValueType::I64, ValueType::U64], &[], 4, |a| {
            a.i64_add(3, 1, 2);
            a.ret(0, &[]);
        }),
        VerifyError::TypeMismatch {
            func: 0,
            pc: 0,
            reg: 2,
            expected: ValueType::I64,
            actual: ValueType::U64
        }
    );
    let e = rejected(&[ValueType::I64], &[ValueType::Bool], 2, |a| {
        a.ret(0, &[1]);
    });
    assert!(matches!(
        e,
        VerifyError::TypeMismatch { reg: 1, expected: ValueType::Bool, actual: ValueType::I64, .. }
    ));
}

#[test]
fn registers_that_are_not_there() {
    assert_eq!(
        rejected(&[], &[], 2, |a| {
            a.const_i64(2, 0);
            a.ret(0, &[]);
        }),
        VerifyError::RegOutOfBounds { func: 0, pc: 0, reg: 2 }
    );
}

#[test]
fn operands_that_name_nothing() {
    let cases: [fn(&mut Asm); 6] = [
        |a| {
            a.const_pool(1, ConstId(3));
        },
        |a| {
            a.call(0, FuncId(9), 0, &[], &[]);
        },
        |a| {
            a.host_call(0, HostSigId(0), 0, &[], &[]);
        },
        |a| {
            a.struct_new(1, TypeId(0), &[]);
        },
        |a| {
            a.array_new(1, ElemTypeId(0), &[]);
        },
        |a| {
            a.call(0, FuncId(0), 0, &[0], &[]);
        },
    ];
    for code in cases {
        let e = rejected(&[], &[], 2, |a| {
            code(a);
            a.ret(0, &[]);
        });
        assert!(matches!(e, VerifyError::BadOperand { func: 0, pc: 0 }), "{e:?}");
    }
}

#[test]
fn elements_of_unknown_aggregates() {
    assert_eq!(
        rejected(&[ValueType::Agg], &[ValueType::I64], 3, |a| {
            a.tuple_get(2, 1, 0);
            a.ret(0, &[2]);
        }),
        VerifyError::UnknownElement { func: 0, pc: 0, reg: 1 }
    );
}

#[test]
fn control_that_leaves_the_function() {
    assert_eq!(
        rejected(&[], &[], 1, |a| {
            a.nop();
        }),
        VerifyError::FallsThrough { func: 0, pc: 0 }
    );
    let mut a = Asm::new();
    let l = a.label();
    a.nop();
    a.place(l).unwrap();
    a.jmp(l);
    let mut code = a.finish().unwrap();
    assert_eq!(verify_program(&program_of(code.clone(), 2), &VerifyConfig::default()), Ok(()));
    // The target moves into the middle of the jump.
    let at = code.len() - 5;
    code[at] = 0x82;
    assert_eq!(
        verify_program(&program_of(code, 2), &VerifyConfig::default()),
        Err(VerifyError::BadTarget { func: 0, pc: 1 })
    );
}

#[test]
fn labels_must_be_placed_once() {
    let mut a = Asm::new();
    let l = a.label();
    a.jmp(l);
    assert_eq!(a.finish(), Err(UnresolvedLabel));
    let mut a = Asm::new();
    let l = a.label();
    assert_eq!(a.place(l), Ok(()));
    a.jmp(l);
    assert!(a.finish().is_ok());
    let mut a = Asm::new();
    let l = a.label();
    a.jmp(l);
    assert_eq!(
        a.finish_checked(&sig(&[], &[], 1)),
        Err(AsmError::UnresolvedLabel)
    );
}

#[test]
fn builders_reject_bad_ids() {
    let mut pb = ProgramBuilder::new();
    let f = pb.declare_function(sig(&[], &[ValueType::I64], 2));
    assert_eq!(
        pb.set_function_name(FuncId(1), "f").err(),
        Some(BuildError::BadFuncId { func: 1 })
    );
    assert_eq!(
        pb.set_label_name_pc(FuncId(1), 0, "f").err(),
        Some(BuildError::BadFuncId { func: 1 })
    );
    assert_eq!(
        pb.set_function_output_name(FuncId(2), 0, "f").err(),
        Some(BuildError::BadFuncId { func: 2 })
    );
    assert_eq!(
        pb.set_function_output_name(f, 1, "f").err(),
        Some(BuildError::BadRetIndex { func: 0, ret: 1 })
    );
    let mut a = Asm::new();
    a.ret(0, &[]);
    assert_eq!(
        pb.define_function(FuncId(7), a).err(),
        Some(BuildError::BadFuncId { func: 7 })
    );
    let mut a = Asm::new();
    let l = a.label();
    a.jmp(l);
    assert_eq!(pb.define_function(f, a).err(), Some(BuildError::UnresolvedLabel));
    assert_eq!(
        pb.build_checked().err(),
        Some(BuildError::MissingFunctionBody { func: 0 })
    );
}

#[test]
fn builders_verify() {
    let mut pb = ProgramBuilder::new();
    let f = pb.declare_function(sig(&[], &[ValueType::I64], 2));
    let mut a = Asm::new();
    a.ret(0, &[1]);
    pb.define_function(f, a).unwrap();
    assert_eq!(
        pb.build_verified().err(),
        Some(BuildError::Verify(VerifyError::UninitializedRead { func: 0, pc: 0, reg: 1 }))
    );
}

#[test]
fn interned_things_keep_their_ids() {
    let mut pb = ProgramBuilder::new();
    let a = pb.symbol("a");
    let b = pb.symbol("b");
    let one = pb.constant(Const::I64(1));
    let two = pb.constant(Const::U64(1));
    let t = StructTypeDef { field_names: vec!["x".to_string()], field_types: vec![ValueType::I64] };
    let st = pb.struct_type(t.clone());
    let el = pb.array_elem(ValueType::I64);
    let hs = pb.host_sig(a, HostSig { args: vec![], rets: vec![] });
    assert_ne!(a, b);
    assert_ne!(one, two);
    // Asked again, they are the same.
    assert_eq!(pb.symbol("a"), a);
    assert_eq!(pb.symbol("b"), b);
    assert_eq!(pb.constant(Const::I64(1)), one);
    assert_eq!(pb.constant(Const::U64(1)), two);
    assert_eq!(pb.struct_type(t), st);
    assert_eq!(pb.array_elem(ValueType::I64), el);
    assert_eq!(pb.host_sig(a, HostSig { args: vec![], rets: vec![] }), hs);
    assert_ne!(pb.host_sig(b, HostSig { args: vec![], rets: vec![] }), hs);
    let p = pb.build();
    assert_eq!(p.symbol_str(a), Ok("a"));
    assert_eq!(p.symbol_str(b), Ok("b"));
}

#[test]
fn messages_say_why() {
    let uninit = VerifyError::UninitializedRead { func: 2, pc: 17, reg: 4 };
    assert_eq!(uninit.message(), "function 2 pc 17: uninitialized read of r4");
    assert_eq!(
        AsmError::Verify(uninit).message(),
        "verification failed: function 2 pc 17: uninitialized read of r4"
    );
    assert_eq!(AsmError::UnresolvedLabel.message(), "unresolved label");
    assert_eq!(UnresolvedLabel.message(), "label was referenced but never placed");
    assert_eq!(BuildError::BadFuncId { func: 12 }.message(), "invalid function id 12");
    assert_eq!(
        BuildError::BadRetIndex { func: 1, ret: 2 }.message(),
        "invalid return index 2 for function 1"
    );
    assert_eq!(
        BuildError::MissingFunctionBody { func: 3 }.message(),
        "missing function body for 3"
    );
    assert_eq!(BuildError::UnresolvedLabel.message(), "unresolved label");
    assert_eq!(
        BuildError::from(VerifyError::EmptyBody { func: 0 }).message(),
        "verification failed: function 0: empty body"
    );
    assert_eq!(
        VerifyError::TypeMismatch {
            func: 0,
            pc: 1,
            reg: 2,
            expected: ValueType::Bool,
            actual: ValueType::I64
        }
        .message(),
        "function 0 pc 1: type mismatch of r2 (expected Bool, got I64)"
    );
    assert_eq!(
        VerifyError::Bytecode { func: 0, error: BytecodeError::UnknownOpcode { opcode: 255 } }
            .message(),
        "function 0: bad bytecode: unknown opcode 255"
    );
}

#[test]
fn host_signatures_must_have_their_hash() {
    let mut pb = ProgramBuilder::new();
    pb.host_sig_for("a", HostSig { args: vec![ValueType::I64], rets: vec![] });
    pb.host_sig_for("b", HostSig { args: vec![], rets: vec![ValueType::Bool] });
    let p = pb.build();
    let cfg = VerifyConfig::default();
    assert_eq!(verify_program(&p, &cfg), Ok(()));
    let mut q = p.clone();
    q.host_sigs[1].sig_hash.0 ^= 1;
    let e = VerifyError::BadHostSig { host_sig: 1 };
    assert_eq!(verify_program(&q, &cfg), Err(e));
    assert_eq!(e.message(), "host signature 1: bad types or hash");
    let mut q = p.clone();
    q.host_sigs[0].args.len = 9;
    assert_eq!(verify_program(&q, &cfg), Err(VerifyError::BadHostSig { host_sig: 0 }));
}

#[test]
fn the_first_fault_is_reported() {
    // Two faults: the read comes before the write.
    assert_eq!(
        rejected(&[], &[], 2, |a| {
            a.i64_add(7, 1, 1);
            a.ret(0, &[]);
        }),
        VerifyError::UninitializedRead { func: 0, pc: 0, reg: 1 }
    );
    // Of two registers the first.
    assert_eq!(
        rejected(&[ValueType::Bool], &[], 3, |a| {
            a.i64_add(2, 1, 2);
            a.ret(0, &[]);
        }),
        VerifyError::TypeMismatch {
            func: 0,
            pc: 0,
            reg: 1,
            expected: ValueType::I64,
            actual: ValueType::Bool
        }
    );
}
