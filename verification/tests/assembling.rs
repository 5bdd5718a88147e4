//! Assembling functions and building programs.

use execution_tape::assembler::Asm;
use execution_tape::builder::{AsmError, FunctionSig, ProgramBuilder};
use execution_tape::program::{Const, SpanEntry, StructTypeDef, ValueType};
use execution_tape::verify::VerifyError;

#[test]
fn asm_resolves_labels() {
    let mut a = Asm::new();
    let l_then = a.label();
    let l_else = a.label();

    a.const_bool(1, true);
    a.br(1, l_then, l_else);
    a.place(l_then).unwrap();
    a.const_i64(2, 1);
    a.ret(0, &[2]);
    a.place(l_else).unwrap();
    a.const_i64(2, 2);
    a.ret(0, &[2]);

    let bytes = a.finish().unwrap();
    assert!(!bytes.is_empty());
}

#[test]
fn asm_finish_checked_accepts_simple_program() {
    let mut a = Asm::new();
    a.const_i64(1, 7);
    a.ret(0, &[1]);
    let bytes = a
        .finish_checked(&FunctionSig {
            arg_types: vec![],
            ret_types: vec![ValueType::I64],
            reg_count: 2,
        })
        .unwrap();
    assert!(!bytes.is_empty());
}

#[test]
fn asm_finish_checked_rejects_uninitialized_read() {
    let mut a = Asm::new();
    let l0 = a.label();
    a.place(l0).unwrap();
    // br r1, l0, l0  (r1 is uninitialized under arg_count=0)
    a.br(1, l0, l0);
    let err = a
        .finish_checked(&FunctionSig {
            arg_types: vec![],
            ret_types: vec![],
            reg_count: 2,
        })
        .unwrap_err();
    assert!(matches!(
        err,
        AsmError::Verify(VerifyError::UninitializedRead { .. })
    ));
}

#[test]
fn program_builder_can_declare_then_define_and_verify_cross_calls() {
    let mut pb = ProgramBuilder::new();
    let foo = pb.declare_function(FunctionSig {
        arg_types: vec![],
        ret_types: vec![ValueType::I64],
        reg_count: 2,
    });
    let bar = pb.declare_function(FunctionSig {
        arg_types: vec![],
        ret_types: vec![ValueType::I64],
        reg_count: 2,
    });

    // Define `foo` first; it calls `bar` by its declared `FuncId`.
    let mut a_foo = Asm::new();
    a_foo.call(0, bar, 0, &[], &[1]);
    a_foo.ret(0, &[1]);
    pb.define_function(foo, a_foo).unwrap();

    let mut a_bar = Asm::new();
    a_bar.const_i64(1, 7);
    a_bar.ret(0, &[1]);
    pb.define_function(bar, a_bar).unwrap();

    let p = pb.build_checked().unwrap();
    assert_eq!(p.functions.len(), 2);
}

#[test]
fn program_builder_interns_ids() {
    let mut pb = ProgramBuilder::new();

    let s0 = pb.symbol("x");
    let s1 = pb.symbol("x");
    assert_eq!(s0, s1);

    let c0 = pb.constant(Const::I64(7));
    let c1 = pb.constant(Const::I64(7));
    assert_eq!(c0, c1);

    let t0 = pb.struct_type(StructTypeDef {
        field_names: vec!["a".into()],
        field_types: vec![ValueType::I64],
    });
    let t1 = pb.struct_type(StructTypeDef {
        field_names: vec!["a".into()],
        field_types: vec![ValueType::I64],
    });
    assert_eq!(t0, t1);

    let e0 = pb.array_elem(ValueType::Bool);
    let e1 = pb.array_elem(ValueType::Bool);
    assert_eq!(e0, e1);
}

#[test]
fn asm_span_overwrites_at_same_pc() {
    let mut a = Asm::new();
    a.span(1);
    a.span(2);
    a.const_unit(0);
    a.span(3);
    a.trap(0);

    let parts = a.finish_parts().unwrap();
    assert_eq!(
        parts.spans,
        vec![
            SpanEntry {
                pc_delta: 0,
                span_id: 2
            },
            SpanEntry {
                pc_delta: 2,
                span_id: 3
            }
        ]
    );
}
