//! Disassembling programs.

use execution_tape::assembler::Asm;
use execution_tape::builder::{FunctionSig, ProgramBuilder};
use execution_tape::disasm::{disassemble, disassemble_function, Operands};
use execution_tape::listing::{FloatTexts, FloatWriter};
use execution_tape::program::ValueType;
use execution_tape::value::FuncId;

/// Writes floats as Rust does.
struct Digits;

impl FloatWriter for Digits {
    fn write(&mut self, bits: u64) -> String {
        f64::from_bits(bits).to_string()
    }
}

#[test]
fn disasm_formats_labels_for_branches() {
    let mut a = Asm::new();
    let l_then = a.label();
    let l_else = a.label();
    a.const_bool(1, true);
    a.br(1, l_then, l_else);
    a.place(l_then).unwrap();
    a.const_i64(2, 1);
    a.ret(0, &[2]);
    a.place(l_else).unwrap();
    a.const_i64(2, 2);
    a.ret(0, &[2]);

    let mut pb = ProgramBuilder::new();
    pb.push_function_checked(
        a,
        FunctionSig {
            arg_types: vec![],
            ret_types: vec![ValueType::I64],
            reg_count: 3,
        },
    )
    .unwrap();
    let vp = pb.build_verified().unwrap();

    let dis = disassemble(vp.program());
    let text = dis.text(&mut FloatTexts::new(Digits));
    assert!(text.contains("@L"));
    assert!(text.contains("br"));
}

#[test]
fn disasm_includes_program_and_function_and_label_names() {
    let mut a = Asm::new();
    let l_then = a.label_named("then");
    let l_else = a.label_named("else");
    a.const_bool(1, true);
    a.br(1, l_then, l_else);
    a.place(l_then).unwrap();
    a.const_i64(2, 1);
    a.ret(0, &[2]);
    a.place(l_else).unwrap();
    a.const_i64(2, 2);
    a.ret(0, &[2]);

    let mut pb = ProgramBuilder::new();
    pb.set_program_name("my_program");
    let func = pb
        .push_function_checked(
            a,
            FunctionSig {
                arg_types: vec![],
                ret_types: vec![ValueType::I64],
                reg_count: 3,
            },
        )
        .unwrap();
    pb.set_function_name(func, "main").unwrap();
    let vp = pb.build_verified().unwrap();

    let text = disassemble(vp.program()).text(&mut FloatTexts::new(Digits));
    assert!(text.contains("; program=\"my_program\""));
    assert!(text.contains("func f0: ; name=\"main\""));
    assert!(text.contains("; name=\"then\""));
    assert!(text.contains("; name=\"else\""));
}

#[test]
fn disasm_includes_function_output_names_for_call_and_ret() {
    let mut pb = ProgramBuilder::new();

    let mut callee = Asm::new();
    callee.const_i64(1, 7);
    callee.ret(0, &[1]);
    let callee_id = pb
        .push_function_checked(
            callee,
            FunctionSig {
                arg_types: vec![],
                ret_types: vec![ValueType::I64],
                reg_count: 2,
            },
        )
        .unwrap();
    pb.set_function_output_name(callee_id, 0, "value").unwrap();

    let mut main = Asm::new();
    main.call(0, callee_id, 0, &[], &[1]);
    main.ret(0, &[1]);
    let main_id = pb
        .push_function_checked(
            main,
            FunctionSig {
                arg_types: vec![],
                ret_types: vec![ValueType::I64],
                reg_count: 2,
            },
        )
        .unwrap();
    pb.set_function_output_name(main_id, 0, "result").unwrap();

    let vp = pb.build_verified().unwrap();
    let text = disassemble(vp.program()).text(&mut FloatTexts::new(Digits));
    assert!(text.contains("rets=[value=r1]"));
    assert!(text.contains("rets=[result=r1]"));
}

#[test]
fn function_labels_map_pcs_to_indices() {
    let mut a = Asm::new();
    let l_then = a.label();
    let l_else = a.label();
    a.const_bool(1, true);
    a.br(1, l_then, l_else);
    a.place(l_then).unwrap();
    a.const_i64(2, 1);
    a.ret(0, &[2]);
    a.place(l_else).unwrap();
    a.const_i64(2, 2);
    a.ret(0, &[2]);

    let mut pb = ProgramBuilder::new();
    pb.push_function_checked(
        a,
        FunctionSig {
            arg_types: vec![],
            ret_types: vec![ValueType::I64],
            reg_count: 3,
        },
    )
    .unwrap();
    let vp = pb.build_verified().unwrap();

    let fd = disassemble_function(vp.program(), FuncId(0)).unwrap();
    let labels = fd.labels();
    assert_eq!(labels.label_index(0), Some(0));

    let mut targets = None;
    for iv in fd.instrs() {
        if let Operands::Br {
            pc_true, pc_false, ..
        } = iv.operands()
        {
            targets = Some((pc_true, pc_false));
            break;
        }
    }
    let (pc_true, pc_false) = targets.expect("expected br");

    assert!(labels.label_index(pc_true).is_some());
    assert!(labels.label_index(pc_false).is_some());
}

#[test]
fn instr_view_is_terminator_matches_opcode() {
    let mut a = Asm::new();
    a.const_i64(1, 7);
    a.ret(0, &[1]);

    let mut pb = ProgramBuilder::new();
    pb.push_function_checked(
        a,
        FunctionSig {
            arg_types: vec![],
            ret_types: vec![ValueType::I64],
            reg_count: 2,
        },
    )
    .unwrap();
    let vp = pb.build_verified().unwrap();

    let fd = disassemble_function(vp.program(), FuncId(0)).unwrap();
    let mut it = fd.instrs().into_iter();
    let first = it.next().expect("expected const");
    assert!(!first.is_terminator());
    let second = it.next().expect("expected ret");
    assert!(second.is_terminator());
}
