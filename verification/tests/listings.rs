//! Disassembly as text, letter by letter.

use execution_tape::assembler::Asm;
use execution_tape::builder::{FunctionSig, ProgramBuilder};
use execution_tape::disasm::{
    disassemble, disassemble_function, disassemble_verified, CallTarget, ConstValue, DisasmError,
    InputIndex, Operands, RegIter,
};
use execution_tape::host::HostSig;
use execution_tape::listing::{FloatTexts, FloatWriter};
use execution_tape::program::{
    Const, ConstId, FunctionDef, HostSigId, Program, StructTypeDef, TypeTableDef, ValueType,
};
use execution_tape::value::FuncId;
use execution_tape::wire::DecodeError;

/// Writes floats as Rust does.
struct Digits;

impl FloatWriter for Digits {
    fn write(&mut self, bits: u64) -> String {
        f64::from_bits(bits).to_string()
    }
}

fn sig(args: &[ValueType], rets: &[ValueType], reg_count: u32) -> FunctionSig {
    FunctionSig { arg_types: args.to_vec(), ret_types: rets.to_vec(), reg_count }
}

fn drain(mut it: RegIter<'_>) -> Vec<u32> {
    let mut out = Vec::new();
    while let Some(r) = it.next() {
        out.push(r);
    }
    out
}

#[test]
fn a_program_with_calls_and_labels() {
    let mut pb = ProgramBuilder::new();
    pb.set_program_name("demo");
    let host = pb.host_sig_for("log", HostSig { args: vec![ValueType::I64], rets: vec![] });
    let mut callee = Asm::new();
    callee.i64_add(2, 1, 1);
    callee.ret(0, &[2]);
    let f = pb
        .push_function_checked(callee, sig(&[ValueType::I64], &[ValueType::I64], 3))
        .unwrap();
    pb.set_function_name(f, "double").unwrap();
    pb.set_function_output_name(f, 0, "twice").unwrap();
    let mut main = Asm::new();
    let end = main.label_named("end");
    main.const_i64(1, -7);
    main.call(0, f, 0, &[1], &[2]);
    main.host_call(0, host, 0, &[2], &[]);
    main.jmp(end);
    main.place(end).unwrap();
    main.ret(0, &[]);
    pb.push_function_checked(main, sig(&[], &[], 3)).unwrap();
    let p = pb.build_verified().unwrap();
    let fd = disassemble_function(p.program(), FuncId(1)).unwrap();
    let pcs: Vec<u32> = fd.instrs().iter().map(|iv| iv.pc()).collect();
    let expected = format!(
        "; program=\"demo\"\n\n\
         func f0: ; name=\"double\"\n  \
         @L0:\n  \
         000000: i64_add r2, [r1, r1]\n  \
         {:06}: ret eff=r0, rets=[twice=r2]\n\
         \n\
         func f1:\n  \
         @L0:\n  \
         {:06}: const_i64 r1 ; -7\n  \
         {:06}: call eff_out=r0, f0, eff_in=r0, args=[r1], rets=[twice=r2]\n  \
         {:06}: host_call eff_out=r0, host_sig#0(\"log\"), eff_in=r0, args=[r2], rets=[]\n  \
         {:06}: jmp @L1\n  \
         @L1: ; name=\"end\"\n  \
         {:06}: ret eff=r0, rets=[]\n",
        disassemble_function(p.program(), FuncId(0)).unwrap().instrs()[1].pc(),
        pcs[0],
        pcs[1],
        pcs[2],
        pcs[3],
        pcs[4],
    );
    assert_eq!(disassemble_verified(&p).text(&mut FloatTexts::new(Digits)), expected);
    // An instruction on its own names positions in place of labels.
    assert_eq!(
        fd.instrs()[3].text(&mut FloatTexts::new(Digits)),
        format!("{:06}: jmp @{:06}", pcs[3], pcs[4])
    );
}

#[test]
fn constants_are_shown() {
    let mut pb = ProgramBuilder::new();
    let long: String = "ab\"\n".repeat(20);
    let ids = [
        pb.constant(Const::Unit),
        pb.constant(Const::Bool(false)),
        pb.constant(Const::I64(-1)),
        pb.constant(Const::U64(u64::MAX)),
        pb.constant(Const::F64(1.5f64.to_bits())),
        pb.constant(Const::Decimal { mantissa: -125, scale: 2 }),
        pb.constant(Const::Bytes(vec![0, 171])),
        pb.constant(Const::Bytes(vec![17; 40])),
        pb.constant(Const::Str("é\t\\'".to_string())),
        pb.constant(Const::Str(long.clone())),
    ];
    let mut a = Asm::new();
    for id in ids {
        a.const_pool(1, id);
    }
    a.const_f64_bits(1, 0.25f64.to_bits());
    a.const_f64_bits(1, 2.0f64.to_bits());
    a.ret(0, &[]);
    pb.push_function_checked(a, sig(&[], &[], 2)).unwrap();
    let p = pb.build();
    let text = disassemble(&p).text(&mut FloatTexts::new(Digits));
    let shown: Vec<&str> = text
        .lines()
        .filter_map(|l| l.split_once(": ").map(|(_, rest)| rest))
        .collect();
    let cut: String = "ab\\\"\\n".repeat(16);
    let expected = [
        "const_pool r1, const#0 ; ()".to_string(),
        "const_pool r1, const#1 ; false".to_string(),
        "const_pool r1, const#2 ; -1".to_string(),
        "const_pool r1, const#3 ; 18446744073709551615".to_string(),
        "const_pool r1, const#4 ; 1.5 (bits=0x3FF8000000000000)".to_string(),
        "const_pool r1, const#5 ; dec(mantissa=-125, scale=2)".to_string(),
        "const_pool r1, const#6 ; bytes[len=2] 0x00AB".to_string(),
        format!("const_pool r1, const#7 ; bytes[len=40] 0x{}…", "11".repeat(32)),
        "const_pool r1, const#8 ; str[len=5] \"\\u{e9}\\t\\\\\\'\"".to_string(),
        format!("const_pool r1, const#9 ; str[len={}] \"{cut}…\"", long.len()),
        "const_f64 r1 ; 0.25 (bits=0x3FD0000000000000)".to_string(),
        "const_f64 r1 ; 2 (bits=0x4000000000000000)".to_string(),
        "ret eff=r0, rets=[]".to_string(),
    ];
    assert_eq!(shown, expected);
}

/// Counts what it is asked.
struct Counting(u32);

impl FloatWriter for Counting {
    fn write(&mut self, bits: u64) -> String {
        self.0 += 1;
        format!("<{bits:x}#{}>", self.0)
    }
}

#[test]
fn floats_are_asked_for_once() {
    let mut pb = ProgramBuilder::new();
    let mut a = Asm::new();
    a.const_f64_bits(1, 0xa);
    a.const_f64_bits(1, 0xb);
    a.const_f64_bits(1, 0xa);
    a.ret(0, &[]);
    pb.push_function_checked(a, sig(&[], &[], 2)).unwrap();
    let p = pb.build();
    let mut floats = FloatTexts::new(Counting(0));
    let d = disassemble(&p);
    let text = d.text(&mut floats);
    assert_eq!(text, d.text(&mut floats));
    let shown: Vec<&str> = text.lines().filter_map(|l| l.split("; ").nth(1)).collect();
    assert_eq!(
        shown,
        [
            "<a#1> (bits=0x000000000000000A)",
            "<b#2> (bits=0x000000000000000B)",
            "<a#1> (bits=0x000000000000000A)",
        ]
    );
    let fd = disassemble_function(&p, FuncId(0)).unwrap();
    assert!(fd.instrs()[1].text(&mut floats).ends_with("; <b#2> (bits=0x000000000000000B)"));
    assert!(fd.instrs()[1].text(&mut FloatTexts::new(Counting(6))).contains("<b#7>"));
}

#[test]
fn indices_are_shown() {
    assert_eq!(shown(InputIndex::TrapCode(4)), "trap_code=4");
    assert_eq!(shown(InputIndex::Const(ConstId(1))), "const#1");
    assert_eq!(shown(InputIndex::HostSig(HostSigId(2))), "host_sig#2");
    assert_eq!(shown(InputIndex::Func(FuncId(3))), "func#3");
    assert_eq!(shown(InputIndex::Type(execution_tape::program::TypeId(5))), "type#5");
    assert_eq!(shown(InputIndex::ElemType(execution_tape::program::ElemTypeId(6))), "elem_type#6");
    assert_eq!(shown(InputIndex::Index(7)), "index=7");
}

fn shown(ix: InputIndex) -> String {
    let mut s = String::new();
    ix.write_to(&mut s);
    s
}

#[test]
fn registers_and_indices_of_instructions() {
    let mut pb = ProgramBuilder::new();
    let t = pb.struct_type(StructTypeDef {
        field_names: vec!["x".to_string()],
        field_types: vec![ValueType::I64],
    });
    let c = pb.constant(Const::I64(9));
    let mut a = Asm::new();
    a.const_pool(1, c);
    a.struct_new(2, t, &[1]);
    a.struct_get(3, 2, 0);
    a.const_bool(4, true);
    a.select(5, 4, 1, 3);
    a.call(0, FuncId(0), 0, &[], &[5]);
    a.ret(0, &[5]);
    pb.push_function_checked(a, sig(&[], &[ValueType::I64], 6)).unwrap();
    let p = pb.build();
    let fd = disassemble_function(&p, FuncId(0)).unwrap();
    let ivs = fd.instrs();
    let reads: Vec<Vec<u32>> = ivs.iter().map(|iv| drain(iv.reads())).collect();
    let writes: Vec<Vec<u32>> = ivs.iter().map(|iv| drain(iv.writes())).collect();
    assert_eq!(reads[0], [] as [u32; 0]);
    assert_eq!(reads[1], [1]);
    assert_eq!(reads[2], [2]);
    assert_eq!(reads[4], [4, 1, 3]);
    assert_eq!(reads[5], [0]);
    assert_eq!(reads[6], [0, 5]);
    assert_eq!(writes[0], [1]);
    assert_eq!(writes[4], [5]);
    assert_eq!(writes[5], [0, 5]);
    assert_eq!(writes[6], [] as [u32; 0]);
    assert_eq!(ivs[0].input_index(), Some(InputIndex::Const(c)));
    assert_eq!(ivs[1].input_index(), Some(InputIndex::Type(t)));
    assert_eq!(ivs[2].input_index(), Some(InputIndex::Index(0)));
    assert_eq!(ivs[4].input_index(), None);
    assert_eq!(ivs[5].input_index(), Some(InputIndex::Func(FuncId(0))));
    assert!(matches!(ivs[0].const_value(), Some(ConstValue::I64(9))));
    assert!(matches!(ivs[3].const_value(), Some(ConstValue::Bool(true))));
    match ivs[5].operands() {
        Operands::Call(call) => {
            assert!(matches!(call.callee, CallTarget::Func(FuncId(0))));
            assert_eq!(call.rets, &[5]);
        }
        _ => panic!("expected a call"),
    }
    assert!(ivs[6].is_terminator());
    assert!(!ivs[5].is_terminator());
}

#[test]
fn functions_that_cannot_be_disassembled() {
    let broken = |bytecode: Vec<u8>| {
        Program::new(
            vec![],
            vec![],
            vec![],
            TypeTableDef { structs: vec![], array_elems: vec![] },
            vec![FunctionDef {
                arg_types: vec![],
                ret_types: vec![],
                reg_count: 1,
                bytecode,
                spans: vec![],
            }],
        )
    };
    let p = broken(vec![0xff]);
    assert!(matches!(
        disassemble_function(&p, FuncId(0)),
        Err(DisasmError::UnknownOpcode { opcode: 0xff })
    ));
    assert_eq!(
        disassemble(&p).text(&mut FloatTexts::new(Digits)),
        "func f0:\n  <decode error: UnknownOpcode { opcode: 255 }>\n"
    );
    let p = broken(vec![0x51]);
    assert!(matches!(
        disassemble_function(&p, FuncId(0)),
        Err(DisasmError::Decode(DecodeError::UnexpectedEof))
    ));
    assert_eq!(
        disassemble(&p).text(&mut FloatTexts::new(Digits)),
        "func f0:\n  <decode error: Decode(UnexpectedEof)>\n"
    );
}
