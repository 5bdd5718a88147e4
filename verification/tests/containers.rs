//! The binary form of programs, byte by byte.

use execution_tape::assembler::Asm;
use execution_tape::builder::{FunctionSig, ProgramBuilder};
use execution_tape::container::{encode_value_type, magic_bytes, write_section, SectionTag};
use execution_tape::decode::{decode_symbols, decode_value_type};
use execution_tape::host::{sig_hash, HostSig, SigHash};
use execution_tape::program::{
    Const, FunctionDef, HostSymbol, HostTypeId, Program, SpanEntry, StructTypeDef, TypeTableDef,
    ValueType,
};
use execution_tape::value::FuncId;
use execution_tape::wire::{DecodeError, Reader, Writer};

fn uleb(v: u64) -> Vec<u8> {
    let mut w = Writer::new();
    w.write_uleb128_u64(v);
    w.into_vec()
}

fn sleb(v: i64) -> Vec<u8> {
    let mut w = Writer::new();
    w.write_sleb128_i64(v);
    w.into_vec()
}

#[test]
fn unsigned_varints_are_little_endian_groups() {
    assert_eq!(uleb(0), [0]);
    assert_eq!(uleb(127), [0x7f]);
    assert_eq!(uleb(128), [0x80, 0x01]);
    assert_eq!(uleb(624485), [0xe5, 0x8e, 0x26]);
    for v in [0, 1, 127, 128, 300, u64::from(u32::MAX), u64::MAX] {
        assert_eq!(Reader::new(&uleb(v)).read_uleb128_u64(), Ok(v));
    }
}

#[test]
fn signed_varints_keep_the_sign() {
    assert_eq!(sleb(0), [0]);
    assert_eq!(sleb(63), [0x3f]);
    assert_eq!(sleb(64), [0xc0, 0x00]);
    assert_eq!(sleb(-1), [0x7f]);
    assert_eq!(sleb(-123456), [0xc0, 0xbb, 0x78]);
    for v in [0, 1, -1, 63, 64, -64, -65, i64::MAX, i64::MIN] {
        assert_eq!(Reader::new(&sleb(v)).read_sleb128_i64(), Ok(v));
    }
}

#[test]
fn malformed_varints_are_rejected() {
    assert_eq!(Reader::new(&[0x80]).read_uleb128_u64(), Err(DecodeError::UnexpectedEof));
    assert_eq!(Reader::new(&[0xff; 11]).read_uleb128_u64(), Err(DecodeError::InvalidVarint));
    assert_eq!(Reader::new(&[0xff; 11]).read_sleb128_i64(), Err(DecodeError::InvalidVarint));
}

#[test]
fn fixed_width_integers_are_little_endian() {
    let mut w = Writer::new();
    w.write_u16_le(0x0102);
    w.write_u64_le(0x0102_0304_0506_0708);
    w.write_blob(&[9, 9]);
    let bytes = w.into_vec();
    assert_eq!(bytes, [2, 1, 8, 7, 6, 5, 4, 3, 2, 1, 2, 9, 9]);
    let mut r = Reader::new(&bytes);
    assert_eq!(r.read_u16_le(), Ok(0x0102));
    assert_eq!(r.read_u64_le(), Ok(0x0102_0304_0506_0708));
    assert_eq!(r.read_blob(), Ok(&[9u8, 9][..]));
    assert_eq!(r.offset(), bytes.len());
    assert_eq!(r.read_u8(), Err(DecodeError::UnexpectedEof));
}

#[test]
fn text_must_be_utf8() {
    assert_eq!(Reader::new(&[2, 0xc3, 0xa9]).read_text(), Ok("é"));
    assert_eq!(Reader::new(&[1, 0xff]).read_text(), Err(DecodeError::InvalidUtf8));
    assert_eq!(decode_symbols(&[1, 1, 0xff]), Err(DecodeError::InvalidUtf8));
}

#[test]
fn value_types_have_tags() {
    let all = [
        (ValueType::Unit, vec![0]),
        (ValueType::Bool, vec![1]),
        (ValueType::I64, vec![2]),
        (ValueType::U64, vec![3]),
        (ValueType::F64, vec![4]),
        (ValueType::Decimal, vec![5]),
        (ValueType::Bytes, vec![6]),
        (ValueType::Str, vec![7]),
        (ValueType::Obj(HostTypeId(0x0102)), vec![8, 2, 1, 0, 0, 0, 0, 0, 0]),
        (ValueType::Agg, vec![9]),
        (ValueType::Func, vec![10]),
    ];
    for (t, bytes) in all {
        let mut w = Writer::new();
        encode_value_type(&mut w, t);
        assert_eq!(w.as_slice(), &bytes[..]);
        assert_eq!(decode_value_type(&mut Reader::new(&bytes)), Ok(t));
    }
    assert!(decode_value_type(&mut Reader::new(&[11])).is_err());
}

#[test]
fn section_tags_have_bytes() {
    for v in 0..=255u8 {
        match SectionTag::from_u8_opt(v) {
            Some(tag) => assert_eq!(tag.to_u8(), v),
            None => assert!(v == 0 || v > 10),
        }
    }
    let mut w = Writer::new();
    write_section(&mut w, SectionTag::Names, &[7, 8]);
    assert_eq!(w.as_slice(), &[9, 2, 7, 8]);
}

#[test]
fn signature_hashes_are_fnv_over_the_canonical_bytes() {
    let sig = HostSig {
        args: vec![ValueType::I64, ValueType::Obj(HostTypeId(7))],
        rets: vec![ValueType::Bool],
    };
    assert_eq!(sig_hash(&sig), SigHash(0xc589a3f92eb44f58));
    let none = HostSig { args: vec![], rets: vec![] };
    assert_eq!(sig_hash(&none), SigHash(0x1034008901c58b8f));
}

#[test]
fn containers_start_with_magic_and_version() {
    let bytes = ProgramBuilder::new().build().encode();
    assert_eq!(&bytes[..12], b"EXTAPE\0\0\x00\x00\x01\x00");
    assert_eq!(magic_bytes(), b"EXTAPE\0\0");
    let mut wrong = bytes.clone();
    wrong[0] = b'X';
    assert_eq!(Program::decode(&wrong), Err(DecodeError::BadMagic));
    let mut newer = bytes.clone();
    newer[8] = 1;
    assert_eq!(
        Program::decode(&newer),
        Err(DecodeError::UnsupportedVersion { major: 1, minor: 1 })
    );
    assert_eq!(Program::decode(&bytes[..11]), Err(DecodeError::UnexpectedEof));
    assert!(Program::decode(&bytes[..20]).is_err());
}

fn sample() -> Program {
    Program::new(
        vec![
            HostSymbol { symbol: "a".to_string() },
            HostSymbol { symbol: "é".to_string() },
        ],
        vec![
            Const::Unit,
            Const::Bool(true),
            Const::I64(-5),
            Const::U64(u64::MAX),
            Const::F64(0x7ff8_0000_0000_0000),
            Const::Decimal { mantissa: -12, scale: 3 },
            Const::Bytes(vec![0, 255]),
            Const::Str("grün".to_string()),
        ],
        vec![],
        TypeTableDef {
            structs: vec![StructTypeDef {
                field_names: vec!["x".to_string()],
                field_types: vec![ValueType::I64],
            }],
            array_elems: vec![ValueType::Str],
        },
        vec![FunctionDef {
            arg_types: vec![ValueType::I64],
            ret_types: vec![ValueType::Bool, ValueType::Str],
            reg_count: 3,
            bytecode: vec![1, 2, 3],
            spans: vec![SpanEntry { pc_delta: 0, span_id: 9 }, SpanEntry { pc_delta: 2, span_id: 8 }],
        }],
    )
}

#[test]
fn decoding_gives_back_what_was_encoded() {
    let p = sample();
    let bytes = p.encode();
    let q = Program::decode(&bytes).unwrap();
    assert_eq!(p, q);
    assert_eq!(q.encode(), bytes);
    assert_eq!(q.const_str(execution_tape::program::ConstId(7)), Ok("grün"));
    assert_eq!(q.const_bytes(execution_tape::program::ConstId(6)), Ok(&[0u8, 255][..]));
    assert_eq!(q.symbol_str(execution_tape::program::SymbolId(1)), Ok("é"));
    assert_eq!(
        q.symbol_str(execution_tape::program::SymbolId(2)),
        Err(DecodeError::OutOfBounds)
    );
    assert_eq!(q.functions[0].ret_types(&q), Ok(&[ValueType::Bool, ValueType::Str][..]));
}

#[test]
fn every_cut_off_container_is_rejected() {
    let bytes = sample().encode();
    for n in 0..bytes.len() {
        assert!(Program::decode(&bytes[..n]).is_err(), "cut off at {n}");
    }
}

#[test]
fn sections_may_come_in_any_order_but_not_twice() {
    let bytes = sample().encode();
    // The sections behind the header, with their bytes.
    let mut sections: Vec<Vec<u8>> = Vec::new();
    let mut at = 12;
    while at < bytes.len() {
        let mut r = Reader::new(&bytes[at + 1..]);
        let len = r.read_uleb128_u64().unwrap() as usize;
        let end = at + 1 + r.offset() + len;
        sections.push(bytes[at..end].to_vec());
        at = end;
    }
    let join = |parts: &[Vec<u8>]| {
        let mut out = bytes[..12].to_vec();
        for p in parts {
            out.extend_from_slice(p);
        }
        out
    };
    let mut reversed = sections.clone();
    reversed.reverse();
    assert_eq!(Program::decode(&join(&reversed)), Ok(sample()));
    for i in 0..sections.len() {
        let mut twice = sections.clone();
        twice.push(sections[i].clone());
        assert_eq!(Program::decode(&join(&twice)), Err(DecodeError::DuplicateSection));
        let mut unknown = sections.clone();
        unknown.insert(i, vec![200, 3, 1, 2, 3]);
        assert_eq!(Program::decode(&join(&unknown)), Ok(sample()));
    }
}

#[test]
fn names_come_back_in_order() {
    let mut pb = ProgramBuilder::new();
    let sig = || FunctionSig { arg_types: vec![], ret_types: vec![ValueType::I64; 2], reg_count: 2 };
    for _ in 0..2 {
        let mut a = Asm::new();
        a.const_i64(1, 0);
        a.ret(0, &[1, 1]);
        pb.push_function_checked(a, sig()).unwrap();
    }
    for f in [FuncId(1), FuncId(0)] {
        pb.set_function_name(f, "f").unwrap();
        for ret in [1, 0] {
            pb.set_function_output_name(f, ret, "out").unwrap();
        }
        for pc in [3, 0] {
            pb.set_label_name_pc(f, pc, "l").unwrap();
        }
    }
    let p = pb.build();
    let back = Program::decode(&p.encode()).unwrap();
    assert_ne!(back, p);
    let mut ordered = p.clone();
    ordered.function_names.sort_by_key(|n| n.func);
    ordered.labels.sort_by_key(|n| (n.func, n.pc));
    ordered.function_output_names.sort_by_key(|n| (n.func, n.ret));
    assert_eq!(back, ordered);
    assert_eq!(Program::decode(&back.encode()), Ok(back));
}
