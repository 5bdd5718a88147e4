//! Programs and their binary form.

use execution_tape::container::{encode_types, encode_value_type, magic_bytes, write_section, SectionTag};
use execution_tape::decode::decode_types;
use execution_tape::program::{
    Const, FunctionDef, FunctionNameEntry, FunctionOutputNameEntry, HostSymbol, LabelNameEntry,
    Program, SpanEntry, StructTypeDef, SymbolId, TypeTable, TypeTableDef, ValueType, VERSION_MAJOR,
    VERSION_MINOR,
};
use execution_tape::wire::{read_usize, DecodeError, Reader, Writer};

#[test]
fn program_roundtrips() {
    let p = Program::new(
        vec![
            HostSymbol {
                symbol: "mesh.make_cube".into(),
            },
            HostSymbol {
                symbol: "price.lookup".into(),
            },
        ],
        vec![
            Const::Unit,
            Const::Bool(true),
            Const::I64(-123),
            Const::U64(456),
            Const::F64(1.25_f64.to_bits()),
            Const::Decimal {
                mantissa: 999,
                scale: 2,
            },
            Const::Bytes(vec![0, 1, 2, 3]),
            Const::Str("hello".into()),
        ],
        vec![],
        TypeTableDef {
            structs: vec![StructTypeDef {
                field_names: vec!["x".into(), "y".into()],
                field_types: vec![ValueType::I64, ValueType::I64],
            }],
            array_elems: vec![ValueType::U64],
        },
        vec![
            FunctionDef {
                arg_types: vec![ValueType::I64, ValueType::Bool],
                ret_types: vec![ValueType::U64],
                reg_count: 8,
                bytecode: vec![1, 2, 3],
                spans: vec![SpanEntry {
                    pc_delta: 0,
                    span_id: 123,
                }],
            },
            FunctionDef {
                arg_types: vec![],
                ret_types: vec![],
                reg_count: 1,
                bytecode: vec![0xff; 32],
                spans: vec![SpanEntry {
                    pc_delta: 5,
                    span_id: 9999,
                }],
            },
        ],
    );

    let bytes = p.encode();
    let back = Program::decode(&bytes).unwrap();
    assert_eq!(back, p);
}

#[test]
fn program_roundtrips_with_function_output_names() {
    let mut p = Program::new(
        vec![
            HostSymbol {
                symbol: "mesh.make_cube".into(),
            },
            HostSymbol {
                symbol: "price.lookup".into(),
            },
            HostSymbol {
                symbol: "out".into(),
            },
        ],
        vec![],
        vec![],
        TypeTableDef::default(),
        vec![FunctionDef {
            arg_types: vec![],
            ret_types: vec![ValueType::U64],
            reg_count: 2,
            bytecode: vec![1, 2, 3],
            spans: vec![SpanEntry {
                pc_delta: 0,
                span_id: 123,
            }],
        }],
    );
    p.function_output_names = vec![FunctionOutputNameEntry {
        func: 0,
        ret: 0,
        name: SymbolId(2),
    }];

    let bytes = p.encode();
    let back = Program::decode(&bytes).unwrap();
    assert_eq!(back, p);
}

#[test]
fn type_table_interns_duplicate_field_names_across_structs() {
    let types = TypeTable::pack(TypeTableDef {
        structs: vec![
            StructTypeDef {
                field_names: vec!["x".into(), "y".into()],
                field_types: vec![ValueType::I64, ValueType::U64],
            },
            StructTypeDef {
                field_names: vec!["y".into(), "x".into()],
                field_types: vec![ValueType::U64, ValueType::I64],
            },
        ],
        array_elems: vec![],
    });

    assert_eq!(types.field_name_ranges.len(), 2);
    assert_eq!(types.field_name_ids.len(), 4);
    assert_eq!(types.name_data.len(), 2);

    let names0 = types.struct_field_name_ids(&types.structs[0]).unwrap();
    let names1 = types.struct_field_name_ids(&types.structs[1]).unwrap();
    assert_eq!(names0.len(), 2);
    assert_eq!(names1.len(), 2);
    assert_eq!(names0[0], names1[1]);
    assert_eq!(names0[1], names1[0]);
    assert_eq!(types.field_name_str(names0[0]), Some("x"));
    assert_eq!(types.field_name_str(names0[1]), Some("y"));
}

#[test]
fn program_roundtrips_with_repeated_field_names_across_structs() {
    let p = Program::new(
        vec![],
        vec![],
        vec![],
        TypeTableDef {
            structs: vec![
                StructTypeDef {
                    field_names: vec!["id".into(), "value".into(), "id".into()],
                    field_types: vec![ValueType::I64, ValueType::U64, ValueType::I64],
                },
                StructTypeDef {
                    field_names: vec!["value".into(), "meta".into(), "id".into()],
                    field_types: vec![ValueType::U64, ValueType::Bool, ValueType::I64],
                },
            ],
            array_elems: vec![ValueType::I64],
        },
        vec![],
    );

    let bytes = p.encode();
    let back = Program::decode(&bytes).unwrap();
    assert_eq!(back, p);
}

#[test]
fn decode_types_rejects_out_of_range_field_name_id() {
    let mut p = Writer::new();
    p.write_uleb128_u64(1); // field_name_count
    p.write_uleb128_u64(1); // field_name[0].len
    p.write_bytes(b"a");
    p.write_uleb128_u64(1); // struct_count
    p.write_uleb128_u64(1); // field_count
    p.write_uleb128_u64(1); // field_name_id (OOB; valid is only 0)
    encode_value_type(&mut p, ValueType::I64);
    p.write_uleb128_u64(0); // array elem_count
    assert_eq!(decode_types(p.as_slice()), Err(DecodeError::OutOfBounds));
}

#[test]
fn program_names_roundtrip() {
    let mut p = Program::new(
        vec![
            HostSymbol {
                symbol: "my_program".into(),
            },
            HostSymbol {
                symbol: "main".into(),
            },
            HostSymbol {
                symbol: "entry".into(),
            },
        ],
        vec![],
        vec![],
        TypeTableDef::default(),
        vec![FunctionDef {
            arg_types: vec![],
            ret_types: vec![],
            reg_count: 1,
            bytecode: vec![0x51, 0x00, 0x00], // ret r0, []
            spans: vec![],
        }],
    );
    p.program_name = Some(SymbolId(0));
    p.function_names = vec![FunctionNameEntry {
        func: 0,
        name: SymbolId(1),
    }];
    p.labels = vec![LabelNameEntry {
        func: 0,
        pc: 0,
        name: SymbolId(2),
    }];

    let bytes = p.encode();
    let back = Program::decode(&bytes).unwrap();
    assert_eq!(back, p);

    assert_eq!(back.name(), Some("my_program"));
    assert_eq!(back.function_name(0), Some("main"));
    assert_eq!(back.label_name(0, 0), Some("entry"));
}

#[test]
fn unknown_section_is_skipped() {
    let p = Program::new(
        vec![HostSymbol { symbol: "x".into() }],
        vec![],
        vec![],
        TypeTableDef::default(),
        vec![],
    );
    let mut bytes = p.encode();

    // Append an unknown section tag 0xFE with a 3-byte payload.
    bytes.push(0xFE);
    bytes.push(3); // uleb128(3)
    bytes.extend_from_slice(&[9, 9, 9]);

    let back = Program::decode(&bytes).unwrap();
    assert_eq!(back, p);
}

#[test]
fn duplicate_section_is_rejected() {
    let p = Program::new(
        vec![HostSymbol { symbol: "x".into() }],
        vec![],
        vec![],
        TypeTableDef::default(),
        vec![],
    );

    let mut bytes = p.encode();
    let dup = bytes[12..].to_vec(); // duplicate first section onwards
    bytes.extend_from_slice(&dup);

    assert_eq!(Program::decode(&bytes), Err(DecodeError::DuplicateSection));
}

#[test]
fn missing_function_table_is_rejected() {
    let p = Program::new(
        vec![HostSymbol { symbol: "x".into() }],
        vec![],
        vec![],
        TypeTableDef::default(),
        vec![],
    );

    let bytes = p.encode();
    let bytes = strip_section(&bytes, SectionTag::FunctionTable.to_u8());
    assert_eq!(
        Program::decode(&bytes),
        Err(DecodeError::MissingSection {
            tag: SectionTag::FunctionTable.to_u8()
        })
    );
}

#[test]
fn bad_function_table_index_is_rejected() {
    // Manually build a program where the function table points at a non-existent bytecode blob.
    let mut w = Writer::new();
    w.write_bytes(magic_bytes().as_slice());
    w.write_u16_le(VERSION_MAJOR);
    w.write_u16_le(VERSION_MINOR);

    // symbols
    {
        let mut p = Writer::new();
        p.write_uleb128_u64(0);
        write_section(&mut w, SectionTag::Symbols, p.as_slice());
    }
    // const pool
    {
        let mut p = Writer::new();
        p.write_uleb128_u64(0);
        write_section(&mut w, SectionTag::ConstPool, p.as_slice());
    }
    // types
    {
        let mut p = Writer::new();
        encode_types(&mut p, &TypeTable::default());
        write_section(&mut w, SectionTag::Types, p.as_slice());
    }
    // bytecode blobs: 1 blob
    {
        let mut p = Writer::new();
        p.write_uleb128_u64(1);
        p.write_uleb128_u64(1);
        p.write_bytes(&[0]);
        write_section(&mut w, SectionTag::BytecodeBlobs, p.as_slice());
    }
    // span tables: 1 table
    {
        let mut p = Writer::new();
        p.write_uleb128_u64(1);
        p.write_uleb128_u64(0);
        write_section(&mut w, SectionTag::SpanTables, p.as_slice());
    }
    // function table: 1 entry, bytecode_index=1 (OOB)
    {
        let mut p = Writer::new();
        p.write_uleb128_u64(1);
        p.write_uleb128_u64(0);
        p.write_uleb128_u64(0);
        p.write_uleb128_u64(0);
        p.write_uleb128_u64(1);
        p.write_uleb128_u64(0);
        write_section(&mut w, SectionTag::FunctionTable, p.as_slice());
    }
    // function signatures: 1 entry
    {
        let mut p = Writer::new();
        p.write_uleb128_u64(1);
        p.write_uleb128_u64(0); // argc
        p.write_uleb128_u64(0); // retc
        write_section(&mut w, SectionTag::FunctionSigs, p.as_slice());
    }
    // host signatures: empty
    {
        let mut p = Writer::new();
        p.write_uleb128_u64(0);
        write_section(&mut w, SectionTag::HostSigs, p.as_slice());
    }

    assert_eq!(Program::decode(w.as_slice()), Err(DecodeError::OutOfBounds));
}

fn strip_section(bytes: &[u8], tag_to_strip: u8) -> Vec<u8> {
    let mut out = Vec::new();
    out.extend_from_slice(&bytes[..12]);

    let sections = &bytes[12..];
    let mut r = Reader::new(sections);
    while r.offset() < sections.len() {
        let tag = r.read_u8().unwrap();
        let len = read_usize(&mut r).unwrap();
        let payload = r.read_bytes(len).unwrap();
        if tag != tag_to_strip {
            out.push(tag);
            let mut w = Writer::new();
            w.write_uleb128_u64(len as u64);
            out.extend_from_slice(w.as_slice());
            out.extend_from_slice(payload);
        }
    }
    out
}
