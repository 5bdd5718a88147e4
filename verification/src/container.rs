//! The binary form of a program.
//!
//! A container is a header (magic bytes and a version) followed by sections. A section is a tag
//! byte, a length and a payload. Sections may come in any order, none may come twice, and sections
//! with an unknown tag are skipped.
//!
//! [`encode_program`] says which bytes a program is written as, and [`decode_program`] which program
//! a byte string holds, or why it holds none.

use vstd::prelude::*;
use vstd::string::*;
use vstd::utf8::*;

use crate::host::encode_value_type_tag;
use crate::host;
use crate::program;
use crate::program::{
    get_slice, ByteRange, ConstEntry, FieldNameId, FunctionNameEntry, FunctionOutputNameEntry,
    LabelNameEntry, Program, ProgramView, SpanEntry, StructType, SymbolId, TypeTable, TypeTableView,
    ValueType, VERSION_MAJOR, VERSION_MINOR,
};
use crate::sort::{sorted_copy, Ordered};
use crate::wire;
use crate::wire::Writer;

verus! {

/// The kinds of section.
#[derive(Copy, Clone, Debug, PartialEq, Eq, Structural)]
pub enum SectionTag {
    /// Symbol table.
    Symbols,
    /// Constant pool.
    ConstPool,
    /// Type table.
    Types,
    /// Function table.
    FunctionTable,
    /// Bytecode.
    BytecodeBlobs,
    /// Span tables.
    SpanTables,
    /// Function signatures.
    FunctionSigs,
    /// Host signatures.
    HostSigs,
    /// Program, function and label names.
    Names,
    /// Function output names.
    FunctionOutputNames,
}

/// The tag byte of a kind of section.
pub open spec fn tag_byte(tag: SectionTag) -> u8 {
    match tag {
        SectionTag::Symbols => 1,
        SectionTag::ConstPool => 2,
        SectionTag::Types => 3,
        SectionTag::FunctionTable => 4,
        SectionTag::BytecodeBlobs => 5,
        SectionTag::SpanTables => 6,
        SectionTag::FunctionSigs => 7,
        SectionTag::HostSigs => 8,
        SectionTag::Names => 9,
        SectionTag::FunctionOutputNames => 10,
    }
}

impl SectionTag {
    /// The tag byte.
    pub fn to_u8(self) -> (b: u8)
        ensures
            b == tag_byte(self),
    {
        match self {
            SectionTag::Symbols => 1,
            SectionTag::ConstPool => 2,
            SectionTag::Types => 3,
            SectionTag::FunctionTable => 4,
            SectionTag::BytecodeBlobs => 5,
            SectionTag::SpanTables => 6,
            SectionTag::FunctionSigs => 7,
            SectionTag::HostSigs => 8,
            SectionTag::Names => 9,
            SectionTag::FunctionOutputNames => 10,
        }
    }

    /// The kind of section with the tag byte `v`.
    pub fn from_u8_opt(v: u8) -> (res: Option<Self>)
        ensures
            match res {
                Some(tag) => tag_byte(tag) == v,
                None => v == 0 || v > 10,
            },
    {
        match v {
            1 => Some(SectionTag::Symbols),
            2 => Some(SectionTag::ConstPool),
            3 => Some(SectionTag::Types),
            4 => Some(SectionTag::FunctionTable),
            5 => Some(SectionTag::BytecodeBlobs),
            6 => Some(SectionTag::SpanTables),
            7 => Some(SectionTag::FunctionSigs),
            8 => Some(SectionTag::HostSigs),
            9 => Some(SectionTag::Names),
            10 => Some(SectionTag::FunctionOutputNames),
            _ => None,
        }
    }
}

// ---------------------------------------------------------------------------------------------
// What a program is written as.
// ---------------------------------------------------------------------------------------------

/// The magic bytes: `EXTAPE` and two zero bytes.
pub open spec fn magic() -> Seq<u8> {
    seq![69u8, 88, 84, 65, 80, 69, 0, 0]
}

/// The header of a container.
pub open spec fn header() -> Seq<u8> {
    magic() + wire::le(VERSION_MAJOR as nat, 2) + wire::le(VERSION_MINOR as nat, 2)
}

/// A section.
pub open spec fn section(tag: u8, payload: Seq<u8>) -> Seq<u8> {
    seq![tag] + wire::blob(payload)
}

/// The elements of `data` in the range `r`, or none where that range does not lie in `data`.
pub open spec fn slice_or_empty<T>(data: Seq<T>, r: ByteRange) -> Seq<T> {
    match program::slice_of(data, r) {
        Some(s) => s,
        None => seq![],
    }
}

pub open spec fn symbol_enc(p: ProgramView) -> spec_fn(int) -> Seq<u8> {
    |k: int| wire::blob(slice_or_empty(p.symbol_data, p.symbols[k].bytes))
}

pub open spec fn symbols_payload(p: ProgramView) -> Seq<u8> {
    wire::uleb(p.symbols.len()) + wire::cat(p.symbols.len(), symbol_enc(p))
}

/// The encoding of a constant: a tag byte and the value.
pub open spec fn const_bytes(c: ConstEntry, bytes: Seq<u8>, text: Seq<u8>) -> Seq<u8> {
    match c {
        ConstEntry::Unit => seq![0u8],
        ConstEntry::Bool(v) => seq![1u8] + seq![if v { 1u8 } else { 0u8 }],
        ConstEntry::I64(v) => seq![2u8] + wire::sleb(v as int),
        ConstEntry::U64(v) => seq![3u8] + wire::uleb(v as nat),
        ConstEntry::F64(bits) => seq![4u8] + wire::le(bits as nat, 8),
        ConstEntry::Decimal { mantissa, scale } => seq![5u8] + wire::sleb(mantissa as int)
            + seq![scale],
        ConstEntry::Bytes(r) => seq![6u8] + wire::blob(slice_or_empty(bytes, r)),
        ConstEntry::Str(r) => seq![7u8] + wire::blob(slice_or_empty(text, r)),
    }
}

pub open spec fn const_enc(p: ProgramView) -> spec_fn(int) -> Seq<u8> {
    |k: int| const_bytes(p.const_pool[k], p.const_bytes_data, p.const_str_data)
}

pub open spec fn consts_payload(p: ProgramView) -> Seq<u8> {
    wire::uleb(p.const_pool.len()) + wire::cat(p.const_pool.len(), const_enc(p))
}

pub open spec fn field_name_enc(t: TypeTableView) -> spec_fn(int) -> Seq<u8> {
    |k: int| wire::blob(slice_or_empty(t.name_data, t.field_name_ranges[k]))
}

pub open spec fn field_enc(names: Seq<FieldNameId>, types: Seq<ValueType>) -> spec_fn(int) -> Seq<
    u8,
> {
    |k: int| wire::uleb(names[k].0 as nat) + host::value_type_bytes(types[k])
}

pub open spec fn min_nat(a: nat, b: nat) -> nat {
    if a <= b {
        a
    } else {
        b
    }
}

pub open spec fn struct_bytes(t: TypeTableView, st: StructType) -> Seq<u8> {
    let names = slice_or_empty(t.field_name_ids, st.field_name_ids);
    let types = slice_or_empty(t.field_types, st.field_types);
    wire::uleb(st.field_name_ids.len as nat) + wire::cat(
        min_nat(names.len(), types.len()),
        field_enc(names, types),
    )
}

pub open spec fn struct_enc(t: TypeTableView) -> spec_fn(int) -> Seq<u8> {
    |k: int| struct_bytes(t, t.structs[k])
}

/// A counted list of value types.
pub open spec fn types_list(ts: Seq<ValueType>) -> Seq<u8> {
    wire::uleb(ts.len()) + host::value_types_bytes(ts)
}

pub open spec fn field_names_bytes(t: TypeTableView) -> Seq<u8> {
    wire::uleb(t.field_name_ranges.len()) + wire::cat(t.field_name_ranges.len(), field_name_enc(t))
}

pub open spec fn structs_bytes(t: TypeTableView) -> Seq<u8> {
    wire::uleb(t.structs.len()) + wire::cat(t.structs.len(), struct_enc(t))
}

pub open spec fn types_payload(t: TypeTableView) -> Seq<u8> {
    field_names_bytes(t) + structs_bytes(t) + types_list(t.array_elems)
}

pub open spec fn bytecode_enc(p: ProgramView) -> spec_fn(int) -> Seq<u8> {
    |k: int| wire::blob(slice_or_empty(p.bytecode_data, p.functions[k].bytecode))
}

pub open spec fn bytecode_payload(p: ProgramView) -> Seq<u8> {
    wire::uleb(p.functions.len()) + wire::cat(p.functions.len(), bytecode_enc(p))
}

pub open spec fn span_enc(spans: Seq<SpanEntry>) -> spec_fn(int) -> Seq<u8> {
    |k: int| wire::uleb(spans[k].pc_delta as nat) + wire::uleb(spans[k].span_id as nat)
}

/// A counted list of span entries.
pub open spec fn spans_list(spans: Seq<SpanEntry>) -> Seq<u8> {
    wire::uleb(spans.len()) + wire::cat(spans.len(), span_enc(spans))
}

pub open spec fn span_table_enc(p: ProgramView) -> spec_fn(int) -> Seq<u8> {
    |k: int| spans_list(slice_or_empty(p.spans, p.functions[k].spans))
}

pub open spec fn spans_payload(p: ProgramView) -> Seq<u8> {
    wire::uleb(p.functions.len()) + wire::cat(p.functions.len(), span_table_enc(p))
}

/// The function table entry of function number `k`, whose bytecode and spans have the same number.
pub open spec fn table_enc(p: ProgramView) -> spec_fn(int) -> Seq<u8> {
    |k: int|
        wire::uleb(p.functions[k].arg_count as nat) + wire::uleb(p.functions[k].ret_count as nat)
            + wire::uleb(p.functions[k].reg_count as nat) + wire::uleb(k as nat) + wire::uleb(
            k as nat,
        )
}

pub open spec fn table_payload(p: ProgramView) -> Seq<u8> {
    wire::uleb(p.functions.len()) + wire::cat(p.functions.len(), table_enc(p))
}

pub open spec fn sig_enc(p: ProgramView) -> spec_fn(int) -> Seq<u8> {
    |k: int|
        types_list(slice_or_empty(p.value_types, p.functions[k].arg_types)) + types_list(
            slice_or_empty(p.value_types, p.functions[k].ret_types),
        )
}

pub open spec fn sigs_payload(p: ProgramView) -> Seq<u8> {
    wire::uleb(p.functions.len()) + wire::cat(p.functions.len(), sig_enc(p))
}

pub open spec fn host_sig_enc(p: ProgramView) -> spec_fn(int) -> Seq<u8> {
    |k: int|
        wire::uleb(p.host_sigs[k].symbol.0 as nat) + wire::le(
            p.host_sigs[k].sig_hash.0 as nat,
            8,
        ) + types_list(slice_or_empty(p.value_types, p.host_sigs[k].args)) + types_list(
            slice_or_empty(p.value_types, p.host_sigs[k].rets),
        )
}

pub open spec fn host_sigs_payload(p: ProgramView) -> Seq<u8> {
    wire::uleb(p.host_sigs.len()) + wire::cat(p.host_sigs.len(), host_sig_enc(p))
}

/// The order in which function names are written.
pub open spec fn function_name_le() -> spec_fn(FunctionNameEntry, FunctionNameEntry) -> bool {
    |a: FunctionNameEntry, b: FunctionNameEntry|
        a.func < b.func || (a.func == b.func && a.name.0 <= b.name.0)
}

/// The order in which label names are written.
pub open spec fn label_le() -> spec_fn(LabelNameEntry, LabelNameEntry) -> bool {
    |a: LabelNameEntry, b: LabelNameEntry|
        a.func < b.func || (a.func == b.func && (a.pc < b.pc || (a.pc == b.pc && a.name.0
            <= b.name.0)))
}

/// The order in which output names are written.
pub open spec fn output_le() -> spec_fn(FunctionOutputNameEntry, FunctionOutputNameEntry) -> bool {
    |a: FunctionOutputNameEntry, b: FunctionOutputNameEntry|
        a.func < b.func || (a.func == b.func && (a.ret < b.ret || (a.ret == b.ret && a.name.0
            <= b.name.0)))
}

pub open spec fn function_name_enc(names: Seq<FunctionNameEntry>) -> spec_fn(int) -> Seq<u8> {
    |k: int| wire::uleb(names[k].func as nat) + wire::uleb(names[k].name.0 as nat)
}

pub open spec fn label_enc(names: Seq<LabelNameEntry>) -> spec_fn(int) -> Seq<u8> {
    |k: int|
        wire::uleb(names[k].func as nat) + wire::uleb(names[k].pc as nat) + wire::uleb(
            names[k].name.0 as nat,
        )
}

pub open spec fn output_enc(names: Seq<FunctionOutputNameEntry>) -> spec_fn(int) -> Seq<u8> {
    |k: int|
        wire::uleb(names[k].func as nat) + wire::uleb(names[k].ret as nat) + wire::uleb(
            names[k].name.0 as nat,
        )
}

pub open spec fn program_name_bytes(name: Option<SymbolId>) -> Seq<u8> {
    match name {
        None => seq![0u8],
        Some(id) => seq![1u8] + wire::uleb(id.0 as nat),
    }
}

pub open spec fn names_payload(p: ProgramView) -> Seq<u8> {
    let funcs = p.function_names.sort_by(function_name_le());
    let labels = p.labels.sort_by(label_le());
    program_name_bytes(p.program_name) + (wire::uleb(funcs.len()) + wire::cat(
        funcs.len(),
        function_name_enc(funcs),
    )) + (wire::uleb(labels.len()) + wire::cat(labels.len(), label_enc(labels)))
}

pub open spec fn outputs_payload(p: ProgramView) -> Seq<u8> {
    let names = p.function_output_names.sort_by(output_le());
    wire::uleb(names.len()) + wire::cat(names.len(), output_enc(names))
}

/// Whether a program has a name, or names for functions or labels.
pub open spec fn has_names(p: ProgramView) -> bool {
    p.program_name is Some || p.function_names.len() > 0 || p.labels.len() > 0
}

/// The mandatory sections, in the order in which they are written.
pub open spec fn mandatory_sections(p: ProgramView) -> Seq<u8> {
    section(1, symbols_payload(p)) + section(2, consts_payload(p)) + section(
        3,
        types_payload(p.types),
    ) + section(5, bytecode_payload(p)) + section(6, spans_payload(p)) + section(4, table_payload(p))
        + section(7, sigs_payload(p)) + section(8, host_sigs_payload(p))
}

/// The bytes that a program is written as.
pub open spec fn encode_program(p: ProgramView) -> Seq<u8> {
    header() + mandatory_sections(p) + (if has_names(p) {
        section(9, names_payload(p))
    } else {
        seq![]
    }) + (if p.function_output_names.len() > 0 {
        section(10, outputs_payload(p))
    } else {
        seq![]
    })
}

// ---------------------------------------------------------------------------------------------
// Writing.
// ---------------------------------------------------------------------------------------------

/// Writes a section.
pub fn write_section(w: &mut Writer, tag: SectionTag, payload: &[u8])
    ensures
        final(w)@ == old(w)@ + section(tag_byte(tag), payload@),
{
    w.write_u8(tag.to_u8());
    w.write_blob(payload);
    assert(w@ =~= old(w)@ + section(tag_byte(tag), payload@));
}

/// Writes a value type.
pub fn encode_value_type(w: &mut Writer, t: ValueType)
    ensures
        final(w)@ == old(w)@ + host::value_type_bytes(t),
{
    w.write_u8(encode_value_type_tag(t));
    if let ValueType::Obj(host_type) = t {
        w.write_u64_le(host_type.0);
    }
    assert(w@ =~= old(w)@ + host::value_type_bytes(t));
}

fn encode_value_types(w: &mut Writer, ts: &[ValueType])
    ensures
        final(w)@ == old(w)@ + types_list(ts@),
{
    w.write_uleb128_u64(ts.len() as u64);
    let ghost start = w@;
    let mut i: usize = 0;
    assert(start + wire::cat(0, host::value_type_enc(ts@)) =~= start);
    while i < ts.len()
        invariant
            i <= ts.len(),
            w@ == start + wire::cat(i as nat, host::value_type_enc(ts@)),
        decreases ts.len() - i,
    {
        encode_value_type(w, ts[i]);
        i = i + 1;
        assert(w@ =~= start + wire::cat(i as nat, host::value_type_enc(ts@)));
    }
    assert(w@ =~= old(w)@ + types_list(ts@));
}

fn slice_or_none<T>(data: &[T], r: ByteRange) -> (s: &[T])
    ensures
        s@ == slice_or_empty(data@, r),
{
    match get_slice(data, r) {
        Ok(s) => s,
        Err(_) => {
            let none = vstd::slice::slice_subrange(data, 0, 0);
            assert(none@ =~= Seq::<T>::empty());
            none
        },
    }
}

/// Writes a constant.
pub fn encode_const(w: &mut Writer, c: &ConstEntry, const_bytes: &[u8], const_str: &[u8])
    ensures
        final(w)@ == old(w)@ + self::const_bytes(*c, const_bytes@, const_str@),
{
    match c {
        ConstEntry::Unit => w.write_u8(0),
        ConstEntry::Bool(v) => {
            w.write_u8(1);
            w.write_u8(if *v { 1 } else { 0 });
        },
        ConstEntry::I64(v) => {
            w.write_u8(2);
            w.write_sleb128_i64(*v);
        },
        ConstEntry::U64(v) => {
            w.write_u8(3);
            w.write_uleb128_u64(*v);
        },
        ConstEntry::F64(bits) => {
            w.write_u8(4);
            w.write_u64_le(*bits);
        },
        ConstEntry::Decimal { mantissa, scale } => {
            w.write_u8(5);
            w.write_sleb128_i64(*mantissa);
            w.write_u8(*scale);
        },
        ConstEntry::Bytes(r) => {
            w.write_u8(6);
            w.write_blob(slice_or_none(const_bytes, *r));
        },
        ConstEntry::Str(r) => {
            w.write_u8(7);
            w.write_blob(slice_or_none(const_str, *r));
        },
    }
    assert(w@ =~= old(w)@ + self::const_bytes(*c, const_bytes@, const_str@));
}

/// Writes a type table.
pub fn encode_types(w: &mut Writer, t: &TypeTable)
    ensures
        final(w)@ == old(w)@ + types_payload(t@),
{
    w.write_uleb128_u64(t.field_name_ranges.len() as u64);
    let ghost start = w@;
    let mut i: usize = 0;
    assert(start + wire::cat(0, field_name_enc(t@)) =~= start);
    while i < t.field_name_ranges.len()
        invariant
            i <= t.field_name_ranges.len(),
            w@ == start + wire::cat(i as nat, field_name_enc(t@)),
        decreases t.field_name_ranges.len() - i,
    {
        w.write_blob(slice_or_none(t.name_data.as_slice(), t.field_name_ranges[i]));
        i = i + 1;
        assert(w@ =~= start + wire::cat(i as nat, field_name_enc(t@)));
    }
    assert(w@ =~= old(w)@ + field_names_bytes(t@));
    let ghost mid = w@;
    w.write_uleb128_u64(t.structs.len() as u64);
    let ghost start = w@;
    let mut i: usize = 0;
    assert(start + wire::cat(0, struct_enc(t@)) =~= start);
    while i < t.structs.len()
        invariant
            i <= t.structs.len(),
            w@ == start + wire::cat(i as nat, struct_enc(t@)),
        decreases t.structs.len() - i,
    {
        encode_struct(w, t, t.structs[i]);
        i = i + 1;
        assert(w@ =~= start + wire::cat(i as nat, struct_enc(t@)));
    }
    assert(w@ =~= mid + structs_bytes(t@));
    encode_value_types(w, t.array_elems.as_slice());
    assert(w@ =~= old(w)@ + types_payload(t@));
}

fn encode_struct(w: &mut Writer, t: &TypeTable, st: StructType)
    ensures
        final(w)@ == old(w)@ + struct_bytes(t@, st),
{
    w.write_uleb128_u64(st.field_name_ids.len as u64);
    let names = slice_or_none(t.field_name_ids.as_slice(), st.field_name_ids);
    let types = slice_or_none(t.field_types.as_slice(), st.field_types);
    let n: usize = if names.len() <= types.len() {
        names.len()
    } else {
        types.len()
    };
    let ghost start = w@;
    let mut i: usize = 0;
    assert(start + wire::cat(0, field_enc(names@, types@)) =~= start);
    while i < n
        invariant
            i <= n,
            n == min_nat(names@.len(), types@.len()),
            w@ == start + wire::cat(i as nat, field_enc(names@, types@)),
        decreases n - i,
    {
        w.write_uleb128_u64(names[i].0 as u64);
        encode_value_type(w, types[i]);
        i = i + 1;
        assert(w@ =~= start + wire::cat(i as nat, field_enc(names@, types@)));
    }
    assert(w@ =~= old(w)@ + struct_bytes(t@, st));
}

fn encode_symbols(p: &Program) -> (w: Writer)
    ensures
        w@ == symbols_payload(p@),
{
    let mut w = Writer::new();
    w.write_uleb128_u64(p.symbols.len() as u64);
    let ghost start = w@;
    let mut i: usize = 0;
    assert(start + wire::cat(0, symbol_enc(p@)) =~= start);
    while i < p.symbols.len()
        invariant
            i <= p.symbols.len(),
            w@ == start + wire::cat(i as nat, symbol_enc(p@)),
        decreases p.symbols.len() - i,
    {
        w.write_blob(slice_or_none(p.symbol_data.as_str().as_bytes(), p.symbols[i].bytes));
        i = i + 1;
        assert(w@ =~= start + wire::cat(i as nat, symbol_enc(p@)));
    }
    assert(w@ =~= symbols_payload(p@));
    w
}

fn encode_const_pool(p: &Program) -> (w: Writer)
    ensures
        w@ == consts_payload(p@),
{
    let mut w = Writer::new();
    w.write_uleb128_u64(p.const_pool.len() as u64);
    let ghost start = w@;
    let mut i: usize = 0;
    assert(start + wire::cat(0, const_enc(p@)) =~= start);
    while i < p.const_pool.len()
        invariant
            i <= p.const_pool.len(),
            w@ == start + wire::cat(i as nat, const_enc(p@)),
        decreases p.const_pool.len() - i,
    {
        encode_const(
            &mut w,
            &p.const_pool[i],
            p.const_bytes_data.as_slice(),
            p.const_str_data.as_str().as_bytes(),
        );
        i = i + 1;
        assert(w@ =~= start + wire::cat(i as nat, const_enc(p@)));
    }
    assert(w@ =~= consts_payload(p@));
    w
}

fn encode_bytecode(p: &Program) -> (w: Writer)
    ensures
        w@ == bytecode_payload(p@),
{
    let mut w = Writer::new();
    w.write_uleb128_u64(p.functions.len() as u64);
    let ghost start = w@;
    let mut i: usize = 0;
    assert(start + wire::cat(0, bytecode_enc(p@)) =~= start);
    while i < p.functions.len()
        invariant
            i <= p.functions.len(),
            w@ == start + wire::cat(i as nat, bytecode_enc(p@)),
        decreases p.functions.len() - i,
    {
        w.write_blob(slice_or_none(p.bytecode_data.as_slice(), p.functions[i].bytecode));
        i = i + 1;
        assert(w@ =~= start + wire::cat(i as nat, bytecode_enc(p@)));
    }
    assert(w@ =~= bytecode_payload(p@));
    w
}

fn encode_spans(w: &mut Writer, spans: &[SpanEntry])
    ensures
        final(w)@ == old(w)@ + spans_list(spans@),
{
    w.write_uleb128_u64(spans.len() as u64);
    let ghost start = w@;
    let mut i: usize = 0;
    assert(start + wire::cat(0, span_enc(spans@)) =~= start);
    while i < spans.len()
        invariant
            i <= spans.len(),
            w@ == start + wire::cat(i as nat, span_enc(spans@)),
        decreases spans.len() - i,
    {
        w.write_uleb128_u64(spans[i].pc_delta);
        w.write_uleb128_u64(spans[i].span_id);
        i = i + 1;
        assert(w@ =~= start + wire::cat(i as nat, span_enc(spans@)));
    }
    assert(w@ =~= old(w)@ + spans_list(spans@));
}

fn encode_span_tables(p: &Program) -> (w: Writer)
    ensures
        w@ == spans_payload(p@),
{
    let mut w = Writer::new();
    w.write_uleb128_u64(p.functions.len() as u64);
    let ghost start = w@;
    let mut i: usize = 0;
    assert(start + wire::cat(0, span_table_enc(p@)) =~= start);
    while i < p.functions.len()
        invariant
            i <= p.functions.len(),
            w@ == start + wire::cat(i as nat, span_table_enc(p@)),
        decreases p.functions.len() - i,
    {
        encode_spans(&mut w, slice_or_none(p.spans.as_slice(), p.functions[i].spans));
        i = i + 1;
        assert(w@ =~= start + wire::cat(i as nat, span_table_enc(p@)));
    }
    assert(w@ =~= spans_payload(p@));
    w
}

fn encode_function_table(p: &Program) -> (w: Writer)
    ensures
        w@ == table_payload(p@),
{
    let mut w = Writer::new();
    w.write_uleb128_u64(p.functions.len() as u64);
    let ghost start = w@;
    let mut i: usize = 0;
    assert(start + wire::cat(0, table_enc(p@)) =~= start);
    while i < p.functions.len()
        invariant
            i <= p.functions.len(),
            w@ == start + wire::cat(i as nat, table_enc(p@)),
        decreases p.functions.len() - i,
    {
        let f = &p.functions[i];
        w.write_uleb128_u64(f.arg_count as u64);
        w.write_uleb128_u64(f.ret_count as u64);
        w.write_uleb128_u64(f.reg_count as u64);
        w.write_uleb128_u64(i as u64);
        w.write_uleb128_u64(i as u64);
        i = i + 1;
        assert(w@ =~= start + wire::cat(i as nat, table_enc(p@)));
    }
    assert(w@ =~= table_payload(p@));
    w
}

fn encode_function_sigs(p: &Program) -> (w: Writer)
    ensures
        w@ == sigs_payload(p@),
{
    let mut w = Writer::new();
    w.write_uleb128_u64(p.functions.len() as u64);
    let ghost start = w@;
    let mut i: usize = 0;
    assert(start + wire::cat(0, sig_enc(p@)) =~= start);
    while i < p.functions.len()
        invariant
            i <= p.functions.len(),
            w@ == start + wire::cat(i as nat, sig_enc(p@)),
        decreases p.functions.len() - i,
    {
        let f = &p.functions[i];
        encode_value_types(&mut w, slice_or_none(p.value_types.as_slice(), f.arg_types));
        encode_value_types(&mut w, slice_or_none(p.value_types.as_slice(), f.ret_types));
        i = i + 1;
        assert(w@ =~= start + wire::cat(i as nat, sig_enc(p@)));
    }
    assert(w@ =~= sigs_payload(p@));
    w
}

fn encode_host_sigs(p: &Program) -> (w: Writer)
    ensures
        w@ == host_sigs_payload(p@),
{
    let mut w = Writer::new();
    w.write_uleb128_u64(p.host_sigs.len() as u64);
    let ghost start = w@;
    let mut i: usize = 0;
    assert(start + wire::cat(0, host_sig_enc(p@)) =~= start);
    while i < p.host_sigs.len()
        invariant
            i <= p.host_sigs.len(),
            w@ == start + wire::cat(i as nat, host_sig_enc(p@)),
        decreases p.host_sigs.len() - i,
    {
        let hs = &p.host_sigs[i];
        w.write_uleb128_u64(hs.symbol.0 as u64);
        w.write_u64_le(hs.sig_hash.0);
        encode_value_types(&mut w, slice_or_none(p.value_types.as_slice(), hs.args));
        encode_value_types(&mut w, slice_or_none(p.value_types.as_slice(), hs.rets));
        i = i + 1;
        assert(w@ =~= start + wire::cat(i as nat, host_sig_enc(p@)));
    }
    assert(w@ =~= host_sigs_payload(p@));
    w
}

impl Ordered for FunctionNameEntry {
    open spec fn order() -> spec_fn(Self, Self) -> bool {
        function_name_le()
    }

    proof fn order_is_total() {
    }

    fn is_before(a: Self, b: Self) -> (res: bool) {
        a.func < b.func || (a.func == b.func && a.name.0 <= b.name.0)
    }
}

impl Ordered for LabelNameEntry {
    open spec fn order() -> spec_fn(Self, Self) -> bool {
        label_le()
    }

    proof fn order_is_total() {
    }

    fn is_before(a: Self, b: Self) -> (res: bool) {
        a.func < b.func || (a.func == b.func && (a.pc < b.pc || (a.pc == b.pc && a.name.0
            <= b.name.0)))
    }
}

impl Ordered for FunctionOutputNameEntry {
    open spec fn order() -> spec_fn(Self, Self) -> bool {
        output_le()
    }

    proof fn order_is_total() {
    }

    fn is_before(a: Self, b: Self) -> (res: bool) {
        a.func < b.func || (a.func == b.func && (a.ret < b.ret || (a.ret == b.ret && a.name.0
            <= b.name.0)))
    }
}

fn encode_names(p: &Program) -> (w: Writer)
    ensures
        w@ == names_payload(p@),
{
    let mut w = Writer::new();
    match p.program_name {
        None => w.write_u8(0),
        Some(id) => {
            w.write_u8(1);
            w.write_uleb128_u64(id.0 as u64);
        },
    }
    assert(w@ =~= program_name_bytes(p@.program_name));
    let ghost mid = w@;
    let names = sorted_copy(&p.function_names);
    w.write_uleb128_u64(names.len() as u64);
    let ghost start = w@;
    let mut i: usize = 0;
    assert(start + wire::cat(0, function_name_enc(names@)) =~= start);
    while i < names.len()
        invariant
            i <= names.len(),
            w@ == start + wire::cat(i as nat, function_name_enc(names@)),
        decreases names.len() - i,
    {
        w.write_uleb128_u64(names[i].func as u64);
        w.write_uleb128_u64(names[i].name.0 as u64);
        i = i + 1;
        assert(w@ =~= start + wire::cat(i as nat, function_name_enc(names@)));
    }
    assert(w@ =~= mid + (wire::uleb(names@.len()) + wire::cat(
        names@.len(),
        function_name_enc(names@),
    )));
    let ghost mid = w@;
    let labels = sorted_copy(&p.labels);
    w.write_uleb128_u64(labels.len() as u64);
    let ghost start = w@;
    let mut i: usize = 0;
    assert(start + wire::cat(0, label_enc(labels@)) =~= start);
    while i < labels.len()
        invariant
            i <= labels.len(),
            w@ == start + wire::cat(i as nat, label_enc(labels@)),
        decreases labels.len() - i,
    {
        w.write_uleb128_u64(labels[i].func as u64);
        w.write_uleb128_u64(labels[i].pc as u64);
        w.write_uleb128_u64(labels[i].name.0 as u64);
        i = i + 1;
        assert(w@ =~= start + wire::cat(i as nat, label_enc(labels@)));
    }
    assert(w@ =~= mid + (wire::uleb(labels@.len()) + wire::cat(labels@.len(), label_enc(labels@))));
    w
}

fn encode_output_names(p: &Program) -> (w: Writer)
    ensures
        w@ == outputs_payload(p@),
{
    let mut w = Writer::new();
    let names = sorted_copy(&p.function_output_names);
    w.write_uleb128_u64(names.len() as u64);
    let ghost start = w@;
    let mut i: usize = 0;
    assert(start + wire::cat(0, output_enc(names@)) =~= start);
    while i < names.len()
        invariant
            i <= names.len(),
            w@ == start + wire::cat(i as nat, output_enc(names@)),
        decreases names.len() - i,
    {
        w.write_uleb128_u64(names[i].func as u64);
        w.write_uleb128_u64(names[i].ret as u64);
        w.write_uleb128_u64(names[i].name.0 as u64);
        i = i + 1;
        assert(w@ =~= start + wire::cat(i as nat, output_enc(names@)));
    }
    assert(w@ =~= outputs_payload(p@));
    w
}

/// The magic bytes.
pub fn magic_bytes() -> (m: Vec<u8>)
    ensures
        m@ == magic(),
{
    let m: Vec<u8> = vec![69, 88, 84, 65, 80, 69, 0, 0];
    assert(m@ =~= magic());
    m
}

impl Program {
    /// Writes this program in binary form.
    pub fn encode(&self) -> (bytes: Vec<u8>)
        ensures
            bytes@ == encode_program(self@),
    {
        let mut w = Writer::new();
        w.write_bytes(magic_bytes().as_slice());
        w.write_u16_le(VERSION_MAJOR);
        w.write_u16_le(VERSION_MINOR);
        assert(w@ =~= header());
        write_section(&mut w, SectionTag::Symbols, encode_symbols(self).as_slice());
        write_section(&mut w, SectionTag::ConstPool, encode_const_pool(self).as_slice());
        let mut types = Writer::new();
        encode_types(&mut types, &self.types);
        assert(types@ =~= types_payload(self@.types));
        write_section(&mut w, SectionTag::Types, types.as_slice());
        write_section(&mut w, SectionTag::BytecodeBlobs, encode_bytecode(self).as_slice());
        write_section(&mut w, SectionTag::SpanTables, encode_span_tables(self).as_slice());
        write_section(&mut w, SectionTag::FunctionTable, encode_function_table(self).as_slice());
        write_section(&mut w, SectionTag::FunctionSigs, encode_function_sigs(self).as_slice());
        write_section(&mut w, SectionTag::HostSigs, encode_host_sigs(self).as_slice());
        assert(w@ =~= header() + mandatory_sections(self@));
        if self.program_name.is_some() || !self.function_names.is_empty() || !self.labels.is_empty()
        {
            write_section(&mut w, SectionTag::Names, encode_names(self).as_slice());
        }
        if !self.function_output_names.is_empty() {
            write_section(
                &mut w,
                SectionTag::FunctionOutputNames,
                encode_output_names(self).as_slice(),
            );
        }
        assert(w@ =~= encode_program(self@));
        w.into_vec()
    }
}

} // verus!
