//! Writing a program and reading it back.

use vstd::prelude::*;
use vstd::utf8::*;

use crate::container;
use crate::decode;
use crate::decode::{
    BlobItem, ConstItem, FieldItem, FieldState, FunctionNameItem, FunctionTableEntry, HostSigItem,
    LabelItem, NameItem, NamesModel, OutputItem, Pieces, SectionsView, SigItem, SigModel, SpanItem,
    SpanTableItem, StructItem, StructState, SymbolItem, TableArena, TableItem, TypeItem, TypesModel,
};
use crate::host;
use crate::pack;
use crate::pack::{
    ConstArena, ConstModel, Contents, FunctionArena, FunctionModel, HostSigModel, StructModel,
    SymbolArena, TypeArena,
};
use crate::program;
use crate::program::{
    ByteRange, ConstEntry, Function, FunctionNameEntry, FunctionOutputNameEntry, LabelNameEntry,
    ProgramView, SpanEntry, StructType, TypeTableView, ValueType,
};
use crate::sort::Ordered;
use crate::wire;
use crate::wire::{DecodeError, Item};

verus! {

/// A range keeps its elements when the arena grows.
proof fn lemma_slice_grows<T>(data: Seq<T>, more: Seq<T>, r: ByteRange)
    requires
        program::slice_of(data, r) is Some,
    ensures
        program::slice_of(data + more, r) == program::slice_of(data, r),
{
    assert((data + more).subrange(r.offset as int, r.offset + r.len) =~= data.subrange(
        r.offset as int,
        r.offset + r.len,
    ));
}

/// A piece is found where it was appended.
proof fn lemma_slice_appended<T>(data: Seq<T>, piece: Seq<T>)
    requires
        data.len() + piece.len() <= u32::MAX,
    ensures
        program::slice_of(data + piece, pack::next_range(data.len(), piece.len())) == Some(piece),
{
    assert((data + piece).subrange(data.len() as int, (data.len() + piece.len()) as int) =~= piece);
}

/// A piece is found where it was put when another piece follows it.
proof fn lemma_slice_middle<T>(data: Seq<T>, piece: Seq<T>, more: Seq<T>)
    requires
        data.len() + piece.len() <= u32::MAX,
    ensures
        program::slice_of(data + piece + more, pack::next_range(data.len(), piece.len())) == Some(
            piece,
        ),
{
    lemma_slice_appended(data, piece);
    lemma_slice_grows(data + piece, more, pack::next_range(data.len(), piece.len()));
}

// ---------------------------------------------------------------------------------------------
// Symbols.
// ---------------------------------------------------------------------------------------------

/// A packed symbol is found in the table.
pub proof fn lemma_symbol_slice(symbols: Seq<Seq<char>>, k: int)
    requires
        0 <= k < symbols.len(),
        pack::pack_symbols(symbols).data.len() <= u32::MAX,
    ensures
        pack::pack_symbols(symbols).entries.len() == symbols.len(),
        program::slice_of(
            pack::pack_symbols(symbols).data,
            pack::pack_symbols(symbols).entries[k].bytes,
        ) == Some(encode_utf8(symbols[k])),
    decreases symbols.len(),
{
    lemma_symbol_count(symbols);
    let shorter = symbols.drop_last();
    let a = pack::pack_symbols(shorter);
    let text = encode_utf8(symbols.last());
    lemma_symbol_count(shorter);
    if k == symbols.len() - 1 {
        lemma_slice_appended(a.data, text);
    } else {
        lemma_symbol_slice(shorter, k);
        lemma_slice_grows(a.data, text, a.entries[k].bytes);
    }
}

proof fn lemma_symbol_count(symbols: Seq<Seq<char>>)
    ensures
        pack::pack_symbols(symbols).entries.len() == symbols.len(),
    decreases symbols.len(),
{
    if symbols.len() > 0 {
        lemma_symbol_count(symbols.drop_last());
    }
}

/// A shorter list of symbols needs no more room.
proof fn lemma_symbol_prefix(symbols: Seq<Seq<char>>, k: int)
    requires
        0 <= k <= symbols.len(),
    ensures
        pack::pack_symbols(symbols.take(k)).data.len() <= pack::pack_symbols(symbols).data.len(),
    decreases symbols.len() - k,
{
    if k < symbols.len() {
        lemma_symbol_prefix(symbols, k + 1);
        assert(symbols.take(k + 1).drop_last() =~= symbols.take(k));
    } else {
        assert(symbols.take(k) =~= symbols);
    }
}

/// The symbol section reads back.
proof fn lemma_symbols_roundtrip(c: Contents, p: ProgramView)
    requires
        p == c.pack(),
        p.symbol_data.len() <= u32::MAX,
        container::symbols_payload(p).len() <= usize::MAX,
    ensures
        decode::value_of(
            wire::list_at::<SymbolItem>(container::symbols_payload(p), 0, decode::no_symbols()),
        ) == Ok::<SymbolArena, DecodeError>(pack::pack_symbols(c.symbols)),
{
    let s = container::symbols_payload(p);
    let n = c.symbols.len();
    let enc = container::symbol_enc(p);
    let st = |k: int| pack::pack_symbols(c.symbols.take(k));
    lemma_symbol_count(c.symbols);
    assert forall|k: int| 0 <= k < n implies #[trigger] enc(k) == wire::blob(
        encode_utf8(c.symbols[k]),
    ) by {
        lemma_symbol_slice(c.symbols, k);
    }
    wire::lemma_cat_len(n, enc);
    assert forall|k: int, j: int| 0 <= k < n && #[trigger] wire::at(s, j, enc(k)) implies
        SymbolItem::item_at(s, j, st(k)) == Ok::<(SymbolArena, int), DecodeError>(
        (st(k + 1), j + enc(k).len()),
    ) by {
        let text = encode_utf8(c.symbols[k]);
        assert(enc(k) == wire::blob(text));
        wire::lemma_blob_roundtrip(s, j, text);
        encode_utf8_valid_utf8(c.symbols[k]);
        lemma_symbol_prefix(c.symbols, k + 1);
        assert(c.symbols.take(k + 1).drop_last() =~= c.symbols.take(k));
    }
    assert(s.subrange(0, s.len() as int) =~= s);
    wire::lemma_list_roundtrip::<SymbolItem>(s, 0, n, enc, st);
    assert(c.symbols.take(0) =~= Seq::<Seq<char>>::empty());
    assert(c.symbols.take(n as int) =~= c.symbols);
}

// ---------------------------------------------------------------------------------------------
// Constants.
// ---------------------------------------------------------------------------------------------

/// Only constants without an arena are plain.
pub open spec fn consts_valid(consts: Seq<ConstModel>) -> bool {
    forall|k: int|
        0 <= k < consts.len() ==> ((#[trigger] consts[k]) matches ConstModel::Plain(e) ==> !(
        e is Bytes) && !(e is Str))
}

proof fn lemma_const_count(consts: Seq<ConstModel>)
    ensures
        pack::pack_consts(consts).entries.len() == consts.len(),
    decreases consts.len(),
{
    if consts.len() > 0 {
        lemma_const_count(consts.drop_last());
    }
}

proof fn lemma_const_prefix(consts: Seq<ConstModel>, k: int)
    requires
        0 <= k <= consts.len(),
    ensures
        pack::pack_consts(consts.take(k)).bytes.len() <= pack::pack_consts(consts).bytes.len(),
        pack::pack_consts(consts.take(k)).text.len() <= pack::pack_consts(consts).text.len(),
    decreases consts.len() - k,
{
    if k < consts.len() {
        lemma_const_prefix(consts, k + 1);
        assert(consts.take(k + 1).drop_last() =~= consts.take(k));
    } else {
        assert(consts.take(k) =~= consts);
    }
}

/// A packed constant is found in the pool.
pub proof fn lemma_const_slice(consts: Seq<ConstModel>, k: int)
    requires
        0 <= k < consts.len(),
        pack::pack_consts(consts).bytes.len() <= u32::MAX,
        pack::pack_consts(consts).text.len() <= u32::MAX,
    ensures
        pack::pack_consts(consts).entries.len() == consts.len(),
        ({
            let a = pack::pack_consts(consts);
            match consts[k] {
                ConstModel::Plain(e) => a.entries[k] == e,
                ConstModel::Bytes(b) => a.entries[k] matches ConstEntry::Bytes(r)
                    && program::slice_of(a.bytes, r) == Some(b),
                ConstModel::Str(t) => a.entries[k] matches ConstEntry::Str(r) && program::slice_of(
                    a.text,
                    r,
                ) == Some(encode_utf8(t)),
            }
        }),
    decreases consts.len(),
{
    lemma_const_count(consts);
    let shorter = consts.drop_last();
    let a = pack::pack_consts(shorter);
    lemma_const_count(shorter);
    let last = consts.last();
    if k == consts.len() - 1 {
        match last {
            ConstModel::Plain(e) => {},
            ConstModel::Bytes(b) => lemma_slice_appended(a.bytes, b),
            ConstModel::Str(t) => lemma_slice_appended(a.text, encode_utf8(t)),
        }
    } else {
        lemma_const_slice(shorter, k);
        match (a.entries[k], last) {
            (ConstEntry::Bytes(r), ConstModel::Bytes(b)) => {
                if consts[k] is Bytes {
                    lemma_slice_grows(a.bytes, b, r);
                }
            },
            (ConstEntry::Str(r), ConstModel::Str(t)) => {
                if consts[k] is Str {
                    lemma_slice_grows(a.text, encode_utf8(t), r);
                }
            },
            _ => {},
        }
    }
}

/// A constant reads back.
proof fn lemma_const_roundtrip(
    s: Seq<u8>,
    j: int,
    c: ConstModel,
    e: ConstEntry,
    bytes: Seq<u8>,
    text: Seq<u8>,
    st: ConstArena,
)
    requires
        wire::at(s, j, container::const_bytes(e, bytes, text)),
        match c {
            ConstModel::Plain(pe) => e == pe && !(e is Bytes) && !(e is Str),
            ConstModel::Bytes(b) => e matches ConstEntry::Bytes(r) && program::slice_of(bytes, r)
                == Some(b) && st.bytes.len() <= u32::MAX,
            ConstModel::Str(t) => e matches ConstEntry::Str(r) && program::slice_of(text, r) == Some(
                encode_utf8(t),
            ) && st.text.len() <= u32::MAX,
        },
    ensures
        ConstItem::item_at(s, j, st) == Ok::<(ConstArena, int), DecodeError>(
            (st.plus(c), j + container::const_bytes(e, bytes, text).len()),
        ),
{
    let b = container::const_bytes(e, bytes, text);
    assert(s[j] == s.subrange(j, j + b.len())[0]);
    match e {
        ConstEntry::Unit => {},
        ConstEntry::Bool(v) => {
            assert(s[j + 1] == s.subrange(j, j + b.len())[1]);
        },
        ConstEntry::I64(v) => {
            wire::lemma_at_concat(s, j, seq![2u8], wire::sleb(v as int));
            wire::lemma_sleb_roundtrip(s, j + 1, v);
        },
        ConstEntry::U64(v) => {
            wire::lemma_at_concat(s, j, seq![3u8], wire::uleb(v as nat));
            wire::lemma_uleb_roundtrip(s, j + 1, v);
        },
        ConstEntry::F64(bits) => {
            wire::lemma_at_concat(s, j, seq![4u8], wire::le(bits as nat, 8));
            wire::lemma_le64_roundtrip(s, j + 1, bits);
        },
        ConstEntry::Decimal { mantissa, scale } => {
            let m = wire::sleb(mantissa as int);
            wire::lemma_at_concat(s, j, seq![5u8] + m, seq![scale]);
            wire::lemma_at_concat(s, j, seq![5u8], m);
            wire::lemma_sleb_roundtrip(s, j + 1, mantissa);
            let k = j + 1 + m.len();
            assert(s[k] == s.subrange(k, k + 1)[0]);
        },
        ConstEntry::Bytes(r) => {
            let run = container::slice_or_empty(bytes, r);
            wire::lemma_at_concat(s, j, seq![6u8], wire::blob(run));
            wire::lemma_blob_roundtrip(s, j + 1, run);
        },
        ConstEntry::Str(r) => {
            let run = container::slice_or_empty(text, r);
            wire::lemma_at_concat(s, j, seq![7u8], wire::blob(run));
            wire::lemma_blob_roundtrip(s, j + 1, run);
            if let ConstModel::Str(t) = c {
                encode_utf8_valid_utf8(t);
            }
        },
    }
}

/// The constant section reads back.
proof fn lemma_consts_roundtrip(c: Contents, p: ProgramView)
    requires
        p == c.pack(),
        consts_valid(c.consts),
        p.const_bytes_data.len() <= u32::MAX,
        p.const_str_data.len() <= u32::MAX,
        container::consts_payload(p).len() <= usize::MAX,
    ensures
        decode::value_of(
            wire::list_at::<ConstItem>(container::consts_payload(p), 0, decode::no_consts()),
        ) == Ok::<ConstArena, DecodeError>(pack::pack_consts(c.consts)),
{
    let s = container::consts_payload(p);
    let n = c.consts.len();
    let enc = container::const_enc(p);
    let st = |k: int| pack::pack_consts(c.consts.take(k));
    lemma_const_count(c.consts);
    wire::lemma_cat_len(n, enc);
    assert forall|k: int, j: int| 0 <= k < n && #[trigger] wire::at(s, j, enc(k)) implies
        ConstItem::item_at(s, j, st(k)) == Ok::<(ConstArena, int), DecodeError>(
        (st(k + 1), j + enc(k).len()),
    ) by {
        lemma_const_slice(c.consts, k);
        lemma_const_prefix(c.consts, k);
        assert(c.consts.take(k + 1).drop_last() =~= c.consts.take(k));
        lemma_const_roundtrip(
            s,
            j,
            c.consts[k],
            p.const_pool[k],
            p.const_bytes_data,
            p.const_str_data,
            st(k),
        );
    }
    assert(s.subrange(0, s.len() as int) =~= s);
    wire::lemma_list_roundtrip::<ConstItem>(s, 0, n, enc, st);
    assert(c.consts.take(0) =~= Seq::<ConstModel>::empty());
    assert(c.consts.take(n as int) =~= c.consts);
}

// ---------------------------------------------------------------------------------------------
// Value types and signatures.
// ---------------------------------------------------------------------------------------------

/// A value type reads back.
pub proof fn lemma_value_type_roundtrip(s: Seq<u8>, i: int, t: ValueType)
    requires
        wire::at(s, i, host::value_type_bytes(t)),
    ensures
        decode::value_type_at(s, i) == Ok::<(ValueType, int), DecodeError>(
            (t, i + host::value_type_bytes(t).len()),
        ),
{
    let b = host::value_type_bytes(t);
    assert(s[i] == s.subrange(i, i + b.len())[0]);
    if let ValueType::Obj(h) = t {
        wire::lemma_at_concat(s, i, seq![host::value_type_tag(t)], wire::le(h.0 as nat, 8));
        wire::lemma_le64_roundtrip(s, i + 1, h.0);
    }
}

/// A list of value types reads back.
proof fn lemma_types_list_roundtrip(s: Seq<u8>, i: int, ts: Seq<ValueType>)
    requires
        ts.len() <= usize::MAX,
        wire::at(s, i, container::types_list(ts)),
    ensures
        wire::list_at::<TypeItem>(s, i, seq![]) == Ok::<(Seq<ValueType>, int), DecodeError>(
            (ts, i + container::types_list(ts).len()),
        ),
{
    let enc = host::value_type_enc(ts);
    let st = |k: int| ts.take(k);
    assert forall|k: int, j: int| 0 <= k < ts.len() && #[trigger] wire::at(s, j, enc(k)) implies
        TypeItem::item_at(s, j, st(k)) == Ok::<(Seq<ValueType>, int), DecodeError>(
        (st(k + 1), j + enc(k).len()),
    ) by {
        lemma_value_type_roundtrip(s, j, ts[k]);
        assert(ts.take(k + 1) =~= ts.take(k).push(ts[k]));
    }
    wire::lemma_list_roundtrip::<TypeItem>(s, i, ts.len(), enc, st);
    assert(ts.take(0) =~= Seq::<ValueType>::empty());
    assert(ts.take(ts.len() as int) =~= ts);
}

/// A signature reads back.
proof fn lemma_sig_roundtrip(s: Seq<u8>, i: int, args: Seq<ValueType>, rets: Seq<ValueType>)
    requires
        args.len() <= usize::MAX,
        rets.len() <= usize::MAX,
        wire::at(s, i, container::types_list(args) + container::types_list(rets)),
    ensures
        decode::sig_at(s, i) == Ok::<(SigModel, int), DecodeError>(
            (
                SigModel { args, rets },
                i + (container::types_list(args) + container::types_list(rets)).len(),
            ),
        ),
{
    let a = container::types_list(args);
    let b = container::types_list(rets);
    wire::lemma_at_concat(s, i, a, b);
    lemma_types_list_roundtrip(s, i, args);
    lemma_types_list_roundtrip(s, i + a.len(), rets);
}

proof fn lemma_host_sig_count(sigs: Seq<HostSigModel>)
    ensures
        pack::pack_host_sigs(sigs).entries.len() == sigs.len(),
    decreases sigs.len(),
{
    if sigs.len() > 0 {
        lemma_host_sig_count(sigs.drop_last());
    }
}

/// A packed host signature is found in the table.
pub proof fn lemma_host_sig_slice(sigs: Seq<HostSigModel>, k: int)
    requires
        0 <= k < sigs.len(),
        pack::pack_host_sigs(sigs).value_types.len() <= u32::MAX,
    ensures
        pack::pack_host_sigs(sigs).entries.len() == sigs.len(),
        ({
            let a = pack::pack_host_sigs(sigs);
            &&& a.entries[k].symbol == sigs[k].symbol
            &&& a.entries[k].sig_hash == sigs[k].sig_hash
            &&& program::slice_of(a.value_types, a.entries[k].args) == Some(sigs[k].args)
            &&& program::slice_of(a.value_types, a.entries[k].rets) == Some(sigs[k].rets)
        }),
    decreases sigs.len(),
{
    lemma_host_sig_count(sigs);
    let shorter = sigs.drop_last();
    let a = pack::pack_host_sigs(shorter);
    let last = sigs.last();
    lemma_host_sig_count(shorter);
    if k == sigs.len() - 1 {
        lemma_slice_middle(a.value_types, last.args, last.rets);
        lemma_slice_appended(a.value_types + last.args, last.rets);
    } else {
        lemma_host_sig_slice(shorter, k);
        let more = last.args + last.rets;
        assert(a.value_types + last.args + last.rets =~= a.value_types + more);
        lemma_slice_grows(a.value_types, more, a.entries[k].args);
        lemma_slice_grows(a.value_types, more, a.entries[k].rets);
    }
}

proof fn lemma_function_count(vt: Seq<ValueType>, funcs: Seq<FunctionModel>)
    ensures
        pack::pack_functions(vt, funcs).entries.len() == funcs.len(),
        vt.len() <= pack::pack_functions(vt, funcs).value_types.len(),
    decreases funcs.len(),
{
    if funcs.len() > 0 {
        lemma_function_count(vt, funcs.drop_last());
    }
}

/// Packing functions leaves the types before them in place.
proof fn lemma_function_types_grow(vt: Seq<ValueType>, funcs: Seq<FunctionModel>, r: ByteRange)
    requires
        program::slice_of(vt, r) is Some,
    ensures
        program::slice_of(pack::pack_functions(vt, funcs).value_types, r) == program::slice_of(
            vt,
            r,
        ),
    decreases funcs.len(),
{
    if funcs.len() > 0 {
        lemma_function_types_grow(vt, funcs.drop_last(), r);
        let a = pack::pack_functions(vt, funcs.drop_last());
        let last = funcs.last();
        let more = last.arg_types + last.ret_types;
        assert(a.value_types + last.arg_types + last.ret_types =~= a.value_types + more);
        lemma_slice_grows(a.value_types, more, r);
    }
}

/// The arenas of a packed list of functions fit in a `u32`.
pub open spec fn functions_fit(a: FunctionArena) -> bool {
    &&& a.bytecode.len() <= u32::MAX
    &&& a.spans.len() <= u32::MAX
    &&& a.value_types.len() <= u32::MAX
}

/// A packed function is found in the table.
pub proof fn lemma_function_slice(vt: Seq<ValueType>, funcs: Seq<FunctionModel>, k: int)
    requires
        0 <= k < funcs.len(),
        functions_fit(pack::pack_functions(vt, funcs)),
    ensures
        pack::pack_functions(vt, funcs).entries.len() == funcs.len(),
        ({
            let a = pack::pack_functions(vt, funcs);
            let e = a.entries[k];
            &&& e.arg_count == funcs[k].arg_types.len()
            &&& e.ret_count == funcs[k].ret_types.len()
            &&& e.reg_count == funcs[k].reg_count
            &&& program::slice_of(a.bytecode, e.bytecode) == Some(funcs[k].bytecode)
            &&& program::slice_of(a.spans, e.spans) == Some(funcs[k].spans)
            &&& program::slice_of(a.value_types, e.arg_types) == Some(funcs[k].arg_types)
            &&& program::slice_of(a.value_types, e.ret_types) == Some(funcs[k].ret_types)
        }),
    decreases funcs.len(),
{
    lemma_function_count(vt, funcs);
    let shorter = funcs.drop_last();
    let a = pack::pack_functions(vt, shorter);
    let last = funcs.last();
    lemma_function_count(vt, shorter);
    if k == funcs.len() - 1 {
        lemma_slice_appended(a.bytecode, last.bytecode);
        lemma_slice_appended(a.spans, last.spans);
        lemma_slice_middle(a.value_types, last.arg_types, last.ret_types);
        lemma_slice_appended(a.value_types + last.arg_types, last.ret_types);
    } else {
        lemma_function_slice(vt, shorter, k);
        let e = a.entries[k];
        lemma_slice_grows(a.bytecode, last.bytecode, e.bytecode);
        lemma_slice_grows(a.spans, last.spans, e.spans);
        let more = last.arg_types + last.ret_types;
        assert(a.value_types + last.arg_types + last.ret_types =~= a.value_types + more);
        lemma_slice_grows(a.value_types, more, e.arg_types);
        lemma_slice_grows(a.value_types, more, e.ret_types);
    }
}

// ---------------------------------------------------------------------------------------------
// Function sections.
// ---------------------------------------------------------------------------------------------

/// The bytecode of each function.
pub open spec fn codes(funcs: Seq<FunctionModel>) -> Seq<Seq<u8>> {
    Seq::new(funcs.len(), |k: int| funcs[k].bytecode)
}

/// The span table of each function.
pub open spec fn span_tables(funcs: Seq<FunctionModel>) -> Seq<Seq<SpanEntry>> {
    Seq::new(funcs.len(), |k: int| funcs[k].spans)
}

/// The signature of each function.
pub open spec fn sig_models(funcs: Seq<FunctionModel>) -> Seq<SigModel> {
    Seq::new(
        funcs.len(),
        |k: int| SigModel { args: funcs[k].arg_types, rets: funcs[k].ret_types },
    )
}

/// The function table of packed functions.
pub open spec fn table_entries(functions: Seq<Function>) -> Seq<FunctionTableEntry> {
    Seq::new(
        functions.len(),
        |k: int|
            FunctionTableEntry {
                arg_count: functions[k].arg_count,
                ret_count: functions[k].ret_count,
                reg_count: functions[k].reg_count,
                bytecode_index: k as u64,
                span_index: k as u64,
            },
    )
}

/// A program whose functions are packed from `c`, with arenas that fit.
spec fn packs_functions(c: Contents, p: ProgramView) -> bool {
    &&& p == c.pack()
    &&& p.bytecode_data.len() <= u32::MAX
    &&& p.spans.len() <= u32::MAX
    &&& p.value_types.len() <= u32::MAX
}

/// The bytecode section reads back.
proof fn lemma_bytecode_roundtrip(c: Contents, p: ProgramView)
    requires
        packs_functions(c, p),
        container::bytecode_payload(p).len() <= usize::MAX,
    ensures
        decode::value_of(wire::list_at::<BlobItem>(container::bytecode_payload(p), 0, seq![]))
            == Ok::<Seq<Seq<u8>>, DecodeError>(codes(c.functions)),
{
    let s = container::bytecode_payload(p);
    let vt = pack::pack_host_sigs(c.host_sigs).value_types;
    let n = c.functions.len();
    let enc = container::bytecode_enc(p);
    let st = |k: int| codes(c.functions.take(k));
    lemma_function_count(vt, c.functions);
    wire::lemma_cat_len(n, enc);
    assert forall|k: int, j: int| 0 <= k < n && #[trigger] wire::at(s, j, enc(k)) implies
        BlobItem::item_at(s, j, st(k)) == Ok::<(Seq<Seq<u8>>, int), DecodeError>(
        (st(k + 1), j + enc(k).len()),
    ) by {
        lemma_function_slice(vt, c.functions, k);
        wire::lemma_blob_roundtrip(s, j, c.functions[k].bytecode);
        assert(codes(c.functions.take(k + 1)) =~= codes(c.functions.take(k)).push(
            c.functions[k].bytecode,
        ));
    }
    assert(s.subrange(0, s.len() as int) =~= s);
    wire::lemma_list_roundtrip::<BlobItem>(s, 0, n, enc, st);
    assert(st(0) =~= Seq::<Seq<u8>>::empty());
    assert(st(n as int) =~= codes(c.functions));
}

/// A span table reads back.
proof fn lemma_spans_list_roundtrip(s: Seq<u8>, i: int, spans: Seq<SpanEntry>)
    requires
        spans.len() <= usize::MAX,
        wire::at(s, i, container::spans_list(spans)),
    ensures
        wire::list_at::<SpanItem>(s, i, seq![]) == Ok::<(Seq<SpanEntry>, int), DecodeError>(
            (spans, i + container::spans_list(spans).len()),
        ),
{
    let enc = container::span_enc(spans);
    let st = |k: int| spans.take(k);
    assert forall|k: int, j: int| 0 <= k < spans.len() && #[trigger] wire::at(s, j, enc(k)) implies
        SpanItem::item_at(s, j, st(k)) == Ok::<(Seq<SpanEntry>, int), DecodeError>(
        (st(k + 1), j + enc(k).len()),
    ) by {
        let a = wire::uleb(spans[k].pc_delta as nat);
        let b = wire::uleb(spans[k].span_id as nat);
        wire::lemma_at_concat(s, j, a, b);
        wire::lemma_uleb_roundtrip(s, j, spans[k].pc_delta);
        wire::lemma_uleb_roundtrip(s, j + a.len(), spans[k].span_id);
        assert(spans.take(k + 1) =~= spans.take(k).push(spans[k]));
    }
    wire::lemma_list_roundtrip::<SpanItem>(s, i, spans.len(), enc, st);
    assert(spans.take(0) =~= Seq::<SpanEntry>::empty());
    assert(spans.take(spans.len() as int) =~= spans);
}

/// A span table reads back behind those before it.
proof fn lemma_span_table_roundtrip(c: Contents, p: ProgramView, s: Seq<u8>, k: int, j: int)
    requires
        packs_functions(c, p),
        0 <= k < c.functions.len(),
        wire::at(s, j, container::span_table_enc(p)(k)),
        s.len() <= usize::MAX,
    ensures
        SpanTableItem::item_at(s, j, span_tables(c.functions.take(k))) == Ok::<
            (Seq<Seq<SpanEntry>>, int),
            DecodeError,
        >((span_tables(c.functions.take(k + 1)), j + container::span_table_enc(p)(k).len())),
{
    let vt = pack::pack_host_sigs(c.host_sigs).value_types;
    lemma_function_slice(vt, c.functions, k);
    lemma_spans_list_roundtrip(s, j, c.functions[k].spans);
    assert(span_tables(c.functions.take(k + 1)) =~= span_tables(c.functions.take(k)).push(
        c.functions[k].spans,
    ));
}

/// The span section reads back.
proof fn lemma_spans_roundtrip(c: Contents, p: ProgramView)
    requires
        packs_functions(c, p),
        container::spans_payload(p).len() <= usize::MAX,
    ensures
        decode::value_of(wire::list_at::<SpanTableItem>(container::spans_payload(p), 0, seq![]))
            == Ok::<Seq<Seq<SpanEntry>>, DecodeError>(span_tables(c.functions)),
{
    let s = container::spans_payload(p);
    let vt = pack::pack_host_sigs(c.host_sigs).value_types;
    let n = c.functions.len();
    let enc = container::span_table_enc(p);
    let st = |k: int| span_tables(c.functions.take(k));
    lemma_function_count(vt, c.functions);
    wire::lemma_cat_len(n, enc);
    assert forall|k: int, j: int| 0 <= k < n && #[trigger] wire::at(s, j, enc(k)) implies
        SpanTableItem::item_at(s, j, st(k)) == Ok::<(Seq<Seq<SpanEntry>>, int), DecodeError>(
        (st(k + 1), j + enc(k).len()),
    ) by {
        lemma_span_table_roundtrip(c, p, s, k, j);
    }
    assert(s.subrange(0, s.len() as int) =~= s);
    wire::lemma_list_roundtrip::<SpanTableItem>(s, 0, n, enc, st);
    assert(st(0) =~= Seq::<Seq<SpanEntry>>::empty());
    assert(st(n as int) =~= span_tables(c.functions));
}

/// A function table entry reads back.
proof fn lemma_table_entry_roundtrip(
    s: Seq<u8>,
    j: int,
    f: Function,
    k: u64,
    st: Seq<FunctionTableEntry>,
)
    requires
        wire::at(
            s,
            j,
            wire::uleb(f.arg_count as nat) + wire::uleb(f.ret_count as nat) + wire::uleb(
                f.reg_count as nat,
            ) + wire::uleb(k as nat) + wire::uleb(k as nat),
        ),
    ensures
        TableItem::item_at(s, j, st) == Ok::<(Seq<FunctionTableEntry>, int), DecodeError>(
            (
                st.push(
                    FunctionTableEntry {
                        arg_count: f.arg_count,
                        ret_count: f.ret_count,
                        reg_count: f.reg_count,
                        bytecode_index: k,
                        span_index: k,
                    },
                ),
                j + (wire::uleb(f.arg_count as nat) + wire::uleb(f.ret_count as nat) + wire::uleb(
                    f.reg_count as nat,
                ) + wire::uleb(k as nat) + wire::uleb(k as nat)).len(),
            ),
        ),
{
    let a = wire::uleb(f.arg_count as nat);
    let b = wire::uleb(f.ret_count as nat);
    let r = wire::uleb(f.reg_count as nat);
    let x = wire::uleb(k as nat);
    wire::lemma_at_concat(s, j, a + b + r + x, x);
    wire::lemma_at_concat(s, j, a + b + r, x);
    wire::lemma_at_concat(s, j, a + b, r);
    wire::lemma_at_concat(s, j, a, b);
    wire::lemma_u32_roundtrip(s, j, f.arg_count);
    wire::lemma_u32_roundtrip(s, j + a.len(), f.ret_count);
    wire::lemma_u32_roundtrip(s, j + (a + b).len(), f.reg_count);
    wire::lemma_uleb_roundtrip(s, j + (a + b + r).len(), k);
    wire::lemma_uleb_roundtrip(s, j + (a + b + r + x).len(), k);
}

/// The function table reads back.
proof fn lemma_table_roundtrip(p: ProgramView)
    requires
        container::table_payload(p).len() <= usize::MAX,
    ensures
        decode::value_of(wire::list_at::<TableItem>(container::table_payload(p), 0, seq![]))
            == Ok::<Seq<FunctionTableEntry>, DecodeError>(table_entries(p.functions)),
{
    let s = container::table_payload(p);
    let n = p.functions.len();
    let enc = container::table_enc(p);
    let all = table_entries(p.functions);
    let st = |k: int| all.take(k);
    assert forall|k: int| 0 <= k < n implies (#[trigger] enc(k)).len() >= 1 by {
        wire::lemma_uleb_len(k as nat);
    }
    wire::lemma_cat_len(n, enc);
    assert forall|k: int, j: int| 0 <= k < n && #[trigger] wire::at(s, j, enc(k)) implies
        TableItem::item_at(s, j, st(k)) == Ok::<(Seq<FunctionTableEntry>, int), DecodeError>(
        (st(k + 1), j + enc(k).len()),
    ) by {
        lemma_table_entry_roundtrip(s, j, p.functions[k], k as u64, st(k));
        assert(all.take(k + 1) =~= all.take(k).push(all[k]));
    }
    assert(s.subrange(0, s.len() as int) =~= s);
    wire::lemma_list_roundtrip::<TableItem>(s, 0, n, enc, st);
    assert(st(0) =~= Seq::<FunctionTableEntry>::empty());
    assert(st(n as int) =~= all);
}

/// The encoding of a signature.
#[verifier::opaque]
pub open spec fn sig_bytes(sig: SigModel) -> Seq<u8> {
    container::types_list(sig.args) + container::types_list(sig.rets)
}

pub open spec fn sig_model_enc(sigs: Seq<SigModel>) -> spec_fn(int) -> Seq<u8> {
    |k: int| sig_bytes(sigs[k])
}

/// A packed signature is written as it was before it was packed.
proof fn lemma_sig_enc(c: Contents, p: ProgramView, k: int)
    requires
        packs_functions(c, p),
        0 <= k < c.functions.len(),
    ensures
        (container::sig_enc(p))(k) == sig_bytes(sig_models(c.functions)[k]),
        sig_bytes(sig_models(c.functions)[k]).len() >= 1,
        c.functions[k].arg_types.len() <= u32::MAX,
        c.functions[k].ret_types.len() <= u32::MAX,
{
    reveal(sig_bytes);
    let vt = pack::pack_host_sigs(c.host_sigs).value_types;
    lemma_function_slice(vt, c.functions, k);
    wire::lemma_uleb_len(c.functions[k].arg_types.len());
}

/// A list of signatures reads back.
proof fn lemma_sig_list_roundtrip(s: Seq<u8>, i: int, sigs: Seq<SigModel>)
    requires
        sigs.len() <= usize::MAX,
        forall|k: int|
            0 <= k < sigs.len() ==> (#[trigger] sigs[k]).args.len() <= usize::MAX
                && sigs[k].rets.len() <= usize::MAX,
        wire::at(s, i, wire::uleb(sigs.len()) + wire::cat(sigs.len(), sig_model_enc(sigs))),
    ensures
        decode::value_of(wire::list_at::<SigItem>(s, i, seq![])) == Ok::<Seq<SigModel>, DecodeError>(
            sigs,
        ),
{
    let enc = sig_model_enc(sigs);
    let st = |k: int| sigs.take(k);
    assert forall|k: int, j: int| 0 <= k < sigs.len() && #[trigger] wire::at(s, j, enc(k)) implies
        SigItem::item_at(s, j, st(k)) == Ok::<(Seq<SigModel>, int), DecodeError>(
        (st(k + 1), j + enc(k).len()),
    ) by {
        reveal(sig_bytes);
        lemma_sig_roundtrip(s, j, sigs[k].args, sigs[k].rets);
        assert(sigs.take(k + 1) =~= sigs.take(k).push(sigs[k]));
    }
    wire::lemma_list_roundtrip::<SigItem>(s, i, sigs.len(), enc, st);
    assert(st(0) =~= Seq::<SigModel>::empty());
    assert(st(sigs.len() as int) =~= sigs);
}

/// The signature section reads back.
proof fn lemma_sigs_roundtrip(c: Contents, p: ProgramView)
    requires
        packs_functions(c, p),
        container::sigs_payload(p).len() <= usize::MAX,
    ensures
        decode::value_of(wire::list_at::<SigItem>(container::sigs_payload(p), 0, seq![])) == Ok::<
            Seq<SigModel>,
            DecodeError,
        >(sig_models(c.functions)),
{
    let s = container::sigs_payload(p);
    let vt = pack::pack_host_sigs(c.host_sigs).value_types;
    let sigs = sig_models(c.functions);
    let n = c.functions.len();
    let enc = container::sig_enc(p);
    let enc2 = sig_model_enc(sigs);
    lemma_function_count(vt, c.functions);
    assert forall|k: int| 0 <= k < n implies #[trigger] enc(k) == enc2(k) by {
        lemma_sig_enc(c, p, k);
    }
    wire::lemma_cat_eq(n, enc, enc2);
    assert forall|k: int| 0 <= k < n implies (#[trigger] enc2(k)).len() >= 1 by {
        lemma_sig_enc(c, p, k);
    }
    wire::lemma_cat_len(n, enc2);
    assert forall|k: int| 0 <= k < n implies (#[trigger] sigs[k]).args.len() <= usize::MAX
        && sigs[k].rets.len() <= usize::MAX by {
        lemma_sig_enc(c, p, k);
    }
    assert(s.subrange(0, s.len() as int) =~= s);
    lemma_sig_list_roundtrip(s, 0, sigs);
}

/// The encoding of a host signature.
#[verifier::opaque]
pub open spec fn host_sig_bytes(hs: HostSigModel) -> Seq<u8> {
    wire::uleb(hs.symbol.0 as nat) + wire::le(hs.sig_hash.0 as nat, 8) + container::types_list(
        hs.args,
    ) + container::types_list(hs.rets)
}

/// A host signature reads back.
proof fn lemma_host_sig_roundtrip(s: Seq<u8>, j: int, hs: HostSigModel, st: Seq<HostSigModel>)
    requires
        hs.args.len() <= usize::MAX,
        hs.rets.len() <= usize::MAX,
        wire::at(s, j, host_sig_bytes(hs)),
    ensures
        HostSigItem::item_at(s, j, st) == Ok::<(Seq<HostSigModel>, int), DecodeError>(
            (st.push(hs), j + host_sig_bytes(hs).len()),
        ),
{
    reveal(host_sig_bytes);
    let a = wire::uleb(hs.symbol.0 as nat);
    let h = wire::le(hs.sig_hash.0 as nat, 8);
    let x = container::types_list(hs.args);
    let y = container::types_list(hs.rets);
    assert(a + h + x + y =~= a + h + (x + y));
    wire::lemma_at_concat(s, j, a + h, x + y);
    wire::lemma_at_concat(s, j, a, h);
    wire::lemma_u32_roundtrip(s, j, hs.symbol.0);
    wire::lemma_le64_roundtrip(s, j + a.len(), hs.sig_hash.0);
    lemma_sig_roundtrip(s, j + (a + h).len(), hs.args, hs.rets);
}

/// A packed host signature is written as it was before it was packed.
proof fn lemma_host_sig_enc(c: Contents, p: ProgramView, k: int)
    requires
        packs_functions(c, p),
        0 <= k < c.host_sigs.len(),
    ensures
        (container::host_sig_enc(p))(k) == host_sig_bytes(c.host_sigs[k]),
        host_sig_bytes(c.host_sigs[k]).len() >= 1,
        c.host_sigs[k].args.len() <= u32::MAX,
        c.host_sigs[k].rets.len() <= u32::MAX,
{
    reveal(host_sig_bytes);
    let sigs = pack::pack_host_sigs(c.host_sigs);
    lemma_function_count(sigs.value_types, c.functions);
    lemma_host_sig_slice(c.host_sigs, k);
    lemma_function_types_grow(sigs.value_types, c.functions, sigs.entries[k].args);
    lemma_function_types_grow(sigs.value_types, c.functions, sigs.entries[k].rets);
    wire::lemma_uleb_len(c.host_sigs[k].symbol.0 as nat);
}

pub open spec fn host_sig_model_enc(sigs: Seq<HostSigModel>) -> spec_fn(int) -> Seq<u8> {
    |k: int| host_sig_bytes(sigs[k])
}

/// A list of host signatures reads back.
proof fn lemma_host_sig_list_roundtrip(s: Seq<u8>, i: int, sigs: Seq<HostSigModel>)
    requires
        sigs.len() <= usize::MAX,
        forall|k: int|
            0 <= k < sigs.len() ==> (#[trigger] sigs[k]).args.len() <= usize::MAX
                && sigs[k].rets.len() <= usize::MAX,
        wire::at(
            s,
            i,
            wire::uleb(sigs.len()) + wire::cat(sigs.len(), host_sig_model_enc(sigs)),
        ),
    ensures
        decode::value_of(wire::list_at::<HostSigItem>(s, i, seq![])) == Ok::<
            Seq<HostSigModel>,
            DecodeError,
        >(sigs),
{
    let enc = host_sig_model_enc(sigs);
    let st = |k: int| sigs.take(k);
    assert forall|k: int, j: int| 0 <= k < sigs.len() && #[trigger] wire::at(s, j, enc(k)) implies
        HostSigItem::item_at(s, j, st(k)) == Ok::<(Seq<HostSigModel>, int), DecodeError>(
        (st(k + 1), j + enc(k).len()),
    ) by {
        lemma_host_sig_roundtrip(s, j, sigs[k], st(k));
        assert(sigs.take(k + 1) =~= sigs.take(k).push(sigs[k]));
    }
    wire::lemma_list_roundtrip::<HostSigItem>(s, i, sigs.len(), enc, st);
    assert(st(0) =~= Seq::<HostSigModel>::empty());
    assert(st(sigs.len() as int) =~= sigs);
}

/// The host signature section reads back.
proof fn lemma_host_sigs_roundtrip(c: Contents, p: ProgramView)
    requires
        packs_functions(c, p),
        container::host_sigs_payload(p).len() <= usize::MAX,
    ensures
        decode::value_of(wire::list_at::<HostSigItem>(container::host_sigs_payload(p), 0, seq![]))
            == Ok::<Seq<HostSigModel>, DecodeError>(c.host_sigs),
{
    let s = container::host_sigs_payload(p);
    let n = c.host_sigs.len();
    let enc = container::host_sig_enc(p);
    let enc2 = host_sig_model_enc(c.host_sigs);
    lemma_host_sig_count(c.host_sigs);
    assert forall|k: int| 0 <= k < n implies #[trigger] enc(k) == enc2(k) by {
        lemma_host_sig_enc(c, p, k);
    }
    wire::lemma_cat_eq(n, enc, enc2);
    assert forall|k: int| 0 <= k < n implies (#[trigger] enc2(k)).len() >= 1 by {
        lemma_host_sig_enc(c, p, k);
    }
    wire::lemma_cat_len(n, enc2);
    assert forall|k: int| 0 <= k < n implies (#[trigger] c.host_sigs[k]).args.len() <= usize::MAX
        && c.host_sigs[k].rets.len() <= usize::MAX by {
        lemma_host_sig_enc(c, p, k);
    }
    assert(s.subrange(0, s.len() as int) =~= s);
    lemma_host_sig_list_roundtrip(s, 0, c.host_sigs);
}

// ---------------------------------------------------------------------------------------------
// Putting sections together again.
// ---------------------------------------------------------------------------------------------

proof fn lemma_join_host_sigs(sigs: Seq<HostSigModel>)
    requires
        pack::pack_host_sigs(sigs).value_types.len() <= u32::MAX,
    ensures
        decode::join_host_sigs(sigs) == Some(pack::pack_host_sigs(sigs)),
    decreases sigs.len(),
{
    if sigs.len() > 0 {
        lemma_join_host_sigs(sigs.drop_last());
    }
}

proof fn lemma_join_codes(vt: Seq<ValueType>, funcs: Seq<FunctionModel>)
    requires
        functions_fit(pack::pack_functions(vt, funcs)),
    ensures
        ({
            let a = pack::pack_functions(vt, funcs);
            &&& decode::join(codes(funcs)) == Some(
                Pieces {
                    ranges: a.entries.map_values(|f: Function| f.bytecode),
                    data: a.bytecode,
                },
            )
            &&& decode::join(span_tables(funcs)) == Some(
                Pieces { ranges: a.entries.map_values(|f: Function| f.spans), data: a.spans },
            )
        }),
    decreases funcs.len(),
{
    let a = pack::pack_functions(vt, funcs);
    if funcs.len() > 0 {
        let shorter = funcs.drop_last();
        let b = pack::pack_functions(vt, shorter);
        lemma_join_codes(vt, shorter);
        assert(codes(funcs).drop_last() =~= codes(shorter));
        assert(span_tables(funcs).drop_last() =~= span_tables(shorter));
        assert(a.entries.map_values(|f: Function| f.bytecode) =~= b.entries.map_values(
            |f: Function| f.bytecode,
        ).push(a.entries.last().bytecode));
        assert(a.entries.map_values(|f: Function| f.spans) =~= b.entries.map_values(
            |f: Function| f.spans,
        ).push(a.entries.last().spans));
    } else {
        assert(a.entries.map_values(|f: Function| f.bytecode) =~= Seq::<ByteRange>::empty());
        assert(a.entries.map_values(|f: Function| f.spans) =~= Seq::<ByteRange>::empty());
    }
}

proof fn lemma_join_functions(
    vt: Seq<ValueType>,
    funcs: Seq<FunctionModel>,
    code: Seq<ByteRange>,
    spans: Seq<ByteRange>,
)
    requires
        functions_fit(pack::pack_functions(vt, funcs)),
        funcs.len() <= code.len() <= u64::MAX,
        funcs.len() <= spans.len() <= u64::MAX,
        forall|k: int|
            0 <= k < funcs.len() ==> code[k] == (#[trigger] pack::pack_functions(
                vt,
                funcs,
            ).entries[k]).bytecode,
        forall|k: int|
            0 <= k < funcs.len() ==> spans[k] == (#[trigger] pack::pack_functions(
                vt,
                funcs,
            ).entries[k]).spans,
    ensures
        ({
            let a = pack::pack_functions(vt, funcs);
            decode::join_functions(vt, table_entries(a.entries), sig_models(funcs), code, spans)
                == Some(TableArena { functions: a.entries, value_types: a.value_types })
        }),
    decreases funcs.len(),
{
    let a = pack::pack_functions(vt, funcs);
    lemma_function_count(vt, funcs);
    if funcs.len() > 0 {
        let shorter = funcs.drop_last();
        let b = pack::pack_functions(vt, shorter);
        lemma_function_count(vt, shorter);
        assert forall|k: int| 0 <= k < shorter.len() implies code[k] == (
        #[trigger] b.entries[k]).bytecode by {
            assert(a.entries[k] == b.entries[k]);
        }
        assert forall|k: int| 0 <= k < shorter.len() implies spans[k] == (
        #[trigger] b.entries[k]).spans by {
            assert(a.entries[k] == b.entries[k]);
        }
        lemma_join_functions(vt, shorter, code, spans);
        assert(table_entries(a.entries).drop_last() =~= table_entries(b.entries));
        assert(sig_models(funcs).drop_last() =~= sig_models(shorter));
        let k = funcs.len() - 1;
        assert(code[k] == a.entries[k].bytecode);
        assert(spans[k] == a.entries[k].spans);
    } else {
        assert(a.entries =~= Seq::<Function>::empty());
    }
}

// ---------------------------------------------------------------------------------------------
// Types.
// ---------------------------------------------------------------------------------------------

spec fn prefix<T>(a: Seq<T>, b: Seq<T>) -> bool {
    &&& a.len() <= b.len()
    &&& forall|i: int| 0 <= i < a.len() ==> #[trigger] b[i] == a[i]
}

/// Every distinct field name stands where its range says.
pub open spec fn names_stored(a: TypeArena) -> bool {
    &&& a.table.field_name_ranges.len() == a.names.len()
    &&& forall|k: int|
        0 <= k < a.names.len() ==> program::slice_of(
            a.table.name_data,
            #[trigger] a.table.field_name_ranges[k],
        ) == Some(encode_utf8(a.names[k]))
}

/// The arenas of a type table fit in a `u32`.
pub open spec fn types_fit(a: TypeArena) -> bool {
    &&& a.names.len() <= u32::MAX
    &&& a.table.name_data.len() <= u32::MAX
    &&& a.table.field_name_ids.len() <= u32::MAX
    &&& a.table.field_types.len() <= u32::MAX
}

proof fn lemma_plus_names(a: TypeArena, ns: Seq<Seq<char>>)
    requires
        names_stored(a),
        a.plus_names(ns).names.len() <= u32::MAX,
        a.plus_names(ns).table.name_data.len() <= u32::MAX,
    ensures
        ({
            let b = a.plus_names(ns);
            let n = a.table.field_name_ids.len();
            &&& names_stored(b)
            &&& prefix(a.names, b.names)
            &&& prefix(a.table.field_name_ids, b.table.field_name_ids)
            &&& b.table.field_name_ids.len() == n + ns.len()
            &&& forall|f: int|
                0 <= f < ns.len() ==> {
                    let id = (#[trigger] b.table.field_name_ids[n + f]).0;
                    id < b.names.len() && b.names[id as int] == ns[f]
                }
            &&& b.table.field_types == a.table.field_types
            &&& b.table.structs == a.table.structs
            &&& b.table.array_elems == a.table.array_elems
        }),
    decreases ns.len(),
{
    if ns.len() > 0 {
        let shorter = ns.drop_last();
        let m = a.plus_names(shorter);
        let name = ns.last();
        let b = a.plus_names(ns);
        assert(b == m.plus_name(name));
        lemma_plus_names(a, shorter);
        pack::lemma_position_found(m.names, name);
        let k = pack::position(m.names, name);
        let n = a.table.field_name_ids.len();
        if k >= m.names.len() {
            lemma_slice_appended(m.table.name_data, encode_utf8(name));
            assert forall|i: int| 0 <= i < b.names.len() implies program::slice_of(
                b.table.name_data,
                #[trigger] b.table.field_name_ranges[i],
            ) == Some(encode_utf8(b.names[i])) by {
                if i < m.names.len() {
                    assert(b.table.field_name_ranges[i] == m.table.field_name_ranges[i]);
                    lemma_slice_grows(
                        m.table.name_data,
                        encode_utf8(name),
                        m.table.field_name_ranges[i],
                    );
                }
            }
        }
        assert forall|f: int| 0 <= f < ns.len() implies {
            let id = (#[trigger] b.table.field_name_ids[n + f]).0;
            id < b.names.len() && b.names[id as int] == ns[f]
        } by {
            if f < shorter.len() {
                assert(b.table.field_name_ids[n + f] == m.table.field_name_ids[n + f]);
                assert(shorter[f] == ns[f]);
            }
        }
    }
}

/// A packed struct has the fields of `m`.
pub open spec fn struct_stored(a: TypeArena, m: StructModel, st: StructType) -> bool {
    &&& st.field_name_ids.len == m.names.len()
    &&& st.field_name_ids.offset + st.field_name_ids.len <= a.table.field_name_ids.len()
    &&& forall|f: int|
        0 <= f < m.names.len() ==> {
            let id = (#[trigger] a.table.field_name_ids[st.field_name_ids.offset + f]).0;
            id < a.names.len() && a.names[id as int] == m.names[f]
        }
    &&& program::slice_of(a.table.field_types, st.field_types) == Some(m.types)
}

/// Each struct has as many names as types.
pub open spec fn structs_valid(structs: Seq<StructModel>) -> bool {
    forall|k: int|
        0 <= k < structs.len() ==> (#[trigger] structs[k]).names.len() == structs[k].types.len()
}

/// Packed structs are found in the type table.
pub proof fn lemma_structs_stored(structs: Seq<StructModel>)
    requires
        structs_valid(structs),
        types_fit(pack::pack_structs(structs)),
    ensures
        ({
            let a = pack::pack_structs(structs);
            &&& names_stored(a)
            &&& a.table.structs.len() == structs.len()
            &&& forall|k: int|
                0 <= k < structs.len() ==> struct_stored(
                    a,
                    structs[k],
                    #[trigger] a.table.structs[k],
                )
        }),
    decreases structs.len(),
{
    if structs.len() > 0 {
        let shorter = structs.drop_last();
        let last = structs.last();
        let a = pack::pack_structs(shorter);
        let b = pack::pack_structs(structs);
        let named = a.plus_names(last.names);
        lemma_plus_names_grow(a, last.names);
        assert forall|k: int| 0 <= k < shorter.len() implies (#[trigger] shorter[k]).names.len()
            == shorter[k].types.len() by {
            assert(shorter[k] == structs[k]);
        }
        lemma_structs_stored(shorter);
        lemma_plus_names(a, last.names);
        assert(structs[structs.len() - 1].names.len() == last.types.len());
        assert forall|k: int| 0 <= k < structs.len() implies struct_stored(
            b,
            structs[k],
            #[trigger] b.table.structs[k],
        ) by {
            let st = b.table.structs[k];
            if k < shorter.len() {
                assert(st == a.table.structs[k]);
                assert(struct_stored(a, shorter[k], a.table.structs[k]));
                lemma_slice_grows(a.table.field_types, last.types, st.field_types);
                let m = structs[k];
                assert forall|f: int| 0 <= f < m.names.len() implies {
                    let id = (#[trigger] b.table.field_name_ids[st.field_name_ids.offset + f]).0;
                    id < b.names.len() && b.names[id as int] == m.names[f]
                } by {
                    assert(b.table.field_name_ids[st.field_name_ids.offset + f]
                        == a.table.field_name_ids[st.field_name_ids.offset + f]);
                }
            } else {
                lemma_slice_appended(a.table.field_types, last.types);
            }
        }
    }
}

/// Interning names only adds to the arena.
proof fn lemma_plus_names_grow(a: TypeArena, ns: Seq<Seq<char>>)
    ensures
        ({
            let b = a.plus_names(ns);
            &&& a.names.len() <= b.names.len()
            &&& a.table.name_data.len() <= b.table.name_data.len()
            &&& b.table.field_name_ids.len() == a.table.field_name_ids.len() + ns.len()
            &&& b.table.field_types == a.table.field_types
            &&& b.table.structs == a.table.structs
        }),
    decreases ns.len(),
{
    if ns.len() > 0 {
        lemma_plus_names_grow(a, ns.drop_last());
    }
}

/// The field names of a type table read back.
proof fn lemma_field_names_roundtrip(s: Seq<u8>, i: int, a: TypeArena, t: TypeTableView)
    requires
        names_stored(a),
        types_fit(a),
        t.name_data == a.table.name_data,
        t.field_name_ranges == a.table.field_name_ranges,
        wire::at(s, i, container::field_names_bytes(t)),
    ensures
        wire::list_at::<NameItem>(s, i, seq![]) == Ok::<(Seq<Seq<char>>, int), DecodeError>(
            (a.names, i + container::field_names_bytes(t).len()),
        ),
{
    let n = a.names.len();
    let enc = container::field_name_enc(t);
    let st = |k: int| a.names.take(k);
    assert forall|k: int, j: int| 0 <= k < n && #[trigger] wire::at(s, j, enc(k)) implies
        NameItem::item_at(s, j, st(k)) == Ok::<(Seq<Seq<char>>, int), DecodeError>(
        (st(k + 1), j + enc(k).len()),
    ) by {
        let text = encode_utf8(a.names[k]);
        assert(program::slice_of(a.table.name_data, a.table.field_name_ranges[k]) == Some(text));
        assert(enc(k) == wire::blob(text));
        wire::lemma_blob_roundtrip(s, j, text);
        encode_utf8_valid_utf8(a.names[k]);
        encode_utf8_decode_utf8(a.names[k]);
        assert(a.names.take(k + 1) =~= a.names.take(k).push(a.names[k]));
    }
    wire::lemma_list_roundtrip::<NameItem>(s, i, n, enc, st);
    assert(st(0) =~= Seq::<Seq<char>>::empty());
    assert(st(n as int) =~= a.names);
}

/// The fields of a struct read back.
proof fn lemma_fields_roundtrip(s: Seq<u8>, i: int, a: TypeArena, m: StructModel, st: StructType)
    requires
        struct_stored(a, m, st),
        types_fit(a),
        m.names.len() == m.types.len(),
        wire::at(s, i, container::struct_bytes(a.table, st)),
    ensures
        wire::list_at::<FieldItem>(
            s,
            i,
            FieldState { table: a.names, fields: decode::no_fields() },
        ) == Ok::<(FieldState, int), DecodeError>(
            (
                FieldState { table: a.names, fields: m },
                i + container::struct_bytes(a.table, st).len(),
            ),
        ),
{
    let ids = container::slice_or_empty(a.table.field_name_ids, st.field_name_ids);
    let types = container::slice_or_empty(a.table.field_types, st.field_types);
    let n = m.names.len();
    assert(types == m.types);
    assert(ids.len() == n);
    let enc = container::field_enc(ids, types);
    let state = |k: int|
        FieldState {
            table: a.names,
            fields: StructModel { names: m.names.take(k), types: m.types.take(k) },
        };
    assert forall|k: int, j: int| 0 <= k < n && #[trigger] wire::at(s, j, enc(k)) implies
        FieldItem::item_at(s, j, state(k)) == Ok::<(FieldState, int), DecodeError>(
        (state(k + 1), j + enc(k).len()),
    ) by {
        let id = ids[k].0;
        assert(ids[k] == a.table.field_name_ids[st.field_name_ids.offset + k]);
        let x = wire::uleb(id as nat);
        let y = host::value_type_bytes(m.types[k]);
        wire::lemma_at_concat(s, j, x, y);
        wire::lemma_usize_roundtrip(s, j, id as nat);
        lemma_value_type_roundtrip(s, j + x.len(), m.types[k]);
        assert(m.names.take(k + 1) =~= m.names.take(k).push(m.names[k]));
        assert(m.types.take(k + 1) =~= m.types.take(k).push(m.types[k]));
    }
    wire::lemma_list_roundtrip::<FieldItem>(s, i, n, enc, state);
    assert(state(0) =~= FieldState { table: a.names, fields: decode::no_fields() }) by {
        assert(m.names.take(0) =~= Seq::<Seq<char>>::empty());
        assert(m.types.take(0) =~= Seq::<ValueType>::empty());
    }
    assert(state(n as int) =~= FieldState { table: a.names, fields: m }) by {
        assert(m.names.take(n as int) =~= m.names);
        assert(m.types.take(n as int) =~= m.types);
    }
}

/// The structs of a type table read back.
proof fn lemma_structs_roundtrip(s: Seq<u8>, i: int, structs: Seq<StructModel>, t: TypeTableView)
    requires
        structs_valid(structs),
        types_fit(pack::pack_structs(structs)),
        structs.len() <= usize::MAX,
        t == pack::pack_structs(structs).table,
        wire::at(s, i, container::structs_bytes(t)),
    ensures
        wire::list_at::<StructItem>(
            s,
            i,
            StructState { table: pack::pack_structs(structs).names, structs: seq![] },
        ) == Ok::<(StructState, int), DecodeError>(
            (
                StructState { table: pack::pack_structs(structs).names, structs },
                i + container::structs_bytes(t).len(),
            ),
        ),
{
    let a = pack::pack_structs(structs);
    lemma_structs_stored(structs);
    let n = structs.len();
    let enc = container::struct_enc(t);
    let state = |k: int| StructState { table: a.names, structs: structs.take(k) };
    assert forall|k: int, j: int| 0 <= k < n && #[trigger] wire::at(s, j, enc(k)) implies
        StructItem::item_at(s, j, state(k)) == Ok::<(StructState, int), DecodeError>(
        (state(k + 1), j + enc(k).len()),
    ) by {
        assert(struct_stored(a, structs[k], a.table.structs[k]));
        lemma_fields_roundtrip(s, j, a, structs[k], a.table.structs[k]);
        assert(structs.take(k + 1) =~= structs.take(k).push(structs[k]));
    }
    wire::lemma_list_roundtrip::<StructItem>(s, i, n, enc, state);
    assert(structs.take(0) =~= Seq::<StructModel>::empty());
    assert(structs.take(n as int) =~= structs);
}

proof fn lemma_struct_bytes_elems(t: TypeTableView, u: TypeTableView)
    requires
        t.name_data == u.name_data,
        t.field_name_ranges == u.field_name_ranges,
        t.field_name_ids == u.field_name_ids,
        t.field_types == u.field_types,
        t.structs == u.structs,
    ensures
        container::structs_bytes(t) == container::structs_bytes(u),
        container::field_names_bytes(t) == container::field_names_bytes(u),
{
    let n = t.structs.len();
    assert forall|k: int| 0 <= k < n implies #[trigger] (container::struct_enc(t))(k) == (
    container::struct_enc(u))(k) by {}
    wire::lemma_cat_eq(n, container::struct_enc(t), container::struct_enc(u));
    let m = t.field_name_ranges.len();
    assert forall|k: int| 0 <= k < m implies #[trigger] (container::field_name_enc(t))(k) == (
    container::field_name_enc(u))(k) by {}
    wire::lemma_cat_eq(m, container::field_name_enc(t), container::field_name_enc(u));
}

/// The type section reads back.
pub proof fn lemma_types_roundtrip(structs: Seq<StructModel>, elems: Seq<ValueType>)
    requires
        structs_valid(structs),
        types_fit(pack::pack_structs(structs)),
        container::types_payload(pack::pack_types(structs, elems)).len() <= usize::MAX,
    ensures
        decode::types_of(container::types_payload(pack::pack_types(structs, elems))) == Ok::<
            TypesModel,
            DecodeError,
        >(TypesModel { structs, array_elems: elems }),
{
    let t = pack::pack_types(structs, elems);
    let a = pack::pack_structs(structs);
    let s = container::types_payload(t);
    let x = container::field_names_bytes(t);
    let y = container::structs_bytes(t);
    let z = container::types_list(elems);
    lemma_structs_stored(structs);
    lemma_struct_bytes_elems(t, a.table);
    assert(s.subrange(0, s.len() as int) =~= s);
    wire::lemma_at_concat(s, 0, x + y, z);
    wire::lemma_at_concat(s, 0, x, y);
    lemma_field_names_roundtrip(s, 0, a, t);
    assert forall|k: int| 0 <= k < structs.len() implies (#[trigger] (container::struct_enc(
        a.table,
    ))(k)).len() >= 1 by {
        wire::lemma_uleb_len(a.table.structs[k].field_name_ids.len as nat);
    }
    wire::lemma_cat_len(structs.len(), container::struct_enc(a.table));
    lemma_structs_roundtrip(s, x.len() as int, structs, a.table);
    assert forall|k: int| 0 <= k < elems.len() implies (#[trigger] (host::value_type_enc(elems))(
        k,
    )).len() >= 1 by {}
    wire::lemma_cat_len(elems.len(), host::value_type_enc(elems));
    lemma_types_list_roundtrip(s, (x + y).len() as int, elems);
}

// ---------------------------------------------------------------------------------------------
// Names.
// ---------------------------------------------------------------------------------------------

proof fn lemma_function_names_roundtrip(s: Seq<u8>, i: int, names: Seq<FunctionNameEntry>)
    requires
        names.len() <= usize::MAX,
        wire::at(
            s,
            i,
            wire::uleb(names.len()) + wire::cat(names.len(), container::function_name_enc(names)),
        ),
    ensures
        wire::list_at::<FunctionNameItem>(s, i, seq![]) == Ok::<
            (Seq<FunctionNameEntry>, int),
            DecodeError,
        >(
            (
                names,
                i + (wire::uleb(names.len()) + wire::cat(
                    names.len(),
                    container::function_name_enc(names),
                )).len(),
            ),
        ),
{
    let n = names.len();
    let enc = container::function_name_enc(names);
    let st = |k: int| names.take(k);
    assert forall|k: int, j: int| 0 <= k < n && #[trigger] wire::at(s, j, enc(k)) implies
        FunctionNameItem::item_at(s, j, st(k)) == Ok::<
        (Seq<FunctionNameEntry>, int),
        DecodeError,
    >((st(k + 1), j + enc(k).len())) by {
        let a = wire::uleb(names[k].func as nat);
        let b = wire::uleb(names[k].name.0 as nat);
        wire::lemma_at_concat(s, j, a, b);
        wire::lemma_u32_roundtrip(s, j, names[k].func);
        wire::lemma_u32_roundtrip(s, j + a.len(), names[k].name.0);
        assert(names.take(k + 1) =~= names.take(k).push(names[k]));
    }
    wire::lemma_list_roundtrip::<FunctionNameItem>(s, i, n, enc, st);
    assert(names.take(0) =~= Seq::<FunctionNameEntry>::empty());
    assert(names.take(n as int) =~= names);
}

proof fn lemma_labels_roundtrip(s: Seq<u8>, i: int, names: Seq<LabelNameEntry>)
    requires
        names.len() <= usize::MAX,
        wire::at(
            s,
            i,
            wire::uleb(names.len()) + wire::cat(names.len(), container::label_enc(names)),
        ),
    ensures
        wire::list_at::<LabelItem>(s, i, seq![]) == Ok::<(Seq<LabelNameEntry>, int), DecodeError>(
            (
                names,
                i + (wire::uleb(names.len()) + wire::cat(
                    names.len(),
                    container::label_enc(names),
                )).len(),
            ),
        ),
{
    let n = names.len();
    let enc = container::label_enc(names);
    let st = |k: int| names.take(k);
    assert forall|k: int, j: int| 0 <= k < n && #[trigger] wire::at(s, j, enc(k)) implies
        LabelItem::item_at(s, j, st(k)) == Ok::<(Seq<LabelNameEntry>, int), DecodeError>(
        (st(k + 1), j + enc(k).len()),
    ) by {
        let a = wire::uleb(names[k].func as nat);
        let b = wire::uleb(names[k].pc as nat);
        let d = wire::uleb(names[k].name.0 as nat);
        wire::lemma_at_concat(s, j, a + b, d);
        wire::lemma_at_concat(s, j, a, b);
        wire::lemma_u32_roundtrip(s, j, names[k].func);
        wire::lemma_u32_roundtrip(s, j + a.len(), names[k].pc);
        wire::lemma_u32_roundtrip(s, j + (a + b).len(), names[k].name.0);
        assert(names.take(k + 1) =~= names.take(k).push(names[k]));
    }
    wire::lemma_list_roundtrip::<LabelItem>(s, i, n, enc, st);
    assert(names.take(0) =~= Seq::<LabelNameEntry>::empty());
    assert(names.take(n as int) =~= names);
}

proof fn lemma_output_list_roundtrip(s: Seq<u8>, i: int, names: Seq<FunctionOutputNameEntry>)
    requires
        names.len() <= usize::MAX,
        wire::at(
            s,
            i,
            wire::uleb(names.len()) + wire::cat(names.len(), container::output_enc(names)),
        ),
    ensures
        wire::list_at::<OutputItem>(s, i, seq![]) == Ok::<
            (Seq<FunctionOutputNameEntry>, int),
            DecodeError,
        >(
            (
                names,
                i + (wire::uleb(names.len()) + wire::cat(
                    names.len(),
                    container::output_enc(names),
                )).len(),
            ),
        ),
{
    let n = names.len();
    let enc = container::output_enc(names);
    let st = |k: int| names.take(k);
    assert forall|k: int, j: int| 0 <= k < n && #[trigger] wire::at(s, j, enc(k)) implies
        OutputItem::item_at(s, j, st(k)) == Ok::<
        (Seq<FunctionOutputNameEntry>, int),
        DecodeError,
    >((st(k + 1), j + enc(k).len())) by {
        let a = wire::uleb(names[k].func as nat);
        let b = wire::uleb(names[k].ret as nat);
        let d = wire::uleb(names[k].name.0 as nat);
        wire::lemma_at_concat(s, j, a + b, d);
        wire::lemma_at_concat(s, j, a, b);
        wire::lemma_u32_roundtrip(s, j, names[k].func);
        wire::lemma_u32_roundtrip(s, j + a.len(), names[k].ret);
        wire::lemma_u32_roundtrip(s, j + (a + b).len(), names[k].name.0);
        assert(names.take(k + 1) =~= names.take(k).push(names[k]));
    }
    wire::lemma_list_roundtrip::<OutputItem>(s, i, n, enc, st);
    assert(names.take(0) =~= Seq::<FunctionOutputNameEntry>::empty());
    assert(names.take(n as int) =~= names);
}

proof fn lemma_outputs_roundtrip(names: Seq<FunctionOutputNameEntry>)
    requires
        ({
            let s = wire::uleb(names.len()) + wire::cat(names.len(), container::output_enc(names));
            s.len() <= usize::MAX
        }),
    ensures
        decode::outputs_of(
            wire::uleb(names.len()) + wire::cat(names.len(), container::output_enc(names)),
        ) == Ok::<Seq<FunctionOutputNameEntry>, DecodeError>(names),
{
    let s = wire::uleb(names.len()) + wire::cat(names.len(), container::output_enc(names));
    let enc = container::output_enc(names);
    assert forall|k: int| 0 <= k < names.len() implies (#[trigger] enc(k)).len() >= 1 by {
        wire::lemma_uleb_len(names[k].func as nat);
    }
    wire::lemma_cat_len(names.len(), enc);
    assert(s.subrange(0, s.len() as int) =~= s);
    lemma_output_list_roundtrip(s, 0, names);
}

/// The names are in the order in which they are written.
pub open spec fn names_sorted(p: ProgramView) -> bool {
    &&& vstd::relations::sorted_by(p.function_names, container::function_name_le())
    &&& vstd::relations::sorted_by(p.labels, container::label_le())
    &&& vstd::relations::sorted_by(p.function_output_names, container::output_le())
}

/// Sorted names are written in their order.
proof fn lemma_names_sorted(p: ProgramView)
    requires
        names_sorted(p),
    ensures
        p.function_names.sort_by(container::function_name_le()) == p.function_names,
        p.labels.sort_by(container::label_le()) == p.labels,
        p.function_output_names.sort_by(container::output_le()) == p.function_output_names,
{
    <FunctionNameEntry as Ordered>::order_is_total();
    <LabelNameEntry as Ordered>::order_is_total();
    <FunctionOutputNameEntry as Ordered>::order_is_total();
    crate::sort::lemma_sort_sorted(p.function_names, container::function_name_le());
    crate::sort::lemma_sort_sorted(p.labels, container::label_le());
    crate::sort::lemma_sort_sorted(p.function_output_names, container::output_le());
}

/// The name section reads back.
proof fn lemma_names_roundtrip(p: ProgramView)
    requires
        names_sorted(p),
        container::names_payload(p).len() <= usize::MAX,
    ensures
        decode::names_of(container::names_payload(p)) == Ok::<NamesModel, DecodeError>(
            NamesModel {
                program_name: p.program_name,
                function_names: p.function_names,
                labels: p.labels,
            },
        ),
{
    lemma_names_sorted(p);
    let s = container::names_payload(p);
    let funcs = p.function_names;
    let labels = p.labels;
    let x = container::program_name_bytes(p.program_name);
    let y = wire::uleb(funcs.len()) + wire::cat(funcs.len(), container::function_name_enc(funcs));
    let z = wire::uleb(labels.len()) + wire::cat(labels.len(), container::label_enc(labels));
    assert(s.subrange(0, s.len() as int) =~= s);
    wire::lemma_at_concat(s, 0, x + y, z);
    wire::lemma_at_concat(s, 0, x, y);
    assert(s[0] == s.subrange(0, x.len() as int)[0]);
    if let Some(id) = p.program_name {
        wire::lemma_at_concat(s, 0, seq![1u8], wire::uleb(id.0 as nat));
        wire::lemma_u32_roundtrip(s, 1, id.0);
    }
    assert forall|k: int| 0 <= k < funcs.len() implies (#[trigger] (container::function_name_enc(
        funcs,
    ))(k)).len() >= 1 by {
        wire::lemma_uleb_len(funcs[k].func as nat);
    }
    wire::lemma_cat_len(funcs.len(), container::function_name_enc(funcs));
    assert forall|k: int| 0 <= k < labels.len() implies (#[trigger] (container::label_enc(labels))(
        k,
    )).len() >= 1 by {
        wire::lemma_uleb_len(labels[k].func as nat);
    }
    wire::lemma_cat_len(labels.len(), container::label_enc(labels));
    lemma_function_names_roundtrip(s, x.len() as int, funcs);
    lemma_labels_roundtrip(s, (x + y).len() as int, labels);
}

// ---------------------------------------------------------------------------------------------
// The whole container.
// ---------------------------------------------------------------------------------------------

/// One section is read, and then the rest.
proof fn lemma_section_step(
    s: Seq<u8>,
    i: int,
    tag: u8,
    payload: Seq<u8>,
    acc: SectionsView,
    acc1: SectionsView,
)
    requires
        wire::at(s, i, container::section(tag, payload)),
        payload.len() <= usize::MAX,
        acc.with(tag, payload) == Ok::<SectionsView, DecodeError>(acc1),
    ensures
        decode::sections_at(s, i, acc) == decode::sections_at(
            s,
            i + container::section(tag, payload).len(),
            acc1,
        ),
{
    wire::lemma_at_concat(s, i, seq![tag], wire::blob(payload));
    assert(s[i] == s.subrange(i, i + 1)[0]);
    wire::lemma_blob_roundtrip(s, i + 1, payload);
}

/// The contents can be packed without exceeding the 32-bit ranges of the format, and their parts
/// fit together.
#[verifier::opaque]
pub open spec fn fits(c: Contents) -> bool {
    let p = c.pack();
    &&& consts_valid(c.consts)
    &&& structs_valid(c.structs)
    &&& types_fit(pack::pack_structs(c.structs))
    &&& p.symbol_data.len() <= u32::MAX
    &&& p.const_bytes_data.len() <= u32::MAX
    &&& p.const_str_data.len() <= u32::MAX
    &&& p.value_types.len() <= u32::MAX
    &&& p.bytecode_data.len() <= u32::MAX
    &&& p.spans.len() <= u32::MAX
    &&& names_sorted(p)
    &&& decode::names_fit(
        NamesModel {
            program_name: p.program_name,
            function_names: p.function_names,
            labels: p.labels,
        },
        p.function_output_names,
        p.symbols.len(),
        p.functions,
    )
}

/// The mandatory sections of packed contents, read back.
spec fn mandatory_read(c: Contents, p: ProgramView) -> SectionsView {
    SectionsView {
        symbols: Some(pack::pack_symbols(c.symbols)),
        consts: Some(pack::pack_consts(c.consts)),
        types: Some(TypesModel { structs: c.structs, array_elems: c.array_elems }),
        table: Some(table_entries(p.functions)),
        blobs: Some(codes(c.functions)),
        spans: Some(span_tables(c.functions)),
        sigs: Some(sig_models(c.functions)),
        host_sigs: Some(c.host_sigs),
        names: None,
        outputs: None,
    }
}

proof fn lemma_with_symbols(c: Contents, p: ProgramView, acc: SectionsView)
    requires
        fits(c),
        p == c.pack(),
        acc.symbols is None,
        container::symbols_payload(p).len() <= usize::MAX,
    ensures
        acc.with(1, container::symbols_payload(p)) == Ok::<SectionsView, DecodeError>(
            SectionsView { symbols: mandatory_read(c, p).symbols, ..acc },
        ),
{
    reveal(SectionsView::with);
    reveal(fits);
    lemma_symbols_roundtrip(c, p);
}

proof fn lemma_with_consts(c: Contents, p: ProgramView, acc: SectionsView)
    requires
        fits(c),
        p == c.pack(),
        acc.consts is None,
        container::consts_payload(p).len() <= usize::MAX,
    ensures
        acc.with(2, container::consts_payload(p)) == Ok::<SectionsView, DecodeError>(
            SectionsView { consts: mandatory_read(c, p).consts, ..acc },
        ),
{
    reveal(SectionsView::with);
    reveal(fits);
    lemma_consts_roundtrip(c, p);
}

proof fn lemma_with_types(c: Contents, p: ProgramView, acc: SectionsView)
    requires
        fits(c),
        p == c.pack(),
        acc.types is None,
        container::types_payload(p.types).len() <= usize::MAX,
    ensures
        acc.with(3, container::types_payload(p.types)) == Ok::<SectionsView, DecodeError>(
            SectionsView { types: mandatory_read(c, p).types, ..acc },
        ),
{
    reveal(SectionsView::with);
    reveal(fits);
    lemma_types_roundtrip(c.structs, c.array_elems);
}

proof fn lemma_with_blobs(c: Contents, p: ProgramView, acc: SectionsView)
    requires
        fits(c),
        p == c.pack(),
        acc.blobs is None,
        container::bytecode_payload(p).len() <= usize::MAX,
    ensures
        acc.with(5, container::bytecode_payload(p)) == Ok::<SectionsView, DecodeError>(
            SectionsView { blobs: mandatory_read(c, p).blobs, ..acc },
        ),
{
    reveal(SectionsView::with);
    reveal(fits);
    lemma_bytecode_roundtrip(c, p);
}

proof fn lemma_with_spans(c: Contents, p: ProgramView, acc: SectionsView)
    requires
        fits(c),
        p == c.pack(),
        acc.spans is None,
        container::spans_payload(p).len() <= usize::MAX,
    ensures
        acc.with(6, container::spans_payload(p)) == Ok::<SectionsView, DecodeError>(
            SectionsView { spans: mandatory_read(c, p).spans, ..acc },
        ),
{
    reveal(SectionsView::with);
    reveal(fits);
    lemma_spans_roundtrip(c, p);
}

proof fn lemma_with_table(c: Contents, p: ProgramView, acc: SectionsView)
    requires
        fits(c),
        p == c.pack(),
        acc.table is None,
        container::table_payload(p).len() <= usize::MAX,
    ensures
        acc.with(4, container::table_payload(p)) == Ok::<SectionsView, DecodeError>(
            SectionsView { table: mandatory_read(c, p).table, ..acc },
        ),
{
    reveal(SectionsView::with);
    reveal(fits);
    lemma_table_roundtrip(p);
}

proof fn lemma_with_sigs(c: Contents, p: ProgramView, acc: SectionsView)
    requires
        fits(c),
        p == c.pack(),
        acc.sigs is None,
        container::sigs_payload(p).len() <= usize::MAX,
    ensures
        acc.with(7, container::sigs_payload(p)) == Ok::<SectionsView, DecodeError>(
            SectionsView { sigs: mandatory_read(c, p).sigs, ..acc },
        ),
{
    reveal(SectionsView::with);
    reveal(fits);
    lemma_sigs_roundtrip(c, p);
}

proof fn lemma_with_host_sigs(c: Contents, p: ProgramView, acc: SectionsView)
    requires
        fits(c),
        p == c.pack(),
        acc.host_sigs is None,
        container::host_sigs_payload(p).len() <= usize::MAX,
    ensures
        acc.with(8, container::host_sigs_payload(p)) == Ok::<SectionsView, DecodeError>(
            SectionsView { host_sigs: mandatory_read(c, p).host_sigs, ..acc },
        ),
{
    reveal(SectionsView::with);
    reveal(fits);
    lemma_host_sigs_roundtrip(c, p);
}

/// Eight sections are read one by one.
proof fn lemma_eight_sections(s: Seq<u8>, i: int, tags: Seq<u8>, ps: Seq<Seq<u8>>, vs: Seq<SectionsView>)
    requires
        tags.len() == 8,
        ps.len() == 8,
        vs.len() == 9,
        forall|k: int| 0 <= k < 8 ==> (#[trigger] ps[k]).len() <= usize::MAX,
        forall|k: int|
            0 <= k < 8 ==> (#[trigger] vs[k]).with(tags[k], ps[k]) == Ok::<
                SectionsView,
                DecodeError,
            >(vs[k + 1]),
        wire::at(s, i, eight_sections(tags, ps)),
    ensures
        decode::sections_at(s, i, vs[0]) == decode::sections_at(
            s,
            i + eight_sections(tags, ps).len(),
            vs[8],
        ),
{
    let e = |k: int| container::section(tags[k], ps[k]);
    let a2 = e(0) + e(1);
    let a3 = a2 + e(2);
    let a4 = a3 + e(3);
    let a5 = a4 + e(4);
    let a6 = a5 + e(5);
    let a7 = a6 + e(6);
    wire::lemma_at_concat(s, i, a7, e(7));
    wire::lemma_at_concat(s, i, a6, e(6));
    wire::lemma_at_concat(s, i, a5, e(5));
    wire::lemma_at_concat(s, i, a4, e(4));
    wire::lemma_at_concat(s, i, a3, e(3));
    wire::lemma_at_concat(s, i, a2, e(2));
    wire::lemma_at_concat(s, i, e(0), e(1));
    lemma_section_step(s, i, tags[0], ps[0], vs[0], vs[1]);
    lemma_section_step(s, i + e(0).len(), tags[1], ps[1], vs[1], vs[2]);
    lemma_section_step(s, i + a2.len(), tags[2], ps[2], vs[2], vs[3]);
    lemma_section_step(s, i + a3.len(), tags[3], ps[3], vs[3], vs[4]);
    lemma_section_step(s, i + a4.len(), tags[4], ps[4], vs[4], vs[5]);
    lemma_section_step(s, i + a5.len(), tags[5], ps[5], vs[5], vs[6]);
    lemma_section_step(s, i + a6.len(), tags[6], ps[6], vs[6], vs[7]);
    lemma_section_step(s, i + a7.len(), tags[7], ps[7], vs[7], vs[8]);
}

spec fn eight_sections(tags: Seq<u8>, ps: Seq<Seq<u8>>) -> Seq<u8> {
    container::section(tags[0], ps[0]) + container::section(tags[1], ps[1]) + container::section(
        tags[2],
        ps[2],
    ) + container::section(tags[3], ps[3]) + container::section(tags[4], ps[4])
        + container::section(tags[5], ps[5]) + container::section(tags[6], ps[6])
        + container::section(tags[7], ps[7])
}

/// The mandatory sections are read one by one.
#[verifier::rlimit(30)]
proof fn lemma_mandatory_read(s: Seq<u8>, i: int, c: Contents, p: ProgramView)
    requires
        fits(c),
        p == c.pack(),
        s.len() <= usize::MAX,
        wire::at(s, i, container::mandatory_sections(p)),
    ensures
        decode::sections_at(s, i, SectionsView::none()) == decode::sections_at(
            s,
            i + container::mandatory_sections(p).len(),
            mandatory_read(c, p),
        ),
{
    let tags = seq![1u8, 2, 3, 5, 6, 4, 7, 8];
    let ps = seq![
        container::symbols_payload(p),
        container::consts_payload(p),
        container::types_payload(p.types),
        container::bytecode_payload(p),
        container::spans_payload(p),
        container::table_payload(p),
        container::sigs_payload(p),
        container::host_sigs_payload(p),
    ];
    assert(eight_sections(tags, ps) == container::mandatory_sections(p));
    let v0 = SectionsView::none();
    let full = mandatory_read(c, p);
    let v1 = SectionsView { symbols: full.symbols, ..v0 };
    let v2 = SectionsView { consts: full.consts, ..v1 };
    let v3 = SectionsView { types: full.types, ..v2 };
    let v4 = SectionsView { blobs: full.blobs, ..v3 };
    let v5 = SectionsView { spans: full.spans, ..v4 };
    let v6 = SectionsView { table: full.table, ..v5 };
    let v7 = SectionsView { sigs: full.sigs, ..v6 };
    let v8 = SectionsView { host_sigs: full.host_sigs, ..v7 };
    assert(v8 == full);
    let vs = seq![v0, v1, v2, v3, v4, v5, v6, v7, v8];
    lemma_payload_lens(tags, ps);
    assert(ps[0].len() <= usize::MAX && ps[1].len() <= usize::MAX && ps[2].len() <= usize::MAX);
    assert(ps[3].len() <= usize::MAX && ps[4].len() <= usize::MAX && ps[5].len() <= usize::MAX);
    assert(ps[6].len() <= usize::MAX && ps[7].len() <= usize::MAX);
    lemma_with_symbols(c, p, v0);
    lemma_with_consts(c, p, v1);
    lemma_with_types(c, p, v2);
    lemma_with_blobs(c, p, v3);
    lemma_with_spans(c, p, v4);
    lemma_with_table(c, p, v5);
    lemma_with_sigs(c, p, v6);
    lemma_with_host_sigs(c, p, v7);
    lemma_eight_sections(s, i, tags, ps, vs);
}

proof fn lemma_payload_lens(tags: Seq<u8>, ps: Seq<Seq<u8>>)
    requires
        ps.len() == 8,
    ensures
        forall|k: int| 0 <= k < 8 ==> (#[trigger] ps[k]).len() <= eight_sections(tags, ps).len(),
{
}

/// The sections of packed contents make up the packed program.
proof fn lemma_assemble(c: Contents, sections: SectionsView)
    requires
        fits(c),
        c.functions.len() <= u64::MAX,
        sections == (SectionsView {
            names: sections.names,
            outputs: sections.outputs,
            ..mandatory_read(c, c.pack())
        }),
        sections.names_or_none() == (NamesModel {
            program_name: c.program_name,
            function_names: c.function_names,
            labels: c.labels,
        }),
        sections.outputs_or_none() == c.function_output_names,
    ensures
        sections.assemble() == Ok::<ProgramView, DecodeError>(c.pack()),
{
    reveal(fits);
    let p = c.pack();
    let vt = pack::pack_host_sigs(c.host_sigs).value_types;
    let a = pack::pack_functions(vt, c.functions);
    lemma_function_count(vt, c.functions);
    lemma_join_host_sigs(c.host_sigs);
    lemma_join_codes(vt, c.functions);
    let code = a.entries.map_values(|f: Function| f.bytecode);
    let spans = a.entries.map_values(|f: Function| f.spans);
    lemma_join_functions(vt, c.functions, code, spans);
    assert(sections.program() == Some(p));
}

/// The name sections of a program.
spec fn optional_sections(p: ProgramView) -> Seq<u8> {
    (if container::has_names(p) {
        container::section(9, container::names_payload(p))
    } else {
        seq![]
    }) + (if p.function_output_names.len() > 0 {
        container::section(10, container::outputs_payload(p))
    } else {
        seq![]
    })
}

/// What is read when the name sections follow `v`.
spec fn optional_read(p: ProgramView, v: SectionsView) -> SectionsView {
    SectionsView {
        names: if container::has_names(p) {
            Some(
                NamesModel {
                    program_name: p.program_name,
                    function_names: p.function_names,
                    labels: p.labels,
                },
            )
        } else {
            None
        },
        outputs: if p.function_output_names.len() > 0 {
            Some(p.function_output_names)
        } else {
            None
        },
        ..v
    }
}

proof fn lemma_with_names(p: ProgramView, acc: SectionsView)
    requires
        names_sorted(p),
        acc.names is None,
        container::names_payload(p).len() <= usize::MAX,
    ensures
        acc.with(9, container::names_payload(p)) == Ok::<SectionsView, DecodeError>(
            SectionsView {
                names: Some(
                    NamesModel {
                        program_name: p.program_name,
                        function_names: p.function_names,
                        labels: p.labels,
                    },
                ),
                ..acc
            },
        ),
{
    reveal(SectionsView::with);
    reveal(fits);
    lemma_names_roundtrip(p);
}

proof fn lemma_with_outputs(p: ProgramView, acc: SectionsView)
    requires
        names_sorted(p),
        acc.outputs is None,
        container::outputs_payload(p).len() <= usize::MAX,
    ensures
        acc.with(10, container::outputs_payload(p)) == Ok::<SectionsView, DecodeError>(
            SectionsView { outputs: Some(p.function_output_names), ..acc },
        ),
{
    reveal(SectionsView::with);
    reveal(fits);
    lemma_names_sorted(p);
    lemma_outputs_roundtrip(p.function_output_names);
}

/// The name sections are read to the end.
proof fn lemma_optional_read(s: Seq<u8>, i: int, p: ProgramView, v: SectionsView)
    requires
        names_sorted(p),
        s.len() <= usize::MAX,
        v.names is None,
        v.outputs is None,
        wire::at(s, i, optional_sections(p)),
        i + optional_sections(p).len() == s.len(),
    ensures
        decode::sections_at(s, i, v) == Ok::<SectionsView, DecodeError>(optional_read(p, v)),
{
    let x = if container::has_names(p) {
        container::section(9, container::names_payload(p))
    } else {
        seq![]
    };
    let y = if p.function_output_names.len() > 0 {
        container::section(10, container::outputs_payload(p))
    } else {
        seq![]
    };
    wire::lemma_at_concat(s, i, x, y);
    let v2 = optional_read(p, v);
    let v1 = SectionsView { names: v2.names, ..v };
    if container::has_names(p) {
        lemma_with_names(p, v);
        lemma_section_step(s, i, 9, container::names_payload(p), v, v1);
    }
    let j = i + x.len();
    if p.function_output_names.len() > 0 {
        lemma_with_outputs(p, v1);
        lemma_section_step(s, j, 10, container::outputs_payload(p), v1, v2);
    }
    assert(decode::sections_at(s, s.len() as int, v2) == Ok::<SectionsView, DecodeError>(v2));
}

/// Reading back what was written gives the program that was written: for every program that is
/// packed from contents that fit the format, with its names in order,
/// `decode(encode(p)) == Ok(p)`.
#[verifier::spinoff_prover]
#[verifier::rlimit(60)]
pub proof fn law_decode_encode(c: Contents)
    requires
        fits(c),
        container::encode_program(c.pack()).len() <= usize::MAX,
    ensures
        decode::decode_program(container::encode_program(c.pack())) == Ok::<
            ProgramView,
            DecodeError,
        >(c.pack()),
{
    let p = c.pack();
    let s = container::encode_program(p);
    let h = container::header();
    let m = container::mandatory_sections(p);
    let o = optional_sections(p);
    assert(s =~= h + m + o);
    assert(s.subrange(0, s.len() as int) =~= s);
    wire::lemma_at_concat(s, 0, h + m, o);
    wire::lemma_at_concat(s, 0, h, m);
    lemma_header(s);
    lemma_mandatory_read(s, 12, c, p);
    let v = mandatory_read(c, p);
    assert(names_sorted(p)) by {
        reveal(fits);
    }
    lemma_optional_read(s, 12int + m.len(), p, v);
    lemma_function_total(c);
    lemma_optional_names(p, v);
    lemma_assemble(c, optional_read(p, v));
}

/// The same contents, with the names in order.
pub open spec fn ordered(c: Contents) -> Contents {
    Contents {
        function_names: c.function_names.sort_by(container::function_name_le()),
        labels: c.labels.sort_by(container::label_le()),
        function_output_names: c.function_output_names.sort_by(container::output_le()),
        ..c
    }
}

/// What is written does not depend on the order of the names.
proof fn lemma_encode_ordered(c: Contents)
    ensures
        container::encode_program(c.pack()) == container::encode_program(ordered(c).pack()),
        names_sorted(ordered(c).pack()),
{
    <FunctionNameEntry as Ordered>::order_is_total();
    <LabelNameEntry as Ordered>::order_is_total();
    <FunctionOutputNameEntry as Ordered>::order_is_total();
    let (p, q) = (c.pack(), ordered(c).pack());
    c.function_names.lemma_sort_by_ensures(container::function_name_le());
    c.labels.lemma_sort_by_ensures(container::label_le());
    c.function_output_names.lemma_sort_by_ensures(container::output_le());
    c.function_names.to_multiset_ensures();
    q.function_names.to_multiset_ensures();
    c.labels.to_multiset_ensures();
    q.labels.to_multiset_ensures();
    c.function_output_names.to_multiset_ensures();
    q.function_output_names.to_multiset_ensures();
    lemma_names_sorted(q);
    assert(container::mandatory_sections(p) == container::mandatory_sections(q));
    assert(container::names_payload(p) == container::names_payload(q));
    assert(container::outputs_payload(p) == container::outputs_payload(q));
}

/// Reading back what was written puts the names in order and changes nothing else: for every program
/// that is packed from contents that fit the format, `decode(encode(p))` is `p` with its names in
/// order.
pub proof fn law_decode_orders_names(c: Contents)
    requires
        fits(ordered(c)),
        container::encode_program(c.pack()).len() <= usize::MAX,
    ensures
        decode::decode_program(container::encode_program(c.pack())) == Ok::<
            ProgramView,
            DecodeError,
        >(ordered(c).pack()),
{
    lemma_encode_ordered(c);
    law_decode_encode(ordered(c));
}

proof fn lemma_optional_names(p: ProgramView, v: SectionsView)
    ensures
        optional_read(p, v).names_or_none() == (NamesModel {
            program_name: p.program_name,
            function_names: p.function_names,
            labels: p.labels,
        }),
        optional_read(p, v).outputs_or_none() == p.function_output_names,
{
    if !container::has_names(p) {
        assert(p.function_names =~= seq![]);
        assert(p.labels =~= seq![]);
    }
    if p.function_output_names.len() == 0 {
        assert(p.function_output_names =~= seq![]);
    }
}

/// Each function takes bytes of its own, so there are not more functions than bytes.
proof fn lemma_function_total(c: Contents)
    requires
        container::encode_program(c.pack()).len() <= usize::MAX,
    ensures
        c.functions.len() <= usize::MAX,
{
    let p = c.pack();
    let vt = pack::pack_host_sigs(c.host_sigs).value_types;
    lemma_function_count(vt, c.functions);
    let enc = container::table_enc(p);
    assert forall|k: int| 0 <= k < p.functions.len() implies (#[trigger] enc(k)).len() >= 1 by {
        wire::lemma_uleb_len(k as nat);
    }
    wire::lemma_cat_len(p.functions.len(), enc);
    assert(container::table_payload(p).len() >= p.functions.len());
    assert(container::section(4, container::table_payload(p)).len() >= p.functions.len());
}

/// A header reads back.
proof fn lemma_header(s: Seq<u8>)
    requires
        wire::at(s, 0, container::header()),
    ensures
        container::header().len() == 12,
        decode::decode_program(s) == decode::body_at(s, 12),
{
    let m = container::magic();
    let a = wire::le(program::VERSION_MAJOR as nat, 2);
    let b = wire::le(program::VERSION_MINOR as nat, 2);
    wire::lemma_at_concat(s, 0, m + a, b);
    wire::lemma_at_concat(s, 0, m, a);
    reveal_with_fuel(wire::le_limit, 3);
    wire::lemma_le_roundtrip(s, 8, program::VERSION_MAJOR as nat, 2);
    wire::lemma_le_roundtrip(s, 10, program::VERSION_MINOR as nat, 2);
}

// ---------------------------------------------------------------------------------------------
// Sections behind a program.
// ---------------------------------------------------------------------------------------------

proof fn lemma_uleb_extend(s: Seq<u8>, t: Seq<u8>, i: int, k: nat)
    requires
        k <= 9,
        wire::uleb_from(s, i, k) is Ok,
    ensures
        wire::uleb_from(s + t, i, k) == wire::uleb_from(s, i, k),
    decreases 10 - k,
{
    assert((s + t)[i] == s[i]);
    if s[i] >= 128 {
        lemma_uleb_extend(s, t, i + 1, k + 1);
    }
}

proof fn lemma_blob_extend(s: Seq<u8>, t: Seq<u8>, i: int)
    requires
        wire::blob_at(s, i) is Ok,
    ensures
        wire::blob_at(s + t, i) == wire::blob_at(s, i),
{
    lemma_uleb_extend(s, t, i, 0);
    let (len, j) = wire::usize_at(s, i)->Ok_0;
    wire::lemma_uleb_at_bounds(s, i);
    assert((s + t).subrange(j, j + len) =~= s.subrange(j, j + len));
}

/// Sections that can be read are read the same way when more bytes follow.
proof fn lemma_sections_extend(s: Seq<u8>, t: Seq<u8>, i: int, acc: SectionsView)
    requires
        0 <= i <= s.len(),
        decode::sections_at(s, i, acc) is Ok,
    ensures
        decode::sections_at(s + t, i, acc) == decode::sections_at(
            s + t,
            s.len() as int,
            decode::sections_at(s, i, acc)->Ok_0,
        ),
    decreases s.len() - i,
{
    if i < s.len() {
        assert((s + t)[i] == s[i]);
        lemma_blob_extend(s, t, i + 1);
        decode::lemma_blob_at_bounds(s, i + 1);
        let (payload, n) = wire::blob_at(s, i + 1)->Ok_0;
        let acc1 = acc.with(s[i], payload)->Ok_0;
        lemma_sections_extend(s, t, n, acc1);
    }
}

/// The header of a program is still there when more bytes follow.
proof fn lemma_header_extend(s: Seq<u8>, t: Seq<u8>)
    requires
        decode::decode_program(s) is Ok,
    ensures
        s.len() >= 12,
        decode::decode_program(s) == decode::body_at(s, 12),
        decode::decode_program(s + t) == decode::body_at(s + t, 12),
{
    assert((s + t).subrange(0, 8) =~= s.subrange(0, 8));
    reveal_with_fuel(wire::le_value, 3);
    assert((s + t)[8] == s[8] && (s + t)[9] == s[9]);
    assert((s + t)[10] == s[10] && (s + t)[11] == s[11]);
}

/// Bytes that follow a program are read as sections, in the state that the program's own sections
/// leave.
proof fn lemma_append(s: Seq<u8>, t: Seq<u8>)
    requires
        decode::decode_program(s) is Ok,
    ensures
        decode::sections_at(s, 12, SectionsView::none()) is Ok,
        ({
            let v = decode::sections_at(s, 12, SectionsView::none())->Ok_0;
            &&& v.missing() is None
            &&& decode::decode_program(s) == v.assemble()
            &&& decode::decode_program(s + t) == match decode::sections_at(
                s + t,
                s.len() as int,
                v,
            ) {
                Ok(w) => w.assemble(),
                Err(e) => Err(e),
            }
        }),
{
    lemma_header_extend(s, t);
    lemma_sections_extend(s, t, 12, SectionsView::none());
}

/// A section with an unknown tag that follows a program is skipped.
pub proof fn law_unknown_section_skipped(s: Seq<u8>, tag: u8, payload: Seq<u8>)
    requires
        decode::decode_program(s) is Ok,
        tag == 0 || tag > 10,
        payload.len() <= usize::MAX,
    ensures
        decode::decode_program(s + container::section(tag, payload)) == decode::decode_program(s),
{
    let t = container::section(tag, payload);
    lemma_append(s, t);
    let v = decode::sections_at(s, 12, SectionsView::none())->Ok_0;
    reveal(SectionsView::with);
    assert((s + t).subrange(s.len() as int, (s + t).len() as int) =~= t);
    lemma_section_step(s + t, s.len() as int, tag, payload, v, v);
    assert(decode::sections_at(s + t, (s + t).len() as int, v) == Ok::<SectionsView, DecodeError>(
        v,
    ));
}

/// A second section of a mandatory kind is rejected, whatever it holds.
pub proof fn law_duplicate_section_rejected(s: Seq<u8>, tag: u8, payload: Seq<u8>)
    requires
        decode::decode_program(s) is Ok,
        1 <= tag <= 8,
        payload.len() <= usize::MAX,
    ensures
        decode::decode_program(s + container::section(tag, payload)) == Err::<
            ProgramView,
            DecodeError,
        >(DecodeError::DuplicateSection),
{
    let t = container::section(tag, payload);
    let st = s + t;
    let i = s.len() as int;
    lemma_append(s, t);
    let v = decode::sections_at(s, 12, SectionsView::none())->Ok_0;
    assert(v.with(tag, payload) == Err::<SectionsView, DecodeError>(DecodeError::DuplicateSection))
        by {
        reveal(SectionsView::with);
    }
    assert(st.subrange(i, st.len() as int) =~= t);
    wire::lemma_at_concat(st, i, seq![tag], wire::blob(payload));
    assert(st[i] == st.subrange(i, i + 1)[0]);
    wire::lemma_blob_roundtrip(st, i + 1, payload);
}

/// A container that is read as a program has all the mandatory sections.
pub proof fn law_sections_complete(s: Seq<u8>)
    requires
        decode::decode_program(s) is Ok,
    ensures
        decode::sections_at(s, 12, SectionsView::none()) matches Ok(v) && forall|tag: u8|
            1 <= tag <= 8 ==> v.has(tag),
{
    lemma_append(s, seq![]);
}

} // verus!
