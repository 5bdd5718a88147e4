//! Reading programs from their binary form.

use vstd::prelude::*;
use vstd::string::*;
use vstd::utf8::*;

use crate::container;
use crate::container::{magic_bytes, SectionTag};
use crate::host::SigHash;
use crate::pack;
use crate::pack::{append_piece, ConstArena, HostSigModel, SigArena, StructModel, SymbolArena};
use crate::program::{
    ByteRange, ConstEntry, Function, FunctionNameEntry, FunctionOutputNameEntry, HostSigEntry,
    HostTypeId, LabelNameEntry, Program, ProgramView, SpanEntry, StructTypeDef, SymbolEntry,
    SymbolId, TypeTable, TypeTableDef, ValueType, VERSION_MAJOR, VERSION_MINOR,
};
use crate::text::{bytes_eq, push_str};
use crate::wire;
use crate::wire::{read_usize, DecodeError, Item, Parsed, Reader};

verus! {

// ---------------------------------------------------------------------------------------------
// What a byte string holds.
// ---------------------------------------------------------------------------------------------

/// The byte at position `i` of `s`.
pub open spec fn byte_at(s: Seq<u8>, i: int) -> Parsed<u8> {
    if 0 <= i < s.len() {
        Ok((s[i], i + 1))
    } else {
        Err(DecodeError::UnexpectedEof)
    }
}

/// The value type at position `i` of `s`.
pub open spec fn value_type_at(s: Seq<u8>, i: int) -> Parsed<ValueType> {
    match byte_at(s, i) {
        Err(e) => Err(e),
        Ok((tag, j)) => if tag == 0 {
            Ok((ValueType::Unit, j))
        } else if tag == 1 {
            Ok((ValueType::Bool, j))
        } else if tag == 2 {
            Ok((ValueType::I64, j))
        } else if tag == 3 {
            Ok((ValueType::U64, j))
        } else if tag == 4 {
            Ok((ValueType::F64, j))
        } else if tag == 5 {
            Ok((ValueType::Decimal, j))
        } else if tag == 6 {
            Ok((ValueType::Bytes, j))
        } else if tag == 7 {
            Ok((ValueType::Str, j))
        } else if tag == 8 {
            match wire::le_at(s, j, 8) {
                Ok((v, n)) => Ok((ValueType::Obj(HostTypeId(v as u64)), n)),
                Err(e) => Err(e),
            }
        } else if tag == 9 {
            Ok((ValueType::Agg, j))
        } else if tag == 10 {
            Ok((ValueType::Func, j))
        } else {
            Err(DecodeError::OutOfBounds)
        },
    }
}

/// Value types in a list.
pub struct TypeItem;

impl Item for TypeItem {
    type State = Seq<ValueType>;

    open spec fn item_at(s: Seq<u8>, i: int, st: Seq<ValueType>) -> Parsed<Seq<ValueType>> {
        match value_type_at(s, i) {
            Ok((t, n)) => Ok((st.push(t), n)),
            Err(e) => Err(e),
        }
    }
}

/// Symbols.
pub struct SymbolItem;

impl Item for SymbolItem {
    type State = SymbolArena;

    open spec fn item_at(s: Seq<u8>, i: int, st: SymbolArena) -> Parsed<SymbolArena> {
        match wire::text_at(s, i) {
            Ok((b, n)) => if st.data.len() <= u32::MAX && b.len() <= u32::MAX {
                Ok((st.plus(b), n))
            } else {
                Err(DecodeError::OutOfBounds)
            },
            Err(e) => Err(e),
        }
    }
}

/// Constants.
pub struct ConstItem;

impl Item for ConstItem {
    type State = ConstArena;

    open spec fn item_at(s: Seq<u8>, i: int, st: ConstArena) -> Parsed<ConstArena> {
        match byte_at(s, i) {
            Err(e) => Err(e),
            Ok((tag, j)) => if tag == 0 {
                Ok((st.plus_plain(ConstEntry::Unit), j))
            } else if tag == 1 {
                match byte_at(s, j) {
                    Ok((b, n)) => Ok((st.plus_plain(ConstEntry::Bool(b != 0)), n)),
                    Err(e) => Err(e),
                }
            } else if tag == 2 {
                match wire::sleb_at(s, j) {
                    Ok((v, n)) => Ok((st.plus_plain(ConstEntry::I64(v as i64)), n)),
                    Err(e) => Err(e),
                }
            } else if tag == 3 {
                match wire::uleb_at(s, j) {
                    Ok((v, n)) => Ok((st.plus_plain(ConstEntry::U64(v as u64)), n)),
                    Err(e) => Err(e),
                }
            } else if tag == 4 {
                match wire::le_at(s, j, 8) {
                    Ok((v, n)) => Ok((st.plus_plain(ConstEntry::F64(v as u64)), n)),
                    Err(e) => Err(e),
                }
            } else if tag == 5 {
                match wire::sleb_at(s, j) {
                    Ok((v, n)) => match byte_at(s, n) {
                        Ok((scale, m)) => Ok(
                            (
                                st.plus_plain(ConstEntry::Decimal { mantissa: v as i64, scale }),
                                m,
                            ),
                        ),
                        Err(e) => Err(e),
                    },
                    Err(e) => Err(e),
                }
            } else if tag == 6 {
                match wire::blob_at(s, j) {
                    Ok((b, n)) => if st.bytes.len() <= u32::MAX && b.len() <= u32::MAX {
                        Ok((st.plus_bytes(b), n))
                    } else {
                        Err(DecodeError::OutOfBounds)
                    },
                    Err(e) => Err(e),
                }
            } else if tag == 7 {
                match wire::text_at(s, j) {
                    Ok((b, n)) => if st.text.len() <= u32::MAX && b.len() <= u32::MAX {
                        Ok((st.plus_text(b), n))
                    } else {
                        Err(DecodeError::OutOfBounds)
                    },
                    Err(e) => Err(e),
                }
            } else {
                Err(DecodeError::OutOfBounds)
            },
        }
    }
}

/// Field names.
pub struct NameItem;

impl Item for NameItem {
    type State = Seq<Seq<char>>;

    open spec fn item_at(s: Seq<u8>, i: int, st: Seq<Seq<char>>) -> Parsed<Seq<Seq<char>>> {
        match wire::text_at(s, i) {
            Ok((b, n)) => Ok((st.push(decode_utf8(b)), n)),
            Err(e) => Err(e),
        }
    }
}

/// Fields being read, with the table of field names that they refer to.
#[verifier::ext_equal]
pub struct FieldState {
    pub table: Seq<Seq<char>>,
    pub fields: StructModel,
}

/// Struct fields.
pub struct FieldItem;

impl Item for FieldItem {
    type State = FieldState;

    open spec fn item_at(s: Seq<u8>, i: int, st: FieldState) -> Parsed<FieldState> {
        match wire::usize_at(s, i) {
            Ok((id, j)) => if id < st.table.len() {
                match value_type_at(s, j) {
                    Ok((t, n)) => Ok(
                        (
                            FieldState {
                                table: st.table,
                                fields: StructModel {
                                    names: st.fields.names.push(st.table[id as int]),
                                    types: st.fields.types.push(t),
                                },
                            },
                            n,
                        ),
                    ),
                    Err(e) => Err(e),
                }
            } else {
                Err(DecodeError::OutOfBounds)
            },
            Err(e) => Err(e),
        }
    }
}

/// Structs being read, with the table of field names that they refer to.
#[verifier::ext_equal]
pub struct StructState {
    pub table: Seq<Seq<char>>,
    pub structs: Seq<StructModel>,
}

/// Struct types.
pub struct StructItem;

/// A struct without fields.
pub open spec fn no_fields() -> StructModel {
    StructModel { names: seq![], types: seq![] }
}

impl Item for StructItem {
    type State = StructState;

    open spec fn item_at(s: Seq<u8>, i: int, st: StructState) -> Parsed<StructState> {
        match wire::list_at::<FieldItem>(
            s,
            i,
            FieldState { table: st.table, fields: no_fields() },
        ) {
            Ok((f, n)) => Ok(
                (StructState { table: st.table, structs: st.structs.push(f.fields) }, n),
            ),
            Err(e) => Err(e),
        }
    }
}

/// The type definitions of a type section.
#[verifier::ext_equal]
pub struct TypesModel {
    pub structs: Seq<StructModel>,
    pub array_elems: Seq<ValueType>,
}

/// The type definitions in `s`.
pub open spec fn types_of(s: Seq<u8>) -> Result<TypesModel, DecodeError> {
    match wire::list_at::<NameItem>(s, 0, seq![]) {
        Err(e) => Err(e),
        Ok((table, i)) => match wire::list_at::<StructItem>(
            s,
            i,
            StructState { table, structs: seq![] },
        ) {
            Err(e) => Err(e),
            Ok((st, j)) => match wire::list_at::<TypeItem>(s, j, seq![]) {
                Err(e) => Err(e),
                Ok((array_elems, _)) => Ok(TypesModel { structs: st.structs, array_elems }),
            },
        },
    }
}

/// The types of a function.
#[verifier::ext_equal]
pub struct SigModel {
    pub args: Seq<ValueType>,
    pub rets: Seq<ValueType>,
}

/// Two lists of types, one after the other.
pub open spec fn sig_at(s: Seq<u8>, i: int) -> Parsed<SigModel> {
    match wire::list_at::<TypeItem>(s, i, seq![]) {
        Err(e) => Err(e),
        Ok((args, j)) => match wire::list_at::<TypeItem>(s, j, seq![]) {
            Err(e) => Err(e),
            Ok((rets, n)) => Ok((SigModel { args, rets }, n)),
        },
    }
}

/// Function signatures.
pub struct SigItem;

impl Item for SigItem {
    type State = Seq<SigModel>;

    open spec fn item_at(s: Seq<u8>, i: int, st: Seq<SigModel>) -> Parsed<Seq<SigModel>> {
        match sig_at(s, i) {
            Ok((sig, n)) => Ok((st.push(sig), n)),
            Err(e) => Err(e),
        }
    }
}

/// Host signatures.
pub struct HostSigItem;

impl Item for HostSigItem {
    type State = Seq<HostSigModel>;

    open spec fn item_at(s: Seq<u8>, i: int, st: Seq<HostSigModel>) -> Parsed<Seq<HostSigModel>> {
        match wire::u32_at(s, i) {
            Err(e) => Err(e),
            Ok((symbol, j)) => match wire::le_at(s, j, 8) {
                Err(e) => Err(e),
                Ok((h, k)) => match sig_at(s, k) {
                    Err(e) => Err(e),
                    Ok((sig, n)) => Ok(
                        (
                            st.push(
                                HostSigModel {
                                    symbol: SymbolId(symbol),
                                    sig_hash: SigHash(h as u64),
                                    args: sig.args,
                                    rets: sig.rets,
                                },
                            ),
                            n,
                        ),
                    ),
                },
            },
        }
    }
}

/// A function table entry.
#[derive(Copy, Clone, Debug, PartialEq, Eq, Structural)]
pub struct FunctionTableEntry {
    /// Number of value arguments.
    pub arg_count: u32,
    /// Number of value returns.
    pub ret_count: u32,
    /// Number of virtual registers.
    pub reg_count: u32,
    /// Which bytecode the function has.
    pub bytecode_index: u64,
    /// Which span table the function has.
    pub span_index: u64,
}

/// Function table entries.
pub struct TableItem;

impl Item for TableItem {
    type State = Seq<FunctionTableEntry>;

    open spec fn item_at(s: Seq<u8>, i: int, st: Seq<FunctionTableEntry>) -> Parsed<
        Seq<FunctionTableEntry>,
    > {
        match wire::u32_at(s, i) {
            Err(e) => Err(e),
            Ok((arg_count, j)) => match wire::u32_at(s, j) {
                Err(e) => Err(e),
                Ok((ret_count, k)) => match wire::u32_at(s, k) {
                    Err(e) => Err(e),
                    Ok((reg_count, l)) => match wire::uleb_at(s, l) {
                        Err(e) => Err(e),
                        Ok((b, m)) => match wire::uleb_at(s, m) {
                            Err(e) => Err(e),
                            Ok((sp, n)) => Ok(
                                (
                                    st.push(
                                        FunctionTableEntry {
                                            arg_count,
                                            ret_count,
                                            reg_count,
                                            bytecode_index: b as u64,
                                            span_index: sp as u64,
                                        },
                                    ),
                                    n,
                                ),
                            ),
                        },
                    },
                },
            },
        }
    }
}

/// Byte strings.
pub struct BlobItem;

impl Item for BlobItem {
    type State = Seq<Seq<u8>>;

    open spec fn item_at(s: Seq<u8>, i: int, st: Seq<Seq<u8>>) -> Parsed<Seq<Seq<u8>>> {
        match wire::blob_at(s, i) {
            Ok((b, n)) => Ok((st.push(b), n)),
            Err(e) => Err(e),
        }
    }
}

/// Span entries.
pub struct SpanItem;

impl Item for SpanItem {
    type State = Seq<SpanEntry>;

    open spec fn item_at(s: Seq<u8>, i: int, st: Seq<SpanEntry>) -> Parsed<Seq<SpanEntry>> {
        match wire::uleb_at(s, i) {
            Err(e) => Err(e),
            Ok((d, j)) => match wire::uleb_at(s, j) {
                Err(e) => Err(e),
                Ok((id, n)) => Ok(
                    (st.push(SpanEntry { pc_delta: d as u64, span_id: id as u64 }), n),
                ),
            },
        }
    }
}

/// Span tables.
pub struct SpanTableItem;

impl Item for SpanTableItem {
    type State = Seq<Seq<SpanEntry>>;

    open spec fn item_at(s: Seq<u8>, i: int, st: Seq<Seq<SpanEntry>>) -> Parsed<
        Seq<Seq<SpanEntry>>,
    > {
        match wire::list_at::<SpanItem>(s, i, seq![]) {
            Ok((spans, n)) => Ok((st.push(spans), n)),
            Err(e) => Err(e),
        }
    }
}

/// Function names.
pub struct FunctionNameItem;

impl Item for FunctionNameItem {
    type State = Seq<FunctionNameEntry>;

    open spec fn item_at(s: Seq<u8>, i: int, st: Seq<FunctionNameEntry>) -> Parsed<
        Seq<FunctionNameEntry>,
    > {
        match wire::u32_at(s, i) {
            Err(e) => Err(e),
            Ok((func, j)) => match wire::u32_at(s, j) {
                Err(e) => Err(e),
                Ok((name, n)) => Ok(
                    (st.push(FunctionNameEntry { func, name: SymbolId(name) }), n),
                ),
            },
        }
    }
}

/// Label names.
pub struct LabelItem;

impl Item for LabelItem {
    type State = Seq<LabelNameEntry>;

    open spec fn item_at(s: Seq<u8>, i: int, st: Seq<LabelNameEntry>) -> Parsed<
        Seq<LabelNameEntry>,
    > {
        match wire::u32_at(s, i) {
            Err(e) => Err(e),
            Ok((func, j)) => match wire::u32_at(s, j) {
                Err(e) => Err(e),
                Ok((pc, k)) => match wire::u32_at(s, k) {
                    Err(e) => Err(e),
                    Ok((name, n)) => Ok(
                        (st.push(LabelNameEntry { func, pc, name: SymbolId(name) }), n),
                    ),
                },
            },
        }
    }
}

/// Function output names.
pub struct OutputItem;

impl Item for OutputItem {
    type State = Seq<FunctionOutputNameEntry>;

    open spec fn item_at(s: Seq<u8>, i: int, st: Seq<FunctionOutputNameEntry>) -> Parsed<
        Seq<FunctionOutputNameEntry>,
    > {
        match wire::u32_at(s, i) {
            Err(e) => Err(e),
            Ok((func, j)) => match wire::u32_at(s, j) {
                Err(e) => Err(e),
                Ok((ret, k)) => match wire::u32_at(s, k) {
                    Err(e) => Err(e),
                    Ok((name, n)) => Ok(
                        (st.push(FunctionOutputNameEntry { func, ret, name: SymbolId(name) }), n),
                    ),
                },
            },
        }
    }
}

/// Program, function and label names.
#[verifier::ext_equal]
pub struct NamesModel {
    pub program_name: Option<SymbolId>,
    pub function_names: Seq<FunctionNameEntry>,
    pub labels: Seq<LabelNameEntry>,
}

/// The optional program name at position `i` of `s`.
pub open spec fn program_name_at(s: Seq<u8>, i: int) -> Parsed<Option<SymbolId>> {
    match byte_at(s, i) {
        Err(e) => Err(e),
        Ok((b, j)) => if b == 0 {
            Ok((None, j))
        } else if b == 1 {
            match wire::u32_at(s, j) {
                Err(e) => Err(e),
                Ok((id, n)) => Ok((Some(SymbolId(id)), n)),
            }
        } else {
            Err(DecodeError::OutOfBounds)
        },
    }
}

/// The names in `s`, which must hold nothing else.
pub open spec fn names_of(s: Seq<u8>) -> Result<NamesModel, DecodeError> {
    match program_name_at(s, 0) {
        Err(e) => Err(e),
        Ok((program_name, i)) => match wire::list_at::<FunctionNameItem>(s, i, seq![]) {
            Err(e) => Err(e),
            Ok((function_names, j)) => match wire::list_at::<LabelItem>(s, j, seq![]) {
                Err(e) => Err(e),
                Ok((labels, n)) => if n == s.len() {
                    Ok(NamesModel { program_name, function_names, labels })
                } else {
                    Err(DecodeError::OutOfBounds)
                },
            },
        },
    }
}

/// The output names in `s`, which must hold nothing else.
pub open spec fn outputs_of(s: Seq<u8>) -> Result<Seq<FunctionOutputNameEntry>, DecodeError> {
    match wire::list_at::<OutputItem>(s, 0, seq![]) {
        Err(e) => Err(e),
        Ok((names, n)) => if n == s.len() {
            Ok(names)
        } else {
            Err(DecodeError::OutOfBounds)
        },
    }
}

/// The value of a parse that may leave bytes over.
pub open spec fn value_of<T>(p: Parsed<T>) -> Result<T, DecodeError> {
    match p {
        Ok((v, _)) => Ok(v),
        Err(e) => Err(e),
    }
}

/// The empty symbol table.
pub open spec fn no_symbols() -> SymbolArena {
    SymbolArena { entries: seq![], data: seq![] }
}

/// The empty constant pool.
pub open spec fn no_consts() -> ConstArena {
    ConstArena { entries: seq![], bytes: seq![], text: seq![] }
}

/// The sections met so far.
#[verifier::ext_equal]
pub struct SectionsView {
    pub symbols: Option<SymbolArena>,
    pub consts: Option<ConstArena>,
    pub types: Option<TypesModel>,
    pub table: Option<Seq<FunctionTableEntry>>,
    pub blobs: Option<Seq<Seq<u8>>>,
    pub spans: Option<Seq<Seq<SpanEntry>>>,
    pub sigs: Option<Seq<SigModel>>,
    pub host_sigs: Option<Seq<HostSigModel>>,
    pub names: Option<NamesModel>,
    pub outputs: Option<Seq<FunctionOutputNameEntry>>,
}

impl SectionsView {
    /// No section yet.
    pub open spec fn none() -> Self {
        SectionsView {
            symbols: None,
            consts: None,
            types: None,
            table: None,
            blobs: None,
            spans: None,
            sigs: None,
            host_sigs: None,
            names: None,
            outputs: None,
        }
    }

    /// Whether a section with the tag byte `tag` was met.
    pub open spec fn has(self, tag: u8) -> bool {
        ||| (tag == 1 && self.symbols is Some)
        ||| (tag == 2 && self.consts is Some)
        ||| (tag == 3 && self.types is Some)
        ||| (tag == 4 && self.table is Some)
        ||| (tag == 5 && self.blobs is Some)
        ||| (tag == 6 && self.spans is Some)
        ||| (tag == 7 && self.sigs is Some)
        ||| (tag == 8 && self.host_sigs is Some)
        ||| (tag == 9 && self.names is Some)
        ||| (tag == 10 && self.outputs is Some)
    }

    /// The sections after one more.
    #[verifier::opaque]
    pub open spec fn with(self, tag: u8, s: Seq<u8>) -> Result<Self, DecodeError> {
        if self.has(tag) {
            Err(DecodeError::DuplicateSection)
        } else if tag == 1 {
            match value_of(wire::list_at::<SymbolItem>(s, 0, no_symbols())) {
                Ok(v) => Ok(SectionsView { symbols: Some(v), ..self }),
                Err(e) => Err(e),
            }
        } else if tag == 2 {
            match value_of(wire::list_at::<ConstItem>(s, 0, no_consts())) {
                Ok(v) => Ok(SectionsView { consts: Some(v), ..self }),
                Err(e) => Err(e),
            }
        } else if tag == 3 {
            match types_of(s) {
                Ok(v) => Ok(SectionsView { types: Some(v), ..self }),
                Err(e) => Err(e),
            }
        } else if tag == 4 {
            match value_of(wire::list_at::<TableItem>(s, 0, seq![])) {
                Ok(v) => Ok(SectionsView { table: Some(v), ..self }),
                Err(e) => Err(e),
            }
        } else if tag == 5 {
            match value_of(wire::list_at::<BlobItem>(s, 0, seq![])) {
                Ok(v) => Ok(SectionsView { blobs: Some(v), ..self }),
                Err(e) => Err(e),
            }
        } else if tag == 6 {
            match value_of(wire::list_at::<SpanTableItem>(s, 0, seq![])) {
                Ok(v) => Ok(SectionsView { spans: Some(v), ..self }),
                Err(e) => Err(e),
            }
        } else if tag == 7 {
            match value_of(wire::list_at::<SigItem>(s, 0, seq![])) {
                Ok(v) => Ok(SectionsView { sigs: Some(v), ..self }),
                Err(e) => Err(e),
            }
        } else if tag == 8 {
            match value_of(wire::list_at::<HostSigItem>(s, 0, seq![])) {
                Ok(v) => Ok(SectionsView { host_sigs: Some(v), ..self }),
                Err(e) => Err(e),
            }
        } else if tag == 9 {
            match names_of(s) {
                Ok(v) => Ok(SectionsView { names: Some(v), ..self }),
                Err(e) => Err(e),
            }
        } else if tag == 10 {
            match outputs_of(s) {
                Ok(v) => Ok(SectionsView { outputs: Some(v), ..self }),
                Err(e) => Err(e),
            }
        } else {
            Ok(self)
        }
    }
}

/// Reading a byte string moves forward inside the input.
pub proof fn lemma_blob_at_bounds(s: Seq<u8>, i: int)
    ensures
        wire::blob_at(s, i) matches Ok((b, n)) ==> i < n <= s.len(),
{
    wire::lemma_uleb_at_bounds(s, i);
}

/// The sections in `s` from position `i` on, added to `acc`.
pub open spec fn sections_at(s: Seq<u8>, i: int, acc: SectionsView) -> Result<
    SectionsView,
    DecodeError,
>
    decreases s.len() - i,
{
    if !(0 <= i < s.len()) {
        Ok(acc)
    } else {
        match wire::blob_at(s, i + 1) {
            Err(e) => Err(e),
            Ok((payload, n)) => match acc.with(s[i], payload) {
                Err(e) => Err(e),
                Ok(acc1) => {
                    proof {
                        lemma_blob_at_bounds(s, i + 1);
                    }
                    sections_at(s, n, acc1)
                },
            },
        }
    }
}

/// Pieces put one after the other.
#[verifier::ext_equal]
pub struct Pieces<T> {
    pub ranges: Seq<ByteRange>,
    pub data: Seq<T>,
}

/// Puts `pieces` one after the other, where each start and each length fits in a `u32`.
pub open spec fn join<T>(pieces: Seq<Seq<T>>) -> Option<Pieces<T>>
    decreases pieces.len(),
{
    if pieces.len() == 0 {
        Some(Pieces { ranges: seq![], data: seq![] })
    } else {
        match join(pieces.drop_last()) {
            None => None,
            Some(p) => if p.data.len() <= u32::MAX && pieces.last().len() <= u32::MAX {
                Some(
                    Pieces {
                        ranges: p.ranges.push(pack::next_range(p.data.len(), pieces.last().len())),
                        data: p.data + pieces.last(),
                    },
                )
            } else {
                None
            },
        }
    }
}

/// Packs host signatures, where each start and each length fits in a `u32`.
pub open spec fn join_host_sigs(sigs: Seq<HostSigModel>) -> Option<SigArena>
    decreases sigs.len(),
{
    if sigs.len() == 0 {
        Some(SigArena { entries: seq![], value_types: seq![] })
    } else {
        match join_host_sigs(sigs.drop_last()) {
            None => None,
            Some(a) => if a.value_types.len() + sigs.last().args.len() <= u32::MAX
                && sigs.last().rets.len() <= u32::MAX {
                Some(a.plus(sigs.last()))
            } else {
                None
            },
        }
    }
}

/// Functions being assembled.
#[verifier::ext_equal]
pub struct TableArena {
    pub functions: Seq<Function>,
    pub value_types: Seq<ValueType>,
}

/// Combines table entries with their signatures, bytecode and spans, where the indices are in range
/// and each start and each length fits in a `u32`. The types follow `value_types`.
pub open spec fn join_functions(
    value_types: Seq<ValueType>,
    table: Seq<FunctionTableEntry>,
    sigs: Seq<SigModel>,
    code: Seq<ByteRange>,
    spans: Seq<ByteRange>,
) -> Option<TableArena>
    decreases table.len(),
{
    if table.len() == 0 {
        Some(TableArena { functions: seq![], value_types })
    } else {
        let e = table.last();
        let sig = sigs.last();
        match join_functions(value_types, table.drop_last(), sigs.drop_last(), code, spans) {
            None => None,
            Some(a) => if e.bytecode_index < code.len() && e.span_index < spans.len()
                && a.value_types.len() + sig.args.len() <= u32::MAX && sig.rets.len() <= u32::MAX {
                Some(
                    TableArena {
                        functions: a.functions.push(
                            Function {
                                arg_count: e.arg_count,
                                ret_count: e.ret_count,
                                reg_count: e.reg_count,
                                bytecode: code[e.bytecode_index as int],
                                spans: spans[e.span_index as int],
                                arg_types: pack::next_range(a.value_types.len(), sig.args.len()),
                                ret_types: pack::next_range(
                                    a.value_types.len() + sig.args.len(),
                                    sig.rets.len(),
                                ),
                            },
                        ),
                        value_types: a.value_types + sig.args + sig.rets,
                    },
                )
            } else {
                None
            },
        }
    }
}

/// All names refer to symbols, functions, positions and outputs that exist.
pub open spec fn names_fit(
    names: NamesModel,
    outputs: Seq<FunctionOutputNameEntry>,
    n_symbols: nat,
    functions: Seq<Function>,
) -> bool {
    &&& names.program_name matches Some(id) ==> id.0 < n_symbols
    &&& forall|k: int|
        0 <= k < names.function_names.len() ==> {
            &&& (#[trigger] names.function_names[k]).func < functions.len()
            &&& names.function_names[k].name.0 < n_symbols
        }
    &&& forall|k: int|
        0 <= k < names.labels.len() ==> {
            &&& (#[trigger] names.labels[k]).func < functions.len()
            &&& names.labels[k].pc <= functions[names.labels[k].func as int].bytecode.len
            &&& names.labels[k].name.0 < n_symbols
        }
    &&& forall|k: int|
        0 <= k < outputs.len() ==> {
            &&& (#[trigger] outputs[k]).func < functions.len()
            &&& outputs[k].ret < functions[outputs[k].func as int].ret_count
            &&& outputs[k].name.0 < n_symbols
        }
}

/// No names.
pub open spec fn no_names() -> NamesModel {
    NamesModel { program_name: None, function_names: seq![], labels: seq![] }
}

impl SectionsView {
    /// The tag byte of the first mandatory section that is missing.
    pub open spec fn missing(self) -> Option<u8> {
        if self.symbols is None {
            Some(1)
        } else if self.consts is None {
            Some(2)
        } else if self.types is None {
            Some(3)
        } else if self.sigs is None {
            Some(7)
        } else if self.table is None {
            Some(4)
        } else if self.blobs is None {
            Some(5)
        } else if self.spans is None {
            Some(6)
        } else if self.host_sigs is None {
            Some(8)
        } else {
            None
        }
    }

    /// The names, if any.
    pub open spec fn names_or_none(self) -> NamesModel {
        match self.names {
            Some(n) => n,
            None => no_names(),
        }
    }

    /// The output names, if any.
    pub open spec fn outputs_or_none(self) -> Seq<FunctionOutputNameEntry> {
        match self.outputs {
            Some(n) => n,
            None => seq![],
        }
    }

    /// The program that complete sections make up, if they fit together.
    pub open spec fn program(self) -> Option<ProgramView> {
        match (join(self.blobs->0), join(self.spans->0), join_host_sigs(self.host_sigs->0)) {
            (Some(code), Some(spans), Some(host_sigs)) => if self.sigs->0.len()
                == self.table->0.len() {
                match join_functions(
                    host_sigs.value_types,
                    self.table->0,
                    self.sigs->0,
                    code.ranges,
                    spans.ranges,
                ) {
                    Some(funcs) => if names_fit(
                        self.names_or_none(),
                        self.outputs_or_none(),
                        self.symbols->0.entries.len(),
                        funcs.functions,
                    ) {
                        Some(
                            ProgramView {
                                symbols: self.symbols->0.entries,
                                symbol_data: self.symbols->0.data,
                                const_pool: self.consts->0.entries,
                                const_bytes_data: self.consts->0.bytes,
                                const_str_data: self.consts->0.text,
                                host_sigs: host_sigs.entries,
                                types: pack::pack_types(
                                    self.types->0.structs,
                                    self.types->0.array_elems,
                                ),
                                value_types: funcs.value_types,
                                bytecode_data: code.data,
                                spans: spans.data,
                                functions: funcs.functions,
                                program_name: self.names_or_none().program_name,
                                function_names: self.names_or_none().function_names,
                                labels: self.names_or_none().labels,
                                function_output_names: self.outputs_or_none(),
                            },
                        )
                    } else {
                        None
                    },
                    None => None,
                }
            } else {
                None
            },
            _ => None,
        }
    }

    /// The program that the sections make up, or why there is none.
    pub open spec fn assemble(self) -> Result<ProgramView, DecodeError> {
        match self.missing() {
            Some(tag) => Err(DecodeError::MissingSection { tag }),
            None => match self.program() {
                Some(p) => Ok(p),
                None => Err(DecodeError::OutOfBounds),
            },
        }
    }
}

/// The program that follows a valid header.
pub open spec fn body_at(s: Seq<u8>, i: int) -> Result<ProgramView, DecodeError> {
    match sections_at(s, i, SectionsView::none()) {
        Ok(sections) => sections.assemble(),
        Err(e) => Err(e),
    }
}

/// The program in `s`, or why it holds none.
pub open spec fn decode_program(s: Seq<u8>) -> Result<ProgramView, DecodeError> {
    match wire::run_at(s, 0, 8) {
        Err(e) => Err(e),
        Ok((m, i)) => if m != container::magic() {
            Err(DecodeError::BadMagic)
        } else {
            match wire::le_at(s, i, 2) {
                Err(e) => Err(e),
                Ok((major, j)) => match wire::le_at(s, j, 2) {
                    Err(e) => Err(e),
                    Ok((minor, k)) => if major != VERSION_MAJOR || minor != VERSION_MINOR {
                        Err(
                            DecodeError::UnsupportedVersion {
                                major: major as u16,
                                minor: minor as u16,
                            },
                        )
                    } else {
                        body_at(s, k)
                    },
                },
            }
        },
    }
}

// ---------------------------------------------------------------------------------------------
// Reading.
// ---------------------------------------------------------------------------------------------

/// Reads a value type.
pub fn decode_value_type(r: &mut Reader<'_>) -> (res: Result<ValueType, DecodeError>)
    requires
        old(r).wf(),
    ensures
        old(r).read_as(final(r), res, value_type_at(old(r).data(), old(r).pos())),
{
    let tag = r.read_u8()?;
    match tag {
        0 => Ok(ValueType::Unit),
        1 => Ok(ValueType::Bool),
        2 => Ok(ValueType::I64),
        3 => Ok(ValueType::U64),
        4 => Ok(ValueType::F64),
        5 => Ok(ValueType::Decimal),
        6 => Ok(ValueType::Bytes),
        7 => Ok(ValueType::Str),
        8 => Ok(ValueType::Obj(HostTypeId(r.read_u64_le()?))),
        9 => Ok(ValueType::Agg),
        10 => Ok(ValueType::Func),
        _ => Err(DecodeError::OutOfBounds),
    }
}

/// A counted list at the reader's position was read as `items`, or its error was returned.
pub open spec fn read_list<I: Item, T>(
    pre: &Reader<'_>,
    post: &Reader<'_>,
    res: Result<T, DecodeError>,
    items: I::State,
    start: I::State,
) -> bool {
    &&& post.wf()
    &&& post.data() == pre.data()
    &&& match wire::list_at::<I>(pre.data(), pre.pos(), start) {
        Ok((st, n)) => res is Ok && items == st && post.pos() == n,
        Err(e) => res == Err::<T, DecodeError>(e),
    }
}

/// Reads a counted list of value types.
fn decode_value_types(r: &mut Reader<'_>) -> (res: Result<Vec<ValueType>, DecodeError>)
    requires
        old(r).wf(),
    ensures
        read_list::<TypeItem, Vec<ValueType>>(old(r), final(r), res, res->Ok_0@, seq![]),
{
    let ghost all = wire::list_at::<TypeItem>(r.data(), r.pos(), seq![]);
    let n = read_usize(r)?;
    let mut out: Vec<ValueType> = Vec::new();
    assert(out@ =~= Seq::<ValueType>::empty());
    let mut k: usize = 0;
    while k < n
        invariant
            k <= n,
            r.wf(),
            r.data() == old(r).data(),
            all == wire::list_at::<TypeItem>(old(r).data(), old(r).pos(), seq![]),
            wire::items_at::<TypeItem>(r.data(), r.pos(), (n - k) as nat, out@) == all,
        decreases n - k,
    {
        out.push(decode_value_type(r)?);
        k = k + 1;
    }
    Ok(out)
}

/// Reads a counted list of span entries.
fn decode_spans(r: &mut Reader<'_>) -> (res: Result<Vec<SpanEntry>, DecodeError>)
    requires
        old(r).wf(),
    ensures
        read_list::<SpanItem, Vec<SpanEntry>>(old(r), final(r), res, res->Ok_0@, seq![]),
{
    let ghost all = wire::list_at::<SpanItem>(r.data(), r.pos(), seq![]);
    let n = read_usize(r)?;
    let mut out: Vec<SpanEntry> = Vec::new();
    assert(out@ =~= Seq::<SpanEntry>::empty());
    let mut k: usize = 0;
    while k < n
        invariant
            k <= n,
            r.wf(),
            r.data() == old(r).data(),
            all == wire::list_at::<SpanItem>(old(r).data(), old(r).pos(), seq![]),
            wire::items_at::<SpanItem>(r.data(), r.pos(), (n - k) as nat, out@) == all,
        decreases n - k,
    {
        proof {
            wire::lemma_uleb_at_bounds(r.data(), r.pos());
        }
        let pc_delta = r.read_uleb128_u64()?;
        proof {
            wire::lemma_uleb_at_bounds(r.data(), r.pos());
        }
        let span_id = r.read_uleb128_u64()?;
        out.push(SpanEntry { pc_delta, span_id });
        k = k + 1;
    }
    Ok(out)
}

/// Reads a counted list of function table entries.
fn decode_function_table_entries(r: &mut Reader<'_>) -> (res: Result<Vec<FunctionTableEntry>, DecodeError>)
    requires
        old(r).wf(),
    ensures
        read_list::<TableItem, Vec<FunctionTableEntry>>(old(r), final(r), res, res->Ok_0@, seq![]),
{
    let ghost all = wire::list_at::<TableItem>(r.data(), r.pos(), seq![]);
    let n = read_usize(r)?;
    let mut out: Vec<FunctionTableEntry> = Vec::new();
    assert(out@ =~= Seq::<FunctionTableEntry>::empty());
    let mut k: usize = 0;
    while k < n
        invariant
            k <= n,
            r.wf(),
            r.data() == old(r).data(),
            all == wire::list_at::<TableItem>(old(r).data(), old(r).pos(), seq![]),
            wire::items_at::<TableItem>(r.data(), r.pos(), (n - k) as nat, out@) == all,
        decreases n - k,
    {
        let arg_count = r.read_u32()?;
        let ret_count = r.read_u32()?;
        let reg_count = r.read_u32()?;
        let bytecode_index = r.read_uleb128_u64()?;
        let span_index = r.read_uleb128_u64()?;
        out.push(
            FunctionTableEntry { arg_count, ret_count, reg_count, bytecode_index, span_index },
        );
        k = k + 1;
    }
    Ok(out)
}

/// Reads a counted list of function names.
fn decode_function_names(r: &mut Reader<'_>) -> (res: Result<Vec<FunctionNameEntry>, DecodeError>)
    requires
        old(r).wf(),
    ensures
        read_list::<FunctionNameItem, Vec<FunctionNameEntry>>(old(r), final(r), res, res->Ok_0@, seq![]),
{
    let ghost all = wire::list_at::<FunctionNameItem>(r.data(), r.pos(), seq![]);
    let n = read_usize(r)?;
    let mut out: Vec<FunctionNameEntry> = Vec::new();
    assert(out@ =~= Seq::<FunctionNameEntry>::empty());
    let mut k: usize = 0;
    while k < n
        invariant
            k <= n,
            r.wf(),
            r.data() == old(r).data(),
            all == wire::list_at::<FunctionNameItem>(old(r).data(), old(r).pos(), seq![]),
            wire::items_at::<FunctionNameItem>(r.data(), r.pos(), (n - k) as nat, out@) == all,
        decreases n - k,
    {
        let func = r.read_u32()?;
        let name = r.read_u32()?;
        out.push(FunctionNameEntry { func, name: SymbolId(name) });
        k = k + 1;
    }
    Ok(out)
}

/// Reads a counted list of label names.
fn decode_labels(r: &mut Reader<'_>) -> (res: Result<Vec<LabelNameEntry>, DecodeError>)
    requires
        old(r).wf(),
    ensures
        read_list::<LabelItem, Vec<LabelNameEntry>>(old(r), final(r), res, res->Ok_0@, seq![]),
{
    let ghost all = wire::list_at::<LabelItem>(r.data(), r.pos(), seq![]);
    let n = read_usize(r)?;
    let mut out: Vec<LabelNameEntry> = Vec::new();
    assert(out@ =~= Seq::<LabelNameEntry>::empty());
    let mut k: usize = 0;
    while k < n
        invariant
            k <= n,
            r.wf(),
            r.data() == old(r).data(),
            all == wire::list_at::<LabelItem>(old(r).data(), old(r).pos(), seq![]),
            wire::items_at::<LabelItem>(r.data(), r.pos(), (n - k) as nat, out@) == all,
        decreases n - k,
    {
        let func = r.read_u32()?;
        let pc = r.read_u32()?;
        let name = r.read_u32()?;
        out.push(LabelNameEntry { func, pc, name: SymbolId(name) });
        k = k + 1;
    }
    Ok(out)
}

/// Reads a counted list of output names.
fn decode_outputs(r: &mut Reader<'_>) -> (res: Result<Vec<FunctionOutputNameEntry>, DecodeError>)
    requires
        old(r).wf(),
    ensures
        read_list::<OutputItem, Vec<FunctionOutputNameEntry>>(old(r), final(r), res, res->Ok_0@, seq![]),
{
    let ghost all = wire::list_at::<OutputItem>(r.data(), r.pos(), seq![]);
    let n = read_usize(r)?;
    let mut out: Vec<FunctionOutputNameEntry> = Vec::new();
    assert(out@ =~= Seq::<FunctionOutputNameEntry>::empty());
    let mut k: usize = 0;
    while k < n
        invariant
            k <= n,
            r.wf(),
            r.data() == old(r).data(),
            all == wire::list_at::<OutputItem>(old(r).data(), old(r).pos(), seq![]),
            wire::items_at::<OutputItem>(r.data(), r.pos(), (n - k) as nat, out@) == all,
        decreases n - k,
    {
        let func = r.read_u32()?;
        let ret = r.read_u32()?;
        let name = r.read_u32()?;
        out.push(FunctionOutputNameEntry { func, ret, name: SymbolId(name) });
        k = k + 1;
    }
    Ok(out)
}


/// Reads a function table.
pub fn decode_function_table(payload: &[u8]) -> (res: Result<Vec<FunctionTableEntry>, DecodeError>)
    ensures
        match value_of(wire::list_at::<TableItem>(payload@, 0, seq![])) {
            Ok(v) => res is Ok && res->Ok_0@ == v,
            Err(e) => res == Err::<Vec<FunctionTableEntry>, DecodeError>(e),
        },
{
    let mut r = Reader::new(payload);
    decode_function_table_entries(&mut r)
}

/// Reads function output names.
pub fn decode_function_output_names(payload: &[u8]) -> (res: Result<
    Vec<FunctionOutputNameEntry>,
    DecodeError,
>)
    ensures
        match outputs_of(payload@) {
            Ok(v) => res is Ok && res->Ok_0@ == v,
            Err(e) => res == Err::<Vec<FunctionOutputNameEntry>, DecodeError>(e),
        },
{
    let mut r = Reader::new(payload);
    let out = decode_outputs(&mut r)?;
    if r.offset() != payload.len() {
        return Err(DecodeError::OutOfBounds);
    }
    Ok(out)
}

/// Program, function and label names.
#[derive(Clone, Debug)]
pub struct NamesDef {
    /// Program name.
    pub program_name: Option<SymbolId>,
    /// Function names.
    pub function_names: Vec<FunctionNameEntry>,
    /// Label names.
    pub labels: Vec<LabelNameEntry>,
}

impl View for NamesDef {
    type V = NamesModel;

    open spec fn view(&self) -> NamesModel {
        NamesModel {
            program_name: self.program_name,
            function_names: self.function_names@,
            labels: self.labels@,
        }
    }
}

/// Reads program, function and label names.
pub fn decode_names(payload: &[u8]) -> (res: Result<NamesDef, DecodeError>)
    ensures
        match names_of(payload@) {
            Ok(v) => res is Ok && res->Ok_0@ == v,
            Err(e) => res == Err::<NamesDef, DecodeError>(e),
        },
{
    let mut r = Reader::new(payload);
    let has_program_name = r.read_u8()?;
    let program_name = if has_program_name == 0 {
        None
    } else if has_program_name == 1 {
        Some(SymbolId(r.read_u32()?))
    } else {
        return Err(DecodeError::OutOfBounds);
    };
    let function_names = decode_function_names(&mut r)?;
    let labels = decode_labels(&mut r)?;
    if r.offset() != payload.len() {
        return Err(DecodeError::OutOfBounds);
    }
    Ok(NamesDef { program_name, function_names, labels })
}

/// The symbol table held by two arenas.
pub open spec fn symbol_arena(entries: Seq<SymbolEntry>, data: Seq<char>) -> SymbolArena {
    SymbolArena { entries, data: encode_utf8(data) }
}

/// Reads a symbol table.
pub fn decode_symbols(payload: &[u8]) -> (res: Result<(Vec<SymbolEntry>, String), DecodeError>)
    ensures
        match value_of(wire::list_at::<SymbolItem>(payload@, 0, no_symbols())) {
            Ok(v) => res is Ok && symbol_arena(res->Ok_0.0@, res->Ok_0.1@) == v,
            Err(e) => res == Err::<(Vec<SymbolEntry>, String), DecodeError>(e),
        },
{
    let mut r = Reader::new(payload);
    let ghost all = wire::list_at::<SymbolItem>(payload@, 0, no_symbols());
    let n = read_usize(&mut r)?;
    let mut symbols: Vec<SymbolEntry> = Vec::new();
    let mut symbol_data: String = String::new();
    assert(symbol_arena(symbols@, symbol_data@) =~= no_symbols());
    let mut k: usize = 0;
    while k < n
        invariant
            k <= n,
            r.wf(),
            r.data() == payload@,
            all == wire::list_at::<SymbolItem>(payload@, 0, no_symbols()),
            wire::items_at::<SymbolItem>(
                payload@,
                r.pos(),
                (n - k) as nat,
                symbol_arena(symbols@, symbol_data@),
            ) == all,
        decreases n - k,
    {
        let s = r.read_text()?;
        let used = symbol_data.as_str().as_bytes().len();
        let len = s.as_bytes().len();
        if used > u32::MAX as usize || len > u32::MAX as usize {
            return Err(DecodeError::OutOfBounds);
        }
        let ghost before = symbol_arena(symbols@, symbol_data@);
        push_str(&mut symbol_data, s);
        symbols.push(SymbolEntry { bytes: ByteRange { offset: used as u32, len: len as u32 } });
        assert(symbol_arena(symbols@, symbol_data@) =~= before.plus(encode_utf8(s@)));
        k = k + 1;
    }
    Ok((symbols, symbol_data))
}

/// The constant pool held by three arenas.
pub open spec fn const_arena(entries: Seq<ConstEntry>, bytes: Seq<u8>, text: Seq<char>) -> ConstArena {
    ConstArena { entries, bytes, text: encode_utf8(text) }
}

fn decode_const(
    r: &mut Reader<'_>,
    out: &mut Vec<ConstEntry>,
    const_bytes: &mut Vec<u8>,
    const_str: &mut String,
) -> (res: Result<(), DecodeError>)
    requires
        old(r).wf(),
    ensures
        final(r).wf(),
        final(r).data() == old(r).data(),
        match ConstItem::item_at(
            old(r).data(),
            old(r).pos(),
            const_arena(old(out)@, old(const_bytes)@, old(const_str)@),
        ) {
            Ok((st, n)) => {
                &&& res is Ok
                &&& final(r).pos() == n
                &&& const_arena(final(out)@, final(const_bytes)@, final(const_str)@) == st
            },
            Err(e) => res == Err::<(), DecodeError>(e),
        },
{
    let tag = r.read_u8()?;
    match tag {
        0 => {
            out.push(ConstEntry::Unit);
        },
        1 => {
            let b = r.read_u8()?;
            out.push(ConstEntry::Bool(b != 0));
        },
        2 => {
            let v = r.read_sleb128_i64()?;
            out.push(ConstEntry::I64(v));
        },
        3 => {
            let v = r.read_uleb128_u64()?;
            out.push(ConstEntry::U64(v));
        },
        4 => {
            let bits = r.read_u64_le()?;
            out.push(ConstEntry::F64(bits));
        },
        5 => {
            let mantissa = r.read_sleb128_i64()?;
            let scale = r.read_u8()?;
            out.push(ConstEntry::Decimal { mantissa, scale });
        },
        6 => {
            let bytes = r.read_blob()?;
            let used = const_bytes.len();
            let len = bytes.len();
            if used > u32::MAX as usize || len > u32::MAX as usize {
                return Err(DecodeError::OutOfBounds);
            }
            const_bytes.extend_from_slice(bytes);
            assert(const_bytes@ =~= old(const_bytes)@ + bytes@);
            out.push(ConstEntry::Bytes(ByteRange { offset: used as u32, len: len as u32 }));
        },
        7 => {
            let s = r.read_text()?;
            let used = const_str.as_str().as_bytes().len();
            let len = s.as_bytes().len();
            if used > u32::MAX as usize || len > u32::MAX as usize {
                return Err(DecodeError::OutOfBounds);
            }
            push_str(const_str, s);
            out.push(ConstEntry::Str(ByteRange { offset: used as u32, len: len as u32 }));
        },
        _ => {
            return Err(DecodeError::OutOfBounds);
        },
    }
    Ok(())
}

/// Reads a constant pool.
pub fn decode_const_pool(payload: &[u8]) -> (res: Result<
    (Vec<ConstEntry>, Vec<u8>, String),
    DecodeError,
>)
    ensures
        match value_of(wire::list_at::<ConstItem>(payload@, 0, no_consts())) {
            Ok(v) => res is Ok && const_arena(res->Ok_0.0@, res->Ok_0.1@, res->Ok_0.2@) == v,
            Err(e) => res == Err::<(Vec<ConstEntry>, Vec<u8>, String), DecodeError>(e),
        },
{
    let mut r = Reader::new(payload);
    let ghost all = wire::list_at::<ConstItem>(payload@, 0, no_consts());
    let n = read_usize(&mut r)?;
    let mut out: Vec<ConstEntry> = Vec::new();
    let mut const_bytes: Vec<u8> = Vec::new();
    let mut const_str: String = String::new();
    assert(const_arena(out@, const_bytes@, const_str@) =~= no_consts());
    let mut k: usize = 0;
    while k < n
        invariant
            k <= n,
            r.wf(),
            r.data() == payload@,
            all == wire::list_at::<ConstItem>(payload@, 0, no_consts()),
            wire::items_at::<ConstItem>(
                payload@,
                r.pos(),
                (n - k) as nat,
                const_arena(out@, const_bytes@, const_str@),
            ) == all,
        decreases n - k,
    {
        decode_const(&mut r, &mut out, &mut const_bytes, &mut const_str)?;
        k = k + 1;
    }
    Ok((out, const_bytes, const_str))
}

/// Reads a counted list of field names.
fn decode_field_names(r: &mut Reader<'_>) -> (res: Result<Vec<String>, DecodeError>)
    requires
        old(r).wf(),
    ensures
        read_list::<NameItem, Vec<String>>(
            old(r),
            final(r),
            res,
            pack::texts(res->Ok_0@),
            seq![],
        ),
{
    let ghost all = wire::list_at::<NameItem>(r.data(), r.pos(), seq![]);
    let n = read_usize(r)?;
    let mut out: Vec<String> = Vec::new();
    assert(pack::texts(out@) =~= Seq::<Seq<char>>::empty());
    let mut k: usize = 0;
    while k < n
        invariant
            k <= n,
            r.wf(),
            r.data() == old(r).data(),
            all == wire::list_at::<NameItem>(old(r).data(), old(r).pos(), seq![]),
            wire::items_at::<NameItem>(r.data(), r.pos(), (n - k) as nat, pack::texts(out@)) == all,
        decreases n - k,
    {
        let s = r.read_text()?;
        let ghost before = out@;
        out.push(s.to_owned());
        proof {
            encode_utf8_decode_utf8(s@);
            assert(pack::texts(out@) =~= pack::texts(before).push(s@));
        }
        k = k + 1;
    }
    Ok(out)
}

/// Reads a counted list of fields.
fn decode_fields(r: &mut Reader<'_>, names: &Vec<String>) -> (res: Result<
    StructTypeDef,
    DecodeError,
>)
    requires
        old(r).wf(),
    ensures
        read_list::<FieldItem, StructTypeDef>(
            old(r),
            final(r),
            res,
            FieldState { table: pack::texts(names@), fields: res->Ok_0.model() },
            FieldState { table: pack::texts(names@), fields: no_fields() },
        ),
        res matches Ok(d) ==> d.field_names@.len() == d.field_types@.len(),
{
    let ghost table = pack::texts(names@);
    let ghost start = FieldState { table, fields: no_fields() };
    let ghost all = wire::list_at::<FieldItem>(r.data(), r.pos(), start);
    let n = read_usize(r)?;
    let mut field_names: Vec<String> = Vec::new();
    let mut field_types: Vec<ValueType> = Vec::new();
    let ghost mut fields = no_fields();
    let mut k: usize = 0;
    assert(pack::texts(field_names@) =~= fields.names);
    assert(field_types@ =~= fields.types);
    while k < n
        invariant
            k <= n,
            r.wf(),
            r.data() == old(r).data(),
            table == pack::texts(names@),
            start == (FieldState { table, fields: no_fields() }),
            all == wire::list_at::<FieldItem>(old(r).data(), old(r).pos(), start),
            fields.names == pack::texts(field_names@),
            fields.types == field_types@,
            field_names@.len() == field_types@.len(),
            wire::items_at::<FieldItem>(
                r.data(),
                r.pos(),
                (n - k) as nat,
                FieldState { table, fields },
            ) == all,
        decreases n - k,
    {
        let id = read_usize(r)?;
        if id >= names.len() {
            return Err(DecodeError::OutOfBounds);
        }
        let t = decode_value_type(r)?;
        let ghost before = field_names@;
        field_names.push(names[id].clone());
        field_types.push(t);
        proof {
            assert(pack::texts(field_names@) =~= pack::texts(before).push(table[id as int]));
            fields = StructModel {
                names: fields.names.push(table[id as int]),
                types: fields.types.push(t),
            };
        }
        k = k + 1;
    }
    let def = StructTypeDef { field_names, field_types };
    assert(def.model() =~= fields);
    Ok(def)
}

/// Reads a counted list of structs.
fn decode_structs(r: &mut Reader<'_>, names: &Vec<String>) -> (res: Result<
    Vec<StructTypeDef>,
    DecodeError,
>)
    requires
        old(r).wf(),
    ensures
        read_list::<StructItem, Vec<StructTypeDef>>(
            old(r),
            final(r),
            res,
            StructState { table: pack::texts(names@), structs: pack::models(res->Ok_0@) },
            StructState { table: pack::texts(names@), structs: seq![] },
        ),
        res is Ok ==> forall|k: int|
            0 <= k < res->Ok_0@.len() ==> (#[trigger] res->Ok_0@[k]).field_names@.len()
                == res->Ok_0@[k].field_types@.len(),
{
    let ghost table = pack::texts(names@);
    let ghost start = StructState { table, structs: seq![] };
    let ghost all = wire::list_at::<StructItem>(r.data(), r.pos(), start);
    let n = read_usize(r)?;
    let mut out: Vec<StructTypeDef> = Vec::new();
    assert(pack::models(out@) =~= Seq::<StructModel>::empty());
    let mut k: usize = 0;
    while k < n
        invariant
            k <= n,
            r.wf(),
            r.data() == old(r).data(),
            table == pack::texts(names@),
            start == (StructState { table, structs: seq![] }),
            all == wire::list_at::<StructItem>(old(r).data(), old(r).pos(), start),
            forall|q: int|
                0 <= q < out@.len() ==> (#[trigger] out@[q]).field_names@.len()
                    == out@[q].field_types@.len(),
            wire::items_at::<StructItem>(
                r.data(),
                r.pos(),
                (n - k) as nat,
                StructState { table, structs: pack::models(out@) },
            ) == all,
        decreases n - k,
    {
        let def = decode_fields(r, names)?;
        let ghost before = out@;
        out.push(def);
        assert(pack::models(out@) =~= pack::models(before).push(def.model()));
        k = k + 1;
    }
    Ok(out)
}

/// Reads type definitions.
pub fn decode_types(payload: &[u8]) -> (res: Result<TypeTableDef, DecodeError>)
    ensures
        match types_of(payload@) {
            Ok(v) => res is Ok && v == (TypesModel {
                structs: pack::models(res->Ok_0.structs@),
                array_elems: res->Ok_0.array_elems@,
            }),
            Err(e) => res == Err::<TypeTableDef, DecodeError>(e),
        },
        res is Ok ==> forall|k: int|
            0 <= k < res->Ok_0.structs@.len() ==> (
            #[trigger] res->Ok_0.structs@[k]).field_names@.len()
                == res->Ok_0.structs@[k].field_types@.len(),
{
    let mut r = Reader::new(payload);
    let names = decode_field_names(&mut r)?;
    let structs = decode_structs(&mut r, &names)?;
    let array_elems = decode_value_types(&mut r)?;
    Ok(TypeTableDef { structs, array_elems })
}

/// The types of a function.
#[derive(Clone, Debug, PartialEq, Eq)]
pub struct DecodedFunctionSig {
    /// Argument types.
    pub args: Vec<ValueType>,
    /// Return types.
    pub rets: Vec<ValueType>,
}

impl View for DecodedFunctionSig {
    type V = SigModel;

    open spec fn view(&self) -> SigModel {
        SigModel { args: self.args@, rets: self.rets@ }
    }
}

/// What each signature is.
pub open spec fn sig_models(sigs: Seq<DecodedFunctionSig>) -> Seq<SigModel> {
    sigs.map_values(|s: DecodedFunctionSig| s@)
}

fn decode_sig(r: &mut Reader<'_>) -> (res: Result<DecodedFunctionSig, DecodeError>)
    requires
        old(r).wf(),
    ensures
        final(r).wf(),
        final(r).data() == old(r).data(),
        match sig_at(old(r).data(), old(r).pos()) {
            Ok((v, n)) => res is Ok && res->Ok_0@ == v && final(r).pos() == n,
            Err(e) => res == Err::<DecodedFunctionSig, DecodeError>(e),
        },
{
    let args = decode_value_types(r)?;
    let rets = decode_value_types(r)?;
    Ok(DecodedFunctionSig { args, rets })
}

/// Reads function signatures.
pub fn decode_function_sigs(payload: &[u8]) -> (res: Result<Vec<DecodedFunctionSig>, DecodeError>)
    ensures
        match value_of(wire::list_at::<SigItem>(payload@, 0, seq![])) {
            Ok(v) => res is Ok && sig_models(res->Ok_0@) == v,
            Err(e) => res == Err::<Vec<DecodedFunctionSig>, DecodeError>(e),
        },
{
    let mut r = Reader::new(payload);
    let ghost all = wire::list_at::<SigItem>(payload@, 0, seq![]);
    let n = read_usize(&mut r)?;
    let mut out: Vec<DecodedFunctionSig> = Vec::new();
    assert(sig_models(out@) =~= Seq::<SigModel>::empty());
    let mut k: usize = 0;
    while k < n
        invariant
            k <= n,
            r.wf(),
            r.data() == payload@,
            all == wire::list_at::<SigItem>(payload@, 0, seq![]),
            wire::items_at::<SigItem>(payload@, r.pos(), (n - k) as nat, sig_models(out@)) == all,
        decreases n - k,
    {
        let sig = decode_sig(&mut r)?;
        let ghost before = out@;
        out.push(sig);
        assert(sig_models(out@) =~= sig_models(before).push(sig@));
        k = k + 1;
    }
    Ok(out)
}

/// A host signature.
#[derive(Clone, Debug, PartialEq, Eq)]
pub struct DecodedHostSig {
    /// Host symbol.
    pub symbol: SymbolId,
    /// Signature hash.
    pub sig_hash: SigHash,
    /// Argument and return types.
    pub sig: DecodedFunctionSig,
}

impl View for DecodedHostSig {
    type V = HostSigModel;

    open spec fn view(&self) -> HostSigModel {
        HostSigModel {
            symbol: self.symbol,
            sig_hash: self.sig_hash,
            args: self.sig.args@,
            rets: self.sig.rets@,
        }
    }
}

/// What each host signature is.
pub open spec fn host_sig_models(sigs: Seq<DecodedHostSig>) -> Seq<HostSigModel> {
    sigs.map_values(|s: DecodedHostSig| s@)
}

/// Reads host signatures.
pub fn decode_host_sigs(payload: &[u8]) -> (res: Result<Vec<DecodedHostSig>, DecodeError>)
    ensures
        match value_of(wire::list_at::<HostSigItem>(payload@, 0, seq![])) {
            Ok(v) => res is Ok && host_sig_models(res->Ok_0@) == v,
            Err(e) => res == Err::<Vec<DecodedHostSig>, DecodeError>(e),
        },
{
    let mut r = Reader::new(payload);
    let ghost all = wire::list_at::<HostSigItem>(payload@, 0, seq![]);
    let n = read_usize(&mut r)?;
    let mut out: Vec<DecodedHostSig> = Vec::new();
    assert(host_sig_models(out@) =~= Seq::<HostSigModel>::empty());
    let mut k: usize = 0;
    while k < n
        invariant
            k <= n,
            r.wf(),
            r.data() == payload@,
            all == wire::list_at::<HostSigItem>(payload@, 0, seq![]),
            wire::items_at::<HostSigItem>(
                payload@,
                r.pos(),
                (n - k) as nat,
                host_sig_models(out@),
            ) == all,
        decreases n - k,
    {
        let symbol = SymbolId(r.read_u32()?);
        let sig_hash = SigHash(r.read_u64_le()?);
        let sig = decode_sig(&mut r)?;
        let ghost before = out@;
        let hs = DecodedHostSig { symbol, sig_hash, sig };
        out.push(hs);
        assert(host_sig_models(out@) =~= host_sig_models(before).push(hs@));
        k = k + 1;
    }
    Ok(out)
}

/// The contents of each vector.
pub open spec fn views<T>(vs: Seq<Vec<T>>) -> Seq<Seq<T>> {
    vs.map_values(|v: Vec<T>| v@)
}

/// Reads byte strings.
pub fn decode_blob_list(payload: &[u8]) -> (res: Result<Vec<Vec<u8>>, DecodeError>)
    ensures
        match value_of(wire::list_at::<BlobItem>(payload@, 0, seq![])) {
            Ok(v) => res is Ok && views(res->Ok_0@) == v,
            Err(e) => res == Err::<Vec<Vec<u8>>, DecodeError>(e),
        },
{
    let mut r = Reader::new(payload);
    let ghost all = wire::list_at::<BlobItem>(payload@, 0, seq![]);
    let n = read_usize(&mut r)?;
    let mut out: Vec<Vec<u8>> = Vec::new();
    assert(views(out@) =~= Seq::<Seq<u8>>::empty());
    let mut k: usize = 0;
    while k < n
        invariant
            k <= n,
            r.wf(),
            r.data() == payload@,
            all == wire::list_at::<BlobItem>(payload@, 0, seq![]),
            wire::items_at::<BlobItem>(payload@, r.pos(), (n - k) as nat, views(out@)) == all,
        decreases n - k,
    {
        let run = r.read_blob()?;
        let ghost before = out@;
        out.push(vstd::slice::slice_to_vec(run));
        assert(views(out@) =~= views(before).push(run@));
        k = k + 1;
    }
    Ok(out)
}

/// Reads span tables.
pub fn decode_span_tables(payload: &[u8]) -> (res: Result<Vec<Vec<SpanEntry>>, DecodeError>)
    ensures
        match value_of(wire::list_at::<SpanTableItem>(payload@, 0, seq![])) {
            Ok(v) => res is Ok && views(res->Ok_0@) == v,
            Err(e) => res == Err::<Vec<Vec<SpanEntry>>, DecodeError>(e),
        },
{
    let mut r = Reader::new(payload);
    let ghost all = wire::list_at::<SpanTableItem>(payload@, 0, seq![]);
    let n = read_usize(&mut r)?;
    let mut out: Vec<Vec<SpanEntry>> = Vec::new();
    assert(views(out@) =~= Seq::<Seq<SpanEntry>>::empty());
    let mut k: usize = 0;
    while k < n
        invariant
            k <= n,
            r.wf(),
            r.data() == payload@,
            all == wire::list_at::<SpanTableItem>(payload@, 0, seq![]),
            wire::items_at::<SpanTableItem>(payload@, r.pos(), (n - k) as nat, views(out@)) == all,
        decreases n - k,
    {
        let spans = decode_spans(&mut r)?;
        let ghost before = out@;
        out.push(spans);
        assert(views(out@) =~= views(before).push(spans@));
        k = k + 1;
    }
    Ok(out)
}

/// The sections met so far.
pub struct Sections {
    symbols: Option<(Vec<SymbolEntry>, String)>,
    consts: Option<(Vec<ConstEntry>, Vec<u8>, String)>,
    types: Option<TypeTableDef>,
    table: Option<Vec<FunctionTableEntry>>,
    blobs: Option<Vec<Vec<u8>>>,
    spans: Option<Vec<Vec<SpanEntry>>>,
    sigs: Option<Vec<DecodedFunctionSig>>,
    host_sigs: Option<Vec<DecodedHostSig>>,
    names: Option<NamesDef>,
    outputs: Option<Vec<FunctionOutputNameEntry>>,
}

impl View for Sections {
    type V = SectionsView;

    closed spec fn view(&self) -> SectionsView {
        SectionsView {
            symbols: match self.symbols {
                Some(v) => Some(symbol_arena(v.0@, v.1@)),
                None => None,
            },
            consts: match self.consts {
                Some(v) => Some(const_arena(v.0@, v.1@, v.2@)),
                None => None,
            },
            types: match self.types {
                Some(v) => Some(
                    TypesModel { structs: pack::models(v.structs@), array_elems: v.array_elems@ },
                ),
                None => None,
            },
            table: match self.table {
                Some(v) => Some(v@),
                None => None,
            },
            blobs: match self.blobs {
                Some(v) => Some(views(v@)),
                None => None,
            },
            spans: match self.spans {
                Some(v) => Some(views(v@)),
                None => None,
            },
            sigs: match self.sigs {
                Some(v) => Some(sig_models(v@)),
                None => None,
            },
            host_sigs: match self.host_sigs {
                Some(v) => Some(host_sig_models(v@)),
                None => None,
            },
            names: match self.names {
                Some(v) => Some(v@),
                None => None,
            },
            outputs: match self.outputs {
                Some(v) => Some(v@),
                None => None,
            },
        }
    }
}

/// Puts pieces one after the other.
fn join_pieces<T: Copy>(pieces: &Vec<Vec<T>>) -> (res: Result<(Vec<ByteRange>, Vec<T>), DecodeError>)
    ensures
        match join(views(pieces@)) {
            Some(p) => res is Ok && res->Ok_0.0@ == p.ranges && res->Ok_0.1@ == p.data,
            None => res == Err::<(Vec<ByteRange>, Vec<T>), DecodeError>(DecodeError::OutOfBounds),
        },
{
    let ghost all = views(pieces@);
    let mut ranges: Vec<ByteRange> = Vec::new();
    let mut data: Vec<T> = Vec::new();
    let mut i: usize = 0;
    assert(all.take(0) =~= Seq::<Seq<T>>::empty());
    while i < pieces.len()
        invariant
            i <= pieces.len(),
            all == views(pieces@),
            join(all.take(i as int)) == Some(Pieces { ranges: ranges@, data: data@ }),
        decreases pieces.len() - i,
    {
        assert(all.take(i + 1).drop_last() =~= all.take(i as int));
        if data.len() > u32::MAX as usize || pieces[i].len() > u32::MAX as usize {
            proof {
                lemma_join_none(all, i as int);
            }
            return Err(DecodeError::OutOfBounds);
        }
        let r = append_piece(&mut data, pieces[i].as_slice());
        ranges.push(r);
        i = i + 1;
    }
    assert(all.take(i as int) =~= all);
    Ok((ranges, data))
}

proof fn lemma_join_none<T>(pieces: Seq<Seq<T>>, i: int)
    requires
        0 <= i < pieces.len(),
        join(pieces.take(i + 1)) is None,
    ensures
        join(pieces) is None,
    decreases pieces.len(),
{
    if i + 1 < pieces.len() {
        let shorter = pieces.drop_last();
        assert(shorter.take(i + 1) =~= pieces.take(i + 1));
        lemma_join_none(shorter, i);
    } else {
        assert(pieces.take(i + 1) =~= pieces);
    }
}

proof fn lemma_join_host_sigs_none(sigs: Seq<HostSigModel>, i: int)
    requires
        0 <= i < sigs.len(),
        join_host_sigs(sigs.take(i + 1)) is None,
    ensures
        join_host_sigs(sigs) is None,
    decreases sigs.len(),
{
    if i + 1 < sigs.len() {
        let shorter = sigs.drop_last();
        assert(shorter.take(i + 1) =~= sigs.take(i + 1));
        lemma_join_host_sigs_none(shorter, i);
    } else {
        assert(sigs.take(i + 1) =~= sigs);
    }
}

proof fn lemma_join_functions_none(
    value_types: Seq<ValueType>,
    table: Seq<FunctionTableEntry>,
    sigs: Seq<SigModel>,
    code: Seq<ByteRange>,
    spans: Seq<ByteRange>,
    i: int,
)
    requires
        0 <= i < table.len(),
        sigs.len() == table.len(),
        join_functions(value_types, table.take(i + 1), sigs.take(i + 1), code, spans) is None,
    ensures
        join_functions(value_types, table, sigs, code, spans) is None,
    decreases table.len(),
{
    if i + 1 < table.len() {
        let t = table.drop_last();
        let s = sigs.drop_last();
        assert(t.take(i + 1) =~= table.take(i + 1));
        assert(s.take(i + 1) =~= sigs.take(i + 1));
        lemma_join_functions_none(value_types, t, s, code, spans, i);
    } else {
        assert(table.take(i + 1) =~= table);
        assert(sigs.take(i + 1) =~= sigs);
    }
}

fn assemble_host_sigs(sigs: &Vec<DecodedHostSig>) -> (res: Result<
    (Vec<HostSigEntry>, Vec<ValueType>),
    DecodeError,
>)
    ensures
        match join_host_sigs(host_sig_models(sigs@)) {
            Some(a) => res is Ok && res->Ok_0.0@ == a.entries && res->Ok_0.1@ == a.value_types,
            None => res == Err::<(Vec<HostSigEntry>, Vec<ValueType>), DecodeError>(
                DecodeError::OutOfBounds,
            ),
        },
{
    let ghost all = host_sig_models(sigs@);
    let mut entries: Vec<HostSigEntry> = Vec::new();
    let mut value_types: Vec<ValueType> = Vec::new();
    let mut i: usize = 0;
    assert(all.take(0) =~= Seq::<HostSigModel>::empty());
    while i < sigs.len()
        invariant
            i <= sigs.len(),
            all == host_sig_models(sigs@),
            join_host_sigs(all.take(i as int)) == Some(
                SigArena { entries: entries@, value_types: value_types@ },
            ),
        decreases sigs.len() - i,
    {
        assert(all.take(i + 1).drop_last() =~= all.take(i as int));
        let hs = &sigs[i];
        let argc = hs.sig.args.len();
        let retc = hs.sig.rets.len();
        if value_types.len() > u32::MAX as usize || argc > u32::MAX as usize - value_types.len()
            || retc > u32::MAX as usize {
            proof {
                lemma_join_host_sigs_none(all, i as int);
            }
            return Err(DecodeError::OutOfBounds);
        }
        let args = append_piece(&mut value_types, hs.sig.args.as_slice());
        let rets = append_piece(&mut value_types, hs.sig.rets.as_slice());
        entries.push(HostSigEntry { symbol: hs.symbol, sig_hash: hs.sig_hash, args, rets });
        i = i + 1;
    }
    assert(all.take(i as int) =~= all);
    Ok((entries, value_types))
}

fn assemble_functions(
    table: &Vec<FunctionTableEntry>,
    sigs: &Vec<DecodedFunctionSig>,
    code: &Vec<ByteRange>,
    spans: &Vec<ByteRange>,
    value_types: &mut Vec<ValueType>,
) -> (res: Result<Vec<Function>, DecodeError>)
    requires
        sigs@.len() == table@.len(),
    ensures
        match join_functions(old(value_types)@, table@, sig_models(sigs@), code@, spans@) {
            Some(a) => res is Ok && res->Ok_0@ == a.functions && final(value_types)@
                == a.value_types,
            None => res == Err::<Vec<Function>, DecodeError>(DecodeError::OutOfBounds),
        },
{
    let ghost vt0 = value_types@;
    let ghost all = sig_models(sigs@);
    let mut functions: Vec<Function> = Vec::new();
    let mut i: usize = 0;
    assert(all.take(0) =~= Seq::<SigModel>::empty());
    assert(table@.take(0) =~= Seq::<FunctionTableEntry>::empty());
    while i < table.len()
        invariant
            i <= table.len(),
            sigs@.len() == table@.len(),
            vt0 == old(value_types)@,
            all == sig_models(sigs@),
            join_functions(vt0, table@.take(i as int), all.take(i as int), code@, spans@) == Some(
                TableArena { functions: functions@, value_types: value_types@ },
            ),
        decreases table.len() - i,
    {
        assert(all.take(i + 1).drop_last() =~= all.take(i as int));
        assert(table@.take(i + 1).drop_last() =~= table@.take(i as int));
        let entry = table[i];
        let sig = &sigs[i];
        let argc = sig.args.len();
        let retc = sig.rets.len();
        if entry.bytecode_index >= code.len() as u64 || entry.span_index >= spans.len() as u64
            || value_types.len() > u32::MAX as usize || argc > u32::MAX as usize - value_types.len()
            || retc > u32::MAX as usize {
            proof {
                lemma_join_functions_none(vt0, table@, all, code@, spans@, i as int);
            }
            return Err(DecodeError::OutOfBounds);
        }
        let arg_types = append_piece(value_types, sig.args.as_slice());
        let ret_types = append_piece(value_types, sig.rets.as_slice());
        functions.push(
            Function {
                arg_count: entry.arg_count,
                ret_count: entry.ret_count,
                reg_count: entry.reg_count,
                bytecode: code[entry.bytecode_index as usize],
                spans: spans[entry.span_index as usize],
                arg_types,
                ret_types,
            },
        );
        i = i + 1;
    }
    assert(all.take(i as int) =~= all);
    assert(table@.take(i as int) =~= table@);
    Ok(functions)
}

fn check_names(
    names: &NamesDef,
    outputs: &Vec<FunctionOutputNameEntry>,
    n_symbols: usize,
    functions: &Vec<Function>,
) -> (ok: bool)
    ensures
        ok == names_fit(names@, outputs@, n_symbols as nat, functions@),
{
    if let Some(id) = names.program_name {
        if id.0 as usize >= n_symbols {
            return false;
        }
    }
    let mut i: usize = 0;
    while i < names.function_names.len()
        invariant
            i <= names.function_names.len(),
            forall|k: int|
                0 <= k < i ==> {
                    &&& (#[trigger] names@.function_names[k]).func < functions@.len()
                    &&& names@.function_names[k].name.0 < n_symbols
                },
        decreases names.function_names.len() - i,
    {
        let e = names.function_names[i];
        assert(e == names@.function_names[i as int]);
        if e.func as usize >= functions.len() || e.name.0 as usize >= n_symbols {
            return false;
        }
        i = i + 1;
    }
    let mut i: usize = 0;
    while i < names.labels.len()
        invariant
            i <= names.labels.len(),
            forall|k: int|
                0 <= k < i ==> {
                    &&& (#[trigger] names@.labels[k]).func < functions@.len()
                    &&& names@.labels[k].pc <= functions@[names@.labels[k].func as int].bytecode.len
                    &&& names@.labels[k].name.0 < n_symbols
                },
        decreases names.labels.len() - i,
    {
        let e = names.labels[i];
        assert(e == names@.labels[i as int]);
        if e.func as usize >= functions.len() || e.name.0 as usize >= n_symbols {
            return false;
        }
        if e.pc > functions[e.func as usize].bytecode.len {
            return false;
        }
        i = i + 1;
    }
    let mut i: usize = 0;
    while i < outputs.len()
        invariant
            i <= outputs.len(),
            forall|k: int|
                0 <= k < i ==> {
                    &&& (#[trigger] outputs@[k]).func < functions@.len()
                    &&& outputs@[k].ret < functions@[outputs@[k].func as int].ret_count
                    &&& outputs@[k].name.0 < n_symbols
                },
        decreases outputs.len() - i,
    {
        let e = outputs[i];
        assert(e == outputs@[i as int]);
        if e.func as usize >= functions.len() || e.name.0 as usize >= n_symbols {
            return false;
        }
        if e.ret >= functions[e.func as usize].ret_count {
            return false;
        }
        i = i + 1;
    }
    true
}

impl Sections {
    fn new() -> (s: Self)
        ensures
            s@ == SectionsView::none(),
    {
        Sections {
            symbols: None,
            consts: None,
            types: None,
            table: None,
            blobs: None,
            spans: None,
            sigs: None,
            host_sigs: None,
            names: None,
            outputs: None,
        }
    }

    fn has(&self, tag: SectionTag) -> (res: bool)
        ensures
            res == self@.has(container::tag_byte(tag)),
    {
        match tag {
            SectionTag::Symbols => self.symbols.is_some(),
            SectionTag::ConstPool => self.consts.is_some(),
            SectionTag::Types => self.types.is_some(),
            SectionTag::FunctionTable => self.table.is_some(),
            SectionTag::BytecodeBlobs => self.blobs.is_some(),
            SectionTag::SpanTables => self.spans.is_some(),
            SectionTag::FunctionSigs => self.sigs.is_some(),
            SectionTag::HostSigs => self.host_sigs.is_some(),
            SectionTag::Names => self.names.is_some(),
            SectionTag::FunctionOutputNames => self.outputs.is_some(),
        }
    }

    fn add_section(&mut self, tag: u8, payload: &[u8]) -> (res: Result<(), DecodeError>)
        ensures
            match old(self)@.with(tag, payload@) {
                Ok(v) => res is Ok && final(self)@ == v,
                Err(e) => res == Err::<(), DecodeError>(e),
            },
    {
        reveal(SectionsView::with);
        let tag = match SectionTag::from_u8_opt(tag) {
            Some(tag) => tag,
            None => {
                return Ok(());
            },
        };
        if self.has(tag) {
            return Err(DecodeError::DuplicateSection);
        }
        match tag {
            SectionTag::Symbols => {
                self.symbols = Some(decode_symbols(payload)?);
            },
            SectionTag::ConstPool => {
                self.consts = Some(decode_const_pool(payload)?);
            },
            SectionTag::Types => {
                self.types = Some(decode_types(payload)?);
            },
            SectionTag::FunctionTable => {
                self.table = Some(decode_function_table(payload)?);
            },
            SectionTag::BytecodeBlobs => {
                self.blobs = Some(decode_blob_list(payload)?);
            },
            SectionTag::SpanTables => {
                self.spans = Some(decode_span_tables(payload)?);
            },
            SectionTag::FunctionSigs => {
                self.sigs = Some(decode_function_sigs(payload)?);
            },
            SectionTag::HostSigs => {
                self.host_sigs = Some(decode_host_sigs(payload)?);
            },
            SectionTag::Names => {
                self.names = Some(decode_names(payload)?);
            },
            SectionTag::FunctionOutputNames => {
                self.outputs = Some(decode_function_output_names(payload)?);
            },
        }
        Ok(())
    }

    fn assemble(self) -> (res: Result<Program, DecodeError>)
        ensures
            match self@.assemble() {
                Ok(p) => res is Ok && res->Ok_0@ == p,
                Err(e) => res == Err::<Program, DecodeError>(e),
            },
    {
        let ghost view = self@;
        let (symbols, symbol_data) = match self.symbols {
            Some(v) => v,
            None => {
                return Err(DecodeError::MissingSection { tag: SectionTag::Symbols.to_u8() });
            },
        };
        let (const_pool, const_bytes_data, const_str_data) = match self.consts {
            Some(v) => v,
            None => {
                return Err(DecodeError::MissingSection { tag: SectionTag::ConstPool.to_u8() });
            },
        };
        let types = match self.types {
            Some(v) => v,
            None => {
                return Err(DecodeError::MissingSection { tag: SectionTag::Types.to_u8() });
            },
        };
        let sigs = match self.sigs {
            Some(v) => v,
            None => {
                return Err(DecodeError::MissingSection { tag: SectionTag::FunctionSigs.to_u8() });
            },
        };
        let table = match self.table {
            Some(v) => v,
            None => {
                return Err(DecodeError::MissingSection { tag: SectionTag::FunctionTable.to_u8() });
            },
        };
        let blobs = match self.blobs {
            Some(v) => v,
            None => {
                return Err(DecodeError::MissingSection { tag: SectionTag::BytecodeBlobs.to_u8() });
            },
        };
        let span_tables = match self.spans {
            Some(v) => v,
            None => {
                return Err(DecodeError::MissingSection { tag: SectionTag::SpanTables.to_u8() });
            },
        };
        let host_sig_defs = match self.host_sigs {
            Some(v) => v,
            None => {
                return Err(DecodeError::MissingSection { tag: SectionTag::HostSigs.to_u8() });
            },
        };
        let names = match self.names {
            Some(v) => v,
            None => {
                let v = NamesDef {
                    program_name: None,
                    function_names: Vec::new(),
                    labels: Vec::new(),
                };
                assert(v@ =~= no_names());
                v
            },
        };
        let outputs = match self.outputs {
            Some(v) => v,
            None => Vec::new(),
        };
        assert(names@ =~= view.names_or_none());
        assert(outputs@ =~= view.outputs_or_none());
        let (code_ranges, bytecode_data) = join_pieces(&blobs)?;
        let (span_ranges, spans) = join_pieces(&span_tables)?;
        let (host_sigs, mut value_types) = assemble_host_sigs(&host_sig_defs)?;
        if sigs.len() != table.len() {
            return Err(DecodeError::OutOfBounds);
        }
        let functions = assemble_functions(
            &table,
            &sigs,
            &code_ranges,
            &span_ranges,
            &mut value_types,
        )?;
        if !check_names(&names, &outputs, symbols.len(), &functions) {
            return Err(DecodeError::OutOfBounds);
        }
        let types = TypeTable::pack(types);
        Ok(
            Program {
                symbols,
                symbol_data,
                const_pool,
                const_bytes_data,
                const_str_data,
                host_sigs,
                types,
                value_types,
                bytecode_data,
                spans,
                functions,
                program_name: names.program_name,
                function_names: names.function_names,
                labels: names.labels,
                function_output_names: outputs,
            },
        )
    }
}

/// Reads the sections that follow a header.
fn decode_current(start: Reader<'_>) -> (res: Result<Program, DecodeError>)
    requires
        start.wf(),
    ensures
        match body_at(start.data(), start.pos()) {
            Ok(p) => res is Ok && res->Ok_0@ == p,
            Err(e) => res == Err::<Program, DecodeError>(e),
        },
{
    let ghost s = start.data();
    let mut r = start;
    let ghost all = sections_at(s, r.pos(), SectionsView::none());
    let mut sections = Sections::new();
    let len = r.len();
    while r.offset() < len
        invariant
            r.wf(),
            r.data() == s,
            s == start.data(),
            all == sections_at(s, start.pos(), SectionsView::none()),
            len == s.len(),
            sections_at(s, r.pos(), sections@) == all,
        decreases len - r.pos(),
    {
        proof {
            lemma_blob_at_bounds(s, r.pos() + 1);
        }
        let tag = r.read_u8()?;
        let payload = r.read_blob()?;
        sections.add_section(tag, payload)?;
    }
    sections.assemble()
}

impl Program {
    /// Reads a program from its binary form.
    pub fn decode(bytes: &[u8]) -> (res: Result<Self, DecodeError>)
        ensures
            match decode_program(bytes@) {
                Ok(p) => res is Ok && res->Ok_0@ == p,
                Err(e) => res == Err::<Self, DecodeError>(e),
            },
    {
        let mut r = Reader::new(bytes);
        let magic = r.read_bytes(8)?;
        if !bytes_eq(magic, magic_bytes().as_slice()) {
            return Err(DecodeError::BadMagic);
        }
        proof {
            wire::lemma_le2_bound(bytes@, 8);
            wire::lemma_le2_bound(bytes@, 10);
        }
        let major = r.read_u16_le()?;
        let minor = r.read_u16_le()?;
        if major != VERSION_MAJOR || minor != VERSION_MINOR {
            return Err(DecodeError::UnsupportedVersion { major, minor });
        }
        decode_current(r)
    }
}

} // verus!
