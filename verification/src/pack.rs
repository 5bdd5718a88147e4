//! Packing definitions into arenas.
//!
//! [`Program::new`] and [`TypeTable::pack`] append the pieces of a program to arenas and record
//! where each piece went. The functions here say what the arenas and the recorded ranges are.

use vstd::prelude::*;
use vstd::string::*;
use vstd::utf8::*;

use crate::host::{sig_hash_slices, SigHash};
use crate::program::{
    clamp_u32, ByteRange, Const, ConstEntry, FieldNameId, Function, FunctionDef, HostSigDef,
    HostSigEntry, HostSymbol, Program, ProgramView, SpanEntry, StructType, StructTypeDef,
    SymbolEntry, SymbolId, FunctionNameEntry, FunctionOutputNameEntry, LabelNameEntry, TypeTable, TypeTableDef, TypeTableView, ValueType,
};
use crate::program;
use crate::text::{push_str, str_eq};

verus! {

/// The first position of `x` in `s`, or the length of `s` where it does not occur.
pub open spec fn position<T>(s: Seq<T>, x: T) -> nat
    decreases s.len(),
{
    if s.len() == 0 || s[0] == x {
        0
    } else {
        1 + position(s.drop_first(), x)
    }
}

/// The first position is what a search from the front finds.
pub proof fn lemma_position<T>(s: Seq<T>, x: T, i: nat)
    requires
        i <= s.len(),
        forall|j: int| 0 <= j < i ==> s[j] != x,
        i < s.len() ==> s[i as int] == x,
    ensures
        position(s, x) == i,
    decreases s.len(),
{
    if i > 0 {
        assert(s[0] != x);
        let t = s.drop_first();
        assert forall|j: int| 0 <= j < i - 1 implies t[j] != x by {
            assert(t[j] == s[j + 1]);
        }
        lemma_position(t, x, (i - 1) as nat);
    }
}

/// A value stands at its first position, if it occurs at all.
pub proof fn lemma_position_found<T>(s: Seq<T>, x: T)
    ensures
        position(s, x) <= s.len(),
        s.contains(x) <==> position(s, x) < s.len(),
        position(s, x) < s.len() ==> s[position(s, x) as int] == x,
        forall|j: int| 0 <= j < position(s, x) ==> s[j] != x,
    decreases s.len(),
{
    if s.len() > 0 && s[0] != x {
        let t = s.drop_first();
        lemma_position_found(t, x);
        assert forall|j: int| 0 <= j < position(s, x) implies s[j] != x by {
            if j > 0 {
                assert(s[j] == t[j - 1]);
            }
        }
        if s.contains(x) {
            let k = choose|k: int| 0 <= k < s.len() && s[k] == x;
            assert(t[k - 1] == x);
        }
        if t.contains(x) {
            let k = choose|k: int| 0 <= k < t.len() && t[k] == x;
            assert(s[k + 1] == x);
        }
    }
}

/// The range that a piece of length `len` gets when it is appended to an arena of length `used`.
pub open spec fn next_range(used: nat, len: nat) -> ByteRange {
    ByteRange { offset: program::clamp32(used), len: program::clamp32(len) }
}

// ---------------------------------------------------------------------------------------------
// Symbols and constants.
// ---------------------------------------------------------------------------------------------

/// A symbol table under construction.
#[verifier::ext_equal]
pub struct SymbolArena {
    pub entries: Seq<SymbolEntry>,
    pub data: Seq<u8>,
}

impl SymbolArena {
    /// The table with one more symbol.
    pub open spec fn plus(self, text: Seq<u8>) -> Self {
        SymbolArena {
            entries: self.entries.push(SymbolEntry { bytes: next_range(self.data.len(), text.len()) }),
            data: self.data + text,
        }
    }
}

/// The table of `symbols`.
pub open spec fn pack_symbols(symbols: Seq<Seq<char>>) -> SymbolArena
    decreases symbols.len(),
{
    if symbols.len() == 0 {
        SymbolArena { entries: seq![], data: seq![] }
    } else {
        pack_symbols(symbols.drop_last()).plus(encode_utf8(symbols.last()))
    }
}

/// What a constant is.
pub enum ConstModel {
    Plain(ConstEntry),
    Bytes(Seq<u8>),
    Str(Seq<char>),
}

impl Const {
    /// What this constant is.
    pub open spec fn model(self) -> ConstModel {
        match self {
            Const::Unit => ConstModel::Plain(ConstEntry::Unit),
            Const::Bool(v) => ConstModel::Plain(ConstEntry::Bool(v)),
            Const::I64(v) => ConstModel::Plain(ConstEntry::I64(v)),
            Const::U64(v) => ConstModel::Plain(ConstEntry::U64(v)),
            Const::F64(bits) => ConstModel::Plain(ConstEntry::F64(bits)),
            Const::Decimal { mantissa, scale } => ConstModel::Plain(
                ConstEntry::Decimal { mantissa, scale },
            ),
            Const::Bytes(b) => ConstModel::Bytes(b@),
            Const::Str(s) => ConstModel::Str(s@),
        }
    }
}

/// A constant pool under construction.
#[verifier::ext_equal]
pub struct ConstArena {
    pub entries: Seq<ConstEntry>,
    pub bytes: Seq<u8>,
    pub text: Seq<u8>,
}

impl ConstArena {
    /// The pool with one more entry, which needs no arena.
    pub open spec fn plus_plain(self, e: ConstEntry) -> Self {
        ConstArena { entries: self.entries.push(e), ..self }
    }

    /// The pool with one more byte string.
    pub open spec fn plus_bytes(self, b: Seq<u8>) -> Self {
        ConstArena {
            entries: self.entries.push(ConstEntry::Bytes(next_range(self.bytes.len(), b.len()))),
            bytes: self.bytes + b,
            text: self.text,
        }
    }

    /// The pool with one more string.
    pub open spec fn plus_text(self, t: Seq<u8>) -> Self {
        ConstArena {
            entries: self.entries.push(ConstEntry::Str(next_range(self.text.len(), t.len()))),
            bytes: self.bytes,
            text: self.text + t,
        }
    }

    /// The pool with one more constant.
    pub open spec fn plus(self, c: ConstModel) -> Self {
        match c {
            ConstModel::Plain(e) => self.plus_plain(e),
            ConstModel::Bytes(b) => self.plus_bytes(b),
            ConstModel::Str(t) => self.plus_text(encode_utf8(t)),
        }
    }
}

/// The pool of `consts`.
pub open spec fn pack_consts(consts: Seq<ConstModel>) -> ConstArena
    decreases consts.len(),
{
    if consts.len() == 0 {
        ConstArena { entries: seq![], bytes: seq![], text: seq![] }
    } else {
        pack_consts(consts.drop_last()).plus(consts.last())
    }
}

/// Appends one symbol.
pub fn append_symbol(entries: &mut Vec<SymbolEntry>, data: &mut String, symbol: &str)
    ensures
        (SymbolArena { entries: final(entries)@, data: encode_utf8(final(data)@) }) == (SymbolArena {
            entries: old(entries)@,
            data: encode_utf8(old(data)@),
        }).plus(encode_utf8(symbol@)),
{
    let offset = clamp_u32(data.as_str().as_bytes().len());
    let len = clamp_u32(symbol.as_bytes().len());
    push_str(data, symbol);
    entries.push(SymbolEntry { bytes: ByteRange { offset, len } });
}

fn append_const(
    entries: &mut Vec<ConstEntry>,
    bytes: &mut Vec<u8>,
    text: &mut String,
    c: &Const,
)
    ensures
        (ConstArena {
            entries: final(entries)@,
            bytes: final(bytes)@,
            text: encode_utf8(final(text)@),
        }) == (ConstArena {
            entries: old(entries)@,
            bytes: old(bytes)@,
            text: encode_utf8(old(text)@),
        }).plus(c.model()),
{
    match c {
        Const::Unit => entries.push(ConstEntry::Unit),
        Const::Bool(v) => entries.push(ConstEntry::Bool(*v)),
        Const::I64(v) => entries.push(ConstEntry::I64(*v)),
        Const::U64(v) => entries.push(ConstEntry::U64(*v)),
        Const::F64(bits) => entries.push(ConstEntry::F64(*bits)),
        Const::Decimal { mantissa, scale } => entries.push(
            ConstEntry::Decimal { mantissa: *mantissa, scale: *scale },
        ),
        Const::Bytes(b) => {
            let offset = clamp_u32(bytes.len());
            bytes.extend_from_slice(b.as_slice());
            assert(bytes@ =~= old(bytes)@ + b@);
            let len = clamp_u32(b.len());
            entries.push(ConstEntry::Bytes(ByteRange { offset, len }));
        },
        Const::Str(s) => {
            let offset = clamp_u32(text.as_str().as_bytes().len());
            let len = clamp_u32(s.as_str().as_bytes().len());
            push_str(text, s.as_str());
            entries.push(ConstEntry::Str(ByteRange { offset, len }));
        },
    }
}

// ---------------------------------------------------------------------------------------------
// Types.
// ---------------------------------------------------------------------------------------------

/// A type table under construction, with the distinct field names met so far.
#[verifier::ext_equal]
pub struct TypeArena {
    pub table: TypeTableView,
    pub names: Seq<Seq<char>>,
}

impl TypeArena {
    /// Nothing packed yet.
    pub open spec fn empty() -> Self {
        TypeArena { table: TypeTableView::empty(), names: seq![] }
    }

    /// The arena after one more field name. A name that was met before keeps its id; a new one
    /// gets the next.
    pub open spec fn plus_name(self, name: Seq<char>) -> Self {
        let k = position(self.names, name);
        if k < self.names.len() {
            TypeArena {
                table: TypeTableView {
                    field_name_ids: self.table.field_name_ids.push(FieldNameId(program::clamp32(k))),
                    ..self.table
                },
                ..self
            }
        } else {
            TypeArena {
                table: TypeTableView {
                    name_data: self.table.name_data + encode_utf8(name),
                    field_name_ranges: self.table.field_name_ranges.push(
                        next_range(self.table.name_data.len(), encode_utf8(name).len()),
                    ),
                    field_name_ids: self.table.field_name_ids.push(FieldNameId(program::clamp32(k))),
                    ..self.table
                },
                names: self.names.push(name),
            }
        }
    }

    /// The arena after some field names.
    pub open spec fn plus_names(self, names: Seq<Seq<char>>) -> Self
        decreases names.len(),
    {
        if names.len() == 0 {
            self
        } else {
            self.plus_names(names.drop_last()).plus_name(names.last())
        }
    }

    /// The arena after one more struct.
    pub open spec fn plus_struct(self, st: StructModel) -> Self {
        let named = self.plus_names(st.names);
        TypeArena {
            table: TypeTableView {
                field_types: self.table.field_types + st.types,
                structs: self.table.structs.push(
                    StructType {
                        field_name_ids: next_range(self.table.field_name_ids.len(), st.names.len()),
                        field_types: next_range(self.table.field_types.len(), st.types.len()),
                    },
                ),
                ..named.table
            },
            ..named
        }
    }
}

/// The fields of a struct: their names and, in the same order, their types.
#[verifier::ext_equal]
pub struct StructModel {
    pub names: Seq<Seq<char>>,
    pub types: Seq<ValueType>,
}

impl StructTypeDef {
    /// The number of fields. Where there are more names than types or the other way round, the
    /// surplus is left out.
    pub open spec fn field_count(self) -> nat {
        if self.field_names@.len() <= self.field_types@.len() {
            self.field_names@.len()
        } else {
            self.field_types@.len()
        }
    }

    /// The fields.
    pub open spec fn model(self) -> StructModel {
        StructModel {
            names: texts(self.field_names@).take(self.field_count() as int),
            types: self.field_types@.take(self.field_count() as int),
        }
    }
}

/// The fields of each struct.
pub open spec fn models(defs: Seq<StructTypeDef>) -> Seq<StructModel> {
    defs.map_values(|d: StructTypeDef| d.model())
}

/// The arena of `structs`.
pub open spec fn pack_structs(structs: Seq<StructModel>) -> TypeArena
    decreases structs.len(),
{
    if structs.len() == 0 {
        TypeArena::empty()
    } else {
        pack_structs(structs.drop_last()).plus_struct(structs.last())
    }
}

/// The type table of `structs` and `array_elems`.
pub open spec fn pack_types(
    structs: Seq<StructModel>,
    array_elems: Seq<ValueType>,
) -> TypeTableView {
    TypeTableView { array_elems, ..pack_structs(structs).table }
}

/// The characters of each string.
pub open spec fn texts(names: Seq<String>) -> Seq<Seq<char>> {
    names.map_values(|s: String| s@)
}

/// Appends a field name to a type table, and returns its id.
fn intern_field(
    names: &mut Vec<String>,
    arena: &mut Vec<u8>,
    interned_ranges: &mut Vec<ByteRange>,
    s: &String,
) -> (id: FieldNameId)
    ensures
        ({
            let before = texts(old(names)@);
            let k = position(before, s@);
            &&& id == FieldNameId(program::clamp32(k))
            &&& if k < before.len() {
                &&& final(names)@ == old(names)@
                &&& final(arena)@ == old(arena)@
                &&& final(interned_ranges)@ == old(interned_ranges)@
            } else {
                &&& texts(final(names)@) == before.push(s@)
                &&& final(arena)@ == old(arena)@ + encode_utf8(s@)
                &&& final(interned_ranges)@ == old(interned_ranges)@.push(
                    next_range(old(arena)@.len(), encode_utf8(s@).len()),
                )
            }
        }),
{
    let ghost before = texts(names@);
    let mut i: usize = 0;
    while i < names.len()
        invariant
            i <= names.len(),
            before == texts(names@),
            names@ == old(names)@,
            arena@ == old(arena)@,
            interned_ranges@ == old(interned_ranges)@,
            forall|j: int| 0 <= j < i ==> before[j] != s@,
        decreases names.len() - i,
    {
        if str_eq(names[i].as_str(), s.as_str()) {
            proof {
                lemma_position(before, s@, i as nat);
            }
            return FieldNameId(clamp_u32(i));
        }
        i = i + 1;
    }
    proof {
        lemma_position(before, s@, i as nat);
    }
    let offset = clamp_u32(arena.len());
    let bytes = s.as_str().as_bytes();
    arena.extend_from_slice(bytes);
    assert(arena@ =~= old(arena)@ + encode_utf8(s@));
    let len = clamp_u32(bytes.len());
    let id = FieldNameId(clamp_u32(names.len()));
    interned_ranges.push(ByteRange { offset, len });
    names.push(s.clone());
    assert(texts(names@) =~= before.push(s@));
    id
}

impl TypeTable {
    /// Packs type definitions. Equal field names share one id, over all structs.
    pub fn pack(def: TypeTableDef) -> (t: Self)
        ensures
            t@ == pack_types(models(def.structs@), def.array_elems@),
    {
        let mut name_data: Vec<u8> = Vec::new();
        let mut field_name_ranges: Vec<ByteRange> = Vec::new();
        let mut field_name_ids: Vec<FieldNameId> = Vec::new();
        let mut field_types: Vec<ValueType> = Vec::new();
        let mut structs: Vec<StructType> = Vec::new();
        let mut names: Vec<String> = Vec::new();
        let mut i: usize = 0;
        let ghost all = models(def.structs@);
        assert(all.take(0) =~= Seq::<StructModel>::empty());
        assert(texts(names@) =~= seq![]);
        while i < def.structs.len()
            invariant
                i <= def.structs.len(),
                all == models(def.structs@),
                pack_structs(all.take(i as int)) == (TypeArena {
                    table: TypeTableView {
                        name_data: name_data@,
                        field_name_ranges: field_name_ranges@,
                        field_name_ids: field_name_ids@,
                        field_types: field_types@,
                        structs: structs@,
                        array_elems: seq![],
                    },
                    names: texts(names@),
                }),
            decreases def.structs.len() - i,
        {
            let st = &def.structs[i];
            assert(all.take(i + 1).drop_last() =~= all.take(i as int));
            let ghost start = pack_structs(all.take(i as int));
            let ghost fields = st.model();
            let field_count: usize = if st.field_names.len() <= st.field_types.len() {
                st.field_names.len()
            } else {
                st.field_types.len()
            };
            let names_off = clamp_u32(field_name_ids.len());
            let mut k: usize = 0;
            assert(fields.names.take(0) =~= Seq::<Seq<char>>::empty());
            while k < field_count
                invariant
                    k <= field_count,
                    field_count == st.field_count(),
                    fields == st.model(),
                    start.plus_names(fields.names.take(k as int)) == (TypeArena {
                        table: TypeTableView {
                            name_data: name_data@,
                            field_name_ranges: field_name_ranges@,
                            field_name_ids: field_name_ids@,
                            ..start.table
                        },
                        names: texts(names@),
                    }),
                decreases field_count - k,
            {
                assert(fields.names.take(k + 1).drop_last() =~= fields.names.take(k as int));
                assert(fields.names.take(k + 1).last() == st.field_names@[k as int]@);
                let id = intern_field(
                    &mut names,
                    &mut name_data,
                    &mut field_name_ranges,
                    &st.field_names[k],
                );
                field_name_ids.push(id);
                k = k + 1;
            }
            assert(fields.names.take(k as int) =~= fields.names);
            let names_len = clamp_u32(field_count);
            let types_off = clamp_u32(field_types.len());
            let part = vstd::slice::slice_subrange(st.field_types.as_slice(), 0, field_count);
            let ghost types_before = field_types@;
            field_types.extend_from_slice(part);
            assert(field_types@ =~= types_before + fields.types);
            let types_len = clamp_u32(field_count);
            structs.push(
                StructType {
                    field_name_ids: ByteRange { offset: names_off, len: names_len },
                    field_types: ByteRange { offset: types_off, len: types_len },
                },
            );
            i = i + 1;
        }
        assert(all.take(i as int) =~= all);
        TypeTable {
            name_data,
            field_name_ranges,
            field_name_ids,
            field_types,
            structs,
            array_elems: def.array_elems,
        }
    }
}

// ---------------------------------------------------------------------------------------------
// Signatures and functions.
// ---------------------------------------------------------------------------------------------

/// Host signatures under construction.
#[verifier::ext_equal]
pub struct SigArena {
    pub entries: Seq<HostSigEntry>,
    pub value_types: Seq<ValueType>,
}

/// What a host signature is.
pub struct HostSigModel {
    pub symbol: SymbolId,
    pub sig_hash: SigHash,
    pub args: Seq<ValueType>,
    pub rets: Seq<ValueType>,
}

impl HostSigDef {
    /// What this signature is, with its hash.
    pub open spec fn model(self) -> HostSigModel {
        HostSigModel {
            symbol: self.symbol,
            sig_hash: crate::host::spec_sig_hash(self.args@, self.rets@),
            args: self.args@,
            rets: self.rets@,
        }
    }
}

impl SigArena {
    /// One more host signature.
    pub open spec fn plus(self, sig: HostSigModel) -> Self {
        SigArena {
            entries: self.entries.push(
                HostSigEntry {
                    symbol: sig.symbol,
                    sig_hash: sig.sig_hash,
                    args: next_range(self.value_types.len(), sig.args.len()),
                    rets: next_range(self.value_types.len() + sig.args.len(), sig.rets.len()),
                },
            ),
            value_types: self.value_types + sig.args + sig.rets,
        }
    }
}

/// The signatures `sigs`.
pub open spec fn pack_host_sigs(sigs: Seq<HostSigModel>) -> SigArena
    decreases sigs.len(),
{
    if sigs.len() == 0 {
        SigArena { entries: seq![], value_types: seq![] }
    } else {
        pack_host_sigs(sigs.drop_last()).plus(sigs.last())
    }
}

/// Functions under construction.
#[verifier::ext_equal]
pub struct FunctionArena {
    pub entries: Seq<Function>,
    pub bytecode: Seq<u8>,
    pub spans: Seq<SpanEntry>,
    pub value_types: Seq<ValueType>,
}

/// What a function is.
pub struct FunctionModel {
    pub arg_types: Seq<ValueType>,
    pub ret_types: Seq<ValueType>,
    pub reg_count: u32,
    pub bytecode: Seq<u8>,
    pub spans: Seq<SpanEntry>,
}

impl FunctionDef {
    /// What this function is.
    pub open spec fn model(self) -> FunctionModel {
        FunctionModel {
            arg_types: self.arg_types@,
            ret_types: self.ret_types@,
            reg_count: self.reg_count,
            bytecode: self.bytecode@,
            spans: self.spans@,
        }
    }
}

impl FunctionArena {
    /// One more function.
    pub open spec fn plus(self, f: FunctionModel) -> Self {
        FunctionArena {
            entries: self.entries.push(
                Function {
                    arg_count: program::clamp32(f.arg_types.len()),
                    ret_count: program::clamp32(f.ret_types.len()),
                    reg_count: f.reg_count,
                    bytecode: next_range(self.bytecode.len(), f.bytecode.len()),
                    spans: next_range(self.spans.len(), f.spans.len()),
                    arg_types: next_range(self.value_types.len(), f.arg_types.len()),
                    ret_types: next_range(
                        self.value_types.len() + f.arg_types.len(),
                        f.ret_types.len(),
                    ),
                },
            ),
            bytecode: self.bytecode + f.bytecode,
            spans: self.spans + f.spans,
            value_types: self.value_types + f.arg_types + f.ret_types,
        }
    }
}

/// The functions `funcs`, whose types follow `value_types`.
pub open spec fn pack_functions(
    value_types: Seq<ValueType>,
    funcs: Seq<FunctionModel>,
) -> FunctionArena
    decreases funcs.len(),
{
    if funcs.len() == 0 {
        FunctionArena { entries: seq![], bytecode: seq![], spans: seq![], value_types }
    } else {
        pack_functions(value_types, funcs.drop_last()).plus(funcs.last())
    }
}

/// What a program is made of, before it is packed.
pub struct Contents {
    pub symbols: Seq<Seq<char>>,
    pub consts: Seq<ConstModel>,
    pub host_sigs: Seq<HostSigModel>,
    pub structs: Seq<StructModel>,
    pub array_elems: Seq<ValueType>,
    pub functions: Seq<FunctionModel>,
    pub program_name: Option<SymbolId>,
    pub function_names: Seq<FunctionNameEntry>,
    pub labels: Seq<LabelNameEntry>,
    pub function_output_names: Seq<FunctionOutputNameEntry>,
}

impl Contents {
    /// The packed program.
    pub open spec fn pack(self) -> ProgramView {
        let syms = pack_symbols(self.symbols);
        let pool = pack_consts(self.consts);
        let sigs = pack_host_sigs(self.host_sigs);
        let funcs = pack_functions(sigs.value_types, self.functions);
        ProgramView {
            symbols: syms.entries,
            symbol_data: syms.data,
            const_pool: pool.entries,
            const_bytes_data: pool.bytes,
            const_str_data: pool.text,
            host_sigs: sigs.entries,
            types: pack_types(self.structs, self.array_elems),
            value_types: funcs.value_types,
            bytecode_data: funcs.bytecode,
            spans: funcs.spans,
            functions: funcs.entries,
            program_name: self.program_name,
            function_names: self.function_names,
            labels: self.labels,
            function_output_names: self.function_output_names,
        }
    }
}

/// What the given definitions are, without names.
pub open spec fn contents_of(
    symbols: Seq<HostSymbol>,
    consts: Seq<Const>,
    host_sigs: Seq<HostSigDef>,
    types: TypeTableDef,
    functions: Seq<FunctionDef>,
) -> Contents {
    Contents {
        symbols: symbols.map_values(|s: HostSymbol| s.symbol@),
        consts: consts.map_values(|c: Const| c.model()),
        host_sigs: host_sigs.map_values(|d: HostSigDef| d.model()),
        structs: models(types.structs@),
        array_elems: types.array_elems@,
        functions: functions.map_values(|d: FunctionDef| d.model()),
        program_name: None,
        function_names: seq![],
        labels: seq![],
        function_output_names: seq![],
    }
}

/// Appends `piece` to `arena`, and returns the range where it went.
pub fn append_piece<T: Copy>(arena: &mut Vec<T>, piece: &[T]) -> (r: ByteRange)
    ensures
        final(arena)@ == old(arena)@ + piece@,
        r == next_range(old(arena)@.len(), piece@.len()),
{
    let offset = clamp_u32(arena.len());
    let len = clamp_u32(piece.len());
    let mut i: usize = 0;
    while i < piece.len()
        invariant
            i <= piece.len(),
            arena@ == old(arena)@ + piece@.take(i as int),
        decreases piece.len() - i,
    {
        assert(piece@.take(i + 1) =~= piece@.take(i as int).push(piece@[i as int]));
        arena.push(piece[i]);
        i = i + 1;
    }
    assert(piece@.take(i as int) =~= piece@);
    ByteRange { offset, len }
}

fn append_host_sig(
    entries: &mut Vec<HostSigEntry>,
    value_types: &mut Vec<ValueType>,
    def: &HostSigDef,
)
    ensures
        (SigArena { entries: final(entries)@, value_types: final(value_types)@ }) == (SigArena {
            entries: old(entries)@,
            value_types: old(value_types)@,
        }).plus(def.model()),
{
    let args = append_piece(value_types, def.args.as_slice());
    let rets = append_piece(value_types, def.rets.as_slice());
    let sig_hash = sig_hash_slices(def.args.as_slice(), def.rets.as_slice());
    entries.push(HostSigEntry { symbol: def.symbol, sig_hash, args, rets });
}

fn append_function(
    entries: &mut Vec<Function>,
    bytecode: &mut Vec<u8>,
    spans: &mut Vec<SpanEntry>,
    value_types: &mut Vec<ValueType>,
    def: &FunctionDef,
)
    ensures
        (FunctionArena {
            entries: final(entries)@,
            bytecode: final(bytecode)@,
            spans: final(spans)@,
            value_types: final(value_types)@,
        }) == (FunctionArena {
            entries: old(entries)@,
            bytecode: old(bytecode)@,
            spans: old(spans)@,
            value_types: old(value_types)@,
        }).plus(def.model()),
{
    let byte_range = append_piece(bytecode, def.bytecode.as_slice());
    let span_range = append_piece(spans, def.spans.as_slice());
    let arg_types = append_piece(value_types, def.arg_types.as_slice());
    let ret_types = append_piece(value_types, def.ret_types.as_slice());
    entries.push(
        Function {
            arg_count: clamp_u32(def.arg_types.len()),
            ret_count: clamp_u32(def.ret_types.len()),
            reg_count: def.reg_count,
            bytecode: byte_range,
            spans: span_range,
            arg_types,
            ret_types,
        },
    );
}

impl Program {
    /// Packs a program from definitions.
    pub fn new(
        symbols: Vec<HostSymbol>,
        const_pool: Vec<Const>,
        host_sigs: Vec<HostSigDef>,
        types: TypeTableDef,
        functions: Vec<FunctionDef>,
    ) -> (p: Self)
        ensures
            p@ == contents_of(symbols@, const_pool@, host_sigs@, types, functions@).pack(),
    {
        let ghost c = contents_of(symbols@, const_pool@, host_sigs@, types, functions@);
        let mut symbol_data: String = String::new();
        let mut packed_symbols: Vec<SymbolEntry> = Vec::new();
        let mut i: usize = 0;
        assert(c.symbols.take(0) =~= Seq::<Seq<char>>::empty());
        while i < symbols.len()
            invariant
                i <= symbols.len(),
                c == contents_of(symbols@, const_pool@, host_sigs@, types, functions@),
                pack_symbols(c.symbols.take(i as int)) == (SymbolArena {
                    entries: packed_symbols@,
                    data: encode_utf8(symbol_data@),
                }),
            decreases symbols.len() - i,
        {
            assert(c.symbols.take(i + 1).drop_last() =~= c.symbols.take(i as int));
            append_symbol(&mut packed_symbols, &mut symbol_data, symbols[i].symbol.as_str());
            i = i + 1;
        }
        assert(c.symbols.take(i as int) =~= c.symbols);

        let mut const_bytes_data: Vec<u8> = Vec::new();
        let mut const_str_data: String = String::new();
        let mut packed_consts: Vec<ConstEntry> = Vec::new();
        let mut i: usize = 0;
        assert(c.consts.take(0) =~= Seq::<ConstModel>::empty());
        while i < const_pool.len()
            invariant
                i <= const_pool.len(),
                c == contents_of(symbols@, const_pool@, host_sigs@, types, functions@),
                pack_consts(c.consts.take(i as int)) == (ConstArena {
                    entries: packed_consts@,
                    bytes: const_bytes_data@,
                    text: encode_utf8(const_str_data@),
                }),
            decreases const_pool.len() - i,
        {
            assert(c.consts.take(i + 1).drop_last() =~= c.consts.take(i as int));
            append_const(
                &mut packed_consts,
                &mut const_bytes_data,
                &mut const_str_data,
                &const_pool[i],
            );
            i = i + 1;
        }
        assert(c.consts.take(i as int) =~= c.consts);

        let mut value_types: Vec<ValueType> = Vec::new();
        let mut packed_host_sigs: Vec<HostSigEntry> = Vec::new();
        let mut i: usize = 0;
        assert(c.host_sigs.take(0) =~= Seq::<HostSigModel>::empty());
        while i < host_sigs.len()
            invariant
                i <= host_sigs.len(),
                c == contents_of(symbols@, const_pool@, host_sigs@, types, functions@),
                pack_host_sigs(c.host_sigs.take(i as int)) == (SigArena {
                    entries: packed_host_sigs@,
                    value_types: value_types@,
                }),
            decreases host_sigs.len() - i,
        {
            assert(c.host_sigs.take(i + 1).drop_last() =~= c.host_sigs.take(i as int));
            append_host_sig(&mut packed_host_sigs, &mut value_types, &host_sigs[i]);
            i = i + 1;
        }
        assert(c.host_sigs.take(i as int) =~= c.host_sigs);

        let ghost sig_types = value_types@;
        let mut bytecode_data: Vec<u8> = Vec::new();
        let mut spans: Vec<SpanEntry> = Vec::new();
        let mut packed_functions: Vec<Function> = Vec::new();
        let mut i: usize = 0;
        assert(c.functions.take(0) =~= Seq::<FunctionModel>::empty());
        while i < functions.len()
            invariant
                i <= functions.len(),
                c == contents_of(symbols@, const_pool@, host_sigs@, types, functions@),
                pack_functions(sig_types, c.functions.take(i as int)) == (FunctionArena {
                    entries: packed_functions@,
                    bytecode: bytecode_data@,
                    spans: spans@,
                    value_types: value_types@,
                }),
            decreases functions.len() - i,
        {
            assert(c.functions.take(i + 1).drop_last() =~= c.functions.take(i as int));
            append_function(
                &mut packed_functions,
                &mut bytecode_data,
                &mut spans,
                &mut value_types,
                &functions[i],
            );
            i = i + 1;
        }
        assert(c.functions.take(i as int) =~= c.functions);

        let types = TypeTable::pack(types);
        Program {
            symbols: packed_symbols,
            symbol_data,
            const_pool: packed_consts,
            const_bytes_data,
            const_str_data,
            host_sigs: packed_host_sigs,
            types,
            value_types,
            bytecode_data,
            spans,
            functions: packed_functions,
            program_name: None,
            function_names: Vec::new(),
            labels: Vec::new(),
            function_output_names: Vec::new(),
        }
    }
}

} // verus!
