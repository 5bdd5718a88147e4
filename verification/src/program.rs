//! Program container: packed arenas, tables and lookups.
//!
//! A [`Program`] keeps strings, bytes, types, bytecode and spans in per-program arenas, and refers
//! to them by [`ByteRange`]. This module builds programs and looks things up in them; the binary
//! form is in [`crate::container`]. Whether the bytecode makes sense is the business of
//! [`crate::verifier`].

use vstd::prelude::*;
use vstd::string::*;
use vstd::utf8::*;

use crate::wire::DecodeError;
use crate::host::SigHash;
use crate::text::{str_from_utf8, str_get};

verus! {

/// The major version of the binary format.
pub const VERSION_MAJOR: u16 = 0;

/// The minor version of the binary format.
pub const VERSION_MINOR: u16 = 1;

/// A host-call symbol.
#[derive(Clone, Debug, PartialEq, Eq)]
pub struct HostSymbol {
    /// Symbol string, typically qualified by a namespace.
    pub symbol: String,
}

/// A symbol table entry.
#[derive(Copy, Clone, Debug, PartialEq, Eq, Structural)]
pub struct SymbolEntry {
    /// Symbol bytes (range into [`Program::symbol_data`]).
    pub bytes: ByteRange,
}

/// A constant-pool literal.
#[derive(Clone, Debug, PartialEq, Eq)]
pub enum Const {
    /// `()`.
    Unit,
    /// Boolean literal.
    Bool(bool),
    /// `i64` literal.
    I64(i64),
    /// `u64` literal.
    U64(u64),
    /// `f64` literal, by its IEEE 754 bits.
    F64(u64),
    /// Decimal literal.
    Decimal {
        /// Integer mantissa.
        mantissa: i64,
        /// Number of fractional decimal digits.
        scale: u8,
    },
    /// Byte string.
    Bytes(Vec<u8>),
    /// UTF-8 string.
    Str(String),
}

/// A `(pc_delta, span_id)` mapping entry.
#[derive(Copy, Clone, Debug, PartialEq, Eq, Structural)]
pub struct SpanEntry {
    /// Distance from the previous entry's `pc` (from 0 for the first entry).
    pub pc_delta: u64,
    /// Stable span identifier.
    pub span_id: u64,
}

/// Index into [`Program::symbols`].
#[derive(Copy, Clone, Debug, PartialEq, Eq, Hash, Structural)]
pub struct SymbolId(pub u32);

/// Index into [`Program::const_pool`].
#[derive(Copy, Clone, Debug, PartialEq, Eq, Hash, Structural)]
pub struct ConstId(pub u32);

/// Index into [`Program::host_sigs`].
#[derive(Copy, Clone, Debug, PartialEq, Eq, Hash, Structural)]
pub struct HostSigId(pub u32);

/// A range in one of a program's arenas.
#[derive(Copy, Clone, Debug, PartialEq, Eq, Structural)]
pub struct ByteRange {
    /// First index.
    pub offset: u32,
    /// Number of elements.
    pub len: u32,
}

impl ByteRange {
    /// The index behind the range.
    pub fn end(self) -> (res: Result<u32, DecodeError>)
        ensures
            self.offset + self.len <= u32::MAX ==> res == Ok::<u32, DecodeError>(
                (self.offset + self.len) as u32,
            ),
            self.offset + self.len > u32::MAX ==> res == Err::<u32, DecodeError>(
                DecodeError::OutOfBounds,
            ),
    {
        match self.offset.checked_add(self.len) {
            Some(end) => Ok(end),
            None => Err(DecodeError::OutOfBounds),
        }
    }
}

/// Function metadata.
#[derive(Copy, Clone, Debug, PartialEq, Eq, Structural)]
pub struct Function {
    /// Number of value arguments (the effect token is not counted).
    pub arg_count: u32,
    /// Number of value returns.
    pub ret_count: u32,
    /// Number of virtual registers.
    pub reg_count: u32,
    /// Bytecode (range into [`Program::bytecode_data`]).
    pub bytecode: ByteRange,
    /// Span table (range into [`Program::spans`]).
    pub spans: ByteRange,
    /// Argument types (range into [`Program::value_types`]).
    pub arg_types: ByteRange,
    /// Return types (range into [`Program::value_types`]).
    pub ret_types: ByteRange,
}

/// A function definition from which a [`Program`] is packed.
#[derive(Clone, Debug, PartialEq, Eq)]
pub struct FunctionDef {
    /// Argument types (without the implicit effect token).
    pub arg_types: Vec<ValueType>,
    /// Return types.
    pub ret_types: Vec<ValueType>,
    /// Number of virtual registers.
    pub reg_count: u32,
    /// Bytecode.
    pub bytecode: Vec<u8>,
    /// Span table.
    pub spans: Vec<SpanEntry>,
}

/// A host signature definition from which a [`Program`] is packed.
#[derive(Clone, Debug, PartialEq, Eq)]
pub struct HostSigDef {
    /// Host symbol.
    pub symbol: SymbolId,
    /// Argument types.
    pub args: Vec<ValueType>,
    /// Return types.
    pub rets: Vec<ValueType>,
}

/// A program.
#[derive(Clone, Debug, PartialEq, Eq)]
pub struct Program {
    /// Symbol table (host-call symbols and names for debugging).
    pub symbols: Vec<SymbolEntry>,
    /// Packed symbol text.
    pub symbol_data: String,
    /// Constant pool.
    pub const_pool: Vec<ConstEntry>,
    /// Packed constant bytes.
    pub const_bytes_data: Vec<u8>,
    /// Packed constant text.
    pub const_str_data: String,
    /// Host signature table.
    pub host_sigs: Vec<HostSigEntry>,
    /// Type table.
    pub types: TypeTable,
    /// Packed value types of function and host signatures.
    pub value_types: Vec<ValueType>,
    /// Packed bytecode.
    pub bytecode_data: Vec<u8>,
    /// Packed span entries.
    pub spans: Vec<SpanEntry>,
    /// Functions.
    pub functions: Vec<Function>,
    /// Program name. Names serve debugging and are not needed for execution.
    pub program_name: Option<SymbolId>,
    /// Function names.
    pub function_names: Vec<FunctionNameEntry>,
    /// Label names.
    pub labels: Vec<LabelNameEntry>,
    /// Function output names.
    pub function_output_names: Vec<FunctionOutputNameEntry>,
}

/// The name of a function.
#[derive(Copy, Clone, Debug, PartialEq, Eq, Structural)]
pub struct FunctionNameEntry {
    /// Function index.
    pub func: u32,
    /// Name.
    pub name: SymbolId,
}

/// The name of a code position.
#[derive(Copy, Clone, Debug, PartialEq, Eq, Structural)]
pub struct LabelNameEntry {
    /// Function index.
    pub func: u32,
    /// Byte offset in the function's bytecode.
    pub pc: u32,
    /// Name.
    pub name: SymbolId,
}

/// The name of a function output.
#[derive(Copy, Clone, Debug, PartialEq, Eq, Structural)]
pub struct FunctionOutputNameEntry {
    /// Function index.
    pub func: u32,
    /// Return index.
    pub ret: u32,
    /// Name.
    pub name: SymbolId,
}

/// A constant-pool entry.
#[derive(Copy, Clone, Debug, PartialEq, Eq, Structural)]
pub enum ConstEntry {
    /// `()`.
    Unit,
    /// Boolean literal.
    Bool(bool),
    /// `i64` literal.
    I64(i64),
    /// `u64` literal.
    U64(u64),
    /// `f64` literal, by its IEEE 754 bits.
    F64(u64),
    /// Decimal literal.
    Decimal {
        /// Integer mantissa.
        mantissa: i64,
        /// Number of fractional decimal digits.
        scale: u8,
    },
    /// Byte string (range into [`Program::const_bytes_data`]).
    Bytes(ByteRange),
    /// UTF-8 string (range into [`Program::const_str_data`]).
    Str(ByteRange),
}

/// Index into [`TypeTable::structs`].
#[derive(Copy, Clone, Debug, PartialEq, Eq, Hash, Structural)]
pub struct TypeId(pub u32);

/// Index into [`TypeTable::field_name_ranges`].
#[derive(Copy, Clone, Debug, PartialEq, Eq, Hash, Structural)]
pub struct FieldNameId(pub u32);

/// Index into [`TypeTable::array_elems`].
#[derive(Copy, Clone, Debug, PartialEq, Eq, Hash, Structural)]
pub struct ElemTypeId(pub u32);

/// A stable identifier of a host-provided object type. The embedder gives it its meaning.
#[derive(Copy, Clone, Debug, PartialEq, Eq, Hash, Structural)]
pub struct HostTypeId(pub u64);

/// A value type.
#[derive(Copy, Clone, Debug, PartialEq, Eq, Structural)]
pub enum ValueType {
    /// `()`.
    Unit,
    /// Boolean.
    Bool,
    /// Signed 64-bit integer.
    I64,
    /// Unsigned 64-bit integer.
    U64,
    /// IEEE 754 64-bit float.
    F64,
    /// Decimal (`i64` mantissa, `u8` scale per value).
    Decimal,
    /// Byte string.
    Bytes,
    /// UTF-8 string.
    Str,
    /// Host object of a host-defined type.
    Obj(HostTypeId),
    /// Aggregate handle.
    Agg,
    /// Function reference.
    Func,
}

/// A host signature table entry.
#[derive(Copy, Clone, Debug, PartialEq, Eq, Structural)]
pub struct HostSigEntry {
    /// Host symbol.
    pub symbol: SymbolId,
    /// Signature hash.
    pub sig_hash: SigHash,
    /// Argument types (range into [`Program::value_types`]).
    pub args: ByteRange,
    /// Return types (range into [`Program::value_types`]).
    pub rets: ByteRange,
}

/// A struct type definition from which a [`TypeTable`] is packed.
#[derive(Clone, Debug, PartialEq, Eq)]
pub struct StructTypeDef {
    /// Field names in order.
    pub field_names: Vec<String>,
    /// Field types in the order of `field_names`.
    pub field_types: Vec<ValueType>,
}

/// Type definitions from which a [`TypeTable`] is packed.
#[derive(Clone, Debug, PartialEq, Eq)]
pub struct TypeTableDef {
    /// Struct definitions, indexed by [`TypeId`].
    pub structs: Vec<StructTypeDef>,
    /// Array element types, indexed by [`ElemTypeId`].
    pub array_elems: Vec<ValueType>,
}

impl Default for TypeTableDef {
    fn default() -> (def: Self)
        ensures
            def.structs@ == Seq::<StructTypeDef>::empty(),
            def.array_elems@ == Seq::<ValueType>::empty(),
    {
        TypeTableDef { structs: Vec::new(), array_elems: Vec::new() }
    }
}

/// A packed struct type.
#[derive(Copy, Clone, Debug, PartialEq, Eq, Structural)]
pub struct StructType {
    /// Field names (range into [`TypeTable::field_name_ids`]).
    pub field_name_ids: ByteRange,
    /// Field types (range into [`TypeTable::field_types`]).
    pub field_types: ByteRange,
}

/// A program's type table.
#[derive(Clone, Debug, PartialEq, Eq)]
pub struct TypeTable {
    /// Packed UTF-8 bytes of the distinct field names.
    pub name_data: Vec<u8>,
    /// The distinct field names, indexed by [`FieldNameId`] (ranges into `name_data`).
    pub field_name_ranges: Vec<ByteRange>,
    /// Packed field names of the structs.
    pub field_name_ids: Vec<FieldNameId>,
    /// Packed field types of the structs.
    pub field_types: Vec<ValueType>,
    /// Structs, indexed by [`TypeId`].
    pub structs: Vec<StructType>,
    /// Array element types, indexed by [`ElemTypeId`].
    pub array_elems: Vec<ValueType>,
}

impl Default for TypeTable {
    fn default() -> (t: Self)
        ensures
            t@ == TypeTableView::empty(),
    {
        let t = TypeTable {
            name_data: Vec::new(),
            field_name_ranges: Vec::new(),
            field_name_ids: Vec::new(),
            field_types: Vec::new(),
            structs: Vec::new(),
            array_elems: Vec::new(),
        };
        assert(t@ =~= TypeTableView::empty());
        t
    }
}

// ---------------------------------------------------------------------------------------------
// Models.
// ---------------------------------------------------------------------------------------------

/// The contents of a [`TypeTable`].
#[verifier::ext_equal]
pub struct TypeTableView {
    pub name_data: Seq<u8>,
    pub field_name_ranges: Seq<ByteRange>,
    pub field_name_ids: Seq<FieldNameId>,
    pub field_types: Seq<ValueType>,
    pub structs: Seq<StructType>,
    pub array_elems: Seq<ValueType>,
}

impl TypeTableView {
    /// A table without types.
    pub open spec fn empty() -> Self {
        TypeTableView {
            name_data: seq![],
            field_name_ranges: seq![],
            field_name_ids: seq![],
            field_types: seq![],
            structs: seq![],
            array_elems: seq![],
        }
    }
}

impl View for TypeTable {
    type V = TypeTableView;

    open spec fn view(&self) -> TypeTableView {
        TypeTableView {
            name_data: self.name_data@,
            field_name_ranges: self.field_name_ranges@,
            field_name_ids: self.field_name_ids@,
            field_types: self.field_types@,
            structs: self.structs@,
            array_elems: self.array_elems@,
        }
    }
}

/// The contents of a [`Program`]. Text arenas are given by their UTF-8 bytes.
#[verifier::ext_equal]
pub struct ProgramView {
    pub symbols: Seq<SymbolEntry>,
    pub symbol_data: Seq<u8>,
    pub const_pool: Seq<ConstEntry>,
    pub const_bytes_data: Seq<u8>,
    pub const_str_data: Seq<u8>,
    pub host_sigs: Seq<HostSigEntry>,
    pub types: TypeTableView,
    pub value_types: Seq<ValueType>,
    pub bytecode_data: Seq<u8>,
    pub spans: Seq<SpanEntry>,
    pub functions: Seq<Function>,
    pub program_name: Option<SymbolId>,
    pub function_names: Seq<FunctionNameEntry>,
    pub labels: Seq<LabelNameEntry>,
    pub function_output_names: Seq<FunctionOutputNameEntry>,
}

impl View for Program {
    type V = ProgramView;

    open spec fn view(&self) -> ProgramView {
        ProgramView {
            symbols: self.symbols@,
            symbol_data: encode_utf8(self.symbol_data@),
            const_pool: self.const_pool@,
            const_bytes_data: self.const_bytes_data@,
            const_str_data: encode_utf8(self.const_str_data@),
            host_sigs: self.host_sigs@,
            types: self.types@,
            value_types: self.value_types@,
            bytecode_data: self.bytecode_data@,
            spans: self.spans@,
            functions: self.functions@,
            program_name: self.program_name,
            function_names: self.function_names@,
            labels: self.labels@,
            function_output_names: self.function_output_names@,
        }
    }
}

/// The elements of `data` in the range `r`, where that range lies in `data`.
pub open spec fn slice_of<T>(data: Seq<T>, r: ByteRange) -> Option<Seq<T>> {
    if r.offset + r.len <= u32::MAX && r.offset + r.len <= data.len() {
        Some(data.subrange(r.offset as int, r.offset + r.len))
    } else {
        None
    }
}

/// The text of `data` in the range `r`.
pub open spec fn text_of(data: Seq<u8>, r: ByteRange) -> Result<Seq<u8>, DecodeError> {
    if r.offset + r.len > u32::MAX {
        Err(DecodeError::OutOfBounds)
    } else {
        match crate::text::str_part(data, r.offset as int, r.offset + r.len) {
            Some(part) => Ok(part),
            None => Err(DecodeError::InvalidUtf8),
        }
    }
}

/// `n` as a `u32`, or the largest `u32` where it does not fit.
pub open spec fn clamp32(n: nat) -> u32 {
    if n <= u32::MAX {
        n as u32
    } else {
        u32::MAX
    }
}

/// `n` as a `u32`, or the largest `u32` where it does not fit.
pub fn clamp_u32(n: usize) -> (r: u32)
    ensures
        r == clamp32(n as nat),
{
    if n <= u32::MAX as usize {
        n as u32
    } else {
        u32::MAX
    }
}

/// A result that holds a slice holds `expected`, or is the error `e`.
pub open spec fn is_slice<T>(
    res: Result<&[T], DecodeError>,
    expected: Option<Seq<T>>,
    e: DecodeError,
) -> bool {
    match expected {
        Some(s) => res is Ok && res->Ok_0@ == s,
        None => res == Err::<&[T], DecodeError>(e),
    }
}

/// A result that holds text holds the bytes `expected`, or is its error.
pub open spec fn is_text(
    res: Result<&str, DecodeError>,
    expected: Result<Seq<u8>, DecodeError>,
) -> bool {
    match expected {
        Ok(bytes) => res is Ok && res->Ok_0.spec_bytes() == bytes,
        Err(e) => res == Err::<&str, DecodeError>(e),
    }
}

/// An optional text is there exactly where `expected` is, and then has these bytes.
pub open spec fn is_opt_text(res: Option<&str>, expected: Option<Seq<u8>>) -> bool {
    match expected {
        Some(bytes) => res is Some && res->0.spec_bytes() == bytes,
        None => res is None,
    }
}

/// The elements of `data` in the range `r`.
pub fn get_slice<T>(data: &[T], r: ByteRange) -> (res: Result<&[T], DecodeError>)
    ensures
        is_slice(res, slice_of(data@, r), DecodeError::OutOfBounds),
{
    let end = r.end()? as usize;
    if end > data.len() {
        return Err(DecodeError::OutOfBounds);
    }
    Ok(vstd::slice::slice_subrange(data, r.offset as usize, end))
}

fn get_text(data: &str, r: ByteRange) -> (res: Result<&str, DecodeError>)
    ensures
        is_text(res, text_of(data.spec_bytes(), r)),
{
    let end = r.end()? as usize;
    match str_get(data, r.offset as usize, end) {
        Some(s) => Ok(s),
        None => Err(DecodeError::InvalidUtf8),
    }
}

impl ProgramView {
    /// The text of a symbol.
    pub open spec fn symbol(self, id: SymbolId) -> Result<Seq<u8>, DecodeError> {
        if id.0 < self.symbols.len() {
            text_of(self.symbol_data, self.symbols[id.0 as int].bytes)
        } else {
            Err(DecodeError::OutOfBounds)
        }
    }

    /// The text of a name, if there is one and it can be read.
    pub open spec fn symbol_opt(self, id: Option<SymbolId>) -> Option<Seq<u8>> {
        match id {
            Some(id) => match self.symbol(id) {
                Ok(bytes) => Some(bytes),
                Err(_) => None,
            },
            None => None,
        }
    }
}

/// The first name given to the function `func`.
pub open spec fn function_name_in(names: Seq<FunctionNameEntry>, func: u32) -> Option<SymbolId>
    decreases names.len(),
{
    if names.len() == 0 {
        None
    } else if names[0].func == func {
        Some(names[0].name)
    } else {
        function_name_in(names.drop_first(), func)
    }
}

/// The first name given to the position `pc` of the function `func`.
pub open spec fn label_name_in(names: Seq<LabelNameEntry>, func: u32, pc: u32) -> Option<SymbolId>
    decreases names.len(),
{
    if names.len() == 0 {
        None
    } else if names[0].func == func && names[0].pc == pc {
        Some(names[0].name)
    } else {
        label_name_in(names.drop_first(), func, pc)
    }
}

/// The first name given to output `ret` of the function `func`.
pub open spec fn output_name_in(
    names: Seq<FunctionOutputNameEntry>,
    func: u32,
    ret: u32,
) -> Option<SymbolId>
    decreases names.len(),
{
    if names.len() == 0 {
        None
    } else if names[0].func == func && names[0].ret == ret {
        Some(names[0].name)
    } else {
        output_name_in(names.drop_first(), func, ret)
    }
}

// ---------------------------------------------------------------------------------------------
// Lookups.
// ---------------------------------------------------------------------------------------------

impl Function {
    /// This function's argument types in `program`.
    pub fn arg_types<'a>(&self, program: &'a Program) -> (res: Result<&'a [ValueType], DecodeError>)
        ensures
            is_slice(res, slice_of(program@.value_types, self.arg_types), DecodeError::OutOfBounds),
    {
        program.function_arg_types(self)
    }

    /// This function's return types in `program`.
    pub fn ret_types<'a>(&self, program: &'a Program) -> (res: Result<&'a [ValueType], DecodeError>)
        ensures
            is_slice(res, slice_of(program@.value_types, self.ret_types), DecodeError::OutOfBounds),
    {
        program.function_ret_types(self)
    }

    /// This function's bytecode in `program`.
    pub fn bytecode<'a>(&self, program: &'a Program) -> (res: Result<&'a [u8], DecodeError>)
        ensures
            is_slice(res, slice_of(program@.bytecode_data, self.bytecode), DecodeError::OutOfBounds),
    {
        program.function_bytecode(self)
    }

    /// This function's span table in `program`.
    pub fn spans<'a>(&self, program: &'a Program) -> (res: Result<&'a [SpanEntry], DecodeError>)
        ensures
            is_slice(res, slice_of(program@.spans, self.spans), DecodeError::OutOfBounds),
    {
        program.function_spans(self)
    }
}

impl TypeTable {
    /// The UTF-8 bytes of a field name.
    pub fn field_name_bytes(&self, id: FieldNameId) -> (res: Option<&[u8]>)
        ensures
            if id.0 < self.field_name_ranges@.len() {
                match slice_of(self.name_data@, self.field_name_ranges@[id.0 as int]) {
                    Some(bytes) => res is Some && res->0@ == bytes,
                    None => res is None,
                }
            } else {
                res is None
            },
    {
        if (id.0 as usize) < self.field_name_ranges.len() {
            match get_slice(self.name_data.as_slice(), self.field_name_ranges[id.0 as usize]) {
                Ok(bytes) => Some(bytes),
                Err(_) => None,
            }
        } else {
            None
        }
    }

    /// A field name.
    pub fn field_name_str(&self, id: FieldNameId) -> (res: Option<&str>)
        ensures
            is_opt_text(res, self@.field_name(id)),
    {
        match self.field_name_bytes(id) {
            Some(bytes) => str_from_utf8(bytes),
            None => None,
        }
    }

    /// The field names of a packed struct.
    pub fn struct_field_name_ids(&self, st: &StructType) -> (res: Result<
        &[FieldNameId],
        DecodeError,
    >)
        ensures
            is_slice(
                res,
                slice_of(self.field_name_ids@, st.field_name_ids),
                DecodeError::OutOfBounds,
            ),
    {
        get_slice(self.field_name_ids.as_slice(), st.field_name_ids)
    }

    /// The field types of a packed struct.
    pub fn struct_field_types(&self, st: &StructType) -> (res: Result<&[ValueType], DecodeError>)
        ensures
            is_slice(res, slice_of(self.field_types@, st.field_types), DecodeError::OutOfBounds),
    {
        get_slice(self.field_types.as_slice(), st.field_types)
    }
}

impl TypeTableView {
    /// The UTF-8 bytes of a field name, where they are valid.
    pub open spec fn field_name(self, id: FieldNameId) -> Option<Seq<u8>> {
        if id.0 < self.field_name_ranges.len() {
            match slice_of(self.name_data, self.field_name_ranges[id.0 as int]) {
                Some(bytes) => if valid_utf8(bytes) {
                    Some(bytes)
                } else {
                    None
                },
                None => None,
            }
        } else {
            None
        }
    }
}

impl Program {
    /// The program name.
    pub fn name(&self) -> (res: Option<&str>)
        ensures
            is_opt_text(res, self@.symbol_opt(self@.program_name)),
    {
        match self.program_name {
            Some(id) => match self.symbol_str(id) {
                Ok(s) => Some(s),
                Err(_) => None,
            },
            None => None,
        }
    }

    /// The name of the function `func`.
    pub fn function_name(&self, func: u32) -> (res: Option<&str>)
        ensures
            is_opt_text(res, self@.symbol_opt(function_name_in(self@.function_names, func))),
    {
        let names = &self.function_names;
        let mut i: usize = 0;
        assert(names@.skip(0) =~= names@);
        while i < names.len()
            invariant
                i <= names.len(),
                names == &self.function_names,
                function_name_in(names@.skip(i as int), func) == function_name_in(names@, func),
            decreases names.len() - i,
        {
            assert(names@.skip(i as int).drop_first() =~= names@.skip(i + 1));
            if names[i].func == func {
                return match self.symbol_str(names[i].name) {
                    Ok(s) => Some(s),
                    Err(_) => None,
                };
            }
            i = i + 1;
        }
        None
    }

    /// The name of the position `pc` of the function `func`.
    pub fn label_name(&self, func: u32, pc: u32) -> (res: Option<&str>)
        ensures
            is_opt_text(res, self@.symbol_opt(label_name_in(self@.labels, func, pc))),
    {
        let names = &self.labels;
        let mut i: usize = 0;
        assert(names@.skip(0) =~= names@);
        while i < names.len()
            invariant
                i <= names.len(),
                names == &self.labels,
                label_name_in(names@.skip(i as int), func, pc) == label_name_in(names@, func, pc),
            decreases names.len() - i,
        {
            assert(names@.skip(i as int).drop_first() =~= names@.skip(i + 1));
            if names[i].func == func && names[i].pc == pc {
                return match self.symbol_str(names[i].name) {
                    Ok(s) => Some(s),
                    Err(_) => None,
                };
            }
            i = i + 1;
        }
        None
    }

    /// The name of output `ret` of the function `func`.
    pub fn function_output_name(&self, func: u32, ret: u32) -> (res: Option<&str>)
        ensures
            is_opt_text(
                res,
                self@.symbol_opt(output_name_in(self@.function_output_names, func, ret)),
            ),
    {
        let names = &self.function_output_names;
        let mut i: usize = 0;
        assert(names@.skip(0) =~= names@);
        while i < names.len()
            invariant
                i <= names.len(),
                names == &self.function_output_names,
                output_name_in(names@.skip(i as int), func, ret) == output_name_in(names@, func, ret),
            decreases names.len() - i,
        {
            assert(names@.skip(i as int).drop_first() =~= names@.skip(i + 1));
            if names[i].func == func && names[i].ret == ret {
                return match self.symbol_str(names[i].name) {
                    Ok(s) => Some(s),
                    Err(_) => None,
                };
            }
            i = i + 1;
        }
        None
    }

    /// The text of a symbol.
    pub fn symbol_str(&self, id: SymbolId) -> (res: Result<&str, DecodeError>)
        ensures
            is_text(res, self@.symbol(id)),
    {
        if (id.0 as usize) < self.symbols.len() {
            get_text(self.symbol_data.as_str(), self.symbols[id.0 as usize].bytes)
        } else {
            Err(DecodeError::OutOfBounds)
        }
    }

    /// The bytes of a [`ConstEntry::Bytes`] constant.
    pub fn const_bytes(&self, id: ConstId) -> (res: Result<&[u8], DecodeError>)
        ensures
            is_slice(
                res,
                if id.0 < self@.const_pool.len() {
                    match self@.const_pool[id.0 as int] {
                        ConstEntry::Bytes(r) => slice_of(self@.const_bytes_data, r),
                        _ => None,
                    }
                } else {
                    None
                },
                DecodeError::OutOfBounds,
            ),
    {
        if (id.0 as usize) < self.const_pool.len() {
            match self.const_pool[id.0 as usize] {
                ConstEntry::Bytes(r) => get_slice(self.const_bytes_data.as_slice(), r),
                _ => Err(DecodeError::OutOfBounds),
            }
        } else {
            Err(DecodeError::OutOfBounds)
        }
    }

    /// The text of a [`ConstEntry::Str`] constant.
    pub fn const_str(&self, id: ConstId) -> (res: Result<&str, DecodeError>)
        ensures
            is_text(
                res,
                if id.0 < self@.const_pool.len() {
                    match self@.const_pool[id.0 as int] {
                        ConstEntry::Str(r) => text_of(self@.const_str_data, r),
                        _ => Err(DecodeError::OutOfBounds),
                    }
                } else {
                    Err(DecodeError::OutOfBounds)
                },
            ),
    {
        if (id.0 as usize) < self.const_pool.len() {
            match self.const_pool[id.0 as usize] {
                ConstEntry::Str(r) => get_text(self.const_str_data.as_str(), r),
                _ => Err(DecodeError::OutOfBounds),
            }
        } else {
            Err(DecodeError::OutOfBounds)
        }
    }

    /// The argument types of `func`.
    pub fn function_arg_types(&self, func: &Function) -> (res: Result<&[ValueType], DecodeError>)
        ensures
            is_slice(res, slice_of(self@.value_types, func.arg_types), DecodeError::OutOfBounds),
    {
        get_slice(self.value_types.as_slice(), func.arg_types)
    }

    /// The return types of `func`.
    pub fn function_ret_types(&self, func: &Function) -> (res: Result<&[ValueType], DecodeError>)
        ensures
            is_slice(res, slice_of(self@.value_types, func.ret_types), DecodeError::OutOfBounds),
    {
        get_slice(self.value_types.as_slice(), func.ret_types)
    }

    /// The host signature `id`.
    pub fn host_sig(&self, id: HostSigId) -> (res: Option<&HostSigEntry>)
        ensures
            id.0 < self@.host_sigs.len() ==> res is Some && *res->0 == self@.host_sigs[id.0 as int],
            id.0 >= self@.host_sigs.len() ==> res is None,
    {
        if (id.0 as usize) < self.host_sigs.len() {
            Some(&self.host_sigs[id.0 as usize])
        } else {
            None
        }
    }

    /// The argument types of a host signature.
    pub fn host_sig_args(&self, entry: &HostSigEntry) -> (res: Result<&[ValueType], DecodeError>)
        ensures
            is_slice(res, slice_of(self@.value_types, entry.args), DecodeError::OutOfBounds),
    {
        get_slice(self.value_types.as_slice(), entry.args)
    }

    /// The return types of a host signature.
    pub fn host_sig_rets(&self, entry: &HostSigEntry) -> (res: Result<&[ValueType], DecodeError>)
        ensures
            is_slice(res, slice_of(self@.value_types, entry.rets), DecodeError::OutOfBounds),
    {
        get_slice(self.value_types.as_slice(), entry.rets)
    }

    /// The bytecode of `func`.
    pub fn function_bytecode(&self, func: &Function) -> (res: Result<&[u8], DecodeError>)
        ensures
            is_slice(res, slice_of(self@.bytecode_data, func.bytecode), DecodeError::OutOfBounds),
    {
        get_slice(self.bytecode_data.as_slice(), func.bytecode)
    }

    /// The span table of `func`.
    pub fn function_spans(&self, func: &Function) -> (res: Result<&[SpanEntry], DecodeError>)
        ensures
            is_slice(res, slice_of(self@.spans, func.spans), DecodeError::OutOfBounds),
    {
        get_slice(self.spans.as_slice(), func.spans)
    }
}

} // verus!
