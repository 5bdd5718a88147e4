//! Program builder.

use vstd::prelude::*;
use vstd::string::*;

use crate::assembler;
use crate::assembler::{Asm, AsmParts, AsmView, NamedLabel, UnresolvedLabel};
use crate::effects::{copy_types, same_types};
use crate::faults;
use crate::host;
use crate::host::HostSig;
use crate::pack;
use crate::pack::{ConstModel, Contents, FunctionModel, HostSigModel, StructModel};
use crate::program;
use crate::program::{
    clamp_u32, Const, ConstId, ElemTypeId, FunctionDef, FunctionNameEntry, FunctionOutputNameEntry,
    HostSigDef, HostSigId, HostSymbol, LabelNameEntry, Program, ProgramView, SpanEntry,
    StructTypeDef, SymbolId, TypeId, TypeTableDef, ValueType,
};
use crate::text::{bytes_eq, str_eq};
use crate::value::FuncId;
use crate::verify;
use crate::verify::{
    verify_program, verify_program_owned, VerifiedProgram, VerifyConfig, VerifyError,
};

verus! {

// ---------------------------------------------------------------------------------------------
// Errors.
// ---------------------------------------------------------------------------------------------

/// Why a function body was rejected.
#[derive(Copy, Clone, Debug, PartialEq, Eq, Structural)]
pub enum AsmError {
    /// A label was referenced but never placed.
    UnresolvedLabel,
    /// The bytecode failed verification under the given signature.
    Verify(VerifyError),
}

/// Why a program was rejected.
#[derive(Copy, Clone, Debug, PartialEq, Eq, Structural)]
pub enum BuildError {
    /// A function id was out of range.
    BadFuncId {
        /// The function id.
        func: u32,
    },
    /// A return index was out of range for the function.
    BadRetIndex {
        /// The function id.
        func: u32,
        /// The return index.
        ret: u32,
    },
    /// A function was declared but never defined.
    MissingFunctionBody {
        /// The function id.
        func: u32,
    },
    /// The program failed verification.
    Verify(VerifyError),
    /// A label was referenced but never placed.
    UnresolvedLabel,
}

impl From<UnresolvedLabel> for AsmError {
    fn from(e: UnresolvedLabel) -> (r: Self) {
        AsmError::UnresolvedLabel
    }
}

impl vstd::std_specs::convert::FromSpecImpl<UnresolvedLabel> for AsmError {
    open spec fn obeys_from_spec() -> bool {
        true
    }

    open spec fn from_spec(e: UnresolvedLabel) -> Self {
        AsmError::UnresolvedLabel
    }
}

impl From<VerifyError> for AsmError {
    fn from(e: VerifyError) -> (r: Self) {
        AsmError::Verify(e)
    }
}

impl vstd::std_specs::convert::FromSpecImpl<VerifyError> for AsmError {
    open spec fn obeys_from_spec() -> bool {
        true
    }

    open spec fn from_spec(e: VerifyError) -> Self {
        AsmError::Verify(e)
    }
}

impl From<VerifyError> for BuildError {
    fn from(e: VerifyError) -> (r: Self) {
        BuildError::Verify(e)
    }
}

impl vstd::std_specs::convert::FromSpecImpl<VerifyError> for BuildError {
    open spec fn obeys_from_spec() -> bool {
        true
    }

    open spec fn from_spec(e: VerifyError) -> Self {
        BuildError::Verify(e)
    }
}

impl From<UnresolvedLabel> for BuildError {
    fn from(e: UnresolvedLabel) -> (r: Self) {
        BuildError::UnresolvedLabel
    }
}

impl vstd::std_specs::convert::FromSpecImpl<UnresolvedLabel> for BuildError {
    open spec fn obeys_from_spec() -> bool {
        true
    }

    open spec fn from_spec(e: UnresolvedLabel) -> Self {
        BuildError::UnresolvedLabel
    }
}

impl From<AsmError> for BuildError {
    fn from(e: AsmError) -> (r: Self) {
        match e {
            AsmError::UnresolvedLabel => BuildError::UnresolvedLabel,
            AsmError::Verify(e) => BuildError::Verify(e),
        }
    }
}

impl vstd::std_specs::convert::FromSpecImpl<AsmError> for BuildError {
    open spec fn obeys_from_spec() -> bool {
        true
    }

    open spec fn from_spec(e: AsmError) -> Self {
        match e {
            AsmError::UnresolvedLabel => BuildError::UnresolvedLabel,
            AsmError::Verify(e) => BuildError::Verify(e),
        }
    }
}

// ---------------------------------------------------------------------------------------------
// Models.
// ---------------------------------------------------------------------------------------------

/// A function signature.
#[derive(Clone, Debug, PartialEq, Eq)]
pub struct FunctionSig {
    /// Argument types (without the implicit effect token).
    pub arg_types: Vec<ValueType>,
    /// Return types.
    pub ret_types: Vec<ValueType>,
    /// Number of registers of the function (register 0 counts).
    pub reg_count: u32,
}

impl FunctionSig {
    /// A function with this signature and the given body.
    pub open spec fn with_body(self, code: Seq<u8>, spans: Seq<SpanEntry>) -> FunctionModel {
        FunctionModel {
            arg_types: self.arg_types@,
            ret_types: self.ret_types@,
            reg_count: self.reg_count,
            bytecode: code,
            spans,
        }
    }
}

/// What a struct type definition holds.
#[verifier::ext_equal]
pub struct StructDefModel {
    pub names: Seq<Seq<char>>,
    pub types: Seq<ValueType>,
}

/// What a struct type definition holds.
pub open spec fn struct_def(d: StructTypeDef) -> StructDefModel {
    StructDefModel { names: pack::texts(d.field_names@), types: d.field_types@ }
}

/// What struct type definitions hold.
pub open spec fn struct_defs(v: Seq<StructTypeDef>) -> Seq<StructDefModel> {
    v.map_values(|d: StructTypeDef| struct_def(d))
}

/// The fields of a struct type definition: names and types pair up as far as there are both.
pub open spec fn fields(d: StructDefModel) -> StructModel {
    let n: int = if d.names.len() <= d.types.len() {
        d.names.len() as int
    } else {
        d.types.len() as int
    };
    StructModel { names: d.names.take(n), types: d.types.take(n) }
}

/// What a builder holds.
#[verifier::ext_equal]
pub struct BuilderView {
    pub symbols: Seq<Seq<char>>,
    pub consts: Seq<ConstModel>,
    pub host_sigs: Seq<HostSigModel>,
    pub structs: Seq<StructDefModel>,
    pub array_elems: Seq<ValueType>,
    pub functions: Seq<FunctionModel>,
    pub program_name: Option<SymbolId>,
    pub function_names: Seq<FunctionNameEntry>,
    pub labels: Seq<LabelNameEntry>,
    pub function_output_names: Seq<FunctionOutputNameEntry>,
}

/// A table with a value in it that is there only once.
pub open spec fn interned<T>(s: Seq<T>, x: T) -> Seq<T> {
    if pack::position(s, x) < s.len() {
        s
    } else {
        s.push(x)
    }
}

/// The id of a value of a table: its first position.
pub open spec fn intern_id<T>(s: Seq<T>, x: T) -> u32 {
    program::clamp32(pack::position(s, x))
}

/// Sets the name of a function: the first entry of the function gets it, or else a new entry.
pub open spec fn set_function(names: Seq<FunctionNameEntry>, func: u32, name: SymbolId) -> Seq<
    FunctionNameEntry,
> {
    let i = pack::position(names.map_values(|e: FunctionNameEntry| e.func), func) as int;
    let e = FunctionNameEntry { func, name };
    if i < names.len() {
        names.update(i, e)
    } else {
        names.push(e)
    }
}

/// Sets the name of an output: the first entry of the output gets it, or else a new entry.
pub open spec fn set_output(
    names: Seq<FunctionOutputNameEntry>,
    func: u32,
    ret: u32,
    name: SymbolId,
) -> Seq<FunctionOutputNameEntry> {
    let i = pack::position(
        names.map_values(|e: FunctionOutputNameEntry| (e.func, e.ret)),
        (func, ret),
    ) as int;
    let e = FunctionOutputNameEntry { func, ret, name };
    if i < names.len() {
        names.update(i, e)
    } else {
        names.push(e)
    }
}

/// Sets the name of a position: the first entry of the position gets it, or else a new entry.
pub open spec fn set_label(names: Seq<LabelNameEntry>, func: u32, pc: u32, name: SymbolId) -> Seq<
    LabelNameEntry,
> {
    let i = pack::position(names.map_values(|e: LabelNameEntry| (e.func, e.pc)), (func, pc)) as int;
    let e = LabelNameEntry { func, pc, name };
    if i < names.len() {
        names.update(i, e)
    } else {
        names.push(e)
    }
}

impl BuilderView {
    /// A builder with nothing in it.
    pub open spec fn empty() -> Self {
        BuilderView {
            symbols: seq![],
            consts: seq![],
            host_sigs: seq![],
            structs: seq![],
            array_elems: seq![],
            functions: seq![],
            program_name: None,
            function_names: seq![],
            labels: seq![],
            function_output_names: seq![],
        }
    }

    /// Whether nothing is there twice: no symbol, no name of a function and no name of an output. What
    /// has a name is there.
    pub open spec fn valid(self) -> bool {
        let names = self.function_names;
        let outputs = self.function_output_names;
        &&& self.symbols.no_duplicates()
        &&& forall|i: int, j: int|
            0 <= i < j < names.len() ==> (#[trigger] names[i]).func != (#[trigger] names[j]).func
        &&& forall|i: int|
            0 <= i < names.len() ==> (#[trigger] names[i]).func < self.functions.len()
        &&& forall|i: int, j: int|
            0 <= i < j < outputs.len() ==> !((#[trigger] outputs[i]).func == (
            #[trigger] outputs[j]).func && outputs[i].ret == outputs[j].ret)
        &&& forall|i: int|
            0 <= i < outputs.len() ==> (#[trigger] outputs[i]).func < self.functions.len()
                && outputs[i].ret < self.functions[outputs[i].func as int].ret_types.len()
    }

    /// The id that a symbol has or gets.
    pub open spec fn symbol_id(self, symbol: Seq<char>) -> SymbolId {
        SymbolId(intern_id(self.symbols, symbol))
    }

    /// With a symbol.
    pub open spec fn with_symbol(self, symbol: Seq<char>) -> Self {
        BuilderView { symbols: interned(self.symbols, symbol), ..self }
    }

    /// With a named label of a function.
    pub open spec fn with_label(self, func: u32, label: (u32, Seq<char>)) -> Self {
        let name = self.symbol_id(label.1);
        let v = self.with_symbol(label.1);
        BuilderView { labels: v.labels.push(LabelNameEntry { func, pc: label.0, name }), ..v }
    }

    /// With named labels of a function.
    pub open spec fn with_labels(self, func: u32, labels: Seq<(u32, Seq<char>)>) -> Self
        decreases labels.len(),
    {
        if labels.len() == 0 {
            self
        } else {
            self.with_labels(func, labels.drop_last()).with_label(func, labels.last())
        }
    }

    /// With one more function.
    pub open spec fn with_function(self, f: FunctionModel) -> Self {
        BuilderView { functions: self.functions.push(f), ..self }
    }

    /// With the body of a function replaced.
    pub open spec fn with_body(self, func: u32, code: Seq<u8>, spans: Seq<SpanEntry>) -> Self {
        BuilderView {
            functions: self.functions.update(
                func as int,
                FunctionModel { bytecode: code, spans, ..self.functions[func as int] },
            ),
            ..self
        }
    }

    /// The contents of the program.
    pub open spec fn contents(self) -> Contents {
        Contents {
            symbols: self.symbols,
            consts: self.consts,
            host_sigs: self.host_sigs,
            structs: self.structs.map_values(|d: StructDefModel| fields(d)),
            array_elems: self.array_elems,
            functions: self.functions,
            program_name: self.program_name,
            function_names: self.function_names,
            labels: self.labels,
            function_output_names: self.function_output_names,
        }
    }

    /// The program.
    pub open spec fn packed(self) -> ProgramView {
        self.contents().pack()
    }

    /// The first function without a body, from number `k` on.
    pub open spec fn missing_from(self, k: int) -> Option<u32>
        decreases self.functions.len() - k,
    {
        if k < 0 || k >= self.functions.len() {
            None
        } else if self.functions[k].bytecode.len() == 0 {
            Some(program::clamp32(k as nat))
        } else {
            self.missing_from(k + 1)
        }
    }

    /// The first function without a body.
    pub open spec fn missing(self) -> Option<u32> {
        self.missing_from(0)
    }
}

// ---------------------------------------------------------------------------------------------
// Comparisons.
// ---------------------------------------------------------------------------------------------

/// Whether two constants are the same.
fn same_const(a: &Const, b: &Const) -> (r: bool)
    ensures
        r == (a.model() == b.model()),
{
    match (a, b) {
        (Const::Unit, Const::Unit) => true,
        (Const::Bool(x), Const::Bool(y)) => *x == *y,
        (Const::I64(x), Const::I64(y)) => *x == *y,
        (Const::U64(x), Const::U64(y)) => *x == *y,
        (Const::F64(x), Const::F64(y)) => *x == *y,
        (
            Const::Decimal { mantissa: m, scale: s },
            Const::Decimal { mantissa: n, scale: t },
        ) => *m == *n && *s == *t,
        (Const::Bytes(x), Const::Bytes(y)) => bytes_eq(x.as_slice(), y.as_slice()),
        (Const::Str(x), Const::Str(y)) => str_eq(x.as_str(), y.as_str()),
        _ => false,
    }
}

/// Whether two lists of names are the same.
fn same_names(a: &Vec<String>, b: &Vec<String>) -> (r: bool)
    ensures
        r == (pack::texts(a@) == pack::texts(b@)),
{
    if a.len() != b.len() {
        assert(pack::texts(a@).len() != pack::texts(b@).len());
        return false;
    }
    let mut i: usize = 0;
    while i < a.len()
        invariant
            i <= a.len(),
            a@.len() == b@.len(),
            forall|k: int| 0 <= k < i ==> (#[trigger] a@[k])@ == b@[k]@,
        decreases a.len() - i,
    {
        if !str_eq(a[i].as_str(), b[i].as_str()) {
            assert(pack::texts(a@)[i as int] != pack::texts(b@)[i as int]);
            return false;
        }
        i = i + 1;
    }
    assert(pack::texts(a@) =~= pack::texts(b@));
    true
}

/// Whether two struct type definitions are the same.
fn same_struct(a: &StructTypeDef, b: &StructTypeDef) -> (r: bool)
    ensures
        r == (struct_def(*a) == struct_def(*b)),
{
    same_names(&a.field_names, &b.field_names) && same_types(
        a.field_types.as_slice(),
        b.field_types.as_slice(),
    )
}

/// Whether two host signatures are the same.
fn same_sig(a: &HostSigDef, b: &HostSigDef) -> (r: bool)
    ensures
        r == (a.model() == b.model()),
{
    a.symbol == b.symbol && same_types(a.args.as_slice(), b.args.as_slice()) && same_types(
        a.rets.as_slice(),
        b.rets.as_slice(),
    )
}

// ---------------------------------------------------------------------------------------------
// Builder.
// ---------------------------------------------------------------------------------------------

/// Builder of a [`Program`].
#[derive(Clone, Debug)]
pub struct ProgramBuilder {
    symbols: Vec<HostSymbol>,
    const_pool: Vec<Const>,
    host_sigs: Vec<HostSigDef>,
    types: TypeTableDef,
    functions: Vec<FunctionDef>,
    program_name: Option<SymbolId>,
    function_names: Vec<FunctionNameEntry>,
    labels: Vec<LabelNameEntry>,
    function_output_names: Vec<FunctionOutputNameEntry>,
}

impl View for ProgramBuilder {
    type V = BuilderView;

    closed spec fn view(&self) -> BuilderView {
        BuilderView {
            symbols: self.symbols@.map_values(|s: HostSymbol| s.symbol@),
            consts: self.const_pool@.map_values(|c: Const| c.model()),
            host_sigs: self.host_sigs@.map_values(|d: HostSigDef| d.model()),
            structs: struct_defs(self.types.structs@),
            array_elems: self.types.array_elems@,
            functions: self.functions@.map_values(|d: FunctionDef| d.model()),
            program_name: self.program_name,
            function_names: self.function_names@,
            labels: self.labels@,
            function_output_names: self.function_output_names@,
        }
    }
}

// ---------------------------------------------------------------------------------------------
// Validity.
// ---------------------------------------------------------------------------------------------

proof fn lemma_valid_symbol(v: BuilderView, symbol: Seq<char>)
    ensures
        v.valid() ==> v.with_symbol(symbol).valid(),
{
    pack::lemma_position_found(v.symbols, symbol);
}

proof fn lemma_valid_function_name(v: BuilderView, func: u32, name: SymbolId)
    ensures
        v.valid() && func < v.functions.len() ==> (BuilderView {
            function_names: set_function(v.function_names, func, name),
            ..v
        }).valid(),
{
    let keys = v.function_names.map_values(|e: FunctionNameEntry| e.func);
    pack::lemma_position_found(keys, func);
    assert(forall|k: int| 0 <= k < keys.len() ==> #[trigger] keys[k] == v.function_names[k].func);
    assert(forall|k: int|
        0 <= k < keys.len() ==> keys[k] == (#[trigger] v.function_names[k]).func);
}

proof fn lemma_valid_output_name(v: BuilderView, func: u32, ret: u32, name: SymbolId)
    ensures
        v.valid() && func < v.functions.len() && ret < v.functions[func as int].ret_types.len() ==> (
        BuilderView {
            function_output_names: set_output(v.function_output_names, func, ret, name),
            ..v
        }).valid(),
{
    let names = v.function_output_names;
    let keys = names.map_values(|e: FunctionOutputNameEntry| (e.func, e.ret));
    pack::lemma_position_found(keys, (func, ret));
    assert(forall|k: int|
        0 <= k < keys.len() ==> #[trigger] keys[k] == (names[k].func, names[k].ret));
    assert(forall|k: int|
        0 <= k < names.len() ==> keys[k] == ((#[trigger] names[k]).func, names[k].ret));
}

proof fn lemma_valid_labels(v: BuilderView, func: u32, labels: Seq<(u32, Seq<char>)>)
    ensures
        v.valid() ==> v.with_labels(func, labels).valid(),
    decreases labels.len(),
{
    if labels.len() > 0 {
        lemma_valid_labels(v, func, labels.drop_last());
        lemma_valid_symbol(v.with_labels(func, labels.drop_last()), labels.last().1);
    }
}

impl ProgramBuilder {
    /// Creates an empty builder.
    #[must_use]
    pub fn new() -> (b: Self)
        ensures
            b@ == BuilderView::empty(),
            b@.valid(),
    {
        let b = ProgramBuilder {
            symbols: Vec::new(),
            const_pool: Vec::new(),
            host_sigs: Vec::new(),
            types: TypeTableDef { structs: Vec::new(), array_elems: Vec::new() },
            functions: Vec::new(),
            program_name: None,
            function_names: Vec::new(),
            labels: Vec::new(),
            function_output_names: Vec::new(),
        };
        assert(b@ =~= BuilderView::empty());
        b
    }

    /// Interns a symbol and gives its id. The symbol table serves host calls and names.
    pub fn symbol(&mut self, symbol: &str) -> (id: SymbolId)
        ensures
            old(self)@.valid() ==> final(self)@.valid(),
            id == old(self)@.symbol_id(symbol@),
            final(self)@ == old(self)@.with_symbol(symbol@),
    {
        proof {
            lemma_valid_symbol(self@, symbol@);
        }
        let ghost s = self@.symbols;
        let mut i: usize = 0;
        while i < self.symbols.len()
            invariant
                i <= self.symbols@.len(),
                s == self@.symbols,
                self@ == old(self)@,
                forall|k: int| 0 <= k < i ==> #[trigger] s[k] != symbol@,
            decreases self.symbols.len() - i,
        {
            assert(s[i as int] == self.symbols@[i as int].symbol@);
            if str_eq(self.symbols[i].symbol.as_str(), symbol) {
                proof {
                    pack::lemma_position(s, symbol@, i as nat);
                }
                return SymbolId(clamp_u32(i));
            }
            i = i + 1;
        }
        proof {
            pack::lemma_position(s, symbol@, i as nat);
        }
        self.symbols.push(HostSymbol { symbol: symbol.to_owned() });
        assert(self@ =~= old(self)@.with_symbol(symbol@));
        SymbolId(clamp_u32(i))
    }

    /// Sets the program's name.
    pub fn set_program_name(&mut self, name: &str) -> (id: SymbolId)
        ensures
            old(self)@.valid() ==> final(self)@.valid(),
            id == old(self)@.symbol_id(name@),
            final(self)@ == (BuilderView {
                program_name: Some(id),
                ..old(self)@.with_symbol(name@)
            }),
    {
        proof {
            lemma_valid_symbol(self@, name@);
        }
        let sym = self.symbol(name);
        self.program_name = Some(sym);
        assert(self@ =~= (BuilderView { program_name: Some(sym), ..old(self)@.with_symbol(name@) }));
        sym
    }

    /// Sets a function's name.
    pub fn set_function_name(&mut self, func: FuncId, name: &str) -> (res: Result<
        SymbolId,
        BuildError,
    >)
        ensures
            old(self)@.valid() ==> final(self)@.valid(),
            match res {
                Ok(id) => {
                    &&& func.0 < old(self)@.functions.len()
                    &&& id == old(self)@.symbol_id(name@)
                    &&& final(self)@ == (BuilderView {
                        function_names: set_function(old(self)@.function_names, func.0, id),
                        ..old(self)@.with_symbol(name@)
                    })
                },
                Err(e) => {
                    &&& func.0 >= old(self)@.functions.len()
                    &&& e == (BuildError::BadFuncId { func: func.0 })
                    &&& final(self)@ == old(self)@
                },
            },
    {
        proof {
            lemma_valid_symbol(self@, name@);
            lemma_valid_function_name(
                self@.with_symbol(name@),
                func.0,
                self@.symbol_id(name@),
            );
        }
        if func.0 as usize >= self.functions.len() {
            return Err(BuildError::BadFuncId { func: func.0 });
        }
        let sym = self.symbol(name);
        let ghost mid = self@;
        let ghost keys = self.function_names@.map_values(|e: FunctionNameEntry| e.func);
        let mut i: usize = 0;
        while i < self.function_names.len()
            invariant
                i <= self.function_names@.len(),
                self@ == mid,
                keys == self.function_names@.map_values(|e: FunctionNameEntry| e.func),
                forall|k: int| 0 <= k < i ==> #[trigger] keys[k] != func.0,
            ensures
                i <= self.function_names@.len(),
                self@ == mid,
                keys == self.function_names@.map_values(|e: FunctionNameEntry| e.func),
                forall|k: int| 0 <= k < i ==> #[trigger] keys[k] != func.0,
                i < self.function_names@.len() ==> keys[i as int] == func.0,
            decreases self.function_names.len() - i,
        {
            assert(keys[i as int] == self.function_names@[i as int].func);
            if self.function_names[i].func == func.0 {
                break;
            }
            i = i + 1;
        }
        proof {
            pack::lemma_position(keys, func.0, i as nat);
        }
        let entry = FunctionNameEntry { func: func.0, name: sym };
        if i < self.function_names.len() {
            self.function_names.set(i, entry);
        } else {
            self.function_names.push(entry);
        }
        assert(self@ =~= (BuilderView {
            function_names: set_function(old(self)@.function_names, func.0, sym),
            ..old(self)@.with_symbol(name@)
        }));
        Ok(sym)
    }

    /// Sets the name of an output of a function.
    pub fn set_function_output_name(&mut self, func: FuncId, ret: u32, name: &str) -> (res: Result<
        SymbolId,
        BuildError,
    >)
        ensures
            old(self)@.valid() ==> final(self)@.valid(),
            match res {
                Ok(id) => {
                    &&& func.0 < old(self)@.functions.len()
                    &&& ret < old(self)@.functions[func.0 as int].ret_types.len()
                    &&& id == old(self)@.symbol_id(name@)
                    &&& final(self)@ == (BuilderView {
                        function_output_names: set_output(
                            old(self)@.function_output_names,
                            func.0,
                            ret,
                            id,
                        ),
                        ..old(self)@.with_symbol(name@)
                    })
                },
                Err(e) => {
                    &&& final(self)@ == old(self)@
                    &&& if func.0 >= old(self)@.functions.len() {
                        e == (BuildError::BadFuncId { func: func.0 })
                    } else {
                        &&& ret >= old(self)@.functions[func.0 as int].ret_types.len()
                        &&& e == (BuildError::BadRetIndex { func: func.0, ret })
                    }
                },
            },
    {
        proof {
            lemma_valid_symbol(self@, name@);
            lemma_valid_output_name(
                self@.with_symbol(name@),
                func.0,
                ret,
                self@.symbol_id(name@),
            );
        }
        let f: usize = func.0 as usize;
        if f >= self.functions.len() {
            return Err(BuildError::BadFuncId { func: func.0 });
        }
        assert(self@.functions[f as int] == self.functions@[f as int].model());
        if ret as usize >= self.functions[f].ret_types.len() {
            return Err(BuildError::BadRetIndex { func: func.0, ret });
        }
        let sym = self.symbol(name);
        let ghost mid = self@;
        let ghost keys = self.function_output_names@.map_values(
            |e: FunctionOutputNameEntry| (e.func, e.ret),
        );
        let mut i: usize = 0;
        while i < self.function_output_names.len()
            invariant
                i <= self.function_output_names@.len(),
                self@ == mid,
                keys == self.function_output_names@.map_values(
                    |e: FunctionOutputNameEntry| (e.func, e.ret),
                ),
                forall|k: int| 0 <= k < i ==> #[trigger] keys[k] != (func.0, ret),
            ensures
                i <= self.function_output_names@.len(),
                self@ == mid,
                keys == self.function_output_names@.map_values(
                    |e: FunctionOutputNameEntry| (e.func, e.ret),
                ),
                forall|k: int| 0 <= k < i ==> #[trigger] keys[k] != (func.0, ret),
                i < self.function_output_names@.len() ==> keys[i as int] == (func.0, ret),
            decreases self.function_output_names.len() - i,
        {
            let e = self.function_output_names[i];
            assert(keys[i as int] == (e.func, e.ret));
            if e.func == func.0 && e.ret == ret {
                break;
            }
            i = i + 1;
        }
        proof {
            pack::lemma_position(keys, (func.0, ret), i as nat);
        }
        let entry = FunctionOutputNameEntry { func: func.0, ret, name: sym };
        if i < self.function_output_names.len() {
            self.function_output_names.set(i, entry);
        } else {
            self.function_output_names.push(entry);
        }
        assert(self@ =~= (BuilderView {
            function_output_names: set_output(old(self)@.function_output_names, func.0, ret, sym),
            ..old(self)@.with_symbol(name@)
        }));
        Ok(sym)
    }

    /// Sets the name of a position of a function.
    pub fn set_label_name_pc(&mut self, func: FuncId, pc: u32, name: &str) -> (res: Result<
        SymbolId,
        BuildError,
    >)
        ensures
            old(self)@.valid() ==> final(self)@.valid(),
            match res {
                Ok(id) => {
                    &&& func.0 < old(self)@.functions.len()
                    &&& id == old(self)@.symbol_id(name@)
                    &&& final(self)@ == (BuilderView {
                        labels: set_label(old(self)@.labels, func.0, pc, id),
                        ..old(self)@.with_symbol(name@)
                    })
                },
                Err(e) => {
                    &&& func.0 >= old(self)@.functions.len()
                    &&& e == (BuildError::BadFuncId { func: func.0 })
                    &&& final(self)@ == old(self)@
                },
            },
    {
        proof {
            lemma_valid_symbol(self@, name@);
        }
        if func.0 as usize >= self.functions.len() {
            return Err(BuildError::BadFuncId { func: func.0 });
        }
        let sym = self.symbol(name);
        let ghost mid = self@;
        let ghost keys = self.labels@.map_values(|e: LabelNameEntry| (e.func, e.pc));
        let mut i: usize = 0;
        while i < self.labels.len()
            invariant
                i <= self.labels@.len(),
                self@ == mid,
                keys == self.labels@.map_values(|e: LabelNameEntry| (e.func, e.pc)),
                forall|k: int| 0 <= k < i ==> #[trigger] keys[k] != (func.0, pc),
            ensures
                i <= self.labels@.len(),
                self@ == mid,
                keys == self.labels@.map_values(|e: LabelNameEntry| (e.func, e.pc)),
                forall|k: int| 0 <= k < i ==> #[trigger] keys[k] != (func.0, pc),
                i < self.labels@.len() ==> keys[i as int] == (func.0, pc),
            decreases self.labels.len() - i,
        {
            let e = self.labels[i];
            assert(keys[i as int] == (e.func, e.pc));
            if e.func == func.0 && e.pc == pc {
                break;
            }
            i = i + 1;
        }
        proof {
            pack::lemma_position(keys, (func.0, pc), i as nat);
        }
        let entry = LabelNameEntry { func: func.0, pc, name: sym };
        if i < self.labels.len() {
            self.labels.set(i, entry);
        } else {
            self.labels.push(entry);
        }
        assert(self@ =~= (BuilderView {
            labels: set_label(old(self)@.labels, func.0, pc, sym),
            ..old(self)@.with_symbol(name@)
        }));
        Ok(sym)
    }

    /// Interns a constant and gives its id.
    pub fn constant(&mut self, c: Const) -> (id: ConstId)
        ensures
            old(self)@.valid() ==> final(self)@.valid(),
            id == ConstId(intern_id(old(self)@.consts, c.model())),
            final(self)@ == (BuilderView {
                consts: interned(old(self)@.consts, c.model()),
                ..old(self)@
            }),
    {
        let ghost s = self@.consts;
        let mut i: usize = 0;
        while i < self.const_pool.len()
            invariant
                i <= self.const_pool@.len(),
                s == self@.consts,
                self@ == old(self)@,
                forall|k: int| 0 <= k < i ==> #[trigger] s[k] != c.model(),
            decreases self.const_pool.len() - i,
        {
            assert(s[i as int] == self.const_pool@[i as int].model());
            if same_const(&self.const_pool[i], &c) {
                proof {
                    pack::lemma_position(s, c.model(), i as nat);
                }
                return ConstId(clamp_u32(i));
            }
            i = i + 1;
        }
        proof {
            pack::lemma_position(s, c.model(), i as nat);
        }
        self.const_pool.push(c);
        assert(self@ =~= (BuilderView { consts: interned(old(self)@.consts, c.model()), ..old(self)@ }));
        ConstId(clamp_u32(i))
    }

    /// The type table.
    pub fn types_mut(&mut self) -> (t: &mut TypeTableDef)
        ensures
            old(self)@.valid() ==> final(self)@.valid(),
            struct_defs((*t).structs@) == old(self)@.structs,
            (*t).array_elems@ == old(self)@.array_elems,
            final(self)@ == (BuilderView {
                structs: struct_defs((*final(t)).structs@),
                array_elems: (*final(t)).array_elems@,
                ..old(self)@
            }),
    {
        &mut self.types
    }

    /// Interns a struct type and gives its id.
    pub fn struct_type(&mut self, t: StructTypeDef) -> (id: TypeId)
        ensures
            old(self)@.valid() ==> final(self)@.valid(),
            id == TypeId(intern_id(old(self)@.structs, struct_def(t))),
            final(self)@ == (BuilderView {
                structs: interned(old(self)@.structs, struct_def(t)),
                ..old(self)@
            }),
    {
        let ghost s = self@.structs;
        let mut i: usize = 0;
        while i < self.types.structs.len()
            invariant
                i <= self.types.structs@.len(),
                s == self@.structs,
                self@ == old(self)@,
                forall|k: int| 0 <= k < i ==> #[trigger] s[k] != struct_def(t),
            decreases self.types.structs.len() - i,
        {
            assert(s[i as int] == struct_def(self.types.structs@[i as int]));
            if same_struct(&self.types.structs[i], &t) {
                proof {
                    pack::lemma_position(s, struct_def(t), i as nat);
                }
                return TypeId(clamp_u32(i));
            }
            i = i + 1;
        }
        proof {
            pack::lemma_position(s, struct_def(t), i as nat);
        }
        self.types.structs.push(t);
        assert(self@ =~= (BuilderView {
            structs: interned(old(self)@.structs, struct_def(t)),
            ..old(self)@
        }));
        TypeId(clamp_u32(i))
    }

    /// Interns an array element type and gives its id.
    pub fn array_elem(&mut self, t: ValueType) -> (id: ElemTypeId)
        ensures
            old(self)@.valid() ==> final(self)@.valid(),
            id == ElemTypeId(intern_id(old(self)@.array_elems, t)),
            final(self)@ == (BuilderView {
                array_elems: interned(old(self)@.array_elems, t),
                ..old(self)@
            }),
    {
        let ghost s = self@.array_elems;
        let mut i: usize = 0;
        while i < self.types.array_elems.len()
            invariant
                i <= self.types.array_elems@.len(),
                s == self.types.array_elems@,
                s == self@.array_elems,
                self@ == old(self)@,
                forall|k: int| 0 <= k < i ==> #[trigger] s[k] != t,
            decreases self.types.array_elems.len() - i,
        {
            if self.types.array_elems[i] == t {
                proof {
                    pack::lemma_position(s, t, i as nat);
                }
                return ElemTypeId(clamp_u32(i));
            }
            i = i + 1;
        }
        proof {
            pack::lemma_position(s, t, i as nat);
        }
        self.types.array_elems.push(t);
        assert(self@ =~= (BuilderView { array_elems: interned(old(self)@.array_elems, t), ..old(self)@ }));
        ElemTypeId(clamp_u32(i))
    }

    /// Interns a host signature for a symbol and gives its id.
    pub fn host_sig(&mut self, symbol: SymbolId, sig: HostSig) -> (id: HostSigId)
        ensures
            old(self)@.valid() ==> final(self)@.valid(),
            ({
                let m = sig_model(symbol, sig);
                &&& id == HostSigId(intern_id(old(self)@.host_sigs, m))
                &&& final(self)@ == (BuilderView {
                    host_sigs: interned(old(self)@.host_sigs, m),
                    ..old(self)@
                })
            }),
    {
        let def = HostSigDef { symbol, args: sig.args, rets: sig.rets };
        let ghost m = def.model();
        let ghost s = self@.host_sigs;
        let mut i: usize = 0;
        while i < self.host_sigs.len()
            invariant
                i <= self.host_sigs@.len(),
                s == self@.host_sigs,
                self@ == old(self)@,
                m == def.model(),
                m == sig_model(symbol, sig),
                forall|k: int| 0 <= k < i ==> #[trigger] s[k] != m,
            decreases self.host_sigs.len() - i,
        {
            assert(s[i as int] == self.host_sigs@[i as int].model());
            if same_sig(&self.host_sigs[i], &def) {
                proof {
                    pack::lemma_position(s, m, i as nat);
                }
                return HostSigId(clamp_u32(i));
            }
            i = i + 1;
        }
        proof {
            pack::lemma_position(s, m, i as nat);
        }
        self.host_sigs.push(def);
        assert(self@ =~= (BuilderView { host_sigs: interned(old(self)@.host_sigs, m), ..old(self)@ }));
        HostSigId(clamp_u32(i))
    }

    /// Interns a symbol and a host signature for it, and gives the signature's id.
    pub fn host_sig_for(&mut self, symbol: &str, sig: HostSig) -> (id: HostSigId)
        ensures
            old(self)@.valid() ==> final(self)@.valid(),
            ({
                let m = sig_model(old(self)@.symbol_id(symbol@), sig);
                let v = old(self)@.with_symbol(symbol@);
                &&& id == HostSigId(intern_id(v.host_sigs, m))
                &&& final(self)@ == (BuilderView { host_sigs: interned(v.host_sigs, m), ..v })
            }),
    {
        proof {
            lemma_valid_symbol(self@, symbol@);
        }
        let sym = self.symbol(symbol);
        self.host_sig(sym, sig)
    }

    /// Declares a function and gives its id. Its body is defined later.
    pub fn declare_function(&mut self, sig: FunctionSig) -> (id: FuncId)
        ensures
            old(self)@.valid() ==> final(self)@.valid(),
            id == FuncId(program::clamp32(old(self)@.functions.len())),
            final(self)@ == old(self)@.with_function(sig.with_body(seq![], seq![])),
    {
        let id = FuncId(clamp_u32(self.functions.len()));
        let ghost m = sig.with_body(seq![], seq![]);
        self.functions.push(
            FunctionDef {
                arg_types: sig.arg_types,
                ret_types: sig.ret_types,
                reg_count: sig.reg_count,
                bytecode: Vec::new(),
                spans: Vec::new(),
            },
        );
        assert(self.functions@.last().model() == m) by {
            assert(self.functions@.last().bytecode@ =~= seq![]);
            assert(self.functions@.last().spans@ =~= seq![]);
        }
        assert(self@ =~= old(self)@.with_function(m));
        id
    }

    /// Adds the named labels of a function.
    fn add_labels(&mut self, func: u32, labels: Vec<NamedLabel>)
        ensures
            final(self)@ == old(self)@.with_labels(func, assembler::label_models(labels@)),
    {
        let ghost all = assembler::label_models(labels@);
        let mut i: usize = 0;
        assert(all.take(0) =~= seq![]);
        while i < labels.len()
            invariant
                i <= labels.len(),
                all == assembler::label_models(labels@),
                self@ == old(self)@.with_labels(func, all.take(i as int)),
            decreases labels.len() - i,
        {
            let ghost before = self@;
            assert(all[i as int] == (labels@[i as int].pc, labels@[i as int].name@));
            let sym = self.symbol(labels[i].name.as_str());
            self.labels.push(LabelNameEntry { func, pc: labels[i].pc, name: sym });
            assert(self@ =~= before.with_label(func, all[i as int]));
            assert(all.take(i + 1).drop_last() =~= all.take(i as int));
            i = i + 1;
        }
        assert(all.take(i as int) =~= all);
    }

    /// Replaces the body of a function.
    fn set_body(&mut self, func: FuncId, bytecode: Vec<u8>, spans: Vec<SpanEntry>)
        requires
            func.0 < old(self)@.functions.len(),
        ensures
            final(self)@ == old(self)@.with_body(func.0, bytecode@, spans@),
    {
        let i: usize = func.0 as usize;
        assert(self@.functions[i as int] == self.functions@[i as int].model());
        let arg_types = copy_types(self.functions[i].arg_types.as_slice());
        let ret_types = copy_types(self.functions[i].ret_types.as_slice());
        let reg_count = self.functions[i].reg_count;
        self.functions.set(i, FunctionDef { arg_types, ret_types, reg_count, bytecode, spans });
        assert(self@ =~= old(self)@.with_body(func.0, bytecode@, spans@));
    }

    /// Defines the body of a declared function.
    pub fn define_function(&mut self, func: FuncId, a: Asm) -> (res: Result<(), BuildError>)
        requires
            a.wf(),
        ensures
            old(self)@.valid() ==> final(self)@.valid(),
            match res {
                Ok(_) => {
                    &&& a@.complete()
                    &&& func.0 < old(self)@.functions.len()
                    &&& final(self)@ == old(self)@.with_body(
                        func.0,
                        a@.assembled(),
                        a@.span_table(),
                    ).with_labels(func.0, a@.named_labels())
                },
                Err(e) => {
                    &&& final(self)@ == old(self)@
                    &&& if !a@.complete() {
                        e == BuildError::UnresolvedLabel
                    } else {
                        func.0 >= old(self)@.functions.len() && e == (BuildError::BadFuncId {
                            func: func.0,
                        })
                    }
                },
            },
    {
        proof {
            lemma_valid_labels(
                self@.with_body(func.0, a@.assembled(), a@.span_table()),
                func.0,
                a@.named_labels(),
            );
        }
        let parts: AsmParts = match a.finish_parts() {
            Ok(parts) => parts,
            Err(e) => {
                return Err(BuildError::from(e));
            },
        };
        if func.0 as usize >= self.functions.len() {
            return Err(BuildError::BadFuncId { func: func.0 });
        }
        self.set_body(func, parts.bytecode, parts.spans);
        self.add_labels(func.0, parts.labels);
        Ok(())
    }

    /// Defines the body of a declared function, with the given span table.
    pub fn define_function_with_spans(
        &mut self,
        func: FuncId,
        a: Asm,
        spans: Vec<SpanEntry>,
    ) -> (res: Result<(), BuildError>)
        requires
            a.wf(),
        ensures
            old(self)@.valid() ==> final(self)@.valid(),
            match res {
                Ok(_) => {
                    &&& a@.complete()
                    &&& func.0 < old(self)@.functions.len()
                    &&& final(self)@ == old(self)@.with_body(
                        func.0,
                        a@.assembled(),
                        spans@,
                    ).with_labels(func.0, a@.named_labels())
                },
                Err(e) => {
                    &&& final(self)@ == old(self)@
                    &&& if !a@.complete() {
                        e == BuildError::UnresolvedLabel
                    } else {
                        func.0 >= old(self)@.functions.len() && e == (BuildError::BadFuncId {
                            func: func.0,
                        })
                    }
                },
            },
    {
        proof {
            lemma_valid_labels(
                self@.with_body(func.0, a@.assembled(), spans@),
                func.0,
                a@.named_labels(),
            );
        }
        let parts: AsmParts = match a.finish_parts() {
            Ok(parts) => parts,
            Err(e) => {
                return Err(BuildError::from(e));
            },
        };
        if func.0 as usize >= self.functions.len() {
            return Err(BuildError::BadFuncId { func: func.0 });
        }
        self.set_body(func, parts.bytecode, spans);
        self.add_labels(func.0, parts.labels);
        Ok(())
    }

    /// Adds a function with its body. The program is verified as a whole when it is built.
    pub fn push_function_checked(&mut self, a: Asm, sig: FunctionSig) -> (res: Result<
        FuncId,
        AsmError,
    >)
        requires
            a.wf(),
        ensures
            old(self)@.valid() ==> final(self)@.valid(),
            match res {
                Ok(id) => {
                    &&& a@.complete()
                    &&& id == FuncId(program::clamp32(old(self)@.functions.len()))
                    &&& final(self)@ == old(self)@.with_function(
                        sig.with_body(a@.assembled(), a@.span_table()),
                    ).with_labels(id.0, a@.named_labels())
                },
                Err(e) => {
                    &&& !a@.complete()
                    &&& e == AsmError::UnresolvedLabel
                    &&& final(self)@ == old(self)@
                },
            },
    {
        proof {
            lemma_valid_labels(
                self@.with_function(sig.with_body(a@.assembled(), a@.span_table())),
                program::clamp32(self@.functions.len()),
                a@.named_labels(),
            );
        }
        let parts: AsmParts = match a.finish_parts() {
            Ok(parts) => parts,
            Err(e) => {
                return Err(AsmError::from(e));
            },
        };
        let id = FuncId(clamp_u32(self.functions.len()));
        let ghost m = sig.with_body(parts.bytecode@, parts.spans@);
        self.functions.push(
            FunctionDef {
                arg_types: sig.arg_types,
                ret_types: sig.ret_types,
                reg_count: sig.reg_count,
                bytecode: parts.bytecode,
                spans: parts.spans,
            },
        );
        assert(self@ =~= old(self)@.with_function(m));
        self.add_labels(id.0, parts.labels);
        Ok(id)
    }

    /// Builds the program.
    #[must_use]
    pub fn build(self) -> (p: Program)
        ensures
            p@ == self@.packed(),
    {
        let ghost v = self@;
        let ghost c = pack::contents_of(
            self.symbols@,
            self.const_pool@,
            self.host_sigs@,
            self.types,
            self.functions@,
        );
        assert(c.structs =~= v.contents().structs) by {
            assert forall|i: int| 0 <= i < c.structs.len() implies c.structs[i] == v.contents().structs[i] by {
                let d = self.types.structs@[i];
                assert(c.structs[i] == d.model());
                assert(v.structs[i] == struct_def(d));
                assert(d.model() =~= fields(struct_def(d)));
            }
        }
        let mut p = Program::new(
            self.symbols,
            self.const_pool,
            self.host_sigs,
            self.types,
            self.functions,
        );
        p.program_name = self.program_name;
        p.function_names = self.function_names;
        p.labels = self.labels;
        p.function_output_names = self.function_output_names;
        assert(p@ =~= v.packed());
        p
    }

    /// The first function without a body.
    fn missing_body(&self) -> (r: Option<u32>)
        ensures
            r == self@.missing(),
    {
        let mut i: usize = 0;
        while i < self.functions.len()
            invariant
                i <= self.functions.len(),
                self@.missing_from(i as int) == self@.missing(),
            decreases self.functions.len() - i,
        {
            assert(self@.functions[i as int] == self.functions@[i as int].model());
            if self.functions[i].bytecode.len() == 0 {
                return Some(clamp_u32(i));
            }
            i = i + 1;
        }
        None
    }

    /// Builds the program and verifies it.
    pub fn build_checked(self) -> (res: Result<Program, BuildError>)
        ensures
            built(self@, VerifyConfig { max_regs: 65536 }, res),
    {
        self.build_checked_with(&VerifyConfig::default())
    }

    /// Builds the program and verifies it within given limits.
    pub fn build_checked_with(self, cfg: &VerifyConfig) -> (res: Result<Program, BuildError>)
        ensures
            built(self@, *cfg, res),
    {
        match self.missing_body() {
            Some(func) => {
                return Err(BuildError::MissingFunctionBody { func });
            },
            None => {},
        }
        let p = self.build();
        match verify_program(&p, cfg) {
            Ok(()) => Ok(p),
            Err(e) => Err(BuildError::from(e)),
        }
    }

    /// Builds the program, verifies it and keeps it as verified.
    pub fn build_verified(self) -> (res: Result<VerifiedProgram, BuildError>)
        ensures
            built_verified(self@, VerifyConfig { max_regs: 65536 }, res),
    {
        self.build_verified_with(&VerifyConfig::default())
    }

    /// Builds the program, verifies it within given limits and keeps it as verified.
    pub fn build_verified_with(self, cfg: &VerifyConfig) -> (res: Result<
        VerifiedProgram,
        BuildError,
    >)
        ensures
            built_verified(self@, *cfg, res),
    {
        match self.missing_body() {
            Some(func) => {
                return Err(BuildError::MissingFunctionBody { func });
            },
            None => {},
        }
        let p = self.build();
        match verify_program_owned(p, cfg) {
            Ok(v) => Ok(v),
            Err(e) => Err(BuildError::from(e)),
        }
    }
}

/// A host signature for a symbol, with its hash.
pub open spec fn sig_model(symbol: SymbolId, sig: HostSig) -> HostSigModel {
    HostSigModel {
        symbol,
        sig_hash: host::spec_sig_hash(sig.args@, sig.rets@),
        args: sig.args@,
        rets: sig.rets@,
    }
}

/// Building gave the packed program where every function has a body and the program is accepted, and
/// the failure that comes first otherwise.
pub open spec fn built(v: BuilderView, cfg: VerifyConfig, res: Result<Program, BuildError>) -> bool {
    match res {
        Ok(p) => v.missing() is None && verify::accepts(v.packed(), cfg) && p@ == v.packed(),
        Err(e) => match v.missing() {
            Some(func) => e == (BuildError::MissingFunctionBody { func }),
            None => !verify::accepts(v.packed(), cfg) && e is Verify && faults::first_error(
                v.packed(),
                cfg,
            ) == Some(e->Verify_0),
        },
    }
}

/// Building gave the packed program as verified where every function has a body and the program is
/// accepted, and the failure that comes first otherwise.
pub open spec fn built_verified(
    v: BuilderView,
    cfg: VerifyConfig,
    res: Result<VerifiedProgram, BuildError>,
) -> bool {
    match res {
        Ok(p) => v.missing() is None && verify::accepts(v.packed(), cfg) && p.wf() && p@.program
            == v.packed(),
        Err(e) => match v.missing() {
            Some(func) => e == (BuildError::MissingFunctionBody { func }),
            None => !verify::accepts(v.packed(), cfg) && e is Verify && faults::first_error(
                v.packed(),
                cfg,
            ) == Some(e->Verify_0),
        },
    }
}

impl Default for ProgramBuilder {
    fn default() -> (b: Self)
        ensures
            b@ == BuilderView::empty(),
    {
        ProgramBuilder::new()
    }
}

// ---------------------------------------------------------------------------------------------
// Checking a single function.
// ---------------------------------------------------------------------------------------------

/// A program of a single function.
pub open spec fn single(f: FunctionModel) -> ProgramView {
    (BuilderView { functions: seq![f], ..BuilderView::empty() }).packed()
}

impl Asm {
    /// Finishes the instruction stream and verifies it under a signature, in a program of its own.
    pub fn finish_checked(self, sig: &FunctionSig) -> (res: Result<Vec<u8>, AsmError>)
        requires
            self.wf(),
        ensures
            checked(self@, *sig, VerifyConfig { max_regs: 65536 }, res is Ok, res.err()),
            res is Ok ==> res->Ok_0@ == self@.assembled(),
    {
        self.finish_checked_with(sig, &VerifyConfig::default())
    }

    /// Finishes the function body and verifies it under a signature, in a program of its own.
    pub fn finish_checked_parts(self, sig: &FunctionSig) -> (res: Result<AsmParts, AsmError>)
        requires
            self.wf(),
        ensures
            checked(self@, *sig, VerifyConfig { max_regs: 65536 }, res is Ok, res.err()),
            res is Ok ==> finished(self@, res->Ok_0),
    {
        self.finish_checked_parts_with(sig, &VerifyConfig::default())
    }

    /// Finishes the instruction stream and verifies it under a signature within given limits.
    pub fn finish_checked_with(self, sig: &FunctionSig, cfg: &VerifyConfig) -> (res: Result<
        Vec<u8>,
        AsmError,
    >)
        requires
            self.wf(),
        ensures
            checked(self@, *sig, *cfg, res is Ok, res.err()),
            res is Ok ==> res->Ok_0@ == self@.assembled(),
    {
        match self.finish_checked_parts_with(sig, cfg) {
            Ok(parts) => Ok(parts.bytecode),
            Err(e) => Err(e),
        }
    }

    /// Finishes the function body and verifies it under a signature within given limits.
    pub fn finish_checked_parts_with(self, sig: &FunctionSig, cfg: &VerifyConfig) -> (res: Result<
        AsmParts,
        AsmError,
    >)
        requires
            self.wf(),
        ensures
            checked(self@, *sig, *cfg, res is Ok, res.err()),
            res is Ok ==> finished(self@, res->Ok_0),
    {
        let parts: AsmParts = match self.finish_parts() {
            Ok(parts) => parts,
            Err(e) => {
                return Err(AsmError::from(e));
            },
        };
        let def = FunctionDef {
            arg_types: copy_types(sig.arg_types.as_slice()),
            ret_types: copy_types(sig.ret_types.as_slice()),
            reg_count: sig.reg_count,
            bytecode: vstd::slice::slice_to_vec(parts.bytecode.as_slice()),
            spans: copy_spans(parts.spans.as_slice()),
        };
        let ghost m = sig.with_body(self@.assembled(), self@.span_table());
        let mut b = ProgramBuilder::new();
        b.functions.push(def);
        assert(b@ =~= (BuilderView { functions: seq![m], ..BuilderView::empty() }));
        let p = b.build();
        match verify_program(&p, cfg) {
            Ok(()) => Ok(parts),
            Err(e) => Err(AsmError::from(e)),
        }
    }
}

/// A function body is checked: it is accepted where its labels are placed and a program of it alone
/// is accepted.
pub open spec fn checked(
    v: AsmView,
    sig: FunctionSig,
    cfg: VerifyConfig,
    ok: bool,
    err: Option<AsmError>,
) -> bool {
    let p = single(sig.with_body(v.assembled(), v.span_table()));
    let accepted = verify::accepts(p, cfg);
    &&& ok <==> v.complete() && accepted
    &&& !ok ==> (if v.complete() {
        err matches Some(AsmError::Verify(e)) && faults::first_error(p, cfg) == Some(e)
    } else {
        err == Some(AsmError::UnresolvedLabel)
    })
}

/// A function body is what an assembler holds.
pub open spec fn finished(v: AsmView, parts: AsmParts) -> bool {
    &&& parts.bytecode@ == v.assembled()
    &&& parts.spans@ == v.span_table()
    &&& assembler::label_models(parts.labels@) == v.named_labels()
}

/// A copy of span entries.
fn copy_spans(v: &[SpanEntry]) -> (r: Vec<SpanEntry>)
    ensures
        r@ == v@,
{
    let mut r: Vec<SpanEntry> = Vec::new();
    let mut i: usize = 0;
    while i < v.len()
        invariant
            i <= v.len(),
            r@ == v@.take(i as int),
        decreases v.len() - i,
    {
        r.push(v[i]);
        i = i + 1;
        assert(r@ =~= v@.take(i as int));
    }
    assert(v@.take(i as int) =~= v@);
    r
}

// ---------------------------------------------------------------------------------------------
// Laws.
// ---------------------------------------------------------------------------------------------

/// A value that was interned has the same id when it is interned again, and the table stays as it is.
pub proof fn law_intern_again<T>(s: Seq<T>, x: T)
    ensures
        interned(interned(s, x), x) == interned(s, x),
        intern_id(interned(s, x), x) == intern_id(s, x),
{
    pack::lemma_position_found(s, x);
    let t = interned(s, x);
    if !s.contains(x) {
        assert forall|j: int| 0 <= j < s.len() implies t[j] != x by {
            assert(s[j] != x);
        }
        pack::lemma_position(t, x, s.len());
    }
}

/// Two values of a table have the same id only if they are the same.
pub proof fn law_intern_distinct<T>(s: Seq<T>, x: T, y: T)
    requires
        s.contains(x),
        s.contains(y),
        s.len() <= u32::MAX,
        intern_id(s, x) == intern_id(s, y),
    ensures
        x == y,
{
    pack::lemma_position_found(s, x);
    pack::lemma_position_found(s, y);
}

/// The id of a value that is in a table does not change when another value is interned.
pub proof fn law_intern_stable<T>(s: Seq<T>, x: T, y: T)
    requires
        s.contains(x),
    ensures
        interned(s, y).contains(x),
        intern_id(interned(s, y), x) == intern_id(s, x),
{
    pack::lemma_position_found(s, x);
    let t = interned(s, y);
    let i = pack::position(s, x);
    assert forall|j: int| 0 <= j < i implies t[j] != x by {
        assert(t[j] == s[j]);
    }
    assert(t[i as int] == x);
    pack::lemma_position(t, x, i);
}

} // verus!
