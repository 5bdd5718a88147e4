//! Traps.

use vstd::prelude::*;
use vstd::string::*;

use crate::aggregates;
use crate::aggregates::AggError;
use crate::digits;
use crate::digits::push_decimal;
use crate::host;
use crate::host::HostError;
use crate::program::ValueType;
use crate::value::FuncId;

verus! {

/// Why a run ended without a result.
#[derive(Copy, Clone, Debug, PartialEq, Eq, Structural)]
pub enum Trap {
    /// The fuel is used up.
    FuelExceeded,
    /// A call would go deeper than allowed.
    CallDepthExceeded,
    /// More host calls were made than allowed.
    HostCallLimitExceeded,
    /// No instruction starts at the position.
    InvalidPc,
    /// The function does not have the register.
    RegOutOfBounds,
    /// The program does not have the constant, symbol or host signature.
    ConstOutOfBounds,
    /// A value has another type.
    TypeMismatch {
        /// Expected type.
        expected: ValueType,
        /// Actual type.
        actual: ValueType,
    },
    /// A failed access to an aggregate.
    AggError(AggError),
    /// The program does not have the struct type.
    TypeIdOutOfBounds,
    /// The program does not have the array element type.
    ElemTypeIdOutOfBounds,
    /// The number of values is not the number of fields.
    ArityMismatch,
    /// The host call failed.
    HostCallFailed(HostError),
    /// The host returned the wrong number of values.
    HostReturnArityMismatch {
        /// Expected number.
        expected: u32,
        /// Actual number.
        actual: u32,
    },
    /// An integer is out of range for the conversion.
    IntCastOverflow,
    /// Decimals do not have the scale that the operation needs.
    DecimalScaleMismatch,
    /// The mantissa or the scale of a decimal is out of range.
    DecimalOverflow,
    /// Division of an integer by zero.
    DivByZero,
    /// Division of the least signed integer by minus one.
    IntDivOverflow,
    /// Conversion of NaN or infinity to an integer.
    FloatToIntInvalid,
    /// An index into bytes or a string is out of bounds.
    IndexOutOfBounds,
    /// A string would be cut inside a character.
    StrNotCharBoundary,
    /// Bytes are not valid UTF-8.
    InvalidUtf8,
    /// A trap instruction.
    TrapCode(u32),
}

/// A trap with the place where it happened.
#[derive(Copy, Clone, Debug, PartialEq, Eq, Structural)]
pub struct TrapInfo {
    /// The function.
    pub func: FuncId,
    /// Position in the function.
    pub pc: u32,
    /// Span at the position, where there is one.
    pub span_id: Option<u64>,
    /// The trap.
    pub trap: Trap,
}

/// A value type, by its name.
pub open spec fn type_text(t: ValueType) -> Seq<char> {
    match t {
        ValueType::Unit => "Unit"@,
        ValueType::Bool => "Bool"@,
        ValueType::I64 => "I64"@,
        ValueType::U64 => "U64"@,
        ValueType::F64 => "F64"@,
        ValueType::Decimal => "Decimal"@,
        ValueType::Bytes => "Bytes"@,
        ValueType::Str => "Str"@,
        ValueType::Obj(id) => "Obj(HostTypeId("@ + digits::decimal(id.0 as nat) + "))"@,
        ValueType::Agg => "Agg"@,
        ValueType::Func => "Func"@,
    }
}

/// What is said of a trap.
pub open spec fn trap_text(t: Trap) -> Seq<char> {
    match t {
        Trap::FuelExceeded => "fuel limit exceeded"@,
        Trap::CallDepthExceeded => "call depth limit exceeded"@,
        Trap::HostCallLimitExceeded => "host call limit exceeded"@,
        Trap::InvalidPc => "invalid pc"@,
        Trap::RegOutOfBounds => "register out of bounds"@,
        Trap::ConstOutOfBounds => "constant out of bounds"@,
        Trap::TypeMismatch { expected, actual } => "type mismatch (expected "@ + type_text(expected)
            + ", got "@ + type_text(actual) + ")"@,
        Trap::AggError(e) => "aggregate error: "@ + aggregates::agg_error_text(e),
        Trap::TypeIdOutOfBounds => "type id out of bounds"@,
        Trap::ElemTypeIdOutOfBounds => "elem type id out of bounds"@,
        Trap::ArityMismatch => "arity mismatch"@,
        Trap::HostCallFailed(e) => "host call failed: "@ + host::host_error_text(e),
        Trap::HostReturnArityMismatch { expected, actual } => "host return arity mismatch (expected "@
            + digits::decimal(expected as nat) + ", got "@ + digits::decimal(actual as nat) + ")"@,
        Trap::IntCastOverflow => "int cast overflow"@,
        Trap::DecimalScaleMismatch => "decimal scale mismatch"@,
        Trap::DecimalOverflow => "decimal overflow"@,
        Trap::DivByZero => "divide by zero"@,
        Trap::IntDivOverflow => "integer division overflow"@,
        Trap::FloatToIntInvalid => "float to int invalid"@,
        Trap::IndexOutOfBounds => "index out of bounds"@,
        Trap::StrNotCharBoundary => "string slice not on char boundary"@,
        Trap::InvalidUtf8 => "invalid utf-8"@,
        Trap::TrapCode(code) => "trap("@ + digits::decimal(code as nat) + ")"@,
    }
}

/// What is said of a trap at its place.
pub open spec fn trap_info_text(t: TrapInfo) -> Seq<char> {
    "trap at f"@ + digits::decimal(t.func.0 as nat) + " pc="@ + digits::decimal(t.pc as nat) + (
    match t.span_id {
        Some(span) => " span="@ + digits::decimal(span as nat),
        None => Seq::empty(),
    }) + ": "@ + trap_text(t.trap)
}

/// Appends the name of a value type.
pub fn push_type(out: &mut String, t: ValueType)
    ensures
        final(out)@ == old(out)@ + type_text(t),
{
    match t {
        ValueType::Unit => out.append("Unit"),
        ValueType::Bool => out.append("Bool"),
        ValueType::I64 => out.append("I64"),
        ValueType::U64 => out.append("U64"),
        ValueType::F64 => out.append("F64"),
        ValueType::Decimal => out.append("Decimal"),
        ValueType::Bytes => out.append("Bytes"),
        ValueType::Str => out.append("Str"),
        ValueType::Obj(id) => {
            out.append("Obj(HostTypeId(");
            push_decimal(out, id.0);
            out.append("))");
            assert(out@ =~= old(out)@ + type_text(t));
        },
        ValueType::Agg => out.append("Agg"),
        ValueType::Func => out.append("Func"),
    }
}

impl Trap {
    /// Appends what is said of this trap.
    pub fn write_to(self, out: &mut String)
        ensures
            final(out)@ == old(out)@ + trap_text(self),
    {
        match self {
            Trap::FuelExceeded => out.append("fuel limit exceeded"),
            Trap::CallDepthExceeded => out.append("call depth limit exceeded"),
            Trap::HostCallLimitExceeded => out.append("host call limit exceeded"),
            Trap::InvalidPc => out.append("invalid pc"),
            Trap::RegOutOfBounds => out.append("register out of bounds"),
            Trap::ConstOutOfBounds => out.append("constant out of bounds"),
            Trap::TypeMismatch { expected, actual } => {
                out.append("type mismatch (expected ");
                push_type(out, expected);
                out.append(", got ");
                push_type(out, actual);
                out.append(")");
            },
            Trap::AggError(e) => {
                out.append("aggregate error: ");
                out.append(e.message());
            },
            Trap::TypeIdOutOfBounds => out.append("type id out of bounds"),
            Trap::ElemTypeIdOutOfBounds => out.append("elem type id out of bounds"),
            Trap::ArityMismatch => out.append("arity mismatch"),
            Trap::HostCallFailed(e) => {
                out.append("host call failed: ");
                out.append(e.message());
            },
            Trap::HostReturnArityMismatch { expected, actual } => {
                out.append("host return arity mismatch (expected ");
                push_decimal(out, expected as u64);
                out.append(", got ");
                push_decimal(out, actual as u64);
                out.append(")");
            },
            Trap::IntCastOverflow => out.append("int cast overflow"),
            Trap::DecimalScaleMismatch => out.append("decimal scale mismatch"),
            Trap::DecimalOverflow => out.append("decimal overflow"),
            Trap::DivByZero => out.append("divide by zero"),
            Trap::IntDivOverflow => out.append("integer division overflow"),
            Trap::FloatToIntInvalid => out.append("float to int invalid"),
            Trap::IndexOutOfBounds => out.append("index out of bounds"),
            Trap::StrNotCharBoundary => out.append("string slice not on char boundary"),
            Trap::InvalidUtf8 => out.append("invalid utf-8"),
            Trap::TrapCode(code) => {
                out.append("trap(");
                push_decimal(out, code as u64);
                out.append(")");
            },
        }
        assert(out@ =~= old(out)@ + trap_text(self));
    }

    /// What is said of this trap.
    pub fn text(self) -> (s: String)
        ensures
            s@ == trap_text(self),
    {
        let mut s = String::new();
        self.write_to(&mut s);
        assert(s@ =~= trap_text(self));
        s
    }
}

impl TrapInfo {
    /// What is said of this trap at its place.
    pub fn text(self) -> (s: String)
        ensures
            s@ == trap_info_text(self),
    {
        let mut s = String::new();
        s.append("trap at f");
        push_decimal(&mut s, self.func.0 as u64);
        s.append(" pc=");
        push_decimal(&mut s, self.pc as u64);
        match self.span_id {
            Some(span) => {
                s.append(" span=");
                push_decimal(&mut s, span);
            },
            None => {},
        }
        s.append(": ");
        self.trap.write_to(&mut s);
        assert(s@ =~= trap_info_text(self));
        s
    }
}

} // verus!
