//! What is said of rejected programs.

use vstd::prelude::*;
use vstd::string::*;

use crate::builder::{AsmError, BuildError};
use crate::bytecode::BytecodeError;
use crate::digits;
use crate::digits::push_decimal;
use crate::listing;
use crate::listing::push_decode_error;
use crate::trap;
use crate::trap::push_type;
use crate::verify::VerifyError;

verus! {

/// A place in a function.
pub open spec fn place_text(func: u32, pc: u32) -> Seq<char> {
    "function "@ + digits::decimal(func as nat) + " pc "@ + digits::decimal(pc as nat) + ": "@
}

/// Why an instruction stream cannot be decoded.
pub open spec fn bytecode_error_text(e: BytecodeError) -> Seq<char> {
    match e {
        BytecodeError::Decode(e) => listing::decode_error_text(e),
        BytecodeError::UnknownOpcode { opcode } => "unknown opcode "@ + digits::decimal(
            opcode as nat,
        ),
    }
}

/// Why a program was rejected.
pub open spec fn verify_error_text(e: VerifyError) -> Seq<char> {
    match e {
        VerifyError::BadHostSig { host_sig } => "host signature "@ + digits::decimal(
            host_sig as nat,
        ) + ": bad types or hash"@,
        VerifyError::BadRange { func } => "function "@ + digits::decimal(func as nat)
            + ": range out of bounds"@,
        VerifyError::BadRegCount { func } => "function "@ + digits::decimal(func as nat)
            + ": bad register count"@,
        VerifyError::Bytecode { func, error } => "function "@ + digits::decimal(func as nat)
            + ": bad bytecode: "@ + bytecode_error_text(error),
        VerifyError::EmptyBody { func } => "function "@ + digits::decimal(func as nat)
            + ": empty body"@,
        VerifyError::UninitializedRead { func, pc, reg } => place_text(func, pc)
            + "uninitialized read of r"@ + digits::decimal(reg as nat),
        VerifyError::TypeMismatch { func, pc, reg, expected, actual } => place_text(func, pc)
            + "type mismatch of r"@ + digits::decimal(reg as nat) + " (expected "@
            + trap::type_text(expected) + ", got "@ + trap::type_text(actual) + ")"@,
        VerifyError::RegOutOfBounds { func, pc, reg } => place_text(func, pc)
            + "register out of bounds: r"@ + digits::decimal(reg as nat),
        VerifyError::BadOperand { func, pc } => place_text(func, pc) + "bad operand"@,
        VerifyError::UnknownElement { func, pc, reg } => place_text(func, pc)
            + "unknown element type of r"@ + digits::decimal(reg as nat),
        VerifyError::BadTarget { func, pc } => place_text(func, pc) + "bad branch target"@,
        VerifyError::FallsThrough { func, pc } => place_text(func, pc)
            + "control falls through"@,
    }
}

/// Why a function body was rejected.
pub open spec fn asm_error_text(e: AsmError) -> Seq<char> {
    match e {
        AsmError::UnresolvedLabel => "unresolved label"@,
        AsmError::Verify(e) => "verification failed: "@ + verify_error_text(e),
    }
}

/// Why a program could not be built.
pub open spec fn build_error_text(e: BuildError) -> Seq<char> {
    match e {
        BuildError::BadFuncId { func } => "invalid function id "@ + digits::decimal(func as nat),
        BuildError::BadRetIndex { func, ret } => "invalid return index "@ + digits::decimal(
            ret as nat,
        ) + " for function "@ + digits::decimal(func as nat),
        BuildError::MissingFunctionBody { func } => "missing function body for "@ + digits::decimal(
            func as nat,
        ),
        BuildError::Verify(e) => "verification failed: "@ + verify_error_text(e),
        BuildError::UnresolvedLabel => "unresolved label"@,
    }
}

/// A new text.
fn text_of(s: &str) -> (out: String)
    ensures
        out@ == s@,
{
    let mut out = String::new();
    out.append(s);
    assert(out@ =~= s@);
    out
}

/// A place in a function.
fn place(func: u32, pc: u32) -> (s: String)
    ensures
        s@ == place_text(func, pc),
{
    let mut s = text_of("function ");
    push_decimal(&mut s, func as u64);
    s.append(" pc ");
    push_decimal(&mut s, pc as u64);
    s.append(": ");
    s
}

impl BytecodeError {
    /// Why the instruction stream cannot be decoded.
    #[must_use]
    pub fn message(self) -> (s: String)
        ensures
            s@ == bytecode_error_text(self),
    {
        match self {
            BytecodeError::Decode(e) => {
                let mut s = String::new();
                push_decode_error(&mut s, e);
                assert(s@ =~= listing::decode_error_text(e));
                s
            },
            BytecodeError::UnknownOpcode { opcode } => {
                let mut s = text_of("unknown opcode ");
                push_decimal(&mut s, opcode as u64);
                s
            },
        }
    }
}

impl VerifyError {
    /// Why the program was rejected.
    #[must_use]
    pub fn message(self) -> (s: String)
        ensures
            s@ == verify_error_text(self),
    {
        match self {
            VerifyError::BadHostSig { host_sig } => {
                let mut s = text_of("host signature ");
                push_decimal(&mut s, host_sig as u64);
                s.append(": bad types or hash");
                s
            },
            VerifyError::BadRange { func } => {
                let mut s = text_of("function ");
                push_decimal(&mut s, func as u64);
                s.append(": range out of bounds");
                s
            },
            VerifyError::BadRegCount { func } => {
                let mut s = text_of("function ");
                push_decimal(&mut s, func as u64);
                s.append(": bad register count");
                s
            },
            VerifyError::Bytecode { func, error } => {
                let mut s = text_of("function ");
                push_decimal(&mut s, func as u64);
                s.append(": bad bytecode: ");
                let e = error.message();
                s.append(e.as_str());
                s
            },
            VerifyError::EmptyBody { func } => {
                let mut s = text_of("function ");
                push_decimal(&mut s, func as u64);
                s.append(": empty body");
                s
            },
            VerifyError::UninitializedRead { func, pc, reg } => {
                let mut s = place(func, pc);
                s.append("uninitialized read of r");
                push_decimal(&mut s, reg as u64);
                s
            },
            VerifyError::TypeMismatch { func, pc, reg, expected, actual } => {
                let mut s = place(func, pc);
                s.append("type mismatch of r");
                push_decimal(&mut s, reg as u64);
                s.append(" (expected ");
                push_type(&mut s, expected);
                s.append(", got ");
                push_type(&mut s, actual);
                s.append(")");
                s
            },
            VerifyError::RegOutOfBounds { func, pc, reg } => {
                let mut s = place(func, pc);
                s.append("register out of bounds: r");
                push_decimal(&mut s, reg as u64);
                s
            },
            VerifyError::BadOperand { func, pc } => {
                let mut s = place(func, pc);
                s.append("bad operand");
                s
            },
            VerifyError::UnknownElement { func, pc, reg } => {
                let mut s = place(func, pc);
                s.append("unknown element type of r");
                push_decimal(&mut s, reg as u64);
                s
            },
            VerifyError::BadTarget { func, pc } => {
                let mut s = place(func, pc);
                s.append("bad branch target");
                s
            },
            VerifyError::FallsThrough { func, pc } => {
                let mut s = place(func, pc);
                s.append("control falls through");
                s
            },
        }
    }
}

impl AsmError {
    /// Why the function body was rejected.
    #[must_use]
    pub fn message(self) -> (s: String)
        ensures
            s@ == asm_error_text(self),
    {
        match self {
            AsmError::UnresolvedLabel => text_of("unresolved label"),
            AsmError::Verify(e) => {
                let mut s = text_of("verification failed: ");
                let m = e.message();
                s.append(m.as_str());
                s
            },
        }
    }
}

impl BuildError {
    /// Why the program could not be built.
    #[must_use]
    pub fn message(self) -> (s: String)
        ensures
            s@ == build_error_text(self),
    {
        match self {
            BuildError::BadFuncId { func } => {
                let mut s = text_of("invalid function id ");
                push_decimal(&mut s, func as u64);
                s
            },
            BuildError::BadRetIndex { func, ret } => {
                let mut s = text_of("invalid return index ");
                push_decimal(&mut s, ret as u64);
                s.append(" for function ");
                push_decimal(&mut s, func as u64);
                s
            },
            BuildError::MissingFunctionBody { func } => {
                let mut s = text_of("missing function body for ");
                push_decimal(&mut s, func as u64);
                s
            },
            BuildError::Verify(e) => {
                let mut s = text_of("verification failed: ");
                let m = e.message();
                s.append(m.as_str());
                s
            },
            BuildError::UnresolvedLabel => text_of("unresolved label"),
        }
    }
}

} // verus!
