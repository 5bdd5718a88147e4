//! What is said of traps and failures.

use execution_tape::aggregates::AggError;
use execution_tape::host::HostError;
use execution_tape::program::{HostTypeId, ValueType};
use execution_tape::trap::{Trap, TrapInfo};
use execution_tape::value::FuncId;

#[test]
fn traps_are_named() {
    let cases: Vec<(Trap, &str)> = vec![
        (Trap::FuelExceeded, "fuel limit exceeded"),
        (Trap::CallDepthExceeded, "call depth limit exceeded"),
        (Trap::HostCallLimitExceeded, "host call limit exceeded"),
        (Trap::InvalidPc, "invalid pc"),
        (Trap::RegOutOfBounds, "register out of bounds"),
        (Trap::ConstOutOfBounds, "constant out of bounds"),
        (Trap::TypeMismatch { expected: ValueType::Bool, actual: ValueType::Obj(HostTypeId(7)) }, "type mismatch (expected Bool, got Obj(HostTypeId(7)))"),
        (Trap::TypeIdOutOfBounds, "type id out of bounds"),
        (Trap::ElemTypeIdOutOfBounds, "elem type id out of bounds"),
        (Trap::ArityMismatch, "arity mismatch"),
        (Trap::HostReturnArityMismatch { expected: 1, actual: 20 }, "host return arity mismatch (expected 1, got 20)"),
        (Trap::IntCastOverflow, "int cast overflow"),
        (Trap::DecimalScaleMismatch, "decimal scale mismatch"),
        (Trap::DecimalOverflow, "decimal overflow"),
        (Trap::DivByZero, "divide by zero"),
        (Trap::IntDivOverflow, "integer division overflow"),
        (Trap::FloatToIntInvalid, "float to int invalid"),
        (Trap::IndexOutOfBounds, "index out of bounds"),
        (Trap::StrNotCharBoundary, "string slice not on char boundary"),
        (Trap::InvalidUtf8, "invalid utf-8"),
        (Trap::TrapCode(4294967295), "trap(4294967295)"),
    ];
    for (trap, text) in cases {
        assert_eq!(trap.text(), text);
    }
    for e in [HostError::UnknownSymbol, HostError::SignatureMismatch, HostError::Failed] {
        assert_eq!(Trap::HostCallFailed(e).text(), format!("host call failed: {}", e.message()));
    }
    for e in [AggError::InvalidHandle, AggError::WrongKind, AggError::OutOfBounds] {
        assert_eq!(Trap::AggError(e).text(), format!("aggregate error: {}", e.message()));
    }
}

#[test]
fn trap_places_are_named() {
    let mut t = TrapInfo { func: FuncId(3), pc: 12, span_id: None, trap: Trap::DivByZero };
    assert_eq!(t.text(), "trap at f3 pc=12: divide by zero");
    t.span_id = Some(90);
    assert_eq!(t.text(), "trap at f3 pc=12 span=90: divide by zero");
}

#[test]
fn text_is_appended() {
    let mut out = "run: ".to_string();
    Trap::TrapCode(0).write_to(&mut out);
    assert_eq!(out, "run: trap(0)");
}
