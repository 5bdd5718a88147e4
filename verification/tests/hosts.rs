//! Host signatures.

use execution_tape::host::{sig_hash, HostSig, ValueRef};
use execution_tape::program::ValueType;

#[test]
fn sig_hash_is_stable_for_same_sig() {
    let s1 = HostSig {
        args: vec![ValueType::I64, ValueType::Bool],
        rets: vec![ValueType::U64],
    };
    let s2 = s1.clone();
    assert_eq!(sig_hash(&s1), sig_hash(&s2));
}

#[test]
fn sig_hash_changes_when_sig_changes() {
    let a = HostSig {
        args: vec![ValueType::I64],
        rets: vec![ValueType::U64],
    };
    let b = HostSig {
        args: vec![ValueType::I64, ValueType::Bool],
        rets: vec![ValueType::U64],
    };
    assert_ne!(sig_hash(&a), sig_hash(&b));
}

#[test]
fn borrowed_floats_compare_as_floats() {
    let f = |x: f64| ValueRef::F64(x.to_bits());
    assert_eq!(f(0.0), f(-0.0));
    assert_eq!(f(1.5), f(1.5));
    assert_ne!(f(f64::NAN), f(f64::NAN));
    assert_ne!(f(1.0), f(2.0));
    assert_ne!(f(0.0), ValueRef::U64(0));
    assert_eq!(ValueRef::Str("a"), ValueRef::Str("a"));
    assert_ne!(ValueRef::Bytes(&[1]), ValueRef::Bytes(&[2]));
}
