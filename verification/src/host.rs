//! Host ABI.
//!
//! The interpreter delegates effectful operations to an embedder-provided host. A host call is
//! identified by a symbol and a hash of its signature.

use vstd::prelude::*;
use vstd::string::*;

use crate::ieee;
use crate::ieee::f64_eq;
use crate::text::{bytes_eq, str_eq};
use crate::wire;
use crate::program::ValueType;

use crate::value::{AggHandle, Decimal, FuncId, Obj, Value, ValueModel};
use crate::strict::Recorded;

verus! {

/// A host-call signature.
#[derive(Clone, Debug, PartialEq, Eq)]
pub struct HostSig {
    /// Argument types.
    pub args: Vec<ValueType>,
    /// Return types.
    pub rets: Vec<ValueType>,
}

/// A 64-bit signature hash.
#[derive(Copy, Clone, Debug, PartialEq, Eq, Hash, PartialOrd, Ord, Structural)]
pub struct SigHash(pub u64);

/// The FNV-1a offset basis.
pub const FNV_OFFSET: u64 = 0xcbf29ce484222325;

/// The FNV-1a prime.
pub const FNV_PRIME: u64 = 0x100000001b3;

/// The FNV-1a state after hashing `bytes` from the state `h`.
pub open spec fn fnv(h: u64, bytes: Seq<u8>) -> u64
    decreases bytes.len(),
{
    if bytes.len() == 0 {
        h
    } else {
        (fnv(h, bytes.drop_last()) ^ (bytes.last() as u64)).wrapping_mul(FNV_PRIME)
    }
}

proof fn lemma_fnv_concat(h: u64, a: Seq<u8>, b: Seq<u8>)
    ensures
        fnv(fnv(h, a), b) == fnv(h, a + b),
    decreases b.len(),
{
    if b.len() == 0 {
        assert(a + b =~= a);
    } else {
        lemma_fnv_concat(h, a, b.drop_last());
        assert((a + b).drop_last() =~= a + b.drop_last());
    }
}

/// The tag byte of a value type.
pub open spec fn value_type_tag(t: ValueType) -> u8 {
    match t {
        ValueType::Unit => 0,
        ValueType::Bool => 1,
        ValueType::I64 => 2,
        ValueType::U64 => 3,
        ValueType::F64 => 4,
        ValueType::Decimal => 5,
        ValueType::Bytes => 6,
        ValueType::Str => 7,
        ValueType::Obj(_) => 8,
        ValueType::Agg => 9,
        ValueType::Func => 10,
    }
}

/// The canonical bytes of a value type: its tag, and for a host object the host type id.
pub open spec fn value_type_bytes(t: ValueType) -> Seq<u8> {
    seq![value_type_tag(t)] + match t {
        ValueType::Obj(host_type) => wire::le(host_type.0 as nat, 8),
        _ => seq![],
    }
}

/// The canonical bytes of each value type of a list.
pub open spec fn value_type_enc(ts: Seq<ValueType>) -> spec_fn(int) -> Seq<u8> {
    |k: int| value_type_bytes(ts[k])
}

/// The canonical bytes of a list of value types.
pub open spec fn value_types_bytes(ts: Seq<ValueType>) -> Seq<u8> {
    wire::cat(ts.len(), value_type_enc(ts))
}

/// The bytes that every signature hash starts from: `execution_tape:v1` and a zero byte.
pub open spec fn sig_prefix() -> Seq<u8> {
    seq![
        101u8, 120, 101, 99, 117, 116, 105, 111, 110, 95, 116, 97, 112, 101, 58, 118, 49, 0,
    ]
}

/// The canonical bytes of a signature.
pub open spec fn sig_bytes(args: Seq<ValueType>, rets: Seq<ValueType>) -> Seq<u8> {
    sig_prefix() + wire::le(crate::program::clamp32(args.len()) as nat, 4) + value_types_bytes(
        args,
    ) + wire::le(crate::program::clamp32(rets.len()) as nat, 4) + value_types_bytes(rets)
}

/// The hash of a signature: FNV-1a over its canonical bytes.
#[verifier::opaque]
pub open spec fn spec_sig_hash(args: Seq<ValueType>, rets: Seq<ValueType>) -> SigHash {
    SigHash(fnv(FNV_OFFSET, sig_bytes(args, rets)))
}

/// A running FNV-1a hash.
#[derive(Copy, Clone, Debug)]
struct Fnv1a64(u64);

impl Fnv1a64 {
    fn new() -> (h: Self)
        ensures
            h.0 == FNV_OFFSET,
    {
        Fnv1a64(FNV_OFFSET)
    }

    fn update(&mut self, bytes: &[u8])
        ensures
            final(self).0 == fnv(old(self).0, bytes@),
    {
        let ghost start = self.0;
        let mut i: usize = 0;
        assert(bytes@.take(0) =~= Seq::<u8>::empty());
        while i < bytes.len()
            invariant
                i <= bytes.len(),
                self.0 == fnv(start, bytes@.take(i as int)),
            decreases bytes.len() - i,
        {
            assert(bytes@.take(i + 1).drop_last() =~= bytes@.take(i as int));
            self.0 = (self.0 ^ (bytes[i] as u64)).wrapping_mul(FNV_PRIME);
            i = i + 1;
        }
        assert(bytes@.take(i as int) =~= bytes@);
    }

    fn finish(self) -> (h: u64)
        ensures
            h == self.0,
    {
        self.0
    }
}

fn encode_le(v: u64, width: u8) -> (bytes: Vec<u8>)
    ensures
        bytes@ == wire::le(v as nat, width as nat),
    decreases width,
{
    let mut bytes: Vec<u8> = Vec::new();
    if width > 0 {
        bytes.push((v % 256) as u8);
        let mut rest = encode_le(v / 256, width - 1);
        bytes.append(&mut rest);
    }
    assert(bytes@ =~= wire::le(v as nat, width as nat));
    bytes
}

fn encode_u32(v: u32) -> (bytes: Vec<u8>)
    ensures
        bytes@ == wire::le(v as nat, 4),
{
    encode_le(v as u64, 4)
}

/// The tag byte of a value type.
pub fn encode_value_type_tag(t: ValueType) -> (tag: u8)
    ensures
        tag == value_type_tag(t),
{
    match t {
        ValueType::Unit => 0,
        ValueType::Bool => 1,
        ValueType::I64 => 2,
        ValueType::U64 => 3,
        ValueType::F64 => 4,
        ValueType::Decimal => 5,
        ValueType::Bytes => 6,
        ValueType::Str => 7,
        ValueType::Obj(_) => 8,
        ValueType::Agg => 9,
        ValueType::Func => 10,
    }
}

fn hash_value_type(h: &mut Fnv1a64, t: ValueType)
    ensures
        final(h).0 == fnv(old(h).0, value_type_bytes(t)),
{
    let ghost start = h.0;
    let tag: Vec<u8> = vec![encode_value_type_tag(t)];
    assert(tag@ =~= seq![value_type_tag(t)]);
    h.update(tag.as_slice());
    if let ValueType::Obj(host_type) = t {
        h.update(encode_le(host_type.0, 8).as_slice());
        proof {
            lemma_fnv_concat(start, tag@, wire::le(host_type.0 as nat, 8));
        }
    } else {
        assert(value_type_bytes(t) =~= tag@);
    }
}

fn hash_value_types(h: &mut Fnv1a64, ts: &[ValueType])
    ensures
        final(h).0 == fnv(old(h).0, value_types_bytes(ts@)),
{
    let ghost start = h.0;
    let mut i: usize = 0;
    while i < ts.len()
        invariant
            i <= ts.len(),
            h.0 == fnv(start, wire::cat(i as nat, value_type_enc(ts@))),
        decreases ts.len() - i,
    {
        hash_value_type(h, ts[i]);
        proof {
            lemma_fnv_concat(
                start,
                wire::cat(i as nat, value_type_enc(ts@)),
                value_type_bytes(ts@[i as int]),
            );
        }
        i = i + 1;
    }
}

/// The hash of the signature `sig`.
pub fn sig_hash(sig: &HostSig) -> (h: SigHash)
    ensures
        h == spec_sig_hash(sig.args@, sig.rets@),
{
    sig_hash_slices(sig.args.as_slice(), sig.rets.as_slice())
}

/// The hash of the signature with arguments `args` and returns `rets`.
pub fn sig_hash_slices(args: &[ValueType], rets: &[ValueType]) -> (h: SigHash)
    ensures
        h == spec_sig_hash(args@, rets@),
{
    let mut h = Fnv1a64::new();
    let prefix: Vec<u8> = vec![
        101, 120, 101, 99, 117, 116, 105, 111, 110, 95, 116, 97, 112, 101, 58, 118, 49, 0,
    ];
    assert(prefix@ =~= sig_prefix());
    h.update(prefix.as_slice());
    let ghost n_args = wire::le(crate::program::clamp32(args@.len()) as nat, 4);
    let ghost n_rets = wire::le(crate::program::clamp32(rets@.len()) as nat, 4);
    h.update(encode_u32(crate::program::clamp_u32(args.len())).as_slice());
    hash_value_types(&mut h, args);
    h.update(encode_u32(crate::program::clamp_u32(rets.len())).as_slice());
    hash_value_types(&mut h, rets);
    proof {
        let a = sig_prefix();
        let b = value_types_bytes(args@);
        lemma_fnv_concat(FNV_OFFSET, a, n_args);
        lemma_fnv_concat(FNV_OFFSET, a + n_args, b);
        lemma_fnv_concat(FNV_OFFSET, a + n_args + b, n_rets);
        lemma_fnv_concat(FNV_OFFSET, a + n_args + b + n_rets, value_types_bytes(rets@));
        reveal(spec_sig_hash);
    }
    SigHash(h.finish())
}

/// A sink that records resource accesses during execution, for incremental execution. It is handed
/// to host calls by [`Host::call_with_access`].
pub trait AccessSink {
    /// Records a read of `key` (a dependency).
    fn read(&mut self, key: ResourceKeyRef<'_>);

    /// Records a write of `key` (an invalidation).
    fn write(&mut self, key: ResourceKeyRef<'_>);
}

/// A borrowed resource key.
#[derive(Copy, Clone, Debug, PartialEq, Eq, Hash)]
pub enum ResourceKeyRef<'a> {
    /// An input by its name.
    Input(&'a str),
    /// Host state that an operation consulted.
    HostState {
        /// Host operation.
        op: SigHash,
        /// Key of the state, local to the operation.
        key: u64,
    },
    /// Everything that an opaque host operation may depend on.
    OpaqueHost {
        /// Host operation.
        op: SigHash,
    },
}

/// A failure of a host call.
#[derive(Copy, Clone, Debug, PartialEq, Eq, Structural)]
pub enum HostError {
    /// The symbol is unknown to the host.
    UnknownSymbol,
    /// The signature hash is not the one that the host expects for the symbol.
    SignatureMismatch,
    /// The host failed during execution.
    Failed,
}

/// What is said of a host failure.
pub open spec fn host_error_text(e: HostError) -> Seq<char> {
    match e {
        HostError::UnknownSymbol => "unknown host symbol"@,
        HostError::SignatureMismatch => "host signature mismatch"@,
        HostError::Failed => "host call failed"@,
    }
}

impl HostError {
    /// What is said of this failure.
    pub fn message(self) -> (s: &'static str)
        ensures
            s@ == host_error_text(self),
    {
        match self {
            HostError::UnknownSymbol => "unknown host symbol",
            HostError::SignatureMismatch => "host signature mismatch",
            HostError::Failed => "host call failed",
        }
    }
}

/// A borrowed argument of a host call.
#[derive(Copy, Clone, Debug)]
pub enum ValueRef<'a> {
    /// `()`.
    Unit,
    /// Boolean.
    Bool(bool),
    /// Signed 64-bit integer.
    I64(i64),
    /// Unsigned 64-bit integer.
    U64(u64),
    /// 64-bit float, by its IEEE 754 bits.
    F64(u64),
    /// Decimal.
    Decimal(Decimal),
    /// Byte string.
    Bytes(&'a [u8]),
    /// UTF-8 string.
    Str(&'a str),
    /// Host object.
    Obj(Obj),
    /// Aggregate handle.
    Agg(AggHandle),
    /// Function reference.
    Func(FuncId),
}

/// Whether two values are the same: floats are compared as floats, so no NaN is the same as another,
/// and both zeros are the same.
pub open spec fn same_value(a: ValueModel, b: ValueModel) -> bool {
    match (a, b) {
        (ValueModel::F64(x), ValueModel::F64(y)) => ieee::equal(x, y),
        _ => a == b,
    }
}

impl<'a> PartialEq for ValueRef<'a> {
    fn eq(&self, other: &Self) -> (r: bool) {
        match (*self, *other) {
            (ValueRef::Unit, ValueRef::Unit) => true,
            (ValueRef::Bool(a), ValueRef::Bool(b)) => a == b,
            (ValueRef::I64(a), ValueRef::I64(b)) => a == b,
            (ValueRef::U64(a), ValueRef::U64(b)) => a == b,
            (ValueRef::F64(a), ValueRef::F64(b)) => f64_eq(a, b),
            (ValueRef::Decimal(a), ValueRef::Decimal(b)) => a == b,
            (ValueRef::Bytes(a), ValueRef::Bytes(b)) => bytes_eq(a, b),
            (ValueRef::Str(a), ValueRef::Str(b)) => str_eq(a, b),
            (ValueRef::Obj(a), ValueRef::Obj(b)) => a == b,
            (ValueRef::Agg(a), ValueRef::Agg(b)) => a == b,
            (ValueRef::Func(a), ValueRef::Func(b)) => a == b,
            _ => false,
        }
    }
}

impl<'a> vstd::std_specs::cmp::PartialEqSpecImpl for ValueRef<'a> {
    open spec fn obeys_eq_spec() -> bool {
        true
    }

    open spec fn eq_spec(&self, other: &Self) -> bool {
        same_value(self@, other@)
    }
}

impl<'a> View for ValueRef<'a> {
    type V = ValueModel;

    open spec fn view(&self) -> ValueModel {
        match self {
            ValueRef::Unit => ValueModel::Unit,
            ValueRef::Bool(b) => ValueModel::Bool(*b),
            ValueRef::I64(i) => ValueModel::I64(*i),
            ValueRef::U64(u) => ValueModel::U64(*u),
            ValueRef::F64(f) => ValueModel::F64(*f),
            ValueRef::Decimal(d) => ValueModel::Decimal(*d),
            ValueRef::Bytes(b) => ValueModel::Bytes(b@),
            ValueRef::Str(s) => ValueModel::Str(s@),
            ValueRef::Obj(o) => ValueModel::Obj(*o),
            ValueRef::Agg(h) => ValueModel::Agg(*h),
            ValueRef::Func(f) => ValueModel::Func(*f),
        }
    }
}

impl<'a> ValueRef<'a> {
    /// An owned copy of this value.
    #[must_use]
    pub fn to_value(self) -> (v: Value)
        ensures
            v@ == self@,
    {
        match self {
            ValueRef::Unit => Value::Unit,
            ValueRef::Bool(b) => Value::Bool(b),
            ValueRef::I64(i) => Value::I64(i),
            ValueRef::U64(u) => Value::U64(u),
            ValueRef::F64(f) => Value::F64(f),
            ValueRef::Decimal(d) => Value::Decimal(d),
            ValueRef::Bytes(b) => Value::Bytes(vstd::slice::slice_to_vec(b)),
            ValueRef::Str(s) => Value::Str(s.to_owned()),
            ValueRef::Obj(o) => Value::Obj(o),
            ValueRef::Agg(h) => Value::Agg(h),
            ValueRef::Func(f) => Value::Func(f),
        }
    }

    /// The type of this value.
    #[must_use]
    pub fn value_type(self) -> (t: ValueType)
        ensures
            t == self@.ty(),
    {
        match self {
            ValueRef::Unit => ValueType::Unit,
            ValueRef::Bool(_) => ValueType::Bool,
            ValueRef::I64(_) => ValueType::I64,
            ValueRef::U64(_) => ValueType::U64,
            ValueRef::F64(_) => ValueType::F64,
            ValueRef::Decimal(_) => ValueType::Decimal,
            ValueRef::Bytes(_) => ValueType::Bytes,
            ValueRef::Str(_) => ValueType::Str,
            ValueRef::Obj(o) => ValueType::Obj(o.host_type),
            ValueRef::Agg(_) => ValueType::Agg,
            ValueRef::Func(_) => ValueType::Func,
        }
    }
}

/// What the embedder does for a program.
///
/// A call gets the symbol, the signature hash and the arguments, and gives back the return values
/// and how much fuel the call takes besides.
pub trait Host {
    /// Performs a host call.
    fn call(&mut self, symbol: &str, sig_hash: SigHash, args: &[ValueRef<'_>]) -> Result<
        (Vec<Value>, u64),
        HostError,
    >;

    /// Performs a host call that may record the resources it touches, where it is handed a sink for
    /// them. A host that does not record any leaves this as it is.
    fn call_with_access(
        &mut self,
        symbol: &str,
        sig_hash: SigHash,
        args: &[ValueRef<'_>],
        access: Option<&mut Recorded<NoAccess>>,
    ) -> Result<(Vec<Value>, u64), HostError> {
        self.call(symbol, sig_hash, args)
    }
}

/// A sink that records nothing.
#[derive(Copy, Clone, Debug, PartialEq, Eq)]
pub struct NoAccess;

impl AccessSink for NoAccess {
    fn read(&mut self, key: ResourceKeyRef<'_>) {
    }

    fn write(&mut self, key: ResourceKeyRef<'_>) {
    }
}

} // verus!
