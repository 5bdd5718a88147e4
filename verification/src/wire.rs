//! Primitive wire encodings: LEB128 integers, fixed-width little-endian integers and byte runs.
//!
//! Each encoding is given by two mathematical functions: one from values to bytes, and one from a
//! position in a byte string to a value and the position behind it. [`Writer`] is proved against
//! the first and [`Reader`] against the second, and the two are proved to be inverse.

use vstd::prelude::*;
use vstd::string::*;

use crate::text::str_from_utf8;

verus! {

/// Why a byte string is not a valid encoding.
#[derive(Copy, Clone, Debug, PartialEq, Eq, Structural)]
pub enum DecodeError {
    /// The input ended inside a value.
    UnexpectedEof,
    /// A variable-length integer does not fit in 64 bits.
    InvalidVarint,
    /// An index, a range or a tag lies outside what the format allows.
    OutOfBounds,
    /// A string is not valid UTF-8.
    InvalidUtf8,
    /// The container does not start with the expected magic bytes.
    BadMagic,
    /// The container has a version that this library does not read.
    UnsupportedVersion {
        /// Major version found.
        major: u16,
        /// Minor version found.
        minor: u16,
    },
    /// A section occurs twice.
    DuplicateSection,
    /// A mandatory section is missing.
    MissingSection {
        /// Tag of the missing section.
        tag: u8,
    },
}

/// What parsing at a position yields: the value and the position behind it, or an error.
pub type Parsed<T> = Result<(T, int), DecodeError>;

/// The bytes `piece` stand in `s` at position `i`.
pub open spec fn at(s: Seq<u8>, i: int, piece: Seq<u8>) -> bool {
    &&& 0 <= i
    &&& i + piece.len() <= s.len()
    &&& s.subrange(i, i + piece.len()) == piece
}

/// Two adjacent pieces are one piece.
pub proof fn lemma_at_concat(s: Seq<u8>, i: int, a: Seq<u8>, b: Seq<u8>)
    ensures
        at(s, i, a + b) <==> at(s, i, a) && at(s, i + a.len(), b),
{
    if at(s, i, a + b) {
        let whole = s.subrange(i, i + (a + b).len());
        assert(s.subrange(i, i + a.len()) =~= whole.subrange(0, a.len() as int));
        assert(whole.subrange(0, a.len() as int) =~= a);
        assert(s.subrange(i + a.len(), i + a.len() + b.len()) =~= whole.subrange(
            a.len() as int,
            whole.len() as int,
        ));
        assert(whole.subrange(a.len() as int, whole.len() as int) =~= b);
    }
    if at(s, i, a) && at(s, i + a.len(), b) {
        assert(s.subrange(i, i + (a + b).len()) =~= s.subrange(i, i + a.len()) + s.subrange(
            i + a.len(),
            i + a.len() + b.len(),
        ));
    }
}

// ---------------------------------------------------------------------------------------------
// Unsigned LEB128.
// ---------------------------------------------------------------------------------------------

/// The unsigned LEB128 encoding of `v`: base-128 digits from the least significant one, every
/// digit but the last marked by the high bit.
pub open spec fn uleb(v: nat) -> Seq<u8>
    decreases v,
{
    if v < 128 {
        seq![v as u8]
    } else {
        seq![(v % 128 + 128) as u8] + uleb(v / 128)
    }
}

/// Reads an unsigned LEB128 integer whose digit number `k` stands at position `i` of `s`.
///
/// A `u64` has at most ten digits, and the tenth is at most 1.
pub open spec fn uleb_from(s: Seq<u8>, i: int, k: nat) -> Parsed<nat>
    decreases 10 - k,
{
    if !(0 <= i < s.len()) {
        Err(DecodeError::UnexpectedEof)
    } else if k >= 9 && s[i] > 1 {
        Err(DecodeError::InvalidVarint)
    } else if s[i] < 128 {
        Ok((s[i] as nat, i + 1))
    } else {
        match uleb_from(s, i + 1, k + 1) {
            Ok((rest, n)) => Ok(((s[i] - 128 + 128 * rest) as nat, n)),
            Err(e) => Err(e),
        }
    }
}

/// The unsigned LEB128 integer at position `i` of `s`.
pub open spec fn uleb_at(s: Seq<u8>, i: int) -> Parsed<nat> {
    uleb_from(s, i, 0)
}

/// One more than the largest value that the digits from number `k` on can hold.
pub open spec fn uleb_limit(k: nat) -> nat
    decreases 10 - k,
{
    if k >= 9 {
        2
    } else {
        128 * uleb_limit(k + 1)
    }
}

proof fn lemma_uleb_limit()
    ensures
        uleb_limit(0) == 0x1_0000_0000_0000_0000,
{
    reveal_with_fuel(uleb_limit, 10);
}

/// A read integer is in range, and reading moves forward inside the input.
proof fn lemma_uleb_from_bounds(s: Seq<u8>, i: int, k: nat)
    requires
        k <= 9,
    ensures
        uleb_from(s, i, k) matches Ok((v, n)) ==> v < uleb_limit(k) && i < n <= s.len(),
    decreases 10 - k,
{
    if k < 9 {
        lemma_uleb_from_bounds(s, i + 1, k + 1);
    }
    assert(uleb_limit(k) >= 2) by { lemma_uleb_limit_min(k) };
    if k < 9 {
        assert(uleb_limit(k + 1) >= 2) by { lemma_uleb_limit_min(k + 1) };
    }
}

proof fn lemma_uleb_limit_min(k: nat)
    ensures
        uleb_limit(k) >= 2,
    decreases 10 - k,
{
    if k < 9 {
        lemma_uleb_limit_min(k + 1);
    }
}

/// An unsigned LEB128 integer that is read from a byte string fits in a `u64`, and reading moves
/// forward inside the input.
pub proof fn lemma_uleb_at_bounds(s: Seq<u8>, i: int)
    ensures
        uleb_at(s, i) matches Ok((v, n)) ==> v <= u64::MAX && i < n <= s.len(),
{
    lemma_uleb_limit();
    lemma_uleb_from_bounds(s, i, 0);
}

proof fn lemma_uleb_from_roundtrip(s: Seq<u8>, i: int, k: nat, v: nat)
    requires
        k <= 9,
        v < uleb_limit(k),
        at(s, i, uleb(v)),
    ensures
        uleb_from(s, i, k) == Ok::<(nat, int), DecodeError>((v, i + uleb(v).len())),
    decreases 10 - k,
{
    let e = uleb(v);
    if v < 128 {
        assert(e.len() == 1);
        assert(s[i] == s.subrange(i, i + 1)[0]);
    } else {
        let rest = uleb(v / 128);
        let head = seq![(v % 128 + 128) as u8];
        lemma_at_concat(s, i, head, rest);
        assert(s[i] == s.subrange(i, i + 1)[0]);
        assert(s[i] == v % 128 + 128);
        lemma_uleb_from_roundtrip(s, i + 1, k + 1, v / 128);
    }
}

/// Reading an unsigned LEB128 integer gives back the integer that was written, wherever it stands
/// and whatever follows.
pub proof fn lemma_uleb_roundtrip(s: Seq<u8>, i: int, v: u64)
    requires
        at(s, i, uleb(v as nat)),
    ensures
        uleb_at(s, i) == Ok::<(nat, int), DecodeError>((v as nat, i + uleb(v as nat).len())),
{
    lemma_uleb_limit();
    lemma_uleb_from_roundtrip(s, i, 0, v as nat);
}

// ---------------------------------------------------------------------------------------------
// Signed LEB128.
// ---------------------------------------------------------------------------------------------

/// The signed LEB128 encoding of `v`: base-128 digits of the two's complement of `v`, every digit
/// but the last marked by the high bit.
pub open spec fn sleb(v: int) -> Seq<u8>
    decreases if v >= 0 { v } else { -v },
{
    if -64 <= v < 64 {
        seq![(v % 128) as u8]
    } else {
        seq![(v % 128 + 128) as u8] + sleb(v / 128)
    }
}

/// Reads a signed LEB128 integer whose digit number `k` stands at position `i` of `s`.
///
/// An `i64` has at most ten digits, and the tenth only repeats the sign.
pub open spec fn sleb_from(s: Seq<u8>, i: int, k: nat) -> Parsed<int>
    decreases 10 - k,
{
    if !(0 <= i < s.len()) {
        Err(DecodeError::UnexpectedEof)
    } else if k >= 9 && s[i] != 0 && s[i] != 127 {
        Err(DecodeError::InvalidVarint)
    } else if s[i] < 64 {
        Ok((s[i] as int, i + 1))
    } else if s[i] < 128 {
        Ok((s[i] - 128, i + 1))
    } else {
        match sleb_from(s, i + 1, k + 1) {
            Ok((rest, n)) => Ok((s[i] - 128 + 128 * rest, n)),
            Err(e) => Err(e),
        }
    }
}

/// The signed LEB128 integer at position `i` of `s`.
pub open spec fn sleb_at(s: Seq<u8>, i: int) -> Parsed<int> {
    sleb_from(s, i, 0)
}

/// Bound on the magnitude of what the digits from number `k` on can hold.
pub open spec fn sleb_limit(k: nat) -> nat
    decreases 10 - k,
{
    if k >= 9 {
        1
    } else {
        128 * sleb_limit(k + 1)
    }
}

proof fn lemma_sleb_limit()
    ensures
        sleb_limit(0) == 0x8000_0000_0000_0000,
{
    reveal_with_fuel(sleb_limit, 10);
}

proof fn lemma_sleb_limit_min(k: nat)
    ensures
        k >= 9 ==> sleb_limit(k) == 1,
        k < 9 ==> sleb_limit(k) >= 128,
    decreases 10 - k,
{
    if k < 9 {
        lemma_sleb_limit_min(k + 1);
    }
}

proof fn lemma_sleb_from_bounds(s: Seq<u8>, i: int, k: nat)
    requires
        k <= 9,
    ensures
        sleb_from(s, i, k) matches Ok((v, n)) ==> -sleb_limit(k) <= v < sleb_limit(k) && i < n
            <= s.len(),
    decreases 10 - k,
{
    lemma_sleb_limit_min(k);
    if k < 9 {
        lemma_sleb_limit_min(k + 1);
        lemma_sleb_from_bounds(s, i + 1, k + 1);
    }
}

/// A signed LEB128 integer that is read from a byte string fits in an `i64`, and reading moves
/// forward inside the input.
pub proof fn lemma_sleb_at_bounds(s: Seq<u8>, i: int)
    ensures
        sleb_at(s, i) matches Ok((v, n)) ==> i64::MIN <= v <= i64::MAX && i < n <= s.len(),
{
    lemma_sleb_limit();
    lemma_sleb_from_bounds(s, i, 0);
}

proof fn lemma_sleb_from_roundtrip(s: Seq<u8>, i: int, k: nat, v: int)
    requires
        k <= 9,
        -sleb_limit(k) <= v < sleb_limit(k),
        at(s, i, sleb(v)),
    ensures
        sleb_from(s, i, k) == Ok::<(int, int), DecodeError>((v, i + sleb(v).len())),
    decreases 10 - k,
{
    lemma_sleb_limit_min(k);
    if -64 <= v < 64 {
        assert(s[i] == s.subrange(i, i + 1)[0]);
        assert(s[i] == v % 128);
    } else {
        let rest = sleb(v / 128);
        let head = seq![(v % 128 + 128) as u8];
        lemma_at_concat(s, i, head, rest);
        assert(s[i] == s.subrange(i, i + 1)[0]);
        assert(s[i] == v % 128 + 128);
        lemma_sleb_from_roundtrip(s, i + 1, k + 1, v / 128);
    }
}

/// Reading a signed LEB128 integer gives back the integer that was written, wherever it stands and
/// whatever follows.
pub proof fn lemma_sleb_roundtrip(s: Seq<u8>, i: int, v: i64)
    requires
        at(s, i, sleb(v as int)),
    ensures
        sleb_at(s, i) == Ok::<(int, int), DecodeError>((v as int, i + sleb(v as int).len())),
{
    lemma_sleb_limit();
    lemma_sleb_from_roundtrip(s, i, 0, v as int);
}

// ---------------------------------------------------------------------------------------------
// Fixed-width little-endian integers.
// ---------------------------------------------------------------------------------------------

/// The `width` lowest base-256 digits of `v`, least significant first.
pub open spec fn le(v: nat, width: nat) -> Seq<u8>
    decreases width,
{
    if width == 0 {
        seq![]
    } else {
        seq![(v % 256) as u8] + le(v / 256, (width - 1) as nat)
    }
}

/// The little-endian integer of `width` bytes at position `i` of `s`.
pub open spec fn le_value(s: Seq<u8>, i: int, width: nat) -> nat
    decreases width,
{
    if width == 0 {
        0
    } else {
        s[i] as nat + 256 * le_value(s, i + 1, (width - 1) as nat)
    }
}

/// Reads a little-endian integer of `width` bytes.
pub open spec fn le_at(s: Seq<u8>, i: int, width: nat) -> Parsed<nat> {
    if 0 <= i && i + width <= s.len() {
        Ok((le_value(s, i, width), i + width))
    } else {
        Err(DecodeError::UnexpectedEof)
    }
}

/// The number of values that `width` bytes can hold.
pub open spec fn le_limit(width: nat) -> nat
    decreases width,
{
    if width == 0 {
        1
    } else {
        256 * le_limit((width - 1) as nat)
    }
}

proof fn lemma_le_limit()
    ensures
        le_limit(2) == 0x1_0000,
        le_limit(4) == 0x1_0000_0000,
        le_limit(8) == 0x1_0000_0000_0000_0000,
{
    reveal_with_fuel(le_limit, 9);
}

proof fn lemma_le_value_bound(s: Seq<u8>, i: int, width: nat)
    ensures
        le_value(s, i, width) < le_limit(width),
    decreases width,
{
    if width > 0 {
        lemma_le_value_bound(s, i + 1, (width - 1) as nat);
    }
}

/// A 16-bit integer that is read fits in a `u16`.
pub proof fn lemma_le2_bound(s: Seq<u8>, i: int)
    ensures
        le_at(s, i, 2) matches Ok((v, _)) ==> v <= u16::MAX,
{
    lemma_le_limit();
    lemma_le_value_bound(s, i, 2);
}

proof fn lemma_le_len(v: nat, width: nat)
    ensures
        le(v, width).len() == width,
    decreases width,
{
    if width > 0 {
        lemma_le_len(v / 256, (width - 1) as nat);
    }
}

/// Reading a fixed-width integer gives back the integer that was written.
pub proof fn lemma_le_roundtrip(s: Seq<u8>, i: int, v: nat, width: nat)
    requires
        v < le_limit(width),
        at(s, i, le(v, width)),
    ensures
        le(v, width).len() == width,
        le_at(s, i, width) == Ok::<(nat, int), DecodeError>((v, i + width)),
    decreases width,
{
    lemma_le_len(v, width);
    if width > 0 {
        let head = seq![(v % 256) as u8];
        let rest = le(v / 256, (width - 1) as nat);
        lemma_at_concat(s, i, head, rest);
        assert(s[i] == s.subrange(i, i + 1)[0]);
        assert(v / 256 < le_limit((width - 1) as nat));
        lemma_le_roundtrip(s, i + 1, v / 256, (width - 1) as nat);
    }
}

/// Reading a 64-bit little-endian integer gives back the integer that was written.
pub proof fn lemma_le64_roundtrip(s: Seq<u8>, i: int, v: u64)
    requires
        at(s, i, le(v as nat, 8)),
    ensures
        le(v as nat, 8).len() == 8,
        le_at(s, i, 8) == Ok::<(nat, int), DecodeError>((v as nat, i + 8)),
{
    lemma_le_limit();
    lemma_le_roundtrip(s, i, v as nat, 8);
}

// ---------------------------------------------------------------------------------------------
// Byte runs.
// ---------------------------------------------------------------------------------------------

/// The `len` bytes at position `i` of `s`.
pub open spec fn run_at(s: Seq<u8>, i: int, len: nat) -> Parsed<Seq<u8>> {
    if 0 <= i && i + len <= s.len() {
        Ok((s.subrange(i, i + len), i + len))
    } else {
        Err(DecodeError::UnexpectedEof)
    }
}

/// An unsigned LEB128 integer that must fit in a `usize`.
pub open spec fn usize_at(s: Seq<u8>, i: int) -> Parsed<nat> {
    match uleb_at(s, i) {
        Ok((v, n)) => if v <= usize::MAX {
            Ok((v, n))
        } else {
            Err(DecodeError::OutOfBounds)
        },
        Err(e) => Err(e),
    }
}

/// An unsigned LEB128 integer that must fit in a `u32`.
pub open spec fn u32_at(s: Seq<u8>, i: int) -> Parsed<u32> {
    match uleb_at(s, i) {
        Ok((v, n)) => if v <= u32::MAX {
            Ok((v as u32, n))
        } else {
            Err(DecodeError::OutOfBounds)
        },
        Err(e) => Err(e),
    }
}

/// A `u32` reads back as it was written.
pub proof fn lemma_u32_roundtrip(s: Seq<u8>, i: int, v: u32)
    requires
        at(s, i, uleb(v as nat)),
    ensures
        u32_at(s, i) == Ok::<(u32, int), DecodeError>((v, i + uleb(v as nat).len())),
{
    lemma_uleb_roundtrip(s, i, v as u64);
}

/// A length reads back as it was written.
pub proof fn lemma_usize_roundtrip(s: Seq<u8>, i: int, v: nat)
    requires
        v <= usize::MAX,
        at(s, i, uleb(v)),
    ensures
        usize_at(s, i) == Ok::<(nat, int), DecodeError>((v, i + uleb(v).len())),
{
    lemma_uleb_roundtrip(s, i, v as u64);
}

proof fn lemma_uleb_limit_max(k: nat)
    ensures
        uleb_limit(k) <= 0x1_0000_0000_0000_0000,
    decreases k,
{
    if k == 0 {
        lemma_uleb_limit();
    } else {
        lemma_uleb_limit_max((k - 1) as nat);
        lemma_uleb_limit_min(k);
    }
}

proof fn lemma_sleb_limit_max(k: nat)
    ensures
        sleb_limit(k) <= 0x8000_0000_0000_0000,
    decreases k,
{
    if k == 0 {
        lemma_sleb_limit();
    } else {
        lemma_sleb_limit_max((k - 1) as nat);
        lemma_sleb_limit_min(k);
    }
}

// ---------------------------------------------------------------------------------------------
// Lists.
// ---------------------------------------------------------------------------------------------

/// The encodings `enc(0)`, ..., `enc(n - 1)`, one after the other.
pub open spec fn cat(n: nat, enc: spec_fn(int) -> Seq<u8>) -> Seq<u8>
    decreases n,
{
    if n == 0 {
        seq![]
    } else {
        cat((n - 1) as nat, enc) + enc(n - 1)
    }
}

/// Items that each take a byte at least take as many bytes as there are items.
pub proof fn lemma_cat_len(n: nat, enc: spec_fn(int) -> Seq<u8>)
    requires
        forall|k: int| 0 <= k < n ==> (#[trigger] enc(k)).len() >= 1,
    ensures
        cat(n, enc).len() >= n,
    decreases n,
{
    if n > 0 {
        lemma_cat_len((n - 1) as nat, enc);
    }
}

/// The concatenation depends on the items alone.
pub proof fn lemma_cat_eq(n: nat, a: spec_fn(int) -> Seq<u8>, b: spec_fn(int) -> Seq<u8>)
    requires
        forall|k: int| 0 <= k < n ==> #[trigger] a(k) == b(k),
    ensures
        cat(n, a) == cat(n, b),
    decreases n,
{
    if n > 0 {
        lemma_cat_eq((n - 1) as nat, a, b);
    }
}

/// A kind of list item, read into a state that collects what was read.
pub trait Item {
    /// What is collected.
    type State;

    /// Reads one item at position `i` of `s` into the state `st`.
    spec fn item_at(s: Seq<u8>, i: int, st: Self::State) -> Parsed<Self::State>;
}

/// Reads `n` items from position `i` of `s` on.
pub open spec fn items_at<I: Item>(s: Seq<u8>, i: int, n: nat, st: I::State) -> Parsed<I::State>
    decreases n,
{
    if n == 0 {
        Ok((st, i))
    } else {
        match I::item_at(s, i, st) {
            Ok((st1, j)) => items_at::<I>(s, j, (n - 1) as nat, st1),
            Err(e) => Err(e),
        }
    }
}

/// Reads a count and then as many items.
pub open spec fn list_at<I: Item>(s: Seq<u8>, i: int, st: I::State) -> Parsed<I::State> {
    match usize_at(s, i) {
        Ok((n, j)) => items_at::<I>(s, j, n, st),
        Err(e) => Err(e),
    }
}

/// Reading `n` items is reading one less and then one.
proof fn lemma_items_snoc<I: Item>(s: Seq<u8>, i: int, n: nat, st: I::State)
    requires
        n > 0,
    ensures
        items_at::<I>(s, i, n, st) == match items_at::<I>(s, i, (n - 1) as nat, st) {
            Ok((st1, j)) => I::item_at(s, j, st1),
            Err(e) => Err(e),
        },
    decreases n,
{
    if n > 1 {
        match I::item_at(s, i, st) {
            Ok((st1, j)) => lemma_items_snoc::<I>(s, j, (n - 1) as nat, st1),
            Err(_) => {},
        }
    } else {
        assert(items_at::<I>(s, i, 0, st) == Ok::<(I::State, int), DecodeError>((st, i)));
        match I::item_at(s, i, st) {
            Ok((st1, j)) => {
                assert(items_at::<I>(s, j, 0, st1) == Ok::<(I::State, int), DecodeError>((st1, j)));
            },
            Err(_) => {},
        }
    }
}

/// Items that each read back as written read back in a row. `st(k)` is what is collected after `k`
/// items.
pub proof fn lemma_items_roundtrip<I: Item>(
    s: Seq<u8>,
    i: int,
    n: nat,
    enc: spec_fn(int) -> Seq<u8>,
    st: spec_fn(int) -> I::State,
)
    requires
        at(s, i, cat(n, enc)),
        forall|k: int, j: int|
            0 <= k < n && #[trigger] at(s, j, enc(k)) ==> I::item_at(s, j, st(k)) == Ok::<
                (I::State, int),
                DecodeError,
            >((st(k + 1), j + enc(k).len())),
    ensures
        items_at::<I>(s, i, n, st(0)) == Ok::<(I::State, int), DecodeError>(
            (st(n as int), i + cat(n, enc).len()),
        ),
    decreases n,
{
    if n > 0 {
        let m = (n - 1) as nat;
        lemma_at_concat(s, i, cat(m, enc), enc(n - 1));
        lemma_items_roundtrip::<I>(s, i, m, enc, st);
        lemma_items_snoc::<I>(s, i, n, st(0));
    }
}

/// A counted list reads back as written.
pub proof fn lemma_list_roundtrip<I: Item>(
    s: Seq<u8>,
    i: int,
    n: nat,
    enc: spec_fn(int) -> Seq<u8>,
    st: spec_fn(int) -> I::State,
)
    requires
        n <= usize::MAX,
        at(s, i, uleb(n) + cat(n, enc)),
        forall|k: int, j: int|
            0 <= k < n && #[trigger] at(s, j, enc(k)) ==> I::item_at(s, j, st(k)) == Ok::<
                (I::State, int),
                DecodeError,
            >((st(k + 1), j + enc(k).len())),
    ensures
        list_at::<I>(s, i, st(0)) == Ok::<(I::State, int), DecodeError>(
            (st(n as int), i + (uleb(n) + cat(n, enc)).len()),
        ),
{
    lemma_at_concat(s, i, uleb(n), cat(n, enc));
    lemma_usize_roundtrip(s, i, n);
    lemma_items_roundtrip::<I>(s, i + uleb(n).len(), n, enc, st);
}

/// A byte string with its length before it.
pub open spec fn blob(b: Seq<u8>) -> Seq<u8> {
    uleb(b.len()) + b
}

/// The byte string with its length before it at position `i` of `s`.
pub open spec fn blob_at(s: Seq<u8>, i: int) -> Parsed<Seq<u8>> {
    match usize_at(s, i) {
        Ok((len, j)) => run_at(s, j, len),
        Err(e) => Err(e),
    }
}

/// A byte string reads back as written.
pub proof fn lemma_blob_roundtrip(s: Seq<u8>, i: int, b: Seq<u8>)
    requires
        b.len() <= usize::MAX,
        at(s, i, blob(b)),
    ensures
        blob_at(s, i) == Ok::<(Seq<u8>, int), DecodeError>((b, i + blob(b).len())),
{
    lemma_at_concat(s, i, uleb(b.len()), b);
    lemma_usize_roundtrip(s, i, b.len());
}

/// The encoding of an integer takes a byte at least.
pub proof fn lemma_uleb_len(v: nat)
    ensures
        uleb(v).len() >= 1,
{
}

/// The string with its length before it at position `i` of `s`, by its UTF-8 bytes.
pub open spec fn text_at(s: Seq<u8>, i: int) -> Parsed<Seq<u8>> {
    match blob_at(s, i) {
        Ok((b, n)) => if vstd::utf8::valid_utf8(b) {
            Ok((b, n))
        } else {
            Err(DecodeError::InvalidUtf8)
        },
        Err(e) => Err(e),
    }
}

// ---------------------------------------------------------------------------------------------
// Reader.
// ---------------------------------------------------------------------------------------------

/// A cursor over a byte slice.
pub struct Reader<'a> {
    bytes: &'a [u8],
    offset: usize,
}

impl<'a> Reader<'a> {
    /// The whole input.
    pub closed spec fn data(&self) -> Seq<u8> {
        self.bytes@
    }

    /// The position of the next byte.
    pub closed spec fn pos(&self) -> int {
        self.offset as int
    }

    /// The cursor stands inside its input, whose length is a machine integer.
    pub open spec fn wf(&self) -> bool {
        &&& 0 <= self.pos() <= self.data().len()
        &&& self.data().len() <= usize::MAX
    }

    /// The reader went from `self` to `post` by a read that gave `res`, where the format says
    /// `parsed`.
    pub open spec fn read_as<T>(
        &self,
        post: &Self,
        res: Result<T, DecodeError>,
        parsed: Parsed<T>,
    ) -> bool {
        &&& post.wf()
        &&& post.data() == self.data()
        &&& match parsed {
            Ok((v, n)) => res == Ok::<T, DecodeError>(v) && post.pos() == n,
            Err(e) => res == Err::<T, DecodeError>(e),
        }
    }

    /// A reader at the start of `bytes`.
    pub fn new(bytes: &'a [u8]) -> (r: Self)
        ensures
            r.wf(),
            r.data() == bytes@,
            r.pos() == 0,
    {
        let _n: usize = bytes.len();
        Reader { bytes, offset: 0 }
    }

    /// The length of the input.
    pub fn len(&self) -> (n: usize)
        ensures
            n == self.data().len(),
    {
        self.bytes.len()
    }

    /// The position of the next byte.
    pub fn offset(&self) -> (o: usize)
        ensures
            o == self.pos(),
    {
        self.offset
    }

    /// Reads one byte.
    pub fn read_u8(&mut self) -> (res: Result<u8, DecodeError>)
        requires
            old(self).wf(),
        ensures
            old(self).read_as(
                final(self),
                res,
                if old(self).pos() < old(self).data().len() {
                    Ok((old(self).data()[old(self).pos()], old(self).pos() + 1))
                } else {
                    Err(DecodeError::UnexpectedEof)
                },
            ),
    {
        if self.offset < self.bytes.len() {
            let b = self.bytes[self.offset];
            self.offset = self.offset + 1;
            Ok(b)
        } else {
            Err(DecodeError::UnexpectedEof)
        }
    }

    /// Reads a little-endian integer of `width` bytes.
    fn read_le(&mut self, width: u8) -> (res: u64)
        requires
            old(self).wf(),
            width <= 8,
            old(self).pos() + width <= old(self).data().len(),
        ensures
            final(self).wf(),
            final(self).data() == old(self).data(),
            final(self).pos() == old(self).pos() + width,
            res == le_value(old(self).data(), old(self).pos(), width as nat),
        decreases width,
    {
        if width == 0 {
            0
        } else {
            let low = self.bytes[self.offset];
            self.offset = self.offset + 1;
            proof {
                lemma_le_value_bound(self.data(), self.pos(), (width - 1) as nat);
                reveal_with_fuel(le_limit, 9);
            }
            let rest = self.read_le(width - 1);
            low as u64 + 256 * rest
        }
    }

    /// Reads a 16-bit little-endian integer.
    pub fn read_u16_le(&mut self) -> (res: Result<u16, DecodeError>)
        requires
            old(self).wf(),
        ensures
            old(self).read_as(
                final(self),
                res,
                match le_at(old(self).data(), old(self).pos(), 2) {
                    Ok((v, n)) => Ok((v as u16, n)),
                    Err(e) => Err(e),
                },
            ),
    {
        if self.bytes.len() - self.offset < 2 {
            return Err(DecodeError::UnexpectedEof);
        }
        proof {
            lemma_le_limit();
            lemma_le_value_bound(self.data(), self.pos(), 2);
        }
        Ok(self.read_le(2) as u16)
    }

    /// Reads a 64-bit little-endian integer.
    pub fn read_u64_le(&mut self) -> (res: Result<u64, DecodeError>)
        requires
            old(self).wf(),
        ensures
            old(self).read_as(
                final(self),
                res,
                match le_at(old(self).data(), old(self).pos(), 8) {
                    Ok((v, n)) => Ok((v as u64, n)),
                    Err(e) => Err(e),
                },
            ),
    {
        if self.bytes.len() - self.offset < 8 {
            return Err(DecodeError::UnexpectedEof);
        }
        Ok(self.read_le(8))
    }

    /// Reads a run of `len` bytes.
    pub fn read_bytes(&mut self, len: usize) -> (res: Result<&'a [u8], DecodeError>)
        requires
            old(self).wf(),
        ensures
            final(self).wf(),
            final(self).data() == old(self).data(),
            match run_at(old(self).data(), old(self).pos(), len as nat) {
                Ok((run, n)) => res is Ok && res->Ok_0@ == run && final(self).pos() == n,
                Err(e) => res == Err::<&'a [u8], DecodeError>(e),
            },
    {
        if self.bytes.len() - self.offset < len {
            return Err(DecodeError::UnexpectedEof);
        }
        let run = vstd::slice::slice_subrange(self.bytes, self.offset, self.offset + len);
        self.offset = self.offset + len;
        Ok(run)
    }

    /// Reads a byte string with its length before it.
    pub fn read_blob(&mut self) -> (res: Result<&'a [u8], DecodeError>)
        requires
            old(self).wf(),
        ensures
            final(self).wf(),
            final(self).data() == old(self).data(),
            match blob_at(old(self).data(), old(self).pos()) {
                Ok((run, n)) => res is Ok && res->Ok_0@ == run && final(self).pos() == n,
                Err(e) => res == Err::<&'a [u8], DecodeError>(e),
            },
    {
        proof {
            lemma_uleb_at_bounds(self.data(), self.pos());
        }
        let len = read_usize(self)?;
        self.read_bytes(len)
    }

    /// Reads a string of `len` bytes.
    pub fn read_str(&mut self, len: usize) -> (res: Result<&'a str, DecodeError>)
        requires
            old(self).wf(),
        ensures
            final(self).wf(),
            final(self).data() == old(self).data(),
            match run_at(old(self).data(), old(self).pos(), len as nat) {
                Ok((run, n)) => if vstd::utf8::valid_utf8(run) {
                    res is Ok && vstd::utf8::encode_utf8(res->Ok_0@) == run && final(self).pos()
                        == n
                } else {
                    res == Err::<&'a str, DecodeError>(DecodeError::InvalidUtf8)
                },
                Err(e) => res == Err::<&'a str, DecodeError>(e),
            },
    {
        let run = self.read_bytes(len)?;
        match str_from_utf8(run) {
            Some(s) => Ok(s),
            None => Err(DecodeError::InvalidUtf8),
        }
    }

    /// Reads a string with its length before it.
    pub fn read_text(&mut self) -> (res: Result<&'a str, DecodeError>)
        requires
            old(self).wf(),
        ensures
            final(self).wf(),
            final(self).data() == old(self).data(),
            match text_at(old(self).data(), old(self).pos()) {
                Ok((run, n)) => res is Ok && vstd::utf8::encode_utf8(res->Ok_0@) == run
                    && final(self).pos() == n,
                Err(e) => res == Err::<&'a str, DecodeError>(e),
            },
    {
        proof {
            lemma_uleb_at_bounds(self.data(), self.pos());
        }
        let len = read_usize(self)?;
        self.read_str(len)
    }

    fn read_uleb_digits(&mut self, k: u8) -> (res: Result<u64, DecodeError>)
        requires
            old(self).wf(),
            k <= 9,
        ensures
            old(self).read_as(
                final(self),
                res,
                match uleb_from(old(self).data(), old(self).pos(), k as nat) {
                    Ok((v, n)) => Ok((v as u64, n)),
                    Err(e) => Err(e),
                },
            ),
            res matches Ok(v) ==> v < uleb_limit(k as nat),
        decreases 10 - k,
    {
        proof {
            lemma_uleb_from_bounds(self.data(), self.pos(), k as nat);
            lemma_uleb_limit_max(k as nat);
        }
        let b = self.read_u8()?;
        if k >= 9 && b > 1 {
            return Err(DecodeError::InvalidVarint);
        }
        if b < 128 {
            return Ok(b as u64);
        }
        proof {
            lemma_uleb_limit_max((k + 1) as nat);
            lemma_uleb_from_bounds(self.data(), self.pos(), (k + 1) as nat);
        }
        let rest = self.read_uleb_digits(k + 1)?;
        Ok((b - 128) as u64 + 128 * rest)
    }

    /// Reads an unsigned LEB128 integer.
    pub fn read_uleb128_u64(&mut self) -> (res: Result<u64, DecodeError>)
        requires
            old(self).wf(),
        ensures
            old(self).read_as(
                final(self),
                res,
                match uleb_at(old(self).data(), old(self).pos()) {
                    Ok((v, n)) => Ok((v as u64, n)),
                    Err(e) => Err(e),
                },
            ),
    {
        self.read_uleb_digits(0)
    }

    fn read_sleb_digits(&mut self, k: u8) -> (res: Result<i64, DecodeError>)
        requires
            old(self).wf(),
            k <= 9,
        ensures
            old(self).read_as(
                final(self),
                res,
                match sleb_from(old(self).data(), old(self).pos(), k as nat) {
                    Ok((v, n)) => Ok((v as i64, n)),
                    Err(e) => Err(e),
                },
            ),
            res matches Ok(v) ==> -sleb_limit(k as nat) <= v < sleb_limit(k as nat),
        decreases 10 - k,
    {
        proof {
            lemma_sleb_from_bounds(self.data(), self.pos(), k as nat);
            lemma_sleb_limit_max(k as nat);
        }
        let b = self.read_u8()?;
        if k >= 9 && b != 0 && b != 127 {
            return Err(DecodeError::InvalidVarint);
        }
        if b < 64 {
            return Ok(b as i64);
        }
        if b < 128 {
            return Ok(b as i64 - 128);
        }
        proof {
            lemma_sleb_limit_max((k + 1) as nat);
            lemma_sleb_from_bounds(self.data(), self.pos(), (k + 1) as nat);
        }
        let rest = self.read_sleb_digits(k + 1)?;
        Ok(128 * rest + (b - 128) as i64)
    }

    /// Reads a signed LEB128 integer.
    pub fn read_sleb128_i64(&mut self) -> (res: Result<i64, DecodeError>)
        requires
            old(self).wf(),
        ensures
            old(self).read_as(
                final(self),
                res,
                match sleb_at(old(self).data(), old(self).pos()) {
                    Ok((v, n)) => Ok((v as i64, n)),
                    Err(e) => Err(e),
                },
            ),
    {
        self.read_sleb_digits(0)
    }

    /// Reads an unsigned LEB128 integer that must fit in a `u32`.
    pub fn read_u32(&mut self) -> (res: Result<u32, DecodeError>)
        requires
            old(self).wf(),
        ensures
            old(self).read_as(final(self), res, u32_at(old(self).data(), old(self).pos())),
    {
        proof {
            lemma_uleb_at_bounds(self.data(), self.pos());
        }
        let v = self.read_uleb128_u64()?;
        if v <= u32::MAX as u64 {
            Ok(v as u32)
        } else {
            Err(DecodeError::OutOfBounds)
        }
    }
}

/// Reads a length.
pub fn read_usize(r: &mut Reader<'_>) -> (res: Result<usize, DecodeError>)
    requires
        old(r).wf(),
    ensures
        old(r).read_as(
            final(r),
            res,
            match usize_at(old(r).data(), old(r).pos()) {
                Ok((v, n)) => Ok((v as usize, n)),
                Err(e) => Err(e),
            },
        ),
{
    proof {
        lemma_uleb_at_bounds(r.data(), r.pos());
    }
    let v = r.read_uleb128_u64()?;
    if v <= usize::MAX as u64 {
        Ok(v as usize)
    } else {
        Err(DecodeError::OutOfBounds)
    }
}

// ---------------------------------------------------------------------------------------------
// Writer.
// ---------------------------------------------------------------------------------------------

/// Appends the unsigned LEB128 encoding of `v` to `out`.
pub fn write_uleb128_u64(out: &mut Vec<u8>, v: u64)
    ensures
        final(out)@ == old(out)@ + uleb(v as nat),
    decreases v,
{
    if v < 128 {
        out.push(v as u8);
        assert(out@ =~= old(out)@ + uleb(v as nat));
    } else {
        out.push((v % 128 + 128) as u8);
        let ghost mid = out@;
        write_uleb128_u64(out, v / 128);
        assert(out@ =~= old(out)@ + uleb(v as nat));
    }
}

/// Appends the signed LEB128 encoding of `v` to `out`.
pub fn write_sleb128_i64(out: &mut Vec<u8>, v: i64)
    ensures
        final(out)@ == old(out)@ + sleb(v as int),
    decreases (if v >= 0 { v as int } else { -v }),
{
    let mut low: i64 = v % 128;
    let mut rest: i64 = v / 128;
    if low < 0 {
        low = low + 128;
        rest = rest - 1;
    }
    assert(low == v as int % 128 && rest == v as int / 128);
    if -64 <= v && v < 64 {
        out.push(low as u8);
        assert(out@ =~= old(out)@ + sleb(v as int));
    } else {
        out.push((low + 128) as u8);
        write_sleb128_i64(out, rest);
        assert(out@ =~= old(out)@ + sleb(v as int));
    }
}

/// A growing byte string.
pub struct Writer {
    bytes: Vec<u8>,
}

impl View for Writer {
    type V = Seq<u8>;

    closed spec fn view(&self) -> Seq<u8> {
        self.bytes@
    }
}

impl Writer {
    /// An empty writer.
    pub fn new() -> (w: Self)
        ensures
            w@ == Seq::<u8>::empty(),
    {
        Writer { bytes: Vec::new() }
    }

    /// The bytes written so far.
    pub fn as_slice(&self) -> (s: &[u8])
        ensures
            s@ == self@,
    {
        self.bytes.as_slice()
    }

    /// The bytes written.
    pub fn into_vec(self) -> (v: Vec<u8>)
        ensures
            v@ == self@,
    {
        self.bytes
    }

    /// Writes one byte.
    pub fn write_u8(&mut self, b: u8)
        ensures
            final(self)@ == old(self)@ + seq![b],
    {
        self.bytes.push(b);
        assert(self@ =~= old(self)@ + seq![b]);
    }

    /// Writes a run of bytes.
    pub fn write_bytes(&mut self, run: &[u8])
        ensures
            final(self)@ == old(self)@ + run@,
    {
        self.bytes.extend_from_slice(run);
        assert(self@ =~= old(self)@ + run@);
    }

    fn write_le(&mut self, v: u64, width: u8)
        ensures
            final(self)@ == old(self)@ + le(v as nat, width as nat),
        decreases width,
    {
        if width == 0 {
            assert(self@ =~= old(self)@ + le(v as nat, width as nat));
        } else {
            self.bytes.push((v % 256) as u8);
            self.write_le(v / 256, width - 1);
            assert(self@ =~= old(self)@ + le(v as nat, width as nat));
        }
    }

    /// Writes a 16-bit little-endian integer.
    pub fn write_u16_le(&mut self, v: u16)
        ensures
            final(self)@ == old(self)@ + le(v as nat, 2),
    {
        self.write_le(v as u64, 2);
    }

    /// Writes a 64-bit little-endian integer.
    pub fn write_u64_le(&mut self, v: u64)
        ensures
            final(self)@ == old(self)@ + le(v as nat, 8),
    {
        self.write_le(v, 8);
    }

    /// Writes a byte string with its length before it.
    pub fn write_blob(&mut self, run: &[u8])
        ensures
            final(self)@ == old(self)@ + blob(run@),
    {
        self.write_uleb128_u64(run.len() as u64);
        self.write_bytes(run);
        assert(self@ =~= old(self)@ + blob(run@));
    }

    /// Writes an unsigned LEB128 integer.
    pub fn write_uleb128_u64(&mut self, v: u64)
        ensures
            final(self)@ == old(self)@ + uleb(v as nat),
    {
        write_uleb128_u64(&mut self.bytes, v);
    }

    /// Writes a signed LEB128 integer.
    pub fn write_sleb128_i64(&mut self, v: i64)
        ensures
            final(self)@ == old(self)@ + sleb(v as int),
    {
        write_sleb128_i64(&mut self.bytes, v);
    }
}

} // verus!
