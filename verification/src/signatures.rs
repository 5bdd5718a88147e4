//! What the hash of a signature tells apart.

use vstd::prelude::*;

use crate::host;
use crate::program::{HostTypeId, ValueType};
use crate::wire;

verus! {

proof fn lemma_le_injective(a: nat, b: nat, width: nat)
    requires
        wire::le(a, width) == wire::le(b, width),
        a < vstd::arithmetic::power::pow(256, width),
        b < vstd::arithmetic::power::pow(256, width),
    ensures
        a == b,
    decreases width,
{
    reveal(vstd::arithmetic::power::pow);
    if width > 0 {
        let p = vstd::arithmetic::power::pow(256, (width - 1) as nat);
        let x = wire::le(a / 256, (width - 1) as nat);
        let y = wire::le(b / 256, (width - 1) as nat);
        assert(wire::le(a, width)[0] == (a % 256) as u8);
        assert(wire::le(b, width)[0] == (b % 256) as u8);
        assert(wire::le(a, width).drop_first() =~= x);
        assert(wire::le(b, width).drop_first() =~= y);
        assert(a / 256 < p && b / 256 < p) by (nonlinear_arith)
            requires
                a < 256 * p,
                b < 256 * p,
        ;
        lemma_le_injective(a / 256, b / 256, (width - 1) as nat);
    }
}

proof fn lemma_le_len(a: nat, width: nat)
    ensures
        wire::le(a, width).len() == width,
    decreases width,
{
    if width > 0 {
        lemma_le_len(a / 256, (width - 1) as nat);
    }
}

proof fn lemma_powers()
    ensures
        vstd::arithmetic::power::pow(256, 4) == 0x1_0000_0000,
        vstd::arithmetic::power::pow(256, 8) == 0x1_0000_0000_0000_0000,
{
    reveal(vstd::arithmetic::power::pow);
    reveal_with_fuel(vstd::arithmetic::power::pow, 9);
}

/// Two sequences that are put together of parts of which the first are equally long have the same
/// parts where they are equal.
proof fn lemma_parts<T>(a: Seq<T>, x: Seq<T>, b: Seq<T>, y: Seq<T>)
    requires
        a + x == b + y,
        a.len() == b.len(),
    ensures
        a == b,
        x == y,
{
    assert(a =~= (a + x).take(a.len() as int));
    assert(b =~= (b + y).take(b.len() as int));
    assert(x =~= (a + x).skip(a.len() as int));
    assert(y =~= (b + y).skip(b.len() as int));
}

proof fn lemma_type_injective(t: ValueType, u: ValueType, x: Seq<u8>, y: Seq<u8>)
    requires
        host::value_type_bytes(t) + x == host::value_type_bytes(u) + y,
    ensures
        t == u,
        x == y,
{
    let a = host::value_type_bytes(t);
    let b = host::value_type_bytes(u);
    assert((a + x)[0] == host::value_type_tag(t));
    assert((b + y)[0] == host::value_type_tag(u));
    lemma_powers();
    if let ValueType::Obj(h) = t {
        assert(u is Obj);
        let g = u->Obj_0;
        lemma_le_len(h.0 as nat, 8);
        lemma_le_len(g.0 as nat, 8);
        lemma_parts(a, x, b, y);
        assert(wire::le(h.0 as nat, 8) =~= a.drop_first());
        assert(wire::le(g.0 as nat, 8) =~= b.drop_first());
        lemma_le_injective(h.0 as nat, g.0 as nat, 8);
    } else {
        assert(t == u);
        lemma_parts(a, x, b, y);
    }
}

proof fn lemma_types_front(ts: Seq<ValueType>, n: nat)
    requires
        0 < n <= ts.len(),
    ensures
        wire::cat(n, host::value_type_enc(ts)) == host::value_type_bytes(ts[0]) + wire::cat(
            (n - 1) as nat,
            host::value_type_enc(ts.drop_first()),
        ),
    decreases n,
{
    let e = host::value_type_enc(ts);
    let f = host::value_type_enc(ts.drop_first());
    if n == 1 {
        assert(wire::cat(0, e) =~= Seq::empty());
        assert(wire::cat(0, f) =~= Seq::empty());
        assert(wire::cat(1, e) =~= e(0));
    } else {
        lemma_types_front(ts, (n - 1) as nat);
        assert(e(n - 1) == f(n - 2));
        assert(wire::cat(n, e) =~= host::value_type_bytes(ts[0]) + (wire::cat((n - 2) as nat, f)
            + f(n - 2)));
    }
}

proof fn lemma_types_injective(ts: Seq<ValueType>, us: Seq<ValueType>, x: Seq<u8>, y: Seq<u8>)
    requires
        ts.len() == us.len(),
        host::value_types_bytes(ts) + x == host::value_types_bytes(us) + y,
    ensures
        ts == us,
        x == y,
    decreases ts.len(),
{
    if ts.len() == 0 {
        assert(host::value_types_bytes(ts) + x =~= x);
        assert(host::value_types_bytes(us) + y =~= y);
        assert(ts =~= us);
    } else {
        lemma_types_front(ts, ts.len());
        lemma_types_front(us, us.len());
        let tr = ts.drop_first();
        let ur = us.drop_first();
        let a = host::value_types_bytes(tr);
        let b = host::value_types_bytes(ur);
        assert(host::value_types_bytes(ts) + x =~= host::value_type_bytes(ts[0]) + (a + x));
        assert(host::value_types_bytes(us) + y =~= host::value_type_bytes(us[0]) + (b + y));
        lemma_type_injective(ts[0], us[0], a + x, b + y);
        lemma_types_injective(tr, ur, x, y);
        assert(ts =~= seq![ts[0]] + tr);
        assert(us =~= seq![us[0]] + ur);
    }
}

/// The canonical bytes of a signature determine it: no two signatures with fewer than `2^32`
/// argument types and return types have the same.
pub proof fn law_signature_bytes_determine(
    args: Seq<ValueType>,
    rets: Seq<ValueType>,
    args2: Seq<ValueType>,
    rets2: Seq<ValueType>,
)
    requires
        args.len() <= u32::MAX,
        rets.len() <= u32::MAX,
        args2.len() <= u32::MAX,
        rets2.len() <= u32::MAX,
        host::sig_bytes(args, rets) == host::sig_bytes(args2, rets2),
    ensures
        args == args2,
        rets == rets2,
{
    lemma_powers();
    let p = host::sig_prefix();
    let na = wire::le(args.len() as nat, 4);
    let nb = wire::le(args2.len() as nat, 4);
    let ra = wire::le(rets.len() as nat, 4);
    let rb = wire::le(rets2.len() as nat, 4);
    lemma_le_len(args.len() as nat, 4);
    lemma_le_len(args2.len() as nat, 4);
    lemma_le_len(rets.len() as nat, 4);
    lemma_le_len(rets2.len() as nat, 4);
    let ta = host::value_types_bytes(args);
    let tb = host::value_types_bytes(args2);
    let ua = host::value_types_bytes(rets);
    let ub = host::value_types_bytes(rets2);
    assert(host::sig_bytes(args, rets) =~= p + (na + (ta + (ra + ua))));
    assert(host::sig_bytes(args2, rets2) =~= p + (nb + (tb + (rb + ub))));
    lemma_parts(p, na + (ta + (ra + ua)), p, nb + (tb + (rb + ub)));
    lemma_parts(na, ta + (ra + ua), nb, tb + (rb + ub));
    lemma_le_injective(args.len() as nat, args2.len() as nat, 4);
    lemma_types_injective(args, args2, ra + ua, rb + ub);
    lemma_parts(ra, ua, rb, ub);
    lemma_le_injective(rets.len() as nat, rets2.len() as nat, 4);
    assert(ua + Seq::<u8>::empty() =~= ub + Seq::<u8>::empty());
    lemma_types_injective(rets, rets2, Seq::empty(), Seq::empty());
}

/// What a signature is made of, read from its front.
pub open spec fn spelled(ts: Seq<ValueType>) -> Seq<u8>
    decreases ts.len(),
{
    if ts.len() == 0 {
        seq![]
    } else {
        (match ts[0] {
            ValueType::Unit => seq![0u8],
            ValueType::Bool => seq![1u8],
            ValueType::I64 => seq![2u8],
            ValueType::U64 => seq![3u8],
            ValueType::F64 => seq![4u8],
            ValueType::Decimal => seq![5u8],
            ValueType::Bytes => seq![6u8],
            ValueType::Str => seq![7u8],
            ValueType::Obj(HostTypeId(n)) => seq![8u8] + Seq::new(
                8,
                |k: int| ((n as int / vstd::arithmetic::power::pow(256, k as nat)) % 256) as u8,
            ),
            ValueType::Agg => seq![9u8],
            ValueType::Func => seq![10u8],
        }) + spelled(ts.drop_first())
    }
}

/// The four bytes of a count, the lowest first.
pub open spec fn count_bytes(n: nat) -> Seq<u8> {
    seq![
        (n % 256) as u8,
        (n / 256 % 256) as u8,
        (n / 65536 % 256) as u8,
        (n / 16777216 % 256) as u8,
    ]
}

proof fn lemma_le_digits(v: nat, width: nat, k: nat)
    requires
        k < width,
    ensures
        wire::le(v, width).len() == width,
        wire::le(v, width)[k as int] == ((v as int / vstd::arithmetic::power::pow(256, k)) % 256)
            as u8,
    decreases width,
{
    reveal(vstd::arithmetic::power::pow);
    lemma_le_len(v, width);
    if k > 0 {
        let p = vstd::arithmetic::power::pow(256, (k - 1) as nat);
        lemma_le_digits(v / 256, (width - 1) as nat, (k - 1) as nat);
        vstd::arithmetic::power::lemma_pow_positive(256, (k - 1) as nat);
        vstd::arithmetic::div_mod::lemma_div_denominator(v as int, 256, p);
        assert(wire::le(v, width)[k as int] == wire::le(v / 256, (width - 1) as nat)[k - 1]);
    } else {
        assert(v as int / 1 == v);
    }
}

proof fn lemma_count(n: nat)
    ensures
        wire::le(n, 4) == count_bytes(n),
{
    reveal_with_fuel(wire::le, 5);
    assert(n / 256 / 256 == n / 65536 && n / 256 / 256 / 256 == n / 16777216);
    assert(wire::le(n, 4) =~= count_bytes(n));
}

proof fn lemma_spelled(ts: Seq<ValueType>)
    ensures
        host::value_types_bytes(ts) == spelled(ts),
    decreases ts.len(),
{
    if ts.len() > 0 {
        lemma_types_front(ts, ts.len());
        lemma_spelled(ts.drop_first());
        if let ValueType::Obj(HostTypeId(n)) = ts[0] {
            let l = Seq::new(
                8,
                |k: int| ((n as int / vstd::arithmetic::power::pow(256, k as nat)) % 256) as u8,
            );
            lemma_le_len(n as nat, 8);
            assert forall|k: int| 0 <= k < 8 implies wire::le(n as nat, 8)[k] == l[k] by {
                lemma_le_digits(n as nat, 8, k as nat);
            }
            assert(wire::le(n as nat, 8) =~= l);
        } else {
            assert(host::value_type_bytes(ts[0]) =~= seq![host::value_type_tag(ts[0])]);
        }
    }
}

/// The canonical bytes of a signature are the name and version of the format, the number of
/// argument types and all of them in order, and the number of return types and all of them in
/// order.
pub proof fn law_signature_bytes(args: Seq<ValueType>, rets: Seq<ValueType>)
    requires
        args.len() <= u32::MAX,
        rets.len() <= u32::MAX,
    ensures
        host::sig_bytes(args, rets) == seq![
            'e' as u8,
            'x' as u8,
            'e' as u8,
            'c' as u8,
            'u' as u8,
            't' as u8,
            'i' as u8,
            'o' as u8,
            'n' as u8,
            '_' as u8,
            't' as u8,
            'a' as u8,
            'p' as u8,
            'e' as u8,
            ':' as u8,
            'v' as u8,
            '1' as u8,
            0u8,
        ] + count_bytes(args.len()) + spelled(args) + count_bytes(rets.len()) + spelled(rets),
{
    lemma_count(args.len());
    lemma_count(rets.len());
    lemma_spelled(args);
    lemma_spelled(rets);
}

proof fn lemma_fold(h: u64, bytes: Seq<u8>)
    ensures
        host::fnv(h, bytes) == bytes.fold_left(
            h,
            |a: u64, b: u8| (((a ^ b as u64) * 0x100000001b3) % 0x1_0000_0000_0000_0000) as u64,
        ),
    decreases bytes.len(),
{
    if bytes.len() > 0 {
        lemma_fold(h, bytes.drop_last());
    }
}

/// The hash of a signature is FNV-1a over its canonical bytes: from the offset basis on, each byte
/// is put to the state by exclusive disjunction and the state is multiplied by the prime, modulo
/// `2^64`.
pub proof fn law_signature_hash(args: Seq<ValueType>, rets: Seq<ValueType>)
    ensures
        host::spec_sig_hash(args, rets).0 == host::sig_bytes(args, rets).fold_left(
            0xcbf29ce484222325u64,
            |a: u64, b: u8| (((a ^ b as u64) * 0x100000001b3) % 0x1_0000_0000_0000_0000) as u64,
        ),
{
    reveal(host::spec_sig_hash);
    lemma_fold(host::FNV_OFFSET, host::sig_bytes(args, rets));
}

} // verus!
