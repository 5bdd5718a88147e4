//! How numbers, positions and names are laid out.

use vstd::prelude::*;

use crate::names;
use crate::program::SpanEntry;
use crate::verify;
use crate::wire;

verus! {

/// The number that groups of seven bits stand for, the lowest first.
pub open spec fn groups(b: Seq<u8>) -> int
    decreases b.len(),
{
    if b.len() == 0 {
        0
    } else {
        b[0] as int % 128 + 128 * groups(b.drop_first())
    }
}

/// An unsigned number is written in groups of seven bits, the lowest first. Every byte but the last
/// has its high bit set, and there are no more than needed.
pub proof fn law_unsigned_groups(v: nat)
    ensures
        ({
            let b = wire::uleb(v);
            &&& b.len() > 0
            &&& groups(b) == v
            &&& b[b.len() - 1] < 128
            &&& forall|k: int| 0 <= k < b.len() - 1 ==> (#[trigger] b[k]) >= 128
            &&& b.len() > 1 ==> b[b.len() - 1] != 0
        }),
    decreases v,
{
    reveal_with_fuel(groups, 2);
    let b = wire::uleb(v);
    if v < 128 {
        assert(b.drop_first() =~= Seq::empty());
    } else {
        law_unsigned_groups(v / 128);
        let r = wire::uleb(v / 128);
        assert(b.drop_first() =~= r);
        assert forall|k: int| 0 <= k < b.len() - 1 implies (#[trigger] b[k]) >= 128 by {
            if k > 0 {
                assert(b[k] == r[k - 1]);
            }
        }
        assert(b[b.len() - 1] == r[r.len() - 1]);
    }
}

/// The number that groups of seven bits stand for in two's complement, the lowest first.
pub open spec fn signed_groups(b: Seq<u8>) -> int
    decreases b.len(),
{
    if b.len() == 0 {
        0
    } else if b.len() == 1 {
        if b[0] as int % 128 < 64 {
            b[0] as int % 128
        } else {
            b[0] as int % 128 - 128
        }
    } else {
        b[0] as int % 128 + 128 * signed_groups(b.drop_first())
    }
}

/// A signed number is written in groups of seven bits of its two's complement, the lowest first.
/// Every byte but the last has its high bit set.
pub proof fn law_signed_groups(v: int)
    ensures
        ({
            let b = wire::sleb(v);
            &&& b.len() > 0
            &&& signed_groups(b) == v
            &&& b[b.len() - 1] < 128
            &&& forall|k: int| 0 <= k < b.len() - 1 ==> (#[trigger] b[k]) >= 128
        }),
    decreases if v >= 0 { v } else { -v },
{
    let b = wire::sleb(v);
    if -64 <= v < 64 {
    } else {
        law_signed_groups(v / 128);
        let r = wire::sleb(v / 128);
        assert(b.drop_first() =~= r);
        assert forall|k: int| 0 <= k < b.len() - 1 implies (#[trigger] b[k]) >= 128 by {
            if k > 0 {
                assert(b[k] == r[k - 1]);
            }
        }
        assert(b[b.len() - 1] == r[r.len() - 1]);
        assert(b[0] as int % 128 == v % 128);
    }
}

/// A number of a fixed width is written byte by byte, the lowest first.
pub proof fn law_fixed_bytes(v: nat, width: nat)
    ensures
        wire::le(v, width).len() == width,
        width > 0 ==> wire::le(v, width)[0] == v % 256 && wire::le(v, width).drop_first()
            == wire::le(v / 256, (width - 1) as nat),
    decreases width,
{
    if width > 0 {
        law_fixed_bytes(v / 256, (width - 1) as nat);
        assert(wire::le(v, width).drop_first() =~= wire::le(v / 256, (width - 1) as nat));
    }
}

// ---------------------------------------------------------------------------------------------
// Spans.
// ---------------------------------------------------------------------------------------------

/// The position of span `k`: how far all spans up to it are behind each other.
pub open spec fn span_position(spans: Seq<SpanEntry>, k: int) -> int
    decreases k,
{
    if k <= 0 {
        spans[0].pc_delta as int
    } else {
        span_position(spans, k - 1) + spans[k].pc_delta
    }
}

proof fn lemma_positions(spans: Seq<SpanEntry>, i: int, j: int)
    requires
        0 <= i <= j < spans.len(),
    ensures
        0 <= span_position(spans, i) <= span_position(spans, j),
    decreases j,
{
    if i < j {
        lemma_positions(spans, i, j - 1);
    } else if j > 0 {
        lemma_positions(spans, j - 1, j - 1);
    }
}

proof fn lemma_span_from(spans: Seq<SpanEntry>, pc: u32, k: int, cur: int, out: Option<u64>, j: int)
    requires
        0 <= k <= j + 1 <= spans.len(),
        cur == if k == 0 {
            0
        } else {
            span_position(spans, k - 1)
        },
        0 <= j ==> span_position(spans, j) <= pc,
        j + 1 < spans.len() ==> span_position(spans, j + 1) > pc,
        k == j + 1 ==> out == if j >= 0 {
            Some(spans[j].span_id)
        } else {
            None
        },
    ensures
        verify::span_from(spans, k, cur, out, pc) == if j >= 0 {
            Some(spans[j].span_id)
        } else {
            None
        },
    decreases spans.len() - k,
{
    if k < spans.len() {
        assert(span_position(spans, k) == cur + spans[k].pc_delta);
        if k <= j {
            lemma_positions(spans, k, j);
            lemma_span_from(
                spans,
                pc,
                k + 1,
                cur + spans[k].pc_delta,
                Some(spans[k].span_id),
                j,
            );
        }
    }
}

/// The span at a position is the last one that starts there or before it; there is none before the
/// first.
pub proof fn law_span_at(spans: Seq<SpanEntry>, pc: u32, j: int)
    ensures
        0 <= j < spans.len() && span_position(spans, j) <= pc && (j + 1 < spans.len()
            ==> span_position(spans, j + 1) > pc) ==> verify::span_in(spans, pc) == Some(
            spans[j].span_id,
        ),
        spans.len() > 0 && span_position(spans, 0) > pc ==> verify::span_in(spans, pc) is None,
        spans.len() == 0 ==> verify::span_in(spans, pc) is None,
{
    if 0 <= j < spans.len() && span_position(spans, j) <= pc && (j + 1 < spans.len()
        ==> span_position(spans, j + 1) > pc) {
        lemma_span_from(spans, pc, 0, 0, None, j);
    }
    if spans.len() > 0 && span_position(spans, 0) > pc {
        lemma_span_from(spans, pc, 0, 0, None, -1);
    }
}

// ---------------------------------------------------------------------------------------------
// Order of names.
// ---------------------------------------------------------------------------------------------

/// Bytes come before others exactly where they are a proper start of the others, or are less in the
/// first place in which the two differ.
pub proof fn law_dictionary_order(a: Seq<u8>, b: Seq<u8>, k: int)
    requires
        0 <= k <= a.len(),
        k <= b.len(),
        a.take(k) == b.take(k),
        k < a.len() && k < b.len() ==> a[k] != b[k],
    ensures
        names::before(a, b) <==> k < b.len() && (k == a.len() || a[k] < b[k]),
    decreases k,
{
    if k > 0 {
        assert(a[0] == a.take(k)[0] && b[0] == b.take(k)[0]);
        let x = a.drop_first();
        let y = b.drop_first();
        assert(x.take(k - 1) =~= a.take(k).drop_first());
        assert(y.take(k - 1) =~= b.take(k).drop_first());
        law_dictionary_order(x, y, k - 1);
    }
}

} // verus!
