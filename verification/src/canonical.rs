//! The canonical encoder: from the indices of a scalar's set bits to the
//! shortest sequence of bits that holds them, most significant bit first.

use crate::bitvec::{bits_of, vob_new, vob_resize, vob_set};
use crate::scalar::{bit_set, has_bit, lemma_set_bits_below, set_bits_below, BitU8};
use vob::Vob;
use vstd::arithmetic::div_mod::{
    lemma_basic_div, lemma_div_pos_is_pos, lemma_fundamental_div_mod, lemma_mod_bound,
    lemma_multiply_divide_lt,
};
use vstd::arithmetic::power2::{lemma2_to64, lemma_pow2_pos, lemma_pow2_unfold, pow2};
use vstd::prelude::*;

verus! {

/// One more than the highest of the indices, and 0 where there is none.
pub open spec fn span(indices: Seq<BitU8>) -> nat
    decreases indices.len(),
{
    if indices.len() == 0 {
        0
    } else {
        let rest = span(indices.drop_last());
        let top = (indices.last().0 + 1) as nat;
        if rest < top {
            top
        } else {
            rest
        }
    }
}

/// The length of the canonical sequence: the span of the indices, and 1
/// for a scalar with no bit set.
pub open spec fn canonical_width(indices: Seq<BitU8>) -> nat {
    if span(indices) == 0 {
        1
    } else {
        span(indices)
    }
}

/// The canonical sequence of a scalar whose set bits are at `indices`:
/// position 0 stands for the highest bit, the last position for bit 0.
pub open spec fn canonical_bits(indices: Seq<BitU8>) -> Seq<bool> {
    Seq::new(
        canonical_width(indices),
        |p: int| has_bit(indices, canonical_width(indices) - 1 - p),
    )
}

/// Whether `m` is the highest of the indices.
pub open spec fn highest(indices: Seq<BitU8>, m: int) -> bool {
    has_bit(indices, m) && forall|i: int| has_bit(indices, i) ==> i <= m
}

/// The span lies above every index, is itself reached where there is an
/// index at all, and is at most 256.
pub proof fn lemma_span(indices: Seq<BitU8>)
    ensures
        span(indices) <= 256,
        forall|i: int| has_bit(indices, i) ==> 0 <= i < span(indices),
        span(indices) > 0 ==> has_bit(indices, span(indices) - 1),
        span(indices) == 0 <==> indices.len() == 0,
    decreases indices.len(),
{
    if indices.len() > 0 {
        let rest = indices.drop_last();
        lemma_span(rest);
        assert forall|i: int| has_bit(indices, i) implies 0 <= i < span(indices) by {
            let k = choose|k: int| 0 <= k < indices.len() && (#[trigger] indices[k]).0 == i;
            if k < rest.len() {
                assert(rest[k].0 == i);
                assert(has_bit(rest, i));
            }
        }
        if span(indices) == span(rest) && span(rest) > 0 {
            let i = span(rest) - 1;
            let k = choose|k: int| 0 <= k < rest.len() && (#[trigger] rest[k]).0 == i;
            assert(indices[k].0 == i);
        } else {
            assert(indices[indices.len() - 1].0 == span(indices) - 1);
        }
    }
}

/// A scalar with no bit set has the one-element sequence `[false]`.
pub proof fn lemma_no_bit_set(indices: Seq<BitU8>)
    requires
        forall|i: int| !has_bit(indices, i),
    ensures
        canonical_bits(indices) == seq![false],
{
    lemma_span(indices);
    assert(canonical_bits(indices) =~= seq![false]);
}

/// A scalar whose highest set bit is `m` has a sequence of length `m + 1`
/// that starts with `true` and holds at position `m - i` whether bit `i` is
/// set, for every `i` up to `m`.
pub proof fn lemma_highest_bit(indices: Seq<BitU8>, m: int)
    requires
        highest(indices, m),
    ensures
        canonical_bits(indices).len() == m + 1,
        canonical_bits(indices)[0],
        forall|i: int| 0 <= i <= m ==> canonical_bits(indices)[m - i] == has_bit(indices, i),
{
    lemma_span(indices);
}

/// A number below `2^n` whose bits from `m` up are clear lies below `2^m`.
proof fn lemma_high_bits_clear(x: nat, m: nat, n: nat)
    requires
        m <= n,
        x < pow2(n),
        forall|i: nat| m <= i < n ==> !bit_set(x, i),
    ensures
        x < pow2(m),
    decreases n - m,
{
    if m < n {
        let k = (n - 1) as nat;
        let p = pow2(k) as int;
        lemma_pow2_pos(k);
        lemma_pow2_unfold(n);
        // The quotient by `2^k` is below 2 and not odd, so it is 0.
        assert(!bit_set(x, k));
        lemma_multiply_divide_lt(x as int, p, 2);
        lemma_div_pos_is_pos(x as int, p);
        assert(x as int / p == 0);
        lemma_fundamental_div_mod(x as int, p);
        lemma_mod_bound(x as int, p);
        lemma_high_bits_clear(x, m, k);
    }
}

/// The canonical sequence of a number below `2^n` is its binary notation:
/// `[false]` for 0, and otherwise as many digits as the number has, the
/// most significant first.
pub proof fn lemma_canonical_of_number(x: nat, n: nat)
    requires
        n <= 256,
        x < pow2(n),
    ensures
        x == 0 ==> canonical_bits(set_bits_below(x, n)) == seq![false],
        x > 0 ==> pow2((canonical_bits(set_bits_below(x, n)).len() - 1) as nat) <= x < pow2(
            canonical_bits(set_bits_below(x, n)).len(),
        ),
        canonical_bits(set_bits_below(x, n)).len() <= if n == 0 {
            1
        } else {
            n
        },
        forall|p: int|
            0 <= p < canonical_bits(set_bits_below(x, n)).len() ==> canonical_bits(
                set_bits_below(x, n),
            )[p] == bit_set(x, (canonical_bits(set_bits_below(x, n)).len() - 1 - p) as nat),
{
    let indices = set_bits_below(x, n);
    let len = canonical_bits(indices).len();
    lemma_set_bits_below(x, n);
    lemma_span(indices);
    lemma2_to64();
    if span(indices) == 0 {
        assert forall|i: nat| 0 <= i < n implies !bit_set(x, i) by {
            assert(!has_bit(indices, i as int));
        }
        lemma_high_bits_clear(x, 0, n);
        lemma_no_bit_set(indices);
    } else {
        let m = (span(indices) - 1) as nat;
        assert(has_bit(indices, m as int));
        assert forall|i: nat| m + 1 <= i < n implies !bit_set(x, i) by {
            assert(!has_bit(indices, i as int));
        }
        lemma_high_bits_clear(x, m + 1, n);
        lemma_pow2_pos(m);
        if x < pow2(m) {
            lemma_basic_div(x as int, pow2(m) as int);
        }
        assert forall|p: int| 0 <= p < len implies canonical_bits(indices)[p] == bit_set(
            x,
            (len - 1 - p) as nat,
        ) by {
            assert(has_bit(indices, len - 1 - p) <==> bit_set(x, (len - 1 - p) as nat));
        }
    }
}

/// Encodes a scalar, given by the indices of its set bits in any order, as
/// its canonical sequence of bits.
pub fn canonical(indices: &Vec<BitU8>) -> (out: Vob<usize>)
    ensures
        bits_of(out) == canonical_bits(indices@),
        (forall|i: int| !has_bit(indices@, i)) ==> bits_of(out) == seq![false],
        forall|m: int| #[trigger]
            highest(indices@, m) ==> bits_of(out).len() == m + 1 && bits_of(out)[0],
        forall|m: int, i: int|
            #![trigger highest(indices@, m), has_bit(indices@, i)]
            highest(indices@, m) && 0 <= i <= m ==> bits_of(out)[m - i] == has_bit(indices@, i),
{
    let n = indices.len();
    let mut top: usize = 0;
    let mut k: usize = 0;
    while k < n
        invariant
            n == indices.len(),
            k <= n,
            top <= 255,
            top + 1 == canonical_width(indices@.take(k as int)),
        decreases n - k,
    {
        let idx = indices[k].0 as usize;
        if idx > top {
            top = idx;
        }
        proof {
            assert(indices@.take(k + 1).drop_last() == indices@.take(k as int));
        }
        k = k + 1;
    }
    let width = top + 1;
    let mut out = vob_new();
    vob_resize(&mut out, width, false);
    proof {
        assert(indices@.take(n as int) == indices@);
        lemma_span(indices@);
    }
    k = 0;
    while k < n
        invariant
            n == indices.len(),
            k <= n,
            width == canonical_width(indices@),
            bits_of(out).len() == width,
            forall|i: int| has_bit(indices@, i) ==> 0 <= i < width,
            forall|p: int|
                0 <= p < width ==> #[trigger] bits_of(out)[p] == has_bit(
                    indices@.take(k as int),
                    width - 1 - p,
                ),
        decreases n - k,
    {
        let idx = indices[k].0 as usize;
        proof {
            assert(has_bit(indices@, idx as int));
        }
        vob_set(&mut out, width - 1 - idx, true);
        proof {
            let before = indices@.take(k as int);
            let after = indices@.take(k + 1);
            assert forall|p: int| 0 <= p < width implies #[trigger] bits_of(out)[p] == has_bit(
                after,
                width - 1 - p,
            ) by {
                let i = width - 1 - p;
                if has_bit(before, i) {
                    let j = choose|j: int| 0 <= j < before.len() && (#[trigger] before[j]).0 == i;
                    assert(after[j].0 == i);
                }
                if has_bit(after, i) && i != idx {
                    let j = choose|j: int| 0 <= j < after.len() && (#[trigger] after[j]).0 == i;
                    assert(before[j].0 == i);
                }
                if i == idx {
                    assert(after[k as int].0 == i);
                }
            }
        }
        k = k + 1;
    }
    proof {
        assert(indices@.take(n as int) == indices@);
        assert(bits_of(out) =~= canonical_bits(indices@));
        if forall|i: int| !has_bit(indices@, i) {
            lemma_no_bit_set(indices@);
        }
        assert forall|m: int| #[trigger] highest(indices@, m) implies bits_of(out).len() == m + 1
            && bits_of(out)[0] && forall|i: int|
            0 <= i <= m ==> bits_of(out)[m - i] == has_bit(indices@, i) by {
            lemma_highest_bit(indices@, m);
        }
    }
    out
}

} // verus!
