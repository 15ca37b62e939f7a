//! The interleaver: weaves the sequences of an aligned group, one bit of
//! each per level, into a single sequence.

use crate::align::{lemma_widest, uniform, widest};
use crate::bitvec::{all_bits, bits_of, vob_get, vob_len, vob_new, vob_resize, vob_set};
use vob::Vob;
use vstd::arithmetic::div_mod::{lemma_fundamental_div_mod_converse, lemma_multiply_divide_lt};
use vstd::prelude::*;

verus! {

/// The sequences of an aligned group woven into one: position `k` holds the
/// bit of level `k / n` of sequence `k % n`, where `n` is the number of
/// sequences.
pub open spec fn interleaved(seqs: Seq<Seq<bool>>) -> Seq<bool>
    recommends
        uniform(seqs, widest(seqs)),
{
    Seq::new(
        seqs.len() * widest(seqs),
        |k: int| seqs[k % (seqs.len() as int)][k / (seqs.len() as int)],
    )
}

/// A group whose sequences all have length `width` has that width, unless
/// it is empty.
pub proof fn lemma_uniform_width(seqs: Seq<Seq<bool>>, width: nat)
    requires
        uniform(seqs, width),
    ensures
        seqs.len() > 0 ==> widest(seqs) == width,
        uniform(seqs, widest(seqs)),
{
    lemma_widest(seqs);
}

/// Weaving `n` sequences of length `width` gives `n * width` bits.
pub proof fn lemma_interleaved_len(seqs: Seq<Seq<bool>>, width: nat)
    requires
        uniform(seqs, width),
    ensures
        interleaved(seqs).len() == seqs.len() * width,
{
    lemma_uniform_width(seqs, width);
    if seqs.len() == 0 {
        assert(0 * widest(seqs) == 0 * width) by (nonlinear_arith);
    }
}

/// Level by level: the bits of level `level` stand together, in the order of
/// the group, from position `level * n` on.
pub proof fn lemma_interleaved_at(seqs: Seq<Seq<bool>>, width: nat, level: int, j: int)
    requires
        uniform(seqs, width),
        0 <= level < width,
        0 <= j < seqs.len(),
    ensures
        0 <= level * seqs.len() + j < interleaved(seqs).len(),
        interleaved(seqs)[level * seqs.len() + j] == seqs[j][level],
{
    let n = seqs.len() as int;
    lemma_uniform_width(seqs, width);
    lemma_position(n, width as int, level, j);
}

/// Every bit of a level comes before every bit of a later level, whichever
/// sequences the two belong to: a change high up in one scalar moves the
/// index further than any change lower down in any scalar.
pub proof fn lemma_levels_in_order(n: nat, level: int, j: int, later: int, k: int)
    requires
        0 <= level < later,
        0 <= j < n,
        0 <= k < n,
    ensures
        level * n + j < later * n + k,
{
    assert(level * n + j < later * n + k) by (nonlinear_arith)
        requires
            0 <= level < later,
            0 <= j < n,
            0 <= k < n,
    ;
}

/// Weaving a single sequence gives that sequence.
pub proof fn lemma_interleaved_single(s: Seq<bool>)
    ensures
        interleaved(seq![s]) == s,
{
    let seqs = seq![s];
    assert(uniform(seqs, s.len()));
    lemma_uniform_width(seqs, s.len());
    assert(seqs.len() * widest(seqs) == s.len()) by (nonlinear_arith)
        requires
            seqs.len() == 1,
            widest(seqs) == s.len(),
    ;
    assert forall|k: int| 0 <= k < s.len() implies interleaved(seqs)[k] == s[k] by {
        assert(k % 1 == 0 && k / 1 == k);
    }
    assert(interleaved(seqs) =~= s);
}

/// Position `level * n + j` lies inside `n * width` and splits back into
/// `level` and `j`.
proof fn lemma_position(n: int, width: int, level: int, j: int)
    requires
        0 <= level < width,
        0 <= j < n,
    ensures
        0 <= level * n + j < n * width,
        (level * n + j) / n == level,
        (level * n + j) % n == j,
{
    assert(0 <= level * n + j < n * width) by (nonlinear_arith)
        requires
            0 <= level < width,
            0 <= j < n,
    ;
    lemma_fundamental_div_mod_converse(level * n + j, n, level, j);
}

/// Weaves the sequences of an aligned group into one, the most significant
/// level first and, inside a level, in the order of the group.
pub fn interleave(seqs: &Vec<Vob<usize>>) -> (out: Vob<usize>)
    requires
        uniform(all_bits(seqs@), widest(all_bits(seqs@))),
        seqs@.len() * widest(all_bits(seqs@)) <= usize::MAX,
    ensures
        bits_of(out) == interleaved(all_bits(seqs@)),
        bits_of(out).len() == seqs@.len() * widest(all_bits(seqs@)),
        seqs@.len() == 1 ==> bits_of(out) == bits_of(seqs@[0]),
        forall|level: int, j: int|
            0 <= level < widest(all_bits(seqs@)) && 0 <= j < seqs@.len() ==> #[trigger] bits_of(
                out,
            )[level * seqs@.len() + j] == bits_of(seqs@[j])[level],
{
    let ghost all = all_bits(seqs@);
    let n = seqs.len();
    if n == 0 {
        let out = vob_new();
        proof {
            assert(bits_of(out) =~= interleaved(all));
        }
        return out;
    }
    let width = vob_len(&seqs[0]);
    proof {
        assert(all[0].len() == width);
        lemma_uniform_width(all, width as nat);
    }
    let total = n * width;
    let mut out = vob_new();
    vob_resize(&mut out, total, false);
    let mut i: usize = 0;
    let mut level: usize = 0;
    let mut j: usize = 0;
    while i < total
        invariant
            n == seqs.len(),
            n > 0,
            all == all_bits(seqs@),
            uniform(all, width as nat),
            total == n * width,
            i <= total,
            j < n,
            i == level * n + j,
            bits_of(out).len() == total,
            forall|k: int|
                0 <= k < total ==> #[trigger] bits_of(out)[k] == (k < i && all[k % (n as int)][k / (
                n as int)]),
        decreases total - i,
    {
        proof {
            lemma_fundamental_div_mod_converse(i as int, n as int, level as int, j as int);
            lemma_multiply_divide_lt(i as int, n as int, width as int);
            assert(all[j as int].len() == width);
        }
        if vob_get(&seqs[j], level) == Some(true) {
            vob_set(&mut out, i, true);
        }
        i = i + 1;
        j = j + 1;
        if j == n {
            j = 0;
            proof {
                assert((level + 1) * n == level * n + n) by (nonlinear_arith);
            }
            level = level + 1;
        }
    }
    proof {
        assert(bits_of(out) =~= interleaved(all));
        if n == 1 {
            assert(all =~= seq![bits_of(seqs@[0])]);
            lemma_interleaved_single(bits_of(seqs@[0]));
        }
        assert forall|level: int, j: int|
            0 <= level < widest(all) && 0 <= j < seqs@.len() implies #[trigger] bits_of(
            out,
        )[level * seqs@.len() + j] == bits_of(seqs@[j])[level] by {
            lemma_interleaved_at(all, width as nat, level, j);
        }
    }
    out
}

} // verus!
