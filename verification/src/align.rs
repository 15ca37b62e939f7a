//! The width aligner: brings the sequences of a group to one length by
//! putting `false` in front of the shorter ones.

use crate::bitvec::{all_bits, bits_of, vob_get, vob_len, vob_new, vob_resize, vob_set};
use vob::Vob;
use vstd::prelude::*;

verus! {

/// The greatest length among the sequences, and 0 for an empty group.
pub open spec fn widest(seqs: Seq<Seq<bool>>) -> nat
    decreases seqs.len(),
{
    if seqs.len() == 0 {
        0
    } else {
        let rest = widest(seqs.drop_last());
        if rest < seqs.last().len() {
            seqs.last().len()
        } else {
            rest
        }
    }
}

/// `s` with as many `false` in front as it takes to reach `width`.
pub open spec fn zero_extended(s: Seq<bool>, width: nat) -> Seq<bool>
    recommends
        s.len() <= width,
{
    Seq::new((width - s.len()) as nat, |p: int| false) + s
}

/// Every sequence of the group, extended to the width of the widest.
pub open spec fn aligned(seqs: Seq<Seq<bool>>) -> Seq<Seq<bool>> {
    Seq::new(seqs.len(), |j: int| zero_extended(seqs[j], widest(seqs)))
}

/// Whether every sequence of the group has length `width`.
pub open spec fn uniform(seqs: Seq<Seq<bool>>, width: nat) -> bool {
    forall|j: int| 0 <= j < seqs.len() ==> (#[trigger] seqs[j]).len() == width
}

/// No sequence is longer than the widest, and in a group that is not empty
/// one sequence has that length.
pub proof fn lemma_widest(seqs: Seq<Seq<bool>>)
    ensures
        forall|j: int| 0 <= j < seqs.len() ==> (#[trigger] seqs[j]).len() <= widest(seqs),
        seqs.len() > 0 ==> exists|j: int| 0 <= j < seqs.len() && (#[trigger] seqs[j]).len() == widest(seqs),
    decreases seqs.len(),
{
    if seqs.len() > 0 {
        let rest = seqs.drop_last();
        lemma_widest(rest);
        assert forall|j: int| 0 <= j < seqs.len() implies (#[trigger] seqs[j]).len() <= widest(
            seqs,
        ) by {
            if j < rest.len() {
                assert(rest[j] == seqs[j]);
            }
        }
        if widest(seqs) == seqs.last().len() {
            assert(seqs[seqs.len() - 1].len() == widest(seqs));
        } else {
            let j = choose|j: int| 0 <= j < rest.len() && (#[trigger] rest[j]).len() == widest(rest);
            assert(seqs[j].len() == widest(seqs));
        }
    }
}

/// Extending a sequence to the length that it has leaves it unchanged.
pub proof fn lemma_zero_extend_same_width(s: Seq<bool>)
    ensures
        zero_extended(s, s.len()) == s,
{
    assert(zero_extended(s, s.len()) =~= s);
}

/// An extended sequence has the asked length, ends with the sequence it came
/// from, and holds `false` at every position before that.
pub proof fn lemma_zero_extend_keeps_tail(s: Seq<bool>, width: nat)
    requires
        s.len() <= width,
    ensures
        zero_extended(s, width).len() == width,
        forall|p: int| 0 <= p < s.len() ==> zero_extended(s, width)[width - s.len() + p] == s[p],
        forall|p: int| 0 <= p < width - s.len() ==> !zero_extended(s, width)[p],
{
}

/// The aligned group has as many sequences as the group, each of the width
/// of the widest.
pub proof fn lemma_aligned_uniform(seqs: Seq<Seq<bool>>)
    ensures
        aligned(seqs).len() == seqs.len(),
        uniform(aligned(seqs), widest(seqs)),
        seqs.len() > 0 ==> widest(aligned(seqs)) == widest(seqs),
{
    lemma_widest(seqs);
    let a = aligned(seqs);
    assert forall|j: int| 0 <= j < a.len() implies (#[trigger] a[j]).len() == widest(seqs) by {
        lemma_zero_extend_keeps_tail(seqs[j], widest(seqs));
    }
    if seqs.len() > 0 {
        lemma_widest(a);
    }
}

/// Aligning a group whose sequences already share one length leaves every
/// sequence unchanged.
pub proof fn lemma_align_uniform_group(seqs: Seq<Seq<bool>>, width: nat)
    requires
        uniform(seqs, width),
    ensures
        aligned(seqs) == seqs,
{
    lemma_widest(seqs);
    assert forall|j: int| 0 <= j < seqs.len() implies #[trigger] aligned(seqs)[j] == seqs[j] by {
        lemma_zero_extend_same_width(seqs[j]);
    }
    assert(aligned(seqs) =~= seqs);
}

/// Aligning twice gives what aligning once gives.
pub proof fn lemma_align_idempotent(seqs: Seq<Seq<bool>>)
    ensures
        aligned(aligned(seqs)) == aligned(seqs),
{
    lemma_aligned_uniform(seqs);
    lemma_align_uniform_group(aligned(seqs), widest(seqs));
}

/// Extends one sequence to `width` by putting `false` in front of it.
pub fn zero_extend(seq: &Vob<usize>, width: usize) -> (out: Vob<usize>)
    requires
        bits_of(*seq).len() <= width,
    ensures
        bits_of(out) == zero_extended(bits_of(*seq), width as nat),
        bits_of(out).len() == width,
        bits_of(*seq).len() == width ==> bits_of(out) == bits_of(*seq),
{
    let len = vob_len(seq);
    let lead = width - len;
    let mut out = vob_new();
    vob_resize(&mut out, width, false);
    let mut p: usize = 0;
    while p < len
        invariant
            p <= len,
            len == bits_of(*seq).len(),
            lead + len == width,
            bits_of(out).len() == width,
            forall|q: int|
                0 <= q < width ==> #[trigger] bits_of(out)[q] == (lead <= q < lead + p && bits_of(
                    *seq,
                )[q - lead]),
        decreases len - p,
    {
        if vob_get(seq, p) == Some(true) {
            vob_set(&mut out, lead + p, true);
        }
        p = p + 1;
    }
    proof {
        assert(bits_of(out) =~= zero_extended(bits_of(*seq), width as nat));
        if len == width {
            lemma_zero_extend_same_width(bits_of(*seq));
        }
    }
    out
}

/// The greatest length among the sequences, and 0 for an empty group.
pub fn max_width(seqs: &Vec<Vob<usize>>) -> (width: usize)
    ensures
        width == widest(all_bits(seqs@)),
{
    let n = seqs.len();
    let mut width: usize = 0;
    let mut j: usize = 0;
    while j < n
        invariant
            n == seqs.len(),
            j <= n,
            width == widest(all_bits(seqs@).take(j as int)),
        decreases n - j,
    {
        let len = vob_len(&seqs[j]);
        proof {
            assert(all_bits(seqs@).take(j + 1).drop_last() == all_bits(seqs@).take(j as int));
        }
        if len > width {
            width = len;
        }
        j = j + 1;
    }
    proof {
        assert(all_bits(seqs@).take(n as int) == all_bits(seqs@));
    }
    width
}

/// Aligns a group: every sequence comes out at the width of the widest, in
/// the order of the group, with `false` in front of what it held.
pub fn align(seqs: &Vec<Vob<usize>>) -> (out: Vec<Vob<usize>>)
    ensures
        all_bits(out@) == aligned(all_bits(seqs@)),
        out@.len() == seqs@.len(),
        uniform(all_bits(out@), widest(all_bits(seqs@))),
{
    let n = seqs.len();
    let width = max_width(seqs);
    let mut out: Vec<Vob<usize>> = Vec::new();
    let mut j: usize = 0;
    proof {
        lemma_widest(all_bits(seqs@));
    }
    while j < n
        invariant
            n == seqs.len(),
            j <= n,
            width == widest(all_bits(seqs@)),
            forall|i: int|
                0 <= i < n ==> (#[trigger] all_bits(seqs@)[i]).len() <= widest(all_bits(seqs@)),
            out@.len() == j,
            forall|i: int|
                0 <= i < j ==> bits_of(#[trigger] out@[i]) == zero_extended(
                    bits_of(seqs@[i]),
                    width as nat,
                ),
        decreases n - j,
    {
        proof {
            assert(all_bits(seqs@)[j as int].len() <= width);
        }
        let extended = zero_extend(&seqs[j], width);
        out.push(extended);
        j = j + 1;
    }
    proof {
        assert(all_bits(out@) =~= aligned(all_bits(seqs@)));
        lemma_aligned_uniform(all_bits(seqs@));
    }
    out
}

} // verus!
