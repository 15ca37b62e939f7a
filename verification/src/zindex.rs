//! The entry points: the z-order index of one scalar, of a list of scalars,
//! and of a tuple of two, three or four scalars.

use crate::align::{
    align, aligned, lemma_align_uniform_group, lemma_aligned_uniform, lemma_widest, widest,
};
use crate::bitvec::{all_bits, bits_of};
use crate::canonical::{canonical, canonical_bits, lemma_span};
use crate::interleave::{interleave, interleaved, lemma_interleaved_single};
use crate::scalar::{BitSource, BitU8};
use vob::Vob;
use vstd::prelude::*;

verus! {

/// The canonical sequence of each scalar of a group, in the order of the
/// group; a scalar is given by the indices of its set bits.
pub open spec fn canonical_group(scalars: Seq<Seq<BitU8>>) -> Seq<Seq<bool>> {
    Seq::new(scalars.len(), |j: int| canonical_bits(scalars[j]))
}

/// The z-order index of a group of sequences: aligned, then interleaved.
pub open spec fn woven(seqs: Seq<Seq<bool>>) -> Seq<bool> {
    interleaved(aligned(seqs))
}

/// The z-order index of a group of scalars.
pub open spec fn z_order(scalars: Seq<Seq<BitU8>>) -> Seq<bool> {
    woven(canonical_group(scalars))
}

/// The length of the z-order index of a group of scalars: one bit of each
/// scalar for every level of the widest.
pub open spec fn z_order_len(scalars: Seq<Seq<BitU8>>) -> nat {
    scalars.len() * widest(canonical_group(scalars))
}

/// No canonical sequence is longer than 256 bits, so neither is the widest
/// of a group.
pub proof fn lemma_canonical_group_width(scalars: Seq<Seq<BitU8>>)
    ensures
        widest(canonical_group(scalars)) <= 256,
        z_order_len(scalars) <= scalars.len() * 256,
{
    let group = canonical_group(scalars);
    lemma_widest(group);
    if group.len() > 0 {
        let j = choose|j: int| 0 <= j < group.len() && (#[trigger] group[j]).len() == widest(group);
        lemma_span(scalars[j]);
    }
    assert(scalars.len() * widest(group) <= scalars.len() * 256) by (nonlinear_arith)
        requires
            widest(group) <= 256,
    ;
}

/// The z-order index of a single scalar is its canonical sequence.
pub proof fn lemma_z_order_single(indices: Seq<BitU8>)
    ensures
        z_order(seq![indices]) == canonical_bits(indices),
{
    let group = canonical_group(seq![indices]);
    let s = canonical_bits(indices);
    assert(group =~= seq![s]);
    lemma_align_uniform_group(group, s.len());
    lemma_interleaved_single(s);
}

/// Aligns a group of sequences and interleaves the result.
pub fn weave(seqs: &Vec<Vob<usize>>) -> (out: Vob<usize>)
    requires
        seqs@.len() * widest(all_bits(seqs@)) <= usize::MAX,
    ensures
        bits_of(out) == woven(all_bits(seqs@)),
        bits_of(out).len() == seqs@.len() * widest(all_bits(seqs@)),
{
    let even = align(seqs);
    proof {
        lemma_aligned_uniform(all_bits(seqs@));
        if seqs@.len() == 0 {
            assert(all_bits(even@) =~= all_bits(seqs@));
        }
    }
    interleave(&even)
}

/// What becomes of an enumeration of set bits: its canonical sequence, or
/// the failure of the source as it came.
pub fn encode(enumerated: Result<Vec<BitU8>, std::io::Error>) -> (r: Result<
    Vob<usize>,
    std::io::Error,
>)
    ensures
        match enumerated {
            Ok(indices) => r matches Ok(v) && bits_of(v) == canonical_bits(indices@),
            Err(e) => r matches Err(f) && f == e,
        },
{
    match enumerated {
        Ok(indices) => Ok(canonical(&indices)),
        Err(e) => Err(e),
    }
}

/// A single scalar with a z-order index: its canonical sequence.
pub trait Zdexed: Sized {
    /// The indices of the bits that are set in the scalar.
    spec fn indices(&self) -> Seq<BitU8>;

    /// Whether the index of this value cannot fail.
    spec fn succeeds(&self) -> bool;

    /// The canonical sequence of the scalar, or the failure of its source.
    fn z_index(self) -> (r: Result<Vob<usize>, std::io::Error>)
        ensures
            r matches Ok(v) ==> bits_of(v) == canonical_bits(self.indices()),
            self.succeeds() ==> r is Ok,
    ;
}

/// A list of scalars with a z-order index: their canonical sequences,
/// aligned and interleaved in the order of the list.
pub trait ZdexedIter: Sized {
    /// The scalars of the list, each as the indices of its set bits.
    spec fn scalars(&self) -> Seq<Seq<BitU8>>;

    /// Whether the index of this value cannot fail.
    spec fn succeeds(&self) -> bool;

    /// The index of the list, or the failure of the first scalar that
    /// fails. The index has to fit a vector of bits, whose length is a
    /// `usize`.
    fn z_index(self) -> (r: Result<Vob<usize>, std::io::Error>)
        requires
            z_order_len(self.scalars()) <= usize::MAX,
        ensures
            r matches Ok(v) ==> bits_of(v) == z_order(self.scalars()) && bits_of(v).len()
                == z_order_len(self.scalars()),
            self.succeeds() ==> r is Ok,
    ;
}

/// A tuple of scalars with a z-order index: as the list of its members,
/// first member first.
pub trait ZdexedTup: Sized {
    /// The members of the tuple, each as the indices of its set bits.
    spec fn scalars(&self) -> Seq<Seq<BitU8>>;

    /// Whether the index of this value cannot fail.
    spec fn succeeds(&self) -> bool;

    /// The index of the tuple, or the failure of the first member that
    /// fails.
    fn z_index(self) -> (r: Result<Vob<usize>, std::io::Error>)
        ensures
            r matches Ok(v) ==> bits_of(v) == z_order(self.scalars()) && bits_of(v).len()
                == z_order_len(self.scalars()),
            self.succeeds() ==> r is Ok,
    ;
}

impl<T: BitSource> Zdexed for T {
    open spec fn indices(&self) -> Seq<BitU8> {
        self.set_bits()
    }

    open spec fn succeeds(&self) -> bool {
        self.enumerates()
    }

    fn z_index(self) -> (r: Result<Vob<usize>, std::io::Error>) {
        encode(self.bit_indices())
    }
}

impl<U: Zdexed> ZdexedIter for Vec<U> {
    open spec fn scalars(&self) -> Seq<Seq<BitU8>> {
        Seq::new(self@.len(), |j: int| self@[j].indices())
    }

    open spec fn succeeds(&self) -> bool {
        forall|j: int| 0 <= j < self@.len() ==> (#[trigger] self@[j]).succeeds()
    }

    fn z_index(self) -> (r: Result<Vob<usize>, std::io::Error>) {
        let ghost items = self@;
        let ghost scalars = self.scalars();
        let mut parts: Vec<Vob<usize>> = Vec::new();
        for item in it: self.into_iter()
            invariant
                it.seq() == items,
                scalars == Seq::new(items.len(), |j: int| items[j].indices()),
                parts@.len() == it.index(),
                forall|j: int|
                    0 <= j < parts@.len() ==> bits_of(#[trigger] parts@[j]) == canonical_bits(
                        scalars[j],
                    ),
        {
            match item.z_index() {
                Ok(v) => {
                    parts.push(v);
                },
                Err(e) => {
                    return Err(e);
                },
            }
        }
        proof {
            assert(all_bits(parts@) =~= canonical_group(scalars));
        }
        Ok(weave(&parts))
    }
}

impl<A: Zdexed, B: Zdexed> ZdexedTup for (A, B) {
    open spec fn scalars(&self) -> Seq<Seq<BitU8>> {
        seq![self.0.indices(), self.1.indices()]
    }

    open spec fn succeeds(&self) -> bool {
        self.0.succeeds() && self.1.succeeds()
    }

    fn z_index(self) -> (r: Result<Vob<usize>, std::io::Error>) {
        let ghost scalars = self.scalars();
        let first = match self.0.z_index() {
            Ok(v) => v,
            Err(e) => {
                return Err(e);
            },
        };
        let second = match self.1.z_index() {
            Ok(v) => v,
            Err(e) => {
                return Err(e);
            },
        };
        let mut parts: Vec<Vob<usize>> = Vec::new();
        parts.push(first);
        parts.push(second);
        proof {
            assert(all_bits(parts@) =~= canonical_group(scalars));
            lemma_canonical_group_width(scalars);
        }
        Ok(weave(&parts))
    }
}

impl<T: Zdexed> ZdexedTup for (T, T, T) {
    open spec fn scalars(&self) -> Seq<Seq<BitU8>> {
        seq![self.0.indices(), self.1.indices(), self.2.indices()]
    }

    open spec fn succeeds(&self) -> bool {
        self.0.succeeds() && self.1.succeeds() && self.2.succeeds()
    }

    fn z_index(self) -> (r: Result<Vob<usize>, std::io::Error>) {
        let ghost scalars = self.scalars();
        let list = vec![self.0, self.1, self.2];
        proof {
            assert(list.scalars() =~= scalars);
            lemma_canonical_group_width(scalars);
        }
        ZdexedIter::z_index(list)
    }
}

impl<T: Zdexed> ZdexedTup for (T, T, T, T) {
    open spec fn scalars(&self) -> Seq<Seq<BitU8>> {
        seq![self.0.indices(), self.1.indices(), self.2.indices(), self.3.indices()]
    }

    open spec fn succeeds(&self) -> bool {
        self.0.succeeds() && self.1.succeeds() && self.2.succeeds() && self.3.succeeds()
    }

    fn z_index(self) -> (r: Result<Vob<usize>, std::io::Error>) {
        let ghost scalars = self.scalars();
        let list = vec![self.0, self.1, self.2, self.3];
        proof {
            assert(list.scalars() =~= scalars);
            lemma_canonical_group_width(scalars);
        }
        ZdexedIter::z_index(list)
    }
}

} // verus!
