//! Scalars, and the indices of the bits that are set in them.

use vstd::arithmetic::div_mod::lemma_div_denominator;
use vstd::arithmetic::power2::{lemma2_to64, lemma_pow2_pos, lemma_pow2_unfold, pow2};
use vstd::prelude::*;

verus! {

/// The index of one bit of a scalar; index 0 is the least significant bit.
#[derive(Copy, Clone, Debug)]
pub struct BitU8(pub u8);

/// Whether `i` occurs among `indices`.
pub open spec fn has_bit(indices: Seq<BitU8>, i: int) -> bool {
    exists|k: int| 0 <= k < indices.len() && (#[trigger] indices[k]).0 == i
}

/// Whether the indices grow strictly from each position to the next.
pub open spec fn ascending(indices: Seq<BitU8>) -> bool {
    forall|j: int, k: int|
        0 <= j < k < indices.len() ==> (#[trigger] indices[j]).0 < (#[trigger] indices[k]).0
}

/// Whether bit `i` of the number `x` is set.
pub open spec fn bit_set(x: nat, i: nat) -> bool {
    (x / pow2(i)) % 2 == 1
}

/// The indices below `n` of the bits that are set in `x`, lowest first.
pub open spec fn set_bits_below(x: nat, n: nat) -> Seq<BitU8>
    decreases n,
{
    if n == 0 {
        Seq::empty()
    } else if bit_set(x, (n - 1) as nat) {
        set_bits_below(x, (n - 1) as nat).push(BitU8((n - 1) as u8))
    } else {
        set_bits_below(x, (n - 1) as nat)
    }
}

/// `set_bits_below` holds exactly the set bits below `n`, each once and in
/// ascending order.
pub proof fn lemma_set_bits_below(x: nat, n: nat)
    requires
        n <= 256,
    ensures
        forall|i: int| has_bit(set_bits_below(x, n), i) <==> (0 <= i < n && bit_set(x, i as nat)),
        ascending(set_bits_below(x, n)),
        set_bits_below(x, n).len() <= n,
    decreases n,
{
    let s = set_bits_below(x, n);
    if n > 0 {
        let m = (n - 1) as nat;
        let r = set_bits_below(x, m);
        lemma_set_bits_below(x, m);
        assert forall|i: int| has_bit(s, i) <==> (0 <= i < n && bit_set(x, i as nat)) by {
            if has_bit(s, i) {
                let k = choose|k: int| 0 <= k < s.len() && (#[trigger] s[k]).0 == i;
                if k < r.len() {
                    assert(r[k].0 == i);
                    assert(has_bit(r, i));
                }
            }
            if 0 <= i < n && bit_set(x, i as nat) {
                if i < m {
                    assert(has_bit(r, i));
                    let k = choose|k: int| 0 <= k < r.len() && (#[trigger] r[k]).0 == i;
                    assert(s[k].0 == i);
                } else {
                    assert(s[s.len() - 1].0 == i);
                }
            }
        }
        assert forall|j: int, k: int| 0 <= j < k < s.len() implies (#[trigger] s[j]).0 < (
        #[trigger] s[k]).0 by {
            if k >= r.len() {
                assert(has_bit(r, r[j].0 as int));
            }
        }
    }
}

/// The indices below `width` of the bits that are set in `x`, lowest first.
pub fn set_bit_indices(x: u128, width: u8) -> (out: Vec<BitU8>)
    ensures
        out@ == set_bits_below(x as nat, width as nat),
{
    let mut out: Vec<BitU8> = Vec::new();
    let mut rest: u128 = x;
    let mut i: u8 = 0;
    proof {
        lemma2_to64();
    }
    while i < width
        invariant
            i <= width,
            rest as nat == (x as nat) / pow2(i as nat),
            out@ == set_bits_below(x as nat, i as nat),
        decreases width - i,
    {
        proof {
            lemma_pow2_pos(i as nat);
            lemma_pow2_unfold((i + 1) as nat);
            lemma_div_denominator(x as int, pow2(i as nat) as int, 2);
        }
        if rest % 2 == 1 {
            out.push(BitU8(i));
        }
        rest = rest / 2;
        i = i + 1;
    }
    out
}

/// `std::io::Error`, the failure of a source. It is carried through and
/// never looked into.
#[verifier::external_type_specification]
#[verifier::external_body]
pub struct ExIoError(std::io::Error);

/// A scalar that can say, on demand, which of its bits are set.
pub trait BitSource {
    /// The indices of the bits that are set.
    spec fn set_bits(&self) -> Seq<BitU8>;

    /// Whether enumerating the bits of this value cannot fail.
    spec fn enumerates(&self) -> bool;

    /// Enumerates the indices of the bits that are set. A failure of the
    /// source comes back as it is.
    fn bit_indices(&self) -> (r: Result<Vec<BitU8>, std::io::Error>)
        ensures
            r matches Ok(v) ==> v@ == self.set_bits(),
            self.enumerates() ==> r is Ok,
    ;
}

/// A scalar of 8 bits.
#[derive(Copy, Clone, Debug)]
pub struct FromU8(pub u8);

impl From<u8> for FromU8 {
    fn from(value: u8) -> (scalar: FromU8) {
        FromU8(value)
    }
}

impl vstd::std_specs::convert::FromSpecImpl<u8> for FromU8 {
    open spec fn obeys_from_spec() -> bool {
        true
    }

    open spec fn from_spec(value: u8) -> FromU8 {
        FromU8(value)
    }
}

impl BitSource for FromU8 {
    open spec fn set_bits(&self) -> Seq<BitU8> {
        set_bits_below(self.0 as nat, 8)
    }

    open spec fn enumerates(&self) -> bool {
        true
    }

    fn bit_indices(&self) -> (r: Result<Vec<BitU8>, std::io::Error>) {
        Ok(set_bit_indices(self.0 as u128, 8))
    }
}

/// A scalar of 16 bits.
#[derive(Copy, Clone, Debug)]
pub struct FromU16(pub u16);

impl From<u16> for FromU16 {
    fn from(value: u16) -> (scalar: FromU16) {
        FromU16(value)
    }
}

impl vstd::std_specs::convert::FromSpecImpl<u16> for FromU16 {
    open spec fn obeys_from_spec() -> bool {
        true
    }

    open spec fn from_spec(value: u16) -> FromU16 {
        FromU16(value)
    }
}

impl BitSource for FromU16 {
    open spec fn set_bits(&self) -> Seq<BitU8> {
        set_bits_below(self.0 as nat, 16)
    }

    open spec fn enumerates(&self) -> bool {
        true
    }

    fn bit_indices(&self) -> (r: Result<Vec<BitU8>, std::io::Error>) {
        Ok(set_bit_indices(self.0 as u128, 16))
    }
}

/// A scalar of 32 bits.
#[derive(Copy, Clone, Debug)]
pub struct FromU32(pub u32);

impl From<u32> for FromU32 {
    fn from(value: u32) -> (scalar: FromU32) {
        FromU32(value)
    }
}

impl vstd::std_specs::convert::FromSpecImpl<u32> for FromU32 {
    open spec fn obeys_from_spec() -> bool {
        true
    }

    open spec fn from_spec(value: u32) -> FromU32 {
        FromU32(value)
    }
}

impl BitSource for FromU32 {
    open spec fn set_bits(&self) -> Seq<BitU8> {
        set_bits_below(self.0 as nat, 32)
    }

    open spec fn enumerates(&self) -> bool {
        true
    }

    fn bit_indices(&self) -> (r: Result<Vec<BitU8>, std::io::Error>) {
        Ok(set_bit_indices(self.0 as u128, 32))
    }
}

/// A scalar of 64 bits.
#[derive(Copy, Clone, Debug)]
pub struct FromU64(pub u64);

impl From<u64> for FromU64 {
    fn from(value: u64) -> (scalar: FromU64) {
        FromU64(value)
    }
}

impl vstd::std_specs::convert::FromSpecImpl<u64> for FromU64 {
    open spec fn obeys_from_spec() -> bool {
        true
    }

    open spec fn from_spec(value: u64) -> FromU64 {
        FromU64(value)
    }
}

impl BitSource for FromU64 {
    open spec fn set_bits(&self) -> Seq<BitU8> {
        set_bits_below(self.0 as nat, 64)
    }

    open spec fn enumerates(&self) -> bool {
        true
    }

    fn bit_indices(&self) -> (r: Result<Vec<BitU8>, std::io::Error>) {
        Ok(set_bit_indices(self.0 as u128, 64))
    }
}

/// A scalar of 128 bits.
#[derive(Copy, Clone, Debug)]
pub struct FromU128(pub u128);

impl From<u128> for FromU128 {
    fn from(value: u128) -> (scalar: FromU128) {
        FromU128(value)
    }
}

impl vstd::std_specs::convert::FromSpecImpl<u128> for FromU128 {
    open spec fn obeys_from_spec() -> bool {
        true
    }

    open spec fn from_spec(value: u128) -> FromU128 {
        FromU128(value)
    }
}

impl BitSource for FromU128 {
    open spec fn set_bits(&self) -> Seq<BitU8> {
        set_bits_below(self.0 as nat, 128)
    }

    open spec fn enumerates(&self) -> bool {
        true
    }

    fn bit_indices(&self) -> (r: Result<Vec<BitU8>, std::io::Error>) {
        Ok(set_bit_indices(self.0, 128))
    }
}

} // verus!
