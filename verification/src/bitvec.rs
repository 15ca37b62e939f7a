//! The vector of bits that holds every sequence this crate produces.
//!
//! `vob::Vob` is opaque to the verifier. What it holds is named by
//! [`bits_of`], and each method the crate calls stands behind one function
//! whose contract is believed, not proved.

use vob::Vob;
use vstd::prelude::*;

verus! {

/// `vob::Vob`, a vector of bits over storage blocks of type `T`.
#[verifier::external_type_specification]
#[verifier::external_body]
#[verifier::reject_recursive_types(T)]
pub struct ExVob<T>(Vob<T>);

/// The bits that a vector of bits holds, position 0 first.
pub uninterp spec fn bits_of(v: Vob<usize>) -> Seq<bool>;

/// What each vector of a list holds, in the order of the list.
pub open spec fn all_bits(vs: Seq<Vob<usize>>) -> Seq<Seq<bool>> {
    Seq::new(vs.len(), |j: int| bits_of(vs[j]))
}

/// `Vob::new`: the result holds no bit.
#[verifier::external_body]
pub(crate) fn vob_new() -> (v: Vob<usize>)
    ensures
        bits_of(v) == Seq::<bool>::empty(),
{
    Vob::new()
}

/// `Vob::len`: the number of bits held, which therefore fits a `usize`.
#[verifier::external_body]
pub(crate) fn vob_len(v: &Vob<usize>) -> (n: usize)
    ensures
        n == bits_of(*v).len(),
{
    v.len()
}

/// `Vob::get`: the bit at `index`, or `None` at and past the length.
#[verifier::external_body]
pub(crate) fn vob_get(v: &Vob<usize>, index: usize) -> (bit: Option<bool>)
    ensures
        bit == if index < bits_of(*v).len() {
            Some(bits_of(*v)[index as int])
        } else {
            None
        },
{
    v.get(index)
}

/// `Vob::set`: writes `value` at `index` and leaves every other position
/// and the length as they were; the result tells whether the bit changed.
/// The method panics at and past the length, which `requires` leaves out.
#[verifier::external_body]
pub(crate) fn vob_set(v: &mut Vob<usize>, index: usize, value: bool) -> (changed: bool)
    requires
        index < bits_of(*old(v)).len(),
    ensures
        bits_of(*final(v)) == bits_of(*old(v)).update(index as int, value),
        changed == (bits_of(*old(v))[index as int] != value),
{
    v.set(index, value)
}

/// `Vob::resize` with `false` as the filling value: up to the old length
/// the bits stay, from there to `new_len` every bit is `false`; a smaller
/// `new_len` truncates. Filling with `true` is left out: the crate never
/// asks for it.
#[verifier::external_body]
pub(crate) fn vob_resize(v: &mut Vob<usize>, new_len: usize, value: bool)
    requires
        !value,
    ensures
        bits_of(*final(v)).len() == new_len,
        forall|p: int|
            0 <= p < new_len ==> #[trigger] bits_of(*final(v))[p] == (if p < bits_of(*old(v)).len() {
                bits_of(*old(v))[p]
            } else {
                value
            }),
{
    v.resize(new_len, value)
}

} // verus!
