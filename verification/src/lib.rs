//! Z-order (Morton) indexes: one or more scalars become a single sequence
//! of bits, in which the bits of the scalars take turns from the most
//! significant level down. Sorted by these sequences, values that lie close
//! in every dimension lie close in the order.
//!
//! A scalar is encoded as its canonical sequence (`canonical`), the
//! sequences of a group are brought to one width (`align`) and woven
//! together (`interleave`). The traits of `zindex` offer this for a single
//! scalar, a list and a tuple.

pub mod align;
pub mod bitvec;
pub mod canonical;
pub mod interleave;
pub mod scalar;
pub mod zindex;

pub use crate::scalar::{BitSource, BitU8, FromU128, FromU16, FromU32, FromU64, FromU8};
pub use crate::zindex::{Zdexed, ZdexedIter, ZdexedTup};
