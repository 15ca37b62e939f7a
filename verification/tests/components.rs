use std::io::{Error, ErrorKind};
use vob::Vob;
use zdex::align::{align, max_width, zero_extend};
use zdex::canonical::canonical;
use zdex::interleave::interleave;
use zdex::scalar::set_bit_indices;
use zdex::zindex::{encode, weave};
use zdex::{BitSource, BitU8, FromU8};

fn bits(of: &[u8]) -> Vob {
    of.iter().map(|b| *b == 1).collect()
}

fn raw(indices: &[BitU8]) -> Vec<u8> {
    indices.iter().map(|b| b.0).collect()
}

#[test]
fn set_bits_come_lowest_first() {
    assert_eq!(raw(&set_bit_indices(0b1000_0101, 8)), vec![0, 2, 7]);
    assert_eq!(raw(&set_bit_indices(0, 128)), Vec::<u8>::new());
    assert_eq!(raw(&set_bit_indices(u128::MAX, 3)), vec![0, 1, 2]);
    assert_eq!(raw(&set_bit_indices(1 << 127, 128)), vec![127]);
    assert_eq!(raw(&set_bit_indices(1 << 127, 127)), Vec::<u8>::new());
    assert_eq!(set_bit_indices(u128::MAX, 128).len(), 128);
    assert_eq!(raw(&set_bit_indices(0b110, 0)), Vec::<u8>::new());
    assert_eq!(raw(&set_bit_indices(0b110, 255)), vec![1, 2]);
}

#[test]
fn built_in_scalars_enumerate_their_bits() {
    assert_eq!(raw(&FromU8(0b1010).bit_indices().unwrap()), vec![1, 3]);
    assert_eq!(raw(&zdex::FromU16(0x8001).bit_indices().unwrap()), vec![0, 15]);
    assert_eq!(raw(&zdex::FromU32(0x8000_0000).bit_indices().unwrap()), vec![31]);
    assert_eq!(raw(&zdex::FromU64(1 << 63).bit_indices().unwrap()), vec![63]);
    assert_eq!(raw(&zdex::FromU128(1 << 127 | 1).bit_indices().unwrap()), vec![0, 127]);
}

#[test]
fn canonical_of_no_index_is_false() {
    assert_eq!(canonical(&vec![]), bits(&[0]));
}

#[test]
fn canonical_of_two_low_bits() {
    assert_eq!(canonical(&vec![BitU8(0), BitU8(1)]), bits(&[1, 1]));
}

#[test]
fn canonical_of_bits_0_2_7() {
    assert_eq!(
        canonical(&vec![BitU8(0), BitU8(2), BitU8(7)]),
        bits(&[1, 0, 0, 0, 0, 1, 0, 1])
    );
}

#[test]
fn canonical_takes_any_order_and_repeats() {
    let expected = bits(&[1, 0, 0, 0, 0, 1, 0, 1]);
    assert_eq!(canonical(&vec![BitU8(7), BitU8(0), BitU8(2)]), expected);
    assert_eq!(canonical(&vec![BitU8(2), BitU8(7), BitU8(2), BitU8(0), BitU8(7)]), expected);
}

#[test]
fn canonical_reaches_index_255() {
    let index = canonical(&vec![BitU8(255), BitU8(0)]);
    assert_eq!(index.len(), 256);
    assert_eq!(index.get(0), Some(true));
    assert_eq!(index.get(255), Some(true));
    assert_eq!(index.iter_set_bits(..).count(), 2);
}

#[test]
fn canonical_of_bit_0_alone() {
    assert_eq!(canonical(&vec![BitU8(0)]), bits(&[1]));
}

#[test]
fn zero_extend_to_own_width_changes_nothing() {
    let s = bits(&[1, 0, 1, 1]);
    assert_eq!(zero_extend(&s, 4), s);
    assert_eq!(zero_extend(&Vob::new(), 0), Vob::new());
}

#[test]
fn zero_extend_keeps_the_tail() {
    assert_eq!(zero_extend(&bits(&[1, 0]), 6), bits(&[0, 0, 0, 0, 1, 0]));
    assert_eq!(zero_extend(&bits(&[0]), 3), bits(&[0, 0, 0]));
    assert_eq!(zero_extend(&Vob::new(), 2), bits(&[0, 0]));
    let long = zero_extend(&bits(&[1, 1, 0, 1]), 130);
    assert_eq!(long.len(), 130);
    assert_eq!(long.iter_set_bits(..).collect::<Vec<_>>(), vec![126, 127, 129]);
}

#[test]
fn max_width_is_the_greatest_length() {
    assert_eq!(max_width(&vec![]), 0);
    assert_eq!(max_width(&vec![bits(&[1]), bits(&[1, 0, 1]), bits(&[0, 0])]), 3);
    assert_eq!(max_width(&vec![Vob::new()]), 0);
}

#[test]
fn align_extends_to_the_widest() {
    let group = vec![bits(&[1, 0, 0, 0, 0, 0]), bits(&[1, 0]), bits(&[0])];
    assert_eq!(
        align(&group),
        vec![bits(&[1, 0, 0, 0, 0, 0]), bits(&[0, 0, 0, 0, 1, 0]), bits(&[0, 0, 0, 0, 0, 0])]
    );
    assert_eq!(align(&vec![]), Vec::<Vob>::new());
    assert_eq!(align(&vec![bits(&[1, 1])]), vec![bits(&[1, 1])]);
}

#[test]
fn align_twice_is_align_once() {
    let group = vec![bits(&[1, 1, 1]), bits(&[1]), bits(&[1, 0, 1, 0, 1])];
    let once = align(&group);
    assert_eq!(align(&once), once);
}

#[test]
fn interleave_has_n_times_w_bits() {
    let group = vec![bits(&[1, 0, 1]), bits(&[0, 0, 1]), bits(&[1, 1, 1]), bits(&[0, 0, 0])];
    let woven = interleave(&group);
    assert_eq!(woven.len(), 12);
    assert_eq!(woven, bits(&[1, 0, 1, 0, 0, 0, 1, 0, 1, 1, 1, 0]));
    assert_eq!(interleave(&vec![]), Vob::new());
    assert_eq!(interleave(&vec![Vob::new(), Vob::new()]), Vob::new());
}

#[test]
fn interleave_of_one_is_the_same() {
    let s = bits(&[1, 0, 0, 1, 1, 0, 1]);
    assert_eq!(interleave(&vec![s.clone()]), s);
}

#[test]
fn interleave_two_of_three_bits() {
    let group = vec![bits(&[0, 1, 0]), bits(&[1, 0, 0])];
    assert_eq!(interleave(&group), bits(&[0, 1, 1, 0, 0, 0]));
}

#[test]
fn weave_aligns_then_interleaves() {
    let group = vec![bits(&[1, 0, 0, 0, 0, 0]), bits(&[1, 0])];
    assert_eq!(weave(&group), bits(&[1, 0, 0, 0, 0, 0, 0, 0, 0, 1, 0, 0]));
    assert_eq!(weave(&group), interleave(&align(&group)));
    assert_eq!(weave(&vec![]), Vob::new());
}

#[test]
fn weave_crosses_a_storage_block() {
    let a: Vob = (0..70).map(|i| i % 3 == 0).collect();
    let b: Vob = (0..5).map(|i| i % 2 == 0).collect();
    let woven = weave(&vec![a.clone(), b.clone()]);
    assert_eq!(woven.len(), 140);
    for level in 0..70 {
        assert_eq!(woven.get(2 * level), a.get(level));
        let from_b = if level < 65 { Some(false) } else { b.get(level - 65) };
        assert_eq!(woven.get(2 * level + 1), from_b);
    }
}

#[test]
fn encode_gives_the_canonical_sequence() {
    let index = encode(Ok(vec![BitU8(1), BitU8(3)])).unwrap();
    assert_eq!(index, bits(&[1, 0, 1, 0]));
}

#[test]
fn encode_hands_a_failure_on() {
    let failure = encode(Err(Error::new(ErrorKind::InvalidData, "cannot read"))).unwrap_err();
    assert_eq!(failure.kind(), ErrorKind::InvalidData);
    assert_eq!(failure.to_string(), "cannot read");
}
