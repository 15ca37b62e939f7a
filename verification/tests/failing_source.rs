use std::io::{Error, ErrorKind};
use zdex::{BitSource, BitU8, FromU8, Zdexed, ZdexedIter, ZdexedTup};

/// A scalar that is read lazily, and whose reading may fail.
#[derive(Clone)]
struct Lazy(Option<Vec<u8>>);

impl BitSource for Lazy {
    fn set_bits(&self) -> vstd::seq::Seq<BitU8> {
        unreachable!("only the verifier reads this")
    }

    fn enumerates(&self) -> bool {
        unreachable!("only the verifier reads this")
    }

    fn bit_indices(&self) -> Result<Vec<BitU8>, Error> {
        match &self.0 {
            Some(indices) => Ok(indices.iter().map(|i| BitU8(*i)).collect()),
            None => Err(Error::new(ErrorKind::UnexpectedEof, "scalar cut short")),
        }
    }
}

#[test]
fn failure_of_one_scalar_comes_back() {
    let failure = Lazy(None).z_index().unwrap_err();
    assert_eq!(failure.kind(), ErrorKind::UnexpectedEof);
    assert_eq!(failure.to_string(), "scalar cut short");
}

#[test]
fn failure_inside_a_list_comes_back() {
    let list = vec![Lazy(Some(vec![0, 1])), Lazy(None), Lazy(Some(vec![5]))];
    let failure = list.z_index().unwrap_err();
    assert_eq!(failure.kind(), ErrorKind::UnexpectedEof);
}

#[test]
fn failure_inside_a_tuple_comes_back() {
    let failure = (FromU8(3), Lazy(None)).z_index().unwrap_err();
    assert_eq!(failure.kind(), ErrorKind::UnexpectedEof);
    let failure = (Lazy(Some(vec![1])), Lazy(None), Lazy(Some(vec![2]))).z_index().unwrap_err();
    assert_eq!(failure.to_string(), "scalar cut short");
}

#[test]
fn lazy_scalar_that_reads_is_encoded() {
    let index = Lazy(Some(vec![9, 0])).z_index().unwrap();
    assert_eq!(index.len(), 10);
    assert_eq!(index.iter_set_bits(..).collect::<Vec<_>>(), vec![0, 9]);
    let mixed = (FromU8(0b10), Lazy(Some(vec![0]))).z_index().unwrap();
    assert_eq!(mixed.iter().collect::<Vec<_>>(), vec![true, false, false, true]);
}
