//! Tensors as the bytes that go to the device and come back from it.
use vstd::prelude::*;
use vstd::slice::slice_to_vec;

use super::error::RocmTensorExecutionError;
use super::sizes::{allocatable, byte_len};
use crate::tensor::value::{
    extent, law_extent_scales, law_smaller_unit_fits, Tensor, TensorModel,
};

verus! {

/// Which byte of a word comes first in memory.
#[derive(Debug, Clone, Copy, PartialEq, Eq, Structural)]
pub enum ByteOrder {
    LeastFirst,
    MostFirst,
}

/// The word that four bytes from `at` on stand for.
pub open spec fn word_at(bytes: Seq<u8>, at: int, order: ByteOrder) -> int {
    match order {
        ByteOrder::LeastFirst => bytes[at] + 0x100 * bytes[at + 1] + 0x1_0000 * bytes[at + 2]
            + 0x100_0000 * bytes[at + 3],
        ByteOrder::MostFirst => bytes[at + 3] + 0x100 * bytes[at + 2] + 0x1_0000 * bytes[at + 1]
            + 0x100_0000 * bytes[at],
    }
}

/// The bytes are the words, one after the other.
pub open spec fn image_of(bytes: Seq<u8>, words: Seq<u32>, order: ByteOrder) -> bool {
    &&& bytes.len() == 4 * words.len()
    &&& forall|k: int|
        0 <= k < words.len() ==> word_at(bytes, 4 * k, order) == #[trigger] words[k]
}

/// The words that bytes stand for.
pub open spec fn words_of(bytes: Seq<u8>, order: ByteOrder) -> Seq<u32> {
    Seq::new(bytes.len() / 4, |k: int| word_at(bytes, 4 * k, order) as u32)
}

/// What was moved to the device comes back as it was.
pub proof fn law_transfers_are_lossless(bytes: Seq<u8>, words: Seq<u32>, order: ByteOrder)
    requires
        image_of(bytes, words, order),
    ensures
        words_of(bytes, order) == words,
{
    assert(words_of(bytes, order) =~= words);
}

/// The digits of a number below two to the power of 32, the least first.
proof fn lemma_same_digits(one: (u8, u8, u8, u8), other: (u8, u8, u8, u8))
    requires
        one.0 + 0x100 * one.1 + 0x1_0000 * one.2 + 0x100_0000 * one.3 == other.0 + 0x100 * other.1
            + 0x1_0000 * other.2 + 0x100_0000 * other.3,
    ensures
        one == other,
{
    let (low, low2) = (one.0 + 0x100 * one.1, other.0 + 0x100 * other.1);
    assert(one.2 + 0x100 * one.3 == other.2 + 0x100 * other.3);
    assert(low == low2);
}

/// A list of words has one image.
pub proof fn law_images_are_unique(
    one: Seq<u8>,
    other: Seq<u8>,
    words: Seq<u32>,
    order: ByteOrder,
)
    requires
        image_of(one, words, order),
        image_of(other, words, order),
    ensures
        one == other,
{
    assert forall|i: int| 0 <= i < one.len() implies one[i] == other[i] by {
        let k = i / 4;
        let at = 4 * k;
        assert(word_at(one, at, order) == words[k]);
        assert(word_at(other, at, order) == words[k]);
        let these = (one[at], one[at + 1], one[at + 2], one[at + 3]);
        let those = (other[at], other[at + 1], other[at + 2], other[at + 3]);
        match order {
            ByteOrder::LeastFirst => {
                lemma_same_digits(these, those);
            },
            ByteOrder::MostFirst => {
                lemma_same_digits(
                    (these.3, these.2, these.1, these.0),
                    (those.3, those.2, those.1, those.0),
                );
            },
        }
        assert(i == at || i == at + 1 || i == at + 2 || i == at + 3);
    }
    assert(one =~= other);
}

/// The bytes of one word.
pub fn word_bytes(word: u32, order: ByteOrder) -> (bytes: [u8; 4])
    ensures
        word_at(bytes@, 0, order) == word,
{
    let first: u8 = (word % 0x100) as u8;
    let second: u8 = (word / 0x100 % 0x100) as u8;
    let third: u8 = (word / 0x1_0000 % 0x100) as u8;
    let fourth: u8 = (word / 0x100_0000) as u8;
    match order {
        ByteOrder::LeastFirst => [first, second, third, fourth],
        ByteOrder::MostFirst => [fourth, third, second, first],
    }
}

/// The bytes of a tensor's elements.
///
/// # Errors
///
/// `SizeOverflow` where no allocation can hold the tensor.
pub fn tensor_bytes(tensor: &Tensor, order: ByteOrder) -> (bytes: Result<
    Vec<u8>,
    RocmTensorExecutionError,
>)
    requires
        tensor.wf(),
    ensures
        match bytes {
            Ok(bytes) => allocatable(tensor@.shape) && image_of(bytes@, tensor@.data, order),
            Err(error) => !allocatable(tensor@.shape) && error
                == RocmTensorExecutionError::SizeOverflow,
        },
{
    match byte_len(tensor.shape.as_slice()) {
        Ok(_) => {},
        Err(error) => {
            return Err(error);
        },
    }
    let mut bytes: Vec<u8> = Vec::new();
    let count: usize = tensor.data.len();
    let mut at: usize = 0;
    while at < count
        invariant
            at <= count == tensor.data@.len(),
            image_of(bytes@, tensor.data@.take(at as int), order),
        decreases count - at,
    {
        let ghost before = bytes@;
        let word: [u8; 4] = word_bytes(tensor.data[at], order);
        bytes.push(word[0]);
        bytes.push(word[1]);
        bytes.push(word[2]);
        bytes.push(word[3]);
        proof {
            let words = tensor.data@.take(at + 1);
            assert forall|k: int| 0 <= k < words.len() implies word_at(bytes@, 4 * k, order)
                == #[trigger] words[k] by {
                if k < at {
                    assert(tensor.data@.take(at as int)[k] == words[k]);
                    assert(word_at(before, 4 * k, order) == words[k]);
                }
            }
        }
        at += 1;
    }
    assert(tensor.data@.take(count as int) =~= tensor.data@);
    Ok(bytes)
}

/// The tensor whose elements these bytes are.
///
/// # Errors
///
/// `SizeOverflow` where no allocation can hold a tensor of this shape.
pub fn tensor_from_bytes(shape: &[usize], bytes: &[u8], order: ByteOrder) -> (made: Result<
    Tensor,
    RocmTensorExecutionError,
>)
    requires
        allocatable(shape@) ==> bytes@.len() == extent(4, shape@),
    ensures
        match made {
            Ok(tensor) => {
                &&& allocatable(shape@)
                &&& tensor.wf()
                &&& tensor@ == TensorModel::plain(shape@, words_of(bytes@, order))
            },
            Err(error) => !allocatable(shape@) && error == RocmTensorExecutionError::SizeOverflow,
        },
{
    let length: usize = match byte_len(shape) {
        Ok(length) => length,
        Err(error) => {
            return Err(error);
        },
    };
    proof {
        law_extent_scales(4, shape@);
        law_smaller_unit_fits(1, 4, shape@);
    }
    let count: usize = length / 4;
    let mut data: Vec<u32> = Vec::new();
    let mut at: usize = 0;
    while at < count
        invariant
            at <= count,
            bytes@.len() == 4 * count <= usize::MAX,
            data@.len() == at,
            forall|k: int| 0 <= k < at ==> data@[k] == word_at(bytes@, 4 * k, order),
        decreases count - at,
    {
        let from: usize = 4 * at;
        let (first, second, third, fourth): (u8, u8, u8, u8) = match order {
            ByteOrder::LeastFirst => (bytes[from], bytes[from + 1], bytes[from + 2], bytes[from + 3]),
            ByteOrder::MostFirst => (bytes[from + 3], bytes[from + 2], bytes[from + 1], bytes[from]),
        };
        let word: u32 = first as u32 + 0x100 * second as u32 + 0x1_0000 * third as u32 + 0x100_0000
            * fourth as u32;
        data.push(word);
        at += 1;
    }
    assert(data@ =~= words_of(bytes@, order));
    match Tensor::new(slice_to_vec(shape), data) {
        Ok(tensor) => Ok(tensor),
        Err(error) => Err(RocmTensorExecutionError::Graph(error)),
    }
}

} // verus!
