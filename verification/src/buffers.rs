//! The bytes that a renderer uploads beside the grid itself: the grid's
//! dimensions, as the machine holds two 32-bit words in memory.

use vstd::prelude::*;

verus! {

/// The four bytes of `v`, the lowest first.
pub open spec fn low_first(v: u32) -> Seq<u8> {
    seq![
        (v % 0x100) as u8,
        (v / 0x100 % 0x100) as u8,
        (v / 0x1_0000 % 0x100) as u8,
        (v / 0x100_0000) as u8,
    ]
}

/// The four bytes of `v`, the highest first.
pub open spec fn high_first(v: u32) -> Seq<u8> {
    seq![
        (v / 0x100_0000) as u8,
        (v / 0x1_0000 % 0x100) as u8,
        (v / 0x100 % 0x100) as u8,
        (v % 0x100) as u8,
    ]
}

/// `bytes` holds the words of `words` one after the other, four bytes each,
/// every word in the same byte order: the lowest byte first throughout, or
/// the highest byte first throughout.
pub open spec fn is_memory_image(words: Seq<u32>, bytes: Seq<u8>) -> bool {
    &&& bytes.len() == 4 * words.len()
    &&& {
        ||| forall|i: int|
            0 <= i < words.len() ==> #[trigger] bytes.subrange(4 * i, 4 * i + 4) == low_first(
                words[i],
            )
        ||| forall|i: int|
            0 <= i < words.len() ==> #[trigger] bytes.subrange(4 * i, 4 * i + 4) == high_first(
                words[i],
            )
    }
}

/// Calls `bytemuck::cast_slice` from `u32` to `u8` and copies what it gives.
/// The cast reads the words' own memory as bytes, so the result holds four
/// bytes for each word, in the byte order of the machine, which is one of
/// two. From words to bytes the cast cannot fail: a byte needs no alignment
/// and any number of bytes is a whole number of them.
#[verifier::external_body]
fn words_as_bytes(words: &[u32]) -> (bytes: Vec<u8>)
    ensures
        is_memory_image(words@, bytes@),
{
    bytemuck::cast_slice::<u32, u8>(words).to_vec()
}

/// The bytes of a grid's dimensions as a shader reads them: the width, then
/// the height, each as it lies in memory.
pub fn grid_dims_bytes(width: u32, height: u32) -> (bytes: Vec<u8>)
    ensures
        bytes@ == low_first(width) + low_first(height) || bytes@ == high_first(width)
            + high_first(height),
{
    let mut words: Vec<u32> = Vec::new();
    words.push(width);
    words.push(height);
    let bytes = words_as_bytes(words.as_slice());
    proof {
        let first = bytes@.subrange(0, 4);
        let second = bytes@.subrange(4, 8);
        assert(bytes@ =~= first + second);
        assert(first == bytes@.subrange(4 * 0int, 4 * 0int + 4));
        assert(second == bytes@.subrange(4 * 1int, 4 * 1int + 4));
        assert(words@[0] == width && words@[1] == height);
    }
    bytes
}

} // verus!
