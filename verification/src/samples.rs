//! Raw sample data as it arrives in an upload: the bit patterns of 32-bit
//! samples, four bytes each, least significant byte first.

use vstd::prelude::*;

verus! {

/// The word that the four bytes from `4 * k` on spell.
pub open spec fn word_at(data: Seq<u8>, k: int) -> u32 {
    (data[4 * k] as u32) | ((data[4 * k + 1] as u32) << 8) | ((data[4 * k + 2] as u32) << 16) | ((
    data[4 * k + 3] as u32) << 24)
}

/// Reads the words of `data` in order. Bytes left over at the end, fewer
/// than four, are dropped.
pub fn decode_words(data: &[u8]) -> (words: Vec<u32>)
    ensures
        words.len() == data.len() / 4,
        forall|k: int| 0 <= k < words.len() ==> words[k] == word_at(data@, k),
{
    let count: usize = data.len() / 4;
    let mut words: Vec<u32> = Vec::new();
    let mut k: usize = 0;
    while k < count
        invariant
            k <= count,
            count == data.len() / 4,
            words.len() == k,
            forall|i: int| 0 <= i < k ==> words[i] == word_at(data@, i),
        decreases count - k,
    {
        let at: usize = 4 * k;
        let word: u32 = (data[at] as u32) | ((data[at + 1] as u32) << 8) | ((data[at + 2] as u32)
            << 16) | ((data[at + 3] as u32) << 24);
        words.push(word);
        k = k + 1;
    }
    words
}

} // verus!
