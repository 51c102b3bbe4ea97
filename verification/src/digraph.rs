//! Digraphs: 16-bit values formed from two adjacent bytes.

use vstd::prelude::*;

verus! {

/// The digraph whose high half is `hi` and whose low half is `lo`.
pub open spec fn digraph(hi: u8, lo: u8) -> u16 {
    (hi as int * 256 + lo as int) as u16
}

/// The digraphs read from `bytes`: one for each of the first
/// `bytes.len() / 2` positions, made of the byte at that position and the
/// byte after it. Successive digraphs overlap in one byte, and positions in
/// the second half of the input start no digraph.
pub open spec fn digraphs(bytes: Seq<u8>) -> Seq<u16> {
    Seq::new(bytes.len() / 2, |i: int| digraph(bytes[i], bytes[i + 1]))
}

/// Joins two bytes into a digraph, `hi` going to the upper eight bits.
pub fn join_bytes(hi: u8, lo: u8) -> (d: u16)
    ensures
        d == digraph(hi, lo),
        d as int == hi as int * 256 + lo as int,
{
    let d = lo as u16 | (hi as u16) << 8;
    assert(lo as u16 | (hi as u16) << 8 == hi as u16 * 256 + lo as u16) by (bit_vector);
    d
}

/// Reads the digraphs of a byte stream.
///
/// The result has `vec.len() / 2` entries, so an input shorter than two bytes
/// gives none; entry `i` joins the bytes at positions `i` and `i + 1`.
pub fn vec_u8_to_u16(vec: Vec<u8>) -> (res: Vec<u16>)
    ensures
        res@ == digraphs(vec@),
{
    let mut res: Vec<u16> = Vec::new();
    let half: usize = vec.len() / 2;
    let mut i: usize = 0;
    while i < half
        invariant
            half == vec.len() / 2,
            i <= half,
            res.len() == i,
            forall|j: int| 0 <= j < i ==> res[j] == digraph(vec[j], #[trigger] vec[j + 1]),
        decreases half - i,
    {
        res.push(join_bytes(vec[i], vec[i + 1]));
        i += 1;
    }
    res
}

/// A byte stream of length `n` yields exactly `n / 2` digraphs, and a stream
/// shorter than two bytes yields none.
pub proof fn lemma_digraph_count(bytes: Seq<u8>)
    ensures
        digraphs(bytes).len() == bytes.len() / 2,
        bytes.len() < 2 ==> digraphs(bytes).len() == 0,
{
}

} // verus!
