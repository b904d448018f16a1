//! How embedding vectors are laid out in the store: each component, a
//! 32-bit pattern, as four little-endian bytes, one after the other.
//!
//! The components are handled here by their bit patterns (`f32::to_bits`);
//! the floating-point values themselves never enter this module.

use vstd::prelude::*;

verus! {

/// Byte `k` (0 to 3) of `w` in little-endian order.
pub open spec fn le_byte(w: u32, k: int) -> u8 {
    if k == 0 {
        (w % 0x100) as u8
    } else if k == 1 {
        ((w / 0x100) % 0x100) as u8
    } else if k == 2 {
        ((w / 0x1_0000) % 0x100) as u8
    } else {
        (w / 0x100_0000) as u8
    }
}

/// The word made of four little-endian bytes.
pub open spec fn le_word(b0: u8, b1: u8, b2: u8, b3: u8) -> u32 {
    (b0 + b1 * 0x100 + b2 * 0x1_0000 + b3 * 0x100_0000) as u32
}

/// The blob of a sequence of words: four little-endian bytes per word.
pub open spec fn blob_of(ws: Seq<u32>) -> Seq<u8> {
    Seq::new(4 * ws.len(), |j: int| le_byte(ws[j / 4], j % 4))
}

/// The words of a blob, four bytes each; trailing bytes that do not make up
/// a whole word are ignored (as `chunks_exact` does).
pub open spec fn words_of(b: Seq<u8>) -> Seq<u32> {
    Seq::new(
        b.len() / 4,
        |i: int| le_word(b[4 * i], b[4 * i + 1], b[4 * i + 2], b[4 * i + 3]),
    )
}

fn word_bytes(w: u32) -> (r: (u8, u8, u8, u8))
    ensures
        r.0 == le_byte(w, 0),
        r.1 == le_byte(w, 1),
        r.2 == le_byte(w, 2),
        r.3 == le_byte(w, 3),
{
    ((w % 0x100) as u8, ((w / 0x100) % 0x100) as u8, ((w / 0x1_0000) % 0x100) as u8, (w
        / 0x100_0000) as u8)
}

/// The blob that stores the words `ws`.
pub fn blob_from_words(ws: &Vec<u32>) -> (b: Vec<u8>)
    requires
        4 * ws@.len() <= usize::MAX,
    ensures
        b@ == blob_of(ws@),
{
    let mut b: Vec<u8> = Vec::new();
    let mut i: usize = 0;
    while i < ws.len()
        invariant
            i <= ws@.len(),
            4 * ws@.len() <= usize::MAX,
            b@ == blob_of(ws@.take(i as int)),
        decreases ws@.len() - i,
    {
        let ghost before = b@;
        let (b0, b1, b2, b3) = word_bytes(ws[i]);
        b.push(b0);
        b.push(b1);
        b.push(b2);
        b.push(b3);
        assert(b@ =~= blob_of(ws@.take(i + 1))) by {
            let t = ws@.take(i + 1);
            assert forall|j: int| 0 <= j < 4 * t.len() implies b@[j] == le_byte(t[j / 4], j % 4) by {
                if j < 4 * i {
                    assert(before[j] == le_byte(ws@.take(i as int)[j / 4], j % 4));
                    assert(t[j / 4] == ws@.take(i as int)[j / 4]);
                } else {
                    assert(j / 4 == i);
                }
            }
        }
        i = i + 1;
    }
    assert(ws@.take(i as int) =~= ws@);
    b
}

/// The words stored in blob `b`.
pub fn words_from_blob(b: &Vec<u8>) -> (ws: Vec<u32>)
    ensures
        ws@ == words_of(b@),
{
    let len: usize = b.len();
    let n: usize = len / 4;
    let mut ws: Vec<u32> = Vec::new();
    let mut i: usize = 0;
    while i < n
        invariant
            n == b@.len() / 4,
            4 * n <= b@.len() <= usize::MAX,
            i <= n,
            ws@ == words_of(b@).take(i as int),
        decreases n - i,
    {
        assert(4 * i + 3 < b@.len());
        let k: usize = i * 4;
        let w: u32 = b[k] as u32 + b[k + 1] as u32 * 0x100 + b[k + 2] as u32 * 0x1_0000 + b[k + 3] as u32
            * 0x100_0000;
        ws.push(w);
        assert(ws@ =~= words_of(b@).take(i + 1));
        i = i + 1;
    }
    assert(words_of(b@).take(n as int) =~= words_of(b@));
    ws
}

proof fn lemma_word_bytes_round_trip(w: u32)
    ensures
        le_word(le_byte(w, 0), le_byte(w, 1), le_byte(w, 2), le_byte(w, 3)) == w,
{
    assert(((w % 0x100) as u8 + ((w / 0x100) % 0x100) as u8 * 0x100 + ((w / 0x1_0000) % 0x100) as u8
        * 0x1_0000 + (w / 0x100_0000) as u8 * 0x100_0000) as u32 == w) by (bit_vector);
}

/// Reading the words back from the blob that stores them gives the same
/// words: a stored vector is recovered bit for bit.
pub proof fn lemma_blob_round_trip(ws: Seq<u32>)
    ensures
        words_of(blob_of(ws)) == ws,
{
    let b = blob_of(ws);
    assert(b.len() / 4 == ws.len());
    assert forall|i: int| 0 <= i < ws.len() implies #[trigger] words_of(b)[i] == ws[i] by {
        assert((4 * i) / 4 == i && (4 * i) % 4 == 0);
        assert((4 * i + 1) / 4 == i && (4 * i + 1) % 4 == 1);
        assert((4 * i + 2) / 4 == i && (4 * i + 2) % 4 == 2);
        assert((4 * i + 3) / 4 == i && (4 * i + 3) % 4 == 3);
        lemma_word_bytes_round_trip(ws[i]);
    }
    assert(words_of(b) =~= ws);
}

} // verus!
