//! Big-endian 32-bit words on the wire.
use vstd::prelude::*;

verus! {

/// The big-endian word formed by four bytes.
pub open spec fn word_of(b0: u8, b1: u8, b2: u8, b3: u8) -> u32 {
    ((b0 as u32) << 24u32) | ((b1 as u32) << 16u32) | ((b2 as u32) << 8u32) | (b3 as u32)
}

/// The word that starts at byte `i` of `s`.
pub open spec fn word_at(s: Seq<u8>, i: int) -> u32 {
    word_of(s[i], s[i + 1], s[i + 2], s[i + 3])
}

/// The four bytes of `w`, most significant first.
pub open spec fn word_bytes(w: u32) -> Seq<u8> {
    seq![(w >> 24u32) as u8, (w >> 16u32) as u8, (w >> 8u32) as u8, w as u8]
}

/// Reading back the bytes of a word gives the word.
pub proof fn lemma_word_of_bytes(w: u32)
    ensures
        word_at(word_bytes(w), 0) == w,
{
    let b = word_bytes(w);
    assert(word_of((w >> 24u32) as u8, (w >> 16u32) as u8, (w >> 8u32) as u8, w as u8) == w)
        by (bit_vector);
    assert(b[0] == (w >> 24u32) as u8 && b[1] == (w >> 16u32) as u8 && b[2] == (w >> 8u32) as u8
        && b[3] == w as u8);
}

/// Writing out a word read from four bytes gives the same four bytes.
pub proof fn lemma_bytes_of_word(s: Seq<u8>, i: int)
    requires
        0 <= i,
        i + 4 <= s.len(),
    ensures
        word_bytes(word_at(s, i)) == s.subrange(i, i + 4),
{
    let (b0, b1, b2, b3) = (s[i], s[i + 1], s[i + 2], s[i + 3]);
    let w = word_of(b0, b1, b2, b3);
    assert((w >> 24u32) as u8 == b0 && (w >> 16u32) as u8 == b1 && (w >> 8u32) as u8 == b2
        && w as u8 == b3) by (bit_vector)
        requires
            w == word_of(b0, b1, b2, b3),
    ;
    assert(word_bytes(word_at(s, i)) =~= s.subrange(i, i + 4));
}

/// Reads the big-endian word at byte `i`.
pub fn read_word(b: &[u8], i: usize) -> (r: u32)
    requires
        i + 4 <= b@.len(),
    ensures
        r == word_at(b@, i as int),
{
    ((b[i] as u32) << 24u32) | ((b[i + 1] as u32) << 16u32) | ((b[i + 2] as u32) << 8u32) | (
    b[i + 3] as u32)
}

/// Appends the four bytes of `w` to `out`.
pub fn push_word(out: &mut Vec<u8>, w: u32)
    ensures
        final(out)@ == old(out)@ + word_bytes(w),
{
    out.push((w >> 24u32) as u8);
    out.push((w >> 16u32) as u8);
    out.push((w >> 8u32) as u8);
    out.push(w as u8);
    assert(final(out)@ =~= old(out)@ + word_bytes(w));
}

/// The bytes of a list of words, each big-endian, in order.
pub open spec fn words_bytes(ws: Seq<u32>) -> Seq<u8>
    decreases ws.len(),
{
    if ws.len() == 0 {
        Seq::empty()
    } else {
        words_bytes(ws.drop_last()) + word_bytes(ws.last())
    }
}

/// The whole words that `s` holds, in order.
pub open spec fn words_of(s: Seq<u8>) -> Seq<u32> {
    Seq::new(s.len() / 4, |k: int| word_at(s, 4 * k))
}

/// The word at `i` is read from its own four bytes alone.
pub proof fn lemma_word_at_window(s: Seq<u8>, i: int, w: u32)
    requires
        0 <= i,
        i + 4 <= s.len(),
        s.subrange(i, i + 4) == word_bytes(w),
    ensures
        word_at(s, i) == w,
{
    lemma_word_of_bytes(w);
    let t = s.subrange(i, i + 4);
    assert(t[0] == s[i] && t[1] == s[i + 1] && t[2] == s[i + 2] && t[3] == s[i + 3]);
}

/// The bytes of a word list are four per word, and reading them back gives
/// the list.
pub proof fn lemma_words_round_trip(ws: Seq<u32>)
    ensures
        words_bytes(ws).len() == 4 * ws.len(),
        words_of(words_bytes(ws)) == ws,
    decreases ws.len(),
{
    if ws.len() > 0 {
        let init = ws.drop_last();
        lemma_words_round_trip(init);
        let b = words_bytes(ws);
        let bi = words_bytes(init);
        let n = ws.len() - 1;
        assert forall|k: int| 0 <= k < ws.len() implies #[trigger] word_at(b, 4 * k) == ws[k] by {
            if k < n {
                assert(word_at(bi, 4 * k) == init[k]);
                assert(b[4 * k] == bi[4 * k] && b[4 * k + 1] == bi[4 * k + 1] && b[4 * k + 2]
                    == bi[4 * k + 2] && b[4 * k + 3] == bi[4 * k + 3]);
            } else {
                assert(b.subrange(4 * n, 4 * n + 4) =~= word_bytes(ws.last()));
                lemma_word_at_window(b, 4 * n, ws.last());
            }
        }
        assert(words_of(b) =~= ws);
    } else {
        assert(words_of(words_bytes(ws)) =~= ws);
    }
}

/// A byte sequence of whole words is the bytes of the words it holds.
pub proof fn lemma_bytes_of_words(s: Seq<u8>)
    requires
        s.len() % 4 == 0,
    ensures
        words_bytes(words_of(s)) == s,
    decreases s.len(),
{
    let ws = words_of(s);
    if s.len() == 0 {
        assert(words_bytes(ws) =~= s);
    } else {
        let n = s.len() - 4;
        let init = s.subrange(0, n);
        lemma_bytes_of_words(init);
        assert(ws.drop_last() =~= words_of(init)) by {
            assert forall|k: int| 0 <= k < ws.len() - 1 implies #[trigger] word_at(init, 4 * k) == word_at(
                s,
                4 * k,
            ) by {
                assert(init[4 * k] == s[4 * k] && init[4 * k + 1] == s[4 * k + 1] && init[4 * k
                    + 2] == s[4 * k + 2] && init[4 * k + 3] == s[4 * k + 3]);
            }
        }
        lemma_bytes_of_word(s, n);
        assert(words_bytes(ws) =~= s);
    }
}

/// The bytes of two word lists one after the other.
pub proof fn lemma_words_bytes_append(a: Seq<u32>, b: Seq<u32>)
    ensures
        words_bytes(a + b) == words_bytes(a) + words_bytes(b),
    decreases b.len(),
{
    if b.len() == 0 {
        assert(a + b =~= a);
        assert(words_bytes(a) + words_bytes(b) =~= words_bytes(a));
    } else {
        lemma_words_bytes_append(a, b.drop_last());
        assert((a + b).drop_last() =~= a + b.drop_last());
        assert(words_bytes(a + b) =~= words_bytes(a) + words_bytes(b));
    }
}

/// Appends the bytes of each word of `ws` to `out`.
pub fn push_words(out: &mut Vec<u8>, ws: &Vec<u32>)
    ensures
        final(out)@ == old(out)@ + words_bytes(ws@),
{
    let mut i: usize = 0;
    assert(ws@.take(0) =~= Seq::<u32>::empty());
    assert(out@ =~= old(out)@ + words_bytes(ws@.take(0)));
    while i < ws.len()
        invariant
            i <= ws@.len(),
            out@ == old(out)@ + words_bytes(ws@.take(i as int)),
        decreases ws@.len() - i,
    {
        push_word(out, ws[i]);
        assert(ws@.take(i + 1).drop_last() =~= ws@.take(i as int));
        assert(out@ =~= old(out)@ + words_bytes(ws@.take(i + 1)));
        i = i + 1;
    }
    assert(ws@.take(i as int) =~= ws@);
}

} // verus!
