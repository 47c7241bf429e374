//! Splits extracted text into overlapping fixed-size word windows.
//!
//! A window holds `size_words` consecutive words; each next window starts
//! `size_words - overlap_words` words after the previous one, and the final
//! window may be shorter. A configuration with `overlap_words >= size_words`
//! would never advance and is rejected by validation, never run.

use crate::strutil::{
    join_spaces, join_words, lemma_str_views_push, split_words, str_views, trimmed_of, words_of,
};
use vstd::prelude::*;

verus! {

/// Named chunking configuration: window size and overlap, in words.
#[derive(Clone, Copy, PartialEq, Eq, Structural, Debug)]
pub struct ChunkConfig {
    pub size_words: usize,
    pub overlap_words: usize,
}

impl ChunkConfig {
    /// A window step must advance: the overlap has to be smaller than the
    /// window.
    pub open spec fn valid(self) -> bool {
        self.overlap_words < self.size_words
    }

    /// Coarse preset: wide windows, for throughput.
    pub fn coarse() -> (r: ChunkConfig)
        ensures
            r == (ChunkConfig { size_words: 512, overlap_words: 50 }),
    {
        ChunkConfig { size_words: 512, overlap_words: 50 }
    }

    /// Fine preset: narrower windows, preferred for retrieval precision.
    pub fn fine() -> (r: ChunkConfig)
        ensures
            r == (ChunkConfig { size_words: 256, overlap_words: 50 }),
    {
        ChunkConfig { size_words: 256, overlap_words: 50 }
    }

    /// Configuration validation: rejects a non-advancing window step.
    pub fn is_valid(&self) -> (r: bool)
        ensures
            r == self.valid(),
    {
        self.overlap_words < self.size_words
    }
}

/// The word windows cut from `words`: full windows of `size` words starting
/// every `size - overlap` words, and a final, possibly shorter, window.
pub open spec fn chunk_windows(words: Seq<Seq<char>>, size: int, overlap: int) -> Seq<
    Seq<Seq<char>>,
>
    decreases words.len(),
{
    if overlap < 0 || size <= overlap {
        Seq::empty()
    } else if words.len() == 0 {
        Seq::empty()
    } else if words.len() <= size {
        seq![words]
    } else {
        seq![words.take(size)] + chunk_windows(words.skip(size - overlap), size, overlap)
    }
}

/// The chunk strings: each window joined with single spaces.
pub open spec fn chunk_texts(words: Seq<Seq<char>>, size: int, overlap: int) -> Seq<Seq<char>> {
    chunk_windows(words, size, overlap).map_values(|w: Seq<Seq<char>>| join_spaces(w))
}

proof fn lemma_window_nonempty(words: Seq<Seq<char>>, size: int, overlap: int, k: int)
    requires
        0 <= overlap < size,
        0 <= k < chunk_windows(words, size, overlap).len(),
        forall|i: int| 0 <= i < words.len() ==> (#[trigger] words[i]).len() > 0,
    ensures
        chunk_windows(words, size, overlap)[k].len() > 0,
        chunk_windows(words, size, overlap)[k][0].len() > 0,
    decreases words.len(),
{
    let ws = chunk_windows(words, size, overlap);
    if words.len() == 0 {
        assert(false);
    } else if words.len() <= size {
        assert(ws[0] == words);
    } else {
        let step = size - overlap;
        let rem = words.skip(step);
        assert(ws == seq![words.take(size)] + chunk_windows(rem, size, overlap));
        if k == 0 {
            assert(ws[0] == words.take(size));
            assert(words.take(size)[0] == words[0]);
        } else {
            assert forall|i: int| 0 <= i < rem.len() implies (#[trigger] rem[i]).len() > 0 by {
                assert(rem[i] == words[i + step]);
            }
            lemma_window_nonempty(rem, size, overlap, k - 1);
            assert(ws[k] == chunk_windows(rem, size, overlap)[k - 1]);
        }
    }
}

proof fn lemma_join_nonempty(w: Seq<Seq<char>>)
    requires
        w.len() > 0,
        w[0].len() > 0,
    ensures
        join_spaces(w).len() > 0,
{
}

/// A chunk of non-empty words is a non-empty string.
proof fn lemma_chunk_text_nonempty(words: Seq<Seq<char>>, size: int, overlap: int, i: int)
    requires
        0 <= overlap < size,
        0 <= i < chunk_texts(words, size, overlap).len(),
        forall|t: int| 0 <= t < words.len() ==> (#[trigger] words[t]).len() > 0,
    ensures
        chunk_texts(words, size, overlap)[i].len() > 0,
{
    let ws = chunk_windows(words, size, overlap);
    assert(chunk_texts(words, size, overlap)[i] == join_spaces(ws[i]));
    lemma_window_nonempty(words, size, overlap, i);
    lemma_join_nonempty(ws[i]);
}

/// Splits `text` into overlapping word windows and joins each window back
/// into a chunk string. Text that trims to nothing yields no chunks; any
/// other text yields at least one, and every chunk is a non-empty string.
pub fn chunk_text(text: &str, chunk_size: usize, overlap: usize) -> (r: Vec<String>)
    requires
        overlap < chunk_size,
    ensures
        str_views(r@) == chunk_texts(words_of(text@), chunk_size as int, overlap as int),
        r@.len() == 0 <==> trimmed_of(text@).len() == 0,
        text@.len() == 0 ==> r@.len() == 0,
        forall|i: int| 0 <= i < r@.len() ==> (#[trigger] r@[i])@.len() > 0,
{
    let words = split_words(text);
    let ghost wseq: Seq<Seq<char>> = words_of(text@);
    proof {
        assert(wseq.len() == words@.len());
    }
    let n = words.len();
    let mut chunks: Vec<String> = Vec::new();
    if n == 0 {
        proof {
            assert(str_views(chunks@) =~= chunk_texts(
                wseq,
                chunk_size as int,
                overlap as int,
            ));
        }
        return chunks;
    }
    let ghost size = chunk_size as int;
    let ghost ov = overlap as int;
    proof {
        assert(wseq.skip(0) =~= wseq);
        assert(str_views(chunks@) + chunk_texts(wseq, size, ov) =~= chunk_texts(wseq, size, ov));
    }
    let mut start: usize = 0;
    loop
        invariant_except_break
            0 < n == wseq.len() == words@.len(),
            str_views(words@) == wseq,
            overlap < chunk_size,
            start < n,
            size == chunk_size as int,
            ov == overlap as int,
            str_views(chunks@) + chunk_texts(wseq.skip(start as int), size, ov) == chunk_texts(
                wseq,
                size,
                ov,
            ),
        ensures
            str_views(chunks@) == chunk_texts(wseq, size, ov),
        decreases n - start,
    {
        let remaining = n - start;
        let end = if remaining > chunk_size {
            start + chunk_size
        } else {
            n
        };
        let mut window: Vec<String> = Vec::new();
        let mut j = start;
        proof {
            assert(str_views(window@) =~= wseq.subrange(start as int, start as int));
        }
        while j < end
            invariant
                start <= j <= end <= n == words@.len(),
                n == wseq.len(),
                str_views(words@) == wseq,
                str_views(window@) == wseq.subrange(start as int, j as int),
            decreases end - j,
        {
            let w = words[j].clone();
            proof {
                assert(str_views(words@)[j as int] == words@[j as int]@);
                assert(w@ == wseq[j as int]);
            }
            let ghost before = window@;
            window.push(w);
            proof {
                lemma_str_views_push(before, w);
                assert(wseq.subrange(start as int, j as int).push(wseq[j as int]) =~= wseq.subrange(
                    start as int,
                    j as int + 1,
                ));
            }
            j = j + 1;
        }
        let piece = join_words(&window);
        chunks.push(piece);
        let ghost rem = wseq.skip(start as int);
        proof {
            if remaining <= chunk_size {
                // final window: the remainder of the word sequence
                assert(str_views(window@) =~= rem);
                assert(chunk_windows(rem, size, ov) =~= seq![rem]);
                assert(chunk_texts(rem, size, ov) =~= seq![join_spaces(rem)]);
            } else {
                // full window followed by the windows of the shifted tail
                let step = size - ov;
                assert(str_views(window@) =~= rem.take(size));
                assert(chunk_windows(rem, size, ov) =~= seq![rem.take(size)] + chunk_windows(
                    rem.skip(step),
                    size,
                    ov,
                ));
                assert(chunk_texts(rem, size, ov) =~= seq![join_spaces(rem.take(size))]
                    + chunk_texts(rem.skip(step), size, ov));
                assert(rem.skip(step) =~= wseq.skip(start + step));
            }
            lemma_str_views_push(chunks@.drop_last(), piece);
            assert(chunks@.drop_last().push(piece) =~= chunks@);
        }
        if end >= n {
            proof {
                assert(str_views(chunks@) =~= str_views(chunks@.drop_last()) + seq![
                    join_spaces(rem),
                ]);
            }
            break ;
        }
        proof {
            assert(str_views(chunks@) =~= str_views(chunks@.drop_last()) + seq![
                join_spaces(rem.take(size)),
            ]);
            assert(str_views(chunks@) + chunk_texts(wseq.skip(start + (size - ov)), size, ov)
                =~= chunk_texts(wseq, size, ov));
        }
        start = start + (chunk_size - overlap);
    }
    proof {
        assert(chunk_windows(wseq, size, ov).len() > 0);
        assert forall|t: int| 0 <= t < wseq.len() implies (#[trigger] wseq[t]).len() > 0 by {
            assert(str_views(words@)[t] == words@[t]@);
        }
        assert forall|i: int| 0 <= i < chunks@.len() implies (#[trigger] chunks@[i])@.len()
            > 0 by {
            assert(str_views(chunks@)[i] == chunks@[i]@);
            lemma_chunk_text_nonempty(wseq, size, ov, i);
        }
    }
    chunks
}

/// Every window but the last holds exactly `size` words.
pub proof fn lemma_chunk_full_windows(words: Seq<Seq<char>>, size: int, overlap: int, i: int)
    requires
        0 <= overlap < size,
        0 <= i < chunk_windows(words, size, overlap).len() - 1,
    ensures
        chunk_windows(words, size, overlap)[i].len() == size,
    decreases words.len(),
{
    let ws = chunk_windows(words, size, overlap);
    if words.len() == 0 || words.len() <= size {
        // at most one window: no index below the last
        assert(false);
    } else {
        let rest = chunk_windows(words.skip(size - overlap), size, overlap);
        assert(ws == seq![words.take(size)] + rest);
        if i == 0 {
            assert(ws[0] == words.take(size));
        } else {
            lemma_chunk_full_windows(words.skip(size - overlap), size, overlap, i - 1);
            assert(ws[i] == rest[i - 1]);
        }
    }
}

/// Consecutive windows share exactly `overlap` words at the boundary: the
/// last `overlap` words of a window are the first `overlap` words of the
/// next, and every window after the first is longer than the overlap.
pub proof fn lemma_chunk_overlap(words: Seq<Seq<char>>, size: int, overlap: int, i: int)
    requires
        0 <= overlap < size,
        0 <= i < chunk_windows(words, size, overlap).len() - 1,
    ensures
        chunk_windows(words, size, overlap)[i + 1].len() > overlap,
        chunk_windows(words, size, overlap)[i].skip(size - overlap) == chunk_windows(
            words,
            size,
            overlap,
        )[i + 1].take(overlap),
    decreases words.len(),
{
    let ws = chunk_windows(words, size, overlap);
    let step = size - overlap;
    if words.len() == 0 || words.len() <= size {
        assert(false);
    } else {
        let rem = words.skip(step);
        let rest = chunk_windows(rem, size, overlap);
        assert(ws == seq![words.take(size)] + rest);
        if i == 0 {
            assert(rem.len() == words.len() - step > overlap);
            if rem.len() <= size {
                assert(rest =~= seq![rem]);
                assert(ws[1] == rem);
                assert(ws[0].skip(step) =~= rem.take(overlap));
            } else {
                assert(ws[1] == rem.take(size));
                assert(ws[0].skip(step) =~= rem.take(size).take(overlap));
            }
        } else {
            lemma_chunk_overlap(rem, size, overlap, i - 1);
            assert(ws[i] == rest[i - 1]);
            assert(ws[i + 1] == rest[i]);
        }
    }
}

/// The windows stitched back together: the first window whole, then each
/// later window with its leading `overlap` words removed.
pub open spec fn stitched(ws: Seq<Seq<Seq<char>>>, overlap: int) -> Seq<Seq<char>>
    decreases ws.len(),
{
    if ws.len() == 0 {
        Seq::empty()
    } else {
        ws[0] + stitched_rest(ws.drop_first(), overlap)
    }
}

/// The non-overlapping remainders of a run of windows.
pub open spec fn stitched_rest(ws: Seq<Seq<Seq<char>>>, overlap: int) -> Seq<Seq<char>>
    decreases ws.len(),
{
    if ws.len() == 0 {
        Seq::empty()
    } else {
        ws[0].skip(overlap) + stitched_rest(ws.drop_first(), overlap)
    }
}

proof fn lemma_stitched_rest_skip(ws: Seq<Seq<Seq<char>>>, overlap: int)
    requires
        ws.len() > 0,
        0 <= overlap <= ws[0].len(),
    ensures
        stitched_rest(ws, overlap) == stitched(ws, overlap).skip(overlap),
{
    assert(stitched_rest(ws, overlap) =~= (ws[0] + stitched_rest(ws.drop_first(), overlap)).skip(
        overlap,
    ));
}

/// Concatenating the non-overlapping remainders of the windows reconstructs
/// the original word sequence.
pub proof fn lemma_chunk_reconstruct(words: Seq<Seq<char>>, size: int, overlap: int)
    requires
        0 <= overlap < size,
    ensures
        stitched(chunk_windows(words, size, overlap), overlap) == words,
    decreases words.len(),
{
    let ws = chunk_windows(words, size, overlap);
    let step = size - overlap;
    if words.len() == 0 {
        assert(stitched(ws, overlap) =~= words);
    } else if words.len() <= size {
        assert(ws == seq![words]);
        assert(stitched(ws, overlap) =~= words);
    } else {
        let rem = words.skip(step);
        let rest = chunk_windows(rem, size, overlap);
        assert(ws == seq![words.take(size)] + rest);
        lemma_chunk_reconstruct(rem, size, overlap);
        // the first window of the tail is longer than the overlap
        assert(rem.len() > overlap);
        if rem.len() <= size {
            assert(rest == seq![rem]);
            assert(rest[0].len() >= overlap);
        } else {
            assert(rest[0] == rem.take(size));
            assert(rest[0].len() >= overlap);
        }
        lemma_stitched_rest_skip(rest, overlap);
        assert(ws.drop_first() =~= rest);
        assert(stitched(ws, overlap) == words.take(size) + stitched_rest(rest, overlap));
        assert(stitched_rest(rest, overlap) == rem.skip(overlap));
        assert(rem.skip(overlap) =~= words.skip(size));
        assert(stitched(ws, overlap) =~= words);
    }
}

} // verus!
