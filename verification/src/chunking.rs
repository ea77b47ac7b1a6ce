//! Splitting document text into overlapping fixed-size word windows.

use vstd::prelude::*;
use crate::errors::RagError;
use crate::text::{joined, joined_all, join_range, split_words, views_of, words_of};

verus! {

broadcast use {
    vstd::seq::group_seq_axioms,
    crate::text::lemma_joined_all_len,
    crate::text::lemma_joined_all_index,
    crate::text::lemma_views_of_len,
    crate::text::lemma_views_of_index,
};

/// The word windows that chunking emits from `words`, beginning at
/// `start`: a window of `size` words clipped to the end of the word
/// sequence; the next window starts `size - overlap` words further on;
/// the first window to reach the end is the last.
pub open spec fn chunk_windows(
    words: Seq<Seq<char>>,
    size: int,
    overlap: int,
    start: int,
) -> Seq<Seq<Seq<char>>>
    decreases words.len() - start
        when 0 <= start && 0 <= overlap < size
{
    if start >= words.len() {
        seq![]
    } else if start + size >= words.len() {
        seq![words.subrange(start, words.len() as int)]
    } else {
        seq![words.subrange(start, start + size)] + chunk_windows(
            words,
            size,
            overlap,
            start + (size - overlap),
        )
    }
}

proof fn lemma_joined_all_push(vs: Seq<String>, e: Seq<Seq<Seq<char>>>, piece: String, win: Seq<Seq<char>>)
    requires
        views_of(vs) == joined_all(e),
        piece@ == joined(win),
    ensures
        views_of(vs.push(piece)) == joined_all(e.push(win)),
{
    assert(views_of(vs).len() == joined_all(e).len());
    assert(vs.len() == e.len());
    assert forall|j: int| 0 <= j < vs.len() + 1 implies views_of(vs.push(piece))[j] == joined_all(
        e.push(win),
    )[j] by {
        if j < vs.len() {
            assert(views_of(vs)[j] == joined_all(e)[j]);
            assert(views_of(vs)[j] == vs[j]@);
            assert(joined_all(e)[j] == joined(e[j]));
        }
    }
    assert(views_of(vs.push(piece)) =~= joined_all(e.push(win)));
}

/// The chunks of `text`: every word window, joined with single spaces.
pub open spec fn spec_chunks(text: Seq<char>, size: int, overlap: int) -> Seq<Seq<char>> {
    joined_all(chunk_windows(words_of(text), size, overlap, 0))
}

/// Where the window at position `i` begins.
pub open spec fn window_start(size: int, overlap: int, start: int, i: int) -> int {
    start + i * (size - overlap)
}

/// The window of `size` words at word position `ws`, clipped to the end
/// of the word sequence.
pub open spec fn window_at(words: Seq<Seq<char>>, size: int, ws: int) -> Seq<Seq<char>> {
    words.subrange(ws, if ws + size < words.len() { ws + size } else { words.len() as int })
}

/// The shape of the emitted windows: window `i` is the `size`-word
/// window at `window_start(..i..)`, every window but the last stops
/// short of the end of the words, and the last one reaches it.
pub proof fn lemma_windows_shape(words: Seq<Seq<char>>, size: int, overlap: int, start: int)
    requires
        0 <= start,
        0 <= overlap < size,
    ensures
        chunk_windows(words, size, overlap, start).len() > 0 <==> start < words.len(),
        forall|i: int|
            0 <= i < chunk_windows(words, size, overlap, start).len() ==> #[trigger] chunk_windows(
                words,
                size,
                overlap,
                start,
            )[i] == window_at(words, size, window_start(size, overlap, start, i)),
        forall|i: int|
            0 <= i < chunk_windows(words, size, overlap, start).len() ==> #[trigger] window_start(
                size,
                overlap,
                start,
                i,
            ) < words.len(),
        forall|i: int|
            0 <= i && i + 1 < chunk_windows(words, size, overlap, start).len()
                ==> #[trigger] window_start(size, overlap, start, i) + size < words.len(),
        chunk_windows(words, size, overlap, start).len() > 0 ==> window_start(
            size,
            overlap,
            start,
            chunk_windows(words, size, overlap, start).len() - 1,
        ) + size >= words.len(),
    decreases words.len() - start,
{
    let cw = chunk_windows(words, size, overlap, start);
    if start >= words.len() {
    } else if start + size >= words.len() {
        assert(window_start(size, overlap, start, 0) == start);
        assert(cw[0] == window_at(words, size, start));
    } else {
        let stride = size - overlap;
        lemma_windows_shape(words, size, overlap, start + stride);
        let rest = chunk_windows(words, size, overlap, start + stride);
        assert(cw == seq![words.subrange(start, start + size)] + rest);
        assert forall|i: int| 1 <= i < cw.len() implies window_start(size, overlap, start, i)
            == window_start(size, overlap, start + stride, i - 1) by {
            assert(i * stride == (i - 1) * stride + stride) by (nonlinear_arith);
        }
        assert(window_start(size, overlap, start, 0) == start);
        assert(cw[0] == window_at(words, size, start));
        assert forall|i: int| 1 <= i < cw.len() implies #[trigger] cw[i] == window_at(
            words,
            size,
            window_start(size, overlap, start, i),
        ) by {
            assert(cw[i] == rest[i - 1]);
        }
    }
}

/// Every chunk but the last holds exactly `size` words; the last holds
/// at least one and at most `size`.
pub proof fn lemma_chunk_sizes(words: Seq<Seq<char>>, size: int, overlap: int)
    requires
        0 <= overlap < size,
    ensures
        forall|i: int|
            0 <= i && i + 1 < chunk_windows(words, size, overlap, 0).len()
                ==> (#[trigger] chunk_windows(words, size, overlap, 0)[i]).len() == size,
        chunk_windows(words, size, overlap, 0).len() > 0 ==> {
            let last = chunk_windows(words, size, overlap, 0).last();
            1 <= last.len() <= size
        },
{
    lemma_windows_shape(words, size, overlap, 0);
}

/// The overlap invariant: each window after the first begins with the
/// last `overlap` words of the window before it.
pub proof fn lemma_chunk_overlap(words: Seq<Seq<char>>, size: int, overlap: int, i: int)
    requires
        0 <= overlap < size,
        0 <= i,
        i + 1 < chunk_windows(words, size, overlap, 0).len(),
    ensures
        chunk_windows(words, size, overlap, 0)[i + 1].take(overlap) == chunk_windows(
            words,
            size,
            overlap,
            0,
        )[i].skip(size - overlap),
{
    lemma_windows_shape(words, size, overlap, 0);
    let cw = chunk_windows(words, size, overlap, 0);
    let ws_i = window_start(size, overlap, 0, i);
    let ws_n = window_start(size, overlap, 0, i + 1);
    assert((i + 1) * (size - overlap) == i * (size - overlap) + (size - overlap))
        by (nonlinear_arith);
    assert(ws_n == ws_i + size - overlap);
    assert(ws_i + size < words.len());
    assert(cw[i] == window_at(words, size, ws_i));
    assert(cw[i + 1] == window_at(words, size, ws_n));
    assert(cw[i + 1].take(overlap) =~= cw[i].skip(size - overlap));
}

/// The words of chunk `i` of a text are exactly word window `i`:
/// joining never blurs a boundary, so every chunk is word-aligned.
pub proof fn lemma_chunk_words(text: Seq<char>, size: int, overlap: int, i: int)
    requires
        0 <= overlap < size,
        0 <= i < spec_chunks(text, size, overlap).len(),
    ensures
        words_of(spec_chunks(text, size, overlap)[i]) == chunk_windows(
            words_of(text),
            size,
            overlap,
            0,
        )[i],
{
    let ws = words_of(text);
    let cw = chunk_windows(ws, size, overlap, 0);
    lemma_windows_shape(ws, size, overlap, 0);
    crate::text::lemma_words_nonempty(text);
    let win = cw[i];
    assert(spec_chunks(text, size, overlap)[i] == joined(win));
    assert forall|a: int| 0 <= a < win.len() implies (#[trigger] win[a]).len() > 0 by {
        assert(win[a] == ws[window_start(size, overlap, 0, i) + a]);
    }
    assert forall|a: int, b: int|
        0 <= a < win.len() && 0 <= b < win[a].len() implies !crate::text::is_space_char(
        #[trigger] win[a][b],
    ) by {
        assert(win[a] == ws[window_start(size, overlap, 0, i) + a]);
    }
    crate::text::lemma_words_of_joined(win);
}

/// The overlap law on the chunks themselves: each chunk after the
/// first starts with the last `overlap` words of the chunk before it,
/// and every chunk but the last holds exactly `size` words.
pub proof fn lemma_chunk_overlap_text(text: Seq<char>, size: int, overlap: int, i: int)
    requires
        0 <= overlap < size,
        0 <= i,
        i + 1 < spec_chunks(text, size, overlap).len(),
    ensures
        words_of(spec_chunks(text, size, overlap)[i]).len() == size,
        words_of(spec_chunks(text, size, overlap)[i + 1]).take(overlap) == words_of(
            spec_chunks(text, size, overlap)[i],
        ).skip(size - overlap),
{
    lemma_chunk_words(text, size, overlap, i);
    lemma_chunk_words(text, size, overlap, i + 1);
    lemma_chunk_sizes(words_of(text), size, overlap);
    lemma_chunk_overlap(words_of(text), size, overlap, i);
}

/// An empty text yields no chunks.
pub proof fn lemma_chunk_empty(size: int, overlap: int)
    requires
        0 <= overlap < size,
    ensures
        spec_chunks(Seq::<char>::empty(), size, overlap) == Seq::<Seq<char>>::empty(),
{
    assert(words_of(Seq::<char>::empty()) == Seq::<Seq<char>>::empty());
    assert(chunk_windows(Seq::<Seq<char>>::empty(), size, overlap, 0)
        == Seq::<Seq<Seq<char>>>::empty());
    assert(spec_chunks(Seq::<char>::empty(), size, overlap) =~= Seq::<Seq<char>>::empty());
}

/// Split `text` into chunks of `chunk_size` words, each window starting
/// `chunk_size - overlap` words after the one before it.
pub fn chunk_text(text: &str, chunk_size: usize, overlap: usize) -> (chunks: Vec<String>)
    requires
        0 < chunk_size,
        overlap < chunk_size,
    ensures
        views_of(chunks@) == spec_chunks(text@, chunk_size as int, overlap as int),
{
    let words = split_words(text);
    let n = words.len();
    let ghost wv = views_of(words@);
    let ghost cs = chunk_size as int;
    let ghost ov = overlap as int;
    let mut chunks: Vec<String> = Vec::new();
    if n == 0 {
        proof {
            assert(chunk_windows(wv, cs, ov, 0) == Seq::<Seq<Seq<char>>>::empty());
            assert(views_of(chunks@) =~= spec_chunks(text@, cs, ov));
        }
        return chunks;
    }
    let mut start: usize = 0;
    let ghost mut emitted: Seq<Seq<Seq<char>>> = Seq::empty();
    proof {
        assert(chunk_windows(wv, cs, ov, 0) =~= emitted + chunk_windows(wv, cs, ov, 0));
        assert(views_of(chunks@) =~= joined_all(emitted));
    }
    while chunk_size < n - start
        invariant
            0 < chunk_size,
            overlap < chunk_size,
            cs == chunk_size as int,
            ov == overlap as int,
            n == words@.len(),
            wv == views_of(words@),
            start < n,
            chunk_windows(wv, cs, ov, 0) == emitted + chunk_windows(wv, cs, ov, start as int),
            views_of(chunks@) == joined_all(emitted),
        decreases n - start,
    {
        let end = start + chunk_size;
        let piece = join_range(&words, start, end);
        let ghost old_chunks = chunks@;
        chunks.push(piece);
        proof {
            let win = wv.subrange(start as int, end as int);
            assert(chunk_windows(wv, cs, ov, start as int) == seq![win] + chunk_windows(
                wv,
                cs,
                ov,
                start as int + (cs - ov),
            ));
            assert(emitted + chunk_windows(wv, cs, ov, start as int) =~= emitted.push(win)
                + chunk_windows(wv, cs, ov, start as int + (cs - ov)));
            assert(chunks@ == old_chunks.push(piece));
            assert(piece@ == joined(win));
            lemma_joined_all_push(old_chunks, emitted, piece, win);
            emitted = emitted.push(win);
        }
        start = end - overlap;
    }
    let piece = join_range(&words, start, n);
    proof {
        let win = wv.subrange(start as int, n as int);
        assert(chunk_windows(wv, cs, ov, start as int) == seq![win]);
        assert(chunk_windows(wv, cs, ov, 0) =~= emitted.push(win));
    }
    let ghost old_chunks = chunks@;
    chunks.push(piece);
    proof {
        let win = wv.subrange(start as int, n as int);
        assert(chunks@ == old_chunks.push(piece));
        assert(piece@ == joined(win));
        lemma_joined_all_push(old_chunks, emitted, piece, win);
        emitted = emitted.push(win);
        assert(views_of(chunks@) =~= spec_chunks(text@, cs, ov));
    }
    chunks
}

/// Cut a document's extracted text into overlapping word windows.
/// Reading the document and extracting its text happen at the I/O
/// edge outside the library; this is the compute half, total in the
/// text: it fails exactly on an invalid window configuration.
pub fn process_pdf_file(text: &str, chunk_size: usize, overlap: usize) -> (r: Result<
    Vec<String>,
    RagError,
>)
    ensures
        (0 < chunk_size && overlap < chunk_size) <==> r is Ok,
        r matches Ok(chunks) ==> views_of(chunks@) == spec_chunks(
            text@,
            chunk_size as int,
            overlap as int,
        ),
        r is Err ==> r == Err::<Vec<String>, RagError>(RagError::InvalidInput),
{
    chunk(text, chunk_size, overlap)
}

/// Chunking behind the configuration check: a window size of zero, or
/// an overlap that reaches the window size, is rejected as invalid
/// input instead of looping.
pub fn chunk(text: &str, chunk_size: usize, overlap: usize) -> (r: Result<Vec<String>, RagError>)
    ensures
        0 < chunk_size && overlap < chunk_size ==> r is Ok && views_of(r->Ok_0@) == spec_chunks(
            text@,
            chunk_size as int,
            overlap as int,
        ),
        !(0 < chunk_size && overlap < chunk_size) ==> r == Err::<Vec<String>, RagError>(
            RagError::InvalidInput,
        ),
{
    if chunk_size == 0 || overlap >= chunk_size {
        return Err(RagError::InvalidInput);
    }
    Ok(chunk_text(text, chunk_size, overlap))
}

} // verus!
