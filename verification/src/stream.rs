//! Re-chunking a complete answer into a finite streaming sequence.
//!
//! When the generation backend has no native incremental interface,
//! the full answer is cut into fixed-size word groups and handed out
//! as an ordered, finite sequence whose last element — and only that
//! one — is marked final.

use vstd::prelude::*;
use crate::chunking::{chunk_text, spec_chunks};
use crate::text::views_of;

verus! {

/// One element of a streaming answer.
pub struct StreamingChunk {
    pub text: String,
    pub is_final: bool,
}

/// Cut `answer` into groups of `group_size` words.  The sequence is
/// never empty, exactly its last element is final, and the texts are
/// the word groups of the answer in order (one empty text when the
/// answer has no words at all).
pub fn stream_chunks(answer: &str, group_size: usize) -> (r: Vec<StreamingChunk>)
    requires
        group_size > 0,
    ensures
        r@.len() >= 1,
        r@.last().is_final,
        forall|i: int| 0 <= i < r@.len() - 1 ==> !(#[trigger] r@[i]).is_final,
        spec_chunks(answer@, group_size as int, 0).len() == 0 ==> r@.len() == 1 && r@[0].text@
            == Seq::<char>::empty(),
        spec_chunks(answer@, group_size as int, 0).len() > 0 ==> r@.len() == spec_chunks(
            answer@,
            group_size as int,
            0,
        ).len() && forall|i: int|
            0 <= i < r@.len() ==> (#[trigger] r@[i]).text@ == spec_chunks(
                answer@,
                group_size as int,
                0,
            )[i],
{
    let mut pieces = chunk_text(answer, group_size, 0);
    let ghost cks = spec_chunks(answer@, group_size as int, 0);
    let mut r: Vec<StreamingChunk> = Vec::new();
    if pieces.len() == 0 {
        r.push(StreamingChunk { text: String::new(), is_final: true });
        return r;
    }
    let n = pieces.len();
    let mut i: usize = 0;
    while i < n
        invariant
            n == pieces@.len(),
            n >= 1,
            views_of(pieces@) == cks,
            i <= n,
            r@.len() == i,
            forall|j: int| 0 <= j < i ==> (#[trigger] r@[j]).text@ == cks[j],
            forall|j: int| 0 <= j < i ==> ((#[trigger] r@[j]).is_final <==> j == n - 1),
        decreases n - i,
    {
        let text = pieces[i].clone();
        proof {
            assert(views_of(pieces@)[i as int] == pieces@[i as int]@);
        }
        r.push(StreamingChunk { text, is_final: i == n - 1 });
        i += 1;
    }
    r
}

} // verus!
