//! Assembling the generation prompt from the retrieved passages and
//! the bounded conversation-history window.
//!
//! The wording and ordering here are a contract of their own: other
//! components (and prompt-injection tests) depend on the exact blocks
//! and their order — instruction preamble, then the history turns
//! oldest first, then the passages in relevance order, then the raw
//! user question.

use vstd::prelude::*;
use vstd::string::StrSliceExecFns;
use vstd::string::StringExecFns;
use crate::index::SearchResult;
use crate::store::TurnRec;

verus! {

/// One retrieved passage, rendered as a labeled block.
pub open spec fn passage_block(r: SearchResult) -> Seq<char> {
    "Document: "@ + r.file_path@ + "\nContent: "@ + r.text@
}

/// All retrieved passages, blank-line separated, in their given order.
pub open spec fn passages_text(rs: Seq<SearchResult>) -> Seq<char>
    decreases rs.len(),
{
    if rs.len() == 0 {
        Seq::empty()
    } else if rs.len() == 1 {
        passage_block(rs[0])
    } else {
        passages_text(rs.drop_last()) + "\n\n"@ + passage_block(rs.last())
    }
}

/// One history turn, rendered as a user/bot pair; a turn whose answer
/// is still pending renders with an empty bot line.
pub open spec fn turn_block(t: TurnRec) -> Seq<char> {
    "User: "@ + t.user_query@ + "\nBot: "@ + (match t.bot_response {
        Some(s) => s@,
        None => Seq::<char>::empty(),
    })
}

/// All history turns, blank-line separated, in their given order.
pub open spec fn history_text(ts: Seq<TurnRec>) -> Seq<char>
    decreases ts.len(),
{
    if ts.len() == 0 {
        Seq::empty()
    } else if ts.len() == 1 {
        turn_block(ts[0])
    } else {
        history_text(ts.drop_last()) + "\n\n"@ + turn_block(ts.last())
    }
}

/// The combined context: the history block only when there is
/// history, then the passages block.
pub open spec fn context_text(rs: Seq<SearchResult>, ts: Seq<TurnRec>) -> Seq<char> {
    if ts.len() == 0 {
        "Relevant documents:\n"@ + passages_text(rs)
    } else {
        "Previous conversation:\n"@ + history_text(ts) + "\n\nRelevant documents:\n"@
            + passages_text(rs)
    }
}

/// The whole prompt: fixed instruction preamble, context, question.
pub open spec fn spec_prompt(query: Seq<char>, rs: Seq<SearchResult>, ts: Seq<TurnRec>) -> Seq<
    char,
> {
    "You are a helpful AI assistant. Based on the following context, please answer the user's question. If the context doesn't contain enough information to answer the question, please say so.\n\nContext:\n"@
        + context_text(rs, ts) + "\n\nUser Question: "@ + query + "\n\nAnswer:"@
}

fn append_passages(out: &mut String, retrieved: &Vec<SearchResult>)
    ensures
        final(out)@ == old(out)@ + passages_text(retrieved@),
{
    let mut i: usize = 0;
    while i < retrieved.len()
        invariant
            i <= retrieved@.len(),
            out@ == old(out)@ + passages_text(retrieved@.take(i as int)),
        decreases retrieved@.len() - i,
    {
        proof {
            assert(retrieved@.take(i + 1).drop_last() =~= retrieved@.take(i as int));
            assert(retrieved@.take(i + 1).last() == retrieved@[i as int]);
        }
        if i > 0 {
            out.append("\n\n");
        }
        out.append("Document: ");
        out.append(retrieved[i].file_path.as_str());
        out.append("\nContent: ");
        out.append(retrieved[i].text.as_str());
        proof {
            if i == 0 {
                assert(retrieved@.take(1).len() == 1);
                assert(passages_text(retrieved@.take(1)) == passage_block(retrieved@[0]));
            }
        }
        i += 1;
    }
    proof {
        assert(retrieved@.take(retrieved@.len() as int) =~= retrieved@);
        if retrieved@.len() == 0 {
            assert(out@ =~= old(out)@ + passages_text(retrieved@));
        }
    }
}

fn append_history(out: &mut String, history: &Vec<TurnRec>)
    ensures
        final(out)@ == old(out)@ + history_text(history@),
{
    let mut i: usize = 0;
    while i < history.len()
        invariant
            i <= history@.len(),
            out@ == old(out)@ + history_text(history@.take(i as int)),
        decreases history@.len() - i,
    {
        proof {
            assert(history@.take(i + 1).drop_last() =~= history@.take(i as int));
            assert(history@.take(i + 1).last() == history@[i as int]);
        }
        if i > 0 {
            out.append("\n\n");
        }
        out.append("User: ");
        out.append(history[i].user_query.as_str());
        out.append("\nBot: ");
        match &history[i].bot_response {
            Some(s) => out.append(s.as_str()),
            None => (),
        }
        proof {
            if i == 0 {
                assert(history@.take(1).len() == 1);
                assert(history_text(history@.take(1)) == turn_block(history@[0]));
            }
        }
        i += 1;
    }
    proof {
        assert(history@.take(history@.len() as int) =~= history@);
        if history@.len() == 0 {
            assert(out@ =~= old(out)@ + history_text(history@));
        }
    }
}

/// Assemble the generation prompt.  `retrieved` comes in relevance
/// order; `history` comes oldest first and is rendered in that order.
pub fn assemble(query: &str, retrieved: &Vec<SearchResult>, history: &Vec<TurnRec>) -> (r: String)
    ensures
        r@ == spec_prompt(query@, retrieved@, history@),
{
    let mut out = String::new();
    out.append(
        "You are a helpful AI assistant. Based on the following context, please answer the user's question. If the context doesn't contain enough information to answer the question, please say so.\n\nContext:\n",
    );
    if history.len() > 0 {
        out.append("Previous conversation:\n");
        append_history(&mut out, history);
        out.append("\n\nRelevant documents:\n");
    } else {
        out.append("Relevant documents:\n");
    }
    append_passages(&mut out, retrieved);
    out.append("\n\nUser Question: ");
    out.append(query);
    out.append("\n\nAnswer:");
    proof {
        assert(out@ =~= spec_prompt(query@, retrieved@, history@));
    }
    out
}

} // verus!
