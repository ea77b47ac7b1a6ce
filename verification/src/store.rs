//! The conversation store: sessions, chats within a session, and
//! numbered conversation turns within a chat.
//!
//! Entities are soft-deleted only: every record keeps its row, and all
//! read paths treat a deleted record as absent.  Deleting a session
//! cascades to its chats and their turns; deleting a chat cascades to
//! its turns; a single turn is never deleted on its own.
//!
//! The central invariant is turn numbering: within each chat, turns
//! are numbered 1, 2, 3, ... in insertion order, with no duplicate and
//! no gap.  `create_conversation` reads the count and inserts in one
//! call on `&mut self`, so two writers on the same chat cannot race.

use vstd::prelude::*;
use crate::errors::RagError;

verus! {

broadcast use vstd::seq::group_seq_axioms;

/// The lifecycle state of a stored record.
#[derive(Clone, Copy, Debug, PartialEq, Eq, Structural)]
pub enum EntityStatus {
    Active,
    Deleted,
}

/// A top-level conversation container.
pub struct SessionRec {
    pub id: u128,
    pub created_at: u64,
    pub updated_at: u64,
    pub status: EntityStatus,
}

/// A named thread within a session.
pub struct ChatRec {
    pub id: u128,
    pub session_id: u128,
    pub title: String,
    pub created_at: u64,
    pub updated_at: u64,
    pub status: EntityStatus,
}

/// One user-query / bot-answer pair within a chat.
pub struct TurnRec {
    pub id: u128,
    pub session_id: u128,
    pub chat_id: u128,
    pub sequence_number: u32,
    pub user_query: String,
    pub bot_response: Option<String>,
    pub created_at: u64,
    pub updated_at: u64,
    pub status: EntityStatus,
}

/// A tenant: one chatbot record.
pub struct BotRec {
    pub id: u128,
    pub name: String,
    pub created_at: u64,
    pub updated_at: u64,
    pub status: EntityStatus,
}

// Lookup by id, first match.  Ids are unique in a well-formed store,
// so the first match is the only one.

/// The session with the given id, if any.
pub open spec fn find_session(ss: Seq<SessionRec>, id: u128) -> Option<SessionRec>
    decreases ss.len(),
{
    if ss.len() == 0 {
        None
    } else if ss[0].id == id {
        Some(ss[0])
    } else {
        find_session(ss.drop_first(), id)
    }
}

/// The chat with the given id, if any.
pub open spec fn find_chat(cs: Seq<ChatRec>, id: u128) -> Option<ChatRec>
    decreases cs.len(),
{
    if cs.len() == 0 {
        None
    } else if cs[0].id == id {
        Some(cs[0])
    } else {
        find_chat(cs.drop_first(), id)
    }
}

/// The turn with the given id, if any.
pub open spec fn find_turn(ts: Seq<TurnRec>, id: u128) -> Option<TurnRec>
    decreases ts.len(),
{
    if ts.len() == 0 {
        None
    } else if ts[0].id == id {
        Some(ts[0])
    } else {
        find_turn(ts.drop_first(), id)
    }
}

/// The chatbot with the given id, if any.
pub open spec fn find_bot(bs: Seq<BotRec>, id: u128) -> Option<BotRec>
    decreases bs.len(),
{
    if bs.len() == 0 {
        None
    } else if bs[0].id == id {
        Some(bs[0])
    } else {
        find_bot(bs.drop_first(), id)
    }
}

// The active view: a deleted record reads as absent.

/// The session with the given id, unless it is soft-deleted.
pub open spec fn active_session(ss: Seq<SessionRec>, id: u128) -> Option<SessionRec> {
    match find_session(ss, id) {
        Some(s) => if s.status is Active {
            Some(s)
        } else {
            None
        },
        None => None,
    }
}

/// The chat with the given id, unless it is soft-deleted.
pub open spec fn active_chat(cs: Seq<ChatRec>, id: u128) -> Option<ChatRec> {
    match find_chat(cs, id) {
        Some(c) => if c.status is Active {
            Some(c)
        } else {
            None
        },
        None => None,
    }
}

/// The turn with the given id, unless it is soft-deleted.
pub open spec fn active_turn(ts: Seq<TurnRec>, id: u128) -> Option<TurnRec> {
    match find_turn(ts, id) {
        Some(t) => if t.status is Active {
            Some(t)
        } else {
            None
        },
        None => None,
    }
}

/// The chatbot with the given id, unless it is soft-deleted.
pub open spec fn active_bot(bs: Seq<BotRec>, id: u128) -> Option<BotRec> {
    match find_bot(bs, id) {
        Some(b) => if b.status is Active {
            Some(b)
        } else {
            None
        },
        None => None,
    }
}

// The list views, in insertion order.

/// The active sessions, oldest first.
pub open spec fn active_sessions(ss: Seq<SessionRec>) -> Seq<SessionRec>
    decreases ss.len(),
{
    if ss.len() == 0 {
        seq![]
    } else {
        let p = active_sessions(ss.drop_last());
        if ss.last().status is Active {
            p.push(ss.last())
        } else {
            p
        }
    }
}

/// The active chats of a session, oldest first.
pub open spec fn active_chats_of(cs: Seq<ChatRec>, session_id: u128) -> Seq<ChatRec>
    decreases cs.len(),
{
    if cs.len() == 0 {
        seq![]
    } else {
        let p = active_chats_of(cs.drop_last(), session_id);
        if cs.last().status is Active && cs.last().session_id == session_id {
            p.push(cs.last())
        } else {
            p
        }
    }
}

/// All turns of a chat, whatever their status, oldest first.
pub open spec fn turns_of(ts: Seq<TurnRec>, chat_id: u128) -> Seq<TurnRec>
    decreases ts.len(),
{
    if ts.len() == 0 {
        seq![]
    } else {
        let p = turns_of(ts.drop_last(), chat_id);
        if ts.last().chat_id == chat_id {
            p.push(ts.last())
        } else {
            p
        }
    }
}

/// The active turns of a chat, oldest first.
pub open spec fn active_turns_of(ts: Seq<TurnRec>, chat_id: u128) -> Seq<TurnRec>
    decreases ts.len(),
{
    if ts.len() == 0 {
        seq![]
    } else {
        let p = active_turns_of(ts.drop_last(), chat_id);
        if ts.last().chat_id == chat_id && ts.last().status is Active {
            p.push(ts.last())
        } else {
            p
        }
    }
}

/// The active turns of a session, oldest first.
pub open spec fn active_turns_of_session(ts: Seq<TurnRec>, session_id: u128) -> Seq<TurnRec>
    decreases ts.len(),
{
    if ts.len() == 0 {
        seq![]
    } else {
        let p = active_turns_of_session(ts.drop_last(), session_id);
        if ts.last().session_id == session_id && ts.last().status is Active {
            p.push(ts.last())
        } else {
            p
        }
    }
}

/// The active chatbots, oldest first.
pub open spec fn active_bots(bs: Seq<BotRec>) -> Seq<BotRec>
    decreases bs.len(),
{
    if bs.len() == 0 {
        seq![]
    } else {
        let p = active_bots(bs.drop_last());
        if bs.last().status is Active {
            p.push(bs.last())
        } else {
            p
        }
    }
}


/// The position of the session with the given id; the length when there
/// is none.
pub open spec fn session_idx(ss: Seq<SessionRec>, id: u128) -> int
    decreases ss.len(),
{
    if ss.len() == 0 {
        0
    } else if ss[0].id == id {
        0
    } else {
        1 + session_idx(ss.drop_first(), id)
    }
}

/// `find_session` and `session_idx` agree: the index is in range exactly when
/// the record exists, and then points at it.
pub proof fn lemma_session_find(ss: Seq<SessionRec>, id: u128)
    ensures
        0 <= session_idx(ss, id) <= ss.len(),
        find_session(ss, id) is Some <==> session_idx(ss, id) < ss.len(),
        find_session(ss, id) is Some ==> ss[session_idx(ss, id)] == find_session(ss, id)->Some_0
            && ss[session_idx(ss, id)].id == id,
        forall|i: int| 0 <= i < session_idx(ss, id) ==> (#[trigger] ss[i]).id != id,
    decreases ss.len(),
{
    if ss.len() > 0 && ss[0].id != id {
        lemma_session_find(ss.drop_first(), id);
        assert forall|i: int| 0 <= i < session_idx(ss, id) implies (#[trigger] ss[i]).id != id by {
            if i > 0 {
                assert(ss.drop_first()[i - 1] == ss[i]);
            }
        }
        assert(find_session(ss, id) is Some ==> ss[session_idx(ss, id)]
            == ss.drop_first()[session_idx(ss.drop_first(), id)]);
    }
}

/// Appending a record does not change the lookup of an id that is
/// already present, and resolves an absent id to the new record
/// exactly when it carries that id.
pub proof fn lemma_find_session_push(ss: Seq<SessionRec>, x: SessionRec, id: u128)
    ensures
        find_session(ss, id) is None && x.id == id ==> find_session(ss.push(x), id) == Some(x),
        find_session(ss, id) is None && x.id != id ==> find_session(ss.push(x), id) is None,
        find_session(ss, id) is Some ==> find_session(ss.push(x), id) == find_session(ss, id),
    decreases ss.len(),
{
    if ss.len() == 0 {
        assert(ss.push(x)[0] == x);
        assert(ss.push(x).drop_first() =~= Seq::<SessionRec>::empty());
        if x.id == id {
            assert(find_session(ss.push(x), id) == Some(x));
        } else {
            assert(find_session(Seq::<SessionRec>::empty(), id) is None);
            assert(find_session(ss.push(x), id) is None);
        }
    } else {
        lemma_find_session_push(ss.drop_first(), x, id);
        assert(ss.push(x).drop_first() =~= ss.drop_first().push(x));
        assert(ss.push(x)[0] == ss[0]);
        if ss[0].id == id {
            assert(find_session(ss.push(x), id) == Some(ss[0]));
        } else {
            assert(find_session(ss, id) == find_session(ss.drop_first(), id));
            assert(find_session(ss.push(x), id) == find_session(ss.drop_first().push(x), id));
        }
    }
}

/// A transform that keeps every record's id in place keeps every
/// lookup at the same position.
pub proof fn lemma_find_session_pointwise(ss: Seq<SessionRec>, ys: Seq<SessionRec>, id: u128)
    requires
        ss.len() == ys.len(),
        forall|i: int| 0 <= i < ss.len() ==> (#[trigger] ys[i]).id == ss[i].id,
    ensures
        session_idx(ys, id) == session_idx(ss, id),
        find_session(ys, id) is Some <==> find_session(ss, id) is Some,
        find_session(ss, id) is Some ==> find_session(ys, id) == Some(ys[session_idx(ss, id)]),
    decreases ss.len(),
{
    if ss.len() > 0 {
        assert(ys[0].id == ss[0].id);
        if ss[0].id != id {
            assert forall|i: int|
                0 <= i < ss.drop_first().len() implies (#[trigger] ys.drop_first()[i]).id
                == ss.drop_first()[i].id by {
                assert(ys.drop_first()[i] == ys[i + 1]);
                assert(ss.drop_first()[i] == ss[i + 1]);
            }
            lemma_find_session_pointwise(ss.drop_first(), ys.drop_first(), id);
            lemma_session_find(ss.drop_first(), id);
            assert(find_session(ss, id) is Some ==> ys[session_idx(ss, id)]
                == ys.drop_first()[session_idx(ss.drop_first(), id)]);
        }
    }
}


/// The position of the chat with the given id; the length when there
/// is none.
pub open spec fn chat_idx(cs: Seq<ChatRec>, id: u128) -> int
    decreases cs.len(),
{
    if cs.len() == 0 {
        0
    } else if cs[0].id == id {
        0
    } else {
        1 + chat_idx(cs.drop_first(), id)
    }
}

/// `find_chat` and `chat_idx` agree: the index is in range exactly when
/// the record exists, and then points at it.
pub proof fn lemma_chat_find(cs: Seq<ChatRec>, id: u128)
    ensures
        0 <= chat_idx(cs, id) <= cs.len(),
        find_chat(cs, id) is Some <==> chat_idx(cs, id) < cs.len(),
        find_chat(cs, id) is Some ==> cs[chat_idx(cs, id)] == find_chat(cs, id)->Some_0
            && cs[chat_idx(cs, id)].id == id,
        forall|i: int| 0 <= i < chat_idx(cs, id) ==> (#[trigger] cs[i]).id != id,
    decreases cs.len(),
{
    if cs.len() > 0 && cs[0].id != id {
        lemma_chat_find(cs.drop_first(), id);
        assert forall|i: int| 0 <= i < chat_idx(cs, id) implies (#[trigger] cs[i]).id != id by {
            if i > 0 {
                assert(cs.drop_first()[i - 1] == cs[i]);
            }
        }
        assert(find_chat(cs, id) is Some ==> cs[chat_idx(cs, id)]
            == cs.drop_first()[chat_idx(cs.drop_first(), id)]);
    }
}

/// Appending a record does not change the lookup of an id that is
/// already present, and resolves an absent id to the new record
/// exactly when it carries that id.
pub proof fn lemma_find_chat_push(cs: Seq<ChatRec>, x: ChatRec, id: u128)
    ensures
        find_chat(cs, id) is None && x.id == id ==> find_chat(cs.push(x), id) == Some(x),
        find_chat(cs, id) is None && x.id != id ==> find_chat(cs.push(x), id) is None,
        find_chat(cs, id) is Some ==> find_chat(cs.push(x), id) == find_chat(cs, id),
    decreases cs.len(),
{
    if cs.len() == 0 {
        assert(cs.push(x)[0] == x);
        assert(cs.push(x).drop_first() =~= Seq::<ChatRec>::empty());
        if x.id == id {
            assert(find_chat(cs.push(x), id) == Some(x));
        } else {
            assert(find_chat(Seq::<ChatRec>::empty(), id) is None);
            assert(find_chat(cs.push(x), id) is None);
        }
    } else {
        lemma_find_chat_push(cs.drop_first(), x, id);
        assert(cs.push(x).drop_first() =~= cs.drop_first().push(x));
        assert(cs.push(x)[0] == cs[0]);
        if cs[0].id == id {
            assert(find_chat(cs.push(x), id) == Some(cs[0]));
        } else {
            assert(find_chat(cs, id) == find_chat(cs.drop_first(), id));
            assert(find_chat(cs.push(x), id) == find_chat(cs.drop_first().push(x), id));
        }
    }
}

/// A transform that keeps every record's id in place keeps every
/// lookup at the same position.
pub proof fn lemma_find_chat_pointwise(cs: Seq<ChatRec>, ys: Seq<ChatRec>, id: u128)
    requires
        cs.len() == ys.len(),
        forall|i: int| 0 <= i < cs.len() ==> (#[trigger] ys[i]).id == cs[i].id,
    ensures
        chat_idx(ys, id) == chat_idx(cs, id),
        find_chat(ys, id) is Some <==> find_chat(cs, id) is Some,
        find_chat(cs, id) is Some ==> find_chat(ys, id) == Some(ys[chat_idx(cs, id)]),
    decreases cs.len(),
{
    if cs.len() > 0 {
        assert(ys[0].id == cs[0].id);
        if cs[0].id != id {
            assert forall|i: int|
                0 <= i < cs.drop_first().len() implies (#[trigger] ys.drop_first()[i]).id
                == cs.drop_first()[i].id by {
                assert(ys.drop_first()[i] == ys[i + 1]);
                assert(cs.drop_first()[i] == cs[i + 1]);
            }
            lemma_find_chat_pointwise(cs.drop_first(), ys.drop_first(), id);
            lemma_chat_find(cs.drop_first(), id);
            assert(find_chat(cs, id) is Some ==> ys[chat_idx(cs, id)]
                == ys.drop_first()[chat_idx(cs.drop_first(), id)]);
        }
    }
}


/// The position of the turn with the given id; the length when there
/// is none.
pub open spec fn turn_idx(ts: Seq<TurnRec>, id: u128) -> int
    decreases ts.len(),
{
    if ts.len() == 0 {
        0
    } else if ts[0].id == id {
        0
    } else {
        1 + turn_idx(ts.drop_first(), id)
    }
}

/// `find_turn` and `turn_idx` agree: the index is in range exactly when
/// the record exists, and then points at it.
pub proof fn lemma_turn_find(ts: Seq<TurnRec>, id: u128)
    ensures
        0 <= turn_idx(ts, id) <= ts.len(),
        find_turn(ts, id) is Some <==> turn_idx(ts, id) < ts.len(),
        find_turn(ts, id) is Some ==> ts[turn_idx(ts, id)] == find_turn(ts, id)->Some_0
            && ts[turn_idx(ts, id)].id == id,
        forall|i: int| 0 <= i < turn_idx(ts, id) ==> (#[trigger] ts[i]).id != id,
    decreases ts.len(),
{
    if ts.len() > 0 && ts[0].id != id {
        lemma_turn_find(ts.drop_first(), id);
        assert forall|i: int| 0 <= i < turn_idx(ts, id) implies (#[trigger] ts[i]).id != id by {
            if i > 0 {
                assert(ts.drop_first()[i - 1] == ts[i]);
            }
        }
        assert(find_turn(ts, id) is Some ==> ts[turn_idx(ts, id)]
            == ts.drop_first()[turn_idx(ts.drop_first(), id)]);
    }
}

/// Appending a record does not change the lookup of an id that is
/// already present, and resolves an absent id to the new record
/// exactly when it carries that id.
pub proof fn lemma_find_turn_push(ts: Seq<TurnRec>, x: TurnRec, id: u128)
    ensures
        find_turn(ts, id) is None && x.id == id ==> find_turn(ts.push(x), id) == Some(x),
        find_turn(ts, id) is None && x.id != id ==> find_turn(ts.push(x), id) is None,
        find_turn(ts, id) is Some ==> find_turn(ts.push(x), id) == find_turn(ts, id),
    decreases ts.len(),
{
    if ts.len() == 0 {
        assert(ts.push(x)[0] == x);
        assert(ts.push(x).drop_first() =~= Seq::<TurnRec>::empty());
        if x.id == id {
            assert(find_turn(ts.push(x), id) == Some(x));
        } else {
            assert(find_turn(Seq::<TurnRec>::empty(), id) is None);
            assert(find_turn(ts.push(x), id) is None);
        }
    } else {
        lemma_find_turn_push(ts.drop_first(), x, id);
        assert(ts.push(x).drop_first() =~= ts.drop_first().push(x));
        assert(ts.push(x)[0] == ts[0]);
        if ts[0].id == id {
            assert(find_turn(ts.push(x), id) == Some(ts[0]));
        } else {
            assert(find_turn(ts, id) == find_turn(ts.drop_first(), id));
            assert(find_turn(ts.push(x), id) == find_turn(ts.drop_first().push(x), id));
        }
    }
}

/// A transform that keeps every record's id in place keeps every
/// lookup at the same position.
pub proof fn lemma_find_turn_pointwise(ts: Seq<TurnRec>, ys: Seq<TurnRec>, id: u128)
    requires
        ts.len() == ys.len(),
        forall|i: int| 0 <= i < ts.len() ==> (#[trigger] ys[i]).id == ts[i].id,
    ensures
        turn_idx(ys, id) == turn_idx(ts, id),
        find_turn(ys, id) is Some <==> find_turn(ts, id) is Some,
        find_turn(ts, id) is Some ==> find_turn(ys, id) == Some(ys[turn_idx(ts, id)]),
    decreases ts.len(),
{
    if ts.len() > 0 {
        assert(ys[0].id == ts[0].id);
        if ts[0].id != id {
            assert forall|i: int|
                0 <= i < ts.drop_first().len() implies (#[trigger] ys.drop_first()[i]).id
                == ts.drop_first()[i].id by {
                assert(ys.drop_first()[i] == ys[i + 1]);
                assert(ts.drop_first()[i] == ts[i + 1]);
            }
            lemma_find_turn_pointwise(ts.drop_first(), ys.drop_first(), id);
            lemma_turn_find(ts.drop_first(), id);
            assert(find_turn(ts, id) is Some ==> ys[turn_idx(ts, id)]
                == ys.drop_first()[turn_idx(ts.drop_first(), id)]);
        }
    }
}


/// The position of the bot with the given id; the length when there
/// is none.
pub open spec fn bot_idx(bs: Seq<BotRec>, id: u128) -> int
    decreases bs.len(),
{
    if bs.len() == 0 {
        0
    } else if bs[0].id == id {
        0
    } else {
        1 + bot_idx(bs.drop_first(), id)
    }
}

/// `find_bot` and `bot_idx` agree: the index is in range exactly when
/// the record exists, and then points at it.
pub proof fn lemma_bot_find(bs: Seq<BotRec>, id: u128)
    ensures
        0 <= bot_idx(bs, id) <= bs.len(),
        find_bot(bs, id) is Some <==> bot_idx(bs, id) < bs.len(),
        find_bot(bs, id) is Some ==> bs[bot_idx(bs, id)] == find_bot(bs, id)->Some_0
            && bs[bot_idx(bs, id)].id == id,
        forall|i: int| 0 <= i < bot_idx(bs, id) ==> (#[trigger] bs[i]).id != id,
    decreases bs.len(),
{
    if bs.len() > 0 && bs[0].id != id {
        lemma_bot_find(bs.drop_first(), id);
        assert forall|i: int| 0 <= i < bot_idx(bs, id) implies (#[trigger] bs[i]).id != id by {
            if i > 0 {
                assert(bs.drop_first()[i - 1] == bs[i]);
            }
        }
        assert(find_bot(bs, id) is Some ==> bs[bot_idx(bs, id)]
            == bs.drop_first()[bot_idx(bs.drop_first(), id)]);
    }
}

/// Appending a record does not change the lookup of an id that is
/// already present, and resolves an absent id to the new record
/// exactly when it carries that id.
pub proof fn lemma_find_bot_push(bs: Seq<BotRec>, x: BotRec, id: u128)
    ensures
        find_bot(bs, id) is None && x.id == id ==> find_bot(bs.push(x), id) == Some(x),
        find_bot(bs, id) is None && x.id != id ==> find_bot(bs.push(x), id) is None,
        find_bot(bs, id) is Some ==> find_bot(bs.push(x), id) == find_bot(bs, id),
    decreases bs.len(),
{
    if bs.len() == 0 {
        assert(bs.push(x)[0] == x);
        assert(bs.push(x).drop_first() =~= Seq::<BotRec>::empty());
        if x.id == id {
            assert(find_bot(bs.push(x), id) == Some(x));
        } else {
            assert(find_bot(Seq::<BotRec>::empty(), id) is None);
            assert(find_bot(bs.push(x), id) is None);
        }
    } else {
        lemma_find_bot_push(bs.drop_first(), x, id);
        assert(bs.push(x).drop_first() =~= bs.drop_first().push(x));
        assert(bs.push(x)[0] == bs[0]);
        if bs[0].id == id {
            assert(find_bot(bs.push(x), id) == Some(bs[0]));
        } else {
            assert(find_bot(bs, id) == find_bot(bs.drop_first(), id));
            assert(find_bot(bs.push(x), id) == find_bot(bs.drop_first().push(x), id));
        }
    }
}

/// A transform that keeps every record's id in place keeps every
/// lookup at the same position.
pub proof fn lemma_find_bot_pointwise(bs: Seq<BotRec>, ys: Seq<BotRec>, id: u128)
    requires
        bs.len() == ys.len(),
        forall|i: int| 0 <= i < bs.len() ==> (#[trigger] ys[i]).id == bs[i].id,
    ensures
        bot_idx(ys, id) == bot_idx(bs, id),
        find_bot(ys, id) is Some <==> find_bot(bs, id) is Some,
        find_bot(bs, id) is Some ==> find_bot(ys, id) == Some(ys[bot_idx(bs, id)]),
    decreases bs.len(),
{
    if bs.len() > 0 {
        assert(ys[0].id == bs[0].id);
        if bs[0].id != id {
            assert forall|i: int|
                0 <= i < bs.drop_first().len() implies (#[trigger] ys.drop_first()[i]).id
                == bs.drop_first()[i].id by {
                assert(ys.drop_first()[i] == ys[i + 1]);
                assert(bs.drop_first()[i] == bs[i + 1]);
            }
            lemma_find_bot_pointwise(bs.drop_first(), ys.drop_first(), id);
            lemma_bot_find(bs.drop_first(), id);
            assert(find_bot(bs, id) is Some ==> ys[bot_idx(bs, id)]
                == ys.drop_first()[bot_idx(bs.drop_first(), id)]);
        }
    }
}

/// Two turn sequences that agree on which chat each of the first `i`
/// turns belongs to agree on the count.
pub proof fn lemma_count_before_agree(ts1: Seq<TurnRec>, ts2: Seq<TurnRec>, c: u128, i: int)
    requires
        i <= ts1.len(),
        i <= ts2.len(),
        forall|j: int| 0 <= j < i ==> (#[trigger] ts1[j]).chat_id == ts2[j].chat_id,
    ensures
        count_before(ts1, c, i) == count_before(ts2, c, i),
    decreases i,
{
    if i > 0 {
        lemma_count_before_agree(ts1, ts2, c, i - 1);
    }
}

/// The count of a chat's turns among the first `i` is the length of
/// the filtered view of that prefix.
pub proof fn lemma_count_is_turns_len(ts: Seq<TurnRec>, c: u128, i: int)
    requires
        0 <= i <= ts.len(),
    ensures
        count_before(ts, c, i) == turns_of(ts.take(i), c).len(),
    decreases i,
{
    if i > 0 {
        lemma_count_is_turns_len(ts, c, i - 1);
        assert(ts.take(i).drop_last() =~= ts.take(i - 1));
        assert(ts.take(i).last() == ts[i - 1]);
    }
}

/// How many of the first `i` turns belong to the given chat.
pub open spec fn count_before(ts: Seq<TurnRec>, chat_id: u128, i: int) -> int
    decreases i,
{
    if i <= 0 {
        0
    } else {
        count_before(ts, chat_id, i - 1) + if ts[i - 1].chat_id == chat_id {
            1int
        } else {
            0int
        }
    }
}

/// The durable store.
pub struct ConversationStore {
    pub sessions: Vec<SessionRec>,
    pub chats: Vec<ChatRec>,
    pub turns: Vec<TurnRec>,
    pub bots: Vec<BotRec>,
    pub next_id: u128,
    pub clock: u64,
}

impl ConversationStore {
    /// Well-formed: ids grow with insertion order and stay below the
    /// id counter; every turn's chat exists, agrees on the session and
    /// shares its status (deletion cascades whole chats, never single
    /// turns); and within each chat, turn `i` carries sequence number
    /// `count-of-earlier-turns-of-that-chat + 1`.
    pub open spec fn wf(self) -> bool {
        &&& forall|i: int, j: int|
            0 <= i < j < self.sessions@.len() ==> self.sessions@[i].id < self.sessions@[j].id
        &&& forall|i: int|
            0 <= i < self.sessions@.len() ==> (#[trigger] self.sessions@[i]).id < self.next_id
        &&& forall|i: int, j: int|
            0 <= i < j < self.chats@.len() ==> self.chats@[i].id < self.chats@[j].id
        &&& forall|i: int|
            0 <= i < self.chats@.len() ==> (#[trigger] self.chats@[i]).id < self.next_id
        &&& forall|i: int, j: int|
            0 <= i < j < self.turns@.len() ==> self.turns@[i].id < self.turns@[j].id
        &&& forall|i: int|
            0 <= i < self.turns@.len() ==> (#[trigger] self.turns@[i]).id < self.next_id
        &&& forall|i: int, j: int|
            0 <= i < j < self.bots@.len() ==> self.bots@[i].id < self.bots@[j].id
        &&& forall|i: int|
            0 <= i < self.bots@.len() ==> (#[trigger] self.bots@[i]).id < self.next_id
        &&& forall|i: int|
            0 <= i < self.turns@.len() ==> {
                let t = #[trigger] self.turns@[i];
                &&& find_chat(self.chats@, t.chat_id) is Some
                &&& find_chat(self.chats@, t.chat_id)->Some_0.session_id == t.session_id
                &&& find_chat(self.chats@, t.chat_id)->Some_0.status == t.status
            }
        &&& forall|i: int|
            0 <= i < self.turns@.len() ==> (#[trigger] self.turns@[i]).sequence_number as int
                == count_before(self.turns@, self.turns@[i].chat_id, i) + 1
    }

    /// Whether another record can still be created: the id counter and
    /// the clock have room.
    pub open spec fn has_room(self) -> bool {
        self.next_id < u128::MAX && self.clock < u64::MAX
    }

    /// An empty store.
    pub fn new() -> (r: Self)
        ensures
            r.wf(),
            r.sessions@.len() == 0,
            r.chats@.len() == 0,
            r.turns@.len() == 0,
            r.bots@.len() == 0,
            r.next_id == 1,
            r.clock == 0,
    {
        ConversationStore {
            sessions: Vec::new(),
            chats: Vec::new(),
            turns: Vec::new(),
            bots: Vec::new(),
            next_id: 1,
            clock: 0,
        }
    }
}


fn copy_session(s: &SessionRec) -> (r: SessionRec)
    ensures
        r == *s,
{
    SessionRec { id: s.id, created_at: s.created_at, updated_at: s.updated_at, status: s.status }
}

fn copy_chat(c: &ChatRec) -> (r: ChatRec)
    ensures
        r == *c,
{
    ChatRec {
        id: c.id,
        session_id: c.session_id,
        title: c.title.clone(),
        created_at: c.created_at,
        updated_at: c.updated_at,
        status: c.status,
    }
}

fn copy_turn(t: &TurnRec) -> (r: TurnRec)
    ensures
        r == *t,
{
    let bot_response = match &t.bot_response {
        Some(s) => Some(s.clone()),
        None => None,
    };
    TurnRec {
        id: t.id,
        session_id: t.session_id,
        chat_id: t.chat_id,
        sequence_number: t.sequence_number,
        user_query: t.user_query.clone(),
        bot_response,
        created_at: t.created_at,
        updated_at: t.updated_at,
        status: t.status,
    }
}

fn copy_bot(b: &BotRec) -> (r: BotRec)
    ensures
        r == *b,
{
    BotRec {
        id: b.id,
        name: b.name.clone(),
        created_at: b.created_at,
        updated_at: b.updated_at,
        status: b.status,
    }
}

/// The total number of turns a chat has, deleted ones included.
pub open spec fn turn_count(ts: Seq<TurnRec>, chat_id: u128) -> int {
    count_before(ts, chat_id, ts.len() as int)
}

impl ConversationStore {
    fn session_pos(&self, id: u128) -> (r: Option<usize>)
        ensures
            r matches Some(i) ==> i < self.sessions@.len() && i as int == session_idx(
                self.sessions@,
                id,
            ) && find_session(self.sessions@, id) == Some(self.sessions@[i as int]),
            r is None ==> find_session(self.sessions@, id) is None,
    {
        let ghost xs = self.sessions@;
        proof {
            assert(xs.skip(0) =~= xs);
        }
        let mut i: usize = 0;
        while i < self.sessions.len()
            invariant
                xs == self.sessions@,
                i <= xs.len(),
                find_session(xs, id) == find_session(xs.skip(i as int), id),
                session_idx(xs, id) == i + session_idx(xs.skip(i as int), id),
            decreases xs.len() - i,
        {
            proof {
                assert(xs.skip(i as int).drop_first() =~= xs.skip(i + 1));
                assert(xs.skip(i as int)[0] == xs[i as int]);
            }
            if self.sessions[i].id == id {
                return Some(i);
            }
            i += 1;
        }
        proof {
            assert(xs.skip(xs.len() as int) =~= Seq::<SessionRec>::empty());
        }
        None
    }

    fn chat_pos(&self, id: u128) -> (r: Option<usize>)
        ensures
            r matches Some(i) ==> i < self.chats@.len() && i as int == chat_idx(self.chats@, id)
                && find_chat(self.chats@, id) == Some(self.chats@[i as int]),
            r is None ==> find_chat(self.chats@, id) is None,
    {
        let ghost xs = self.chats@;
        proof {
            assert(xs.skip(0) =~= xs);
        }
        let mut i: usize = 0;
        while i < self.chats.len()
            invariant
                xs == self.chats@,
                i <= xs.len(),
                find_chat(xs, id) == find_chat(xs.skip(i as int), id),
                chat_idx(xs, id) == i + chat_idx(xs.skip(i as int), id),
            decreases xs.len() - i,
        {
            proof {
                assert(xs.skip(i as int).drop_first() =~= xs.skip(i + 1));
                assert(xs.skip(i as int)[0] == xs[i as int]);
            }
            if self.chats[i].id == id {
                return Some(i);
            }
            i += 1;
        }
        proof {
            assert(xs.skip(xs.len() as int) =~= Seq::<ChatRec>::empty());
        }
        None
    }

    fn turn_pos(&self, id: u128) -> (r: Option<usize>)
        ensures
            r matches Some(i) ==> i < self.turns@.len() && i as int == turn_idx(self.turns@, id)
                && find_turn(self.turns@, id) == Some(self.turns@[i as int]),
            r is None ==> find_turn(self.turns@, id) is None,
    {
        let ghost xs = self.turns@;
        proof {
            assert(xs.skip(0) =~= xs);
        }
        let mut i: usize = 0;
        while i < self.turns.len()
            invariant
                xs == self.turns@,
                i <= xs.len(),
                find_turn(xs, id) == find_turn(xs.skip(i as int), id),
                turn_idx(xs, id) == i + turn_idx(xs.skip(i as int), id),
            decreases xs.len() - i,
        {
            proof {
                assert(xs.skip(i as int).drop_first() =~= xs.skip(i + 1));
                assert(xs.skip(i as int)[0] == xs[i as int]);
            }
            if self.turns[i].id == id {
                return Some(i);
            }
            i += 1;
        }
        proof {
            assert(xs.skip(xs.len() as int) =~= Seq::<TurnRec>::empty());
        }
        None
    }

    fn bot_pos(&self, id: u128) -> (r: Option<usize>)
        ensures
            r matches Some(i) ==> i < self.bots@.len() && i as int == bot_idx(self.bots@, id)
                && find_bot(self.bots@, id) == Some(self.bots@[i as int]),
            r is None ==> find_bot(self.bots@, id) is None,
    {
        let ghost xs = self.bots@;
        proof {
            assert(xs.skip(0) =~= xs);
        }
        let mut i: usize = 0;
        while i < self.bots.len()
            invariant
                xs == self.bots@,
                i <= xs.len(),
                find_bot(xs, id) == find_bot(xs.skip(i as int), id),
                bot_idx(xs, id) == i + bot_idx(xs.skip(i as int), id),
            decreases xs.len() - i,
        {
            proof {
                assert(xs.skip(i as int).drop_first() =~= xs.skip(i + 1));
                assert(xs.skip(i as int)[0] == xs[i as int]);
            }
            if self.bots[i].id == id {
                return Some(i);
            }
            i += 1;
        }
        proof {
            assert(xs.skip(xs.len() as int) =~= Seq::<BotRec>::empty());
        }
        None
    }

    /// Create a new session.  Always succeeds while the id counter and
    /// clock have room; otherwise fails with a storage error.
    pub fn create_session(&mut self) -> (r: Result<SessionRec, RagError>)
        requires
            old(self).wf(),
        ensures
            final(self).wf(),
            !old(self).has_room() ==> r == Err::<SessionRec, RagError>(RagError::StorageFailure)
                && *final(self) == *old(self),
            old(self).has_room() ==> r is Ok && r->Ok_0 == (SessionRec {
                id: old(self).next_id,
                created_at: (old(self).clock + 1) as u64,
                updated_at: (old(self).clock + 1) as u64,
                status: EntityStatus::Active,
            }) && final(self).sessions@ == old(self).sessions@.push(r->Ok_0) && final(self).chats@
                == old(self).chats@ && final(self).turns@ == old(self).turns@ && final(self).bots@
                == old(self).bots@ && final(self).next_id == old(self).next_id + 1 && final(self).clock == old(self).clock + 1 && active_session(final(self).sessions@, r->Ok_0.id)
                == Some(r->Ok_0),
    {
        if self.next_id == u128::MAX || self.clock == u64::MAX {
            return Err(RagError::StorageFailure);
        }
        let now = self.clock + 1;
        let id = self.next_id;
        let s = SessionRec { id, created_at: now, updated_at: now, status: EntityStatus::Active };
        let ret = copy_session(&s);
        let ghost old_ss = self.sessions@;
        self.sessions.push(s);
        self.next_id = id + 1;
        self.clock = now;
        proof {
            lemma_session_find(old_ss, id);
            lemma_find_session_push(old_ss, self.sessions@.last(), id);
        }
        Ok(ret)
    }

    /// The session with the given id, unless it is absent or deleted.
    pub fn get_session(&self, id: u128) -> (r: Option<SessionRec>)
        ensures
            r == active_session(self.sessions@, id),
    {
        match self.session_pos(id) {
            Some(i) => {
                if matches!(self.sessions[i].status, EntityStatus::Active) {
                    Some(copy_session(&self.sessions[i]))
                } else {
                    None
                }
            },
            None => None,
        }
    }

    /// Create a chat under an active session.
    pub fn create_chat(&mut self, session_id: u128, title: String) -> (r: Result<
        ChatRec,
        RagError,
    >)
        requires
            old(self).wf(),
        ensures
            final(self).wf(),
            active_session(old(self).sessions@, session_id) is None ==> r == Err::<
                ChatRec,
                RagError,
            >(RagError::NotFound) && *final(self) == *old(self),
            (active_session(old(self).sessions@, session_id) is Some && !old(self).has_room())
                ==> r == Err::<ChatRec, RagError>(RagError::StorageFailure) && *final(self)
                == *old(self),
            (active_session(old(self).sessions@, session_id) is Some && old(self).has_room())
                ==> r is Ok && r->Ok_0 == (ChatRec {
                id: old(self).next_id,
                session_id,
                title,
                created_at: (old(self).clock + 1) as u64,
                updated_at: (old(self).clock + 1) as u64,
                status: EntityStatus::Active,
            }) && final(self).chats@ == old(self).chats@.push(r->Ok_0) && final(self).sessions@
                == old(self).sessions@ && final(self).turns@ == old(self).turns@ && final(self).bots@ == old(self).bots@ && final(self).next_id == old(self).next_id + 1 && final(self).clock == old(self).clock + 1 && active_chat(final(self).chats@, r->Ok_0.id) == Some(
                r->Ok_0,
            ),
    {
        let session_ok = match self.session_pos(session_id) {
            Some(i) => matches!(self.sessions[i].status, EntityStatus::Active),
            None => false,
        };
        if !session_ok {
            return Err(RagError::NotFound);
        }
        if self.next_id == u128::MAX || self.clock == u64::MAX {
            return Err(RagError::StorageFailure);
        }
        let now = self.clock + 1;
        let id = self.next_id;
        let c = ChatRec {
            id,
            session_id,
            title,
            created_at: now,
            updated_at: now,
            status: EntityStatus::Active,
        };
        let ret = copy_chat(&c);
        let ghost old_cs = self.chats@;
        self.chats.push(c);
        self.next_id = id + 1;
        self.clock = now;
        proof {
            lemma_chat_find(old_cs, id);
            lemma_find_chat_push(old_cs, self.chats@.last(), id);
            assert forall|i: int| 0 <= i < self.turns@.len() implies {
                let t = #[trigger] self.turns@[i];
                &&& find_chat(self.chats@, t.chat_id) is Some
                &&& find_chat(self.chats@, t.chat_id)->Some_0.session_id == t.session_id
                &&& find_chat(self.chats@, t.chat_id)->Some_0.status == t.status
            } by {
                lemma_find_chat_push(old_cs, self.chats@.last(), self.turns@[i].chat_id);
            }
        }
        Ok(ret)
    }

    /// The chat with the given id, unless it is absent or deleted.
    pub fn get_chat(&self, id: u128) -> (r: Option<ChatRec>)
        ensures
            r == active_chat(self.chats@, id),
    {
        match self.chat_pos(id) {
            Some(i) => {
                if matches!(self.chats[i].status, EntityStatus::Active) {
                    Some(copy_chat(&self.chats[i]))
                } else {
                    None
                }
            },
            None => None,
        }
    }

    /// Create the next turn of a chat: its sequence number is the
    /// count of the chat's turns so far plus one, read and written in
    /// one atomic call, so concurrent writers on one chat cannot
    /// duplicate or skip a number.
    pub fn create_conversation(&mut self, session_id: u128, chat_id: u128, user_query: String)
        -> (r: Result<TurnRec, RagError>)
        requires
            old(self).wf(),
        ensures
            final(self).wf(),
            active_session(old(self).sessions@, session_id) is None ==> r == Err::<
                TurnRec,
                RagError,
            >(RagError::NotFound) && *final(self) == *old(self),
            (active_session(old(self).sessions@, session_id) is Some && active_chat(
                old(self).chats@,
                chat_id,
            ) is None) ==> r == Err::<TurnRec, RagError>(RagError::NotFound) && *final(self)
                == *old(self),
            (active_session(old(self).sessions@, session_id) is Some && active_chat(
                old(self).chats@,
                chat_id,
            ) is Some && active_chat(old(self).chats@, chat_id)->Some_0.session_id != session_id)
                ==> r == Err::<TurnRec, RagError>(RagError::InvalidInput) && *final(self) == *old(self),
            (active_session(old(self).sessions@, session_id) is Some && active_chat(
                old(self).chats@,
                chat_id,
            ) is Some && active_chat(old(self).chats@, chat_id)->Some_0.session_id == session_id
                && !(old(self).has_room() && turn_count(old(self).turns@, chat_id) + 1
                < u32::MAX)) ==> r == Err::<TurnRec, RagError>(RagError::StorageFailure) && *final(self) == *old(self),
            (active_session(old(self).sessions@, session_id) is Some && active_chat(
                old(self).chats@,
                chat_id,
            ) is Some && active_chat(old(self).chats@, chat_id)->Some_0.session_id == session_id
                && old(self).has_room() && turn_count(old(self).turns@, chat_id) + 1 < u32::MAX)
                ==> r is Ok && r->Ok_0 == (TurnRec {
                id: old(self).next_id,
                session_id,
                chat_id,
                sequence_number: (turn_count(old(self).turns@, chat_id) + 1) as u32,
                user_query,
                bot_response: None,
                created_at: (old(self).clock + 1) as u64,
                updated_at: (old(self).clock + 1) as u64,
                status: EntityStatus::Active,
            }) && final(self).turns@ == old(self).turns@.push(r->Ok_0) && final(self).sessions@
                == old(self).sessions@ && final(self).chats@ == old(self).chats@ && final(self).bots@ == old(self).bots@ && final(self).next_id == old(self).next_id + 1 && final(self).clock == old(self).clock + 1 && active_turn(final(self).turns@, r->Ok_0.id) == Some(
                r->Ok_0,
            ),
    {
        let session_ok = match self.session_pos(session_id) {
            Some(i) => matches!(self.sessions[i].status, EntityStatus::Active),
            None => false,
        };
        if !session_ok {
            return Err(RagError::NotFound);
        }
        let ci = match self.chat_pos(chat_id) {
            Some(ci) => ci,
            None => {
                return Err(RagError::NotFound);
            },
        };
        if !matches!(self.chats[ci].status, EntityStatus::Active) {
            return Err(RagError::NotFound);
        }
        if self.chats[ci].session_id != session_id {
            return Err(RagError::InvalidInput);
        }
        let n = self.turns.len();
        let mut cnt: usize = 0;
        let mut i: usize = 0;
        while i < n
            invariant
                n == self.turns@.len(),
                i <= n,
                cnt <= i,
                cnt as int == count_before(self.turns@, chat_id, i as int),
            decreases n - i,
        {
            if self.turns[i].chat_id == chat_id {
                cnt += 1;
            }
            i += 1;
        }
        if self.next_id == u128::MAX || self.clock == u64::MAX || cnt >= (u32::MAX - 1) as usize {
            return Err(RagError::StorageFailure);
        }
        let now = self.clock + 1;
        let id = self.next_id;
        let t = TurnRec {
            id,
            session_id,
            chat_id,
            sequence_number: (cnt as u32) + 1,
            user_query,
            bot_response: None,
            created_at: now,
            updated_at: now,
            status: EntityStatus::Active,
        };
        let ret = copy_turn(&t);
        let ghost old_ts = self.turns@;
        self.turns.push(t);
        self.next_id = id + 1;
        self.clock = now;
        proof {
            lemma_turn_find(old_ts, id);
            lemma_find_turn_push(old_ts, self.turns@.last(), id);
            assert forall|i: int|
                0 <= i < self.turns@.len() implies (#[trigger] self.turns@[i]).sequence_number
                as int == count_before(self.turns@, self.turns@[i].chat_id, i) + 1 by {
                lemma_count_before_agree(old_ts, self.turns@, self.turns@[i].chat_id, i);
            }
        }
        Ok(ret)
    }

    /// Attach the generated answer to an active turn.  Everything else
    /// about the turn, its sequence number included, stays as it was.
    pub fn update_conversation_response(&mut self, conversation_id: u128, bot_response: String)
        -> (r: Result<TurnRec, RagError>)
        requires
            old(self).wf(),
        ensures
            final(self).wf(),
            active_turn(old(self).turns@, conversation_id) is None ==> r == Err::<
                TurnRec,
                RagError,
            >(RagError::NotFound) && *final(self) == *old(self),
            (active_turn(old(self).turns@, conversation_id) is Some && old(self).clock
                == u64::MAX) ==> r == Err::<TurnRec, RagError>(RagError::StorageFailure) && *final(self) == *old(self),
            (active_turn(old(self).turns@, conversation_id) is Some && old(self).clock < u64::MAX)
                ==> r is Ok && r->Ok_0 == (TurnRec {
                bot_response: Some(bot_response),
                updated_at: (old(self).clock + 1) as u64,
                ..active_turn(old(self).turns@, conversation_id)->Some_0
            }) && final(self).turns@ == old(self).turns@.update(
                turn_idx(old(self).turns@, conversation_id),
                r->Ok_0,
            ) && final(self).sessions@ == old(self).sessions@ && final(self).chats@ == old(self).chats@ && final(self).bots@ == old(self).bots@ && final(self).next_id == old(self).next_id && final(self).clock == old(self).clock + 1 && active_turn(
                final(self).turns@,
                conversation_id,
            ) == Some(r->Ok_0),
    {
        let ti = match self.turn_pos(conversation_id) {
            Some(ti) => ti,
            None => {
                return Err(RagError::NotFound);
            },
        };
        if !matches!(self.turns[ti].status, EntityStatus::Active) {
            return Err(RagError::NotFound);
        }
        if self.clock == u64::MAX {
            return Err(RagError::StorageFailure);
        }
        let now = self.clock + 1;
        let ghost old_ts = self.turns@;
        let mut t = self.turns.remove(ti);
        t.bot_response = Some(bot_response);
        t.updated_at = now;
        let ret = copy_turn(&t);
        self.turns.insert(ti, t);
        self.clock = now;
        proof {
            assert(self.turns@ =~= old_ts.update(ti as int, self.turns@[ti as int]));
            assert forall|i: int|
                0 <= i < self.turns@.len() implies (#[trigger] self.turns@[i]).sequence_number
                as int == count_before(self.turns@, self.turns@[i].chat_id, i) + 1 by {
                lemma_count_before_agree(old_ts, self.turns@, self.turns@[i].chat_id, i);
            }
            lemma_find_turn_pointwise(old_ts, self.turns@, conversation_id);
        }
        Ok(ret)
    }

    /// The turn with the given id, unless it is absent or deleted.
    pub fn get_conversation(&self, id: u128) -> (r: Option<TurnRec>)
        ensures
            r == active_turn(self.turns@, id),
    {
        match self.turn_pos(id) {
            Some(i) => {
                if matches!(self.turns[i].status, EntityStatus::Active) {
                    Some(copy_turn(&self.turns[i]))
                } else {
                    None
                }
            },
            None => None,
        }
    }

    /// Register a chatbot.
    pub fn create_chat_bot(&mut self, name: String) -> (r: Result<BotRec, RagError>)
        requires
            old(self).wf(),
        ensures
            final(self).wf(),
            !old(self).has_room() ==> r == Err::<BotRec, RagError>(RagError::StorageFailure)
                && *final(self) == *old(self),
            old(self).has_room() ==> r is Ok && r->Ok_0 == (BotRec {
                id: old(self).next_id,
                name,
                created_at: (old(self).clock + 1) as u64,
                updated_at: (old(self).clock + 1) as u64,
                status: EntityStatus::Active,
            }) && final(self).bots@ == old(self).bots@.push(r->Ok_0) && final(self).sessions@
                == old(self).sessions@ && final(self).chats@ == old(self).chats@ && final(self).turns@ == old(self).turns@ && final(self).next_id == old(self).next_id + 1 && final(self).clock == old(self).clock + 1 && active_bot(final(self).bots@, r->Ok_0.id) == Some(
                r->Ok_0,
            ),
    {
        if self.next_id == u128::MAX || self.clock == u64::MAX {
            return Err(RagError::StorageFailure);
        }
        let now = self.clock + 1;
        let id = self.next_id;
        let b = BotRec { id, name, created_at: now, updated_at: now, status: EntityStatus::Active };
        let ret = copy_bot(&b);
        let ghost old_bs = self.bots@;
        self.bots.push(b);
        self.next_id = id + 1;
        self.clock = now;
        proof {
            lemma_bot_find(old_bs, id);
            lemma_find_bot_push(old_bs, self.bots@.last(), id);
        }
        Ok(ret)
    }

    /// The chatbot with the given id, unless it is absent or deleted.
    pub fn get_chat_bot(&self, id: u128) -> (r: Option<BotRec>)
        ensures
            r == active_bot(self.bots@, id),
    {
        match self.bot_pos(id) {
            Some(i) => {
                if matches!(self.bots[i].status, EntityStatus::Active) {
                    Some(copy_bot(&self.bots[i]))
                } else {
                    None
                }
            },
            None => None,
        }
    }
}


impl ConversationStore {
    /// The active sessions, most recently created first.
    pub fn list_sessions(&self) -> (r: Vec<SessionRec>)
        ensures
            r@ == active_sessions(self.sessions@).reverse(),
    {
        let mut asc: Vec<SessionRec> = Vec::new();
        proof {
            assert(active_sessions(self.sessions@.take(0)) =~= Seq::<SessionRec>::empty());
        }
        let mut i: usize = 0;
        while i < self.sessions.len()
            invariant
                i <= self.sessions@.len(),
                asc@ == active_sessions(self.sessions@.take(i as int)),
            decreases self.sessions@.len() - i,
        {
            proof {
                assert(self.sessions@.take(i + 1).drop_last() =~= self.sessions@.take(i as int));
                assert(self.sessions@.take(i + 1).last() == self.sessions@[i as int]);
            }
            if matches!(self.sessions[i].status, EntityStatus::Active) {
                asc.push(copy_session(&self.sessions[i]));
            }
            i += 1;
        }
        proof {
            assert(self.sessions@.take(self.sessions@.len() as int) =~= self.sessions@);
        }
        let ghost full = asc@;
        let mut r: Vec<SessionRec> = Vec::new();
        while asc.len() > 0
            invariant
                r@.len() + asc@.len() == full.len(),
                asc@ == full.take(asc@.len() as int),
                forall|j: int| 0 <= j < r@.len() ==> #[trigger] r@[j] == full[full.len() - 1 - j],
            decreases asc@.len(),
        {
            proof {
                assert(full.take(asc@.len() as int).drop_last() =~= full.take(asc@.len() - 1));
                assert(full.take(asc@.len() as int).last() == full[asc@.len() - 1]);
            }
            let x = asc.pop().unwrap();
            r.push(x);
        }
        proof {
            assert(r@ =~= active_sessions(self.sessions@).reverse());
        }
        r
    }

    /// The active chats of a session, oldest first.
    pub fn list_chats_by_session(&self, session_id: u128) -> (r: Vec<ChatRec>)
        ensures
            r@ == active_chats_of(self.chats@, session_id),
    {
        let mut r: Vec<ChatRec> = Vec::new();
        proof {
            assert(active_chats_of(self.chats@.take(0), session_id) =~= Seq::<ChatRec>::empty());
        }
        let mut i: usize = 0;
        while i < self.chats.len()
            invariant
                i <= self.chats@.len(),
                r@ == active_chats_of(self.chats@.take(i as int), session_id),
            decreases self.chats@.len() - i,
        {
            proof {
                assert(self.chats@.take(i + 1).drop_last() =~= self.chats@.take(i as int));
                assert(self.chats@.take(i + 1).last() == self.chats@[i as int]);
            }
            if matches!(self.chats[i].status, EntityStatus::Active) && self.chats[i].session_id
                == session_id {
                r.push(copy_chat(&self.chats[i]));
            }
            i += 1;
        }
        proof {
            assert(self.chats@.take(self.chats@.len() as int) =~= self.chats@);
        }
        r
    }

    /// The active turns of a chat, oldest first (ascending sequence
    /// number).
    pub fn list_conversations_by_chat(&self, chat_id: u128) -> (r: Vec<TurnRec>)
        ensures
            r@ == active_turns_of(self.turns@, chat_id),
    {
        let mut r: Vec<TurnRec> = Vec::new();
        proof {
            assert(active_turns_of(self.turns@.take(0), chat_id) =~= Seq::<TurnRec>::empty());
        }
        let mut i: usize = 0;
        while i < self.turns.len()
            invariant
                i <= self.turns@.len(),
                r@ == active_turns_of(self.turns@.take(i as int), chat_id),
            decreases self.turns@.len() - i,
        {
            proof {
                assert(self.turns@.take(i + 1).drop_last() =~= self.turns@.take(i as int));
                assert(self.turns@.take(i + 1).last() == self.turns@[i as int]);
            }
            if self.turns[i].chat_id == chat_id && matches!(
                self.turns[i].status,
                EntityStatus::Active,
            ) {
                r.push(copy_turn(&self.turns[i]));
            }
            i += 1;
        }
        proof {
            assert(self.turns@.take(self.turns@.len() as int) =~= self.turns@);
        }
        r
    }

    /// The active turns of a session, oldest first.
    pub fn list_conversations_by_session(&self, session_id: u128) -> (r: Vec<TurnRec>)
        ensures
            r@ == active_turns_of_session(self.turns@, session_id),
    {
        let mut r: Vec<TurnRec> = Vec::new();
        proof {
            assert(active_turns_of_session(self.turns@.take(0), session_id) =~= Seq::<
                TurnRec,
            >::empty());
        }
        let mut i: usize = 0;
        while i < self.turns.len()
            invariant
                i <= self.turns@.len(),
                r@ == active_turns_of_session(self.turns@.take(i as int), session_id),
            decreases self.turns@.len() - i,
        {
            proof {
                assert(self.turns@.take(i + 1).drop_last() =~= self.turns@.take(i as int));
                assert(self.turns@.take(i + 1).last() == self.turns@[i as int]);
            }
            if self.turns[i].session_id == session_id && matches!(
                self.turns[i].status,
                EntityStatus::Active,
            ) {
                r.push(copy_turn(&self.turns[i]));
            }
            i += 1;
        }
        proof {
            assert(self.turns@.take(self.turns@.len() as int) =~= self.turns@);
        }
        r
    }

    /// The most recent active turns of a chat, newest first, at most
    /// `limit` of them.  This is the bounded history window: it never
    /// loads more of a long chat than asked for.
    pub fn list_last_conversations_by_chat(&self, chat_id: u128, limit: usize) -> (r: Vec<TurnRec>)
        ensures
            r@ == active_turns_of(self.turns@, chat_id).reverse().take(
                if (limit as int) < active_turns_of(self.turns@, chat_id).len() {
                    limit as int
                } else {
                    active_turns_of(self.turns@, chat_id).len() as int
                },
            ),
    {
        let mut asc = self.list_conversations_by_chat(chat_id);
        let ghost full = asc@;
        let mut r: Vec<TurnRec> = Vec::new();
        while asc.len() > 0 && r.len() < limit
            invariant
                r@.len() + asc@.len() == full.len(),
                r@.len() <= limit,
                asc@ == full.take(asc@.len() as int),
                forall|j: int| 0 <= j < r@.len() ==> #[trigger] r@[j] == full[full.len() - 1 - j],
            decreases asc@.len(),
        {
            proof {
                assert(full.take(asc@.len() as int).drop_last() =~= full.take(asc@.len() - 1));
                assert(full.take(asc@.len() as int).last() == full[asc@.len() - 1]);
            }
            let x = asc.pop().unwrap();
            r.push(x);
        }
        proof {
            let cap = if (limit as int) < full.len() {
                limit as int
            } else {
                full.len() as int
            };
            assert(r@.len() == cap);
            assert(r@ =~= full.reverse().take(cap));
        }
        r
    }

    /// Soft-delete a chat and, in cascade, its turns.  Deleting an
    /// already-deleted chat changes nothing, so deleting twice leaves
    /// exactly the state one deletion leaves.
    pub fn delete_chat(&mut self, chat_id: u128) -> (r: Result<(), RagError>)
        requires
            old(self).wf(),
        ensures
            final(self).wf(),
            find_chat(old(self).chats@, chat_id) is None ==> r == Err::<(), RagError>(
                RagError::NotFound,
            ) && *final(self) == *old(self),
            (find_chat(old(self).chats@, chat_id) is Some && find_chat(
                old(self).chats@,
                chat_id,
            )->Some_0.status is Deleted) ==> r is Ok && *final(self) == *old(self),
            (find_chat(old(self).chats@, chat_id) is Some && find_chat(
                old(self).chats@,
                chat_id,
            )->Some_0.status is Active && old(self).clock == u64::MAX) ==> r == Err::<
                (),
                RagError,
            >(RagError::StorageFailure) && *final(self) == *old(self),
            (find_chat(old(self).chats@, chat_id) is Some && find_chat(
                old(self).chats@,
                chat_id,
            )->Some_0.status is Active && old(self).clock < u64::MAX) ==> r is Ok && final(self).chats@ == old(self).chats@.update(
                chat_idx(old(self).chats@, chat_id),
                (ChatRec {
                    status: EntityStatus::Deleted,
                    updated_at: (old(self).clock + 1) as u64,
                    ..find_chat(old(self).chats@, chat_id)->Some_0
                }),
            ) && final(self).turns@.len() == old(self).turns@.len() && (forall|i: int|
                0 <= i < old(self).turns@.len() ==> #[trigger] final(self).turns@[i] == (if old(self).turns@[i].chat_id == chat_id {
                    (TurnRec {
                        status: EntityStatus::Deleted,
                        updated_at: (old(self).clock + 1) as u64,
                        ..old(self).turns@[i]
                    })
                } else {
                    old(self).turns@[i]
                })) && final(self).sessions@ == old(self).sessions@ && final(self).bots@ == old(self).bots@ && final(self).next_id == old(self).next_id && final(self).clock == old(self).clock + 1 && active_chat(final(self).chats@, chat_id) is None && find_chat(
                final(self).chats@,
                chat_id,
            ) is Some && find_chat(final(self).chats@, chat_id)->Some_0.status is Deleted,
    {
        let ci = match self.chat_pos(chat_id) {
            Some(ci) => ci,
            None => {
                return Err(RagError::NotFound);
            },
        };
        if matches!(self.chats[ci].status, EntityStatus::Deleted) {
            return Ok(());
        }
        if self.clock == u64::MAX {
            return Err(RagError::StorageFailure);
        }
        let now = self.clock + 1;
        let ghost old_cs = self.chats@;
        let mut c = self.chats.remove(ci);
        c.status = EntityStatus::Deleted;
        c.updated_at = now;
        self.chats.insert(ci, c);
        proof {
            assert(self.chats@ =~= old_cs.update(ci as int, self.chats@[ci as int]));
        }
        let ghost cs2 = self.chats@;
        let ghost old_ts = self.turns@;
        let n = self.turns.len();
        let mut i: usize = 0;
        while i < n
            invariant
                self.chats@ == cs2,
                self.sessions@ == old(self).sessions@,
                self.bots@ == old(self).bots@,
                self.next_id == old(self).next_id,
                self.clock == old(self).clock,
                n == self.turns@.len(),
                old_ts.len() == n,
                i <= n,
                forall|j: int|
                    0 <= j < i ==> #[trigger] self.turns@[j] == (if old_ts[j].chat_id == chat_id {
                        (TurnRec {
                            status: EntityStatus::Deleted,
                            updated_at: now,
                            ..old_ts[j]
                        })
                    } else {
                        old_ts[j]
                    }),
                forall|j: int| i <= j < n ==> #[trigger] self.turns@[j] == old_ts[j],
            decreases n - i,
        {
            if self.turns[i].chat_id == chat_id {
                let ghost pre = self.turns@;
                let mut t = self.turns.remove(i);
                t.status = EntityStatus::Deleted;
                t.updated_at = now;
                self.turns.insert(i, t);
                proof {
                    assert(self.turns@ =~= pre.update(i as int, self.turns@[i as int]));
                }
            }
            i += 1;
        }
        self.clock = now;
        proof {
            lemma_find_chat_pointwise(old_cs, self.chats@, chat_id);
            assert forall|i: int|
                0 <= i < self.turns@.len() implies (#[trigger] self.turns@[i]).sequence_number
                as int == count_before(self.turns@, self.turns@[i].chat_id, i) + 1 by {
                lemma_count_before_agree(old_ts, self.turns@, self.turns@[i].chat_id, i);
            }
            assert forall|i: int| 0 <= i < self.turns@.len() implies {
                let t = #[trigger] self.turns@[i];
                &&& find_chat(self.chats@, t.chat_id) is Some
                &&& find_chat(self.chats@, t.chat_id)->Some_0.session_id == t.session_id
                &&& find_chat(self.chats@, t.chat_id)->Some_0.status == t.status
            } by {
                let t0 = old_ts[i];
                lemma_chat_find(old_cs, t0.chat_id);
                lemma_chat_find(old_cs, chat_id);
                lemma_find_chat_pointwise(old_cs, self.chats@, t0.chat_id);
                if t0.chat_id == chat_id {
                    assert(chat_idx(old_cs, chat_id) == ci);
                } else {
                    assert(old_cs[chat_idx(old_cs, t0.chat_id)].id == t0.chat_id);
                    assert(old_cs[ci as int].id == chat_id);
                    assert(chat_idx(old_cs, t0.chat_id) != ci);
                }
            }
        }
        Ok(())
    }

    /// Soft-delete a session and, in cascade, its chats and their
    /// turns.  Idempotent in the same way as `delete_chat`.
    pub fn delete_session(&mut self, session_id: u128) -> (r: Result<(), RagError>)
        requires
            old(self).wf(),
        ensures
            final(self).wf(),
            find_session(old(self).sessions@, session_id) is None ==> r == Err::<(), RagError>(
                RagError::NotFound,
            ) && *final(self) == *old(self),
            (find_session(old(self).sessions@, session_id) is Some && find_session(
                old(self).sessions@,
                session_id,
            )->Some_0.status is Deleted) ==> r is Ok && *final(self) == *old(self),
            (find_session(old(self).sessions@, session_id) is Some && find_session(
                old(self).sessions@,
                session_id,
            )->Some_0.status is Active && old(self).clock == u64::MAX) ==> r == Err::<
                (),
                RagError,
            >(RagError::StorageFailure) && *final(self) == *old(self),
            (find_session(old(self).sessions@, session_id) is Some && find_session(
                old(self).sessions@,
                session_id,
            )->Some_0.status is Active && old(self).clock < u64::MAX) ==> r is Ok && final(self).sessions@ == old(self).sessions@.update(
                session_idx(old(self).sessions@, session_id),
                (SessionRec {
                    status: EntityStatus::Deleted,
                    updated_at: (old(self).clock + 1) as u64,
                    ..find_session(old(self).sessions@, session_id)->Some_0
                }),
            ) && final(self).chats@.len() == old(self).chats@.len() && (forall|i: int|
                0 <= i < old(self).chats@.len() ==> #[trigger] final(self).chats@[i] == (if old(self).chats@[i].session_id == session_id {
                    (ChatRec {
                        status: EntityStatus::Deleted,
                        updated_at: (old(self).clock + 1) as u64,
                        ..old(self).chats@[i]
                    })
                } else {
                    old(self).chats@[i]
                })) && final(self).turns@.len() == old(self).turns@.len() && (forall|i: int|
                0 <= i < old(self).turns@.len() ==> #[trigger] final(self).turns@[i] == (if old(self).turns@[i].session_id == session_id {
                    (TurnRec {
                        status: EntityStatus::Deleted,
                        updated_at: (old(self).clock + 1) as u64,
                        ..old(self).turns@[i]
                    })
                } else {
                    old(self).turns@[i]
                })) && final(self).bots@ == old(self).bots@ && final(self).next_id == old(self).next_id && final(self).clock == old(self).clock + 1 && active_session(
                final(self).sessions@,
                session_id,
            ) is None,
    {
        let si = match self.session_pos(session_id) {
            Some(si) => si,
            None => {
                return Err(RagError::NotFound);
            },
        };
        if matches!(self.sessions[si].status, EntityStatus::Deleted) {
            return Ok(());
        }
        if self.clock == u64::MAX {
            return Err(RagError::StorageFailure);
        }
        let now = self.clock + 1;
        let ghost old_ss = self.sessions@;
        let mut s = self.sessions.remove(si);
        s.status = EntityStatus::Deleted;
        s.updated_at = now;
        self.sessions.insert(si, s);
        proof {
            assert(self.sessions@ =~= old_ss.update(si as int, self.sessions@[si as int]));
        }
        let ghost ss2 = self.sessions@;
        let ghost old_cs = self.chats@;
        let ncs = self.chats.len();
        let mut i: usize = 0;
        while i < ncs
            invariant
                self.sessions@ == ss2,
                self.turns@ == old(self).turns@,
                self.bots@ == old(self).bots@,
                self.next_id == old(self).next_id,
                self.clock == old(self).clock,
                ncs == self.chats@.len(),
                old_cs.len() == ncs,
                i <= ncs,
                forall|j: int|
                    0 <= j < i ==> #[trigger] self.chats@[j] == (if old_cs[j].session_id
                        == session_id {
                        (ChatRec {
                            status: EntityStatus::Deleted,
                            updated_at: now,
                            ..old_cs[j]
                        })
                    } else {
                        old_cs[j]
                    }),
                forall|j: int| i <= j < ncs ==> #[trigger] self.chats@[j] == old_cs[j],
            decreases ncs - i,
        {
            if self.chats[i].session_id == session_id {
                let ghost pre = self.chats@;
                let mut c = self.chats.remove(i);
                c.status = EntityStatus::Deleted;
                c.updated_at = now;
                self.chats.insert(i, c);
                proof {
                    assert(self.chats@ =~= pre.update(i as int, self.chats@[i as int]));
                }
            }
            i += 1;
        }
        let ghost cs2 = self.chats@;
        let ghost old_ts = self.turns@;
        let nts = self.turns.len();
        let mut i: usize = 0;
        while i < nts
            invariant
                self.sessions@ == ss2,
                self.chats@ == cs2,
                self.bots@ == old(self).bots@,
                self.next_id == old(self).next_id,
                self.clock == old(self).clock,
                nts == self.turns@.len(),
                old_ts.len() == nts,
                i <= nts,
                forall|j: int|
                    0 <= j < i ==> #[trigger] self.turns@[j] == (if old_ts[j].session_id
                        == session_id {
                        (TurnRec {
                            status: EntityStatus::Deleted,
                            updated_at: now,
                            ..old_ts[j]
                        })
                    } else {
                        old_ts[j]
                    }),
                forall|j: int| i <= j < nts ==> #[trigger] self.turns@[j] == old_ts[j],
            decreases nts - i,
        {
            if self.turns[i].session_id == session_id {
                let ghost pre = self.turns@;
                let mut t = self.turns.remove(i);
                t.status = EntityStatus::Deleted;
                t.updated_at = now;
                self.turns.insert(i, t);
                proof {
                    assert(self.turns@ =~= pre.update(i as int, self.turns@[i as int]));
                }
            }
            i += 1;
        }
        self.clock = now;
        proof {
            lemma_find_session_pointwise(old_ss, self.sessions@, session_id);
            assert forall|i: int|
                0 <= i < self.turns@.len() implies (#[trigger] self.turns@[i]).sequence_number
                as int == count_before(self.turns@, self.turns@[i].chat_id, i) + 1 by {
                lemma_count_before_agree(old_ts, self.turns@, self.turns@[i].chat_id, i);
            }
            assert forall|i: int| 0 <= i < self.turns@.len() implies {
                let t = #[trigger] self.turns@[i];
                &&& find_chat(self.chats@, t.chat_id) is Some
                &&& find_chat(self.chats@, t.chat_id)->Some_0.session_id == t.session_id
                &&& find_chat(self.chats@, t.chat_id)->Some_0.status == t.status
            } by {
                let t0 = old_ts[i];
                lemma_chat_find(old_cs, t0.chat_id);
                lemma_find_chat_pointwise(old_cs, self.chats@, t0.chat_id);
                assert(old_cs[chat_idx(old_cs, t0.chat_id)].session_id == t0.session_id);
            }
        }
        Ok(())
    }

    /// The active chatbots, oldest first.
    pub fn list_chat_bots(&self) -> (r: Vec<BotRec>)
        ensures
            r@ == active_bots(self.bots@),
    {
        let mut r: Vec<BotRec> = Vec::new();
        proof {
            assert(active_bots(self.bots@.take(0)) =~= Seq::<BotRec>::empty());
        }
        let mut i: usize = 0;
        while i < self.bots.len()
            invariant
                i <= self.bots@.len(),
                r@ == active_bots(self.bots@.take(i as int)),
            decreases self.bots@.len() - i,
        {
            proof {
                assert(self.bots@.take(i + 1).drop_last() =~= self.bots@.take(i as int));
                assert(self.bots@.take(i + 1).last() == self.bots@[i as int]);
            }
            if matches!(self.bots[i].status, EntityStatus::Active) {
                r.push(copy_bot(&self.bots[i]));
            }
            i += 1;
        }
        proof {
            assert(self.bots@.take(self.bots@.len() as int) =~= self.bots@);
        }
        r
    }

    /// Rename an active chatbot.
    pub fn update_chat_bot(&mut self, chat_bot_id: u128, name: String) -> (r: Result<
        BotRec,
        RagError,
    >)
        requires
            old(self).wf(),
        ensures
            final(self).wf(),
            active_bot(old(self).bots@, chat_bot_id) is None ==> r == Err::<BotRec, RagError>(
                RagError::NotFound,
            ) && *final(self) == *old(self),
            (active_bot(old(self).bots@, chat_bot_id) is Some && old(self).clock == u64::MAX)
                ==> r == Err::<BotRec, RagError>(RagError::StorageFailure) && *final(self) == *old(self),
            (active_bot(old(self).bots@, chat_bot_id) is Some && old(self).clock < u64::MAX)
                ==> r is Ok && r->Ok_0 == (BotRec {
                name,
                updated_at: (old(self).clock + 1) as u64,
                ..active_bot(old(self).bots@, chat_bot_id)->Some_0
            }) && final(self).bots@ == old(self).bots@.update(
                bot_idx(old(self).bots@, chat_bot_id),
                r->Ok_0,
            ) && final(self).sessions@ == old(self).sessions@ && final(self).chats@ == old(self).chats@ && final(self).turns@ == old(self).turns@ && final(self).next_id == old(self).next_id && final(self).clock == old(self).clock + 1 && active_bot(
                final(self).bots@,
                chat_bot_id,
            ) == Some(r->Ok_0),
    {
        let bi = match self.bot_pos(chat_bot_id) {
            Some(bi) => bi,
            None => {
                return Err(RagError::NotFound);
            },
        };
        if !matches!(self.bots[bi].status, EntityStatus::Active) {
            return Err(RagError::NotFound);
        }
        if self.clock == u64::MAX {
            return Err(RagError::StorageFailure);
        }
        let now = self.clock + 1;
        let ghost old_bs = self.bots@;
        let mut b = self.bots.remove(bi);
        b.name = name;
        b.updated_at = now;
        let ret = copy_bot(&b);
        self.bots.insert(bi, b);
        self.clock = now;
        proof {
            assert(self.bots@ =~= old_bs.update(bi as int, self.bots@[bi as int]));
            lemma_find_bot_pointwise(old_bs, self.bots@, chat_bot_id);
        }
        Ok(ret)
    }

    /// Soft-delete a chatbot.  As in the storage layer it models, a
    /// missing or already-deleted chatbot is not an error: the call
    /// simply changes nothing.
    pub fn delete_chat_bot(&mut self, chat_bot_id: u128) -> (r: Result<(), RagError>)
        requires
            old(self).wf(),
        ensures
            final(self).wf(),
            active_bot(old(self).bots@, chat_bot_id) is None ==> r is Ok && *final(self) == *old(self),
            (active_bot(old(self).bots@, chat_bot_id) is Some && old(self).clock == u64::MAX)
                ==> r == Err::<(), RagError>(RagError::StorageFailure) && *final(self) == *old(self),
            (active_bot(old(self).bots@, chat_bot_id) is Some && old(self).clock < u64::MAX)
                ==> r is Ok && final(self).bots@ == old(self).bots@.update(
                bot_idx(old(self).bots@, chat_bot_id),
                (BotRec {
                    status: EntityStatus::Deleted,
                    updated_at: (old(self).clock + 1) as u64,
                    ..active_bot(old(self).bots@, chat_bot_id)->Some_0
                }),
            ) && final(self).sessions@ == old(self).sessions@ && final(self).chats@ == old(self).chats@ && final(self).turns@ == old(self).turns@ && final(self).next_id == old(self).next_id && final(self).clock == old(self).clock + 1 && active_bot(
                final(self).bots@,
                chat_bot_id,
            ) is None,
    {
        let bi = match self.bot_pos(chat_bot_id) {
            Some(bi) => bi,
            None => {
                return Ok(());
            },
        };
        if !matches!(self.bots[bi].status, EntityStatus::Active) {
            return Ok(());
        }
        if self.clock == u64::MAX {
            return Err(RagError::StorageFailure);
        }
        let now = self.clock + 1;
        let ghost old_bs = self.bots@;
        let mut b = self.bots.remove(bi);
        b.status = EntityStatus::Deleted;
        b.updated_at = now;
        self.bots.insert(bi, b);
        self.clock = now;
        proof {
            assert(self.bots@ =~= old_bs.update(bi as int, self.bots@[bi as int]));
            lemma_find_bot_pointwise(old_bs, self.bots@, chat_bot_id);
        }
        Ok(())
    }
}

/// How many turns a chat has when none of the turns is its: zero.
pub proof fn lemma_count_zero(ts: Seq<TurnRec>, c: u128, i: int)
    requires
        0 <= i <= ts.len(),
        forall|j: int| 0 <= j < ts.len() ==> (#[trigger] ts[j]).chat_id != c,
    ensures
        count_before(ts, c, i) == 0,
    decreases i,
{
    if i > 0 {
        lemma_count_zero(ts, c, i - 1);
    }
}

/// The round trip of attaching a response: replacing an active turn
/// with a copy that carries the response, then reading it back
/// through the active view, yields the response with the sequence
/// number unchanged.
pub proof fn lemma_response_roundtrip(ts: Seq<TurnRec>, turn_id: u128, response: String, now: u64)
    requires
        active_turn(ts, turn_id) is Some,
    ensures
        active_turn(
            ts.update(
                turn_idx(ts, turn_id),
                (TurnRec {
                    bot_response: Some(response),
                    updated_at: now,
                    ..active_turn(ts, turn_id)->Some_0
                }),
            ),
            turn_id,
        ) matches Some(t2) && t2.bot_response == Some(response) && t2.sequence_number
            == active_turn(ts, turn_id)->Some_0.sequence_number,
{
    let t2 = TurnRec {
        bot_response: Some(response),
        updated_at: now,
        ..active_turn(ts, turn_id)->Some_0
    };
    let ys = ts.update(turn_idx(ts, turn_id), t2);
    lemma_turn_find(ts, turn_id);
    assert forall|i: int| 0 <= i < ts.len() implies (#[trigger] ys[i]).id == ts[i].id by {}
    lemma_find_turn_pointwise(ts, ys, turn_id);
}

proof fn lemma_numbering_filtered(ts: Seq<TurnRec>, c: u128)
    requires
        forall|i: int|
            0 <= i < ts.len() ==> (#[trigger] ts[i]).sequence_number as int == count_before(
                ts,
                ts[i].chat_id,
                i,
            ) + 1,
    ensures
        forall|j: int|
            0 <= j < turns_of(ts, c).len() ==> (#[trigger] turns_of(ts, c)[j]).sequence_number
                as int == j + 1,
    decreases ts.len(),
{
    if ts.len() > 0 {
        let pre = ts.drop_last();
        assert forall|i: int|
            0 <= i < pre.len() implies (#[trigger] pre[i]).sequence_number as int == count_before(
            pre,
            pre[i].chat_id,
            i,
        ) + 1 by {
            assert(pre[i] == ts[i]);
            lemma_count_before_agree(ts, pre, pre[i].chat_id, i);
        }
        lemma_numbering_filtered(pre, c);
        if ts.last().chat_id == c {
            lemma_count_is_turns_len(ts, c, ts.len() - 1);
            assert(ts.take(ts.len() - 1) =~= pre);
            assert(ts.last().sequence_number as int == turns_of(pre, c).len() + 1);
        }
    }
}

/// Within any chat of a well-formed store, the sequence numbers of its
/// turns are exactly 1, 2, ..., n in insertion order: contiguous,
/// strictly increasing, starting at 1.
pub proof fn lemma_turns_contiguous(s: ConversationStore, chat_id: u128)
    requires
        s.wf(),
    ensures
        forall|j: int|
            0 <= j < turns_of(s.turns@, chat_id).len() ==> (#[trigger] turns_of(
                s.turns@,
                chat_id,
            )[j]).sequence_number as int == j + 1,
{
    lemma_numbering_filtered(s.turns@, chat_id);
}

proof fn lemma_active_turns_all(ts: Seq<TurnRec>, c: u128)
    requires
        forall|i: int|
            0 <= i < ts.len() && (#[trigger] ts[i]).chat_id == c ==> ts[i].status is Active,
    ensures
        active_turns_of(ts, c) == turns_of(ts, c),
    decreases ts.len(),
{
    if ts.len() > 0 {
        lemma_active_turns_all(ts.drop_last(), c);
    }
}

proof fn lemma_active_turns_none(ts: Seq<TurnRec>, c: u128)
    requires
        forall|i: int|
            0 <= i < ts.len() && (#[trigger] ts[i]).chat_id == c ==> !(ts[i].status is Active),
    ensures
        active_turns_of(ts, c) == Seq::<TurnRec>::empty(),
    decreases ts.len(),
{
    if ts.len() > 0 {
        lemma_active_turns_none(ts.drop_last(), c);
    }
}

/// The sequence numbers of the active turns of any chat form the
/// contiguous sequence 1, 2, ..., n: deletion only ever removes a
/// whole chat's turns at once, so the active view never has a gap.
pub proof fn lemma_active_turns_contiguous(s: ConversationStore, chat_id: u128)
    requires
        s.wf(),
    ensures
        forall|j: int|
            0 <= j < active_turns_of(s.turns@, chat_id).len() ==> (#[trigger] active_turns_of(
                s.turns@,
                chat_id,
            )[j]).sequence_number as int == j + 1,
{
    lemma_turns_contiguous(s, chat_id);
    if find_chat(s.chats@, chat_id) is Some && find_chat(s.chats@, chat_id)->Some_0.status
        is Active {
        lemma_active_turns_all(s.turns@, chat_id);
    } else {
        assert forall|i: int|
            0 <= i < s.turns@.len() && (#[trigger] s.turns@[i]).chat_id == chat_id implies !(
        s.turns@[i].status is Active) by {
            assert(find_chat(s.chats@, s.turns@[i].chat_id) is Some);
        }
        lemma_active_turns_none(s.turns@, chat_id);
    }
}

} // verus!
