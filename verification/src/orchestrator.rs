//! The two end-to-end workflows: ingest a document and answer a
//! query.
//!
//! Ingestion: take the text the document-reading edge extracted, cut
//! it into overlapping word windows, embed every window, make sure
//! the tenant's collection exists, and insert one item per window.
//! Text extraction itself stays outside the library: the extractor
//! can abort on malformed documents, and the library's functions must
//! never panic, so the caller extracts (fencing the abort however it
//! likes) and hands in the outcome.  Answering is split around the
//! other step the library cannot perform — the remote generation
//! call: `prepare_answer` does everything up to and including the
//! prompt (resolve or create the session and chat, retrieve, read the
//! bounded history window, record the turn), the caller obtains the
//! answer from its generation backend, and `complete_answer` attaches
//! it to the recorded turn.

use vstd::prelude::*;
use vstd::string::StrSliceExecFns;
use vstd::string::StringExecFns;
use crate::chunking::{chunk_text, spec_chunks};
use crate::embedding::{spec_embed, EmbeddingConfig, HashEmbedder};
use crate::errors::RagError;
use crate::ids::{fresh_id, id_string, parse_id, parsed_uuid, uuid_str_of};
use crate::requests::{ChatData, ChatRequest, QueryData, QueryRequest, SessionData};
use crate::text::u64_to_string;
use crate::index::{
    col_of, search_output, Collection, IndexItem, SearchResult, VectorIndex, MAX_DIM,
};
use crate::index::lemma_accepted_all;
use crate::store::{
    active_bot, active_chat, active_session, active_turn, active_turns_of, turn_count,
    ConversationStore, EntityStatus, SessionRec, TurnRec,
};

verus! {

/// Words per document chunk.
pub const CHUNK_WORDS: usize = 200;

/// Words shared between consecutive chunks.
pub const CHUNK_OVERLAP: usize = 50;

/// How many passages retrieval hands to the prompt.
pub const TOP_K: usize = 5;

/// How many recent turns the history window holds.
pub const HISTORY_LIMIT: usize = 5;

/// The assembled pipeline: the store, the per-tenant index, and the
/// embedding provider.
pub struct RagEngine {
    pub store: ConversationStore,
    pub index: VectorIndex,
    pub embedder: HashEmbedder,
}

/// One indexed item for chunk `j` of a document: its text, position,
/// source path, total count, and embedding.
pub open spec fn chunk_indexed(
    it: IndexItem,
    cks: Seq<Seq<char>>,
    j: int,
    file_name: Seq<char>,
    dim: nat,
) -> bool {
    &&& it.text@ == cks[j]
    &&& it.chunk_index == j
    &&& it.file_path@ == file_name
    &&& it.chunk_count == cks.len()
    &&& it.vector@ == spec_embed(cks[j], dim)
}

/// What a finished ingestion leaves in the index: the tenant's
/// collection holds what it held before plus one item per chunk of
/// the text, in order, and no other tenant's collection moved.
pub open spec fn ingested(
    old_cols: Seq<Collection>,
    new_cols: Seq<Collection>,
    chatbot_id: u128,
    text: Seq<char>,
    file_name: Seq<char>,
    dim: nat,
) -> bool {
    let cks = spec_chunks(text, CHUNK_WORDS as int, CHUNK_OVERLAP as int);
    let base = if col_of(old_cols, chatbot_id) is Some {
        col_of(old_cols, chatbot_id)->Some_0.items@
    } else {
        Seq::<IndexItem>::empty()
    };
    &&& col_of(new_cols, chatbot_id) is Some
    &&& col_of(new_cols, chatbot_id)->Some_0.dim == dim
    &&& col_of(new_cols, chatbot_id)->Some_0.items@.len() == base.len() + cks.len()
    &&& col_of(new_cols, chatbot_id)->Some_0.items@.take(base.len() as int) == base
    &&& forall|j: int|
        0 <= j < cks.len() ==> chunk_indexed(
            #[trigger] col_of(new_cols, chatbot_id)->Some_0.items@[base.len() + j],
            cks,
            j,
            file_name,
            dim,
        )
    &&& forall|o: u128|
        o != chatbot_id ==> #[trigger] col_of(new_cols, o) == col_of(old_cols, o)
}

impl RagEngine {
    /// Well-formed: both stateful parts are, and the embedding
    /// dimension fits the index.
    pub open spec fn wf(self) -> bool {
        &&& self.store.wf()
        &&& self.index.wf()
        &&& self.embedder.config.embedding_dim <= MAX_DIM
    }

    /// Build an empty pipeline.  A configuration whose dimension the
    /// index cannot hold is invalid.
    pub fn new(config: Option<EmbeddingConfig>) -> (r: Result<RagEngine, RagError>)
        ensures
            r matches Ok(e) ==> e.wf() && e.store.sessions@.len() == 0 && e.store.chats@.len()
                == 0 && e.store.turns@.len() == 0 && e.store.bots@.len() == 0
                && e.index.collections@.len() == 0,
            (config matches Some(c) && c.embedding_dim <= MAX_DIM) ==> r is Ok
                && r->Ok_0.embedder.config == config->Some_0,
            (config matches Some(c) && c.embedding_dim > MAX_DIM) ==> r == Err::<
                RagEngine,
                RagError,
            >(RagError::InvalidInput),
            config is None ==> r is Ok && r->Ok_0.embedder.config.embedding_dim == 384,
    {
        let embedder = HashEmbedder::new(config);
        if embedder.embedding_dim() > MAX_DIM {
            return Err(RagError::InvalidInput);
        }
        Ok(RagEngine { store: ConversationStore::new(), index: VectorIndex::new(), embedder })
    }

    /// Ingest already-extracted text for a tenant: chunk it, embed
    /// every chunk, make sure the tenant's collection exists, insert
    /// one item per chunk, and return how many were indexed.  Text
    /// with no words at all yields zero chunks and returns success
    /// with count zero before the collection is ever touched: an
    /// empty document is a valid zero-result outcome, never an
    /// error.  The embedding provider is proved to return one vector
    /// per chunk, so the count mismatch the workflow would otherwise
    /// have to treat as fatal cannot arise here.
    pub fn ingest_text(&mut self, chatbot_id: u128, text: &str, file_name: &str) -> (r: Result<
        usize,
        RagError,
    >)
        requires
            old(self).wf(),
        ensures
            final(self).wf(),
            final(self).store == old(self).store,
            final(self).embedder == old(self).embedder,
            active_bot(old(self).store.bots@, chatbot_id) is None ==> r == Err::<usize, RagError>(
                RagError::NotFound,
            ) && *final(self) == *old(self),
            (active_bot(old(self).store.bots@, chatbot_id) is Some && spec_chunks(
                text@,
                CHUNK_WORDS as int,
                CHUNK_OVERLAP as int,
            ).len() == 0) ==> r == Ok::<usize, RagError>(0) && *final(self) == *old(self),
            (active_bot(old(self).store.bots@, chatbot_id) is Some && spec_chunks(
                text@,
                CHUNK_WORDS as int,
                CHUNK_OVERLAP as int,
            ).len() > 0 && col_of(old(self).index.collections@, chatbot_id) is Some && col_of(
                old(self).index.collections@,
                chatbot_id,
            )->Some_0.dim != old(self).embedder.config.embedding_dim) ==> r == Err::<
                usize,
                RagError,
            >(RagError::IndexFailure) && *final(self) == *old(self),
            (active_bot(old(self).store.bots@, chatbot_id) is Some && spec_chunks(
                text@,
                CHUNK_WORDS as int,
                CHUNK_OVERLAP as int,
            ).len() > 0 && (col_of(old(self).index.collections@, chatbot_id) is None || col_of(
                old(self).index.collections@,
                chatbot_id,
            )->Some_0.dim == old(self).embedder.config.embedding_dim)) ==> r is Ok && r->Ok_0
                == spec_chunks(text@, CHUNK_WORDS as int, CHUNK_OVERLAP as int).len() && ingested(
                old(self).index.collections@,
                final(self).index.collections@,
                chatbot_id,
                text@,
                file_name@,
                old(self).embedder.config.embedding_dim as nat,
            ),
    {
        match self.store.get_chat_bot(chatbot_id) {
            Some(_) => (),
            None => {
                return Err(RagError::NotFound);
            },
        }
        let dim = self.embedder.embedding_dim();
        let mut chunks = chunk_text(text, CHUNK_WORDS, CHUNK_OVERLAP);
        let ghost cks = spec_chunks(text@, CHUNK_WORDS as int, CHUNK_OVERLAP as int);
        let n = chunks.len();
        if n == 0 {
            proof {
                crate::text::lemma_views_of_len(chunks@);
                assert(cks.len() == 0);
            }
            return Ok(0);
        }
        let ghost old_cols = self.index.collections@;
        match self.index.ensure_collection(chatbot_id, dim) {
            Ok(()) => (),
            Err(e) => {
                return Err(e);
            },
        }
        let ghost cols1 = self.index.collections@;
        proof {
            if col_of(old_cols, chatbot_id) is None {
                assert(cols1 =~= old_cols.push(cols1.last()));
                assert forall|o: u128| o != chatbot_id implies #[trigger] col_of(cols1, o)
                    == col_of(old_cols, o) by {
                    crate::index::lemma_col_of_push(old_cols, cols1.last(), o);
                }
            }
        }
        let mut vectors = self.embedder.embed_texts(&chunks);
        let mut items: Vec<IndexItem> = Vec::new();
        let mut i: usize = 0;
        while i < n
            invariant
                n == cks.len(),
                chunks@.len() + i == n,
                vectors@.len() + i == n,
                forall|j: int|
                    0 <= j < chunks@.len() ==> (#[trigger] chunks@[j])@ == cks[i + j],
                forall|j: int|
                    0 <= j < vectors@.len() ==> (#[trigger] vectors@[j])@ == spec_embed(
                        cks[i + j],
                        dim as nat,
                    ),
                items@.len() == i,
                forall|j: int|
                    0 <= j < i ==> chunk_indexed(#[trigger] items@[j], cks, j, file_name@, dim as nat),
                forall|j: int|
                    0 <= j < i ==> crate::index::item_fits(#[trigger] items@[j], dim as int),
            decreases n - i,
        {
            proof {
                assert(chunks@[0]@ == cks[i as int]);
                assert(vectors@[0]@ == spec_embed(cks[i as int], dim as nat));
            }
            let ck = chunks.remove(0);
            let v = vectors.remove(0);
            let it = IndexItem {
                id: fresh_id(),
                vector: v,
                text: ck,
                chunk_index: i,
                file_path: String::from_str(file_name),
                chunk_count: n,
            };
            items.push(it);
            proof {
                assert forall|j: int|
                    0 <= j < chunks@.len() implies (#[trigger] chunks@[j])@ == cks[i + 1 + j] by {}
                assert forall|j: int|
                    0 <= j < vectors@.len() implies (#[trigger] vectors@[j])@ == spec_embed(
                    cks[i + 1 + j],
                    dim as nat,
                ) by {}
            }
            i += 1;
        }
        let ghost items_snap = items@;
        proof {
            lemma_accepted_all(items@, dim as int);
        }
        match self.index.upsert(chatbot_id, items) {
            Ok(out) => {
                proof {
                    crate::text::lemma_views_of_len(chunks@);
                    assert(col_of(cols1, chatbot_id) is Some);
                    let b1 = col_of(cols1, chatbot_id)->Some_0.items@;
                    if col_of(old_cols, chatbot_id) is None {
                        assert(b1 =~= Seq::<IndexItem>::empty());
                    }
                    let c2 = col_of(self.index.collections@, chatbot_id)->Some_0;
                    assert(c2.items@ == b1 + items_snap);
                    assert((b1 + items_snap).take(b1.len() as int) =~= b1);
                    assert forall|j: int| 0 <= j < cks.len() implies chunk_indexed(
                        #[trigger] c2.items@[b1.len() + j],
                        cks,
                        j,
                        file_name@,
                        dim as nat,
                    ) by {
                        assert(c2.items@[b1.len() + j] == items_snap[j]);
                    }
                    assert forall|o: u128| o != chatbot_id implies #[trigger] col_of(
                        self.index.collections@,
                        o,
                    ) == col_of(old_cols, o) by {
                        assert(col_of(self.index.collections@, o) == col_of(cols1, o));
                    }
                    assert(out.inserted == items_snap.len());
                    assert(ingested(
                        old_cols,
                        self.index.collections@,
                        chatbot_id,
                        text@,
                        file_name@,
                        dim as nat,
                    ));
                }
                Ok(out.inserted)
            },
            Err(e) => Err(e),
        }
    }

    /// Ingest the outcome of reading one document at the I/O edge:
    /// the text its extractor produced, or `None` when the document
    /// was unreadable.  An unreadable document ingests as empty text:
    /// zero chunks, success with count zero, nothing indexed and no
    /// error raised.
    pub fn ingest_document(
        &mut self,
        chatbot_id: u128,
        extracted: Option<&str>,
        file_name: &str,
    ) -> (r: Result<usize, RagError>)
        requires
            old(self).wf(),
        ensures
            final(self).wf(),
            final(self).store == old(self).store,
            final(self).embedder == old(self).embedder,
            active_bot(old(self).store.bots@, chatbot_id) is None ==> r == Err::<usize, RagError>(
                RagError::NotFound,
            ) && *final(self) == *old(self),
            (active_bot(old(self).store.bots@, chatbot_id) is Some && extracted is None) ==> r
                == Ok::<usize, RagError>(0) && *final(self) == *old(self),
            (active_bot(old(self).store.bots@, chatbot_id) is Some && extracted is Some
                && spec_chunks(
                extracted->Some_0@,
                CHUNK_WORDS as int,
                CHUNK_OVERLAP as int,
            ).len() == 0) ==> r == Ok::<usize, RagError>(0) && *final(self) == *old(self),
            (active_bot(old(self).store.bots@, chatbot_id) is Some && extracted is Some
                && spec_chunks(extracted->Some_0@, CHUNK_WORDS as int, CHUNK_OVERLAP as int).len()
                > 0 && col_of(old(self).index.collections@, chatbot_id) is Some && col_of(
                old(self).index.collections@,
                chatbot_id,
            )->Some_0.dim != old(self).embedder.config.embedding_dim) ==> r == Err::<
                usize,
                RagError,
            >(RagError::IndexFailure) && *final(self) == *old(self),
            (active_bot(old(self).store.bots@, chatbot_id) is Some && extracted is Some
                && spec_chunks(extracted->Some_0@, CHUNK_WORDS as int, CHUNK_OVERLAP as int).len()
                > 0 && (col_of(old(self).index.collections@, chatbot_id) is None || col_of(
                old(self).index.collections@,
                chatbot_id,
            )->Some_0.dim == old(self).embedder.config.embedding_dim)) ==> r is Ok && r->Ok_0
                == spec_chunks(extracted->Some_0@, CHUNK_WORDS as int, CHUNK_OVERLAP as int).len()
                && ingested(
                old(self).index.collections@,
                final(self).index.collections@,
                chatbot_id,
                extracted->Some_0@,
                file_name@,
                old(self).embedder.config.embedding_dim as nat,
            ),
    {
        match extracted {
            Some(t) => self.ingest_text(chatbot_id, t, file_name),
            None => {
                proof {
                    reveal_strlit("");
                    assert(""@ =~= Seq::<char>::empty());
                    crate::chunking::lemma_chunk_empty(CHUNK_WORDS as int, CHUNK_OVERLAP as int);
                }
                self.ingest_text(chatbot_id, "", file_name)
            },
        }
    }
}


/// Everything `prepare_answer` hands back: where the turn was
/// recorded, the assembled prompt for the generation backend, and the
/// source paths of the retrieved passages.
pub struct PreparedAnswer {
    pub session_id: u128,
    pub chat_id: u128,
    pub conversation_id: u128,
    pub prompt: String,
    pub context_used: Vec<String>,
}

/// The bounded history window of a chat: its last `HISTORY_LIMIT`
/// active turns, oldest first.
pub open spec fn history_window(ts: Seq<TurnRec>, chat_id: u128) -> Seq<TurnRec> {
    let a = active_turns_of(ts, chat_id);
    let m = if (HISTORY_LIMIT as int) < a.len() {
        HISTORY_LIMIT as int
    } else {
        a.len() as int
    };
    a.skip(a.len() - m)
}

/// How a prepared answer relates to the engine state it was built
/// from: `res` is a top-k retrieval over the tenant's collection for
/// the embedded query, the prompt is assembled from the query, `res`
/// and the chat's history window, and the citations are the source
/// paths of `res` in order.
pub open spec fn prepared_from(
    p: PreparedAnswer,
    e: RagEngine,
    chatbot_id: u128,
    query: Seq<char>,
    res: Seq<SearchResult>,
) -> bool {
    &&& col_of(e.index.collections@, chatbot_id) is Some
    &&& search_output(
        res,
        col_of(e.index.collections@, chatbot_id)->Some_0.items@,
        spec_embed(query, e.embedder.config.embedding_dim as nat),
        TOP_K as int,
    )
    &&& p.prompt@ == crate::prompt::spec_prompt(
        query,
        res,
        history_window(e.store.turns@, p.chat_id),
    )
    &&& p.context_used@.len() == res.len()
    &&& forall|j: int| 0 <= j < res.len() ==> (#[trigger] p.context_used@[j])@ == res[j].file_path@
}

/// When an answer is owed: the given session and chat (if any)
/// resolve, the tenant's collection exists with the embedder's
/// dimension, and the store has room for the records the workflow may
/// create.
pub open spec fn answer_ready(
    e: RagEngine,
    chatbot_id: u128,
    session_id: Option<u128>,
    chat_id: Option<u128>,
) -> bool {
    &&& (match session_id {
        Some(sid) => active_session(e.store.sessions@, sid) is Some,
        None => true,
    })
    &&& (match chat_id {
        Some(cid) => {
            &&& session_id is Some
            &&& active_chat(e.store.chats@, cid) is Some
            &&& active_chat(e.store.chats@, cid)->Some_0.session_id == session_id->Some_0
            &&& turn_count(e.store.turns@, cid) + 2 < u32::MAX
        },
        None => true,
    })
    &&& col_of(e.index.collections@, chatbot_id) is Some
    &&& col_of(e.index.collections@, chatbot_id)->Some_0.dim == e.embedder.config.embedding_dim
    &&& e.store.next_id < u128::MAX - 3
    &&& e.store.clock < u64::MAX - 3
}

fn reverse_turns(v: Vec<TurnRec>) -> (r: Vec<TurnRec>)
    ensures
        r@ == v@.reverse(),
{
    let mut v = v;
    let ghost full = v@;
    let mut r: Vec<TurnRec> = Vec::new();
    while v.len() > 0
        invariant
            r@.len() + v@.len() == full.len(),
            v@ == full.take(v@.len() as int),
            forall|j: int| 0 <= j < r@.len() ==> #[trigger] r@[j] == full[full.len() - 1 - j],
        decreases v@.len(),
    {
        proof {
            assert(full.take(v@.len() as int).drop_last() =~= full.take(v@.len() - 1));
            assert(full.take(v@.len() as int).last() == full[v@.len() - 1]);
        }
        let x = v.pop().unwrap();
        r.push(x);
    }
    proof {
        assert(r@ =~= full.reverse());
    }
    r
}

impl RagEngine {
    /// The first half of answering a query: resolve or create the
    /// session and the chat, retrieve the top passages for the
    /// embedded query, read the bounded history window, record the
    /// turn (answer still pending), and assemble the prompt.  The
    /// caller takes the prompt to its generation backend and then
    /// calls `complete_answer`.
    #[verifier::rlimit(60)]
    pub fn prepare_answer(
        &mut self,
        chatbot_id: u128,
        query: &str,
        session_id: Option<u128>,
        chat_id: Option<u128>,
    ) -> (r: Result<PreparedAnswer, RagError>)
        requires
            old(self).wf(),
        ensures
            final(self).wf(),
            final(self).index == old(self).index,
            final(self).embedder == old(self).embedder,
            final(self).store.bots@ == old(self).store.bots@,
            (session_id is Some && active_session(
                old(self).store.sessions@,
                session_id->Some_0,
            ) is None) ==> r == Err::<PreparedAnswer, RagError>(RagError::NotFound) && *final(self)
                == *old(self),
            (session_id is Some && active_session(
                old(self).store.sessions@,
                session_id->Some_0,
            ) is Some && chat_id is Some && active_chat(old(self).store.chats@, chat_id->Some_0)
                is None) ==> r == Err::<PreparedAnswer, RagError>(RagError::NotFound) && *final(self)
                == *old(self),
            (session_id is None && old(self).store.has_room() && chat_id is Some && active_chat(
                old(self).store.chats@,
                chat_id->Some_0,
            ) is None) ==> r == Err::<PreparedAnswer, RagError>(RagError::NotFound) && final(self).store.chats@ == old(self).store.chats@ && final(self).store.turns@ == old(self).store.turns@,
            session_id is Some ==> final(self).store.sessions@ == old(self).store.sessions@,
            chat_id is Some ==> final(self).store.chats@ == old(self).store.chats@,
            r is Err ==> final(self).store.turns@ == old(self).store.turns@,
            answer_ready(*old(self), chatbot_id, session_id, chat_id) ==> r is Ok,
            r matches Ok(p) ==> {
                &&& active_session(final(self).store.sessions@, p.session_id) is Some
                &&& active_chat(final(self).store.chats@, p.chat_id) is Some
                &&& active_chat(final(self).store.chats@, p.chat_id)->Some_0.session_id
                    == p.session_id
                &&& active_turn(final(self).store.turns@, p.conversation_id) is Some
                &&& active_turn(final(self).store.turns@, p.conversation_id)->Some_0.user_query@
                    == query@
                &&& active_turn(final(self).store.turns@, p.conversation_id)->Some_0.bot_response
                    is None
                &&& active_turn(final(self).store.turns@, p.conversation_id)->Some_0.chat_id
                    == p.chat_id
                &&& active_turn(final(self).store.turns@, p.conversation_id)->Some_0.session_id
                    == p.session_id
                &&& final(self).store.turns@ == old(self).store.turns@.push(
                    active_turn(final(self).store.turns@, p.conversation_id)->Some_0,
                )
                &&& (session_id matches Some(sid) ==> p.session_id == sid)
                &&& (chat_id matches Some(cid) ==> p.chat_id == cid)
                &&& (session_id is None ==> p.session_id == old(self).store.next_id && final(self).store.sessions@ == old(self).store.sessions@.push(
                    (SessionRec {
                        id: p.session_id,
                        created_at: (old(self).store.clock + 1) as u64,
                        updated_at: (old(self).store.clock + 1) as u64,
                        status: EntityStatus::Active,
                    }),
                ))
                &&& (chat_id is None ==> final(self).store.chats@.len() == old(self).store.chats@.len() + 1 && final(self).store.chats@.take(
                    old(self).store.chats@.len() as int,
                ) == old(self).store.chats@ && final(self).store.chats@.last().id == p.chat_id
                    && final(self).store.chats@.last().session_id == p.session_id && final(self).store.chats@.last().title@ == "New Chat"@ && final(self).store.chats@.last().status is Active)
                &&& exists|res: Seq<SearchResult>|
                    prepared_from(p, *old(self), chatbot_id, query@, res)
            },
    {
        let sid = match session_id {
            Some(sid) => {
                match self.store.get_session(sid) {
                    Some(_) => sid,
                    None => {
                        return Err(RagError::NotFound);
                    },
                }
            },
            None => {
                match self.store.create_session() {
                    Ok(s) => s.id,
                    Err(e) => {
                        return Err(e);
                    },
                }
            },
        };
        let cid = match chat_id {
            Some(cid) => {
                match self.store.get_chat(cid) {
                    Some(_) => cid,
                    None => {
                        return Err(RagError::NotFound);
                    },
                }
            },
            None => {
                match self.store.create_chat(sid, String::from_str("New Chat")) {
                    Ok(c) => c.id,
                    Err(e) => {
                        return Err(e);
                    },
                }
            },
        };
        let qvec = self.embedder.embed_text(query);
        let results = match self.index.search(chatbot_id, &qvec, TOP_K) {
            Ok(res) => res,
            Err(e) => {
                return Err(e);
            },
        };
        let recent = self.store.list_last_conversations_by_chat(cid, HISTORY_LIMIT);
        let history = reverse_turns(recent);
        proof {
            assert(history@ =~= history_window(self.store.turns@, cid));
        }
        proof {
            if chat_id is None && answer_ready(*old(self), chatbot_id, session_id, chat_id) {
                assert forall|j: int|
                    0 <= j < self.store.turns@.len() implies (#[trigger] self.store.turns@[j]).chat_id
                    != cid by {
                    crate::store::lemma_chat_find(
                        old(self).store.chats@,
                        self.store.turns@[j].chat_id,
                    );
                }
                crate::store::lemma_count_zero(
                    self.store.turns@,
                    cid,
                    self.store.turns@.len() as int,
                );
            }
        }
        let turn = match self.store.create_conversation(sid, cid, String::from_str(query)) {
            Ok(t) => t,
            Err(e) => {
                return Err(e);
            },
        };
        let prompt = crate::prompt::assemble(query, &results, &history);
        let mut context_used: Vec<String> = Vec::new();
        let mut i: usize = 0;
        while i < results.len()
            invariant
                i <= results@.len(),
                context_used@.len() == i,
                forall|j: int|
                    0 <= j < i ==> (#[trigger] context_used@[j])@ == results@[j].file_path@,
            decreases results@.len() - i,
        {
            context_used.push(results[i].file_path.clone());
            i += 1;
        }
        let p = PreparedAnswer {
            session_id: sid,
            chat_id: cid,
            conversation_id: turn.id,
            prompt,
            context_used,
        };
        proof {
            assert(prepared_from(p, *old(self), chatbot_id, query@, results@));
        }
        Ok(p)
    }

    /// The second half of answering: attach the generated answer to
    /// the turn that `prepare_answer` recorded.  The turn keeps its
    /// place and sequence number; only the response and its timestamp
    /// change.
    pub fn complete_answer(&mut self, conversation_id: u128, answer: String) -> (r: Result<
        TurnRec,
        RagError,
    >)
        requires
            old(self).wf(),
        ensures
            final(self).wf(),
            final(self).index == old(self).index,
            final(self).embedder == old(self).embedder,
            final(self).store.sessions@ == old(self).store.sessions@,
            final(self).store.chats@ == old(self).store.chats@,
            final(self).store.bots@ == old(self).store.bots@,
            active_turn(old(self).store.turns@, conversation_id) is None ==> r == Err::<
                TurnRec,
                RagError,
            >(RagError::NotFound) && *final(self) == *old(self),
            (active_turn(old(self).store.turns@, conversation_id) is Some && old(self).store.clock
                == u64::MAX) ==> r == Err::<TurnRec, RagError>(RagError::StorageFailure) && *final(self) == *old(self),
            (active_turn(old(self).store.turns@, conversation_id) is Some && old(self).store.clock
                < u64::MAX) ==> r is Ok && r->Ok_0 == (TurnRec {
                bot_response: Some(answer),
                updated_at: (old(self).store.clock + 1) as u64,
                ..active_turn(old(self).store.turns@, conversation_id)->Some_0
            }) && r->Ok_0.sequence_number == active_turn(
                old(self).store.turns@,
                conversation_id,
            )->Some_0.sequence_number && active_turn(final(self).store.turns@, conversation_id)
                == Some(r->Ok_0) && final(self).store.turns@ == old(self).store.turns@.update(
                crate::store::turn_idx(old(self).store.turns@, conversation_id),
                r->Ok_0,
            ),
    {
        match self.store.update_conversation_response(conversation_id, answer) {
            Ok(t) => Ok(t),
            Err(e) => Err(e),
        }
    }
}


/// The id a request field denotes: `None` when the field is absent
/// (meaning: create a fresh one); the parse result when present.
pub open spec fn parsed_id_opt(o: Option<String>) -> Option<u128> {
    match o {
        Some(s) => parsed_uuid(s@),
        None => None,
    }
}

/// Whether every identifier the chat request supplies parses.
pub open spec fn request_ids_parse(req: ChatRequest) -> bool {
    &&& parsed_uuid(req.chatbot_id@) is Some
    &&& (req.session_id is Some ==> parsed_uuid(req.session_id->Some_0@) is Some)
    &&& (req.chat_id is Some ==> parsed_uuid(req.chat_id->Some_0@) is Some)
}

impl RagEngine {
    /// The chat endpoint, first half: parse the identifiers of the
    /// request (a malformed one is invalid input) and run
    /// `prepare_answer`.
    pub fn handle_chat_prepare(&mut self, req: &ChatRequest) -> (r: Result<
        PreparedAnswer,
        RagError,
    >)
        requires
            old(self).wf(),
        ensures
            final(self).wf(),
            final(self).index == old(self).index,
            final(self).embedder == old(self).embedder,
            parsed_uuid(req.chatbot_id@) is None ==> r == Err::<PreparedAnswer, RagError>(
                RagError::InvalidInput,
            ) && *final(self) == *old(self),
            (parsed_uuid(req.chatbot_id@) is Some && req.session_id is Some && parsed_uuid(
                req.session_id->Some_0@,
            ) is None) ==> r == Err::<PreparedAnswer, RagError>(RagError::InvalidInput) && *final(self) == *old(self),
            (parsed_uuid(req.chatbot_id@) is Some && (req.session_id is Some ==> parsed_uuid(
                req.session_id->Some_0@,
            ) is Some) && req.chat_id is Some && parsed_uuid(req.chat_id->Some_0@) is None)
                ==> r == Err::<PreparedAnswer, RagError>(RagError::InvalidInput) && *final(self)
                == *old(self),
            (request_ids_parse(*req) && req.session_id is Some && active_session(
                old(self).store.sessions@,
                parsed_uuid(req.session_id->Some_0@)->Some_0,
            ) is None) ==> r == Err::<PreparedAnswer, RagError>(RagError::NotFound) && *final(self)
                == *old(self),
            (request_ids_parse(*req) && req.session_id is Some && active_session(
                old(self).store.sessions@,
                parsed_uuid(req.session_id->Some_0@)->Some_0,
            ) is Some && req.chat_id is Some && active_chat(
                old(self).store.chats@,
                parsed_uuid(req.chat_id->Some_0@)->Some_0,
            ) is None) ==> r == Err::<PreparedAnswer, RagError>(RagError::NotFound) && *final(self)
                == *old(self),
            (request_ids_parse(*req) && req.session_id is None && old(self).store.has_room()
                && req.chat_id is Some && active_chat(
                old(self).store.chats@,
                parsed_uuid(req.chat_id->Some_0@)->Some_0,
            ) is None) ==> r == Err::<PreparedAnswer, RagError>(RagError::NotFound) && final(self).store.chats@ == old(self).store.chats@ && final(self).store.turns@ == old(self).store.turns@,
            (request_ids_parse(*req) && answer_ready(
                *old(self),
                parsed_uuid(req.chatbot_id@)->Some_0,
                parsed_id_opt(req.session_id),
                parsed_id_opt(req.chat_id),
            )) ==> r is Ok,
            r is Err ==> final(self).store.turns@ == old(self).store.turns@,
            r matches Ok(p) ==> {
                &&& active_turn(final(self).store.turns@, p.conversation_id) is Some
                &&& active_turn(final(self).store.turns@, p.conversation_id)->Some_0.user_query@
                    == req.query@
                &&& active_turn(final(self).store.turns@, p.conversation_id)->Some_0.bot_response
                    is None
                &&& final(self).store.turns@ == old(self).store.turns@.push(
                    active_turn(final(self).store.turns@, p.conversation_id)->Some_0,
                )
                &&& parsed_uuid(req.chatbot_id@) is Some
                &&& exists|res: Seq<SearchResult>|
                    prepared_from(
                        p,
                        *old(self),
                        parsed_uuid(req.chatbot_id@)->Some_0,
                        req.query@,
                        res,
                    )
            },
    {
        let bid = match parse_id(req.chatbot_id.as_str()) {
            Some(b) => b,
            None => {
                return Err(RagError::InvalidInput);
            },
        };
        let sid_opt = match &req.session_id {
            Some(s) => {
                match parse_id(s.as_str()) {
                    Some(x) => Some(x),
                    None => {
                        return Err(RagError::InvalidInput);
                    },
                }
            },
            None => None,
        };
        let cid_opt = match &req.chat_id {
            Some(s) => {
                match parse_id(s.as_str()) {
                    Some(x) => Some(x),
                    None => {
                        return Err(RagError::InvalidInput);
                    },
                }
            },
            None => None,
        };
        proof {
            assert(sid_opt == parsed_id_opt(req.session_id));
            assert(cid_opt == parsed_id_opt(req.chat_id));
        }
        self.prepare_answer(bid, req.query.as_str(), sid_opt, cid_opt)
    }

    /// The chat endpoint, second half: attach the generated answer to
    /// the prepared turn and render the response payload, identifiers
    /// as UUID strings.
    pub fn handle_chat_complete(&mut self, prepared: &PreparedAnswer, answer: String) -> (r:
        Result<ChatData, RagError>)
        requires
            old(self).wf(),
        ensures
            final(self).wf(),
            final(self).index == old(self).index,
            final(self).embedder == old(self).embedder,
            active_turn(old(self).store.turns@, prepared.conversation_id) is None ==> r == Err::<
                ChatData,
                RagError,
            >(RagError::NotFound) && *final(self) == *old(self),
            (active_turn(old(self).store.turns@, prepared.conversation_id) is Some && old(self).store.clock < u64::MAX) ==> r is Ok && {
                let d = r->Ok_0;
                &&& d.session_id@ == uuid_str_of(prepared.session_id)
                &&& d.chat_id@ == uuid_str_of(prepared.chat_id)
                &&& d.conversation_id@ == uuid_str_of(prepared.conversation_id)
                &&& d.user_query@ == active_turn(
                    old(self).store.turns@,
                    prepared.conversation_id,
                )->Some_0.user_query@
                &&& d.bot_response@ == answer@
                &&& d.context_used@.len() == prepared.context_used@.len()
                &&& (forall|j: int|
                    0 <= j < prepared.context_used@.len() ==> (#[trigger] d.context_used@[j])@
                        == prepared.context_used@[j]@)
                &&& active_turn(
                    final(self).store.turns@,
                    prepared.conversation_id,
                )->Some_0.bot_response == Some(answer)
            },
    {
        let turn = match self.complete_answer(prepared.conversation_id, answer) {
            Ok(t) => t,
            Err(e) => {
                return Err(e);
            },
        };
        let bot_response = match turn.bot_response {
            Some(s) => s,
            None => String::new(),
        };
        let mut context_used: Vec<String> = Vec::new();
        let mut i: usize = 0;
        while i < prepared.context_used.len()
            invariant
                i <= prepared.context_used@.len(),
                context_used@.len() == i,
                forall|j: int|
                    0 <= j < i ==> (#[trigger] context_used@[j])@ == prepared.context_used@[j]@,
            decreases prepared.context_used@.len() - i,
        {
            context_used.push(prepared.context_used[i].clone());
            i += 1;
        }
        Ok(ChatData {
            session_id: id_string(prepared.session_id),
            chat_id: id_string(prepared.chat_id),
            conversation_id: id_string(prepared.conversation_id),
            user_query: turn.user_query,
            bot_response,
            context_used,
        })
    }

    /// The retrieval endpoint: parse the tenant id, embed the query,
    /// and search its collection, `limit` hits at most (five when the
    /// request leaves it out).
    pub fn handle_query(&self, req: &QueryRequest) -> (r: Result<QueryData, RagError>)
        requires
            self.wf(),
        ensures
            parsed_uuid(req.chatbot_id@) is None ==> r == Err::<QueryData, RagError>(
                RagError::InvalidInput,
            ),
            (parsed_uuid(req.chatbot_id@) is Some && query_k(req.limit) == 0) ==> r == Err::<
                QueryData,
                RagError,
            >(RagError::InvalidInput),
            (parsed_uuid(req.chatbot_id@) is Some && query_k(req.limit) > 0 && col_of(
                self.index.collections@,
                parsed_uuid(req.chatbot_id@)->Some_0,
            ) is None) ==> r == Err::<QueryData, RagError>(RagError::IndexFailure),
            (parsed_uuid(req.chatbot_id@) is Some && query_k(req.limit) > 0 && col_of(
                self.index.collections@,
                parsed_uuid(req.chatbot_id@)->Some_0,
            ) is Some && col_of(
                self.index.collections@,
                parsed_uuid(req.chatbot_id@)->Some_0,
            )->Some_0.dim != self.embedder.config.embedding_dim) ==> r == Err::<
                QueryData,
                RagError,
            >(RagError::IndexFailure),
            (parsed_uuid(req.chatbot_id@) is Some && query_k(req.limit) > 0 && col_of(
                self.index.collections@,
                parsed_uuid(req.chatbot_id@)->Some_0,
            ) is Some && col_of(
                self.index.collections@,
                parsed_uuid(req.chatbot_id@)->Some_0,
            )->Some_0.dim == self.embedder.config.embedding_dim) ==> r is Ok,
            r matches Ok(d) ==> {
                &&& parsed_uuid(req.chatbot_id@) is Some
                &&& col_of(self.index.collections@, parsed_uuid(req.chatbot_id@)->Some_0) is Some
                &&& search_output(
                    d.results@,
                    col_of(
                        self.index.collections@,
                        parsed_uuid(req.chatbot_id@)->Some_0,
                    )->Some_0.items@,
                    spec_embed(req.query@, self.embedder.config.embedding_dim as nat),
                    query_k(req.limit),
                )
                &&& d.total_results == d.results@.len()
                &&& d.chatbot_id@ == req.chatbot_id@
                &&& d.query@ == req.query@
            },
    {
        let bid = match parse_id(req.chatbot_id.as_str()) {
            Some(b) => b,
            None => {
                return Err(RagError::InvalidInput);
            },
        };
        let limit: u64 = match req.limit {
            Some(l) => l,
            None => 5,
        };
        let k: usize = if limit > (usize::MAX as u64) {
            usize::MAX
        } else {
            limit as usize
        };
        let qvec = self.embedder.embed_text(req.query.as_str());
        let results = match self.index.search(bid, &qvec, k) {
            Ok(res) => res,
            Err(e) => {
                return Err(e);
            },
        };
        let total_results = results.len();
        Ok(QueryData {
            chatbot_id: req.chatbot_id.clone(),
            query: req.query.clone(),
            results,
            total_results,
        })
    }

    /// The session endpoint: create a session and render its id and
    /// creation time.
    pub fn handle_create_session(&mut self) -> (r: Result<SessionData, RagError>)
        requires
            old(self).wf(),
        ensures
            final(self).wf(),
            final(self).index == old(self).index,
            final(self).embedder == old(self).embedder,
            !old(self).store.has_room() ==> r == Err::<SessionData, RagError>(
                RagError::StorageFailure,
            ) && *final(self) == *old(self),
            old(self).store.has_room() ==> r is Ok && r->Ok_0.session_id@ == uuid_str_of(
                old(self).store.next_id,
            ) && r->Ok_0.created_at@ == crate::text::dec_digits((old(self).store.clock + 1) as nat)
                && final(self).store.sessions@.len() == old(self).store.sessions@.len() + 1
                && active_session(final(self).store.sessions@, old(self).store.next_id) is Some,
    {
        let s = match self.store.create_session() {
            Ok(s) => s,
            Err(e) => {
                return Err(e);
            },
        };
        Ok(SessionData { session_id: id_string(s.id), created_at: u64_to_string(s.created_at) })
    }

    /// The history endpoint: parse the chat id and list the chat's
    /// active turns, oldest first.
    pub fn handle_history(&self, chat_id: &str) -> (r: Result<Vec<TurnRec>, RagError>)
        ensures
            parsed_uuid(chat_id@) is None ==> r == Err::<Vec<TurnRec>, RagError>(
                RagError::InvalidInput,
            ),
            parsed_uuid(chat_id@) is Some ==> r is Ok && r->Ok_0@ == active_turns_of(
                self.store.turns@,
                parsed_uuid(chat_id@)->Some_0,
            ),
    {
        let cid = match parse_id(chat_id) {
            Some(c) => c,
            None => {
                return Err(RagError::InvalidInput);
            },
        };
        Ok(self.store.list_conversations_by_chat(cid))
    }
}

/// How many hits the retrieval endpoint asks for: the request's
/// limit, five when absent, clipped to what a length can hold.
pub open spec fn query_k(limit: Option<u64>) -> int {
    let l = match limit {
        Some(l) => l as int,
        None => 5int,
    };
    if l > usize::MAX as int {
        usize::MAX as int
    } else {
        l
    }
}

} // verus!
