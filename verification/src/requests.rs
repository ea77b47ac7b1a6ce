//! The request and response shapes of the service's interface, as
//! plain data.  Identifiers travel as UUID strings and are parsed at
//! the boundary; timestamps travel as rendered strings.

use vstd::prelude::*;

verus! {

/// A request to create a session; nothing is needed, the session is
/// created on its own.
pub struct CreateSessionRequest {}

/// A request to create a chat under a session.
pub struct CreateChatRequest {
    pub session_id: u128,
    pub title: String,
}

/// A request to record a conversation turn.
pub struct CreateConversationRequest {
    pub session_id: u128,
    pub chat_id: u128,
    pub user_query: String,
}

/// A request to attach a bot response to a turn.
pub struct UpdateConversationRequest {
    pub bot_response: String,
}

/// The chat endpoint's request: which tenant, the question, and
/// optionally the session and chat to continue.
pub struct ChatRequest {
    pub chatbot_id: String,
    pub query: String,
    pub session_id: Option<String>,
    pub chat_id: Option<String>,
}

/// The chat endpoint's payload: where the turn was recorded, the
/// answer, and the source documents used.
pub struct ChatData {
    pub session_id: String,
    pub chat_id: String,
    pub conversation_id: String,
    pub user_query: String,
    pub bot_response: String,
    pub context_used: Vec<String>,
}

/// A request to open a session over the chat interface.
pub struct SessionRequest {}

/// The session endpoint's payload.
pub struct SessionData {
    pub session_id: String,
    pub created_at: String,
}

/// The retrieval endpoint's request.
pub struct QueryRequest {
    pub chatbot_id: String,
    pub query: String,
    pub limit: Option<u64>,
}

/// The retrieval endpoint's payload.
pub struct QueryData {
    pub chatbot_id: String,
    pub query: String,
    pub results: Vec<crate::index::SearchResult>,
    pub total_results: usize,
}

} // verus!
