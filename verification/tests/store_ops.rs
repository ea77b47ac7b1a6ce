use rag_core::errors::RagError;
use rag_core::store::{ConversationStore, EntityStatus};

#[test]
fn turn_numbers_are_contiguous_per_chat() {
    let mut s = ConversationStore::new();
    let sid = s.create_session().unwrap().id;
    let chat_a = s.create_chat(sid, "first".to_string()).unwrap().id;
    let chat_b = s.create_chat(sid, "second".to_string()).unwrap().id;

    // Interleave turns on the two chats.
    let a1 = s.create_conversation(sid, chat_a, "qa1".to_string()).unwrap();
    let b1 = s.create_conversation(sid, chat_b, "qb1".to_string()).unwrap();
    let a2 = s.create_conversation(sid, chat_a, "qa2".to_string()).unwrap();
    let b2 = s.create_conversation(sid, chat_b, "qb2".to_string()).unwrap();
    let a3 = s.create_conversation(sid, chat_a, "qa3".to_string()).unwrap();

    assert_eq!((a1.sequence_number, a2.sequence_number, a3.sequence_number), (1, 2, 3));
    assert_eq!((b1.sequence_number, b2.sequence_number), (1, 2));

    let listed = s.list_conversations_by_chat(chat_a);
    assert_eq!(listed.len(), 3);
    for (i, t) in listed.iter().enumerate() {
        assert_eq!(t.sequence_number as usize, i + 1);
        assert_eq!(t.chat_id, chat_a);
    }
}

#[test]
fn response_roundtrip_keeps_sequence_number() {
    let mut s = ConversationStore::new();
    let sid = s.create_session().unwrap().id;
    let cid = s.create_chat(sid, "chat".to_string()).unwrap().id;
    let turn = s.create_conversation(sid, cid, "what is up".to_string()).unwrap();
    assert_eq!(turn.bot_response, None);

    let updated = s.update_conversation_response(turn.id, "answer".to_string()).unwrap();
    assert_eq!(updated.bot_response, Some("answer".to_string()));
    assert_eq!(updated.sequence_number, turn.sequence_number);

    let read = s.get_conversation(turn.id).unwrap();
    assert_eq!(read.bot_response, Some("answer".to_string()));
    assert_eq!(read.sequence_number, turn.sequence_number);
    assert_eq!(read.user_query, "what is up".to_string());
}

#[test]
fn attach_to_missing_or_deleted_turn_fails() {
    let mut s = ConversationStore::new();
    let sid = s.create_session().unwrap().id;
    let cid = s.create_chat(sid, "chat".to_string()).unwrap().id;
    let turn = s.create_conversation(sid, cid, "q".to_string()).unwrap();

    assert!(matches!(
        s.update_conversation_response(9999, "x".to_string()),
        Err(RagError::NotFound)
    ));
    s.delete_chat(cid).unwrap();
    assert!(matches!(
        s.update_conversation_response(turn.id, "x".to_string()),
        Err(RagError::NotFound)
    ));
}

#[test]
fn soft_delete_chat_is_idempotent() {
    let mut s = ConversationStore::new();
    let sid = s.create_session().unwrap().id;
    let cid = s.create_chat(sid, "t".to_string()).unwrap().id;
    s.create_conversation(sid, cid, "q1".to_string()).unwrap();
    s.create_conversation(sid, cid, "q2".to_string()).unwrap();

    s.delete_chat(cid).unwrap();
    let clock_after_first = s.clock;
    assert!(s.get_chat(cid).is_none());
    assert!(s.list_conversations_by_chat(cid).is_empty());

    // A second deletion changes nothing observable.
    s.delete_chat(cid).unwrap();
    assert_eq!(s.clock, clock_after_first);
    assert!(s.get_chat(cid).is_none());
    assert!(s.list_conversations_by_chat(cid).is_empty());
    for c in s.chats.iter() {
        if c.id == cid {
            assert!(matches!(c.status, EntityStatus::Deleted));
            assert_eq!(c.updated_at, clock_after_first);
        }
    }
}

#[test]
fn delete_session_cascades() {
    let mut s = ConversationStore::new();
    let sid = s.create_session().unwrap().id;
    let cid = s.create_chat(sid, "t".to_string()).unwrap().id;
    let turn = s.create_conversation(sid, cid, "q".to_string()).unwrap();

    let other_sid = s.create_session().unwrap().id;
    let other_cid = s.create_chat(other_sid, "other".to_string()).unwrap().id;

    s.delete_session(sid).unwrap();
    assert!(s.get_session(sid).is_none());
    assert!(s.get_chat(cid).is_none());
    assert!(s.get_conversation(turn.id).is_none());

    // The other session's records are untouched.
    assert!(s.get_session(other_sid).is_some());
    assert!(s.get_chat(other_cid).is_some());
}

#[test]
fn list_sessions_newest_first() {
    let mut s = ConversationStore::new();
    let s1 = s.create_session().unwrap().id;
    let s2 = s.create_session().unwrap().id;
    let s3 = s.create_session().unwrap().id;
    s.delete_session(s2).unwrap();

    let listed = s.list_sessions();
    assert_eq!(listed.len(), 2);
    assert_eq!(listed[0].id, s3);
    assert_eq!(listed[1].id, s1);
}

#[test]
fn recent_turns_are_bounded_and_newest_first() {
    let mut s = ConversationStore::new();
    let sid = s.create_session().unwrap().id;
    let cid = s.create_chat(sid, "long".to_string()).unwrap().id;
    for i in 0..7 {
        s.create_conversation(sid, cid, format!("q{}", i)).unwrap();
    }
    let recent = s.list_last_conversations_by_chat(cid, 5);
    assert_eq!(recent.len(), 5);
    // Newest first: sequence numbers 7, 6, 5, 4, 3.
    for (i, t) in recent.iter().enumerate() {
        assert_eq!(t.sequence_number as usize, 7 - i);
    }
    let few = s.list_last_conversations_by_chat(cid, 100);
    assert_eq!(few.len(), 7);
}

#[test]
fn create_conversation_checks_ownership() {
    let mut s = ConversationStore::new();
    let sid1 = s.create_session().unwrap().id;
    let sid2 = s.create_session().unwrap().id;
    let cid = s.create_chat(sid1, "of one".to_string()).unwrap().id;
    assert!(matches!(
        s.create_conversation(sid2, cid, "q".to_string()),
        Err(RagError::InvalidInput)
    ));
    assert!(matches!(
        s.create_conversation(9999, cid, "q".to_string()),
        Err(RagError::NotFound)
    ));
    assert!(matches!(
        s.create_conversation(sid1, 9999, "q".to_string()),
        Err(RagError::NotFound)
    ));
}

#[test]
fn chat_bot_crud() {
    let mut s = ConversationStore::new();
    let b = s.create_chat_bot("support".to_string()).unwrap();
    assert_eq!(b.name, "support".to_string());
    assert!(s.get_chat_bot(b.id).is_some());

    let renamed = s.update_chat_bot(b.id, "sales".to_string()).unwrap();
    assert_eq!(renamed.name, "sales".to_string());
    assert_eq!(renamed.id, b.id);
    assert_eq!(s.get_chat_bot(b.id).unwrap().name, "sales".to_string());

    let listed = s.list_chat_bots();
    assert_eq!(listed.len(), 1);

    s.delete_chat_bot(b.id).unwrap();
    assert!(s.get_chat_bot(b.id).is_none());
    assert!(s.list_chat_bots().is_empty());
    // Deleting again, or deleting the absent, is not an error.
    s.delete_chat_bot(b.id).unwrap();
    s.delete_chat_bot(4242).unwrap();
}

#[test]
fn error_kinds_have_stable_messages() {
    assert_eq!(RagError::InvalidInput.message(), "invalid input");
    assert_eq!(RagError::NotFound.message(), "not found");
    assert_eq!(RagError::StorageFailure.message(), "storage failure");
    assert_eq!(RagError::IndexFailure.message(), "index failure");
    assert_eq!(RagError::ProviderUnavailable.message(), "provider unavailable");
    assert_eq!(RagError::Timeout.message(), "timeout");
}
