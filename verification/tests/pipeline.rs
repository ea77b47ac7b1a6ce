use rag_core::embedding::HashEmbedder;
use rag_core::errors::RagError;
use rag_core::index::{IndexItem, VectorIndex};
use rag_core::orchestrator::RagEngine;
use rag_core::chunking::process_pdf_file;
use rag_core::prompt::assemble;
use rag_core::requests::{ChatRequest, QueryRequest};
use rag_core::store::{EntityStatus, TurnRec};

fn item(id: u128, vector: Vec<i64>, text: &str, file_path: &str) -> IndexItem {
    IndexItem {
        id,
        vector,
        text: text.to_string(),
        chunk_index: 0,
        file_path: file_path.to_string(),
        chunk_count: 1,
    }
}

#[test]
fn embedding_is_deterministic_and_sized() {
    let e = HashEmbedder::new(None);
    let a = e.embed_text("This is a test sentence.");
    let b = e.embed_text("This is a test sentence.");
    assert_eq!(a, b);
    assert_eq!(a.len(), 384);
    for v in a.iter() {
        assert!(*v >= -500 && *v <= 499);
    }
    let c = e.embed_text("Another sentence entirely.");
    assert_ne!(a, c);

    let many = e.embed_texts(&vec!["one".to_string(), "two".to_string()]);
    assert_eq!(many.len(), 2);
    assert_eq!(many[0], e.embed_text("one"));
    assert_eq!(many[1], e.embed_text("two"));
}

#[test]
fn search_is_deterministic_and_ordered() {
    let mut ix = VectorIndex::new();
    ix.ensure_collection(7, 3).unwrap();
    let items = vec![
        item(1, vec![10, 0, 0], "first", "a.pdf"),
        item(2, vec![499, 0, 0], "second", "b.pdf"),
        item(3, vec![-500, 0, 0], "third", "c.pdf"),
        item(4, vec![499, 0, 0], "fourth", "d.pdf"),
    ];
    let out = ix.upsert(7, items).unwrap();
    assert_eq!(out.inserted, 4);
    assert!(out.failed_ids.is_empty());

    let q = vec![100, 0, 0];
    let r1 = ix.search(7, &q, 3).unwrap();
    let r2 = ix.search(7, &q, 3).unwrap();
    assert_eq!(r1.len(), 3);
    // Same ordered result set on repeated calls.
    for (x, y) in r1.iter().zip(r2.iter()) {
        assert_eq!(x.score, y.score);
        assert_eq!(x.text, y.text);
        assert_eq!(x.file_path, y.file_path);
        assert_eq!(x.chunk_index, y.chunk_index);
    }
    // Descending scores, ties broken towards the earlier item.
    assert_eq!(r1[0].text, "second");
    assert_eq!(r1[1].text, "fourth");
    assert_eq!(r1[2].text, "first");
    assert!(r1[0].score >= r1[1].score && r1[1].score >= r1[2].score);
}

#[test]
fn search_error_cases() {
    let mut ix = VectorIndex::new();
    ix.ensure_collection(7, 3).unwrap();
    let q = vec![1, 2, 3];
    assert!(matches!(ix.search(7, &q, 0), Err(RagError::InvalidInput)));
    assert!(matches!(ix.search(8, &q, 3), Err(RagError::IndexFailure)));
    let wrong_dim = vec![1, 2];
    assert!(matches!(ix.search(7, &wrong_dim, 3), Err(RagError::IndexFailure)));
}

#[test]
fn ensure_collection_is_idempotent_but_checks_dimension() {
    let mut ix = VectorIndex::new();
    ix.ensure_collection(7, 3).unwrap();
    ix.ensure_collection(7, 3).unwrap();
    assert_eq!(ix.collections.len(), 1);
    assert_eq!(ix.ensure_collection(7, 4), Err(RagError::IndexFailure));
    assert_eq!(ix.ensure_collection(9, 5000), Err(RagError::InvalidInput));
}

#[test]
fn upsert_reports_partial_failure() {
    let mut ix = VectorIndex::new();
    ix.ensure_collection(7, 3).unwrap();
    let items = vec![
        item(1, vec![1, 2, 3], "good", "a"),
        item(2, vec![1, 2], "bad dimension", "a"),
        item(3, vec![1, 2, 600], "out of range", "a"),
        item(4, vec![4, 5, 6], "also good", "a"),
    ];
    let out = ix.upsert(7, items).unwrap();
    assert_eq!(out.inserted, 2);
    assert_eq!(out.failed_ids, vec![2, 3]);
    assert!(matches!(ix.upsert(999, vec![]), Err(RagError::IndexFailure)));
}

#[test]
fn tenant_collections_are_isolated() {
    let mut ix = VectorIndex::new();
    ix.ensure_collection(1, 2).unwrap();
    ix.ensure_collection(2, 2).unwrap();
    ix.upsert(1, vec![item(10, vec![5, 5], "of one", "one.pdf")]).unwrap();
    ix.upsert(2, vec![item(20, vec![5, 5], "of two", "two.pdf")]).unwrap();

    let hits = ix.search(1, &vec![1, 1], 5).unwrap();
    assert_eq!(hits.len(), 1);
    assert_eq!(hits[0].file_path, "one.pdf");
    let hits = ix.search(2, &vec![1, 1], 5).unwrap();
    assert_eq!(hits.len(), 1);
    assert_eq!(hits[0].file_path, "two.pdf");
}

#[test]
fn prompt_has_exact_wording() {
    let hit = rag_core::index::SearchResult {
        score: 42,
        text: "passage text".to_string(),
        chunk_index: 0,
        file_path: "doc.pdf".to_string(),
    };
    let got = assemble("why?", &vec![hit], &vec![]);
    let want = "You are a helpful AI assistant. Based on the following context, please answer the user's question. If the context doesn't contain enough information to answer the question, please say so.\n\nContext:\nRelevant documents:\nDocument: doc.pdf\nContent: passage text\n\nUser Question: why?\n\nAnswer:";
    assert_eq!(got, want.to_string());
}

#[test]
fn prompt_renders_history_oldest_first_with_empty_pending_answer() {
    let turn = |n: u32, q: &str, a: Option<&str>| TurnRec {
        id: n as u128,
        session_id: 1,
        chat_id: 2,
        sequence_number: n,
        user_query: q.to_string(),
        bot_response: a.map(|s| s.to_string()),
        created_at: 0,
        updated_at: 0,
        status: EntityStatus::Active,
    };
    let history = vec![turn(1, "first", Some("one")), turn(2, "second", None)];
    let got = assemble("next", &vec![], &history);
    let want = "You are a helpful AI assistant. Based on the following context, please answer the user's question. If the context doesn't contain enough information to answer the question, please say so.\n\nContext:\nPrevious conversation:\nUser: first\nBot: one\n\nUser: second\nBot: \n\nRelevant documents:\n\n\nUser Question: next\n\nAnswer:";
    assert_eq!(got, want.to_string());
}

fn many_words(n: usize) -> String {
    let mut s = String::new();
    for i in 0..n {
        if i > 0 {
            s.push(' ');
        }
        s.push_str(&format!("word{}", i));
    }
    s
}

#[test]
fn end_to_end_ingest_then_answer_cites_the_document() {
    let mut engine = RagEngine::new(None).unwrap();
    let bot = engine.store.create_chat_bot("helper".to_string()).unwrap();

    // 650 words cut into windows of 200 with overlap 50: starts at
    // 0, 150, 300 and 450, so exactly 4 chunks.
    let text = many_words(650);
    let count = engine.ingest_text(bot.id, &text, "manual.pdf").unwrap();
    assert_eq!(count, 4);

    let prepared = engine
        .prepare_answer(bot.id, "what does word100 mean?", None, None)
        .unwrap();
    assert!(!prepared.context_used.is_empty());
    assert!(prepared.context_used.iter().any(|p| p == "manual.pdf"));
    assert!(prepared.prompt.contains("what does word100 mean?"));

    let turn = engine
        .complete_answer(prepared.conversation_id, "a generated answer".to_string())
        .unwrap();
    assert_eq!(turn.bot_response, Some("a generated answer".to_string()));
    let read = engine.store.get_conversation(prepared.conversation_id).unwrap();
    assert!(read.bot_response.is_some());
}

#[test]
fn empty_document_ingests_with_zero_count_and_no_error() {
    let mut engine = RagEngine::new(None).unwrap();
    let bot = engine.store.create_chat_bot("empty".to_string()).unwrap();
    // An unreadable document arrives from the extraction edge as None.
    assert_eq!(engine.ingest_document(bot.id, None, "nothing.pdf"), Ok(0));
    assert_eq!(engine.ingest_document(bot.id, Some(""), "blank.pdf"), Ok(0));
    assert_eq!(engine.ingest_text(bot.id, "", "blank.txt"), Ok(0));
    assert_eq!(engine.ingest_text(bot.id, " \t\n", "spaces.txt"), Ok(0));
}

#[test]
fn empty_document_succeeds_even_against_a_mismatched_collection() {
    // A zero-chunk document returns success before the collection
    // step is ever reached, so even a collection made with another
    // dimension cannot turn it into an error.
    let mut engine = RagEngine::new(None).unwrap();
    let bot = engine.store.create_chat_bot("narrow".to_string()).unwrap();
    engine.index.ensure_collection(bot.id, 3).unwrap();
    assert_eq!(engine.ingest_text(bot.id, "", "blank.txt"), Ok(0));
    assert_eq!(engine.ingest_document(bot.id, None, "nothing.pdf"), Ok(0));
    // A document with real words does reach the collection and is
    // rejected for the dimension mismatch.
    assert!(matches!(
        engine.ingest_text(bot.id, "some real words", "w.txt"),
        Err(RagError::IndexFailure)
    ));
}

#[test]
fn ingest_for_unknown_chatbot_is_not_found() {
    let mut engine = RagEngine::new(None).unwrap();
    assert!(matches!(
        engine.ingest_text(12345, "some text", "f.pdf"),
        Err(RagError::NotFound)
    ));
}

#[test]
fn document_processing_rejects_invalid_window_configuration() {
    assert_eq!(process_pdf_file("some words here", 5, 5), Err(RagError::InvalidInput));
    assert_eq!(process_pdf_file("some words here", 0, 0), Err(RagError::InvalidInput));
    assert_eq!(
        process_pdf_file("one two three four", 3, 1),
        Ok(vec!["one two three".to_string(), "three four".to_string()])
    );
}

fn minimal_pdf(text: &str) -> Vec<u8> {
    let content = format!("BT /F1 24 Tf 72 720 Td ({}) Tj ET", text);
    let objects = vec![
        "<< /Type /Catalog /Pages 2 0 R >>".to_string(),
        "<< /Type /Pages /Kids [3 0 R] /Count 1 >>".to_string(),
        "<< /Type /Page /Parent 2 0 R /MediaBox [0 0 612 792] /Contents 4 0 R /Resources << /Font << /F1 5 0 R >> >> >>".to_string(),
        format!("<< /Length {} >>\nstream\n{}\nendstream", content.len(), content),
        "<< /Type /Font /Subtype /Type1 /BaseFont /Helvetica >>".to_string(),
    ];
    let mut pdf = String::from("%PDF-1.4\n");
    let mut offsets: Vec<usize> = Vec::new();
    for (i, o) in objects.iter().enumerate() {
        offsets.push(pdf.len());
        pdf.push_str(&format!("{} 0 obj\n{}\nendobj\n", i + 1, o));
    }
    let xref_pos = pdf.len();
    pdf.push_str(&format!("xref\n0 {}\n", objects.len() + 1));
    pdf.push_str("0000000000 65535 f \n");
    for off in offsets.iter() {
        pdf.push_str(&format!("{:010} 00000 n \n", off));
    }
    pdf.push_str(&format!(
        "trailer\n<< /Size {} /Root 1 0 R >>\nstartxref\n{}\n%%EOF",
        objects.len() + 1,
        xref_pos
    ));
    pdf.into_bytes()
}

#[test]
fn a_real_pdf_round_trips_through_extraction_and_ingestion() {
    // Extraction runs at the I/O edge, outside the library; the
    // library ingests whatever text came out.
    let pdf = minimal_pdf("Hello World");
    let text = pdf_extract::extract_text_from_mem(&pdf).unwrap();
    assert!(text.contains("Hello"));

    let chunks = process_pdf_file(&text, 200, 50).unwrap();
    assert_eq!(chunks.len(), 1);
    assert!(chunks[0].contains("Hello"));

    let mut engine = RagEngine::new(None).unwrap();
    let bot = engine.store.create_chat_bot("docs".to_string()).unwrap();
    let count = engine.ingest_document(bot.id, Some(&text), "hello.pdf").unwrap();
    assert_eq!(count, 1);
}

#[test]
fn handlers_parse_uuid_strings() {
    let mut engine = RagEngine::new(None).unwrap();
    let bot = engine.store.create_chat_bot("ui".to_string()).unwrap();
    // The store assigns ids from 1 up; the first chatbot's id written
    // as a UUID is all zeroes but the last digit.
    assert_eq!(bot.id, 1);
    engine.ingest_text(bot.id, "alpha beta gamma", "notes.txt").unwrap();

    let bad = QueryRequest {
        chatbot_id: "not-a-uuid".to_string(),
        query: "alpha".to_string(),
        limit: None,
    };
    assert!(matches!(engine.handle_query(&bad), Err(RagError::InvalidInput)));

    let good = QueryRequest {
        chatbot_id: "00000000-0000-0000-0000-000000000001".to_string(),
        query: "alpha".to_string(),
        limit: Some(2),
    };
    let data = engine.handle_query(&good).unwrap();
    assert_eq!(data.total_results, 1);
    assert_eq!(data.results[0].file_path, "notes.txt");
    assert_eq!(data.query, "alpha".to_string());

    let session = engine.handle_create_session().unwrap();
    assert_eq!(session.session_id.len(), 36);

    let req = ChatRequest {
        chatbot_id: "00000000-0000-0000-0000-000000000001".to_string(),
        query: "what is alpha?".to_string(),
        session_id: Some(session.session_id.clone()),
        chat_id: None,
    };
    let prepared = engine.handle_chat_prepare(&req).unwrap();
    let data = engine
        .handle_chat_complete(&prepared, "alpha is a letter".to_string())
        .unwrap();
    assert_eq!(data.user_query, "what is alpha?".to_string());
    assert_eq!(data.bot_response, "alpha is a letter".to_string());
    assert_eq!(data.session_id, session.session_id);
    assert_eq!(data.context_used, vec!["notes.txt".to_string()]);

    let history = engine.handle_history(&data.chat_id).unwrap();
    assert_eq!(history.len(), 1);
    assert_eq!(history[0].user_query, "what is alpha?".to_string());
    assert_eq!(history[0].bot_response, Some("alpha is a letter".to_string()));

    let bad_chat = ChatRequest {
        chatbot_id: "00000000-0000-0000-0000-000000000001".to_string(),
        query: "q".to_string(),
        session_id: Some("garbage".to_string()),
        chat_id: None,
    };
    assert!(matches!(
        engine.handle_chat_prepare(&bad_chat),
        Err(RagError::InvalidInput)
    ));
}

#[test]
fn answering_with_stale_chat_and_no_session_is_not_found() {
    let mut engine = RagEngine::new(None).unwrap();
    let bot = engine.store.create_chat_bot("b".to_string()).unwrap();
    engine.ingest_text(bot.id, "content here", "c.txt").unwrap();
    let turns_before = engine.store.turns.len();
    assert!(matches!(
        engine.prepare_answer(bot.id, "q", None, Some(424242)),
        Err(RagError::NotFound)
    ));
    assert_eq!(engine.store.turns.len(), turns_before);
}

#[test]
fn answering_with_stale_session_is_not_found() {
    let mut engine = RagEngine::new(None).unwrap();
    let bot = engine.store.create_chat_bot("b".to_string()).unwrap();
    engine.ingest_text(bot.id, "content here", "c.txt").unwrap();
    assert!(matches!(
        engine.prepare_answer(bot.id, "q", Some(987654), None),
        Err(RagError::NotFound)
    ));
}
