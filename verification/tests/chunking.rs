use rag_core::chunking::{chunk, chunk_text};
use rag_core::errors::RagError;
use rag_core::stream::stream_chunks;
use rag_core::text::{join_range, split_words, u128_to_string, u64_to_string};

#[test]
fn test_chunk_text() {
    let text = "This is a test sentence with multiple words to test chunking functionality.";
    let chunks = chunk_text(text, 5, 2);

    assert!(!chunks.is_empty());
    assert!(chunks.len() > 1);

    // First chunk should have 5 words
    let first_chunk_words: Vec<&str> = chunks[0].split_whitespace().collect();
    assert_eq!(first_chunk_words.len(), 5);
}

#[test]
fn test_empty_text() {
    let chunks = chunk_text("", 10, 2);
    assert!(chunks.is_empty());
}

#[test]
fn chunk_empty_for_any_valid_config() {
    assert!(chunk_text("", 1, 0).is_empty());
    assert!(chunk_text("", 200, 50).is_empty());
    assert!(chunk("", 7, 3).unwrap().is_empty());
    assert!(chunk_text("   \t\n  ", 4, 1).is_empty());
}

#[test]
fn chunk_rejects_invalid_config() {
    assert_eq!(chunk("some words here", 5, 5), Err(RagError::InvalidInput));
    assert_eq!(chunk("some words here", 0, 0), Err(RagError::InvalidInput));
    assert_eq!(chunk("some words here", 3, 7), Err(RagError::InvalidInput));
}

#[test]
fn chunk_exact_windows() {
    let chunks = chunk_text("a b c", 2, 1);
    assert_eq!(chunks, vec!["a b".to_string(), "b c".to_string()]);

    let chunks = chunk_text("one two three four", 3, 1);
    assert_eq!(chunks, vec!["one two three".to_string(), "three four".to_string()]);
}

#[test]
fn chunk_overlap_on_twelve_words() {
    let text = "w1 w2 w3 w4 w5 w6 w7 w8 w9 w10 w11 w12";
    let chunks = chunk_text(text, 5, 2);
    // Window starts advance by 3: 0, 3, 6, 9.
    assert_eq!(chunks.len(), 4);
    for (i, c) in chunks.iter().enumerate() {
        let words: Vec<&str> = c.split_whitespace().collect();
        if i + 1 < chunks.len() {
            assert_eq!(words.len(), 5);
        } else {
            assert!(words.len() >= 1 && words.len() <= 5);
        }
    }
    // Each chunk's first 2 words equal the previous chunk's last 2.
    for i in 0..chunks.len() - 1 {
        let cur: Vec<&str> = chunks[i].split_whitespace().collect();
        let next: Vec<&str> = chunks[i + 1].split_whitespace().collect();
        assert_eq!(&next[..2], &cur[cur.len() - 2..]);
    }
}

#[test]
fn split_words_on_mixed_whitespace() {
    let words = split_words("  alpha\tbeta\n gamma  ");
    assert_eq!(words, vec!["alpha".to_string(), "beta".to_string(), "gamma".to_string()]);
    assert!(split_words("").is_empty());
    assert!(split_words(" \t\r\n").is_empty());
}

#[test]
fn join_range_with_single_spaces() {
    let words = vec!["a".to_string(), "b".to_string(), "c".to_string()];
    assert_eq!(join_range(&words, 0, 3), "a b c".to_string());
    assert_eq!(join_range(&words, 1, 2), "b".to_string());
    assert_eq!(join_range(&words, 2, 2), "".to_string());
}

#[test]
fn decimal_rendering() {
    assert_eq!(u64_to_string(0), "0".to_string());
    assert_eq!(u64_to_string(10), "10".to_string());
    assert_eq!(u64_to_string(90210), "90210".to_string());
    assert_eq!(u128_to_string(340282366920938463463374607431768211455), "340282366920938463463374607431768211455".to_string());
}

#[test]
fn stream_chunks_groups_words() {
    let chunks = stream_chunks("one two three four five", 2);
    assert_eq!(chunks.len(), 3);
    assert_eq!(chunks[0].text, "one two".to_string());
    assert_eq!(chunks[1].text, "three four".to_string());
    assert_eq!(chunks[2].text, "five".to_string());
    assert!(!chunks[0].is_final);
    assert!(!chunks[1].is_final);
    assert!(chunks[2].is_final);
}

#[test]
fn stream_chunks_empty_answer_is_one_final_chunk() {
    let chunks = stream_chunks("", 4);
    assert_eq!(chunks.len(), 1);
    assert_eq!(chunks[0].text, "".to_string());
    assert!(chunks[0].is_final);
}
