//! A deterministic embedding of text into fixed-length integer
//! vectors.
//!
//! The provider is a placeholder for a learned encoder: it draws each
//! vector component from a rolling hash of the text.  What matters to
//! the rest of the pipeline — and is proved here — is that it is a
//! pure function of the text: identical inputs give identical vectors
//! on every call, the vector always has the configured dimension, and
//! every component lies in a fixed range, so that similarity scores
//! downstream cannot overflow.

use vstd::prelude::*;
use vstd::string::StrSliceExecFns;
use vstd::string::StringExecFns;
use vstd::wrapping::u64_specs;

verus! {

/// The least component value an embedding can hold.
pub const EMBED_MIN: i64 = -500;

/// The greatest component value an embedding can hold.
pub const EMBED_MAX: i64 = 499;

/// Configuration of an embedding model.
pub struct EmbeddingConfig {
    pub model_name: String,
    pub max_length: usize,
    pub embedding_dim: usize,
}

impl Default for EmbeddingConfig {
    fn default() -> (r: Self)
        ensures
            r.model_name@ == "sentence-transformers/all-MiniLM-L6-v2"@,
            r.max_length == 512,
            r.embedding_dim == 384,
    {
        EmbeddingConfig {
            model_name: String::from_str("sentence-transformers/all-MiniLM-L6-v2"),
            max_length: 512,
            embedding_dim: 384,
        }
    }
}

/// The rolling hash of a text: each character folded in with a
/// multiply-by-31, wrapping at 64 bits.
pub open spec fn text_hash(s: Seq<char>) -> u64
    decreases s.len(),
{
    if s.len() == 0 {
        0u64
    } else {
        u64_specs::wrapping_add(
            u64_specs::wrapping_mul(text_hash(s.drop_last()), 31u64),
            s.last() as u64,
        )
    }
}

/// Component `i` of an embedding drawn from hash `h`: a value in
/// `[EMBED_MIN, EMBED_MAX]`.
pub open spec fn embed_component(h: u64, i: u64) -> i64 {
    ((u64_specs::wrapping_add(h, i) % 1000) - 500) as i64
}

/// The embedding of a text: `dim` components drawn from its hash.
pub open spec fn spec_embed(s: Seq<char>, dim: nat) -> Seq<i64> {
    Seq::new(dim, |i: int| embed_component(text_hash(s), i as u64))
}

fn hash_text(text: &str) -> (h: u64)
    ensures
        h == text_hash(text@),
{
    let n = text.unicode_len();
    let mut h: u64 = 0;
    let mut i: usize = 0;
    while i < n
        invariant
            n == text@.len(),
            i <= n,
            h == text_hash(text@.take(i as int)),
        decreases n - i,
    {
        let c = text.get_char(i);
        h = h.wrapping_mul(31).wrapping_add(c as u64);
        proof {
            assert(text@.take(i + 1).drop_last() =~= text@.take(i as int));
            assert(text@.take(i + 1).last() == text@[i as int]);
        }
        i += 1;
    }
    proof {
        assert(text@.take(n as int) =~= text@);
    }
    h
}

/// The deterministic embedding provider.
pub struct HashEmbedder {
    pub config: EmbeddingConfig,
}

impl HashEmbedder {
    /// Build an embedder, with the default configuration when none is
    /// given.
    pub fn new(config: Option<EmbeddingConfig>) -> (r: Self)
        ensures
            config matches Some(c) ==> r.config == c,
            config is None ==> r.config.embedding_dim == 384 && r.config.max_length == 512,
    {
        let config = match config {
            Some(c) => c,
            None => EmbeddingConfig::default(),
        };
        HashEmbedder { config }
    }

    /// The dimension every embedding from this provider has.
    pub fn embedding_dim(&self) -> (d: usize)
        ensures
            d == self.config.embedding_dim,
    {
        self.config.embedding_dim
    }

    /// Embed one text.  The result is a pure function of the text and
    /// the configured dimension, with every component in range.
    pub fn embed_text(&self, text: &str) -> (v: Vec<i64>)
        ensures
            v@ == spec_embed(text@, self.config.embedding_dim as nat),
            v@.len() == self.config.embedding_dim,
            forall|j: int| 0 <= j < v@.len() ==> EMBED_MIN <= #[trigger] v@[j] <= EMBED_MAX,
    {
        let h = hash_text(text);
        let dim = self.config.embedding_dim;
        let mut v: Vec<i64> = Vec::new();
        let mut i: usize = 0;
        while i < dim
            invariant
                i <= dim,
                v@.len() == i,
                h == text_hash(text@),
                forall|j: int| 0 <= j < i ==> #[trigger] v@[j] == embed_component(h, j as u64),
            decreases dim - i,
        {
            let c = (h.wrapping_add(i as u64) % 1000) as i64 - 500;
            v.push(c);
            i += 1;
        }
        proof {
            assert(v@ =~= spec_embed(text@, self.config.embedding_dim as nat));
        }
        v
    }

    /// Embed many texts, order-preserving: the result has one vector
    /// per input text, each the embedding of the text at its position.
    pub fn embed_texts(&self, texts: &Vec<String>) -> (vs: Vec<Vec<i64>>)
        ensures
            vs@.len() == texts@.len(),
            forall|i: int|
                0 <= i < texts@.len() ==> #[trigger] vs@[i]@ == spec_embed(
                    texts@[i]@,
                    self.config.embedding_dim as nat,
                ),
    {
        let mut vs: Vec<Vec<i64>> = Vec::new();
        let mut i: usize = 0;
        while i < texts.len()
            invariant
                i <= texts@.len(),
                vs@.len() == i,
                forall|j: int|
                    0 <= j < i ==> #[trigger] vs@[j]@ == spec_embed(
                        texts@[j]@,
                        self.config.embedding_dim as nat,
                    ),
            decreases texts@.len() - i,
        {
            let v = self.embed_text(texts[i].as_str());
            vs.push(v);
            i += 1;
        }
        vs
    }
}

} // verus!
