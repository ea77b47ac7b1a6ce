//! The per-tenant vector index.
//!
//! Each chatbot owns one collection, keyed by its id, so a query
//! against one tenant's collection can never surface another tenant's
//! documents.  Items are only ever inserted, never updated.  Search
//! scores by dot product and returns the top `k` items in descending
//! score order, with ties broken deterministically towards the item
//! inserted first.

use vstd::prelude::*;
use crate::embedding::{EMBED_MAX, EMBED_MIN};
use crate::errors::RagError;

verus! {

broadcast use {vstd::seq::group_seq_axioms, vstd::seq_lib::lemma_seq_contains_after_push};

/// The greatest dimension a collection may be created with; keeps
/// every similarity score far inside the `i64` range.
pub const MAX_DIM: usize = 4096;

/// One indexed chunk: an opaque id, its embedding vector, and the
/// payload carried back out by search.
pub struct IndexItem {
    pub id: u128,
    pub vector: Vec<i64>,
    pub text: String,
    pub chunk_index: usize,
    pub file_path: String,
    pub chunk_count: usize,
}

/// One search hit.
pub struct SearchResult {
    pub score: i64,
    pub text: String,
    pub chunk_index: usize,
    pub file_path: String,
}

/// The outcome of an upsert: how many items went in, and the ids of
/// those that were rejected.
pub struct UpsertOutcome {
    pub inserted: usize,
    pub failed_ids: Vec<u128>,
}

/// A tenant's collection: its owner, the vector dimension it was made
/// with, and its items in insertion order.
pub struct Collection {
    pub owner: u128,
    pub dim: usize,
    pub items: Vec<IndexItem>,
}

/// The vector index: one collection per tenant.
pub struct VectorIndex {
    pub collections: Vec<Collection>,
}

/// Whether an item may enter a collection of dimension `dim`: its
/// vector has that length and every component is in embedding range.
pub open spec fn item_fits(it: IndexItem, dim: int) -> bool {
    &&& it.vector@.len() == dim
    &&& forall|j: int| 0 <= j < it.vector@.len() ==> EMBED_MIN <= #[trigger] it.vector@[j] <= EMBED_MAX
}

impl Collection {
    /// Every item of a well-formed collection fits its dimension.
    pub open spec fn wf(self) -> bool {
        &&& self.dim <= MAX_DIM
        &&& forall|i: int|
            0 <= i < self.items@.len() ==> item_fits(#[trigger] self.items@[i], self.dim as int)
    }
}

/// The first collection owned by `owner`, if any.
pub open spec fn col_of(cs: Seq<Collection>, owner: u128) -> Option<Collection>
    decreases cs.len(),
{
    if cs.len() == 0 {
        None
    } else if cs[0].owner == owner {
        Some(cs[0])
    } else {
        col_of(cs.drop_first(), owner)
    }
}

/// The position of the collection owned by `owner`; `cs.len()` when
/// there is none.
pub open spec fn col_idx(cs: Seq<Collection>, owner: u128) -> int
    decreases cs.len(),
{
    if cs.len() == 0 {
        0
    } else if cs[0].owner == owner {
        0
    } else {
        1 + col_idx(cs.drop_first(), owner)
    }
}

/// Appending a collection cannot change the lookup of an owner that
/// is already present, and resolves an absent owner to the new
/// collection exactly when it is theirs.
pub proof fn lemma_col_of_push(cs: Seq<Collection>, c: Collection, owner: u128)
    ensures
        col_of(cs, owner) is None && c.owner == owner ==> col_of(cs.push(c), owner) == Some(c),
        col_of(cs, owner) is None && c.owner != owner ==> col_of(cs.push(c), owner) is None,
        col_of(cs, owner) is Some ==> col_of(cs.push(c), owner) == col_of(cs, owner),
    decreases cs.len(),
{
    if cs.len() == 0 {
        assert(cs.push(c)[0] == c);
        assert(cs.push(c).drop_first() =~= Seq::<Collection>::empty());
        if c.owner == owner {
            assert(col_of(cs.push(c), owner) == Some(c));
        } else {
            assert(col_of(Seq::<Collection>::empty(), owner) is None);
            assert(col_of(cs.push(c), owner) is None);
        }
    } else {
        lemma_col_of_push(cs.drop_first(), c, owner);
        assert(cs.push(c).drop_first() =~= cs.drop_first().push(c));
        assert(cs.push(c)[0] == cs[0]);
        if cs[0].owner == owner {
            assert(col_of(cs.push(c), owner) == Some(cs[0]));
        } else {
            assert(col_of(cs, owner) == col_of(cs.drop_first(), owner));
            assert(col_of(cs.push(c), owner) == col_of(cs.drop_first().push(c), owner));
        }
    }
}

/// Replacing the first collection of an owner changes that owner's
/// lookup to the new collection and no other owner's lookup at all.
pub proof fn lemma_col_of_update(cs: Seq<Collection>, k: int, c2: Collection)
    requires
        0 <= k < cs.len(),
        cs[k].owner == c2.owner,
        forall|i: int| 0 <= i < k ==> (#[trigger] cs[i]).owner != c2.owner,
    ensures
        col_of(cs.update(k, c2), c2.owner) == Some(c2),
        forall|o: u128|
            o != c2.owner ==> #[trigger] col_of(cs.update(k, c2), o) == col_of(cs, o),
    decreases cs.len(),
{
    if k == 0 {
        assert(cs.update(0, c2)[0] == c2);
        assert(cs.update(0, c2).drop_first() =~= cs.drop_first());
        assert forall|o: u128| o != c2.owner implies #[trigger] col_of(cs.update(0, c2), o)
            == col_of(cs, o) by {
            assert(col_of(cs.update(0, c2), o) == col_of(cs.drop_first(), o));
            assert(col_of(cs, o) == col_of(cs.drop_first(), o));
        }
    } else {
        assert(cs.drop_first()[k - 1] == cs[k]);
        assert forall|i: int| 0 <= i < k - 1 implies (#[trigger] cs.drop_first()[i]).owner
            != c2.owner by {
            assert(cs.drop_first()[i] == cs[i + 1]);
        }
        lemma_col_of_update(cs.drop_first(), k - 1, c2);
        assert(cs.update(k, c2).drop_first() =~= cs.drop_first().update(k - 1, c2));
        assert(cs.update(k, c2)[0] == cs[0]);
        assert(cs[0].owner != c2.owner);
        assert(col_of(cs.update(k, c2), c2.owner)
            == col_of(cs.drop_first().update(k - 1, c2), c2.owner));
        assert forall|o: u128| o != c2.owner implies #[trigger] col_of(cs.update(k, c2), o)
            == col_of(cs, o) by {
            assert(col_of(cs.drop_first().update(k - 1, c2), o) == col_of(cs.drop_first(), o));
            if cs[0].owner == o {
                assert(col_of(cs.update(k, c2), o) == Some(cs[0]));
                assert(col_of(cs, o) == Some(cs[0]));
            } else {
                assert(col_of(cs.update(k, c2), o)
                    == col_of(cs.drop_first().update(k - 1, c2), o));
                assert(col_of(cs, o) == col_of(cs.drop_first(), o));
            }
        }
    }
}

/// `col_of` and `col_idx` agree: the index is in range exactly when a
/// collection exists, and then points at it.
pub proof fn lemma_col_find(cs: Seq<Collection>, owner: u128)
    ensures
        0 <= col_idx(cs, owner) <= cs.len(),
        col_of(cs, owner) is Some <==> col_idx(cs, owner) < cs.len(),
        col_of(cs, owner) is Some ==> cs[col_idx(cs, owner)] == col_of(cs, owner)->Some_0
            && cs[col_idx(cs, owner)].owner == owner,
        forall|i: int| 0 <= i < col_idx(cs, owner) ==> (#[trigger] cs[i]).owner != owner,
    decreases cs.len(),
{
    if cs.len() > 0 && cs[0].owner != owner {
        lemma_col_find(cs.drop_first(), owner);
        assert forall|i: int| 0 <= i < col_idx(cs, owner) implies (#[trigger] cs[i]).owner
            != owner by {
            if i > 0 {
                assert(cs.drop_first()[i - 1] == cs[i]);
            }
        }
        assert(col_of(cs, owner) is Some ==> cs[col_idx(cs, owner)]
            == cs.drop_first()[col_idx(cs.drop_first(), owner)]);
    }
}


/// The items among `items` that fit dimension `dim`, in their order.
pub open spec fn accepted(items: Seq<IndexItem>, dim: int) -> Seq<IndexItem>
    decreases items.len(),
{
    if items.len() == 0 {
        seq![]
    } else {
        let p = accepted(items.drop_last(), dim);
        if item_fits(items.last(), dim) {
            p.push(items.last())
        } else {
            p
        }
    }
}

/// The ids of the items among `items` that do not fit `dim`.
pub open spec fn rejected_ids(items: Seq<IndexItem>, dim: int) -> Seq<u128>
    decreases items.len(),
{
    if items.len() == 0 {
        seq![]
    } else {
        let p = rejected_ids(items.drop_last(), dim);
        if item_fits(items.last(), dim) {
            p
        } else {
            p.push(items.last().id)
        }
    }
}

/// When every item fits, an upsert takes all of them and rejects
/// none.
pub proof fn lemma_accepted_all(items: Seq<IndexItem>, dim: int)
    requires
        forall|i: int| 0 <= i < items.len() ==> item_fits(#[trigger] items[i], dim),
    ensures
        accepted(items, dim) == items,
        rejected_ids(items, dim) == Seq::<u128>::empty(),
    decreases items.len(),
{
    if items.len() > 0 {
        lemma_accepted_all(items.drop_last(), dim);
        assert(items.drop_last().push(items.last()) =~= items);
    }
}

/// The similarity score of two vectors: their dot product.
pub open spec fn spec_dot(a: Seq<i64>, b: Seq<i64>) -> int
    decreases a.len(),
{
    if a.len() == 0 || b.len() == 0 {
        0
    } else {
        spec_dot(a.drop_last(), b.drop_last()) + a.last() * b.last()
    }
}

/// The score of item `i` of a collection against a query vector.
pub open spec fn item_score(items: Seq<IndexItem>, q: Seq<i64>, i: int) -> int {
    spec_dot(items[i].vector@, q)
}

proof fn lemma_dot_bound(a: Seq<i64>, b: Seq<i64>)
    requires
        a.len() == b.len(),
        forall|j: int| 0 <= j < a.len() ==> EMBED_MIN <= #[trigger] a[j] <= EMBED_MAX,
        forall|j: int| 0 <= j < b.len() ==> EMBED_MIN <= #[trigger] b[j] <= EMBED_MAX,
    ensures
        -250000 * a.len() <= spec_dot(a, b) <= 250000 * a.len(),
    decreases a.len(),
{
    if a.len() > 0 {
        lemma_dot_bound(a.drop_last(), b.drop_last());
        assert(-250000 <= a.last() * b.last() <= 250000) by (nonlinear_arith)
            requires
                -500 <= a.last() <= 499,
                -500 <= b.last() <= 499,
        ;
    }
}

fn vec_in_range(v: &Vec<i64>) -> (r: bool)
    ensures
        r == forall|j: int| 0 <= j < v@.len() ==> EMBED_MIN <= #[trigger] v@[j] <= EMBED_MAX,
{
    let mut i: usize = 0;
    while i < v.len()
        invariant
            i <= v@.len(),
            forall|j: int| 0 <= j < i ==> EMBED_MIN <= #[trigger] v@[j] <= EMBED_MAX,
        decreases v@.len() - i,
    {
        if v[i] < EMBED_MIN || v[i] > EMBED_MAX {
            return false;
        }
        i += 1;
    }
    true
}

fn dot(a: &Vec<i64>, b: &Vec<i64>) -> (r: i64)
    requires
        a@.len() == b@.len() <= MAX_DIM,
        forall|j: int| 0 <= j < a@.len() ==> EMBED_MIN <= #[trigger] a@[j] <= EMBED_MAX,
        forall|j: int| 0 <= j < b@.len() ==> EMBED_MIN <= #[trigger] b@[j] <= EMBED_MAX,
    ensures
        r as int == spec_dot(a@, b@),
{
    let n = a.len();
    let mut acc: i64 = 0;
    let mut i: usize = 0;
    while i < n
        invariant
            n == a@.len() == b@.len(),
            n <= MAX_DIM,
            i <= n,
            forall|j: int| 0 <= j < a@.len() ==> EMBED_MIN <= #[trigger] a@[j] <= EMBED_MAX,
            forall|j: int| 0 <= j < b@.len() ==> EMBED_MIN <= #[trigger] b@[j] <= EMBED_MAX,
            acc as int == spec_dot(a@.take(i as int), b@.take(i as int)),
            -250000 * (i as int) <= acc as int <= 250000 * (i as int),
        decreases n - i,
    {
        proof {
            assert(-250000 <= a@[i as int] * b@[i as int] <= 250000) by (nonlinear_arith)
                requires
                    -500 <= a@[i as int] <= 499,
                    -500 <= b@[i as int] <= 499,
            ;
            assert(250000 * (i as int) + 250000 <= 250000 * MAX_DIM) by (nonlinear_arith)
                requires
                    i + 1 <= MAX_DIM,
            ;
            assert(a@.take(i + 1).drop_last() =~= a@.take(i as int));
            assert(b@.take(i + 1).drop_last() =~= b@.take(i as int));
        }
        acc = acc + a[i] * b[i];
        i += 1;
        proof {
            assert(-250000 * (i as int) <= acc as int <= 250000 * (i as int)) by (nonlinear_arith)
                requires
                    -250000 * (i as int - 1) <= acc as int - a@[i as int - 1] * b@[i as int - 1]
                        <= 250000 * (i as int - 1),
                    -250000 <= a@[i as int - 1] * b@[i as int - 1] <= 250000,
            ;
        }
    }
    proof {
        assert(a@.take(n as int) =~= a@);
        assert(b@.take(n as int) =~= b@);
    }
    acc
}

/// The best index among the first `j` items that is not yet in `sel`:
/// the highest score, the earliest such index on a tie, `-1` when none
/// is left.
pub open spec fn best_upto(items: Seq<IndexItem>, q: Seq<i64>, sel: Seq<int>, j: int) -> int
    decreases j,
{
    if j <= 0 {
        -1
    } else {
        let prev = best_upto(items, q, sel, j - 1);
        if sel.contains(j - 1) {
            prev
        } else if prev == -1 || item_score(items, q, j - 1) > item_score(items, q, prev) {
            j - 1
        } else {
            prev
        }
    }
}

/// The indices of the top `count` items against a query, best first:
/// round after round, the best index not yet taken.
pub open spec fn spec_topk(items: Seq<IndexItem>, q: Seq<i64>, count: int) -> Seq<int>
    decreases count,
{
    if count <= 0 {
        seq![]
    } else {
        let prev = spec_topk(items, q, count - 1);
        prev.push(best_upto(items, q, prev, items.len() as int))
    }
}

proof fn lemma_best_upto_props(items: Seq<IndexItem>, q: Seq<i64>, sel: Seq<int>, j: int)
    ensures
        best_upto(items, q, sel, j) == -1 ==> forall|i: int| 0 <= i < j ==> sel.contains(i),
        best_upto(items, q, sel, j) != -1 ==> 0 <= best_upto(items, q, sel, j) < j
            && !sel.contains(best_upto(items, q, sel, j)),
        best_upto(items, q, sel, j) != -1 ==> forall|i: int|
            0 <= i < j && !sel.contains(i) ==> item_score(items, q, i) <= item_score(
                items,
                q,
                best_upto(items, q, sel, j),
            ),
    decreases j,
{
    if j > 0 {
        lemma_best_upto_props(items, q, sel, j - 1);
    }
}

proof fn lemma_some_unselected(items: Seq<IndexItem>, q: Seq<i64>, sel: Seq<int>)
    requires
        sel.no_duplicates(),
        forall|i: int| 0 <= i < sel.len() ==> 0 <= #[trigger] sel[i] < items.len(),
        sel.len() < items.len(),
    ensures
        best_upto(items, q, sel, items.len() as int) != -1,
{
    let n = items.len() as int;
    if best_upto(items, q, sel, n) == -1 {
        lemma_best_upto_props(items, q, sel, n);
        sel.unique_seq_to_set();
        assert(vstd::set_lib::set_int_range(0, n).subset_of(sel.to_set()));
        vstd::set_lib::lemma_int_range(0, n);
        vstd::set_lib::lemma_len_subset(vstd::set_lib::set_int_range(0, n), sel.to_set());
        assert(false);
    }
}

/// One search hit carries the score and payload of the item at `idx`.
pub open spec fn hit_matches(hit: SearchResult, items: Seq<IndexItem>, q: Seq<i64>, idx: int) -> bool {
    &&& 0 <= idx < items.len()
    &&& hit.score as int == item_score(items, q, idx)
    &&& hit.text@ == items[idx].text@
    &&& hit.chunk_index == items[idx].chunk_index
    &&& hit.file_path@ == items[idx].file_path@
}

/// What search returns on a collection holding `items`: one hit per
/// top-k index, in that order, with scores descending.
pub open spec fn search_output(res: Seq<SearchResult>, items: Seq<IndexItem>, q: Seq<i64>, k: int) -> bool {
    let count = if k < items.len() { k } else { items.len() as int };
    &&& res.len() == count
    &&& forall|j: int|
        0 <= j < count ==> hit_matches(#[trigger] res[j], items, q, spec_topk(items, q, count)[j])
    &&& forall|j: int| 0 <= j && j + 1 < count ==> #[trigger] res[j].score >= res[j + 1].score
}

/// Search is deterministic: on one collection state and one query
/// vector, any two results that meet the search contract agree hit by
/// hit in score and payload.
pub proof fn lemma_search_deterministic(
    res1: Seq<SearchResult>,
    res2: Seq<SearchResult>,
    items: Seq<IndexItem>,
    q: Seq<i64>,
    k: int,
)
    requires
        search_output(res1, items, q, k),
        search_output(res2, items, q, k),
    ensures
        res1.len() == res2.len(),
        forall|j: int|
            0 <= j < res1.len() ==> (#[trigger] res1[j]).score == res2[j].score && res1[j].text@
                == res2[j].text@ && res1[j].chunk_index == res2[j].chunk_index
                && res1[j].file_path@ == res2[j].file_path@,
{
}

impl VectorIndex {
    /// Well-formed: every collection is, and owners are distinct.
    pub open spec fn wf(self) -> bool {
        &&& forall|i: int| 0 <= i < self.collections@.len() ==> (#[trigger] self.collections@[i]).wf()
        &&& forall|i: int, j: int|
            0 <= i < j < self.collections@.len() ==> self.collections@[i].owner
                != self.collections@[j].owner
    }

    /// An empty index.
    pub fn new() -> (r: Self)
        ensures
            r.wf(),
            r.collections@.len() == 0,
    {
        VectorIndex { collections: Vec::new() }
    }

    fn find_col(&self, owner: u128) -> (r: Option<usize>)
        ensures
            r matches Some(i) ==> i < self.collections@.len() && i == col_idx(
                self.collections@,
                owner,
            ) && col_of(self.collections@, owner) == Some(self.collections@[i as int]),
            r is None ==> col_of(self.collections@, owner) is None,
    {
        let ghost cs = self.collections@;
        proof {
            assert(cs.skip(0) =~= cs);
        }
        let mut i: usize = 0;
        while i < self.collections.len()
            invariant
                cs == self.collections@,
                i <= cs.len(),
                forall|j: int| 0 <= j < i ==> (#[trigger] cs[j]).owner != owner,
                col_of(cs, owner) == col_of(cs.skip(i as int), owner),
                col_idx(cs, owner) == i + col_idx(cs.skip(i as int), owner),
            decreases cs.len() - i,
        {
            proof {
                assert(cs.skip(i as int).drop_first() =~= cs.skip(i + 1));
                assert(cs.skip(i as int)[0] == cs[i as int]);
            }
            if self.collections[i].owner == owner {
                proof {
                    lemma_col_find(cs, owner);
                }
                return Some(i);
            }
            i += 1;
        }
        proof {
            assert(cs.skip(cs.len() as int) =~= Seq::<Collection>::empty());
        }
        None
    }

    /// Create the collection for `owner` with the given dimension if
    /// it is not there yet.  Idempotent: a second call with the same
    /// dimension changes nothing; one with another dimension is a
    /// configuration error, and a dimension above `MAX_DIM` is invalid.
    pub fn ensure_collection(&mut self, owner: u128, dimension: usize) -> (r: Result<(), RagError>)
        requires
            old(self).wf(),
        ensures
            final(self).wf(),
            dimension > MAX_DIM ==> r == Err::<(), RagError>(RagError::InvalidInput)
                && *final(self) == *old(self),
            (dimension <= MAX_DIM && col_of(old(self).collections@, owner) is None) ==> r is Ok
                && final(self).collections@.len() == old(self).collections@.len() + 1
                && final(self).collections@.take(old(self).collections@.len() as int)
                    == old(self).collections@
                && final(self).collections@.last().owner == owner
                && final(self).collections@.last().dim == dimension
                && final(self).collections@.last().items@.len() == 0
                && col_of(final(self).collections@, owner)
                    == Some(final(self).collections@.last()),
            (dimension <= MAX_DIM && col_of(old(self).collections@, owner) is Some) ==> *final(self)
                == *old(self) && (r is Ok <==> col_of(old(self).collections@, owner)->Some_0.dim
                == dimension) && (r is Err ==> r == Err::<(), RagError>(RagError::IndexFailure)),
    {
        if dimension > MAX_DIM {
            return Err(RagError::InvalidInput);
        }
        match self.find_col(owner) {
            Some(i) => {
                if self.collections[i].dim == dimension {
                    Ok(())
                } else {
                    Err(RagError::IndexFailure)
                }
            },
            None => {
                let ghost old_cs = self.collections@;
                self.collections.push(Collection { owner, dim: dimension, items: Vec::new() });
                proof {
                    lemma_col_find(old_cs, owner);
                    lemma_col_of_push(old_cs, self.collections@.last(), owner);
                    assert(self.collections@.take(old_cs.len() as int) =~= old_cs);
                    assert forall|i: int, j: int|
                        0 <= i < j < self.collections@.len() implies self.collections@[i].owner
                        != self.collections@[j].owner by {
                        if j < old_cs.len() {
                        } else {
                            assert(self.collections@[j].owner == owner);
                        }
                    }
                }
                Ok(())
            },
        }
    }

    /// Insert the given items into the collection of `owner`: each
    /// item goes in on its own; one whose vector does not fit the
    /// collection's dimension is rejected and its id reported, not the
    /// whole batch.  A missing collection is an index failure.
    pub fn upsert(&mut self, owner: u128, items: Vec<IndexItem>) -> (r: Result<
        UpsertOutcome,
        RagError,
    >)
        requires
            old(self).wf(),
        ensures
            final(self).wf(),
            col_of(old(self).collections@, owner) is None ==> r == Err::<UpsertOutcome, RagError>(
                RagError::IndexFailure,
            ) && *final(self) == *old(self),
            col_of(old(self).collections@, owner) is Some ==> r is Ok && {
                let dim = col_of(old(self).collections@, owner)->Some_0.dim as int;
                &&& r->Ok_0.inserted == accepted(items@, dim).len()
                &&& r->Ok_0.failed_ids@ == rejected_ids(items@, dim)
                &&& col_of(final(self).collections@, owner) is Some
                &&& col_of(final(self).collections@, owner)->Some_0.dim as int == dim
                &&& col_of(final(self).collections@, owner)->Some_0.items@ == col_of(
                    old(self).collections@,
                    owner,
                )->Some_0.items@ + accepted(items@, dim)
                &&& forall|o: u128|
                    o != owner ==> #[trigger] col_of(final(self).collections@, o) == col_of(
                        old(self).collections@,
                        o,
                    )
            },
    {
        let mut items = items;
        let k = match self.find_col(owner) {
            Some(k) => k,
            None => {
                return Err(RagError::IndexFailure);
            },
        };
        let ghost old_cs = self.collections@;
        proof {
            lemma_col_find(old_cs, owner);
        }
        let mut col = self.collections.remove(k);
        let ghost base_items = col.items@;
        let dim = col.dim;
        let total = items.len();
        let ghost orig = items@;
        let mut count: usize = 0;
        let mut failed: Vec<u128> = Vec::new();
        let mut t: usize = 0;
        proof {
            assert(orig.skip(0) =~= orig);
            assert(accepted(orig.take(0), dim as int) =~= Seq::<IndexItem>::empty());
            assert(rejected_ids(orig.take(0), dim as int) =~= Seq::<u128>::empty());
        }
        while items.len() > 0
            invariant
                total == orig.len(),
                t <= total,
                t + items@.len() == orig.len(),
                items@ == orig.skip(t as int),
                col.owner == owner,
                col.dim == dim,
                dim <= MAX_DIM,
                col.items@ == base_items + accepted(orig.take(t as int), dim as int),
                forall|i: int|
                    0 <= i < col.items@.len() ==> item_fits(#[trigger] col.items@[i], dim as int),
                failed@ == rejected_ids(orig.take(t as int), dim as int),
                count == accepted(orig.take(t as int), dim as int).len(),
                count <= t,
            decreases items@.len(),
        {
            proof {
                assert(orig.skip(t as int)[0] == orig[t as int]);
                assert(orig.skip(t as int).remove(0) =~= orig.skip(t + 1));
                assert(orig.take(t + 1).drop_last() =~= orig.take(t as int));
                assert(orig.take(t + 1).last() == orig[t as int]);
            }
            let it = items.remove(0);
            let fits = it.vector.len() == dim && vec_in_range(&it.vector);
            if fits {
                col.items.push(it);
                count += 1;
            } else {
                failed.push(it.id);
            }
            t += 1;
        }
        proof {
            assert(orig.take(orig.len() as int) =~= orig);
        }
        let ghost new_col = col;
        self.collections.insert(k, col);
        proof {
            assert(self.collections@ =~= old_cs.update(k as int, new_col));
            assert(new_col.owner == old_cs[k as int].owner);
            lemma_col_of_update(old_cs, k as int, new_col);
            assert forall|i: int, j: int|
                0 <= i < j < self.collections@.len() implies self.collections@[i].owner
                != self.collections@[j].owner by {
                assert(old_cs[i].owner != old_cs[j].owner);
                assert(self.collections@[i].owner == old_cs[i].owner);
                assert(self.collections@[j].owner == old_cs[j].owner);
            }
        }
        Ok(UpsertOutcome { inserted: count, failed_ids: failed })
    }

    /// Top-k similarity search over the collection of `owner`.  The
    /// result is fully determined by the collection's items and the
    /// query: hits come in descending score order, ties resolved
    /// towards the earlier-inserted item, `min(k, items)` of them.
    pub fn search(&self, owner: u128, query: &Vec<i64>, k: usize) -> (r: Result<
        Vec<SearchResult>,
        RagError,
    >)
        requires
            self.wf(),
            forall|j: int| 0 <= j < query@.len() ==> EMBED_MIN <= #[trigger] query@[j] <= EMBED_MAX,
        ensures
            k == 0 ==> r == Err::<Vec<SearchResult>, RagError>(RagError::InvalidInput),
            k > 0 && col_of(self.collections@, owner) is None ==> r == Err::<
                Vec<SearchResult>,
                RagError,
            >(RagError::IndexFailure),
            (k > 0 && col_of(self.collections@, owner) is Some && col_of(
                self.collections@,
                owner,
            )->Some_0.dim != query@.len()) ==> r == Err::<Vec<SearchResult>, RagError>(
                RagError::IndexFailure,
            ),
            (k > 0 && col_of(self.collections@, owner) is Some && col_of(
                self.collections@,
                owner,
            )->Some_0.dim == query@.len()) ==> r is Ok && search_output(
                r->Ok_0@,
                col_of(self.collections@, owner)->Some_0.items@,
                query@,
                k as int,
            ),
    {
        if k == 0 {
            return Err(RagError::InvalidInput);
        }
        let ci = match self.find_col(owner) {
            Some(ci) => ci,
            None => {
                return Err(RagError::IndexFailure);
            },
        };
        let col = &self.collections[ci];
        if query.len() != col.dim {
            return Err(RagError::IndexFailure);
        }
        let ghost its = col.items@;
        let ghost q = query@;
        let n = col.items.len();
        let count = if k < n {
            k
        } else {
            n
        };
        let mut scores: Vec<i64> = Vec::new();
        let mut i: usize = 0;
        while i < n
            invariant
                n == its.len(),
                its == col.items@,
                q == query@,
                col == &self.collections[ci as int],
                ci < self.collections@.len(),
                self.wf(),
                col.wf(),
                query@.len() == col.dim,
                forall|j: int|
                    0 <= j < query@.len() ==> EMBED_MIN <= #[trigger] query@[j] <= EMBED_MAX,
                i <= n,
                scores@.len() == i,
                forall|j: int| 0 <= j < i ==> #[trigger] scores@[j] as int == item_score(its, q, j),
            decreases n - i,
        {
            let sc = dot(&col.items[i].vector, query);
            scores.push(sc);
            i += 1;
        }
        let mut used: Vec<bool> = Vec::new();
        let mut i: usize = 0;
        while i < n
            invariant
                i <= n,
                used@.len() == i,
                forall|j: int| 0 <= j < i ==> !(#[trigger] used@[j]),
            decreases n - i,
        {
            used.push(false);
            i += 1;
        }
        let mut res: Vec<SearchResult> = Vec::new();
        let ghost mut sel: Seq<int> = Seq::empty();
        let mut round: usize = 0;
        while round < count
            invariant
                n == its.len(),
                its == col.items@,
                q == query@,
                col == &self.collections[ci as int],
                ci < self.collections@.len(),
                self.wf(),
                col.wf(),
                count <= n,
                count <= k,
                count == if (k as int) < its.len() { k as int } else { its.len() as int },
                round <= count,
                scores@.len() == n,
                forall|j: int| 0 <= j < n ==> #[trigger] scores@[j] as int == item_score(its, q, j),
                used@.len() == n,
                forall|u: int| 0 <= u < n ==> (#[trigger] used@[u] <==> sel.contains(u)),
                sel == spec_topk(its, q, round as int),
                sel.len() == round,
                sel.no_duplicates(),
                forall|j: int| 0 <= j < sel.len() ==> 0 <= #[trigger] sel[j] < n,
                res@.len() == round,
                forall|j: int| 0 <= j < round ==> hit_matches(#[trigger] res@[j], its, q, sel[j]),
                forall|j: int| 0 <= j && j + 1 < round ==> #[trigger] res@[j].score >= res@[j
                    + 1].score,
                round > 0 ==> forall|u: int|
                    0 <= u < n && !sel.contains(u) ==> item_score(its, q, u) <= res@.last().score
                        as int,
            decreases count - round,
        {
            let mut cur: usize = 0;
            let mut found = false;
            let mut j: usize = 0;
            while j < n
                invariant
                    n == its.len(),
                    q == query@,
                    j <= n,
                    scores@.len() == n,
                    forall|jj: int|
                        0 <= jj < n ==> #[trigger] scores@[jj] as int == item_score(its, q, jj),
                    used@.len() == n,
                    forall|u: int| 0 <= u < n ==> (#[trigger] used@[u] <==> sel.contains(u)),
                    found ==> cur < j,
                    best_upto(its, q, sel, j as int) == if found {
                        cur as int
                    } else {
                        -1
                    },
                decreases n - j,
            {
                if !used[j] {
                    if !found || scores[j] > scores[cur] {
                        cur = j;
                        found = true;
                    }
                }
                j += 1;
            }
            proof {
                lemma_some_unselected(its, q, sel);
                lemma_best_upto_props(its, q, sel, n as int);
            }
            let b = cur;
            let ghost bi = b as int;
            let item = &col.items[b];
            let hit = SearchResult {
                score: scores[b],
                text: item.text.clone(),
                chunk_index: item.chunk_index,
                file_path: item.file_path.clone(),
            };
            let ghost old_res = res@;
            let ghost old_sel = sel;
            res.push(hit);
            used[b] = true;
            proof {
                sel = sel.push(bi);
                assert(spec_topk(its, q, round + 1) == sel);
                assert forall|ii: int, jj: int| 0 <= ii < jj < sel.len() implies sel[ii]
                    != sel[jj] by {
                    if jj == sel.len() - 1 {
                        assert(old_sel.contains(old_sel[ii]));
                    }
                }
                assert forall|u: int| 0 <= u < n implies (#[trigger] used@[u] <==> sel.contains(
                    u,
                )) by {
                    assert(old_sel.push(bi).contains(u) <==> bi == u || old_sel.contains(u));
                }
                assert(res@[round as int] == hit);
                assert(hit_matches(hit, its, q, bi));
                if round > 0 {
                    assert(item_score(its, q, bi) <= old_res.last().score as int);
                }
                assert forall|u: int| 0 <= u < n && !sel.contains(u) implies item_score(its, q, u)
                    <= res@.last().score as int by {
                    assert(!old_sel.contains(u));
                }
            }
            round += 1;
        }
        Ok(res)
    }
}

} // verus!
