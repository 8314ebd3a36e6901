//! Flat dot-product similarity search: score every node of the tenant that
//! carries a stored vector against the query vector, rank descending, and
//! keep the top of the ranking. Coordinates are fixed-point integers;
//! callers wanting cosine similarity pre-normalize.

use vstd::prelude::*;

use crate::node::{KnowledgeNode, NodeView};
use crate::order::{insert_by, lemma_insert_by_prefix, lemma_ordered_pairwise,
    lemma_sort_by_rel_ordered, ordered_by, sort_by_rel, total_preorder};

verus! {

/// The dot product of the common prefix of two coordinate sequences: a
/// shorter vector is treated as padded with zeroes.
pub open spec fn spec_dot(a: Seq<i32>, b: Seq<i32>) -> int
    decreases a.len(),
{
    if a.len() == 0 || b.len() == 0 {
        0
    } else {
        a[0] * b[0] + spec_dot(a.drop_first(), b.drop_first())
    }
}

/// The dot product of two stored coordinate vectors, over their common
/// prefix. The accumulator is wide enough that no realizable vector length
/// can overflow it.
pub fn dot_product(a: &Vec<i32>, b: &Vec<i32>) -> (r: i128)
    ensures
        r as int == spec_dot(a@, b@),
{
    let dim = if a.len() < b.len() {
        a.len()
    } else {
        b.len()
    };
    let mut acc: i128 = 0;
    let mut i: usize = 0;
    proof {
        assert(a@.skip(0) =~= a@);
        assert(b@.skip(0) =~= b@);
    }
    while i < dim
        invariant
            dim <= a@.len(),
            dim <= b@.len(),
            i <= dim,
            spec_dot(a@, b@) == acc + spec_dot(a@.skip(i as int), b@.skip(i as int)),
            -(i as int * 0x4000_0000_0000_0000int) <= acc as int <= i as int
                * 0x4000_0000_0000_0000int,
        decreases dim - i,
    {
        proof {
            assert(-0x4000_0000_0000_0000int <= (a@[i as int] as int) * (b@[i as int] as int)
                <= 0x4000_0000_0000_0000int) by (nonlinear_arith)
                requires
                    -0x8000_0000 <= a@[i as int] as int <= 0x7fff_ffff,
                    -0x8000_0000 <= b@[i as int] as int <= 0x7fff_ffff,
            ;
        }
        let p: i128 = (a[i] as i128) * (b[i] as i128);
        proof {
            assert(i as int * 0x4000_0000_0000_0000int + 0x4000_0000_0000_0000int == (i + 1)
                * 0x4000_0000_0000_0000int) by (nonlinear_arith);
            assert((i + 1) * 0x4000_0000_0000_0000int <= 0x1_0000_0000_0000_0000int
                * 0x4000_0000_0000_0000int) by (nonlinear_arith)
                requires i + 1 <= 0x1_0000_0000_0000_0000int;
            assert(a@.skip(i as int).len() > 0 && b@.skip(i as int).len() > 0);
            assert(a@.skip(i as int)[0] == a@[i as int]);
            assert(b@.skip(i as int)[0] == b@[i as int]);
            assert(a@.skip(i as int).drop_first() =~= a@.skip(i as int + 1));
            assert(b@.skip(i as int).drop_first() =~= b@.skip(i as int + 1));
        }
        acc = acc + p;
        i = i + 1;
    }
    proof {
        if a@.skip(i as int).len() == 0 || b@.skip(i as int).len() == 0 {
            assert(spec_dot(a@.skip(i as int), b@.skip(i as int)) == 0);
        }
    }
    acc
}

/// A similarity candidate: its score against the query, its position in
/// the candidate listing (the tie-break), and the node itself.
pub struct ScoredNode {
    pub score: i128,
    pub rank: usize,
    pub node: KnowledgeNode,
}

/// Mathematical model of a similarity candidate.
pub struct ScoredView {
    pub score: int,
    pub rank: int,
    pub node: NodeView,
}

impl View for ScoredNode {
    type V = ScoredView;

    open spec fn view(&self) -> ScoredView {
        ScoredView { score: self.score as int, rank: self.rank as int, node: self.node@ }
    }
}

/// Ranking order: higher scores first, earlier candidates first among
/// equal scores. On candidates with distinct ranks this is a strict total
/// order, which is what makes the ranking deterministic.
pub open spec fn score_before(a: ScoredView, b: ScoredView) -> bool {
    a.score > b.score || (a.score == b.score && a.rank <= b.rank)
}

/// The ranking order as a relation value, for the sort machinery.
pub open spec fn score_before_rel() -> spec_fn(ScoredView, ScoredView) -> bool {
    |a: ScoredView, b: ScoredView| score_before(a, b)
}

/// The ranking order relates every pair and is transitive.
pub proof fn lemma_score_before_total()
    ensures
        total_preorder(score_before_rel()),
{
    assert forall|a: ScoredView, b: ScoredView| #[trigger]
        score_before_rel()(a, b) || #[trigger] score_before_rel()(b, a) by {
        if !score_before(a, b) {
            assert(score_before(b, a));
        }
    }
}

/// The nodes a similarity query ranges over: those of `tenant` carrying a
/// stored vector, in store order.
pub open spec fn sim_candidates(s: Seq<NodeView>, tenant: u128) -> Seq<NodeView>
    decreases s.len(),
{
    if s.len() == 0 {
        Seq::empty()
    } else {
        let rest = sim_candidates(s.drop_last(), tenant);
        if s.last().tenant_id == tenant && s.last().vector is Some {
            rest.push(s.last())
        } else {
            rest
        }
    }
}

/// A candidate's score against the query.
pub open spec fn score_of(n: NodeView, q: Seq<i32>) -> int {
    match n.vector {
        Some(v) => spec_dot(v, q),
        None => 0,
    }
}

/// The candidates paired with their scores and ranks.
pub open spec fn scored_of(c: Seq<NodeView>, q: Seq<i32>) -> Seq<ScoredView> {
    Seq::new(c.len(), |i: int| ScoredView { score: score_of(c[i], q), rank: i, node: c[i] })
}

/// The full similarity ranking of a store for one query.
pub open spec fn similarity_ranking(s: Seq<NodeView>, tenant: u128, q: Seq<i32>) -> Seq<
    ScoredView,
> {
    sort_by_rel(score_before_rel(), scored_of(sim_candidates(s, tenant), q))
}

/// What a similarity query returns: the nodes of the top of the ranking,
/// in ranking order; an empty query vector yields an empty result.
pub open spec fn similarity_page(s: Seq<NodeView>, tenant: u128, q: Seq<i32>, limit: int) -> Seq<
    NodeView,
> {
    if q.len() == 0 {
        Seq::empty()
    } else {
        let ranked = similarity_ranking(s, tenant, q);
        let stop = if limit < ranked.len() {
            limit
        } else {
            ranked.len() as int
        };
        ranked.take(stop).map_values(|sv: ScoredView| sv.node)
    }
}

/// Ranking order, decided on two scored candidates.
fn scored_before_exec(a: &ScoredNode, b: &ScoredNode) -> (r: bool)
    ensures
        r == score_before(a@, b@),
{
    a.score > b.score || (a.score == b.score && a.rank <= b.rank)
}

/// Splice a scored candidate into an already ranked vector.
fn insert_ranked(out: &mut Vec<ScoredNode>, x: ScoredNode)
    ensures
        scored_views(final(out)@) == insert_by(score_before_rel(), x@, scored_views(old(out)@)),
{
    let ghost v0 = scored_views(out@);
    let n = out.len();
    let mut j: usize = 0;
    while j < n && !scored_before_exec(&x, &out[j])
        invariant
            scored_views(out@) == v0,
            n == out@.len(),
            j <= n,
            forall|k: int| 0 <= k < j ==> !(score_before_rel()(x@, #[trigger] v0[k])),
        decreases n - j,
    {
        j = j + 1;
    }
    proof {
        lemma_insert_by_prefix(score_before_rel(), x@, v0, j as int);
        if j < n {
            assert(v0.skip(j as int)[0] == v0[j as int]);
            assert(insert_by(score_before_rel(), x@, v0.skip(j as int)) =~= seq![x@] + v0.skip(
                j as int,
            ));
        } else {
            assert(v0.skip(j as int).len() == 0);
        }
        assert(insert_by(score_before_rel(), x@, v0) =~= v0.take(j as int) + seq![x@] + v0.skip(
            j as int,
        ));
    }
    out.insert(j, x);
    proof {
        assert(scored_views(out@) =~= v0.take(j as int) + seq![x@] + v0.skip(j as int));
    }
}

/// The models of a sequence of scored candidates.
pub open spec fn scored_views(v: Seq<ScoredNode>) -> Seq<ScoredView> {
    v.map_values(|x: ScoredNode| x@)
}

/// Sort scored candidates into ranking order.
pub fn sort_by_score(v: Vec<ScoredNode>) -> (r: Vec<ScoredNode>)
    ensures
        scored_views(r@) == sort_by_rel(score_before_rel(), scored_views(v@)),
{
    let ghost orig = scored_views(v@);
    let mut v = v;
    let mut out: Vec<ScoredNode> = Vec::new();
    proof {
        assert(scored_views(v@) =~= orig.take(v@.len() as int));
        assert(orig.skip(v@.len() as int).len() == 0);
        assert(scored_views(out@) =~= sort_by_rel(score_before_rel(), orig.skip(v@.len() as int)));
    }
    while v.len() > 0
        invariant
            scored_views(v@) == orig.take(v@.len() as int),
            v@.len() <= orig.len(),
            scored_views(out@) == sort_by_rel(score_before_rel(), orig.skip(v@.len() as int)),
        decreases v@.len(),
    {
        let ghost k = v@.len() as int;
        let x = match v.pop() {
            Some(x) => x,
            None => vstd::pervasive::unreached(),
        };
        proof {
            assert(x@ == orig.take(k)[k - 1]);
            assert(x@ == orig[k - 1]);
            assert(scored_views(v@) =~= orig.take(k - 1));
            assert(orig.skip(k - 1).len() > 0);
            assert(orig.skip(k - 1)[0] == orig[k - 1]);
            assert(orig.skip(k - 1).drop_first() =~= orig.skip(k));
        }
        insert_ranked(&mut out, x);
        proof {
            assert(scored_views(out@) == insert_by(
                score_before_rel(),
                orig[k - 1],
                sort_by_rel(score_before_rel(), orig.skip(k)),
            ));
        }
    }
    proof {
        assert(orig.skip(0) =~= orig);
        assert(scored_views(v@).len() == 0);
    }
    out
}

/// Similarity ranking correctness: every candidate the ranking keeps
/// within the first `limit` places scores at least as high as every
/// candidate ranked past them — truncating the ranking loses only nodes
/// that score no better than any returned one.
pub proof fn lemma_top_k_dominates(s: Seq<NodeView>, tenant: u128, q: Seq<i32>, i: int, j: int)
    requires
        0 <= i <= j < similarity_ranking(s, tenant, q).len(),
    ensures
        similarity_ranking(s, tenant, q)[i].score >= similarity_ranking(s, tenant, q)[j].score,
{
    let ranked = similarity_ranking(s, tenant, q);
    lemma_score_before_total();
    lemma_sort_by_rel_ordered(score_before_rel(), scored_of(sim_candidates(s, tenant), q));
    lemma_ordered_pairwise(score_before_rel(), ranked, i, j);
    if i < j {
        assert(score_before(ranked[i], ranked[j]));
    }
}

} // verus!
