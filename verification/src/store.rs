//! The in-process node repository: a tenant-isolated store of knowledge
//! nodes with upsert, lookup by identity or capsule key, deletion, and
//! keyset-paginated queries by kind.

use vstd::prelude::*;

use crate::node::{KnowledgeNode, NodePayload, NodeView, UpsertOutcome};
use crate::order::{
    first_where, insert_by, lemma_first_where_at, lemma_first_where_none, lemma_insert_by_prefix,
    sort_by_rel,
};
use crate::paging::{id_pred, kind_le, kind_le_rel, kind_listing, kind_page, page_start, restrict_kind};
use crate::similarity::{
    dot_product, scored_of, scored_views, sim_candidates, similarity_page, similarity_ranking,
    sort_by_score, ScoredNode, ScoredView,
};

verus! {

/// The models of a sequence of stored nodes.
pub open spec fn views_of(v: Seq<KnowledgeNode>) -> Seq<NodeView> {
    v.map_values(|n: KnowledgeNode| n@)
}

/// The listing order, decided on two stored nodes.
fn node_le(a: &KnowledgeNode, b: &KnowledgeNode) -> (r: bool)
    ensures
        r == kind_le(a@, b@),
{
    a.created_at < b.created_at || (a.created_at == b.created_at && a.id <= b.id)
}

/// Splice `x` into an already ordered vector, before the first node it
/// precedes in the listing order.
fn insert_in_order(out: &mut Vec<KnowledgeNode>, x: KnowledgeNode)
    ensures
        views_of(final(out)@) == insert_by(kind_le_rel(), x@, views_of(old(out)@)),
{
    let ghost v0 = views_of(out@);
    let n = out.len();
    let mut j: usize = 0;
    while j < n && !node_le(&x, &out[j])
        invariant
            views_of(out@) == v0,
            n == out@.len(),
            j <= n,
            forall|k: int| 0 <= k < j ==> !(kind_le_rel()(x@, #[trigger] v0[k])),
        decreases n - j,
    {
        j = j + 1;
    }
    proof {
        lemma_insert_by_prefix(kind_le_rel(), x@, v0, j as int);
        if j < n {
            assert(v0.skip(j as int)[0] == v0[j as int]);
            assert(insert_by(kind_le_rel(), x@, v0.skip(j as int)) =~= seq![x@] + v0.skip(j as int));
        } else {
            assert(v0.skip(j as int).len() == 0);
        }
        assert(insert_by(kind_le_rel(), x@, v0) =~= v0.take(j as int) + seq![x@] + v0.skip(j as int));
    }
    out.insert(j, x);
    proof {
        assert(views_of(out@) =~= v0.take(j as int) + seq![x@] + v0.skip(j as int));
    }
}

/// Sort stored nodes into the listing order `(created_at, id)` ascending.
fn sort_in_listing_order(v: Vec<KnowledgeNode>) -> (r: Vec<KnowledgeNode>)
    ensures
        views_of(r@) == sort_by_rel(kind_le_rel(), views_of(v@)),
{
    let ghost orig = views_of(v@);
    let mut v = v;
    let mut out: Vec<KnowledgeNode> = Vec::new();
    proof {
        assert(views_of(v@) =~= orig.take(v@.len() as int));
        assert(orig.skip(v@.len() as int).len() == 0);
        assert(views_of(out@) =~= sort_by_rel(kind_le_rel(), orig.skip(v@.len() as int)));
    }
    while v.len() > 0
        invariant
            views_of(v@) == orig.take(v@.len() as int),
            v@.len() <= orig.len(),
            views_of(out@) == sort_by_rel(kind_le_rel(), orig.skip(v@.len() as int)),
        decreases v@.len(),
    {
        let ghost k = v@.len() as int;
        let x = match v.pop() {
            Some(x) => x,
            None => vstd::pervasive::unreached(),
        };
        proof {
            assert(x@ == orig.take(k)[k - 1]);
            assert(x@ == orig[k - 1]);
            assert(views_of(v@) =~= orig.take(k - 1));
            assert(orig.skip(k - 1).len() > 0);
            assert(orig.skip(k - 1)[0] == orig[k - 1]);
            assert(orig.skip(k - 1).drop_first() =~= orig.skip(k));
        }
        insert_in_order(&mut out, x);
        proof {
            assert(views_of(out@) == insert_by(
                kind_le_rel(),
                orig[k - 1],
                sort_by_rel(kind_le_rel(), orig.skip(k)),
            ));
        }
    }
    proof {
        assert(orig.skip(0) =~= orig);
        assert(views_of(v@).len() == 0);
    }
    out
}

/// The position of the first node with identity `id` in `v`.
fn position_of_id(v: &Vec<KnowledgeNode>, id: u128) -> (r: Option<usize>)
    ensures
        match r {
            None => first_where(id_pred(id), views_of(v@)) == -1,
            Some(p) => 0 <= p < v@.len() && first_where(id_pred(id), views_of(v@)) == p as int,
        },
{
    let count = v.len();
    let mut i: usize = 0;
    while i < count
        invariant
            count == v@.len(),
            i <= count,
            forall|k: int| 0 <= k < i ==> !(id_pred(id)(#[trigger] views_of(v@)[k])),
        decreases count - i,
    {
        if v[i].id == id {
            proof {
                assert(id_pred(id)(views_of(v@)[i as int]));
                lemma_first_where_at(id_pred(id), views_of(v@), i as int);
            }
            return Some(i);
        }
        i = i + 1;
    }
    proof {
        lemma_first_where_none(id_pred(id), views_of(v@));
    }
    None
}

/// Matches the node stored under `(tenant, id)`.
pub open spec fn ident_pred(tenant: u128, id: u128) -> spec_fn(NodeView) -> bool {
    |n: NodeView| n.tenant_id == tenant && n.id == id
}

/// Matches a node of `tenant` whose payload is a capsule stored under `key`.
pub open spec fn key_pred(tenant: u128, key: Seq<char>) -> spec_fn(NodeView) -> bool {
    |n: NodeView| n.tenant_id == tenant && n.key() == Some(key)
}

/// The index of the node stored under `(tenant, id)`, or `-1`.
pub open spec fn find_node(s: Seq<NodeView>, tenant: u128, id: u128) -> int {
    first_where(ident_pred(tenant, id), s)
}

/// The index of the first node of `tenant` keyed by `key`, or `-1`.
pub open spec fn find_by_key(s: Seq<NodeView>, tenant: u128, key: Seq<char>) -> int {
    first_where(key_pred(tenant, key), s)
}

/// A node as the store records it: owned by `tenant`, with the given
/// creation and update instants.
pub open spec fn stored_as(nv: NodeView, tenant: u128, created: i64, now: i64) -> NodeView {
    NodeView { tenant_id: tenant, created_at: created, updated_at: now, ..nv }
}

/// What an upsert does to the store: replace the node with the same
/// identity in place, keeping its original creation instant, or append a
/// fresh node whose two timestamps both start at `now`.
pub open spec fn upsert_model(s: Seq<NodeView>, tenant: u128, nv: NodeView, now: i64) -> Seq<
    NodeView,
> {
    let i = find_node(s, tenant, nv.id);
    if i == -1 {
        s.push(stored_as(nv, tenant, now, now))
    } else {
        s.update(i, stored_as(nv, tenant, s[i].created_at, now))
    }
}

/// No two rows of the store share a `(tenant, id)` identity.
pub open spec fn distinct_identities(s: Seq<NodeView>) -> bool {
    forall|i: int, j: int|
        #![trigger s[i], s[j]]
        0 <= i < j < s.len() ==> !(s[i].tenant_id == s[j].tenant_id && s[i].id == s[j].id)
}

/// Upsert idempotence: after one upsert of a node, upserting the same
/// identity again finds it (the second call reports `Updated`), the row's
/// `created_at` is the instant of its first write, and a second upsert
/// leaves `created_at` unchanged.
pub proof fn lemma_upsert_idempotent(
    s: Seq<NodeView>,
    tenant: u128,
    nv: NodeView,
    now1: i64,
    now2: i64,
)
    ensures
        ({
            let s1 = upsert_model(s, tenant, nv, now1);
            let i0 = find_node(s, tenant, nv.id);
            let i1 = find_node(s1, tenant, nv.id);
            &&& i1 != -1
            &&& s1[i1].created_at == (if i0 == -1 {
                now1
            } else {
                s[i0].created_at
            })
            &&& find_node(upsert_model(s1, tenant, nv, now2), tenant, nv.id) == i1
            &&& upsert_model(s1, tenant, nv, now2)[i1].created_at == s1[i1].created_at
        }),
{
    let p = ident_pred(tenant, nv.id);
    let s1 = upsert_model(s, tenant, nv, now1);
    let i0 = find_node(s, tenant, nv.id);
    crate::order::lemma_first_where_props(p, s);
    if i0 == -1 {
        let x = stored_as(nv, tenant, now1, now1);
        assert(p(x));
        assert(s1 == s.push(x));
        assert(s1[s.len() as int] == x);
        assert(forall|k: int| 0 <= k < s.len() ==> #[trigger] s1[k] == s[k]);
        lemma_first_where_at(p, s1, s.len() as int);
    } else {
        let x = stored_as(nv, tenant, s[i0].created_at, now1);
        assert(p(x));
        assert(s1 == s.update(i0, x));
        assert(s1[i0] == x);
        assert(forall|k: int| 0 <= k < i0 ==> #[trigger] s1[k] == s[k]);
        lemma_first_where_at(p, s1, i0);
    }
    let i1 = find_node(s1, tenant, nv.id);
    let s2 = upsert_model(s1, tenant, nv, now2);
    let y = stored_as(nv, tenant, s1[i1].created_at, now2);
    assert(p(y));
    assert(s2 == s1.update(i1, y));
    assert(s2[i1] == y);
    assert(forall|k: int| 0 <= k < i1 ==> #[trigger] s2[k] == s1[k]);
    crate::order::lemma_first_where_props(p, s1);
    lemma_first_where_at(p, s2, i1);
}

/// Tenant isolation: an upsert under one tenant never changes what any
/// other tenant sees — for every other tenant, lookups by identity and by
/// capsule key resolve to the same row (or to no row) before and after the
/// write.
pub proof fn lemma_tenant_isolation(
    s: Seq<NodeView>,
    t1: u128,
    nv: NodeView,
    now: i64,
    t2: u128,
    id: u128,
    key: Seq<char>,
)
    requires
        t1 != t2,
    ensures
        find_node(upsert_model(s, t1, nv, now), t2, id) == find_node(s, t2, id),
        find_node(s, t2, id) != -1 ==> upsert_model(s, t1, nv, now)[find_node(s, t2, id)] == s[
            find_node(s, t2, id)
        ],
        find_by_key(upsert_model(s, t1, nv, now), t2, key) == find_by_key(s, t2, key),
        find_by_key(s, t2, key) != -1 ==> upsert_model(s, t1, nv, now)[find_by_key(s, t2, key)]
            == s[find_by_key(s, t2, key)],
{
    let p1 = ident_pred(t1, nv.id);
    let p2 = ident_pred(t2, id);
    let pk = key_pred(t2, key);
    let s1 = upsert_model(s, t1, nv, now);
    let i0 = find_node(s, t1, nv.id);
    crate::order::lemma_first_where_props(p1, s);
    crate::order::lemma_first_where_props(p2, s);
    crate::order::lemma_first_where_props(pk, s);
    if i0 == -1 {
        let x = stored_as(nv, t1, now, now);
        assert(!p2(x));
        assert(!pk(x));
        assert(s1 == s.push(x));
        crate::order::lemma_first_where_push_false(p2, s, x);
        crate::order::lemma_first_where_push_false(pk, s, x);
        assert(forall|k: int| 0 <= k < s.len() ==> #[trigger] s1[k] == s[k]);
    } else {
        let x = stored_as(nv, t1, s[i0].created_at, now);
        assert(p1(s[i0]));
        assert(!p2(s[i0]) && !pk(s[i0]));
        assert(!p2(x) && !pk(x));
        assert(s1 == s.update(i0, x));
        assert(forall|k: int|
            0 <= k < s.len() ==> (p2(#[trigger] s[k]) <==> p2(#[trigger] s1[k])));
        assert(forall|k: int|
            0 <= k < s.len() ==> (pk(#[trigger] s[k]) <==> pk(#[trigger] s1[k])));
        crate::order::lemma_first_where_pointwise(p2, s, s1);
        crate::order::lemma_first_where_pointwise(pk, s, s1);
        let j = find_node(s, t2, id);
        if j != -1 {
            assert(p2(s[j]));
            assert(j != i0);
            assert(s1[j] == s[j]);
        }
        let jk = find_by_key(s, t2, key);
        if jk != -1 {
            assert(pk(s[jk]));
            assert(jk != i0);
            assert(s1[jk] == s[jk]);
        }
    }
}

/// The in-process node repository: every node of every tenant in one
/// collection, with identity uniqueness as its invariant. All operations
/// take an explicit tenant and never see another tenant's rows.
pub struct InMemoryNodeRepository {
    nodes: Vec<KnowledgeNode>,
}

impl View for InMemoryNodeRepository {
    type V = Seq<NodeView>;

    closed spec fn view(&self) -> Seq<NodeView> {
        self.nodes@.map_values(|n: KnowledgeNode| n@)
    }
}

impl InMemoryNodeRepository {
    /// The store is well formed when no identity is stored twice.
    pub open spec fn wf(&self) -> bool {
        distinct_identities(self@)
    }

    /// An empty store.
    pub fn new() -> (r: Self)
        ensures
            r@ =~= Seq::<NodeView>::empty(),
            r.wf(),
    {
        let r = InMemoryNodeRepository { nodes: Vec::new() };
        proof {
            assert(r@ =~= Seq::<NodeView>::empty());
        }
        r
    }

    /// The in-process store is always reachable: its liveness probe never
    /// fails, unlike a remote backend's.
    pub fn health_check(&self) -> (r: Result<(), ()>)
        ensures
            r is Ok,
    {
        Ok(())
    }

    /// The position of the node stored under `(tenant, id)`.
    fn position_of_ident(&self, tenant: u128, id: u128) -> (r: Option<usize>)
        ensures
            match r {
                None => find_node(self@, tenant, id) == -1,
                Some(i) => 0 <= i < self@.len() && find_node(self@, tenant, id) == i as int,
            },
    {
        let count = self.nodes.len();
        let mut i: usize = 0;
        while i < count
            invariant
                count == self.nodes@.len(),
                i <= count,
                forall|k: int| 0 <= k < i ==> !(ident_pred(tenant, id)(#[trigger] self@[k])),
            decreases count - i,
        {
            if self.nodes[i].tenant_id == tenant && self.nodes[i].id == id {
                proof {
                    assert(ident_pred(tenant, id)(self@[i as int]));
                    lemma_first_where_at(ident_pred(tenant, id), self@, i as int);
                }
                return Some(i);
            }
            i = i + 1;
        }
        proof {
            lemma_first_where_none(ident_pred(tenant, id), self@);
        }
        None
    }

    /// The position of the first node of `tenant` keyed by `key`.
    fn position_of_key(&self, tenant: u128, key: &str) -> (r: Option<usize>)
        ensures
            match r {
                None => find_by_key(self@, tenant, key@) == -1,
                Some(i) => 0 <= i < self@.len() && find_by_key(self@, tenant, key@) == i as int,
            },
    {
        let wanted: String = key.to_owned();
        let count = self.nodes.len();
        let mut i: usize = 0;
        while i < count
            invariant
                count == self.nodes@.len(),
                i <= count,
                wanted@ == key@,
                forall|k: int| 0 <= k < i ==> !(key_pred(tenant, key@)(#[trigger] self@[k])),
            decreases count - i,
        {
            if self.nodes[i].tenant_id == tenant {
                let matched = match &self.nodes[i].payload {
                    NodePayload::Capsule(req) => req.key == wanted,
                    NodePayload::Raw(_) => false,
                };
                if matched {
                    proof {
                        assert(key_pred(tenant, key@)(self@[i as int]));
                        lemma_first_where_at(key_pred(tenant, key@), self@, i as int);
                    }
                    return Some(i);
                }
            }
            i = i + 1;
        }
        proof {
            lemma_first_where_none(key_pred(tenant, key@), self@);
        }
        None
    }

    /// Insert `node` under `tenant`, or replace the node with the same
    /// identity. The stored row is owned by `tenant` whatever the node
    /// said; a replaced row keeps its original `created_at` and moves
    /// `updated_at` to `now`; the outcome reports which branch fired.
    pub fn upsert(&mut self, tenant: u128, node: KnowledgeNode, now: i64) -> (outcome:
        UpsertOutcome)
        requires
            old(self).wf(),
        ensures
            final(self).wf(),
            final(self)@ == upsert_model(old(self)@, tenant, node@, now),
            outcome == (if find_node(old(self)@, tenant, node@.id) == -1 {
                UpsertOutcome::Created
            } else {
                UpsertOutcome::Updated
            }),
    {
        let ghost s0 = self@;
        let ghost nv = node@;
        let pos = self.position_of_ident(tenant, node.id);
        let mut node = node;
        match pos {
            Some(i) => {
                node.tenant_id = tenant;
                node.created_at = self.nodes[i].created_at;
                node.updated_at = now;
                self.nodes.set(i, node);
                proof {
                    assert(self@ =~= s0.update(
                        i as int,
                        stored_as(nv, tenant, s0[i as int].created_at, now),
                    ));
                    assert(distinct_identities(self@)) by {
                        crate::order::lemma_first_where_props(ident_pred(tenant, nv.id), s0);
                        assert(ident_pred(tenant, nv.id)(s0[i as int]));
                        assert(self@[i as int].tenant_id == s0[i as int].tenant_id);
                        assert(self@[i as int].id == s0[i as int].id);
                        assert(forall|k: int|
                            0 <= k < self@.len() && k != i ==> #[trigger] self@[k] == s0[k]);
                    }
                }
                UpsertOutcome::Updated
            },
            None => {
                node.tenant_id = tenant;
                node.created_at = now;
                node.updated_at = now;
                self.nodes.push(node);
                proof {
                    assert(self@ =~= s0.push(stored_as(nv, tenant, now, now)));
                    assert(distinct_identities(self@)) by {
                        assert(forall|k: int| 0 <= k < s0.len() ==> #[trigger] self@[k] == s0[k]);
                        crate::order::lemma_first_where_props(ident_pred(tenant, nv.id), s0);
                    }
                }
                UpsertOutcome::Created
            },
        }
    }

    /// Look a node up by identity. Absence is a normal `None`, never an
    /// error, and a node of any other tenant is invisible here.
    pub fn get(&self, tenant: u128, id: u128) -> (r: Option<KnowledgeNode>)
        ensures
            ({
                let i = find_node(self@, tenant, id);
                match r {
                    None => i == -1,
                    Some(n) => i != -1 && n@ == self@[i],
                }
            }),
    {
        match self.position_of_ident(tenant, id) {
            Some(i) => Some(self.nodes[i].clone()),
            None => None,
        }
    }

    /// Look a node up by its capsule key: the first row of `tenant` whose
    /// payload is a capsule stored under `key`. Absence is `None`.
    pub fn get_by_key(&self, tenant: u128, key: &str) -> (r: Option<KnowledgeNode>)
        ensures
            ({
                let i = find_by_key(self@, tenant, key@);
                match r {
                    None => i == -1,
                    Some(n) => i != -1 && n@ == self@[i],
                }
            }),
    {
        match self.position_of_key(tenant, key) {
            Some(i) => Some(self.nodes[i].clone()),
            None => None,
        }
    }

    /// Remove the first node of `tenant` keyed by `key` and hand it back.
    /// Deletion is terminal: the row is gone from every later lookup.
    /// Absence is a normal `None`.
    pub fn delete_by_key(&mut self, tenant: u128, key: &str) -> (r: Option<KnowledgeNode>)
        requires
            old(self).wf(),
        ensures
            final(self).wf(),
            ({
                let i = find_by_key(old(self)@, tenant, key@);
                match r {
                    None => i == -1 && final(self)@ == old(self)@,
                    Some(n) => i != -1 && n@ == old(self)@[i] && final(self)@ == old(self)@.remove(
                        i,
                    ),
                }
            }),
    {
        let ghost s0 = self@;
        match self.position_of_key(tenant, key) {
            Some(i) => {
                let node = self.nodes.remove(i);
                proof {
                    assert(self@ =~= s0.remove(i as int));
                    assert(distinct_identities(self@)) by {
                        assert(forall|k: int|
                            0 <= k < self@.len() ==> #[trigger] self@[k] == (if k < i {
                                s0[k]
                            } else {
                                s0[k + 1]
                            }));
                    }
                }
                Some(node)
            },
            None => None,
        }
    }

    /// One page of the nodes of `tenant` carrying the kind tag `kind`,
    /// ordered by `(created_at, id)` ascending, beginning just past the
    /// cursor row (an identity from a previous page's last element) and
    /// truncated to `limit`. A cursor identity that is not in the listing
    /// restarts from the top, and an unknown kind yields an empty page.
    pub fn query_by_kind(
        &self,
        tenant: u128,
        kind: &str,
        limit: usize,
        cursor: Option<u128>,
    ) -> (r: Vec<KnowledgeNode>)
        ensures
            views_of(r@) == kind_page(self@, tenant, kind@, cursor, limit as int),
    {
        let wanted: String = kind.to_owned();
        let mut matched: Vec<KnowledgeNode> = Vec::new();
        let count = self.nodes.len();
        let mut i: usize = 0;
        proof {
            assert(self@.take(0) =~= Seq::<NodeView>::empty());
            assert(views_of(matched@) =~= restrict_kind(self@.take(0), tenant, kind@));
        }
        while i < count
            invariant
                count == self.nodes@.len(),
                i <= count,
                wanted@ == kind@,
                views_of(matched@) == restrict_kind(self@.take(i as int), tenant, kind@),
            decreases count - i,
        {
            let keep = self.nodes[i].tenant_id == tenant && self.nodes[i].kind == wanted;
            if keep {
                let c = self.nodes[i].clone();
                matched.push(c);
            }
            proof {
                assert(self@.take((i + 1) as int).drop_last() =~= self@.take(i as int));
                assert(self@.take((i + 1) as int).last() == self@[i as int]);
                assert(views_of(matched@) =~= restrict_kind(
                    self@.take((i + 1) as int),
                    tenant,
                    kind@,
                ));
            }
            i = i + 1;
        }
        proof {
            assert(self@.take(count as int) =~= self@);
        }
        let sorted = sort_in_listing_order(matched);
        let ghost full = kind_listing(self@, tenant, kind@);
        let slen = sorted.len();
        let start: usize = match cursor {
            Some(c) => match position_of_id(&sorted, c) {
                Some(p) => p + 1,
                None => 0,
            },
            None => 0,
        };
        proof {
            assert(start as int == page_start(full, cursor));
        }
        let stop: usize = if slen - start < limit {
            slen
        } else {
            start + limit
        };
        let mut page: Vec<KnowledgeNode> = Vec::new();
        let mut t: usize = start;
        proof {
            assert(views_of(page@) =~= full.subrange(start as int, start as int));
        }
        while t < stop
            invariant
                start <= t <= stop <= slen,
                slen == sorted@.len(),
                views_of(sorted@) == full,
                views_of(page@) == full.subrange(start as int, t as int),
            decreases stop - t,
        {
            let c = sorted[t].clone();
            let ghost pv = views_of(page@);
            page.push(c);
            proof {
                assert(c@ == full[t as int]);
                assert(views_of(page@) =~= pv.push(c@));
                assert(full.subrange(start as int, (t + 1) as int) =~= full.subrange(
                    start as int,
                    t as int,
                ).push(full[t as int]));
                assert(views_of(page@) =~= full.subrange(start as int, (t + 1) as int));
            }
            t = t + 1;
        }
        proof {
            let mstop = if start as int + limit < full.len() {
                start as int + limit
            } else {
                full.len() as int
            };
            assert(stop as int == mstop);
            assert(views_of(page@) == kind_page(self@, tenant, kind@, cursor, limit as int));
        }
        page
    }

    /// The nodes of `tenant` carrying a stored vector, ranked descending by
    /// dot-product similarity to the query vector and truncated to `limit`;
    /// equal scores keep their store order, so one process always ranks the
    /// same way. An empty query vector yields an empty result, not an error.
    pub fn search_similar(&self, tenant: u128, vector: &Vec<i32>, limit: usize) -> (r: Vec<
        KnowledgeNode,
    >)
        ensures
            views_of(r@) == similarity_page(self@, tenant, vector@, limit as int),
    {
        if vector.len() == 0 {
            let r: Vec<KnowledgeNode> = Vec::new();
            proof {
                assert(views_of(r@) =~= similarity_page(self@, tenant, vector@, limit as int));
            }
            return r;
        }
        let mut scored: Vec<ScoredNode> = Vec::new();
        let count = self.nodes.len();
        let mut i: usize = 0;
        proof {
            assert(self@.take(0) =~= Seq::<NodeView>::empty());
            assert(scored_views(scored@) =~= scored_of(
                sim_candidates(self@.take(0), tenant),
                vector@,
            ));
        }
        while i < count
            invariant
                count == self.nodes@.len(),
                i <= count,
                scored_views(scored@) == scored_of(
                    sim_candidates(self@.take(i as int), tenant),
                    vector@,
                ),
            decreases count - i,
        {
            if self.nodes[i].tenant_id == tenant {
                match &self.nodes[i].vector {
                    Some(v) => {
                        let score = dot_product(v, vector);
                        proof {
                            assert(self@[i as int].vector == Some(v@));
                            assert(score as int == crate::similarity::score_of(
                                self@[i as int],
                                vector@,
                            ));
                        }
                        let rank = scored.len();
                        let node = self.nodes[i].clone();
                        let ghost sv0 = scored_views(scored@);
                        scored.push(ScoredNode { score, rank, node });
                        proof {
                            assert(scored_views(scored@) =~= sv0.push(ScoredView {
                                score: score as int,
                                rank: rank as int,
                                node: self@[i as int],
                            }));
                        }
                    },
                    None => {},
                }
            }
            proof {
                let pre = self@.take(i as int);
                let cur = self@.take((i + 1) as int);
                assert(cur.drop_last() =~= pre);
                assert(cur.last() == self@[i as int]);
                assert(scored_views(scored@) =~= scored_of(sim_candidates(cur, tenant), vector@));
            }
            i = i + 1;
        }
        proof {
            assert(self@.take(count as int) =~= self@);
        }
        let ranked = sort_by_score(scored);
        let ghost rankedv = similarity_ranking(self@, tenant, vector@);
        let rlen = ranked.len();
        let stop: usize = if limit < rlen {
            limit
        } else {
            rlen
        };
        let mut out: Vec<KnowledgeNode> = Vec::new();
        let mut t: usize = 0;
        proof {
            assert(views_of(out@) =~= rankedv.take(0).map_values(|sv: ScoredView| sv.node));
        }
        while t < stop
            invariant
                t <= stop <= rlen,
                rlen == ranked@.len(),
                scored_views(ranked@) == rankedv,
                views_of(out@) == rankedv.take(t as int).map_values(|sv: ScoredView| sv.node),
            decreases stop - t,
        {
            let c = ranked[t].node.clone();
            proof {
                assert(scored_views(ranked@)[t as int] == rankedv[t as int]);
                assert(c@ == rankedv[t as int].node);
            }
            let ghost ov = views_of(out@);
            out.push(c);
            proof {
                assert(views_of(out@) =~= ov.push(c@));
                assert(rankedv.take((t + 1) as int) =~= rankedv.take(t as int).push(
                    rankedv[t as int],
                ));
                assert(views_of(out@) =~= rankedv.take((t + 1) as int).map_values(
                    |sv: ScoredView| sv.node,
                ));
            }
            t = t + 1;
        }
        proof {
            assert(views_of(out@) == similarity_page(self@, tenant, vector@, limit as int));
        }
        out
    }
}

} // verus!
