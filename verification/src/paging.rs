//! Keyset pagination over kind queries: the canonical listing order
//! `(created_at, id)` ascending, cursor resumption, and the laws that make
//! paging correct — pages after a cursor resume exactly where the previous
//! page ended, and consecutive pages concatenate to the full listing with
//! no duplicates and no gaps.

use vstd::prelude::*;

use crate::node::NodeView;
use crate::order::{
    first_where, insert_by, lemma_first_where_at, lemma_insert_by_splice, sort_by_rel,
};
use crate::store::distinct_identities;

verus! {

/// The listing order of a kind query: by creation instant, identity as the
/// tie-break.
pub open spec fn kind_le(a: NodeView, b: NodeView) -> bool {
    a.created_at < b.created_at || (a.created_at == b.created_at && a.id <= b.id)
}

/// The listing order as a relation value, for the sort machinery.
pub open spec fn kind_le_rel() -> spec_fn(NodeView, NodeView) -> bool {
    |a: NodeView, b: NodeView| kind_le(a, b)
}

/// The listing order relates every pair and is transitive.
pub proof fn lemma_kind_le_total()
    ensures
        crate::order::total_preorder(kind_le_rel()),
{
    assert forall|a: NodeView, b: NodeView| #[trigger]
        kind_le_rel()(a, b) || #[trigger] kind_le_rel()(b, a) by {
        if !kind_le(a, b) {
            assert(kind_le(b, a));
        }
    }
}

/// Kind listings are in listing order: along the full listing, every row
/// was created no later than the next, with identity as the tie-break.
pub proof fn lemma_kind_listing_ordered(s: Seq<NodeView>, tenant: u128, kind: Seq<char>)
    ensures
        crate::order::ordered_by(kind_le_rel(), kind_listing(s, tenant, kind)),
{
    lemma_kind_le_total();
    crate::order::lemma_sort_by_rel_ordered(kind_le_rel(), restrict_kind(s, tenant, kind));
}

/// The rows a kind query ranges over: the nodes of `tenant` whose kind tag
/// is `kind`, in store order.
pub open spec fn restrict_kind(s: Seq<NodeView>, tenant: u128, kind: Seq<char>) -> Seq<NodeView>
    decreases s.len(),
{
    if s.len() == 0 {
        Seq::empty()
    } else {
        let rest = restrict_kind(s.drop_last(), tenant, kind);
        if s.last().tenant_id == tenant && s.last().kind == kind {
            rest.push(s.last())
        } else {
            rest
        }
    }
}

/// The full listing of a kind query: the restricted rows in listing order.
pub open spec fn kind_listing(s: Seq<NodeView>, tenant: u128, kind: Seq<char>) -> Seq<NodeView> {
    sort_by_rel(kind_le_rel(), restrict_kind(s, tenant, kind))
}

/// Matches the node with identity `id`.
pub open spec fn id_pred(id: u128) -> spec_fn(NodeView) -> bool {
    |n: NodeView| n.id == id
}

/// Where a page begins: just past the cursor row, or at the top when there
/// is no cursor or the cursor identity is not in the listing.
pub open spec fn page_start(full: Seq<NodeView>, cursor: Option<u128>) -> int {
    match cursor {
        None => 0,
        Some(c) => {
            let i = first_where(id_pred(c), full);
            if i == -1 {
                0
            } else {
                i + 1
            }
        },
    }
}

/// One page of a kind query: up to `limit` rows of the full listing,
/// starting just past the cursor row.
pub open spec fn kind_page(
    s: Seq<NodeView>,
    tenant: u128,
    kind: Seq<char>,
    cursor: Option<u128>,
    limit: int,
) -> Seq<NodeView> {
    let full = kind_listing(s, tenant, kind);
    let start = page_start(full, cursor);
    let stop = if start + limit < full.len() {
        start + limit
    } else {
        full.len() as int
    };
    full.subrange(start, stop)
}

/// Some row of `s` has identity `id`.
pub open spec fn has_id(s: Seq<NodeView>, id: u128) -> bool {
    exists|k: int| 0 <= k < s.len() && #[trigger] s[k].id == id
}

/// No two rows of `s` share an identity.
pub open spec fn distinct_ids(s: Seq<NodeView>) -> bool {
    forall|i: int, j: int| #![trigger s[i].id, s[j].id] 0 <= i < j < s.len() ==> s[i].id != s[j].id
}

/// Restricting to one tenant's kind keeps identities distinct: within a
/// tenant, the store never holds an identity twice.
pub proof fn lemma_restrict_kind_ids(s: Seq<NodeView>, tenant: u128, kind: Seq<char>)
    ensures
        forall|id: u128| #[trigger]
            has_id(restrict_kind(s, tenant, kind), id) ==> exists|p: int|
                0 <= p < s.len() && (#[trigger] s[p]).tenant_id == tenant && s[p].id == id,
        distinct_identities(s) ==> distinct_ids(restrict_kind(s, tenant, kind)),
    decreases s.len(),
{
    if s.len() == 0 {
    } else {
        let rest = restrict_kind(s.drop_last(), tenant, kind);
        lemma_restrict_kind_ids(s.drop_last(), tenant, kind);
        assert(forall|p: int|
            0 <= p < s.drop_last().len() ==> #[trigger] s.drop_last()[p] == s[p]);
        if s.last().tenant_id == tenant && s.last().kind == kind {
            let r = rest.push(s.last());
            assert forall|id: u128| #[trigger] has_id(r, id) implies exists|p: int|
                0 <= p < s.len() && (#[trigger] s[p]).tenant_id == tenant && s[p].id == id by {
                let k = choose|k: int| 0 <= k < r.len() && r[k].id == id;
                if k < rest.len() {
                    assert(has_id(rest, id));
                } else {
                    assert(s[s.len() - 1].tenant_id == tenant && s[s.len() - 1].id == id);
                }
            }
            if distinct_identities(s) {
                assert(distinct_identities(s.drop_last()));
                assert(!has_id(rest, s.last().id)) by {
                    if has_id(rest, s.last().id) {
                        let p = choose|p: int|
                            0 <= p < s.drop_last().len() && (#[trigger] s.drop_last()[p]).tenant_id
                                == tenant && s.drop_last()[p].id == s.last().id;
                        assert(s[p].tenant_id == s[s.len() - 1].tenant_id && s[p].id == s[s.len()
                            - 1].id);
                    }
                }
                assert forall|i: int, j: int|
                    0 <= i < j < r.len() implies #[trigger] r[i].id != #[trigger] r[j].id by {
                    if j < rest.len() {
                    } else {
                        assert(r[j] == s.last());
                        assert(r[i] == rest[i]);
                        assert(rest[i].id == s.last().id ==> has_id(rest, s.last().id));
                    }
                }
            }
        } else {
            if distinct_identities(s) {
                assert(distinct_identities(s.drop_last()));
            }
        }
    }
}

/// Splicing one row into a sequence adds its identity and keeps the rest.
proof fn lemma_insert_by_ids(
    le: spec_fn(NodeView, NodeView) -> bool,
    x: NodeView,
    s: Seq<NodeView>,
)
    ensures
        forall|id: u128| #[trigger]
            has_id(insert_by(le, x, s), id) <==> has_id(s, id) || x.id == id,
        distinct_ids(s) && !has_id(s, x.id) ==> distinct_ids(insert_by(le, x, s)),
        insert_by(le, x, s).len() == s.len() + 1,
{
    lemma_insert_by_splice(le, x, s);
    let k = choose|k: int|
        0 <= k <= s.len() && insert_by(le, x, s) =~= #[trigger] s.take(k) + seq![x] + s.skip(k);
    let r = insert_by(le, x, s);
    assert(r.len() == s.len() + 1);
    assert(forall|i: int| 0 <= i < k ==> #[trigger] r[i] == s[i]);
    assert(r[k] == x);
    assert(forall|i: int| k < i < r.len() ==> #[trigger] r[i] == s[i - 1]);
    assert forall|id: u128| #[trigger] has_id(r, id) implies has_id(s, id) || x.id == id by {
        let i = choose|i: int| 0 <= i < r.len() && r[i].id == id;
        if i < k {
            assert(s[i].id == id);
        } else if i > k {
            assert(s[i - 1].id == id);
        }
    }
    assert forall|id: u128| has_id(s, id) || x.id == id implies #[trigger] has_id(r, id) by {
        if has_id(s, id) {
            let i = choose|i: int| 0 <= i < s.len() && s[i].id == id;
            if i < k {
                assert(r[i].id == id);
            } else {
                assert(r[i + 1].id == id);
            }
        } else {
            assert(r[k].id == id);
        }
    }
    if distinct_ids(s) && !has_id(s, x.id) {
        assert forall|i: int, j: int| 0 <= i < j < r.len() implies r[i].id != r[j].id by {
            if i < k && j < k {
            } else if i < k && j == k {
                assert(s[i].id == x.id ==> has_id(s, x.id));
            } else if i < k && j > k {
            } else if i == k {
                assert(s[j - 1].id == x.id ==> has_id(s, x.id));
            } else {
            }
        }
    }
}

/// Sorting a listing permutes it: the identities present, and their
/// distinctness, are unchanged.
pub proof fn lemma_sort_ids(le: spec_fn(NodeView, NodeView) -> bool, s: Seq<NodeView>)
    ensures
        forall|id: u128| #[trigger] has_id(sort_by_rel(le, s), id) <==> has_id(s, id),
        distinct_ids(s) ==> distinct_ids(sort_by_rel(le, s)),
        sort_by_rel(le, s).len() == s.len(),
    decreases s.len(),
{
    if s.len() == 0 {
    } else {
        let t = s.drop_first();
        lemma_sort_ids(le, t);
        lemma_insert_by_ids(le, s[0], sort_by_rel(le, t));
        assert(forall|i: int| 0 <= i < t.len() ==> #[trigger] t[i] == s[i + 1]);
        assert forall|id: u128| has_id(s, id) implies #[trigger]
            has_id(sort_by_rel(le, s), id) by {
            let i = choose|i: int| 0 <= i < s.len() && s[i].id == id;
            if i > 0 {
                assert(t[i - 1].id == id);
                assert(has_id(t, id));
            }
        }
        assert forall|id: u128| #[trigger] has_id(sort_by_rel(le, s), id) implies has_id(
            s,
            id,
        ) by {
            if has_id(t, id) {
                let i = choose|i: int| 0 <= i < t.len() && t[i].id == id;
                assert(s[i + 1].id == id);
            } else {
                assert(s[0].id == id);
            }
        }
        if distinct_ids(s) {
            assert(distinct_ids(t));
            assert(!has_id(t, s[0].id)) by {
                if has_id(t, s[0].id) {
                    let i = choose|i: int| 0 <= i < t.len() && t[i].id == s[0].id;
                    assert(s[i + 1].id == s[0].id);
                }
            }
            assert(!has_id(sort_by_rel(le, t), s[0].id));
        }
    }
}

/// The full listing of a well-formed store has no repeated identity.
pub proof fn lemma_kind_listing_distinct(s: Seq<NodeView>, tenant: u128, kind: Seq<char>)
    requires
        distinct_identities(s),
    ensures
        distinct_ids(kind_listing(s, tenant, kind)),
{
    lemma_restrict_kind_ids(s, tenant, kind);
    lemma_sort_ids(kind_le_rel(), restrict_kind(s, tenant, kind));
}

/// Keyset cursor resumption: when the listing has no repeated identity,
/// a page whose cursor is the identity of row `j` begins exactly at row
/// `j + 1` — the next page resumes where the previous one ended, whatever
/// rows were inserted before the cursor in the meantime.
pub proof fn lemma_page_start_after(full: Seq<NodeView>, j: int)
    requires
        distinct_ids(full),
        0 <= j < full.len(),
    ensures
        page_start(full, Some(full[j].id)) == j + 1,
{
    assert(id_pred(full[j].id)(full[j]));
    assert forall|k: int| 0 <= k < j implies !(id_pred(full[j].id)(#[trigger] full[k])) by {
        assert(full[k].id != full[j].id);
    }
    lemma_first_where_at(id_pred(full[j].id), full, j);
}

/// Keyset pagination correctness, page by page: in a well-formed store,
/// querying with the identity of the listing's row `j` as cursor yields
/// exactly rows `j + 1` through `j + k` of the listing (fewer at the end).
/// Together with the covering law below, paging with any size `k >= 1` and
/// passing each page's last identity as the next cursor walks the whole
/// listing with no duplicates and no gaps.
pub proof fn lemma_keyset_page_resumes(
    s: Seq<NodeView>,
    tenant: u128,
    kind: Seq<char>,
    k: int,
    j: int,
)
    requires
        distinct_identities(s),
        0 <= j < kind_listing(s, tenant, kind).len(),
        0 <= k,
    ensures
        ({
            let full = kind_listing(s, tenant, kind);
            let stop = if j + 1 + k < full.len() {
                j + 1 + k
            } else {
                full.len() as int
            };
            kind_page(s, tenant, kind, Some(full[j].id), k) == full.subrange(j + 1, stop)
        }),
{
    let full = kind_listing(s, tenant, kind);
    lemma_kind_listing_distinct(s, tenant, kind);
    lemma_page_start_after(full, j);
}

/// The concatenation of consecutive pages of size `k`, starting at `start`.
pub open spec fn pages_concat(full: Seq<NodeView>, k: int, start: int) -> Seq<NodeView>
    decreases full.len() - start,
    when 0 <= start <= full.len() && k >= 1
{
    if start >= full.len() {
        Seq::empty()
    } else {
        let stop = if start + k < full.len() {
            start + k
        } else {
            full.len() as int
        };
        full.subrange(start, stop) + pages_concat(full, k, stop)
    }
}

proof fn lemma_pages_concat_from(full: Seq<NodeView>, k: int, start: int)
    requires
        k >= 1,
        0 <= start <= full.len(),
    ensures
        pages_concat(full, k, start) =~= full.skip(start),
    decreases full.len() - start,
{
    if start >= full.len() {
        assert(pages_concat(full, k, start) =~= full.skip(start));
    } else {
        let stop = if start + k < full.len() {
            start + k
        } else {
            full.len() as int
        };
        lemma_pages_concat_from(full, k, stop);
        assert(pages_concat(full, k, start) =~= full.subrange(start, stop) + full.skip(stop));
        assert(full.subrange(start, stop) + full.skip(stop) =~= full.skip(start));
    }
}

/// Keyset pagination covers the listing: paging through with any page size
/// `k >= 1` and concatenating the pages yields exactly the full listing —
/// the same sequence one unbounded page would return, with no duplicates
/// and no gaps.
pub proof fn lemma_pages_concat_all(full: Seq<NodeView>, k: int)
    requires
        k >= 1,
    ensures
        pages_concat(full, k, 0) == full,
{
    lemma_pages_concat_from(full, k, 0);
    assert(full.skip(0) =~= full);
}

} // verus!
