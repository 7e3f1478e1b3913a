//! Laws of the comment core that relate several operations or hold of every
//! input: pagination slices bound, partition and exhaust the canonical
//! listing; listing and counting reject conflicting scopes with one message;
//! a context unfolds to the target and its ancestors; and a created comment
//! reads back as it was submitted.

use vstd::prelude::*;
use vstd::math::min;
use crate::error::AppError;
use crate::mail::MailNotifyTask;
use crate::models::{Comment, IpAddress, is_spam};
use crate::store::{
    Scope, comment_by_id, context_indices, found_on_page, has_id, in_context, index_of_id,
    lemma_context_step, lemma_id_index_unique, lemma_index_of_id, lemma_listing_props, listing,
    page_slice, store_wf,
};
use crate::comment::{
    GetCommentResponse, NewCommentRequest, add_with_matches, added_comment_matches,
    effective_index, effective_per_page, get_comment_count_matches, get_comments_matches,
    is_publishable_err, scope_conflict_msg,
};

verus! {

// ---------------------------------------------------------------------------
// Pagination
// ---------------------------------------------------------------------------

/// No page returns more rows than were asked for.
pub proof fn lemma_page_slice_len<T>(l: Seq<T>, per_page: int, index1: int)
    requires
        per_page >= 1,
        index1 >= 1,
    ensures
        page_slice(l, per_page, index1).len() <= per_page,
{
}

/// Two distinct page indices return disjoint sets of rows of the listing.
pub proof fn lemma_pages_disjoint(
    s: Seq<Comment>,
    page: u128,
    scope: Scope,
    per_page: int,
    i1: int,
    i2: int,
)
    requires
        store_wf(s),
        per_page >= 1,
        i1 >= 1,
        i2 >= 1,
        i1 != i2,
    ensures
        forall|x: usize|
            !(#[trigger] page_slice(listing(s, page, scope), per_page, i1).contains(x)
                && page_slice(listing(s, page, scope), per_page, i2).contains(x)),
{
    let l = listing(s, page, scope);
    lemma_listing_props(s, page, scope);
    let a = if i1 < i2 {
        i1
    } else {
        i2
    };
    let b = if i1 < i2 {
        i2
    } else {
        i1
    };
    assert(a * per_page <= (b - 1) * per_page) by (nonlinear_arith)
        requires
            per_page >= 1,
            1 <= a,
            a <= b - 1,
    ;
    assert forall|x: usize|
        !(#[trigger] page_slice(l, per_page, i1).contains(x) && page_slice(
            l,
            per_page,
            i2,
        ).contains(x)) by {
        let sa = page_slice(l, per_page, a);
        let sb = page_slice(l, per_page, b);
        if sa.contains(x) && sb.contains(x) {
            let ta = choose|t: int| 0 <= t < sa.len() && sa[t] == x;
            let tb = choose|t: int| 0 <= t < sb.len() && sb[t] == x;
            let offa = (a - 1) * per_page;
            let offb = (b - 1) * per_page;
            assert(offa + per_page == a * per_page) by (nonlinear_arith)
                requires
                    offa == (a - 1) * per_page,
            ;
            assert(l[offa + ta] == x);
            assert(l[offb + tb] == x);
            assert(offa + ta < offa + per_page <= offb <= offb + tb);
        }
    }
}

/// The pages of a listing, concatenated in order up to index `k`.
pub open spec fn pages_concat<T>(l: Seq<T>, per_page: int, k: int) -> Seq<T>
    decreases k,
{
    if k <= 0 {
        Seq::empty()
    } else {
        pages_concat(l, per_page, k - 1) + page_slice(l, per_page, k)
    }
}

/// Successive pages, concatenated, are exactly the front of the listing —
/// and so exhaust it once `k * per_page` reaches its length.
pub proof fn lemma_pages_exhaust<T>(l: Seq<T>, per_page: int, k: int)
    requires
        per_page >= 1,
        k >= 0,
    ensures
        pages_concat(l, per_page, k) == l.take(min(k * per_page, l.len() as int)),
    decreases k,
{
    if k == 0 {
        assert(pages_concat(l, per_page, 0) =~= l.take(0));
    } else {
        lemma_pages_exhaust(l, per_page, k - 1);
        assert(k * per_page == (k - 1) * per_page + per_page) by (nonlinear_arith);
        assert((k - 1) * per_page >= 0) by (nonlinear_arith)
            requires
                per_page >= 1,
                k >= 1,
        ;
        let off = (k - 1) * per_page;
        if off >= l.len() {
            assert(pages_concat(l, per_page, k) =~= l.take(
                min(k * per_page, l.len() as int),
            ));
        } else {
            assert(pages_concat(l, per_page, k) =~= l.take(
                min(k * per_page, l.len() as int),
            ));
        }
    }
}

/// Once every row is covered, the concatenation of the pages is the listing
/// itself.
pub proof fn lemma_pages_exhaust_all<T>(l: Seq<T>, per_page: int, k: int)
    requires
        per_page >= 1,
        k >= 0,
        k * per_page >= l.len(),
    ensures
        pages_concat(l, per_page, k) == l,
{
    lemma_pages_exhaust(l, per_page, k);
    assert(l.take(l.len() as int) =~= l);
}

// ---------------------------------------------------------------------------
// Scope conflict
// ---------------------------------------------------------------------------

/// Supplying both narrowing parameters is rejected by the listing and by the
/// counting operation with the identical message text.
pub proof fn lemma_scope_conflict_same_message(
    s: Seq<Comment>,
    page: u128,
    num: Option<u32>,
    index: Option<u32>,
    replyto: Option<u128>,
    contextof: Option<u128>,
    res_list: Result<Vec<GetCommentResponse>, AppError>,
    res_count: Result<i64, AppError>,
)
    requires
        replyto is Some,
        contextof is Some,
        effective_index(index) >= 1,
        1 <= effective_per_page(num) <= 256,
        get_comments_matches(s, page, num, index, replyto, contextof, res_list),
        get_comment_count_matches(s, page, replyto, contextof, res_count),
    ensures
        is_publishable_err(res_list, scope_conflict_msg()),
        is_publishable_err(res_count, scope_conflict_msg()),
        forall|e1: AppError, e2: AppError|
            res_list == Err::<Vec<GetCommentResponse>, AppError>(e1) && res_count == Err::<
                i64,
                AppError,
            >(e2) ==> e1.spec_public_message() == e2.spec_public_message(),
{
}

// ---------------------------------------------------------------------------
// Context closure
// ---------------------------------------------------------------------------

/// A context is its target plus the target's ancestors: it unfolds to the
/// target and, when the target is itself a reply, the context of the
/// target's parent; for a thread root it is the target alone.
pub proof fn lemma_context_unfold(s: Seq<Comment>, target: u128)
    requires
        store_wf(s),
        has_id(s, target),
    ensures
        ({
            let i = index_of_id(s, target);
            match s[i].reply_to {
                None => forall|k: int| in_context(s, target, k) <==> k == i,
                Some(r) => forall|k: int|
                    in_context(s, target, k) <==> (k == i || in_context(s, r, k)),
            }
        }),
{
    let i = index_of_id(s, target);
    lemma_index_of_id(s, target);
    lemma_context_step(s, i);
    match s[i].reply_to {
        None => {
            assert forall|k: int| in_context(s, target, k) <==> k == i by {
                assert(context_indices(s, i).contains(k) <==> set![i].contains(k));
            }
        },
        Some(r) => {
            let p = index_of_id(s, r);
            assert forall|k: int|
                in_context(s, target, k) <==> (k == i || in_context(s, r, k)) by {
                assert(context_indices(s, i).contains(k) <==> (k == i || context_indices(
                    s,
                    p,
                ).contains(k)));
            }
        },
    }
}

/// The context of a thread root is exactly the root itself.
pub proof fn lemma_context_of_root(s: Seq<Comment>, target: u128)
    requires
        store_wf(s),
        has_id(s, target),
        comment_by_id(s, target).reply_to is None,
    ensures
        forall|k: int| in_context(s, target, k) <==> (0 <= k < s.len() && s[k].id == target),
{
    lemma_context_unfold(s, target);
    let i = index_of_id(s, target);
    lemma_index_of_id(s, target);
    assert forall|k: int|
        in_context(s, target, k) <==> (0 <= k < s.len() && s[k].id == target) by {
        if 0 <= k < s.len() && s[k].id == target {
            lemma_id_index_unique(s, k);
        }
    }
}

// ---------------------------------------------------------------------------
// Creation round trip
// ---------------------------------------------------------------------------

/// After a successful creation, fetching the returned id on the same page
/// finds exactly the new row: the submitted fields after normalization,
/// unflagged, under the given id, address and time.
pub proof fn lemma_create_then_get(
    old_s: Seq<Comment>,
    new_s: Seq<Comment>,
    res: Result<(GetCommentResponse, Option<MailNotifyTask>), AppError>,
    page: u128,
    req: NewCommentRequest,
    ip: IpAddress,
    nid: u128,
    ts: i64,
    dk: Seq<char>,
)
    requires
        store_wf(old_s),
        store_wf(new_s),
        add_with_matches(old_s, new_s, res, page, req, ip, nid, ts, dk),
        res is Ok,
    ensures
        found_on_page(new_s, page, nid),
        comment_by_id(new_s, nid) == new_s.last(),
        added_comment_matches(new_s.last(), page, req, ip, nid, ts, dk),
        !is_spam(comment_by_id(new_s, nid).flags),
        res matches Ok(p) ==> p.0.id == nid && p.0.content@ == req.content@ && p.0.display_name@
            == req.display_name@,
{
    lemma_id_index_unique(new_s, new_s.len() - 1);
    assert((0i32 & 1i32) != 1i32) by (bit_vector);
}

} // verus!
