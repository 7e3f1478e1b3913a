//! The public comment operations: paged listings under the three retrieval
//! scopes, single-comment fetch, count queries, and validated creation.

use vstd::prelude::*;
use vstd::string::StrSliceExecFns;
use crate::error::AppError;
use crate::mail::MailNotifyTask;
use crate::models::{
    Comment, IpAddress, MARK_AS_SPAM_FRAG_BIT, clone_comment, clone_opt_string, comment_view_eq,
    full_mask_network, is_spam, opt_str_eq, spec_full_mask,
};
use crate::store::{
    CommentStore, MAX_COMMENT_ROWS, Scope, collect_selected, comment_by_id, context_count,
    count_context_exec, count_page_exec, count_replies_exec, find_index_by_id, found_on_page,
    has_id, lemma_id_index_unique, lemma_index_of_id, lemma_listing_props,
    lemma_reply_count_prefix_bounds, lemma_selected_prefix_props, lemma_time_order_total, listing,
    page_count, page_slice, reply_count, selected_seq, selection_marks, sort_indices, store_full,
    time_order,
};
use crate::utils::empty_to_none;

verus! {

// ---------------------------------------------------------------------------
// Validation limits and user-facing messages
// ---------------------------------------------------------------------------

pub const DEFAULT_COMMENTS_PER_PAGE: u32 = 10;

pub const DEFAULT_PAGE_INDEX: u32 = 1;

pub const MAX_COMMENTS_PER_PAGE: u32 = 256;

pub open spec fn invalid_index_msg() -> Seq<char> {
    "invalid page index"@
}

pub open spec fn per_page_limit_msg() -> Seq<char> {
    "Comments per page is limited up to 256."@
}

pub open spec fn scope_conflict_msg() -> Seq<char> {
    "'replyto' and 'contextof' are not allowed to use simultaneously."@
}

pub open spec fn invalid_reply_msg() -> Seq<char> {
    "You replied to an invalid comment."@
}

pub open spec fn name_required_msg() -> Seq<char> {
    "Display name is required."@
}

pub open spec fn content_required_msg() -> Seq<char> {
    "Comment text is required."@
}

pub open spec fn post_failed_msg() -> Seq<char> {
    "Failed to post new comment."@
}

/// The result is a validation error carrying exactly this message.
pub open spec fn is_publishable_err<T>(res: Result<T, AppError>, msg: Seq<char>) -> bool {
    res matches Err(AppError::PublishableErr(s)) && s@ == msg
}

// ---------------------------------------------------------------------------
// Required-text validation
// ---------------------------------------------------------------------------

/// ASCII whitespace; a required field must hold something else.
pub open spec fn is_space(c: char) -> bool {
    c == ' ' || c == '\t' || c == '\n' || c == '\r' || c == '\u{000C}'
}

/// Empty after trimming: nothing but whitespace.
pub open spec fn is_blank(t: Seq<char>) -> bool {
    forall|i: int| 0 <= i < t.len() ==> is_space(#[trigger] t[i])
}

fn str_is_blank(t: &str) -> (r: bool)
    ensures
        r == is_blank(t@),
{
    let n = t.unicode_len();
    let mut i: usize = 0;
    while i < n
        invariant
            n == t@.len(),
            i <= n,
            forall|k: int| 0 <= k < i ==> is_space(#[trigger] t@[k]),
        decreases n - i,
    {
        let c = t.get_char(i);
        if !(c == ' ' || c == '\t' || c == '\n' || c == '\r' || c == '\u{000C}') {
            assert(!is_space(t@[i as int]));
            return false;
        }
        i = i + 1;
    }
    true
}

// ---------------------------------------------------------------------------
// Requests and the public view
// ---------------------------------------------------------------------------

/// What a visitor submits to create a comment.
pub struct NewCommentRequest {
    pub reply_to: Option<u128>,
    pub display_name: String,
    pub site_url: Option<String>,
    pub mail_addr: Option<String>,
    pub content: String,
    pub delete_key: Option<String>,
}

/// The public view of a comment: redacted where flagged, and never carrying
/// the submitter's address, mail address or delete key.
pub struct GetCommentResponse {
    pub id: u128,
    pub page_id: u128,
    pub reply_to: Option<u128>,
    pub display_name: String,
    pub site_url: Option<String>,
    pub content: String,
    pub count_replies: Option<i64>,
    pub created_time: i64,
}

pub open spec fn spam_notice() -> Seq<char> {
    "(This comment is marked as spam.)"@
}

/// The view carries the row's public fields, the given reply count, and the
/// content — or the fixed spam notice in place of content when bit 0 of the
/// flags is set.
pub open spec fn response_matches(r: GetCommentResponse, c: Comment, cnt: Option<i64>) -> bool {
    &&& r.id == c.id
    &&& r.page_id == c.page_id
    &&& r.reply_to == c.reply_to
    &&& r.display_name@ == c.display_name@
    &&& opt_str_eq(r.site_url, c.site_url)
    &&& r.content@ == (if is_spam(c.flags) {
        spam_notice()
    } else {
        c.content@
    })
    &&& r.count_replies == cnt
    &&& r.created_time == c.created_time
}

impl GetCommentResponse {
    /// The one projector from a stored row to its public view.
    pub fn from_comment(c: &Comment, count_replies: Option<i64>) -> (r: GetCommentResponse)
        ensures
            response_matches(r, *c, count_replies),
    {
        let spam = (c.flags & MARK_AS_SPAM_FRAG_BIT) == MARK_AS_SPAM_FRAG_BIT;
        GetCommentResponse {
            id: c.id,
            page_id: c.page_id,
            reply_to: c.reply_to,
            display_name: c.display_name.clone(),
            site_url: clone_opt_string(&c.site_url),
            content: if spam {
                "(This comment is marked as spam.)".to_owned()
            } else {
                c.content.clone()
            },
            count_replies,
            created_time: c.created_time,
        }
    }
}

// ---------------------------------------------------------------------------
// Scope selection
// ---------------------------------------------------------------------------

/// The scope that a pair of optional query parameters names, when they do
/// not conflict.
pub open spec fn scope_of(replyto: Option<u128>, contextof: Option<u128>) -> Scope {
    match (replyto, contextof) {
        (Some(x), None) => Scope::Replies(x),
        (None, Some(x)) => Scope::Context(x),
        _ => Scope::FullPage,
    }
}

/// Chooses the retrieval scope once at the boundary; naming both narrowing
/// parameters at once is a validation error, with one message shared by the
/// listing and the counting path.
pub fn scope_from_params(replyto: Option<u128>, contextof: Option<u128>) -> (r: Result<
    Scope,
    AppError,
>)
    ensures
        match (replyto, contextof) {
            (Some(_), Some(_)) => is_publishable_err(r, scope_conflict_msg()),
            (Some(x), None) => r matches Ok(sc) && sc == Scope::Replies(x),
            (None, Some(x)) => r matches Ok(sc) && sc == Scope::Context(x),
            (None, None) => r matches Ok(sc) && sc == Scope::FullPage,
        },
        r matches Ok(sc) ==> !(replyto is Some && contextof is Some) && sc == scope_of(
            replyto,
            contextof,
        ),
{
    match (replyto, contextof) {
        (Some(_), Some(_)) => Err(
            AppError::PublishableErr(
                "'replyto' and 'contextof' are not allowed to use simultaneously.".to_owned(),
            ),
        ),
        (Some(x), None) => Ok(Scope::Replies(x)),
        (None, Some(x)) => Ok(Scope::Context(x)),
        (None, None) => Ok(Scope::FullPage),
    }
}

// ---------------------------------------------------------------------------
// Single-comment fetch
// ---------------------------------------------------------------------------

/// Fetches one comment scoped to a page, with its direct reply count. A
/// missing row is a distinct non-error outcome, not a failure.
pub fn get_comment(store: &CommentStore, page: u128, comment: u128) -> (res: Option<
    GetCommentResponse,
>)
    requires
        store.wf(),
    ensures
        res is Some <==> found_on_page(store@, page, comment),
        match res {
            Some(r) => response_matches(
                r,
                comment_by_id(store@, comment),
                Some(reply_count(store@, comment) as i64),
            ),
            None => true,
        },
{
    let rows = store.rows();
    match find_index_by_id(rows, comment) {
        None => None,
        Some(j) => {
            proof {
                lemma_id_index_unique(store@, j as int);
            }
            let row = &rows[j];
            if row.page_id != page {
                None
            } else {
                let cnt = count_replies_exec(rows, comment);
                proof {
                    lemma_reply_count_prefix_bounds(store@, comment, store@.len() as int);
                }
                Some(GetCommentResponse::from_comment(row, Some(cnt)))
            }
        },
    }
}

// ---------------------------------------------------------------------------
// Count queries
// ---------------------------------------------------------------------------

/// The cardinality each scope asks for: all comments of the page, the direct
/// children of one comment, or the size of one comment's ancestor closure.
pub open spec fn count_result(s: Seq<Comment>, page: u128, scope: Scope) -> int {
    match scope {
        Scope::FullPage => page_count(s, page),
        Scope::Replies(x) => reply_count(s, x),
        Scope::Context(x) => context_count(s, x),
    }
}

/// What `get_comment_count` returns for every input: the conflict of the two
/// narrowing parameters is the one validation error, and otherwise the count
/// the scope asks for.
pub open spec fn get_comment_count_matches(
    s: Seq<Comment>,
    page: u128,
    replyto: Option<u128>,
    contextof: Option<u128>,
    res: Result<i64, AppError>,
) -> bool {
    if replyto is Some && contextof is Some {
        is_publishable_err(res, scope_conflict_msg())
    } else {
        res matches Ok(n) && n == count_result(s, page, scope_of(replyto, contextof))
    }
}

/// Mirrors the scope rules of the listing but returns only a count.
pub fn get_comment_count(
    store: &CommentStore,
    page: u128,
    replyto: Option<u128>,
    contextof: Option<u128>,
) -> (res: Result<i64, AppError>)
    requires
        store.wf(),
    ensures
        get_comment_count_matches(store@, page, replyto, contextof, res),
{
    let scope = match scope_from_params(replyto, contextof) {
        Ok(sc) => sc,
        Err(e) => {
            return Err(e);
        },
    };
    let rows = store.rows();
    let n = match scope {
        Scope::FullPage => count_page_exec(rows, page),
        Scope::Replies(x) => count_replies_exec(rows, x),
        Scope::Context(x) => count_context_exec(rows, x),
    };
    Ok(n)
}

// ---------------------------------------------------------------------------
// Paged listings
// ---------------------------------------------------------------------------

pub open spec fn effective_per_page(num: Option<u32>) -> u32 {
    match num {
        Some(n) => n,
        None => DEFAULT_COMMENTS_PER_PAGE,
    }
}

pub open spec fn effective_index(index: Option<u32>) -> u32 {
    match index {
        Some(i) => i,
        None => DEFAULT_PAGE_INDEX,
    }
}

/// The listing result: the requested slice of the canonical order, each row
/// projected with its direct reply count — counted across the whole table,
/// not just the returned set.
pub open spec fn listing_response_ok(
    s: Seq<Comment>,
    page: u128,
    scope: Scope,
    per_page: u32,
    index1: u32,
    out: Seq<GetCommentResponse>,
) -> bool {
    let idxs = page_slice(listing(s, page, scope), per_page as int, index1 as int);
    &&& out.len() == idxs.len()
    &&& forall|k: int|
        0 <= k < out.len() ==> response_matches(
            #[trigger] out[k],
            s[idxs[k] as int],
            Some(reply_count(s, s[idxs[k] as int].id) as i64),
        )
}

/// What `get_comments` returns for every input: each validation error with
/// the inputs that cause it, in the order the checks are made, and otherwise
/// the ordered, counted, redacted slice.
pub open spec fn get_comments_matches(
    s: Seq<Comment>,
    page: u128,
    num: Option<u32>,
    index: Option<u32>,
    replyto: Option<u128>,
    contextof: Option<u128>,
    res: Result<Vec<GetCommentResponse>, AppError>,
) -> bool {
    let n = effective_per_page(num);
    let ix = effective_index(index);
    if ix < 1 {
        is_publishable_err(res, invalid_index_msg())
    } else if n < 1 || n > MAX_COMMENTS_PER_PAGE {
        is_publishable_err(res, per_page_limit_msg())
    } else if replyto is Some && contextof is Some {
        is_publishable_err(res, scope_conflict_msg())
    } else {
        res matches Ok(v) && listing_response_ok(
            s,
            page,
            scope_of(replyto, contextof),
            n,
            ix,
            v@,
        )
    }
}

/// Lists comments of a page under an optional scope, ordered by creation
/// time (ties in insertion order) and cut to the requested page.
pub fn get_comments(
    store: &CommentStore,
    page: u128,
    num: Option<u32>,
    index: Option<u32>,
    replyto: Option<u128>,
    contextof: Option<u128>,
) -> (res: Result<Vec<GetCommentResponse>, AppError>)
    requires
        store.wf(),
    ensures
        get_comments_matches(store@, page, num, index, replyto, contextof, res),
        res matches Ok(v) ==> v@.len() <= effective_per_page(num),
{
    let per_page: u32 = match num {
        Some(n) => n,
        None => DEFAULT_COMMENTS_PER_PAGE,
    };
    let page_index: u32 = match index {
        Some(i) => i,
        None => DEFAULT_PAGE_INDEX,
    };

    if page_index < 1 {
        return Err(AppError::PublishableErr("invalid page index".to_owned()));
    }
    let page_index0: u32 = page_index - 1;

    if per_page < 1 || per_page > MAX_COMMENTS_PER_PAGE {
        return Err(
            AppError::PublishableErr("Comments per page is limited up to 256.".to_owned()),
        );
    }

    let scope = match scope_from_params(replyto, contextof) {
        Ok(sc) => sc,
        Err(e) => {
            return Err(e);
        },
    };

    let ghost s = store@;
    let rows = store.rows();
    let marks = selection_marks(rows, page, &scope);
    let mut order = collect_selected(rows, page, &scope, &marks);
    proof {
        lemma_selected_prefix_props(s, page, scope, s.len() as int);
    }
    sort_indices(rows, &mut order);
    proof {
        lemma_time_order_total(s);
        selected_seq(s, page, scope).lemma_sort_by_ensures(time_order(s));
        vstd::seq_lib::lemma_sorted_unique(order@, listing(s, page, scope), time_order(s));
        assert(order@ =~= listing(s, page, scope));
        lemma_listing_props(s, page, scope);
    }

    let total: usize = order.len();
    proof {
        assert((page_index0 as u64) * (per_page as u64) <= 0xFFFF_FFFFu64 * 256u64)
            by (nonlinear_arith)
            requires
                page_index0 as u64 <= 0xFFFF_FFFFu64,
                per_page as u64 <= 256u64,
        ;
    }
    let offset: u64 = (page_index0 as u64) * (per_page as u64);
    let lo: usize = if offset >= total as u64 {
        total
    } else {
        offset as usize
    };
    let hi: usize = if offset + (per_page as u64) >= total as u64 {
        total
    } else {
        (offset + (per_page as u64)) as usize
    };
    let ghost idxs = page_slice(listing(s, page, scope), per_page as int, page_index as int);
    proof {
        assert(idxs =~= order@.subrange(lo as int, hi as int));
    }

    let mut out: Vec<GetCommentResponse> = Vec::new();
    let mut k: usize = lo;
    while k < hi
        invariant
            store.wf(),
            s == store@,
            rows@ == s,
            lo <= k <= hi <= order@.len(),
            order@ == listing(s, page, scope),
            forall|t: int| 0 <= t < order@.len() ==> (#[trigger] order@[t]) < s.len(),
            idxs == order@.subrange(lo as int, hi as int),
            out@.len() == k - lo,
            forall|t: int|
                0 <= t < out@.len() ==> response_matches(
                    #[trigger] out@[t],
                    s[idxs[t] as int],
                    Some(reply_count(s, s[idxs[t] as int].id) as i64),
                ),
        decreases hi - k,
    {
        let idx = order[k];
        let row = &rows[idx];
        let cnt = count_replies_exec(rows, row.id);
        proof {
            lemma_reply_count_prefix_bounds(s, row.id, s.len() as int);
            assert(idxs[(k - lo) as int] == order@[k as int]);
        }
        out.push(GetCommentResponse::from_comment(row, Some(cnt)));
        k = k + 1;
    }
    Ok(out)
}

// ---------------------------------------------------------------------------
// Comment creation
// ---------------------------------------------------------------------------

/// Relies on uuid::Uuid::new_v4 for the generated comment id, taken as its
/// 128-bit value. Nothing is promised of a random draw.
#[verifier::external_body]
fn fresh_comment_id() -> u128 {
    uuid::Uuid::new_v4().as_u128()
}

/// Relies on chrono::Utc::now for the creation timestamp, as microseconds
/// since the Unix epoch. Nothing is promised of a clock reading.
#[verifier::external_body]
fn current_time_micros() -> i64 {
    chrono::Utc::now().timestamp_micros()
}

/// Relies on bcrypt::hash (cost 16) for the one-way hash of a delete key:
/// the salt is drawn from the platform's randomness, whose failure surfaces
/// as `None`. Nothing can be promised of a salted hash.
#[verifier::external_body]
fn hash_delete_key(key: &str) -> Option<String> {
    bcrypt::hash(key, 16).ok()
}

/// An optional field as stored: a given empty string becomes absent, any
/// other text is kept.
pub open spec fn opt_normalized_eq(stored: Option<String>, given: Option<String>) -> bool {
    match given {
        None => stored is None,
        Some(v) => if v@.len() == 0 {
            stored is None
        } else {
            stored matches Some(w) && w@ == v@
        },
    }
}

/// The row a successful creation appends: the submitted fields after
/// normalization, the address under its full-length mask, the stored delete
/// key, no flags, and the given id and time.
pub open spec fn added_comment_matches(
    c: Comment,
    page: u128,
    req: NewCommentRequest,
    ip: IpAddress,
    nid: u128,
    ts: i64,
    dk: Seq<char>,
) -> bool {
    &&& c.id == nid
    &&& c.page_id == page
    &&& c.reply_to == req.reply_to
    &&& c.ip_addr.addr == ip
    &&& c.ip_addr.prefix == spec_full_mask(ip)
    &&& c.display_name@ == req.display_name@
    &&& opt_normalized_eq(c.site_url, req.site_url)
    &&& opt_normalized_eq(c.mail_addr, req.mail_addr)
    &&& c.content@ == req.content@
    &&& c.delete_key@ == dk
    &&& c.flags == 0
    &&& c.created_time == ts
}

/// What creation does for every input, given the id, the timestamp and the
/// stored delete key: each rejection with the inputs that cause it, in the
/// order the checks are made; otherwise the table grows by exactly the new
/// row, the response is its count-less view, and a reply hands off one
/// notification job.
pub open spec fn add_with_matches(
    old_s: Seq<Comment>,
    new_s: Seq<Comment>,
    res: Result<(GetCommentResponse, Option<MailNotifyTask>), AppError>,
    page: u128,
    req: NewCommentRequest,
    ip: IpAddress,
    nid: u128,
    ts: i64,
    dk: Seq<char>,
) -> bool {
    if req.reply_to matches Some(r) && !has_id(old_s, r) {
        new_s == old_s && res matches Err(AppError::UnspecifiedErr)
    } else if req.reply_to matches Some(r) && comment_by_id(old_s, r).page_id != page {
        new_s == old_s && is_publishable_err(res, invalid_reply_msg())
    } else if is_blank(req.display_name@) {
        new_s == old_s && is_publishable_err(res, name_required_msg())
    } else if is_blank(req.content@) {
        new_s == old_s && is_publishable_err(res, content_required_msg())
    } else if has_id(old_s, nid) {
        new_s == old_s && is_publishable_err(res, post_failed_msg())
    } else if store_full(old_s) {
        new_s == old_s && res matches Err(AppError::UnspecifiedErr)
    } else {
        &&& new_s.len() == old_s.len() + 1
        &&& new_s.drop_last() == old_s
        &&& added_comment_matches(new_s.last(), page, req, ip, nid, ts, dk)
        &&& res matches Ok(p) && response_matches(p.0, new_s.last(), None) && (match req.reply_to {
            Some(r) => p.1 matches Some(t) && t.id_replyto == r && comment_view_eq(
                t.comment_new,
                new_s.last(),
            ),
            None => p.1 is None,
        })
    }
}

/// Validates a reply target: it must exist (a vanished target is an internal
/// fault, not the visitor's) and belong to the page being posted to.
fn check_reply_target(store: &CommentStore, page: u128, reply_to: Option<u128>) -> (r: Result<
    (),
    AppError,
>)
    requires
        store.wf(),
    ensures
        match reply_to {
            None => r is Ok,
            Some(rid) => if !has_id(store@, rid) {
                r matches Err(AppError::UnspecifiedErr)
            } else if comment_by_id(store@, rid).page_id != page {
                is_publishable_err(r, invalid_reply_msg())
            } else {
                r is Ok
            },
        },
{
    match reply_to {
        None => Ok(()),
        Some(rid) => {
            let rows = store.rows();
            match find_index_by_id(rows, rid) {
                None => Err(AppError::UnspecifiedErr),
                Some(j) => {
                    proof {
                        lemma_id_index_unique(store@, j as int);
                    }
                    if rows[j].page_id != page {
                        Err(
                            AppError::PublishableErr(
                                "You replied to an invalid comment.".to_owned(),
                            ),
                        )
                    } else {
                        Ok(())
                    }
                },
            }
        },
    }
}

/// Creation from explicit id, timestamp and stored delete key: the whole
/// outcome is a function of the arguments, pinned by `add_with_matches`.
pub fn add_comment_with(
    store: &mut CommentStore,
    page: u128,
    req: NewCommentRequest,
    ip: IpAddress,
    new_id: u128,
    now: i64,
    delete_key_stored: String,
) -> (res: Result<(GetCommentResponse, Option<MailNotifyTask>), AppError>)
    requires
        old(store).wf(),
    ensures
        final(store).wf(),
        add_with_matches(
            old(store)@,
            final(store)@,
            res,
            page,
            req,
            ip,
            new_id,
            now,
            delete_key_stored@,
        ),
{
    let ghost s0 = store@;
    match check_reply_target(store, page, req.reply_to) {
        Err(e) => {
            return Err(e);
        },
        Ok(_) => {},
    }
    if str_is_blank(req.display_name.as_str()) {
        return Err(AppError::PublishableErr("Display name is required.".to_owned()));
    }
    if str_is_blank(req.content.as_str()) {
        return Err(AppError::PublishableErr("Comment text is required.".to_owned()));
    }
    if find_index_by_id(store.rows(), new_id).is_some() {
        return Err(AppError::PublishableErr("Failed to post new comment.".to_owned()));
    }
    let rows_len = store.len();
    if rows_len as u64 >= MAX_COMMENT_ROWS || rows_len >= usize::MAX {
        return Err(AppError::UnspecifiedErr);
    }

    let site_url = empty_to_none(req.site_url);
    let mail_addr = empty_to_none(req.mail_addr);
    let c = Comment {
        id: new_id,
        page_id: page,
        reply_to: req.reply_to,
        ip_addr: full_mask_network(ip),
        display_name: req.display_name,
        site_url,
        mail_addr,
        content: req.content,
        delete_key: delete_key_stored,
        flags: 0,
        created_time: now,
    };
    let ghost gc = c;
    let resp = GetCommentResponse::from_comment(&c, None);
    let task = match req.reply_to {
        Some(r) => Some(MailNotifyTask { id_replyto: r, comment_new: clone_comment(&c) }),
        None => None,
    };
    store.push_row(c);
    proof {
        let s1 = store@;
        assert(s1 == s0.push(gc));
        assert(s1.drop_last() =~= s0);
        assert(s1.last() == gc);
        assert forall|i: int, j: int| 0 <= i < j < s1.len() implies (#[trigger] s1[i].id)
            != (#[trigger] s1[j].id) by {
            if j == s1.len() - 1 {
                if s0[i].id == new_id {
                    assert(has_id(s0, new_id));
                }
            }
        }
        assert forall|i: int| 0 <= i < s1.len() implies #[trigger] crate::store::reply_linked_at(
            s1,
            i,
        ) by {
            if i < s0.len() {
                assert(crate::store::reply_linked_at(s0, i));
                match s0[i].reply_to {
                    Some(r) => {
                        let j = choose|j: int|
                            0 <= j < i && (#[trigger] s0[j].id) == r && s0[j].page_id
                                == s0[i].page_id;
                        assert(s1[j].id == r && s1[j].page_id == s1[i].page_id);
                    },
                    None => {},
                }
            } else {
                match gc.reply_to {
                    Some(r) => {
                        lemma_index_of_id(s0, r);
                        let j = crate::store::index_of_id(s0, r);
                        assert(s1[j].id == r && s1[j].page_id == gc.page_id);
                    },
                    None => {},
                }
            }
        }
    }
    Ok((resp, task))
}

/// Creates a comment: the id is drawn fresh, the creation time is read from
/// the clock, and a supplied delete key is one-way hashed (an absent one is
/// stored as the `-` sentinel). Everything else is a function of the
/// arguments, stated by `add_with_matches` over the drawn values.
pub fn add_comment(
    store: &mut CommentStore,
    page: u128,
    req: NewCommentRequest,
    ip: IpAddress,
) -> (res: Result<(GetCommentResponse, Option<MailNotifyTask>), AppError>)
    requires
        old(store).wf(),
    ensures
        final(store).wf(),
        res is Ok ==> final(store)@.len() == old(store)@.len() + 1,
        res is Err ==> final(store)@ == old(store)@,
        ({
            ||| exists|nid: u128, ts: i64, dk: Seq<char>|
                #[trigger] add_with_matches(
                    old(store)@,
                    final(store)@,
                    res,
                    page,
                    req,
                    ip,
                    nid,
                    ts,
                    dk,
                ) && (req.delete_key is None ==> dk == "-"@)
            ||| (req.delete_key is Some && final(store)@ == old(store)@ && res matches Err(
                AppError::UnspecifiedErr,
            ))
        }),
        (req.reply_to matches Some(r) && !has_id(old(store)@, r)) ==> final(store)@ == old(store)@
            && res matches Err(AppError::UnspecifiedErr),
        (req.reply_to matches Some(r) && has_id(old(store)@, r) && comment_by_id(
            old(store)@,
            r,
        ).page_id != page) ==> final(store)@ == old(store)@ && is_publishable_err(
            res,
            invalid_reply_msg(),
        ),
{
    let ghost s0 = store@;
    match check_reply_target(store, page, req.reply_to) {
        Err(e) => {
            let res: Result<(GetCommentResponse, Option<MailNotifyTask>), AppError> = Err(e);
            proof {
                assert(add_with_matches(s0, s0, res, page, req, ip, 0u128, 0i64, "-"@));
            }
            return res;
        },
        Ok(_) => {},
    }
    let delete_key_stored: String = match &req.delete_key {
        None => "-".to_owned(),
        Some(k) => match hash_delete_key(k.as_str()) {
            Some(h) => h,
            None => {
                return Err(AppError::UnspecifiedErr);
            },
        },
    };
    let nid = fresh_comment_id();
    let ts = current_time_micros();
    let res = add_comment_with(store, page, req, ip, nid, ts, delete_key_stored);
    proof {
        assert(add_with_matches(s0, store@, res, page, req, ip, nid, ts, delete_key_stored@));
    }
    res
}

} // verus!
