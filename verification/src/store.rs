//! The comment table: a flat sequence of rows whose `reply_to` pointers form
//! a forest, together with the specification of every query the service
//! answers over it — selection by scope, time ordering, pagination slices,
//! and reply / page / ancestor-closure counts.

use vstd::prelude::*;
use vstd::relations::{sorted_by, total_ordering};
use vstd::math::min;
use vstd::pervasive::VecAdditionalExecFns;
use crate::models::Comment;

verus! {

broadcast use vstd::seq_lib::group_to_multiset_ensures, vstd::multiset::group_multiset_axioms;

/// Counts are reported as signed 64-bit numbers, so the store never grows
/// past that many rows.
pub const MAX_COMMENT_ROWS: u64 = 0x7fff_ffff_ffff_ffff;

// ---------------------------------------------------------------------------
// Well-formedness
// ---------------------------------------------------------------------------

/// All ids are distinct.
pub open spec fn unique_ids(s: Seq<Comment>) -> bool {
    forall|i: int, j: int|
        0 <= i < j < s.len() ==> (#[trigger] s[i].id) != (#[trigger] s[j].id)
}

/// The reply pointer of row `i`, when present, names a strictly earlier row
/// of the same page.
pub open spec fn reply_linked_at(s: Seq<Comment>, i: int) -> bool {
    match s[i].reply_to {
        Some(r) => exists|j: int|
            0 <= j < i && (#[trigger] s[j].id) == r && s[j].page_id == s[i].page_id,
        None => true,
    }
}

pub open spec fn replies_linked(s: Seq<Comment>) -> bool {
    forall|i: int| 0 <= i < s.len() ==> #[trigger] reply_linked_at(s, i)
}

/// Every table the public operations accept satisfies this: ids are unique,
/// replies point backwards within one page, and the row count fits the
/// machine and the reported count type.
pub open spec fn store_wf(s: Seq<Comment>) -> bool {
    &&& unique_ids(s)
    &&& replies_linked(s)
    &&& s.len() <= MAX_COMMENT_ROWS
    &&& s.len() <= usize::MAX
}

/// No further row fits: one more would overrun the count type or the
/// machine's index range.
pub open spec fn store_full(s: Seq<Comment>) -> bool {
    s.len() >= MAX_COMMENT_ROWS || s.len() >= usize::MAX
}

// ---------------------------------------------------------------------------
// Lookup by id
// ---------------------------------------------------------------------------

pub open spec fn has_id(s: Seq<Comment>, cid: u128) -> bool {
    exists|j: int| 0 <= j < s.len() && (#[trigger] s[j].id) == cid
}

pub open spec fn index_of_id(s: Seq<Comment>, cid: u128) -> int {
    choose|j: int| 0 <= j < s.len() && (#[trigger] s[j].id) == cid
}

pub open spec fn comment_by_id(s: Seq<Comment>, cid: u128) -> Comment {
    s[index_of_id(s, cid)]
}

/// A single-comment fetch matches on both the id and the owning page.
pub open spec fn found_on_page(s: Seq<Comment>, page: u128, cid: u128) -> bool {
    has_id(s, cid) && comment_by_id(s, cid).page_id == page
}

pub proof fn lemma_index_of_id(s: Seq<Comment>, cid: u128)
    requires
        has_id(s, cid),
    ensures
        0 <= index_of_id(s, cid) < s.len(),
        s[index_of_id(s, cid)].id == cid,
{
}

/// Under unique ids, the index found for a row's id is that row's index.
pub proof fn lemma_id_index_unique(s: Seq<Comment>, i: int)
    requires
        unique_ids(s),
        0 <= i < s.len(),
    ensures
        has_id(s, s[i].id),
        index_of_id(s, s[i].id) == i,
{
    assert(has_id(s, s[i].id));
    lemma_index_of_id(s, s[i].id);
}

// ---------------------------------------------------------------------------
// Ancestor closure ("context")
// ---------------------------------------------------------------------------

/// The indices of row `i` and of every ancestor reached by following
/// `reply_to` upward to the thread root. Under `store_wf` the parent of a
/// row always sits at a strictly smaller index, so the walk terminates.
pub open spec fn context_indices(s: Seq<Comment>, i: int) -> Set<int>
    decreases i,
{
    match s[i].reply_to {
        Some(r) => {
            let j = index_of_id(s, r);
            if 0 <= j < i {
                context_indices(s, j).insert(i)
            } else {
                set![i]
            }
        },
        None => set![i],
    }
}

pub proof fn lemma_context_indices_bounds(s: Seq<Comment>, i: int)
    requires
        0 <= i,
    ensures
        context_indices(s, i).contains(i),
        forall|k: int| #[trigger] context_indices(s, i).contains(k) ==> 0 <= k <= i,
    decreases i,
{
    match s[i].reply_to {
        Some(r) => {
            let j = index_of_id(s, r);
            if 0 <= j < i {
                lemma_context_indices_bounds(s, j);
            }
        },
        None => {},
    }
}

/// Membership of row `k` in the context of the comment with id `target`:
/// the target itself and all of its ancestors. A missing target has an
/// empty context.
pub open spec fn in_context(s: Seq<Comment>, target: u128, k: int) -> bool {
    has_id(s, target) && context_indices(s, index_of_id(s, target)).contains(k)
}

// ---------------------------------------------------------------------------
// Scopes and row selection
// ---------------------------------------------------------------------------

/// The retrieval strategy, chosen once at the boundary: a whole page, the
/// direct replies of one comment, or the context of one comment.
#[derive(Clone, Copy)]
pub enum Scope {
    FullPage,
    Replies(u128),
    Context(u128),
}

/// Whether row `i` belongs to the result of a scope on a page.
pub open spec fn selects(s: Seq<Comment>, page: u128, scope: Scope, i: int) -> bool {
    match scope {
        Scope::FullPage => s[i].page_id == page,
        Scope::Replies(x) => s[i].reply_to == Some(x),
        Scope::Context(x) => in_context(s, x, i),
    }
}

/// The selected indices among the first `k` rows, in row order.
pub open spec fn selected_prefix(s: Seq<Comment>, page: u128, scope: Scope, k: int) -> Seq<usize>
    decreases k,
{
    if k <= 0 {
        Seq::empty()
    } else {
        let p = selected_prefix(s, page, scope, k - 1);
        if selects(s, page, scope, k - 1) {
            p.push((k - 1) as usize)
        } else {
            p
        }
    }
}

/// All selected indices, in row order.
pub open spec fn selected_seq(s: Seq<Comment>, page: u128, scope: Scope) -> Seq<usize> {
    selected_prefix(s, page, scope, s.len() as int)
}

pub proof fn lemma_selected_prefix_props(s: Seq<Comment>, page: u128, scope: Scope, k: int)
    requires
        0 <= k <= s.len() <= usize::MAX,
    ensures
        ({
            let p = selected_prefix(s, page, scope, k);
            &&& p.len() <= k
            &&& forall|t: int| 0 <= t < p.len() ==> (#[trigger] p[t]) < k
            &&& forall|t: int| 0 <= t < p.len() ==> selects(s, page, scope, p[t] as int)
            &&& forall|t1: int, t2: int| 0 <= t1 < t2 < p.len() ==> p[t1] < p[t2]
            &&& forall|i: int|
                0 <= i < k ==> (selects(s, page, scope, i) <==> p.contains(i as usize))
        }),
    decreases k,
{
    if k > 0 {
        lemma_selected_prefix_props(s, page, scope, k - 1);
        let q = selected_prefix(s, page, scope, k - 1);
        let p = selected_prefix(s, page, scope, k);
        if selects(s, page, scope, k - 1) {
            assert(p == q.push((k - 1) as usize));
            assert forall|i: int|
                0 <= i < k implies (selects(s, page, scope, i) <==> p.contains(i as usize)) by {
                if i < k - 1 {
                    if q.contains(i as usize) {
                        let t = choose|t: int| 0 <= t < q.len() && q[t] == i as usize;
                        assert(p[t] == i as usize);
                    }
                    if p.contains(i as usize) {
                        let t = choose|t: int| 0 <= t < p.len() && p[t] == i as usize;
                        if t < q.len() {
                            assert(q[t] == i as usize);
                        }
                    }
                } else {
                    assert(p[p.len() - 1] == (k - 1) as usize);
                }
            }
        } else {
            assert(p == q);
            assert forall|i: int|
                0 <= i < k implies (selects(s, page, scope, i) <==> p.contains(i as usize)) by {
                if i == k - 1 {
                    if p.contains(i as usize) {
                        let t = choose|t: int| 0 <= t < p.len() && p[t] == i as usize;
                        assert(selects(s, page, scope, p[t] as int));
                    }
                }
            }
        }
    }
}

// ---------------------------------------------------------------------------
// Time ordering and the canonical listing
// ---------------------------------------------------------------------------

/// Listings are ordered by creation time; rows with equal times keep their
/// insertion order, which makes the order total and the listing unique.
pub open spec fn time_leq(s: Seq<Comment>, a: usize, b: usize) -> bool {
    ||| s[a as int].created_time < s[b as int].created_time
    ||| (s[a as int].created_time == s[b as int].created_time && a <= b)
}

pub open spec fn time_order(s: Seq<Comment>) -> spec_fn(usize, usize) -> bool {
    |a: usize, b: usize| time_leq(s, a, b)
}

pub proof fn lemma_time_order_total(s: Seq<Comment>)
    ensures
        total_ordering(time_order(s)),
{
    let leq = time_order(s);
    assert forall|a: usize| #[trigger] leq(a, a) by {
        assert(time_leq(s, a, a));
    }
    assert forall|a: usize, b: usize| #[trigger] leq(a, b) && #[trigger] leq(b, a) implies a == b by {
        assert(time_leq(s, a, b) && time_leq(s, b, a));
    }
    assert forall|a: usize, b: usize, c: usize|
        #[trigger] leq(a, b) && #[trigger] leq(b, c) implies leq(a, c) by {
        assert(time_leq(s, a, b) && time_leq(s, b, c));
        assert(time_leq(s, a, c));
    }
    assert forall|a: usize, b: usize| #[trigger] leq(a, b) || #[trigger] leq(b, a) by {
        assert(time_leq(s, a, b) || time_leq(s, b, a));
    }
}

/// The canonical result order of a scope on a page: the selected rows,
/// sorted by creation time with ties broken by insertion order.
pub open spec fn listing(s: Seq<Comment>, page: u128, scope: Scope) -> Seq<usize> {
    selected_seq(s, page, scope).sort_by(time_order(s))
}

pub proof fn lemma_listing_props(s: Seq<Comment>, page: u128, scope: Scope)
    requires
        s.len() <= usize::MAX,
    ensures
        ({
            let l = listing(s, page, scope);
            &&& l.len() == selected_seq(s, page, scope).len()
            &&& l.len() <= s.len()
            &&& sorted_by(l, time_order(s))
            &&& forall|t: int| 0 <= t < l.len() ==> (#[trigger] l[t]) < s.len()
            &&& l.no_duplicates()
            &&& forall|i: int|
                0 <= i < s.len() ==> (selects(s, page, scope, i) <==> l.contains(i as usize))
        }),
{
    let sel = selected_seq(s, page, scope);
    let ord = time_order(s);
    let l = listing(s, page, scope);
    lemma_selected_prefix_props(s, page, scope, s.len() as int);
    lemma_time_order_total(s);
    sel.lemma_sort_by_ensures(ord);
    assert(sel.to_multiset() == l.to_multiset());
    assert(sel.len() == sel.to_multiset().len());
    assert(l.len() == l.to_multiset().len());
    assert(sel.len() == l.len());
    assert(sel.no_duplicates());
    sel.lemma_multiset_has_no_duplicates();
    l.lemma_multiset_has_no_duplicates_conv();
    assert forall|x: usize| l.contains(x) implies sel.contains(x) by {
        assert(l.to_multiset().count(x) > 0);
        assert(sel.to_multiset().count(x) > 0);
    }
    assert forall|x: usize| sel.contains(x) implies l.contains(x) by {
        assert(sel.to_multiset().count(x) > 0);
        assert(l.to_multiset().count(x) > 0);
    }
    assert forall|t: int| 0 <= t < l.len() implies (#[trigger] l[t]) < s.len() by {
        assert(l.contains(l[t]));
        assert(sel.contains(l[t]));
        let u = choose|u: int| 0 <= u < sel.len() && sel[u] == l[t];
    }
    assert forall|i: int|
        0 <= i < s.len() implies (selects(s, page, scope, i) <==> l.contains(i as usize)) by {
        assert(selects(s, page, scope, i) <==> sel.contains(i as usize));
    }
}

// ---------------------------------------------------------------------------
// Counts
// ---------------------------------------------------------------------------

/// Number of direct replies to the comment with id `cid` among the first
/// `k` rows.
pub open spec fn reply_count_prefix(s: Seq<Comment>, cid: u128, k: int) -> int
    decreases k,
{
    if k <= 0 {
        0
    } else {
        reply_count_prefix(s, cid, k - 1) + if s[k - 1].reply_to == Some(cid) {
            1int
        } else {
            0int
        }
    }
}

/// Number of direct replies to the comment with id `cid` across the table.
pub open spec fn reply_count(s: Seq<Comment>, cid: u128) -> int {
    reply_count_prefix(s, cid, s.len() as int)
}

/// Number of comments of a page among the first `k` rows.
pub open spec fn page_count_prefix(s: Seq<Comment>, page: u128, k: int) -> int
    decreases k,
{
    if k <= 0 {
        0
    } else {
        page_count_prefix(s, page, k - 1) + if s[k - 1].page_id == page {
            1int
        } else {
            0int
        }
    }
}

pub open spec fn page_count(s: Seq<Comment>, page: u128) -> int {
    page_count_prefix(s, page, s.len() as int)
}

/// Number of rows in the context of `target` among the first `k` rows.
pub open spec fn context_count_prefix(s: Seq<Comment>, target: u128, k: int) -> int
    decreases k,
{
    if k <= 0 {
        0
    } else {
        context_count_prefix(s, target, k - 1) + if in_context(s, target, k - 1) {
            1int
        } else {
            0int
        }
    }
}

/// Size of the ancestor closure of `target`: the target plus all of its
/// ancestors; zero when no row carries that id.
pub open spec fn context_count(s: Seq<Comment>, target: u128) -> int {
    context_count_prefix(s, target, s.len() as int)
}

pub proof fn lemma_reply_count_prefix_bounds(s: Seq<Comment>, cid: u128, k: int)
    ensures
        0 <= reply_count_prefix(s, cid, k) <= (if k >= 0 { k } else { 0 }),
    decreases k,
{
    if k > 0 {
        lemma_reply_count_prefix_bounds(s, cid, k - 1);
    }
}

pub proof fn lemma_page_count_prefix_bounds(s: Seq<Comment>, page: u128, k: int)
    ensures
        0 <= page_count_prefix(s, page, k) <= (if k >= 0 { k } else { 0 }),
    decreases k,
{
    if k > 0 {
        lemma_page_count_prefix_bounds(s, page, k - 1);
    }
}

pub proof fn lemma_context_count_prefix_bounds(s: Seq<Comment>, target: u128, k: int)
    ensures
        0 <= context_count_prefix(s, target, k) <= (if k >= 0 { k } else { 0 }),
    decreases k,
{
    if k > 0 {
        lemma_context_count_prefix_bounds(s, target, k - 1);
    }
}

// ---------------------------------------------------------------------------
// Pagination slices
// ---------------------------------------------------------------------------

/// The slice a 1-based page index cuts out of an ordered result.
pub open spec fn page_slice<T>(l: Seq<T>, per_page: int, index1: int) -> Seq<T> {
    let off = (index1 - 1) * per_page;
    if off >= l.len() {
        Seq::empty()
    } else {
        l.subrange(off, min(off + per_page, l.len() as int))
    }
}

// ---------------------------------------------------------------------------
// The store
// ---------------------------------------------------------------------------

/// The comment table. The store hands rows out by value of their fields;
/// its single column vector stays private so that well-formedness is kept
/// by construction.
pub struct CommentStore {
    comments: Vec<Comment>,
}

impl View for CommentStore {
    type V = Seq<Comment>;

    closed spec fn view(&self) -> Seq<Comment> {
        self.comments@
    }
}

impl CommentStore {
    pub open spec fn wf(&self) -> bool {
        store_wf(self@)
    }

    /// An empty table.
    pub fn new() -> (s: Self)
        ensures
            s.wf(),
            s@.len() == 0,
    {
        CommentStore { comments: Vec::new() }
    }

    pub fn len(&self) -> (n: usize)
        ensures
            n == self@.len(),
    {
        self.comments.len()
    }

    pub(crate) fn rows(&self) -> (v: &Vec<Comment>)
        ensures
            v@ == self@,
    {
        &self.comments
    }

    pub(crate) fn push_row(&mut self, c: Comment)
        ensures
            final(self)@ == old(self)@.push(c),
    {
        self.comments.push(c);
    }
}

// ---------------------------------------------------------------------------
// Executable lookups
// ---------------------------------------------------------------------------

/// Under a well-formed table the recursion of `context_indices` follows the
/// real parent: the unique row whose id the reply names, at a strictly
/// smaller index.
pub proof fn lemma_context_step(s: Seq<Comment>, i: int)
    requires
        store_wf(s),
        0 <= i < s.len(),
    ensures
        match s[i].reply_to {
            Some(r) => {
                &&& has_id(s, r)
                &&& 0 <= index_of_id(s, r) < i
                &&& s[index_of_id(s, r)].id == r
                &&& context_indices(s, i) == context_indices(s, index_of_id(s, r)).insert(i)
            },
            None => context_indices(s, i) == set![i],
        },
{
    assert(reply_linked_at(s, i));
    match s[i].reply_to {
        Some(r) => {
            let j = choose|j: int|
                0 <= j < i && (#[trigger] s[j].id) == r && s[j].page_id == s[i].page_id;
            assert(has_id(s, r));
            lemma_index_of_id(s, r);
            let j0 = index_of_id(s, r);
            if j0 != j {
                assert(s[j0].id == s[j].id);
                assert(false);
            }
        },
        None => {},
    }
}

/// Linear scan for a row by id; the first hit is the only one under
/// `unique_ids`.
pub(crate) fn find_index_by_id(rows: &Vec<Comment>, cid: u128) -> (r: Option<usize>)
    ensures
        r is Some <==> has_id(rows@, cid),
        match r {
            Some(i) => i < rows@.len() && rows@[i as int].id == cid,
            None => !has_id(rows@, cid),
        },
{
    let n = rows.len();
    let mut i: usize = 0;
    while i < n
        invariant
            n == rows@.len(),
            i <= n,
            forall|k: int| 0 <= k < i ==> (#[trigger] rows@[k].id) != cid,
        decreases n - i,
    {
        if rows[i].id == cid {
            return Some(i);
        }
        i = i + 1;
    }
    None
}

// ---------------------------------------------------------------------------
// Executable ancestor walk and row selection
// ---------------------------------------------------------------------------

/// Marks the context of `target`: an upward walk along `reply_to` from the
/// target to its thread root, bounded by the longest reply chain present.
pub(crate) fn context_marks(rows: &Vec<Comment>, target: u128) -> (marks: Vec<bool>)
    requires
        store_wf(rows@),
    ensures
        marks@.len() == rows@.len(),
        forall|i: int|
            0 <= i < rows@.len() ==> (#[trigger] marks@[i]) == in_context(rows@, target, i),
{
    let ghost s = rows@;
    let n = rows.len();
    let mut marks: Vec<bool> = Vec::new();
    let mut z: usize = 0;
    while z < n
        invariant
            z <= n,
            marks@.len() == z,
            forall|k: int| 0 <= k < z ==> !(#[trigger] marks@[k]),
        decreases n - z,
    {
        marks.push(false);
        z = z + 1;
    }
    let idx0 = match find_index_by_id(rows, target) {
        None => {
            return marks;
        },
        Some(i) => i,
    };
    proof {
        lemma_id_index_unique(s, idx0 as int);
    }
    let ghost root = context_indices(s, idx0 as int);
    let mut cur = idx0;
    loop
        invariant_except_break
            store_wf(s),
            rows@ == s,
            n == s.len(),
            marks@.len() == n,
            (cur as int) < s.len(),
            root == context_indices(s, idx0 as int),
            root.contains(cur as int),
            forall|k: int| #[trigger] context_indices(s, cur as int).contains(k) ==> root.contains(k),
            forall|i: int|
                0 <= i < n ==> ((#[trigger] marks@[i]) == (root.contains(i)
                    && !context_indices(s, cur as int).contains(i))),
        ensures
            marks@.len() == n,
            forall|i: int| 0 <= i < n ==> (#[trigger] marks@[i]) == root.contains(i),
        decreases cur,
    {
        let ghost marks_pre = marks@;
        marks.set(cur, true);
        proof {
            lemma_context_step(s, cur as int);
            lemma_context_indices_bounds(s, cur as int);
        }
        match rows[cur].reply_to {
            None => {
                proof {
                    assert forall|i: int| 0 <= i < n implies (#[trigger] marks@[i])
                        == root.contains(i) by {
                        if i != cur as int {
                            assert(context_indices(s, cur as int).contains(i) <==> set![
                                cur as int,
                            ].contains(i));
                        }
                    }
                }
                break;
            },
            Some(r) => {
                let p = match find_index_by_id(rows, r) {
                    Some(p) => p,
                    None => {
                        proof {
                            assert(false);
                        }
                        0
                    },
                };
                proof {
                    lemma_id_index_unique(s, p as int);
                    assert(index_of_id(s, r) == p as int);
                    assert(context_indices(s, cur as int) == context_indices(
                        s,
                        p as int,
                    ).insert(cur as int));
                    lemma_context_indices_bounds(s, p as int);
                    assert(context_indices(s, p as int).contains(p as int));
                    assert(context_indices(s, cur as int).contains(p as int));
                    assert(root.contains(p as int));
                    assert forall|k: int| #[trigger] context_indices(s, p as int).contains(k)
                        implies root.contains(k) by {
                        assert(context_indices(s, cur as int).contains(k));
                    }
                    assert forall|i: int|
                        0 <= i < n implies ((#[trigger] marks@[i]) == (root.contains(i)
                            && !context_indices(s, p as int).contains(i))) by {
                        if i == cur as int {
                            assert(!context_indices(s, p as int).contains(i));
                        } else {
                            assert(context_indices(s, cur as int).contains(i)
                                <==> context_indices(s, p as int).contains(i));
                        }
                    }
                }
                cur = p;
            },
        }
    }
    proof {
        assert forall|i: int|
            0 <= i < s.len() implies (#[trigger] marks@[i]) == in_context(s, target, i) by {
            assert(in_context(s, target, i) == root.contains(i));
        }
    }
    marks
}

/// Marks the rows a scope selects on a page.
pub(crate) fn selection_marks(rows: &Vec<Comment>, page: u128, scope: &Scope) -> (marks: Vec<
    bool,
>)
    requires
        store_wf(rows@),
    ensures
        marks@.len() == rows@.len(),
        forall|i: int|
            0 <= i < rows@.len() ==> (#[trigger] marks@[i]) == selects(rows@, page, *scope, i),
{
    let n = rows.len();
    match scope {
        Scope::Context(x) => context_marks(rows, *x),
        Scope::FullPage => {
            let mut marks: Vec<bool> = Vec::new();
            let mut i: usize = 0;
            while i < n
                invariant
                    n == rows@.len(),
                    i <= n,
                    marks@.len() == i,
                    forall|k: int|
                        0 <= k < i ==> (#[trigger] marks@[k]) == (rows@[k].page_id == page),
                decreases n - i,
            {
                marks.push(rows[i].page_id == page);
                i = i + 1;
            }
            marks
        },
        Scope::Replies(x) => {
            let mut marks: Vec<bool> = Vec::new();
            let mut i: usize = 0;
            while i < n
                invariant
                    n == rows@.len(),
                    i <= n,
                    marks@.len() == i,
                    forall|k: int|
                        0 <= k < i ==> (#[trigger] marks@[k]) == (rows@[k].reply_to == Some(*x)),
                decreases n - i,
            {
                let hit = match rows[i].reply_to {
                    Some(r) => r == *x,
                    None => false,
                };
                marks.push(hit);
                i = i + 1;
            }
            marks
        },
    }
}

/// Collects the marked row indices in row order.
pub(crate) fn collect_selected(rows: &Vec<Comment>, page: u128, scope: &Scope, marks: &Vec<
    bool,
>) -> (v: Vec<usize>)
    requires
        marks@.len() == rows@.len(),
        forall|i: int|
            0 <= i < rows@.len() ==> (#[trigger] marks@[i]) == selects(rows@, page, *scope, i),
    ensures
        v@ == selected_seq(rows@, page, *scope),
{
    let ghost s = rows@;
    let n = rows.len();
    let mut v: Vec<usize> = Vec::new();
    let mut i: usize = 0;
    while i < n
        invariant
            n == s.len(),
            rows@ == s,
            i <= n,
            marks@.len() == n,
            forall|k: int| 0 <= k < n ==> (#[trigger] marks@[k]) == selects(s, page, *scope, k),
            v@ == selected_prefix(s, page, *scope, i as int),
        decreases n - i,
    {
        if marks[i] {
            v.push(i);
        }
        i = i + 1;
    }
    v
}

// ---------------------------------------------------------------------------
// Executable sort by creation time
// ---------------------------------------------------------------------------

/// Compares two rows by creation time, ties broken by row order.
fn time_le(rows: &Vec<Comment>, a: usize, b: usize) -> (r: bool)
    requires
        (a as int) < rows@.len(),
        (b as int) < rows@.len(),
    ensures
        r == time_leq(rows@, a, b),
{
    let ta = rows[a].created_time;
    let tb = rows[b].created_time;
    if ta < tb {
        true
    } else if ta == tb {
        a <= b
    } else {
        false
    }
}

/// Insertion sort of row indices under the listing order. The result is the
/// unique sorted arrangement of the input.
#[verifier::rlimit(50)]
pub(crate) fn sort_indices(rows: &Vec<Comment>, v: &mut Vec<usize>)
    requires
        forall|k: int| 0 <= k < old(v)@.len() ==> (#[trigger] old(v)@[k]) < rows@.len(),
    ensures
        final(v)@.to_multiset() == old(v)@.to_multiset(),
        final(v)@.len() == old(v)@.len(),
        sorted_by(final(v)@, time_order(rows@)),
{
    let ghost s = rows@;
    let ghost orig = v@;
    proof {
        lemma_time_order_total(s);
    }
    let mut i: usize = 0;
    while i < v.len()
        invariant
            rows@ == s,
            v@.to_multiset() == orig.to_multiset(),
            v@.len() == orig.len(),
            i <= v@.len(),
            forall|k: int| 0 <= k < v@.len() ==> (#[trigger] v@[k]) < s.len(),
            sorted_by(v@.take(i as int), time_order(s)),
            total_ordering(time_order(s)),
        decreases v@.len() - i,
    {
        let ghost pre = v@;
        let x = v.remove(i);
        proof {
            pre.remove_ensures(i as int);
            assert(v@.take(i as int) =~= pre.take(i as int));
        }
        let mut j: usize = i;
        loop
            invariant
                rows@ == s,
                v@ == pre.remove(i as int),
                j <= i,
                i < pre.len(),
                pre.len() == v@.len() + 1,
                x == pre[i as int],
                (x as int) < s.len(),
                forall|k: int| 0 <= k < v@.len() ==> (#[trigger] v@[k]) < s.len(),
                forall|k: int| j <= k < i ==> time_leq(s, x, #[trigger] v@[k]),
            ensures
                j <= i,
                rows@ == s,
                v@ == pre.remove(i as int),
                forall|k: int| j <= k < i ==> time_leq(s, x, #[trigger] v@[k]),
                j > 0 ==> time_leq(s, v@[j - 1], x),
            decreases j,
        {
            if j == 0 {
                break;
            }
            let w = v[j - 1];
            if time_le(rows, w, x) {
                break;
            }
            proof {
                assert(time_leq(s, x, w));
            }
            j = j - 1;
        }
        let ghost mid = v@;
        v.insert(j, x);
        proof {
            mid.insert_ensures(j as int, x);
            pre.remove_ensures(i as int);
            assert(pre.contains(x)) by {
                assert(pre[i as int] == x);
            }
            assert(v@.to_multiset() =~= pre.to_multiset()) by {
                assert(mid.to_multiset() == pre.to_multiset().remove(x));
                assert(v@.to_multiset() == mid.to_multiset().insert(x));
                assert(pre.to_multiset().count(x) > 0);
            }
            assert(v@.to_multiset() == orig.to_multiset());
            let ord = time_order(s);
            assert forall|t1: int, t2: int|
                0 <= t1 < t2 < i + 1 implies #[trigger] ord(
                v@.take(i + 1)[t1],
                v@.take(i + 1)[t2],
            ) by {
                let a = v@[t1];
                let b = v@[t2];
                if t2 < j {
                    assert(a == mid[t1] && b == mid[t2]);
                    assert(ord(mid.take(i as int)[t1], mid.take(i as int)[t2]));
                } else if t1 < j && t2 == j {
                    assert(a == mid[t1] && b == x);
                    assert(time_leq(s, mid[j - 1], x));
                    if t1 < j - 1 {
                        assert(ord(mid.take(i as int)[t1], mid.take(i as int)[j - 1]));
                    }
                } else if t1 < j && t2 > j {
                    assert(a == mid[t1] && b == mid[t2 - 1]);
                    assert(ord(mid.take(i as int)[t1], mid.take(i as int)[t2 - 1]));
                } else if t1 == j {
                    assert(a == x && b == mid[t2 - 1]);
                    assert(time_leq(s, x, mid[t2 - 1]));
                } else {
                    assert(a == mid[t1 - 1] && b == mid[t2 - 1]);
                    assert(ord(mid.take(i as int)[t1 - 1], mid.take(i as int)[t2 - 1]));
                }
            }
            assert(sorted_by(v@.take(i + 1), ord));
        }
        i = i + 1;
    }
    proof {
        assert(v@.take(v@.len() as int) =~= v@);
    }
}

// ---------------------------------------------------------------------------
// Executable counts
// ---------------------------------------------------------------------------

/// Direct replies of one comment across the table.
pub(crate) fn count_replies_exec(rows: &Vec<Comment>, cid: u128) -> (n: i64)
    requires
        rows@.len() <= MAX_COMMENT_ROWS,
    ensures
        n == reply_count(rows@, cid),
{
    let len = rows.len();
    let mut n: i64 = 0;
    let mut i: usize = 0;
    while i < len
        invariant
            len == rows@.len() <= MAX_COMMENT_ROWS,
            i <= len,
            n == reply_count_prefix(rows@, cid, i as int),
            0 <= n <= i,
        decreases len - i,
    {
        let hit = match rows[i].reply_to {
            Some(r) => r == cid,
            None => false,
        };
        if hit {
            n = n + 1;
        }
        i = i + 1;
    }
    n
}

/// Comments of one page across the table.
pub(crate) fn count_page_exec(rows: &Vec<Comment>, page: u128) -> (n: i64)
    requires
        rows@.len() <= MAX_COMMENT_ROWS,
    ensures
        n == page_count(rows@, page),
{
    let len = rows.len();
    let mut n: i64 = 0;
    let mut i: usize = 0;
    while i < len
        invariant
            len == rows@.len() <= MAX_COMMENT_ROWS,
            i <= len,
            n == page_count_prefix(rows@, page, i as int),
            0 <= n <= i,
        decreases len - i,
    {
        if rows[i].page_id == page {
            n = n + 1;
        }
        i = i + 1;
    }
    n
}

/// Size of the ancestor closure of `target`.
pub(crate) fn count_context_exec(rows: &Vec<Comment>, target: u128) -> (n: i64)
    requires
        store_wf(rows@),
    ensures
        n == context_count(rows@, target),
{
    let marks = context_marks(rows, target);
    let len = rows.len();
    let mut n: i64 = 0;
    let mut i: usize = 0;
    while i < len
        invariant
            len == rows@.len() <= MAX_COMMENT_ROWS,
            i <= len,
            marks@.len() == len,
            forall|k: int|
                0 <= k < len ==> (#[trigger] marks@[k]) == in_context(rows@, target, k),
            n == context_count_prefix(rows@, target, i as int),
            0 <= n <= i,
        decreases len - i,
    {
        if marks[i] {
            n = n + 1;
        }
        i = i + 1;
    }
    n
}

} // verus!
