use masacarri::comment::{NewCommentRequest, add_comment_with, get_comment, get_comment_count, get_comments};
use masacarri::error::AppError;
use masacarri::models::IpAddress;
use masacarri::store::CommentStore;

const PAGE: u128 = 0xA0;
const OTHER_PAGE: u128 = 0xB0;

fn request(name: &str, content: &str, reply_to: Option<u128>) -> NewCommentRequest {
    NewCommentRequest {
        reply_to,
        display_name: name.to_string(),
        site_url: None,
        mail_addr: None,
        content: content.to_string(),
        delete_key: None,
    }
}

fn add(store: &mut CommentStore, page: u128, id: u128, time: i64, content: &str, reply_to: Option<u128>) {
    let res = add_comment_with(
        store,
        page,
        request("visitor", content, reply_to),
        IpAddress::V4(0x7f000001),
        id,
        time,
        "-".to_string(),
    );
    assert!(res.is_ok());
}

fn message_of(e: &AppError) -> String {
    e.public_message()
}

#[test]
fn pagination_slice_lengths() {
    let mut store = CommentStore::new();
    for i in 0..5u128 {
        add(&mut store, PAGE, 100 + i, 1000 + i as i64, "c", None);
    }
    let p1 = get_comments(&store, PAGE, Some(2), Some(1), None, None).unwrap();
    let p2 = get_comments(&store, PAGE, Some(2), Some(2), None, None).unwrap();
    let p3 = get_comments(&store, PAGE, Some(2), Some(3), None, None).unwrap();
    let p4 = get_comments(&store, PAGE, Some(2), Some(4), None, None).unwrap();
    assert_eq!(p1.len(), 2);
    assert_eq!(p2.len(), 2);
    assert_eq!(p3.len(), 1);
    assert_eq!(p4.len(), 0);
}

#[test]
fn pagination_pages_disjoint_and_exhaustive() {
    let mut store = CommentStore::new();
    for i in 0..5u128 {
        add(&mut store, PAGE, 100 + i, 1000 + i as i64, "c", None);
    }
    let all = get_comments(&store, PAGE, Some(256), Some(1), None, None).unwrap();
    let mut concat: Vec<u128> = Vec::new();
    for index in 1..=3u32 {
        let page = get_comments(&store, PAGE, Some(2), Some(index), None, None).unwrap();
        for view in &page {
            assert!(!concat.contains(&view.id), "pages must be disjoint");
            concat.push(view.id);
        }
    }
    let full_ids: Vec<u128> = all.iter().map(|v| v.id).collect();
    assert_eq!(concat, full_ids, "pages concatenated must exhaust the listing");
}

#[test]
fn pagination_bounds_rejected() {
    let store = CommentStore::new();
    match get_comments(&store, PAGE, Some(0), Some(1), None, None) {
        Err(e) => {
            assert_eq!(message_of(&e), "Comments per page is limited up to 256.");
            assert_eq!(e.status_code(), 400);
        }
        Ok(_) => panic!("perPage = 0 must be rejected"),
    }
    match get_comments(&store, PAGE, Some(257), Some(1), None, None) {
        Err(e) => assert_eq!(message_of(&e), "Comments per page is limited up to 256."),
        Ok(_) => panic!("perPage = 257 must be rejected"),
    }
    match get_comments(&store, PAGE, Some(10), Some(0), None, None) {
        Err(e) => assert_eq!(message_of(&e), "invalid page index"),
        Ok(_) => panic!("pageIndex = 0 must be rejected"),
    }
    assert!(get_comments(&store, PAGE, Some(256), Some(1), None, None).is_ok());
    assert!(get_comments(&store, PAGE, Some(1), Some(1), None, None).is_ok());
}

#[test]
fn pagination_defaults() {
    let mut store = CommentStore::new();
    for i in 0..12u128 {
        add(&mut store, PAGE, 100 + i, 1000 + i as i64, "c", None);
    }
    let defaulted = get_comments(&store, PAGE, None, None, None, None).unwrap();
    assert_eq!(defaulted.len(), 10, "perPage defaults to 10");
    assert_eq!(defaulted[0].id, 100, "pageIndex defaults to the first page");
}

#[test]
fn scope_conflict_same_message() {
    let store = CommentStore::new();
    let listing_err = match get_comments(&store, PAGE, Some(10), Some(1), Some(1), Some(2)) {
        Err(e) => message_of(&e),
        Ok(_) => panic!("both scopes must be rejected in listing"),
    };
    let count_err = match get_comment_count(&store, PAGE, Some(1), Some(2)) {
        Err(e) => message_of(&e),
        Ok(_) => panic!("both scopes must be rejected in counting"),
    };
    assert_eq!(listing_err, count_err);
    assert_eq!(
        listing_err,
        "'replyto' and 'contextof' are not allowed to use simultaneously."
    );
}

#[test]
fn zero_reply_count_is_zero_not_absent() {
    let mut store = CommentStore::new();
    add(&mut store, PAGE, 1, 1000, "root", None);
    add(&mut store, PAGE, 2, 1001, "reply", Some(1));
    let full = get_comments(&store, PAGE, Some(10), Some(1), None, None).unwrap();
    let leaf = full.iter().find(|v| v.id == 2).unwrap();
    assert_eq!(leaf.count_replies, Some(0));
    let replies = get_comments(&store, PAGE, Some(10), Some(1), Some(1), None).unwrap();
    assert_eq!(replies.len(), 1);
    assert_eq!(replies[0].id, 2);
    assert_eq!(replies[0].count_replies, Some(0));
}

#[test]
fn context_of_root_is_only_the_root() {
    let mut store = CommentStore::new();
    add(&mut store, PAGE, 1, 1000, "root", None);
    add(&mut store, PAGE, 2, 1001, "other root", None);
    let ctx = get_comments(&store, PAGE, Some(10), Some(1), None, Some(1)).unwrap();
    assert_eq!(ctx.len(), 1);
    assert_eq!(ctx[0].id, 1);
}

#[test]
fn context_of_missing_target_is_empty() {
    let mut store = CommentStore::new();
    add(&mut store, PAGE, 1, 1000, "root", None);
    let ctx = get_comments(&store, PAGE, Some(10), Some(1), None, Some(999)).unwrap();
    assert!(ctx.is_empty(), "a missing context target lists nothing");
    let count = get_comment_count(&store, PAGE, None, Some(999)).unwrap();
    assert_eq!(count, 0);
}

#[test]
fn thread_scenario_counts_and_context() {
    let mut store = CommentStore::new();
    // page P: root A ("hello"), reply B to A ("hi"), reply C to B ("yo")
    add(&mut store, PAGE, 0xA, 1000, "hello", None);
    add(&mut store, PAGE, 0xB, 1001, "hi", Some(0xA));
    add(&mut store, PAGE, 0xC, 1002, "yo", Some(0xB));

    assert_eq!(get_comment_count(&store, PAGE, None, None).unwrap(), 3);
    assert_eq!(get_comment_count(&store, PAGE, Some(0xA), None).unwrap(), 1);
    assert_eq!(get_comment_count(&store, PAGE, None, Some(0xC)).unwrap(), 3);

    let ctx = get_comments(&store, PAGE, Some(10), Some(1), None, Some(0xC)).unwrap();
    let ids: Vec<u128> = ctx.iter().map(|v| v.id).collect();
    assert_eq!(ids, vec![0xA, 0xB, 0xC], "ordered by creation time");
    let contents: Vec<&str> = ctx.iter().map(|v| v.content.as_str()).collect();
    assert_eq!(contents, vec!["hello", "hi", "yo"]);
    let counts: Vec<Option<i64>> = ctx.iter().map(|v| v.count_replies).collect();
    assert_eq!(counts, vec![Some(1), Some(1), Some(0)], "page-wide direct reply counts");
}

#[test]
fn context_counts_are_page_wide() {
    let mut store = CommentStore::new();
    add(&mut store, PAGE, 1, 1000, "root", None);
    add(&mut store, PAGE, 2, 1001, "first reply", Some(1));
    add(&mut store, PAGE, 3, 1002, "second reply", Some(1));
    add(&mut store, PAGE, 4, 1003, "deep", Some(2));
    // context of 4 returns 1, 2, 4 — but the count of 1 covers reply 3 too
    let ctx = get_comments(&store, PAGE, Some(10), Some(1), None, Some(4)).unwrap();
    let ids: Vec<u128> = ctx.iter().map(|v| v.id).collect();
    assert_eq!(ids, vec![1, 2, 4]);
    assert_eq!(ctx[0].count_replies, Some(2), "count covers children outside the result");
    assert_eq!(ctx[1].count_replies, Some(1));
    assert_eq!(ctx[2].count_replies, Some(0));
}

#[test]
fn equal_times_keep_insertion_order() {
    let mut store = CommentStore::new();
    add(&mut store, PAGE, 3, 1000, "first", None);
    add(&mut store, PAGE, 1, 1000, "second", None);
    add(&mut store, PAGE, 2, 1000, "third", None);
    let all = get_comments(&store, PAGE, Some(10), Some(1), None, None).unwrap();
    let ids: Vec<u128> = all.iter().map(|v| v.id).collect();
    assert_eq!(ids, vec![3, 1, 2], "ties in created_time keep insertion order");
}

#[test]
fn listing_orders_by_time_not_insertion() {
    let mut store = CommentStore::new();
    add(&mut store, PAGE, 1, 3000, "late", None);
    add(&mut store, PAGE, 2, 1000, "early", None);
    add(&mut store, PAGE, 3, 2000, "middle", None);
    let all = get_comments(&store, PAGE, Some(10), Some(1), None, None).unwrap();
    let ids: Vec<u128> = all.iter().map(|v| v.id).collect();
    assert_eq!(ids, vec![2, 3, 1]);
}

#[test]
fn listing_is_scoped_to_the_page() {
    let mut store = CommentStore::new();
    add(&mut store, PAGE, 1, 1000, "on page", None);
    add(&mut store, OTHER_PAGE, 2, 1001, "elsewhere", None);
    let all = get_comments(&store, PAGE, Some(10), Some(1), None, None).unwrap();
    assert_eq!(all.len(), 1);
    assert_eq!(all[0].id, 1);
    assert_eq!(get_comment_count(&store, PAGE, None, None).unwrap(), 1);
}

#[test]
fn get_comment_found_and_not_found() {
    let mut store = CommentStore::new();
    add(&mut store, PAGE, 1, 1000, "root", None);
    add(&mut store, PAGE, 2, 1001, "reply", Some(1));
    let found = get_comment(&store, PAGE, 1).expect("comment exists on the page");
    assert_eq!(found.id, 1);
    assert_eq!(found.count_replies, Some(1), "single fetch carries the reply count");
    assert!(get_comment(&store, PAGE, 99).is_none(), "unknown id is not found");
    assert!(
        get_comment(&store, OTHER_PAGE, 1).is_none(),
        "an id on another page is not found"
    );
}
