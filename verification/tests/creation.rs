use masacarri::comment::{
    GetCommentResponse, NewCommentRequest, add_comment, add_comment_with, get_comment,
    get_comments,
};
use masacarri::error::{AppError, SimpleError};
use masacarri::mail::{MailNotifyTask, notify_reply_address};
use masacarri::models::{Comment, IpAddress, IpNetwork};
use masacarri::store::CommentStore;
use masacarri::utils::empty_to_none;

const PAGE: u128 = 0xA0;
const OTHER_PAGE: u128 = 0xB0;

fn request(name: &str, content: &str, reply_to: Option<u128>) -> NewCommentRequest {
    NewCommentRequest {
        reply_to,
        display_name: name.to_string(),
        site_url: None,
        mail_addr: None,
        content: content.to_string(),
        delete_key: None,
    }
}

fn sample_comment(id: u128, flags: i32) -> Comment {
    Comment {
        id,
        page_id: PAGE,
        reply_to: None,
        ip_addr: IpNetwork { addr: IpAddress::V4(0x7f000001), prefix: 32 },
        display_name: "visitor".to_string(),
        site_url: Some("https://example.org".to_string()),
        mail_addr: Some("v@example.org".to_string()),
        content: "original words".to_string(),
        delete_key: "-".to_string(),
        flags,
        created_time: 1000,
    }
}

#[test]
fn spam_flag_redacts_content() {
    let spam = GetCommentResponse::from_comment(&sample_comment(1, 1), Some(0));
    assert_eq!(spam.content, "(This comment is marked as spam.)");
    let also_spam = GetCommentResponse::from_comment(&sample_comment(1, 3), None);
    assert_eq!(also_spam.content, "(This comment is marked as spam.)");
    let clean = GetCommentResponse::from_comment(&sample_comment(1, 0), Some(0));
    assert_eq!(clean.content, "original words");
    let clean_other_bits = GetCommentResponse::from_comment(&sample_comment(1, 2), None);
    assert_eq!(clean_other_bits.content, "original words");
}

#[test]
fn projection_carries_the_given_count() {
    let with_count = GetCommentResponse::from_comment(&sample_comment(1, 0), Some(7));
    assert_eq!(with_count.count_replies, Some(7));
    let without = GetCommentResponse::from_comment(&sample_comment(1, 0), None);
    assert_eq!(without.count_replies, None);
}

#[test]
fn create_then_get_round_trip() {
    let mut store = CommentStore::new();
    let req = NewCommentRequest {
        reply_to: None,
        display_name: "alice".to_string(),
        site_url: Some("".to_string()),
        mail_addr: Some("a@example.org".to_string()),
        content: "hello there".to_string(),
        delete_key: None,
    };
    let (created, task) = add_comment(&mut store, PAGE, req, IpAddress::V4(0x7f000001)).unwrap();
    assert!(task.is_none(), "a root comment sends no notification");
    assert_eq!(created.page_id, PAGE);
    assert_eq!(created.count_replies, None, "creation responds without a count");

    let fetched = get_comment(&store, PAGE, created.id).expect("created comment is fetchable");
    assert_eq!(fetched.id, created.id);
    assert_eq!(fetched.display_name, "alice");
    assert_eq!(fetched.content, "hello there");
    assert_eq!(fetched.site_url, None, "empty optional text is normalized to absent");
    assert_eq!(fetched.reply_to, None);
    assert_eq!(fetched.created_time, created.created_time);
    assert_eq!(fetched.count_replies, Some(0));
}

#[test]
fn create_reply_emits_notification_task() {
    let mut store = CommentStore::new();
    let (root, _) =
        add_comment(&mut store, PAGE, request("alice", "root", None), IpAddress::V4(1)).unwrap();
    let mut reply_req = request("bob", "a reply", Some(root.id));
    reply_req.mail_addr = Some("bob@example.org".to_string());
    let (reply, task) =
        add_comment(&mut store, PAGE, reply_req, IpAddress::V6(0x2001)).unwrap();
    let task = task.expect("a reply hands off a notification job");
    assert_eq!(task.id_replyto, root.id);
    assert_eq!(task.comment_new.id, reply.id);
    // the root has no mail address, so nothing is sent
    assert_eq!(notify_reply_address(&store, &task), None);
}

#[test]
fn notify_address_of_reachable_target() {
    let mut store = CommentStore::new();
    let mut root_req = request("alice", "root", None);
    root_req.mail_addr = Some("alice@example.org".to_string());
    let (root, _) = add_comment(&mut store, PAGE, root_req, IpAddress::V4(1)).unwrap();
    let (reply, task) =
        add_comment(&mut store, PAGE, request("bob", "hi", Some(root.id)), IpAddress::V4(2))
            .unwrap();
    let task = task.unwrap();
    assert_eq!(reply.reply_to, Some(root.id));
    assert_eq!(
        notify_reply_address(&store, &task),
        Some("alice@example.org".to_string())
    );
    let gone = MailNotifyTask { id_replyto: 0xDEAD, comment_new: sample_comment(5, 0) };
    assert_eq!(notify_reply_address(&store, &gone), None, "a vanished target sends nothing");
}

#[test]
fn cross_page_reply_rejected() {
    let mut store = CommentStore::new();
    let (root, _) =
        add_comment(&mut store, PAGE, request("alice", "root", None), IpAddress::V4(1)).unwrap();
    match add_comment(
        &mut store,
        OTHER_PAGE,
        request("bob", "hi", Some(root.id)),
        IpAddress::V4(2),
    ) {
        Err(e) => {
            assert_eq!(e.public_message(), "You replied to an invalid comment.");
            assert_eq!(e.status_code(), 400);
        }
        Ok(_) => panic!("a cross-page reply must be rejected"),
    }
    let other = get_comments(&store, OTHER_PAGE, Some(10), Some(1), None, None).unwrap();
    assert!(other.is_empty(), "the rejected reply is not stored");
}

#[test]
fn reply_to_missing_comment_is_internal_error() {
    let mut store = CommentStore::new();
    match add_comment(&mut store, PAGE, request("bob", "hi", Some(404)), IpAddress::V4(2)) {
        Err(e) => {
            assert_eq!(e.public_message(), "system error");
            assert_eq!(e.status_code(), 500);
        }
        Ok(_) => panic!("replying to a missing comment is an internal error"),
    }
}

#[test]
fn required_text_validated_after_trimming() {
    let mut store = CommentStore::new();
    match add_comment(&mut store, PAGE, request("", "hi", None), IpAddress::V4(2)) {
        Err(e) => assert_eq!(e.public_message(), "Display name is required."),
        Ok(_) => panic!("an empty display name must be rejected"),
    }
    match add_comment(&mut store, PAGE, request(" \t ", "hi", None), IpAddress::V4(2)) {
        Err(e) => assert_eq!(e.public_message(), "Display name is required."),
        Ok(_) => panic!("a whitespace-only display name must be rejected"),
    }
    match add_comment(&mut store, PAGE, request("bob", "\n \r", None), IpAddress::V4(2)) {
        Err(e) => assert_eq!(e.public_message(), "Comment text is required."),
        Ok(_) => panic!("a whitespace-only comment text must be rejected"),
    }
    // the reply check precedes the required-text checks
    let (root, _) =
        add_comment(&mut store, PAGE, request("alice", "root", None), IpAddress::V4(1)).unwrap();
    match add_comment(&mut store, OTHER_PAGE, request("", "hi", Some(root.id)), IpAddress::V4(2)) {
        Err(e) => assert_eq!(e.public_message(), "You replied to an invalid comment."),
        Ok(_) => panic!("must be rejected"),
    }
}

#[test]
fn duplicate_id_fails_the_post() {
    let mut store = CommentStore::new();
    let ok = add_comment_with(
        &mut store,
        PAGE,
        request("alice", "first", None),
        IpAddress::V4(1),
        42,
        1000,
        "-".to_string(),
    );
    assert!(ok.is_ok());
    match add_comment_with(
        &mut store,
        PAGE,
        request("bob", "second", None),
        IpAddress::V4(2),
        42,
        1001,
        "-".to_string(),
    ) {
        Err(e) => assert_eq!(e.public_message(), "Failed to post new comment."),
        Ok(_) => panic!("a colliding id must fail the post"),
    }
}

#[test]
fn empty_to_none_normalization() {
    assert_eq!(empty_to_none(Some("".to_string())), None);
    assert_eq!(empty_to_none(Some("kept".to_string())), Some("kept".to_string()));
    assert_eq!(empty_to_none(None), None);
}

#[test]
fn error_messages_and_status_codes() {
    let internal = AppError::UnspecifiedErr;
    assert_eq!(internal.public_message(), "system error");
    assert_eq!(internal.status_code(), 500);
    let publishable = AppError::PublishableErr("told to the client".to_string());
    assert_eq!(publishable.public_message(), "told to the client");
    assert_eq!(publishable.status_code(), 400);
    let simple = SimpleError("plain".to_string());
    assert_eq!(simple.message(), "plain");
}
