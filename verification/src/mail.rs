use vstd::prelude::*;
use crate::models::Comment;
use crate::store::{CommentStore, comment_by_id, find_index_by_id, has_id, lemma_id_index_unique};

verus! {

/// A self-contained notification job: which comment was replied to, and the
/// new comment replying to it. An external dispatcher delivers these
/// best-effort and out of band; this core only hands them off.
pub struct MailNotifyTask {
    pub id_replyto: u128,
    pub comment_new: Comment,
}

/// The decision of the notification path: the reply target's mail address,
/// when the target still exists and left one; otherwise nothing is sent.
pub fn notify_reply_address(store: &CommentStore, task: &MailNotifyTask) -> (r: Option<String>)
    requires
        store.wf(),
    ensures
        match r {
            Some(a) => has_id(store@, task.id_replyto) && (comment_by_id(
                store@,
                task.id_replyto,
            ).mail_addr matches Some(m) && a@ == m@),
            None => !has_id(store@, task.id_replyto) || comment_by_id(
                store@,
                task.id_replyto,
            ).mail_addr is None,
        },
{
    let rows = store.rows();
    match find_index_by_id(rows, task.id_replyto) {
        None => None,
        Some(j) => {
            proof {
                lemma_id_index_unique(store@, j as int);
            }
            let row = &rows[j];
            match &row.mail_addr {
                Some(m) => Some(m.clone()),
                None => None,
            }
        },
    }
}

} // verus!
