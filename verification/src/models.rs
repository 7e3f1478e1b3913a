use vstd::prelude::*;

verus! {

/// Bit 0 of a comment's flags marks it as spam; its content is then redacted
/// in every public view.
pub const MARK_AS_SPAM_FRAG_BIT: i32 = 1;

pub open spec fn is_spam(flags: i32) -> bool {
    flags & MARK_AS_SPAM_FRAG_BIT == MARK_AS_SPAM_FRAG_BIT
}

/// An IP address as plain bits: 32 of them for v4, 128 for v6.
#[derive(Clone, Copy, PartialEq, Eq, Structural)]
pub enum IpAddress {
    V4(u32),
    V6(u128),
}

/// An address together with a routing prefix length, as stored with a comment.
#[derive(Clone, Copy, PartialEq, Eq, Structural)]
pub struct IpNetwork {
    pub addr: IpAddress,
    pub prefix: u8,
}

/// The full-length mask of an address family: a submitter address is always
/// stored as a single-host network.
pub open spec fn spec_full_mask(addr: IpAddress) -> u8 {
    match addr {
        IpAddress::V4(_) => 32,
        IpAddress::V6(_) => 128,
    }
}

/// Wraps a submitter address in a network with the full-length mask.
pub fn full_mask_network(addr: IpAddress) -> (n: IpNetwork)
    ensures
        n.addr == addr,
        n.prefix == spec_full_mask(addr),
{
    let prefix: u8 = match addr {
        IpAddress::V4(_) => 32,
        IpAddress::V6(_) => 128,
    };
    IpNetwork { addr, prefix }
}

/// A stored comment row. `ip_addr`, `mail_addr` and `delete_key` are private
/// fields: no public view ever carries them. `reply_to` points at an earlier
/// comment of the same page, or is absent for a thread root. `created_time`
/// is the sole sort key of every listing.
pub struct Comment {
    pub id: u128,
    pub page_id: u128,
    pub reply_to: Option<u128>,
    pub ip_addr: IpNetwork,
    pub display_name: String,
    pub site_url: Option<String>,
    pub mail_addr: Option<String>,
    pub content: String,
    pub delete_key: String,
    pub flags: i32,
    pub created_time: i64,
}

/// Page metadata, owned by the external page store; the comment core refers
/// to a page by its id only.
pub struct Page {
    pub id: u128,
    pub title: String,
    pub page_url: String,
    pub published: bool,
}

/// Optional strings that agree up to their text.
pub open spec fn opt_str_eq(a: Option<String>, b: Option<String>) -> bool {
    match (a, b) {
        (Some(x), Some(y)) => x@ == y@,
        (None, None) => true,
        _ => false,
    }
}

/// Two rows carry the same data, string fields compared by their text.
pub open spec fn comment_view_eq(a: Comment, b: Comment) -> bool {
    &&& a.id == b.id
    &&& a.page_id == b.page_id
    &&& a.reply_to == b.reply_to
    &&& a.ip_addr == b.ip_addr
    &&& a.display_name@ == b.display_name@
    &&& opt_str_eq(a.site_url, b.site_url)
    &&& opt_str_eq(a.mail_addr, b.mail_addr)
    &&& a.content@ == b.content@
    &&& a.delete_key@ == b.delete_key@
    &&& a.flags == b.flags
    &&& a.created_time == b.created_time
}

pub(crate) fn clone_opt_string(s: &Option<String>) -> (r: Option<String>)
    ensures
        opt_str_eq(r, *s),
{
    match s {
        Some(v) => Some(v.clone()),
        None => None,
    }
}

/// A field-wise copy of a row; string fields keep their text.
pub(crate) fn clone_comment(c: &Comment) -> (r: Comment)
    ensures
        comment_view_eq(r, *c),
{
    Comment {
        id: c.id,
        page_id: c.page_id,
        reply_to: c.reply_to,
        ip_addr: c.ip_addr,
        display_name: c.display_name.clone(),
        site_url: clone_opt_string(&c.site_url),
        mail_addr: clone_opt_string(&c.mail_addr),
        content: c.content.clone(),
        delete_key: c.delete_key.clone(),
        flags: c.flags,
        created_time: c.created_time,
    }
}

} // verus!
