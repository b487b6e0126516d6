//! The canonical model.
//!
//! This is JMAP's model, deliberately. Every other backend projects into these
//! types through its own adapter, so nothing above the adapters has to know
//! which protocol an account came from.

use vstd::prelude::*;
use crate::text::{chars_of, copy_chars, lemma_split_nonempty, split_chars, split_on, string_of, trim, trim_chars, views};

verus! {

/// A configured account. `id` is ours, not the backend's.
#[derive(Debug, Clone, PartialEq, Eq)]
pub struct Account {
    pub id: String,
    /// Shown in the sidebar, e.g. "example.com".
    pub label: String,
    /// The provenance colour carried on avatar rings in the UI.
    pub color: String,
    /// Address mail is sent from by default.
    pub identity: String,
    /// How this account authenticates, which decides what reconnecting it
    /// costs.
    pub connection: Connection,
}

/// How an account proves who it is.
#[derive(Debug, Clone, Copy, PartialEq, Eq)]
pub enum Connection {
    Oauth,
    Imap,
    /// A hand-made API token, which cannot be renewed without a new one.
    Token,
}

#[derive(Debug, Clone, PartialEq, Eq)]
pub struct Mailbox {
    pub id: String,
    pub account_id: String,
    pub name: String,
    /// JMAP role: "inbox", "archive", "drafts", "sent", "trash", "junk".
    pub role: Option<String>,
    pub total_emails: u32,
    pub unread_emails: u32,
    pub sort_order: u32,
}

pub struct MailboxView {
    pub id: Seq<char>,
    pub account_id: Seq<char>,
    pub name: Seq<char>,
    pub role: Option<Seq<char>>,
    pub total_emails: u32,
    pub unread_emails: u32,
    pub sort_order: u32,
}

impl Mailbox {
    pub open spec fn view(&self) -> MailboxView {
        MailboxView {
            id: self.id@,
            account_id: self.account_id@,
            name: self.name@,
            role: opt_view(self.role),
            total_emails: self.total_emails,
            unread_emails: self.unread_emails,
            sort_order: self.sort_order,
        }
    }
}

pub open spec fn mailboxes_view(v: Seq<Mailbox>) -> Seq<MailboxView> {
    v.map_values(|m: Mailbox| m.view())
}

#[derive(Debug, Clone, PartialEq, Eq, Default)]
pub struct EmailAddress {
    pub name: Option<String>,
    pub email: String,
}

pub struct EmailAddressView {
    pub name: Option<Seq<char>>,
    pub email: Seq<char>,
}

impl EmailAddress {
    pub open spec fn view(&self) -> EmailAddressView {
        EmailAddressView { name: opt_view(self.name), email: self.email@ }
    }
}

pub open spec fn addresses_view(v: Seq<EmailAddress>) -> Seq<EmailAddressView> {
    v.map_values(|a: EmailAddress| a.view())
}

/// What a list row shows for an address: the display name when it has any
/// non-blank text, otherwise the local part, otherwise the whole address.
pub open spec fn display_of(name: Option<Seq<char>>, email: Seq<char>) -> Seq<char> {
    if name is Some && trim(name->0).len() > 0 {
        name->0
    } else {
        let local = split_on(email, '@')[0];
        if local.len() > 0 {
            local
        } else {
            email
        }
    }
}

pub open spec fn opt_view(o: Option<String>) -> Option<Seq<char>> {
    match o {
        Some(s) => Some(s@),
        None => None,
    }
}

/// The text before the first occurrence of `c`, or all of it.
pub fn before_first(v: &[char], c: char) -> (r: Vec<char>)
    ensures
        r@ == split_on(v@, c)[0],
{
    let pieces = split_chars(v, c);
    proof {
        lemma_split_nonempty(v@, c);
    }
    assert(pieces@[0]@ == views(pieces@)[0]);
    copy_chars(pieces[0].as_slice())
}

impl EmailAddress {
    /// What the list row shows: a display name when we have one, otherwise the
    /// local part, which reads better than a full address in a narrow column.
    pub fn display(&self) -> (r: String)
        ensures
            r@ == display_of(opt_view(self.name), self.email@),
    {
        if let Some(name) = &self.name {
            let chars = chars_of(name.as_str());
            let trimmed = trim_chars(&chars);
            if trimmed.len() > 0 {
                return name.clone();
            }
        }
        let email = chars_of(self.email.as_str());
        let local = before_first(&email, '@');
        if local.len() > 0 {
            string_of(&local)
        } else {
            self.email.clone()
        }
    }
}

/// Everything a list row needs, and nothing more. Bodies are fetched
/// separately so that scrolling a mailbox never pulls megabytes of HTML.
#[derive(Debug, Clone, PartialEq, Eq)]
pub struct Envelope {
    pub id: String,
    pub account_id: String,
    pub thread_id: String,
    pub mailbox_ids: Vec<String>,
    pub from: Vec<EmailAddress>,
    pub to: Vec<EmailAddress>,
    pub subject: String,
    pub preview: String,
    /// RFC 3339, as JMAP gives it. Formatting is the UI's problem.
    pub received_at: String,
    pub is_unread: bool,
    pub is_flagged: bool,
    pub has_attachment: bool,
    /// The domain this message is proven to come from, when the provider's
    /// DMARC check passed; `None` for a failure and for no verdict alike.
    pub verified_domain: Option<String>,
    /// RFC 5322 Message-ID, carried so a reply threads.
    pub message_id: Option<String>,
    /// The References chain, which a reply extends rather than replaces.
    pub references: Vec<String>,
}

pub struct EnvelopeView {
    pub id: Seq<char>,
    pub account_id: Seq<char>,
    pub thread_id: Seq<char>,
    pub mailbox_ids: Seq<Seq<char>>,
    pub from: Seq<EmailAddressView>,
    pub to: Seq<EmailAddressView>,
    pub subject: Seq<char>,
    pub preview: Seq<char>,
    pub received_at: Seq<char>,
    pub is_unread: bool,
    pub is_flagged: bool,
    pub has_attachment: bool,
    pub verified_domain: Option<Seq<char>>,
    pub message_id: Option<Seq<char>>,
    pub references: Seq<Seq<char>>,
}

pub open spec fn strs_view(v: Seq<String>) -> Seq<Seq<char>> {
    v.map_values(|s: String| s@)
}

impl Envelope {
    pub open spec fn view(&self) -> EnvelopeView {
        EnvelopeView {
            id: self.id@,
            account_id: self.account_id@,
            thread_id: self.thread_id@,
            mailbox_ids: strs_view(self.mailbox_ids@),
            from: addresses_view(self.from@),
            to: addresses_view(self.to@),
            subject: self.subject@,
            preview: self.preview@,
            received_at: self.received_at@,
            is_unread: self.is_unread,
            is_flagged: self.is_flagged,
            has_attachment: self.has_attachment,
            verified_domain: opt_view(self.verified_domain),
            message_id: opt_view(self.message_id),
            references: strs_view(self.references@),
        }
    }
}

pub open spec fn envelopes_view(v: Seq<Envelope>) -> Seq<EnvelopeView> {
    v.map_values(|e: Envelope| e.view())
}

#[derive(Debug, Clone, PartialEq, Eq)]
pub struct EmailBody {
    pub id: String,
    pub html: Option<String>,
    pub text: Option<String>,
}

/// A message on its way out. Deliberately not an `Envelope`: it has no id,
/// thread or mailbox until the send succeeds.
#[derive(Debug, Clone, PartialEq, Eq)]
pub struct Outgoing {
    /// Our account id, which decides both who it comes from and how it goes.
    pub account_id: String,
    pub to: Vec<EmailAddress>,
    pub cc: Vec<EmailAddress>,
    pub bcc: Vec<EmailAddress>,
    pub subject: String,
    /// Plain text only for now.
    pub text: String,
    /// The Message-ID being replied to, if any.
    pub in_reply_to: Option<String>,
    /// The References chain, so the reply lands in the right thread.
    pub references: Vec<String>,
}

/// Where a thread sits in the triage model — computed, never stored on the
/// server.
#[derive(Debug, Clone, Copy, PartialEq, Eq)]
pub enum Lane {
    NeedsYou,
    WaitingOn,
    Fyi,
}

/// A change made locally that still has to reach the server.
///
/// Mutations are applied to the mirror first and sent afterwards; the queue is
/// what keeps a failed send from silently diverging from the server.
#[derive(Debug, Clone, PartialEq, Eq)]
pub struct Mutation {
    pub id: i64,
    pub account_id: String,
    pub email_id: String,
    /// What the user did, for display and for undo.
    pub kind: String,
    pub add_mailbox_ids: Vec<String>,
    pub remove_mailbox_ids: Vec<String>,
    /// Keyword changes, named the JMAP way (`$seen`, `$flagged`).
    pub add_flags: Vec<String>,
    pub remove_flags: Vec<String>,
    pub attempts: u32,
}

} // verus!
