//! The JMAP subset BazMail needs: what a session says, what a response means,
//! and how a JMAP email becomes the canonical envelope.
//!
//! JMAP is plain JSON over HTTP. The HTTP exchange and the JSON are the
//! application's; it hands this module the fields it read, as plain values.

use vstd::prelude::*;
use crate::model::{
    opt_view, strs_view, EmailAddress, EmailAddressView, addresses_view, Envelope, EnvelopeView,
    Mailbox, MailboxView, Outgoing,
};
use crate::text::{chars_eq, chars_of, eq_ic, eq_ignore_case};
use crate::contentline::strings_view;

verus! {

pub const CAP_CORE: &'static str = "urn:ietf:params:jmap:core";

pub const CAP_MAIL: &'static str = "urn:ietf:params:jmap:mail";

/// Sending is a separate capability from reading, and asking for it on every
/// request would make a server that cannot send refuse the ones that read.
pub const CAP_SUBMISSION: &'static str = "urn:ietf:params:jmap:submission";

/// What the JMAP adapter can refuse.
#[derive(Debug, Clone, PartialEq, Eq)]
pub enum JmapError {
    /// The session names no primary mail account.
    NoMailAccount,
    /// The session offers no account able to send.
    NoSubmissionAccount,
    /// The response tagged with this call id carries no arguments.
    Malformed(String),
    /// The server answered this call with a JMAP error of this type and
    /// description.
    MethodError { call_id: String, kind: String, detail: String },
    /// No response carries this call id.
    NoResponse(String),
    /// The account has no identity at all to send as this address.
    NoIdentity(String),
    /// The server returned nothing for this email id.
    NoMessage(String),
}

/// An account the session lists.
#[derive(Debug, Clone, PartialEq, Eq)]
pub struct AccountInfo {
    pub name: String,
}

/// The JMAP session, as far as BazMail reads it.
#[derive(Debug, Clone, PartialEq, Eq)]
pub struct Session {
    pub api_url: String,
    /// The address the token belongs to, used to prefill the account's
    /// identity.
    pub username: String,
    /// Capability to the backend account that is primary for it.
    pub primary_accounts: Vec<(String, String)>,
    pub accounts: Vec<(String, AccountInfo)>,
}

pub open spec fn entries_view(v: Seq<(String, String)>) -> Seq<(Seq<char>, Seq<char>)> {
    v.map_values(|e: (String, String)| (e.0@, e.1@))
}

/// The value of the first entry with this key.
pub open spec fn lookup(entries: Seq<(Seq<char>, Seq<char>)>, key: Seq<char>) -> Option<Seq<char>>
    decreases entries.len(),
{
    if entries.len() == 0 {
        None
    } else if entries[0].0 == key {
        Some(entries[0].1)
    } else {
        lookup(entries.drop_first(), key)
    }
}

/// Each key appears once, as in the JSON object the entries come from.
pub open spec fn keys_unique(entries: Seq<(Seq<char>, Seq<char>)>) -> bool {
    forall|i: int, j: int| 0 <= i < j < entries.len() ==> (#[trigger] entries[i]).0 != (#[trigger] entries[j]).0
}

impl Session {
    /// The session's capability table maps each capability to one account,
    /// as the JSON object it is read from does.
    pub open spec fn well_formed(&self) -> bool {
        keys_unique(entries_view(self.primary_accounts@))
    }
}

/// Entries with unique keys are a map: looking a key up gives a value
/// exactly when that key and value stand together among the entries.
pub proof fn lemma_lookup_is_the_map(entries: Seq<(Seq<char>, Seq<char>)>, key: Seq<char>, value: Seq<char>)
    requires
        keys_unique(entries),
    ensures
        lookup(entries, key) == Some(value) <==> entries.contains((key, value)),
    decreases entries.len(),
{
    if entries.len() > 0 {
        let rest = entries.drop_first();
        assert(keys_unique(rest)) by {
            assert forall|i: int, j: int| 0 <= i < j < rest.len() implies (#[trigger] rest[i]).0 != (#[trigger] rest[j]).0 by {
                assert(rest[i] == entries[i + 1] && rest[j] == entries[j + 1]);
            }
        }
        lemma_lookup_is_the_map(rest, key, value);
        if entries.contains((key, value)) {
            let k = choose|k: int| 0 <= k < entries.len() && entries[k] == (key, value);
            if k > 0 {
                assert(rest[k - 1] == (key, value));
                if entries[0].0 == key {
                    assert(entries[0].0 != entries[k].0);
                }
            }
        }
        if rest.contains((key, value)) {
            let k = choose|k: int| 0 <= k < rest.len() && rest[k] == (key, value);
            assert(entries[k + 1] == (key, value));
        }
        if lookup(entries, key) == Some(value) && entries[0].0 == key {
            assert(entries[0] == (key, value));
        }
    }
}

fn lookup_exec<'a>(entries: &'a Vec<(String, String)>, key: &str) -> (r: Option<&'a String>)
    ensures
        match r {
            Some(v) => lookup(entries_view(entries@), key@) == Some(v@),
            None => lookup(entries_view(entries@), key@) is None,
        },
{
    let ghost ev = entries_view(entries@);
    let k = chars_of(key);
    let mut i: usize = 0;
    assert(ev.skip(0) =~= ev);
    while i < entries.len()
        invariant
            i <= entries.len(),
            ev == entries_view(entries@),
            k@ == key@,
            lookup(ev, key@) == lookup(ev.skip(i as int), key@),
        decreases entries.len() - i,
    {
        assert(ev.skip(i as int)[0] == (entries@[i as int].0@, entries@[i as int].1@));
        assert(ev.skip(i as int).drop_first() =~= ev.skip(i + 1));
        if chars_eq(&chars_of(entries[i].0.as_str()), &k) {
            return Some(&entries[i].1);
        }
        i += 1;
    }
    None
}

impl Session {
    /// The backend's own account id for mail, distinct from our account id.
    pub fn mail_account_id(&self) -> (r: Result<&str, JmapError>)
        ensures
            match r {
                Ok(s) => lookup(entries_view(self.primary_accounts@), CAP_MAIL@) == Some(s@),
                Err(e) => lookup(entries_view(self.primary_accounts@), CAP_MAIL@) is None && e
                    == JmapError::NoMailAccount,
            },
    {
        match lookup_exec(&self.primary_accounts, CAP_MAIL) {
            Some(s) => Ok(s.as_str()),
            None => Err(JmapError::NoMailAccount),
        }
    }

    /// The account that sends: the submission account, or failing that the
    /// mail account. An account with neither cannot send, which is an error
    /// rather than a silently wrong id.
    pub fn submission_account_id(&self) -> (r: Result<&str, JmapError>)
        ensures
            match r {
                Ok(s) => match lookup(entries_view(self.primary_accounts@), CAP_SUBMISSION@) {
                    Some(v) => v == s@,
                    None => lookup(entries_view(self.primary_accounts@), CAP_MAIL@) == Some(s@),
                },
                Err(e) => lookup(entries_view(self.primary_accounts@), CAP_SUBMISSION@) is None
                    && lookup(entries_view(self.primary_accounts@), CAP_MAIL@) is None && e
                    == JmapError::NoSubmissionAccount,
            },
    {
        match lookup_exec(&self.primary_accounts, CAP_SUBMISSION) {
            Some(s) => Ok(s.as_str()),
            None => match lookup_exec(&self.primary_accounts, CAP_MAIL) {
                Some(s) => Ok(s.as_str()),
                None => Err(JmapError::NoSubmissionAccount),
            },
        }
    }
}

/// One entry of `methodResponses`, as far as it is read: the method name,
/// whether the arguments are there, the error's type and description where
/// the arguments carry them, and the call id. A missing name or id reads as
/// empty.
#[derive(Debug, Clone, PartialEq, Eq)]
pub struct MethodResponse {
    pub name: String,
    pub has_args: bool,
    pub error_type: Option<String>,
    pub error_description: Option<String>,
    pub call_id: String,
}

/// What the response tagged `call_id` comes to: the index of its arguments,
/// or why there are none to use.
pub enum ArgsView {
    Found(int),
    Malformed,
    MethodError(Seq<char>, Seq<char>),
    NoResponse,
}

/// The first response tagged `call_id` decides: without arguments it is
/// malformed; named `error` it is a JMAP error (type "unknown error" and an
/// empty description where they are missing); otherwise its arguments are
/// the answer.
pub open spec fn args_spec(rs: Seq<MethodResponse>, call_id: Seq<char>, from: int) -> ArgsView
    decreases rs.len() - from,
{
    if from < 0 || from >= rs.len() {
        ArgsView::NoResponse
    } else if rs[from].call_id@ != call_id {
        args_spec(rs, call_id, from + 1)
    } else if !rs[from].has_args {
        ArgsView::Malformed
    } else if rs[from].name@ == "error"@ {
        ArgsView::MethodError(
            match rs[from].error_type {
                Some(t) => t@,
                None => "unknown error"@,
            },
            match rs[from].error_description {
                Some(d) => d@,
                None => Seq::<char>::empty(),
            },
        )
    } else {
        ArgsView::Found(from)
    }
}

/// Finds the arguments of the response tagged with `call_id`, turning a JMAP
/// `error` response into a real error rather than a confusing parse failure.
pub fn find_args(responses: &Vec<MethodResponse>, call_id: &str) -> (r: Result<usize, JmapError>)
    ensures
        match args_spec(responses@, call_id@, 0) {
            ArgsView::Found(k) => r == Ok::<usize, JmapError>(k as usize),
            ArgsView::Malformed => r matches Err(JmapError::Malformed(c)) && c@ == call_id@,
            ArgsView::MethodError(kind, detail) => r matches Err(
                JmapError::MethodError { call_id: c, kind: t, detail: d },
            ) && c@ == call_id@ && t@ == kind && d@ == detail,
            ArgsView::NoResponse => r matches Err(JmapError::NoResponse(c)) && c@ == call_id@,
        },
{
    let id = chars_of(call_id);
    let mut i: usize = 0;
    while i < responses.len()
        invariant
            i <= responses.len(),
            id@ == call_id@,
            args_spec(responses@, call_id@, 0) == args_spec(responses@, call_id@, i as int),
        decreases responses.len() - i,
    {
        let entry = &responses[i];
        if chars_eq(&chars_of(entry.call_id.as_str()), &id) {
            if !entry.has_args {
                return Err(JmapError::Malformed(call_id.to_owned()));
            }
            if chars_eq(&chars_of(entry.name.as_str()), &chars_of("error")) {
                let kind = match &entry.error_type {
                    Some(t) => t.clone(),
                    None => "unknown error".to_owned(),
                };
                let detail = match &entry.error_description {
                    Some(d) => d.clone(),
                    None => String::new(),
                };
                return Err(JmapError::MethodError { call_id: call_id.to_owned(), kind, detail });
            }
            return Ok(i);
        }
        i += 1;
    }
    Err(JmapError::NoResponse(call_id.to_owned()))
}

/// A mailbox as `Mailbox/get` lists it.
#[derive(Debug, Clone, PartialEq, Eq)]
pub struct JmapMailbox {
    pub id: String,
    pub name: String,
    pub role: Option<String>,
    pub total_emails: u32,
    pub unread_emails: u32,
    pub sort_order: u32,
}

/// A listed mailbox in the canonical model, under our account id.
pub fn into_mailbox(m: JmapMailbox, account_id: &str) -> (r: Mailbox)
    ensures
        r.view() == (MailboxView {
            id: m.id@,
            account_id: account_id@,
            name: m.name@,
            role: opt_view(m.role),
            total_emails: m.total_emails,
            unread_emails: m.unread_emails,
            sort_order: m.sort_order,
        }),
{
    Mailbox {
        id: m.id,
        account_id: account_id.to_owned(),
        name: m.name,
        role: m.role,
        total_emails: m.total_emails,
        unread_emails: m.unread_emails,
        sort_order: m.sort_order,
    }
}

/// An address as JMAP gives it.
#[derive(Debug, Clone, PartialEq, Eq)]
pub struct JmapAddress {
    pub name: Option<String>,
    pub email: String,
}

/// An email as `Email/get` returns it. `mailbox_ids` and `keywords` are the
/// keys of JMAP's sets, in the order they were read.
#[derive(Debug, Clone, PartialEq, Eq)]
pub struct JmapEmail {
    pub id: String,
    pub thread_id: String,
    pub mailbox_ids: Vec<String>,
    pub keywords: Vec<String>,
    pub from: Option<Vec<JmapAddress>>,
    pub to: Option<Vec<JmapAddress>>,
    pub subject: Option<String>,
    pub received_at: Option<String>,
    pub preview: Option<String>,
    pub has_attachment: bool,
    pub message_id: Option<Vec<String>>,
    pub references: Option<Vec<String>>,
    /// Every `Authentication-Results` header, topmost first.
    pub authentication_results: Option<Vec<String>>,
}

pub open spec fn jmap_addresses_view(o: Option<Vec<JmapAddress>>) -> Seq<EmailAddressView> {
    match o {
        Some(v) => v@.map_values(|a: JmapAddress| EmailAddressView { name: opt_view(a.name), email: a.email@ }),
        None => Seq::<EmailAddressView>::empty(),
    }
}

pub open spec fn or_empty(o: Option<String>) -> Seq<char> {
    match o {
        Some(s) => s@,
        None => Seq::<char>::empty(),
    }
}

/// The canonical envelope of a JMAP email, under our account id. A missing
/// thread id means the message is its own thread; of the Message-IDs the
/// first identifies it; and the verdict is read from the topmost
/// `Authentication-Results`, which our own provider added.
pub open spec fn into_envelope_spec(e: JmapEmail, account_id: Seq<char>) -> EnvelopeView {
    EnvelopeView {
        id: e.id@,
        account_id: account_id,
        thread_id: if e.thread_id@.len() == 0 {
            e.id@
        } else {
            e.thread_id@
        },
        mailbox_ids: strs_view(e.mailbox_ids@),
        from: jmap_addresses_view(e.from),
        to: jmap_addresses_view(e.to),
        subject: or_empty(e.subject),
        preview: or_empty(e.preview),
        received_at: or_empty(e.received_at),
        is_unread: !strs_view(e.keywords@).contains("$seen"@),
        is_flagged: strs_view(e.keywords@).contains("$flagged"@),
        has_attachment: e.has_attachment,
        verified_domain: match e.authentication_results {
            Some(all) if all@.len() > 0 => match crate::auth::parse_spec(all@[0]@) {
                crate::auth::AuthView::Verified(d) => Some(d),
                _ => None,
            },
            _ => None,
        },
        message_id: match e.message_id {
            Some(ids) if ids@.len() > 0 => Some(ids@[0]@),
            _ => None,
        },
        references: match e.references {
            Some(r) => strs_view(r@),
            None => Seq::<Seq<char>>::empty(),
        },
    }
}

/// Conversations survive the conversion: an email's envelope belongs to the
/// thread JMAP put it in whenever JMAP named one, so two emails of one JMAP
/// thread land in one thread whatever their ids; only an email without a
/// thread id is a thread of its own, under its id. The envelope keeps the
/// email's id and is filed under the account it was read for.
pub proof fn lemma_envelope_thread(e: JmapEmail, f: JmapEmail, account_id: Seq<char>)
    ensures
        into_envelope_spec(e, account_id).id == e.id@,
        into_envelope_spec(e, account_id).account_id == account_id,
        e.thread_id@.len() > 0 ==> into_envelope_spec(e, account_id).thread_id == e.thread_id@,
        e.thread_id@.len() == 0 ==> into_envelope_spec(e, account_id).thread_id == e.id@,
        e.thread_id@.len() > 0 && e.thread_id@ == f.thread_id@ ==> into_envelope_spec(
            e,
            account_id,
        ).thread_id == into_envelope_spec(f, account_id).thread_id,
{
}

/// An envelope is unread exactly when the email lacks the `$seen` keyword and
/// flagged exactly when it carries `$flagged`; it stays in the mailboxes the
/// email is in, and is identified by the first of its Message-IDs.
pub proof fn lemma_envelope_keywords(e: JmapEmail, account_id: Seq<char>)
    ensures
        into_envelope_spec(e, account_id).is_unread <==> !(exists|i: int|
            0 <= i < e.keywords@.len() && (#[trigger] e.keywords@[i])@ == "$seen"@),
        into_envelope_spec(e, account_id).is_flagged <==> (exists|i: int|
            0 <= i < e.keywords@.len() && (#[trigger] e.keywords@[i])@ == "$flagged"@),
        into_envelope_spec(e, account_id).mailbox_ids.len() == e.mailbox_ids@.len(),
        forall|i: int| 0 <= i < e.mailbox_ids@.len() ==> into_envelope_spec(e, account_id).mailbox_ids[i]
            == (#[trigger] e.mailbox_ids@[i])@,
        e.message_id matches Some(ids) ==> (ids@.len() > 0 ==> into_envelope_spec(
            e,
            account_id,
        ).message_id == Some(ids@[0]@)),
{
    let kv = strs_view(e.keywords@);
    if kv.contains("$seen"@) {
        let w = choose|w: int| 0 <= w < kv.len() && kv[w] == "$seen"@;
        assert(e.keywords@[w]@ == "$seen"@);
    }
    if exists|i: int| 0 <= i < e.keywords@.len() && (#[trigger] e.keywords@[i])@ == "$seen"@ {
        let i = choose|i: int| 0 <= i < e.keywords@.len() && (#[trigger] e.keywords@[i])@ == "$seen"@;
        assert(kv[i] == "$seen"@);
    }
    if kv.contains("$flagged"@) {
        let w = choose|w: int| 0 <= w < kv.len() && kv[w] == "$flagged"@;
        assert(e.keywords@[w]@ == "$flagged"@);
    }
    if exists|i: int| 0 <= i < e.keywords@.len() && (#[trigger] e.keywords@[i])@ == "$flagged"@ {
        let i = choose|i: int| 0 <= i < e.keywords@.len() && (#[trigger] e.keywords@[i])@ == "$flagged"@;
        assert(kv[i] == "$flagged"@);
    }
}

fn has_keyword(keywords: &Vec<String>, k: &str) -> (r: bool)
    ensures
        r == strs_view(keywords@).contains(k@),
{
    let ghost kv = strs_view(keywords@);
    let kc = chars_of(k);
    let mut i: usize = 0;
    while i < keywords.len()
        invariant
            i <= keywords.len(),
            kv == strs_view(keywords@),
            kc@ == k@,
            forall|j: int| 0 <= j < i ==> kv[j] != k@,
        decreases keywords.len() - i,
    {
        if chars_eq(&chars_of(keywords[i].as_str()), &kc) {
            assert(kv[i as int] == k@);
            return true;
        }
        i += 1;
    }
    false
}

fn map_addresses(v: Option<Vec<JmapAddress>>) -> (r: Vec<EmailAddress>)
    ensures
        addresses_view(r@) == jmap_addresses_view(v),
{
    let mut out: Vec<EmailAddress> = Vec::new();
    match v {
        Some(list) => {
            let ghost lv = list@;
            let mut rest = list;
            let mut n: usize = 0;
            let total = rest.len();
            while rest.len() > 0
                invariant
                    n + rest.len() == lv.len(),
                    lv.len() == total,
                    rest@ == lv.skip(n as int),
                    addresses_view(out@) == lv.take(n as int).map_values(
                        |a: JmapAddress| EmailAddressView { name: opt_view(a.name), email: a.email@ },
                    ),
                decreases rest.len(),
            {
                let a = rest.remove(0);
                assert(a == lv[n as int]);
                assert(rest@ =~= lv.skip(n + 1));
                let ghost before = addresses_view(out@);
                let addr = EmailAddress { name: a.name, email: a.email };
                out.push(addr);
                assert(addresses_view(out@) =~= before.push(addr.view()));
                n += 1;
                assert(lv.take(n as int).map_values(
                    |a: JmapAddress| EmailAddressView { name: opt_view(a.name), email: a.email@ },
                ) =~= lv.take(n - 1).map_values(
                    |a: JmapAddress| EmailAddressView { name: opt_view(a.name), email: a.email@ },
                ).push(addr.view()));
            }
            assert(lv.take(n as int) =~= lv);
        },
        None => {
            assert(addresses_view(out@) =~= Seq::<EmailAddressView>::empty());
        },
    }
    out
}

fn unwrap_or_empty(o: Option<String>) -> (r: String)
    ensures
        r@ == or_empty(o),
{
    match o {
        Some(s) => s,
        None => String::new(),
    }
}

impl JmapEmail {
    /// The canonical envelope of this email, under our account id.
    pub fn into_envelope(self, account_id: &str) -> (r: Envelope)
        ensures
            r.view() == into_envelope_spec(self, account_id@),
    {
        let ghost me = self;
        let is_unread = !has_keyword(&self.keywords, "$seen");
        let is_flagged = has_keyword(&self.keywords, "$flagged");
        let verified_domain = match &self.authentication_results {
            Some(all) => if all.len() > 0 {
                let verdict = crate::auth::parse(all[0].as_str());
                match verdict.verified_domain() {
                    Some(d) => Some(d.to_owned()),
                    None => None,
                }
            } else {
                None
            },
            None => None,
        };
        let message_id = match &self.message_id {
            Some(ids) => if ids.len() > 0 {
                Some(ids[0].clone())
            } else {
                None
            },
            None => None,
        };
        let thread_id = if self.thread_id.as_str().is_empty() {
            self.id.clone()
        } else {
            self.thread_id
        };
        let references = match self.references {
            Some(r) => r,
            None => Vec::new(),
        };
        assert(me.references is None ==> strs_view(references@) =~= Seq::<Seq<char>>::empty());
        Envelope {
            thread_id,
            mailbox_ids: self.mailbox_ids,
            is_unread,
            is_flagged,
            from: map_addresses(self.from),
            to: map_addresses(self.to),
            subject: unwrap_or_empty(self.subject),
            preview: unwrap_or_empty(self.preview),
            received_at: unwrap_or_empty(self.received_at),
            has_attachment: self.has_attachment,
            message_id,
            references,
            verified_domain,
            account_id: account_id.to_owned(),
            id: self.id,
        }
    }
}

/// One of an account's sending identities: its id and address.
#[derive(Debug, Clone, PartialEq, Eq)]
pub struct JmapIdentity {
    pub id: String,
    pub email: String,
}

/// The identity to send as `address`: the first whose address matches,
/// ignoring ASCII case, else the first there is.
pub open spec fn identity_spec(ids: Seq<JmapIdentity>, address: Seq<char>) -> Option<Seq<char>> {
    if exists|i: int| 0 <= i < ids.len() && eq_ic(#[trigger] ids[i].email@, address) {
        let i = choose|i: int|
            0 <= i < ids.len() && eq_ic(#[trigger] ids[i].email@, address) && forall|j: int|
                0 <= j < i ==> !eq_ic(#[trigger] ids[j].email@, address);
        Some(ids[i].id@)
    } else if ids.len() > 0 {
        Some(ids[0].id@)
    } else {
        None
    }
}

/// Picks the identity to send a given address from. The server refuses a
/// submission whose identity does not match its From, so matching on the
/// address rather than taking the first is what makes sending from an alias
/// work.
pub fn identity_for(identities: &Vec<JmapIdentity>, address: &str) -> (r: Result<String, JmapError>)
    ensures
        match r {
            Ok(id) => identity_spec(identities@, address@) == Some(id@),
            Err(e) => identity_spec(identities@, address@) is None && (e matches JmapError::NoIdentity(a)
                && a@ == address@),
        },
{
    let want = chars_of(address);
    let mut i: usize = 0;
    while i < identities.len()
        invariant
            i <= identities.len(),
            want@ == address@,
            forall|j: int| 0 <= j < i ==> !eq_ic(#[trigger] identities@[j].email@, address@),
        decreases identities.len() - i,
    {
        if eq_ignore_case(&chars_of(identities[i].email.as_str()), &want) {
            let ghost k = i as int;
            assert(eq_ic(identities@[k].email@, address@));
            proof {
                let c = choose|c: int|
                    0 <= c < identities@.len() && eq_ic(#[trigger] identities@[c].email@, address@)
                        && forall|j: int|
                        0 <= j < c ==> !eq_ic(#[trigger] identities@[j].email@, address@);
                if c < k {
                } else if c > k {
                    assert(!eq_ic(identities@[k].email@, address@));
                }
            }
            return Ok(identities[i].id.clone());
        }
        i += 1;
    }
    if identities.len() > 0 {
        Ok(identities[0].id.clone())
    } else {
        Err(JmapError::NoIdentity(address.to_owned()))
    }
}

proof fn lemma_first_match(ids: Seq<JmapIdentity>, address: Seq<char>, from: int, i: int) -> (m: int)
    requires
        0 <= from <= i < ids.len(),
        eq_ic(ids[i].email@, address),
        forall|j: int| 0 <= j < from ==> !eq_ic(#[trigger] ids[j].email@, address),
    ensures
        0 <= m <= i,
        eq_ic(ids[m].email@, address),
        forall|j: int| 0 <= j < m ==> !eq_ic(#[trigger] ids[j].email@, address),
    decreases i - from,
{
    if eq_ic(ids[from].email@, address) {
        from
    } else {
        lemma_first_match(ids, address, from + 1, i)
    }
}

/// Sending from an alias works: when any identity has the address being
/// sent from (ignoring ASCII case), the identity chosen is the first such
/// one, never merely the first identity there is.
pub proof fn lemma_identity_matches_alias(ids: Seq<JmapIdentity>, address: Seq<char>, i: int)
    requires
        0 <= i < ids.len(),
        eq_ic(ids[i].email@, address),
    ensures
        exists|m: int|
            0 <= m <= i && eq_ic(ids[m].email@, address) && (forall|j: int|
                0 <= j < m ==> !eq_ic(#[trigger] ids[j].email@, address)) && identity_spec(ids, address)
                == Some(#[trigger] ids[m].id@),
{
    let m = lemma_first_match(ids, address, 0, i);
    let c = choose|c: int|
        0 <= c < ids.len() && eq_ic(#[trigger] ids[c].email@, address) && forall|j: int|
            0 <= j < c ==> !eq_ic(#[trigger] ids[j].email@, address);
    if c < m {
    } else if c > m {
        assert(!eq_ic(ids[m].email@, address));
    }
    assert(identity_spec(ids, address) == Some(ids[m].id@));
}

/// The patch that adds and removes set members by key: `prefix/key` to
/// `true` for each added key, then to null (here `false`) for each removed
/// one, so that a key both added and removed ends removed.
pub open spec fn patch_spec(prefix: Seq<char>, add: Seq<Seq<char>>, remove: Seq<Seq<char>>) -> Seq<
    (Seq<char>, bool),
> {
    add.map_values(|k: Seq<char>| (prefix.push('/') + k, true)) + remove.map_values(
        |k: Seq<char>| (prefix.push('/') + k, false),
    )
}

/// A patch sets `prefix/key` to `true` for each added key, in order, then to
/// null for each removed key, in order, and nothing else; every removal
/// comes after every addition, so a key both added and removed ends removed,
/// and a key only added ends present.
pub proof fn lemma_patch_removals_last(prefix: Seq<char>, add: Seq<Seq<char>>, remove: Seq<Seq<char>>)
    ensures
        patch_spec(prefix, add, remove).len() == add.len() + remove.len(),
        forall|i: int| 0 <= i < add.len() ==> #[trigger] patch_spec(prefix, add, remove)[i] == (
        prefix.push('/') + add[i], true),
        forall|j: int| 0 <= j < remove.len() ==> #[trigger] patch_spec(prefix, add, remove)[add.len()
            + j] == (prefix.push('/') + remove[j], false),
        forall|i: int, j: int|
            0 <= i < j < patch_spec(prefix, add, remove).len() && !(#[trigger] patch_spec(
                prefix,
                add,
                remove,
            )[i]).1 ==> !(#[trigger] patch_spec(prefix, add, remove)[j]).1,
{
    let ps = patch_spec(prefix, add, remove);
    assert forall|i: int, j: int| 0 <= i < j < ps.len() && !(#[trigger] ps[i]).1 implies !(
    #[trigger] ps[j]).1 by {
        if i < add.len() {
            assert(ps[i].1);
        }
        assert(j >= add.len());
        assert(ps[j] == (prefix.push('/') + remove[j - add.len()], false));
    }
}

pub open spec fn patch_view(v: Seq<(String, bool)>) -> Seq<(Seq<char>, bool)> {
    v.map_values(|e: (String, bool)| (e.0@, e.1))
}

fn patch_key(prefix: &str, key: &String) -> (r: String)
    ensures
        r@ == prefix@.push('/') + key@,
{
    let mut v = chars_of(prefix);
    v.push('/');
    let kc = chars_of(key.as_str());
    let ghost start = v@;
    let mut k: usize = 0;
    while k < kc.len()
        invariant
            k <= kc.len(),
            v@ == start + kc@.take(k as int),
        decreases kc.len() - k,
    {
        v.push(kc[k]);
        k += 1;
        assert(v@ =~= start + kc@.take(k as int));
    }
    assert(kc@.take(kc.len() as int) =~= kc@);
    crate::text::string_of(&v)
}

/// Builds a JMAP patch that changes set membership by key, so that two
/// clients changing the same message do not clobber each other's other
/// members. `prefix` is `mailboxIds` or `keywords`.
pub fn patch(prefix: &str, add: &Vec<String>, remove: &Vec<String>) -> (r: Vec<(String, bool)>)
    ensures
        patch_view(r@) == patch_spec(prefix@, strs_view(add@), strs_view(remove@)),
{
    let mut out: Vec<(String, bool)> = Vec::new();
    let mut i: usize = 0;
    while i < add.len()
        invariant
            i <= add.len(),
            patch_view(out@) == strs_view(add@).take(i as int).map_values(
                |k: Seq<char>| (prefix@.push('/') + k, true),
            ),
        decreases add.len() - i,
    {
        let ghost before = patch_view(out@);
        let key = patch_key(prefix, &add[i]);
        out.push((key, true));
        assert(patch_view(out@) =~= before.push((prefix@.push('/') + add@[i as int]@, true)));
        i += 1;
        assert(strs_view(add@).take(i as int).map_values(|k: Seq<char>| (prefix@.push('/') + k, true))
            =~= strs_view(add@).take(i - 1).map_values(
            |k: Seq<char>| (prefix@.push('/') + k, true),
        ).push((prefix@.push('/') + add@[i - 1]@, true)));
    }
    assert(strs_view(add@).take(add.len() as int) =~= strs_view(add@));
    let ghost first = patch_view(out@);
    let mut j: usize = 0;
    while j < remove.len()
        invariant
            j <= remove.len(),
            patch_view(out@) == first + strs_view(remove@).take(j as int).map_values(
                |k: Seq<char>| (prefix@.push('/') + k, false),
            ),
        decreases remove.len() - j,
    {
        let ghost before = patch_view(out@);
        let key = patch_key(prefix, &remove[j]);
        out.push((key, false));
        assert(patch_view(out@) =~= before.push((prefix@.push('/') + remove@[j as int]@, false)));
        j += 1;
        assert(strs_view(remove@).take(j as int).map_values(
            |k: Seq<char>| (prefix@.push('/') + k, false),
        ) =~= strs_view(remove@).take(j - 1).map_values(
            |k: Seq<char>| (prefix@.push('/') + k, false),
        ).push((prefix@.push('/') + remove@[j - 1]@, false)));
    }
    assert(strs_view(remove@).take(remove.len() as int) =~= strs_view(remove@));
    out
}

/// The value of the first listed body part that has a value: parts without
/// an id are skipped, and so are ids with no value.
pub open spec fn pick_spec(parts: Seq<Option<String>>, values: Seq<(Seq<char>, Seq<char>)>) -> Option<
    Seq<char>,
>
    decreases parts.len(),
{
    if parts.len() == 0 {
        None
    } else {
        match parts[0] {
            Some(id) if lookup(values, id@) is Some => lookup(values, id@),
            _ => pick_spec(parts.drop_first(), values),
        }
    }
}

/// Picks the text of a body from its parts and the fetched body values.
pub fn pick_body_value(parts: &Vec<Option<String>>, values: &Vec<(String, String)>) -> (r: Option<
    String,
>)
    ensures
        opt_view(r) == pick_spec(parts@, entries_view(values@)),
{
    let mut i: usize = 0;
    assert(parts@.skip(0) =~= parts@);
    while i < parts.len()
        invariant
            i <= parts.len(),
            pick_spec(parts@, entries_view(values@)) == pick_spec(parts@.skip(i as int), entries_view(values@)),
        decreases parts.len() - i,
    {
        assert(parts@.skip(i as int)[0] == parts@[i as int]);
        assert(parts@.skip(i as int).drop_first() =~= parts@.skip(i + 1));
        match &parts[i] {
            Some(id) => match lookup_exec(values, id.as_str()) {
                Some(v) => {
                    return Some(v.clone());
                },
                None => {},
            },
            None => {},
        }
        i += 1;
    }
    None
}

/// What a send puts in the request beyond the always-present fields: the
/// patch keys that file the message on success, and the optional headers,
/// each present only when it has something in it.
#[derive(Debug, Clone, PartialEq, Eq)]
pub struct SendPlan {
    /// `mailboxIds/<drafts>`: where the message is created, cleared on success.
    pub drafts_key: String,
    /// `mailboxIds/<sent>`: where it is filed on success.
    pub sent_key: String,
    pub cc: Option<Vec<EmailAddress>>,
    pub bcc: Option<Vec<EmailAddress>>,
    /// The message replied to, as a one-element list.
    pub in_reply_to: Option<Vec<String>>,
    pub references: Option<Vec<String>>,
}

fn copy_addresses(v: &Vec<EmailAddress>) -> (r: Vec<EmailAddress>)
    ensures
        addresses_view(r@) == addresses_view(v@),
{
    let mut out: Vec<EmailAddress> = Vec::new();
    let mut i: usize = 0;
    while i < v.len()
        invariant
            i <= v.len(),
            addresses_view(out@) == addresses_view(v@).take(i as int),
        decreases v.len() - i,
    {
        let a = EmailAddress {
            name: match &v[i].name {
                Some(n) => Some(n.clone()),
                None => None,
            },
            email: v[i].email.clone(),
        };
        let ghost before = addresses_view(out@);
        out.push(a);
        assert(addresses_view(out@) =~= before.push(v@[i as int].view()));
        i += 1;
        assert(addresses_view(v@).take(i as int) =~= addresses_view(v@).take(i - 1).push(
            v@[i - 1].view(),
        ));
    }
    assert(addresses_view(v@).take(v.len() as int) =~= addresses_view(v@));
    out
}

fn copy_strings(v: &Vec<String>) -> (r: Vec<String>)
    ensures
        strs_view(r@) == strs_view(v@),
{
    let mut out: Vec<String> = Vec::new();
    let mut i: usize = 0;
    while i < v.len()
        invariant
            i <= v.len(),
            strs_view(out@) == strs_view(v@).take(i as int),
        decreases v.len() - i,
    {
        let ghost before = strs_view(out@);
        out.push(v[i].clone());
        assert(strs_view(out@) =~= before.push(v@[i as int]@));
        i += 1;
        assert(strs_view(v@).take(i as int) =~= strs_view(v@).take(i - 1).push(v@[i - 1]@));
    }
    assert(strs_view(v@).take(v.len() as int) =~= strs_view(v@));
    out
}

fn key(prefix: &str, id: &str) -> (r: String)
    ensures
        r@ == prefix@ + id@,
{
    let mut v = chars_of(prefix);
    let ic = chars_of(id);
    let ghost start = v@;
    let mut k: usize = 0;
    while k < ic.len()
        invariant
            k <= ic.len(),
            v@ == start + ic@.take(k as int),
        decreases ic.len() - k,
    {
        v.push(ic[k]);
        k += 1;
        assert(v@ =~= start + ic@.take(k as int));
    }
    assert(ic@.take(ic.len() as int) =~= ic@);
    crate::text::string_of(&v)
}

/// Whether a `/set` call refused what it was given: a call can succeed and
/// still list objects under `notCreated`, and a rejected send must not look
/// like a sent one. `not_created` is how many entries that object holds, if
/// the response carries one.
pub fn set_refused(not_created: Option<usize>) -> (r: bool)
    ensures
        r == (not_created matches Some(n) && n > 0),
{
    match not_created {
        Some(n) => n > 0,
        None => false,
    }
}

/// Plans the Email/set and EmailSubmission/set of a send. The message is
/// created in Drafts and, only if the submission succeeds, moved to Sent
/// with its draft keyword cleared, so a refused send stays where it can be
/// found. Cc, Bcc and References are written only when not empty.
pub fn send_plan(drafts_mailbox: &str, sent_mailbox: &str, message: &Outgoing) -> (r: SendPlan)
    ensures
        r.drafts_key@ == "mailboxIds/"@ + drafts_mailbox@,
        r.sent_key@ == "mailboxIds/"@ + sent_mailbox@,
        message.cc@.len() == 0 <==> r.cc is None,
        r.cc matches Some(c) ==> addresses_view(c@) == addresses_view(message.cc@),
        message.bcc@.len() == 0 <==> r.bcc is None,
        r.bcc matches Some(b) ==> addresses_view(b@) == addresses_view(message.bcc@),
        match message.in_reply_to {
            Some(p) => r.in_reply_to matches Some(v) && strs_view(v@) == seq![p@],
            None => r.in_reply_to is None,
        },
        message.references@.len() == 0 <==> r.references is None,
        r.references matches Some(refs) ==> strs_view(refs@) == strs_view(message.references@),
{
    let in_reply_to = match &message.in_reply_to {
        Some(p) => {
            let mut v: Vec<String> = Vec::new();
            v.push(p.clone());
            assert(strs_view(v@) =~= seq![p@]);
            Some(v)
        },
        None => None,
    };
    SendPlan {
        drafts_key: key("mailboxIds/", drafts_mailbox),
        sent_key: key("mailboxIds/", sent_mailbox),
        cc: if message.cc.len() > 0 {
            Some(copy_addresses(&message.cc))
        } else {
            None
        },
        bcc: if message.bcc.len() > 0 {
            Some(copy_addresses(&message.bcc))
        } else {
            None
        },
        in_reply_to,
        references: if message.references.len() > 0 {
            Some(copy_strings(&message.references))
        } else {
            None
        },
    }
}

} // verus!
