//! Submission over SMTP, for accounts that read over IMAP.
//!
//! Nothing files the sent copy: SMTP hands the message to a relay and forgets
//! it, so the copy in Sent is appended over IMAP afterwards. And the message is
//! built here, so the bytes submitted and the bytes filed are the same buffer.
//!
//! The connection to the relay is the application's.

use vstd::prelude::*;
use crate::model::{opt_view, strs_view, EmailAddress, Outgoing, EmailAddressView, addresses_view};
use mail_send::mail_builder::MessageBuilder;

verus! {

#[verifier::external_type_specification]
#[verifier::external_body]
pub struct ExMessageBuilder<'x>(mail_send::mail_builder::MessageBuilder<'x>);

/// What sending can refuse.
#[derive(Debug, Clone, PartialEq, Eq)]
pub enum SmtpError {
    /// A message needs at least one recipient.
    NoRecipients,
    /// The message could not be written out.
    Unbuildable,
}

/// Where an account's mail is submitted, and as whom.
pub struct SmtpClient {
    host: String,
    port: u16,
    username: String,
    password: String,
}

impl SmtpClient {
    pub closed spec fn host_view(&self) -> Seq<char> {
        self.host@
    }

    pub closed spec fn port_view(&self) -> u16 {
        self.port
    }

    pub closed spec fn username_view(&self) -> Seq<char> {
        self.username@
    }

    pub closed spec fn password_view(&self) -> Seq<char> {
        self.password@
    }

    pub fn new(host: String, port: u16, username: String, password: String) -> (c: Self)
        ensures
            c.host_view() == host@,
            c.port_view() == port,
            c.username_view() == username@,
            c.password_view() == password@,
    {
        SmtpClient { host, port, username, password }
    }

    pub fn host(&self) -> (r: &str)
        ensures
            r@ == self.host_view(),
    {
        self.host.as_str()
    }

    pub fn port(&self) -> (r: u16)
        ensures
            r == self.port_view(),
    {
        self.port
    }

    pub fn username(&self) -> (r: &str)
        ensures
            r@ == self.username_view(),
    {
        self.username.as_str()
    }

    pub fn password(&self) -> (r: &str)
        ensures
            r@ == self.password_view(),
    {
        self.password.as_str()
    }

    /// 465 is implicit TLS; any other port upgrades with STARTTLS.
    /// Certificate validation stays on either way.
    pub fn implicit_tls(&self) -> (r: bool)
        ensures
            r == (self.port_view() == 465),
    {
        self.port == 465
    }
}

/// A submission needs at least one envelope recipient.
pub fn check_recipients(recipients: &Vec<String>) -> (r: Result<(), SmtpError>)
    ensures
        r is Ok <==> recipients@.len() > 0,
        r matches Err(e) ==> e == SmtpError::NoRecipients,
{
    if recipients.len() == 0 {
        Err(SmtpError::NoRecipients)
    } else {
        Ok(())
    }
}

/// The headers a message is built with, as plain values.
#[derive(Debug, Clone, PartialEq, Eq)]
pub struct ComposePlan {
    pub from_name: String,
    pub from_email: String,
    pub to: Vec<(String, String)>,
    /// Written only when there is anyone to copy.
    pub cc: Option<Vec<(String, String)>>,
    pub subject: String,
    pub text: String,
    pub in_reply_to: Option<String>,
    /// Written only when there is a chain to extend.
    pub references: Option<Vec<String>>,
}

pub open spec fn pair_of(a: EmailAddressView) -> (Seq<char>, Seq<char>) {
    (
        match a.name {
            Some(n) => n,
            None => Seq::<char>::empty(),
        },
        a.email,
    )
}

pub open spec fn pairs_view(v: Seq<(String, String)>) -> Seq<(Seq<char>, Seq<char>)> {
    v.map_values(|p: (String, String)| (p.0@, p.1@))
}

/// Addresses as name and address pairs; no name reads as an empty one.
pub fn address_pairs(list: &Vec<EmailAddress>) -> (r: Vec<(String, String)>)
    ensures
        pairs_view(r@) == addresses_view(list@).map_values(|a: EmailAddressView| pair_of(a)),
{
    let mut out: Vec<(String, String)> = Vec::new();
    let mut i: usize = 0;
    while i < list.len()
        invariant
            i <= list.len(),
            pairs_view(out@) == addresses_view(list@).take(i as int).map_values(
                |a: EmailAddressView| pair_of(a),
            ),
        decreases list.len() - i,
    {
        let a = &list[i];
        let name = match &a.name {
            Some(n) => n.clone(),
            None => String::new(),
        };
        let ghost before = pairs_view(out@);
        let p = (name, a.email.clone());
        out.push(p);
        assert(pairs_view(out@) =~= before.push(pair_of(list@[i as int].view())));
        i += 1;
        assert(addresses_view(list@).take(i as int).map_values(|a: EmailAddressView| pair_of(a))
            =~= addresses_view(list@).take(i - 1).map_values(|a: EmailAddressView| pair_of(a)).push(
            pair_of(list@[i - 1].view()),
        ));
    }
    assert(addresses_view(list@).take(list.len() as int) =~= addresses_view(list@));
    out
}

/// The headers of a message: From, To, Subject and the text always; Cc only
/// when there is someone to copy; In-Reply-To when replying; References only
/// when there is a chain. Bcc never: a Bcc header on the wire is how a blind
/// copy stops being blind. It goes to the relay as an envelope recipient and
/// nowhere else.
pub fn compose_plan(from: &EmailAddress, message: &Outgoing) -> (r: ComposePlan)
    ensures
        (r.from_name@, r.from_email@) == pair_of(from.view()),
        pairs_view(r.to@) == addresses_view(message.to@).map_values(|a: EmailAddressView| pair_of(a)),
        message.cc@.len() == 0 ==> r.cc is None,
        message.cc@.len() > 0 ==> (r.cc matches Some(c) && pairs_view(c@) == addresses_view(
            message.cc@,
        ).map_values(|a: EmailAddressView| pair_of(a))),
        r.subject@ == message.subject@,
        r.text@ == message.text@,
        opt_view(r.in_reply_to) == opt_view(message.in_reply_to),
        message.references@.len() == 0 ==> r.references is None,
        message.references@.len() > 0 ==> (r.references matches Some(refs) && strs_view(refs@)
            == strs_view(message.references@)),
{
    let from_name = match &from.name {
        Some(n) => n.clone(),
        None => String::new(),
    };
    let cc = if message.cc.len() > 0 {
        Some(address_pairs(&message.cc))
    } else {
        None
    };
    let references = if message.references.len() > 0 {
        let mut refs: Vec<String> = Vec::new();
        let mut i: usize = 0;
        while i < message.references.len()
            invariant
                i <= message.references.len(),
                strs_view(refs@) == strs_view(message.references@).take(i as int),
            decreases message.references.len() - i,
        {
            let ghost before = strs_view(refs@);
            refs.push(message.references[i].clone());
            assert(strs_view(refs@) =~= before.push(message.references@[i as int]@));
            i += 1;
            assert(strs_view(message.references@).take(i as int) =~= strs_view(
                message.references@,
            ).take(i - 1).push(message.references@[i - 1]@));
        }
        assert(strs_view(message.references@).take(message.references.len() as int) =~= strs_view(
            message.references@,
        ));
        Some(refs)
    } else {
        None
    };
    ComposePlan {
        from_name,
        from_email: from.email.clone(),
        to: address_pairs(&message.to),
        cc,
        subject: message.subject.clone(),
        text: message.text.clone(),
        in_reply_to: match &message.in_reply_to {
            Some(p) => Some(p.clone()),
            None => None,
        },
        references,
    }
}

/// A header value as the builder holds it.
pub enum HeaderValue {
    /// One mailbox: its display name and its address.
    Mailbox(Seq<char>, Seq<char>),
    /// A list of mailboxes, each a display name and an address.
    Mailboxes(Seq<(Seq<char>, Seq<char>)>),
    /// Unstructured text.
    Text(Seq<char>),
    /// A list of message ids.
    Ids(Seq<Seq<char>>),
}

/// The body a builder has been given.
pub enum BuilderBody {
    /// None at all.
    Empty,
    /// A plain-text body and nothing else.
    Text(Seq<char>),
    /// Something this library never sets: HTML, attachments or raw parts.
    Other,
}

/// The headers a `mail-builder` `MessageBuilder` holds, names and values, in
/// the order they were added.
pub uninterp spec fn builder_headers(b: MessageBuilder<'static>) -> Seq<(Seq<char>, HeaderValue)>;

/// The body a `mail-builder` `MessageBuilder` holds.
pub uninterp spec fn builder_body(b: MessageBuilder<'static>) -> BuilderBody;

/// What `mail-builder` writes for a header value after the header's name
/// and `: ` (the name fixes where folding starts), through to the CRLF that
/// every header value ends with.
pub uninterp spec fn header_value_bytes(name: Seq<char>, value: HeaderValue) -> Seq<u8>;

/// What `mail-builder` writes for a `text/plain` part holding this text:
/// its Content-Type and transfer-encoding headers, a blank line and the
/// encoded text.
pub uninterp spec fn text_part_bytes(text: Seq<char>) -> Seq<u8>;

pub open spec fn from_name() -> Seq<char> {
    seq!['F', 'r', 'o', 'm']
}

pub open spec fn to_name() -> Seq<char> {
    seq!['T', 'o']
}

pub open spec fn cc_name() -> Seq<char> {
    seq!['C', 'c']
}

pub open spec fn subject_name() -> Seq<char> {
    seq!['S', 'u', 'b', 'j', 'e', 'c', 't']
}

pub open spec fn in_reply_to_name() -> Seq<char> {
    seq!['I', 'n', '-', 'R', 'e', 'p', 'l', 'y', '-', 'T', 'o']
}

pub open spec fn references_name() -> Seq<char> {
    seq!['R', 'e', 'f', 'e', 'r', 'e', 'n', 'c', 'e', 's']
}

pub open spec fn bcc_name() -> Seq<char> {
    seq!['B', 'c', 'c']
}

pub open spec fn message_id_name() -> Seq<char> {
    seq!['M', 'e', 's', 's', 'a', 'g', 'e', '-', 'I', 'D']
}

pub open spec fn date_name() -> Seq<char> {
    seq!['D', 'a', 't', 'e']
}

pub open spec fn mime_version_name() -> Seq<char> {
    seq!['M', 'I', 'M', 'E', '-', 'V', 'e', 'r', 's', 'i', 'o', 'n']
}

/// How a header line starts: its name, a colon and a space.
pub open spec fn header_start(name: Seq<char>) -> Seq<u8> {
    vstd::utf8::encode_utf8(name + seq![':', ' '])
}

/// The line that declares MIME 1.0.
pub open spec fn mime_version_line() -> Seq<u8> {
    vstd::utf8::encode_utf8(mime_version_name() + seq![':', ' ', '1', '.', '0', '\r', '\n'])
}

pub open spec fn crlf() -> Seq<u8> {
    seq![13u8, 10u8]
}

/// The header section written for these headers: each as its name, `: `
/// and its value, in order.
pub open spec fn headers_bytes(hs: Seq<(Seq<char>, HeaderValue)>) -> Seq<u8>
    decreases hs.len(),
{
    if hs.len() == 0 {
        Seq::empty()
    } else {
        headers_bytes(hs.drop_last()) + header_start(hs.last().0) + header_value_bytes(
            hs.last().0,
            hs.last().1,
        )
    }
}

/// Whether a header with this name is among these.
pub open spec fn has_header(hs: Seq<(Seq<char>, HeaderValue)>, name: Seq<char>) -> bool {
    exists|i: int| 0 <= i < hs.len() && (#[trigger] hs[i]).0 == name
}

/// What the builder stamps after the headers it was given: a Message-ID
/// and a Date where none was given (with the id and the time of the moment)
/// and `MIME-Version: 1.0` where that was not given.
pub open spec fn stamped_bytes(hs: Seq<(Seq<char>, HeaderValue)>, id: Seq<u8>, date: Seq<u8>) -> Seq<u8> {
    (if has_header(hs, message_id_name()) {
        Seq::empty()
    } else {
        header_start(message_id_name()) + id + crlf()
    }) + (if has_header(hs, date_name()) {
        Seq::empty()
    } else {
        header_start(date_name()) + date + crlf()
    }) + (if has_header(hs, mime_version_name()) {
        Seq::empty()
    } else {
        mime_version_line()
    })
}

/// `MessageBuilder::new` of `mail-builder`: no headers and no body.
#[verifier::external_body]
fn builder_new() -> (r: MessageBuilder<'static>)
    ensures
        builder_headers(r) == Seq::<(Seq<char>, HeaderValue)>::empty(),
        builder_body(r) == BuilderBody::Empty,
{
    MessageBuilder::new()
}

/// `MessageBuilder::from` with a name and address: adds a From header
/// holding that one mailbox.
#[verifier::external_body]
fn builder_from(b: MessageBuilder<'static>, name: String, email: String) -> (r: MessageBuilder<'static>)
    ensures
        builder_headers(r) == builder_headers(b).push((from_name(), HeaderValue::Mailbox(name@, email@))),
        builder_body(r) == builder_body(b),
{
    b.from((name, email))
}

/// `MessageBuilder::to` with a list of names and addresses: adds a To
/// header holding that list.
#[verifier::external_body]
fn builder_to(b: MessageBuilder<'static>, list: Vec<(String, String)>) -> (r: MessageBuilder<'static>)
    ensures
        builder_headers(r) == builder_headers(b).push((to_name(), HeaderValue::Mailboxes(pairs_view(list@)))),
        builder_body(r) == builder_body(b),
{
    b.to(list)
}

/// `MessageBuilder::cc` with a list of names and addresses: adds a Cc
/// header holding that list.
#[verifier::external_body]
fn builder_cc(b: MessageBuilder<'static>, list: Vec<(String, String)>) -> (r: MessageBuilder<'static>)
    ensures
        builder_headers(r) == builder_headers(b).push((cc_name(), HeaderValue::Mailboxes(pairs_view(list@)))),
        builder_body(r) == builder_body(b),
{
    b.cc(list)
}

/// `MessageBuilder::subject`: adds a Subject header holding the text.
#[verifier::external_body]
fn builder_subject(b: MessageBuilder<'static>, subject: String) -> (r: MessageBuilder<'static>)
    ensures
        builder_headers(r) == builder_headers(b).push((subject_name(), HeaderValue::Text(subject@))),
        builder_body(r) == builder_body(b),
{
    b.subject(subject)
}

/// `MessageBuilder::text_body`: sets the plain-text body, adding no header.
#[verifier::external_body]
fn builder_text_body(b: MessageBuilder<'static>, text: String) -> (r: MessageBuilder<'static>)
    ensures
        builder_headers(r) == builder_headers(b),
        builder_body(r) == match builder_body(b) {
            BuilderBody::Other => BuilderBody::Other,
            _ => BuilderBody::Text(text@),
        },
{
    b.text_body(text)
}

/// `MessageBuilder::in_reply_to`: adds an In-Reply-To header holding the
/// one id.
#[verifier::external_body]
fn builder_in_reply_to(b: MessageBuilder<'static>, parent: String) -> (r: MessageBuilder<'static>)
    ensures
        builder_headers(r) == builder_headers(b).push((in_reply_to_name(), HeaderValue::Ids(seq![parent@]))),
        builder_body(r) == builder_body(b),
{
    b.in_reply_to(parent)
}

/// `MessageBuilder::references`: adds a References header holding the ids.
#[verifier::external_body]
fn builder_references(b: MessageBuilder<'static>, refs: Vec<String>) -> (r: MessageBuilder<'static>)
    ensures
        builder_headers(r) == builder_headers(b).push((references_name(), HeaderValue::Ids(strs_view(refs@)))),
        builder_body(r) == builder_body(b),
{
    b.references(refs)
}

/// `MessageBuilder::write_to_vec`, which writes into a fresh `Vec` and always
/// succeeds: the headers in the order they were added, then what it stamps
/// (the Message-ID and Date of the moment, which is why those two values
/// are left open), then the body; a builder with no body gets a `text/plain`
/// part holding a single newline.
#[verifier::external_body]
fn builder_write(b: MessageBuilder<'static>) -> (r: Option<Vec<u8>>)
    ensures
        r is Some,
        r matches Some(m) ==> exists|id: Seq<u8>, date: Seq<u8>, body: Seq<u8>|
            m@ == #[trigger] headers_bytes(builder_headers(b)) + stamped_bytes(builder_headers(b), id, date) + body
                && (builder_body(b) == BuilderBody::Empty ==> body == text_part_bytes(seq!['\n']))
                && (builder_body(b) matches BuilderBody::Text(t) ==> body == text_part_bytes(t)),
        r is Some ==> forall|i: int|
            0 <= i < builder_headers(b).len() ==> #[trigger] header_value_bytes(
                builder_headers(b)[i].0,
                builder_headers(b)[i].1,
            ).len() >= 2,
{
    b.write_to_vec().ok()
}

/// The headers a message is written with, in order: From, To and Subject;
/// Cc when there is someone to copy; In-Reply-To when replying; References
/// when there is a chain. Nothing else, so never a Bcc.
pub open spec fn message_headers(
    from: (Seq<char>, Seq<char>),
    to: Seq<(Seq<char>, Seq<char>)>,
    cc: Option<Seq<(Seq<char>, Seq<char>)>>,
    subject: Seq<char>,
    in_reply_to: Option<Seq<char>>,
    references: Option<Seq<Seq<char>>>,
) -> Seq<(Seq<char>, HeaderValue)> {
    seq![
        (from_name(), HeaderValue::Mailbox(from.0, from.1)),
        (to_name(), HeaderValue::Mailboxes(to)),
        (subject_name(), HeaderValue::Text(subject)),
    ] + (match cc {
        Some(c) => seq![(cc_name(), HeaderValue::Mailboxes(c))],
        None => Seq::empty(),
    }) + (match in_reply_to {
        Some(p) => seq![(in_reply_to_name(), HeaderValue::Ids(seq![p]))],
        None => Seq::empty(),
    }) + (match references {
        Some(refs) => seq![(references_name(), HeaderValue::Ids(refs))],
        None => Seq::empty(),
    })
}

/// A whole message: its headers, the Message-ID and Date of the moment,
/// `MIME-Version: 1.0`, and the text as a `text/plain` part.
pub open spec fn message_bytes(
    headers: Seq<(Seq<char>, HeaderValue)>,
    id: Seq<u8>,
    date: Seq<u8>,
    text: Seq<char>,
) -> Seq<u8> {
    headers_bytes(headers) + header_start(message_id_name()) + id + crlf() + header_start(date_name())
        + date + crlf() + mime_version_line() + text_part_bytes(text)
}

pub open spec fn opt_pairs(o: Option<Vec<(String, String)>>) -> Option<Seq<(Seq<char>, Seq<char>)>> {
    match o {
        Some(v) => Some(pairs_view(v@)),
        None => None,
    }
}

pub open spec fn opt_strs(o: Option<Vec<String>>) -> Option<Seq<Seq<char>>> {
    match o {
        Some(v) => Some(strs_view(v@)),
        None => None,
    }
}

/// The headers a plan writes.
pub open spec fn plan_headers(plan: ComposePlan) -> Seq<(Seq<char>, HeaderValue)> {
    message_headers(
        (plan.from_name@, plan.from_email@),
        pairs_view(plan.to@),
        opt_pairs(plan.cc),
        plan.subject@,
        opt_view(plan.in_reply_to),
        opt_strs(plan.references),
    )
}

/// A message's headers are exactly From, To, Subject and the optional Cc,
/// In-Reply-To and References, in that order; in particular none is a Bcc,
/// and none is one the builder stamps itself.
pub proof fn lemma_message_header_names(
    from: (Seq<char>, Seq<char>),
    to: Seq<(Seq<char>, Seq<char>)>,
    cc: Option<Seq<(Seq<char>, Seq<char>)>>,
    subject: Seq<char>,
    in_reply_to: Option<Seq<char>>,
    references: Option<Seq<Seq<char>>>,
)
    ensures
        ({
            let hs = message_headers(from, to, cc, subject, in_reply_to, references);
            &&& hs.len() == 3 + (if cc is Some { 1int } else { 0 }) + (if in_reply_to is Some { 1int } else { 0 })
                + (if references is Some { 1int } else { 0 })
            &&& hs[0].0 == from_name() && hs[1].0 == to_name() && hs[2].0 == subject_name()
            &&& forall|i: int| 0 <= i < hs.len() ==> {
                let n = (#[trigger] hs[i]).0;
                &&& n == from_name() || n == to_name() || n == subject_name() || n == cc_name()
                    || n == in_reply_to_name() || n == references_name()
                &&& n != bcc_name()
                &&& n != message_id_name() && n != date_name() && n != mime_version_name()
            }
            &&& (cc is Some <==> has_header(hs, cc_name()))
            &&& (in_reply_to is Some <==> has_header(hs, in_reply_to_name()))
            &&& (references is Some <==> has_header(hs, references_name()))
        }),
{
    let hs = message_headers(from, to, cc, subject, in_reply_to, references);
    let a = seq![
        (from_name(), HeaderValue::Mailbox(from.0, from.1)),
        (to_name(), HeaderValue::Mailboxes(to)),
        (subject_name(), HeaderValue::Text(subject)),
    ];
    let c: Seq<(Seq<char>, HeaderValue)> = match cc {
        Some(x) => seq![(cc_name(), HeaderValue::Mailboxes(x))],
        None => Seq::empty(),
    };
    let d: Seq<(Seq<char>, HeaderValue)> = match in_reply_to {
        Some(p) => seq![(in_reply_to_name(), HeaderValue::Ids(seq![p]))],
        None => Seq::empty(),
    };
    let e: Seq<(Seq<char>, HeaderValue)> = match references {
        Some(refs) => seq![(references_name(), HeaderValue::Ids(refs))],
        None => Seq::empty(),
    };
    assert(hs == a + c + d + e);
    assert forall|i: int| 0 <= i < hs.len() implies {
        let n = (#[trigger] hs[i]).0;
        &&& n == from_name() || n == to_name() || n == subject_name() || n == cc_name()
            || n == in_reply_to_name() || n == references_name()
        &&& n != bcc_name()
        &&& n != message_id_name() && n != date_name() && n != mime_version_name()
    } by {
        let n = hs[i].0;
        if i < 3 {
            assert(hs[i] == a[i]);
        } else if i < 3 + c.len() {
            assert(hs[i] == c[i - 3]);
        } else if i < 3 + c.len() + d.len() {
            assert(hs[i] == d[i - 3 - c.len()]);
        } else {
            assert(hs[i] == e[i - 3 - c.len() - d.len()]);
        }
        assert(n.len() != bcc_name().len() || n[0] != bcc_name()[0] || n[1] != bcc_name()[1]);
        assert(n.len() != message_id_name().len() || n[0] != message_id_name()[0]);
        assert(n.len() != date_name().len() || n[0] != date_name()[0]);
        assert(n.len() != mime_version_name().len());
    }
    if cc is Some {
        assert(hs[3] == c[0]);
    } else {
        assert forall|i: int| 0 <= i < hs.len() implies (#[trigger] hs[i]).0 != cc_name() by {
            let n = hs[i].0;
            assert(n.len() != cc_name().len() || n[0] != cc_name()[0]);
        }
    }
    if in_reply_to is Some {
        let k = (3 + c.len()) as int;
        assert(hs[k] == d[0]);
    } else {
        assert forall|i: int| 0 <= i < hs.len() implies (#[trigger] hs[i]).0 != in_reply_to_name() by {
            let n = hs[i].0;
            assert(n.len() != in_reply_to_name().len());
        }
    }
    if references is Some {
        let k = (3 + c.len() + d.len()) as int;
        assert(hs[k] == e[0]);
    } else {
        assert forall|i: int| 0 <= i < hs.len() implies (#[trigger] hs[i]).0 != references_name() by {
            let n = hs[i].0;
            assert(n.len() != references_name().len() || n[0] != references_name()[0]);
        }
    }
}

proof fn lemma_plan_is_not_stamped(plan: ComposePlan)
    ensures
        !has_header(plan_headers(plan), message_id_name()),
        !has_header(plan_headers(plan), date_name()),
        !has_header(plan_headers(plan), mime_version_name()),
{
    lemma_message_header_names(
        (plan.from_name@, plan.from_email@),
        pairs_view(plan.to@),
        opt_pairs(plan.cc),
        plan.subject@,
        opt_view(plan.in_reply_to),
        opt_strs(plan.references),
    );
}

proof fn lemma_written_bytes(
    hs: Seq<(Seq<char>, HeaderValue)>,
    id: Seq<u8>,
    date: Seq<u8>,
    body: Seq<u8>,
    text: Seq<char>,
)
    requires
        !has_header(hs, message_id_name()),
        !has_header(hs, date_name()),
        !has_header(hs, mime_version_name()),
        body == text_part_bytes(text),
    ensures
        headers_bytes(hs) + stamped_bytes(hs, id, date) + body == message_bytes(hs, id, date, text),
{
    assert(headers_bytes(hs) + stamped_bytes(hs, id, date) + body =~= message_bytes(hs, id, date, text));
}

/// Writes out the message a plan describes. Writing into memory cannot fail.
pub fn build(plan: ComposePlan) -> (r: Result<Vec<u8>, SmtpError>)
    ensures
        r is Ok,
        r matches Ok(m) ==> exists|id: Seq<u8>, date: Seq<u8>|
            m@ == #[trigger] message_bytes(plan_headers(plan), id, date, plan.text@),
{
    let ghost p = plan;
    let mut b = builder_new();
    b = builder_from(b, plan.from_name, plan.from_email);
    b = builder_to(b, plan.to);
    b = builder_subject(b, plan.subject);
    b = builder_text_body(b, plan.text);
    let ghost n0 = builder_headers(b);
    match plan.cc {
        Some(cc) => {
            b = builder_cc(b, cc);
        },
        None => {},
    }
    let ghost n1 = builder_headers(b);
    match plan.in_reply_to {
        Some(parent) => {
            b = builder_in_reply_to(b, parent);
        },
        None => {},
    }
    let ghost n2 = builder_headers(b);
    match plan.references {
        Some(refs) => {
            b = builder_references(b, refs);
        },
        None => {},
    }
    proof {
        let c: Seq<(Seq<char>, HeaderValue)> = match opt_pairs(p.cc) {
            Some(x) => seq![(cc_name(), HeaderValue::Mailboxes(x))],
            None => Seq::empty(),
        };
        let d: Seq<(Seq<char>, HeaderValue)> = match opt_view(p.in_reply_to) {
            Some(x) => seq![(in_reply_to_name(), HeaderValue::Ids(seq![x]))],
            None => Seq::empty(),
        };
        let e: Seq<(Seq<char>, HeaderValue)> = match opt_strs(p.references) {
            Some(x) => seq![(references_name(), HeaderValue::Ids(x))],
            None => Seq::empty(),
        };
        assert(n1 =~= n0 + c);
        assert(n2 =~= n1 + d);
        assert(builder_headers(b) =~= n2 + e);
        assert(builder_headers(b) =~= plan_headers(p));
        lemma_plan_is_not_stamped(p);
    }
    let ghost gb = b;
    assert(builder_body(gb) == BuilderBody::Text(p.text@));
    match builder_write(b) {
        Some(bytes) => {
            proof {
                let hs = builder_headers(gb);
                let (id, date, body) = choose|id: Seq<u8>, date: Seq<u8>, body: Seq<u8>|
                    bytes@ == #[trigger] headers_bytes(hs) + stamped_bytes(hs, id, date) + body
                        && (builder_body(gb) == BuilderBody::Empty ==> body == text_part_bytes(seq!['\n']))
                        && (builder_body(gb) matches BuilderBody::Text(t) ==> body == text_part_bytes(t));
                lemma_written_bytes(hs, id, date, body, p.text@);
                assert(bytes@ == message_bytes(plan_headers(p), id, date, p.text@));
            }
            Ok(bytes)
        },
        None => Err(SmtpError::Unbuildable),
    }
}

/// The headers a message is sent with: From the sender, To, Subject and
/// the text always; Cc only when there is someone to copy; In-Reply-To when
/// replying; References only when there is a chain. Bcc never.
pub open spec fn outgoing_headers(from: EmailAddressView, message: Outgoing) -> Seq<(Seq<char>, HeaderValue)> {
    message_headers(
        pair_of(from),
        addresses_view(message.to@).map_values(|a: EmailAddressView| pair_of(a)),
        if message.cc@.len() > 0 {
            Some(addresses_view(message.cc@).map_values(|a: EmailAddressView| pair_of(a)))
        } else {
            None
        },
        message.subject@,
        opt_view(message.in_reply_to),
        if message.references@.len() > 0 {
            Some(strs_view(message.references@))
        } else {
            None
        },
    )
}

impl SmtpClient {
    /// Builds the RFC 5322 message this account would send, once, so the
    /// identical bytes can be appended to Sent: a different Date or
    /// Message-ID is enough to break threading against your own replies.
    pub fn compose(&self, from: &EmailAddress, message: &Outgoing) -> (r: Result<Vec<u8>, SmtpError>)
        ensures
            r is Ok,
            r matches Ok(m) ==> exists|id: Seq<u8>, date: Seq<u8>|
                m@ == #[trigger] message_bytes(outgoing_headers(from.view(), *message), id, date, message.text@),
    {
        let plan = compose_plan(from, message);
        let ghost p = plan;
        proof {
            assert(plan_headers(p) =~= outgoing_headers(from.view(), *message));
        }
        build(plan)
    }
}

} // verus!
