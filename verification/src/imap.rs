//! IMAP, for the providers that offer nothing better.
//!
//! This is the lossy adapter. JMAP hands us threads, previews, state tokens and
//! a mailbox set per message; IMAP hands us a per-mailbox sequence of UIDs and
//! leaves the rest to us. Everything here projects that into the same
//! canonical model the JMAP path produces, so nothing above this module has to
//! know which backend an account came from.
//!
//! - **UIDs are per-mailbox and not stable forever.** They are only meaningful
//!   alongside the mailbox and its `UIDVALIDITY`, so the id we synthesise
//!   carries all three.
//! - **There is no preview.** JMAP gives one free; here a slice of the body
//!   text is flattened into one.
//! - **There is no threading.** Every message is its own thread.
//!
//! The session itself (TLS, login, the fetch stream) is the application's; what
//! it reads off the wire is handed here as plain values.

use vstd::prelude::*;
use crate::model::{
    Mailbox, MailboxView, mailboxes_view, opt_view, EmailAddress, EmailAddressView,
    addresses_view, Envelope, EnvelopeView, strs_view, envelopes_view, EmailBody,
};
use crate::text::{
    chars_eq, chars_of, eq_ic, eq_ignore_case, lower_chars, lower_seq, parse_u32,
    parse_u32_spec, split_chars, split_on, string_of, u32_to_decimal, decimal, views,
    lemma_split_nonempty, lemma_decimal_digits, lemma_parse_decimal, is_digit, from_utf8_lossy,
    lemma_split_without_sep, lemma_split_concat,
    utf8_lossy, words, join_with, split_words, join_chars, slice_chars, starts_with, trim,
    trim_chars, from_utf8,
};

verus! {

/// The iCloud IMAP endpoint.
pub const ICLOUD_HOST: &'static str = "imap.mail.me.com";

pub const ICLOUD_PORT: u16 = 993;

/// What the IMAP adapter can refuse.
#[derive(Debug, Clone, PartialEq, Eq)]
pub enum ImapError {
    /// The id did not come from `message_id`: it has no UID part.
    NotAMessageId(String),
    /// The server returned no body for the message with this id.
    NoBody(String),
    /// What the server returned for this id is not a message mail-parser
    /// can read.
    Unparseable(String),
}

/// Where an account's mail is read from, and as whom.
pub struct ImapClient {
    host: String,
    port: u16,
    username: String,
    password: String,
}

impl ImapClient {
    pub closed spec fn host_view(&self) -> Seq<char> {
        self.host@
    }

    pub closed spec fn port_view(&self) -> u16 {
        self.port
    }

    pub closed spec fn username_view(&self) -> Seq<char> {
        self.username@
    }

    pub closed spec fn password_view(&self) -> Seq<char> {
        self.password@
    }

    pub fn new(host: String, port: u16, username: String, password: String) -> (c: Self)
        ensures
            c.host_view() == host@,
            c.port_view() == port,
            c.username_view() == username@,
            c.password_view() == password@,
    {
        ImapClient { host, port, username, password }
    }

    pub fn host(&self) -> (r: &str)
        ensures
            r@ == self.host_view(),
    {
        self.host.as_str()
    }

    pub fn port(&self) -> (r: u16)
        ensures
            r == self.port_view(),
    {
        self.port
    }

    pub fn username(&self) -> (r: &str)
        ensures
            r@ == self.username_view(),
    {
        self.username.as_str()
    }

    pub fn password(&self) -> (r: &str)
        ensures
            r@ == self.password_view(),
    {
        self.password.as_str()
    }
}

/// The separator inside a message id: a control character, because it cannot
/// appear in a mailbox name.
pub open spec fn id_sep() -> char {
    '\u{1}'
}

/// `mailbox`, the separator, `UIDVALIDITY` in decimal, the separator, the UID
/// in decimal.
pub open spec fn message_id_spec(mailbox: Seq<char>, uid_validity: u32, uid: u32) -> Seq<char> {
    mailbox.push(id_sep()) + decimal(uid_validity as nat).push(id_sep()) + decimal(uid as nat)
}

/// What `parse_message_id` reads: the first piece is the mailbox, the second
/// the validity (0 where it is missing or not a number), the third the UID,
/// which must be there and be a number.
pub open spec fn parse_message_id_spec(id: Seq<char>) -> Option<(Seq<char>, u32, u32)> {
    let parts = split_on(id, id_sep());
    let validity: u32 = if parts.len() > 1 && parse_u32_spec(parts[1]) is Some {
        parse_u32_spec(parts[1])->0
    } else {
        0
    };
    if parts.len() > 2 && parse_u32_spec(parts[2]) is Some {
        Some((parts[0], validity, parse_u32_spec(parts[2])->0))
    } else {
        None
    }
}

fn append_all(out: &mut Vec<char>, v: &Vec<char>)
    ensures
        final(out)@ == old(out)@ + v@,
{
    let ghost start = out@;
    let mut k: usize = 0;
    while k < v.len()
        invariant
            k <= v.len(),
            out@ == start + v@.take(k as int),
        decreases v.len() - k,
    {
        out.push(v[k]);
        k += 1;
        assert(out@ =~= start + v@.take(k as int));
    }
    assert(v@.take(v.len() as int) =~= v@);
}

/// `mailbox\u{1}uidvalidity\u{1}uid`.
///
/// UIDs mean nothing without the mailbox and its validity, so all three travel
/// together.
pub fn message_id(mailbox: &str, uid_validity: u32, uid: u32) -> (r: String)
    ensures
        r@ == message_id_spec(mailbox@, uid_validity, uid),
{
    let mut out = chars_of(mailbox);
    out.push('\u{1}');
    append_all(&mut out, &u32_to_decimal(uid_validity));
    out.push('\u{1}');
    append_all(&mut out, &u32_to_decimal(uid));
    assert(out@ =~= message_id_spec(mailbox@, uid_validity, uid));
    string_of(&out)
}

/// Reads back a message id into its mailbox, validity and UID.
pub fn parse_message_id(id: &str) -> (r: Result<(String, u32, u32), ImapError>)
    ensures
        r matches Ok(t) ==> parse_message_id_spec(id@) == Some((t.0@, t.1, t.2)),
        r is Err <==> parse_message_id_spec(id@) is None,
        r matches Err(ImapError::NotAMessageId(s)) ==> s@ == id@,
{
    let parts = split_chars(&chars_of(id), '\u{1}');
    proof {
        lemma_split_nonempty(id@, id_sep());
    }
    let ghost ps = views(parts@);
    assert(parts@[0]@ == ps[0]);
    let validity: u32 = if parts.len() > 1 {
        assert(parts@[1]@ == ps[1]);
        match parse_u32(&parts[1]) {
            Some(v) => v,
            None => 0,
        }
    } else {
        0
    };
    if parts.len() > 2 {
        assert(parts@[2]@ == ps[2]);
        match parse_u32(&parts[2]) {
            Some(uid) => {
                return Ok((string_of(&parts[0]), validity, uid));
            },
            None => {},
        }
    }
    Err(ImapError::NotAMessageId(id.to_owned()))
}

/// A piece with no separator in it splits into itself.
proof fn lemma_decimal_has_no_sep(n: nat)
    ensures
        !decimal(n).contains(id_sep()),
{
    lemma_decimal_digits(n);
    if decimal(n).contains(id_sep()) {
        let k = choose|k: int| 0 <= k < decimal(n).len() && decimal(n)[k] == id_sep();
        assert(is_digit(decimal(n)[k]));
    }
}

/// Reading back an id gives what it was made from, for every mailbox whose
/// name does not hold the separator.
pub proof fn lemma_message_id_round_trip(mailbox: Seq<char>, uid_validity: u32, uid: u32)
    requires
        !mailbox.contains(id_sep()),
    ensures
        parse_message_id_spec(message_id_spec(mailbox, uid_validity, uid)) == Some(
            (mailbox, uid_validity, uid),
        ),
{
    let dv = decimal(uid_validity as nat);
    let du = decimal(uid as nat);
    lemma_decimal_has_no_sep(uid_validity as nat);
    lemma_decimal_has_no_sep(uid as nat);
    lemma_split_without_sep(mailbox, id_sep());
    lemma_split_without_sep(dv, id_sep());
    lemma_split_without_sep(du, id_sep());
    lemma_split_concat(mailbox, dv, id_sep());
    lemma_split_concat(mailbox.push(id_sep()) + dv, du, id_sep());
    assert(message_id_spec(mailbox, uid_validity, uid) =~= (mailbox.push(id_sep()) + dv).push(
        id_sep(),
    ) + du);
    let parts = split_on(message_id_spec(mailbox, uid_validity, uid), id_sep());
    assert(parts =~= seq![mailbox, dv, du]);
    lemma_parse_decimal(uid_validity);
    lemma_parse_decimal(uid);
}

/// The IMAP flag a JMAP keyword stands for.
pub open spec fn imap_flag_spec(keyword: Seq<char>) -> Option<Seq<char>> {
    if keyword == "$seen"@ {
        Some("\\Seen"@)
    } else if keyword == "$flagged"@ {
        Some("\\Flagged"@)
    } else if keyword == "$answered"@ {
        Some("\\Answered"@)
    } else if keyword == "$draft"@ {
        Some("\\Draft"@)
    } else {
        None
    }
}

fn is_literal(v: &Vec<char>, lit: &str) -> (r: bool)
    ensures
        r == (v@ == lit@),
{
    chars_eq(v, &chars_of(lit))
}

/// Translates a JMAP keyword into IMAP's backslash flag; keywords IMAP has
/// no flag for give `None`.
pub fn imap_flag(keyword: &str) -> (r: Option<&'static str>)
    ensures
        r matches Some(f) ==> imap_flag_spec(keyword@) == Some(f@),
        r is None <==> imap_flag_spec(keyword@) is None,
{
    let k = chars_of(keyword);
    if is_literal(&k, "$seen") {
        Some("\\Seen")
    } else if is_literal(&k, "$flagged") {
        Some("\\Flagged")
    } else if is_literal(&k, "$answered") {
        Some("\\Answered")
    } else if is_literal(&k, "$draft") {
        Some("\\Draft")
    } else {
        None
    }
}

/// The last piece of `s` after a `/` or a `.`, or all of it.
pub open spec fn after_last_sep(s: Seq<char>) -> Seq<char>
    decreases s.len(),
{
    if s.len() == 0 {
        s
    } else if s.last() == '/' || s.last() == '.' {
        Seq::<char>::empty()
    } else {
        after_last_sep(s.drop_last()).push(s.last())
    }
}

/// The role a folder's leaf name suggests.
pub open spec fn role_of_leaf(leaf: Seq<char>) -> Option<Seq<char>> {
    if leaf == "inbox"@ {
        Some("inbox"@)
    } else if leaf == "archive"@ {
        Some("archive"@)
    } else if leaf == "sent"@ || leaf == "sent messages"@ || leaf == "sent items"@ {
        Some("sent"@)
    } else if leaf == "drafts"@ {
        Some("drafts"@)
    } else if leaf == "trash"@ || leaf == "deleted messages"@ {
        Some("trash"@)
    } else if leaf == "junk"@ || leaf == "spam"@ || leaf == "junk email"@ {
        Some("junk"@)
    } else {
        None
    }
}

/// The role a mailbox's path suggests: its last segment, lowercased, read
/// against the usual folder names.
pub open spec fn role_from_name_spec(path: Seq<char>) -> Option<Seq<char>> {
    role_of_leaf(after_last_sep(lower_seq(path)))
}

/// No `/` or `.` in `s`.
pub open spec fn no_separator(s: Seq<char>) -> bool {
    forall|i: int| 0 <= i < s.len() ==> (#[trigger] s[i]) != '/' && s[i] != '.'
}

proof fn lemma_after_last_sep_of_leaf(head: Seq<char>, leaf: Seq<char>)
    requires
        no_separator(leaf),
        head.len() == 0 || head.last() == '/' || head.last() == '.',
    ensures
        after_last_sep(head + leaf) == leaf,
    decreases leaf.len(),
{
    if leaf.len() == 0 {
        assert(head + leaf =~= head);
        if head.len() > 0 {
            assert(after_last_sep(head) == Seq::<char>::empty());
        }
    } else {
        let init = leaf.drop_last();
        assert(no_separator(init)) by {
            assert forall|i: int| 0 <= i < init.len() implies (#[trigger] init[i]) != '/' && init[i] != '.' by {
                assert(init[i] == leaf[i]);
            }
        }
        lemma_after_last_sep_of_leaf(head, init);
        assert((head + leaf).drop_last() =~= head + init);
        assert((head + leaf).last() == leaf.last());
        assert(leaf.last() == leaf[leaf.len() - 1]);
        assert(init.push(leaf.last()) =~= leaf);
    }
}

proof fn lemma_lower_keeps_separators(s: Seq<char>)
    ensures
        no_separator(s) ==> no_separator(lower_seq(s)),
        forall|i: int| 0 <= i < s.len() && (s[i] == '/' || s[i] == '.') ==> #[trigger] lower_seq(s)[i] == s[i],
{
    assert forall|i: int| 0 <= i < s.len() implies {
        let c = s[i];
        let l = #[trigger] lower_seq(s)[i];
        (l == '/' || l == '.') <==> (c == '/' || c == '.')
    } by {
        let c = s[i];
        if 'A' <= c && c <= 'Z' {
            assert(crate::text::lower(c) as u32 == c as u32 + 32);
        }
    }
}

/// The name fallback reads only the last segment of a path, whatever comes
/// before it and whichever of `/` and `.` separates them, in any case: a
/// folder named `Inbox`, `Archive`, `Sent` (or `Sent Messages`, `Sent
/// Items`), `Drafts`, `Trash` (or `Deleted Messages`) or `Junk` (or `Spam`,
/// `Junk Email`) gets that role, and any other name none.
pub proof fn lemma_role_from_last_segment(parent: Seq<char>, sep: char, leaf: Seq<char>)
    requires
        sep == '/' || sep == '.',
        no_separator(leaf),
    ensures
        role_from_name_spec(parent.push(sep) + leaf) == role_from_name_spec(leaf),
        ({
            let l = lower_seq(leaf);
            let r = role_from_name_spec(leaf);
            &&& l == "inbox"@ ==> r == Some("inbox"@)
            &&& l == "archive"@ ==> r == Some("archive"@)
            &&& (l == "sent"@ || l == "sent messages"@ || l == "sent items"@) ==> r == Some("sent"@)
            &&& l == "drafts"@ ==> r == Some("drafts"@)
            &&& (l == "trash"@ || l == "deleted messages"@) ==> r == Some("trash"@)
            &&& (l == "junk"@ || l == "spam"@ || l == "junk email"@) ==> r == Some("junk"@)
            &&& (r is Some ==> (l == "inbox"@ || l == "archive"@ || l == "sent"@ || l
                == "sent messages"@ || l == "sent items"@ || l == "drafts"@ || l == "trash"@ || l
                == "deleted messages"@ || l == "junk"@ || l == "spam"@ || l == "junk email"@))
        }),
{
    reveal_strlit("inbox");
    reveal_strlit("archive");
    reveal_strlit("sent");
    reveal_strlit("sent messages");
    reveal_strlit("sent items");
    reveal_strlit("drafts");
    reveal_strlit("trash");
    reveal_strlit("deleted messages");
    reveal_strlit("junk");
    reveal_strlit("spam");
    reveal_strlit("junk email");
    let path = parent.push(sep) + leaf;
    lemma_lower_keeps_separators(leaf);
    lemma_lower_keeps_separators(path);
    let lp = lower_seq(path);
    let head = lower_seq(parent.push(sep));
    assert(lp =~= head + lower_seq(leaf));
    assert(parent.push(sep)[parent.len() as int] == sep);
    assert(head.last() == lp[parent.len() as int]);
    assert(path[parent.len() as int] == sep);
    lemma_after_last_sep_of_leaf(head, lower_seq(leaf));
    lemma_after_last_sep_of_leaf(Seq::<char>::empty(), lower_seq(leaf));
    assert(Seq::<char>::empty() + lower_seq(leaf) =~= lower_seq(leaf));
}

fn after_last_sep_exec(v: &Vec<char>) -> (r: Vec<char>)
    ensures
        r@ == after_last_sep(v@),
{
    let mut cur: Vec<char> = Vec::new();
    let mut i: usize = 0;
    while i < v.len()
        invariant
            i <= v.len(),
            cur@ == after_last_sep(v@.take(i as int)),
        decreases v.len() - i,
    {
        assert(v@.take(i + 1).drop_last() =~= v@.take(i as int));
        assert(v@.take(i + 1).last() == v@[i as int]);
        if v[i] == '/' || v[i] == '.' {
            cur = Vec::new();
            assert(cur@ =~= Seq::<char>::empty());
        } else {
            cur.push(v[i]);
        }
        i += 1;
    }
    assert(v@.take(v.len() as int) =~= v@);
    cur
}

fn owned(lit: &str) -> (r: Option<String>)
    ensures
        r matches Some(s) && s@ == lit@,
{
    Some(lit.to_owned())
}

/// A guess from the name, for servers that advertise no SPECIAL-USE at all.
/// Only trusted when the role has not already been claimed by a declaration.
pub fn role_from_name(path: &str) -> (r: Option<String>)
    ensures
        r matches Some(s) ==> role_from_name_spec(path@) == Some(s@),
        r is None <==> role_from_name_spec(path@) is None,
{
    let lower = lower_chars(&chars_of(path));
    let leaf = after_last_sep_exec(&lower);
    if is_literal(&leaf, "inbox") {
        owned("inbox")
    } else if is_literal(&leaf, "archive") {
        owned("archive")
    } else if is_literal(&leaf, "sent") || is_literal(&leaf, "sent messages") || is_literal(
        &leaf,
        "sent items",
    ) {
        owned("sent")
    } else if is_literal(&leaf, "drafts") {
        owned("drafts")
    } else if is_literal(&leaf, "trash") || is_literal(&leaf, "deleted messages") {
        owned("trash")
    } else if is_literal(&leaf, "junk") || is_literal(&leaf, "spam") || is_literal(
        &leaf,
        "junk email",
    ) {
        owned("junk")
    } else {
        None
    }
}

/// `d` occurs in `s` at `k`.
pub open spec fn occurs_at(s: Seq<char>, d: Seq<char>, k: int) -> bool {
    0 <= k && k + d.len() <= s.len() && s.subrange(k, k + d.len()) == d
}

/// The greatest position below `n` where `d` occurs in `s`.
pub open spec fn last_occurrence_below(s: Seq<char>, d: Seq<char>, n: int) -> Option<int>
    decreases n,
{
    if n <= 0 {
        None
    } else if occurs_at(s, d, n - 1) {
        Some(n - 1)
    } else {
        last_occurrence_below(s, d, n - 1)
    }
}

/// The last segment of a hierarchical name: what follows the last occurrence
/// of the delimiter, or the whole name when there is no delimiter.
pub open spec fn leaf_name_spec(path: Seq<char>, delimiter: Option<Seq<char>>) -> Seq<char> {
    match delimiter {
        Some(d) if d.len() > 0 => match last_occurrence_below(path, d, path.len() + 1int) {
            Some(k) => path.skip(k + d.len()),
            None => path,
        },
        _ => path,
    }
}

fn occurs_at_exec(s: &Vec<char>, d: &Vec<char>, k: usize) -> (r: bool)
    requires
        k + d.len() <= s.len(),
    ensures
        r == occurs_at(s@, d@, k as int),
{
    let mut j: usize = 0;
    while j < d.len()
        invariant
            k + d.len() <= s.len(),
            j <= d.len(),
            forall|t: int| 0 <= t < j ==> s@[k + t] == d@[t],
        decreases d.len() - j,
    {
        if s[k + j] != d[j] {
            assert(s@.subrange(k as int, k + d.len())[j as int] != d@[j as int]);
            return false;
        }
        j += 1;
    }
    assert(s@.subrange(k as int, k + d.len()) =~= d@);
    true
}

pub fn leaf_name(path: &str, delimiter: Option<&str>) -> (r: String)
    ensures
        r@ == leaf_name_spec(
            path@,
            match delimiter {
                Some(d) => Some(d@),
                None => None,
            },
        ),
{
    match delimiter {
        Some(d) => {
            let dv = chars_of(d);
            if dv.len() == 0 {
                return path.to_owned();
            }
            let s = chars_of(path);
            if dv.len() > s.len() {
                assert(last_occurrence_below(s@, dv@, s.len() + 1int) is None) by {
                    lemma_no_occurrence_when_longer(s@, dv@, s.len() + 1int);
                }
                return path.to_owned();
            }
            let mut n: usize = s.len() - dv.len() + 1;
            assert(last_occurrence_below(s@, dv@, s.len() + 1int) == last_occurrence_below(
                s@,
                dv@,
                n as int,
            )) by {
                lemma_skip_impossible(s@, dv@, n as int, s.len() + 1int);
            }
            while n > 0
                invariant
                    n + dv.len() <= s.len() + 1,
                    dv.len() > 0,
                    s@ == path@,
                    dv@ == d@,
                    delimiter == Some(d),
                    last_occurrence_below(s@, dv@, s.len() + 1int) == last_occurrence_below(
                        s@,
                        dv@,
                        n as int,
                    ),
                decreases n,
            {
                if occurs_at_exec(&s, &dv, n - 1) {
                    assert(last_occurrence_below(s@, dv@, n as int) == Some(n - 1));
                    let start = n - 1 + dv.len();
                    let mut out: Vec<char> = Vec::new();
                    let mut k = start;
                    while k < s.len()
                        invariant
                            start <= k <= s.len(),
                            out@ == s@.subrange(start as int, k as int),
                            s@ == path@,
                            dv@ == d@,
                            delimiter == Some(d),
                            dv.len() > 0,
                            last_occurrence_below(s@, dv@, s.len() + 1int) == Some(start - dv.len()),
                        decreases s.len() - k,
                    {
                        out.push(s[k]);
                        k += 1;
                        assert(out@ =~= s@.subrange(start as int, k as int));
                    }
                    assert(out@ =~= s@.skip(start as int));
                    return string_of(&out);
                }
                n -= 1;
            }
            path.to_owned()
        },
        None => path.to_owned(),
    }
}

proof fn lemma_no_occurrence_when_longer(s: Seq<char>, d: Seq<char>, n: int)
    requires
        d.len() > s.len(),
    ensures
        last_occurrence_below(s, d, n) is None,
    decreases n,
{
    if n > 0 {
        lemma_no_occurrence_when_longer(s, d, n - 1);
    }
}

proof fn lemma_skip_impossible(s: Seq<char>, d: Seq<char>, lo: int, hi: int)
    requires
        0 <= lo <= hi,
        lo + d.len() >= s.len() + 1,
    ensures
        last_occurrence_below(s, d, hi) == last_occurrence_below(s, d, lo),
    decreases hi - lo,
{
    if hi > lo {
        lemma_skip_impossible(s, d, lo, hi - 1);
    }
}

/// The name shown for a folder.
pub open spec fn display_name_spec(leaf: Seq<char>) -> Seq<char> {
    if eq_ic(leaf, "INBOX"@) {
        "Inbox"@
    } else {
        leaf
    }
}

/// IMAP mandates the inbox be called INBOX and servers shout it; every other
/// name is whatever the user or provider chose, so only this one is rewritten.
pub fn display_name(leaf: &str) -> (r: String)
    ensures
        r@ == display_name_spec(leaf@),
{
    if eq_ignore_case(&chars_of(leaf), &chars_of("INBOX")) {
        "Inbox".to_owned()
    } else {
        leaf.to_owned()
    }
}

/// Bytes the server sent as text, read leniently.
pub open spec fn decoded_spec(raw: Option<Seq<u8>>) -> Seq<char> {
    match raw {
        Some(b) => utf8_lossy(b),
        None => Seq::<char>::empty(),
    }
}

/// Bytes the server sent as text, with invalid sequences replaced; nothing
/// sent reads as empty.
pub fn decoded(raw: Option<&[u8]>) -> (r: String)
    ensures
        r@ == decoded_spec(
            match raw {
                Some(b) => Some(b@),
                None => None,
            },
        ),
{
    match raw {
        Some(b) => from_utf8_lossy(b),
        None => String::new(),
    }
}

/// How many characters a preview keeps.
pub const PREVIEW_CHARS: usize = 200;

/// Text squashed to one line: its words joined by single spaces, cut to the
/// first `PREVIEW_CHARS` characters.
pub open spec fn flatten_spec(text: Seq<char>) -> Seq<char> {
    let joined = join_with(words(text), ' ');
    if joined.len() <= PREVIEW_CHARS {
        joined
    } else {
        joined.take(PREVIEW_CHARS as int)
    }
}

/// Squashes text into one line of preview: whitespace runs collapse to one
/// space, leading and trailing whitespace goes, and at most 200 characters
/// are kept.
pub fn preview_text(text: &str) -> (r: String)
    ensures
        r@ == flatten_spec(text@),
{
    let w = split_words(&chars_of(text));
    let joined = join_chars(&w, ' ');
    if joined.len() <= PREVIEW_CHARS {
        string_of(&joined)
    } else {
        let cut = slice_chars(&joined, 0, PREVIEW_CHARS);
        assert(cut@ =~= joined@.take(PREVIEW_CHARS as int));
        string_of(&cut)
    }
}

/// The preview made from a raw slice of body text.
pub open spec fn preview_from_spec(text: Option<Seq<u8>>) -> Seq<char> {
    match text {
        Some(b) => flatten_spec(utf8_lossy(b)),
        None => Seq::<char>::empty(),
    }
}

/// Squashes a raw body slice into one line of preview text.
pub fn preview_from(text: Option<&[u8]>) -> (r: String)
    ensures
        r@ == preview_from_spec(
            match text {
                Some(b) => Some(b@),
                None => None,
            },
        ),
{
    match text {
        Some(bytes) => {
            let raw = from_utf8_lossy(bytes);
            preview_text(raw.as_str())
        },
        None => String::new(),
    }
}

/// The text of an HTML fragment without its markup, read from position `i`.
///
/// `close` is the end tag being waited for inside `<script>` or `<style>`,
/// empty when not inside one; `in_tag` is whether a tag is open. A tag's
/// closing `>` becomes a space so that words either side stay apart. Tags
/// are matched without regard to ASCII case.
pub open spec fn strip_from(s: Seq<char>, i: int, in_tag: bool, close: Seq<char>) -> Seq<char>
    decreases s.len() - i,
{
    if i < 0 || i >= s.len() {
        Seq::<char>::empty()
    } else {
        let rest = lower_seq(s).skip(i);
        if close.len() > 0 {
            if starts_with(rest, close) {
                strip_from(s, i + close.len(), in_tag, Seq::<char>::empty())
            } else {
                strip_from(s, i + 1, in_tag, close)
            }
        } else if s[i] == '<' {
            if starts_with(rest, "<script"@) {
                strip_from(s, i + 1, in_tag, "</script>"@)
            } else if starts_with(rest, "<style"@) {
                strip_from(s, i + 1, in_tag, "</style>"@)
            } else {
                strip_from(s, i + 1, true, close)
            }
        } else if s[i] == '>' && in_tag {
            seq![' '] + strip_from(s, i + 1, false, close)
        } else if !in_tag {
            seq![s[i]] + strip_from(s, i + 1, in_tag, close)
        } else {
            strip_from(s, i + 1, in_tag, close)
        }
    }
}

/// Whether the byte-wise scan that skips script and style content stays on
/// character boundaries from position `i`: it steps one byte at a time
/// there, so a character wider than one byte inside such content cannot be
/// stepped over.
pub open spec fn strip_steps_whole(s: Seq<char>, i: int, in_tag: bool, close: Seq<char>) -> bool
    decreases s.len() - i,
{
    if i < 0 || i >= s.len() {
        true
    } else {
        let rest = lower_seq(s).skip(i);
        if close.len() > 0 {
            if starts_with(rest, close) {
                strip_steps_whole(s, i + close.len(), in_tag, Seq::<char>::empty())
            } else {
                (s[i] as u32) < 128 && strip_steps_whole(s, i + 1, in_tag, close)
            }
        } else if s[i] == '<' {
            if starts_with(rest, "<script"@) {
                strip_steps_whole(s, i + 1, in_tag, "</script>"@)
            } else if starts_with(rest, "<style"@) {
                strip_steps_whole(s, i + 1, in_tag, "</style>"@)
            } else {
                strip_steps_whole(s, i + 1, true, close)
            }
        } else if s[i] == '>' && in_tag {
            strip_steps_whole(s, i + 1, false, close)
        } else {
            strip_steps_whole(s, i + 1, in_tag, close)
        }
    }
}

/// Whether `strip_tags` can read `html`: no character outside ASCII stands
/// inside `<script>` or `<style>` content.
pub open spec fn strip_tags_defined(html: Seq<char>) -> bool {
    strip_steps_whole(html, 0, false, Seq::<char>::empty())
}

fn prefix_at(v: &Vec<char>, i: usize, p: &Vec<char>) -> (r: bool)
    requires
        i <= v.len(),
    ensures
        r == starts_with(v@.skip(i as int), p@),
{
    if p.len() > v.len() - i {
        return false;
    }
    let mut j: usize = 0;
    while j < p.len()
        invariant
            i + p.len() <= v.len(),
            j <= p.len(),
            forall|t: int| 0 <= t < j ==> v@[i + t] == p@[t],
        decreases p.len() - j,
    {
        if v[i + j] != p[j] {
            assert(v@.skip(i as int).take(p.len() as int)[j as int] != p@[j as int]);
            return false;
        }
        j += 1;
    }
    assert(v@.skip(i as int).take(p.len() as int) =~= p@);
    true
}

/// Works out whether `strip_tags` can read `html`, by the same scan.
pub fn strip_tags_can_read(html: &str) -> (r: bool)
    ensures
        r == strip_tags_defined(html@),
{
    let s = chars_of(html);
    let lower = lower_chars(&s);
    let script = chars_of("<script");
    let style = chars_of("<style");
    let end_script = chars_of("</script>");
    let end_style = chars_of("</style>");
    let mut close: Vec<char> = Vec::new();
    let mut in_tag = false;
    let mut i: usize = 0;
    assert(close@ =~= Seq::<char>::empty());
    while i < s.len()
        invariant
            i <= s.len(),
            s@ == html@,
            lower@ == lower_seq(s@),
            script@ == "<script"@,
            style@ == "<style"@,
            end_script@ == "</script>"@,
            end_style@ == "</style>"@,
            close@.len() == 0 || close@ == "</script>"@ || close@ == "</style>"@,
            strip_tags_defined(html@) == strip_steps_whole(s@, i as int, in_tag, close@),
        decreases s.len() - i,
    {
        proof {
            reveal_strlit("</script>");
            reveal_strlit("</style>");
        }
        if close.len() > 0 {
            if prefix_at(&lower, i, &close) {
                let n = close.len();
                close = Vec::new();
                assert(close@ =~= Seq::<char>::empty());
                if i + n > s.len() {
                    return true;
                }
                i = i + n;
            } else {
                if (s[i] as u32) >= 128 {
                    return false;
                }
                i += 1;
            }
        } else if s[i] == '<' {
            if prefix_at(&lower, i, &script) {
                close = copy_vec(&end_script);
            } else if prefix_at(&lower, i, &style) {
                close = copy_vec(&end_style);
            } else {
                in_tag = true;
            }
            i += 1;
        } else if s[i] == '>' && in_tag {
            in_tag = false;
            i += 1;
        } else {
            i += 1;
        }
    }
    true
}

fn copy_vec(v: &Vec<char>) -> (r: Vec<char>)
    ensures
        r@ == v@,
{
    crate::text::copy_chars(v.as_slice())
}

/// Removes tags and script/style content, so an HTML-only message previews as
/// its words rather than its markup.
pub fn strip_tags(html: &str) -> (r: String)
    requires
        strip_tags_defined(html@),
    ensures
        r@ == strip_from(html@, 0, false, Seq::<char>::empty()),
{
    let s = chars_of(html);
    let lower = lower_chars(&s);
    let script = chars_of("<script");
    let style = chars_of("<style");
    let end_script = chars_of("</script>");
    let end_style = chars_of("</style>");
    let mut out: Vec<char> = Vec::new();
    let mut close: Vec<char> = Vec::new();
    let mut in_tag = false;
    let mut i: usize = 0;
    assert(close@ =~= Seq::<char>::empty());
    assert(out@ + strip_from(s@, 0, false, close@) =~= strip_from(s@, 0, false, close@));
    while i < s.len()
        invariant
            i <= s.len(),
            s@ == html@,
            lower@ == lower_seq(s@),
            script@ == "<script"@,
            style@ == "<style"@,
            end_script@ == "</script>"@,
            end_style@ == "</style>"@,
            close@.len() == 0 || close@ == "</script>"@ || close@ == "</style>"@,
            out@ + strip_from(s@, i as int, in_tag, close@) == strip_from(
                s@,
                0,
                false,
                Seq::<char>::empty(),
            ),
        decreases s.len() - i,
    {
        proof {
            reveal_strlit("</script>");
            reveal_strlit("</style>");
        }
        let ghost before = out@;
        if close.len() > 0 {
            if prefix_at(&lower, i, &close) {
                let n = close.len();
                close = Vec::new();
                assert(close@ =~= Seq::<char>::empty());
                if i + n > s.len() {
                    assert(strip_from(s@, i + n, in_tag, close@) =~= Seq::<char>::empty());
                    assert(out@ =~= out@ + Seq::<char>::empty());
                    return string_of(&out);
                }
                i = i + n;
            } else {
                i += 1;
            }
        } else if s[i] == '<' {
            if prefix_at(&lower, i, &script) {
                close = copy_vec(&end_script);
            } else if prefix_at(&lower, i, &style) {
                close = copy_vec(&end_style);
            } else {
                in_tag = true;
            }
            i += 1;
        } else if s[i] == '>' && in_tag {
            in_tag = false;
            out.push(' ');
            assert(out@ + strip_from(s@, i + 1, in_tag, close@) =~= before + (seq![' ']
                + strip_from(s@, i + 1, in_tag, close@)));
            i += 1;
        } else if !in_tag {
            let c = s[i];
            out.push(c);
            assert(out@ + strip_from(s@, i + 1, in_tag, close@) =~= before + (seq![c]
                + strip_from(s@, i + 1, in_tag, close@)));
            i += 1;
        } else {
            i += 1;
        }
    }
    assert(strip_from(s@, i as int, in_tag, close@) =~= Seq::<char>::empty());
    assert(out@ =~= out@ + Seq::<char>::empty());
    string_of(&out)
}

/// What a LIST response says about a mailbox, as far as the listing reads it.
#[derive(Debug, Clone, PartialEq, Eq)]
pub enum NameAttribute {
    NoInferiors,
    NoSelect,
    Marked,
    Unmarked,
    All,
    Archive,
    Drafts,
    Flagged,
    Junk,
    Sent,
    Trash,
    Extension(String),
}

/// The role an RFC 6154 SPECIAL-USE attribute declares.
pub open spec fn attribute_role(a: NameAttribute) -> Option<Seq<char>> {
    match a {
        NameAttribute::Archive => Some("archive"@),
        NameAttribute::Sent => Some("sent"@),
        NameAttribute::Drafts => Some("drafts"@),
        NameAttribute::Trash => Some("trash"@),
        NameAttribute::Junk => Some("junk"@),
        NameAttribute::All => Some("all"@),
        _ => None,
    }
}

/// The role of the first attribute that declares one.
pub open spec fn special_use_role_spec(attributes: Seq<NameAttribute>) -> Option<Seq<char>>
    decreases attributes.len(),
{
    if attributes.len() == 0 {
        None
    } else if attribute_role(attributes[0]) is Some {
        attribute_role(attributes[0])
    } else {
        special_use_role_spec(attributes.drop_first())
    }
}

/// The first attribute that declares a role decides: `\Archive`, `\Sent`,
/// `\Drafts`, `\Trash`, `\Junk` and `\All` declare the role of that name,
/// and the attributes that declare nothing are passed over.
pub proof fn lemma_special_use_first_declaration(rest: Seq<NameAttribute>, x: NameAttribute)
    ensures
        x == NameAttribute::Archive ==> special_use_role_spec(seq![x] + rest) == Some("archive"@),
        x == NameAttribute::Sent ==> special_use_role_spec(seq![x] + rest) == Some("sent"@),
        x == NameAttribute::Drafts ==> special_use_role_spec(seq![x] + rest) == Some("drafts"@),
        x == NameAttribute::Trash ==> special_use_role_spec(seq![x] + rest) == Some("trash"@),
        x == NameAttribute::Junk ==> special_use_role_spec(seq![x] + rest) == Some("junk"@),
        x == NameAttribute::All ==> special_use_role_spec(seq![x] + rest) == Some("all"@),
        (x is NoInferiors || x is NoSelect || x is Marked || x is Unmarked || x is Flagged
            || x is Extension) ==> special_use_role_spec(seq![x] + rest) == special_use_role_spec(rest),
        special_use_role_spec(Seq::<NameAttribute>::empty()) is None,
{
    assert((seq![x] + rest)[0] == x);
    assert((seq![x] + rest).drop_first() =~= rest);
}

/// The role the server itself declared, via RFC 6154 SPECIAL-USE.
pub fn special_use_role(attributes: &[NameAttribute]) -> (r: Option<String>)
    ensures
        opt_view(r) == special_use_role_spec(attributes@),
{
    let mut i: usize = 0;
    assert(attributes@.skip(0) =~= attributes@);
    while i < attributes.len()
        invariant
            i <= attributes.len(),
            special_use_role_spec(attributes@) == special_use_role_spec(attributes@.skip(i as int)),
        decreases attributes.len() - i,
    {
        assert(attributes@.skip(i as int)[0] == attributes@[i as int]);
        assert(attributes@.skip(i as int).drop_first() =~= attributes@.skip(i + 1));
        let role = match &attributes[i] {
            NameAttribute::Archive => owned("archive"),
            NameAttribute::Sent => owned("sent"),
            NameAttribute::Drafts => owned("drafts"),
            NameAttribute::Trash => owned("trash"),
            NameAttribute::Junk => owned("junk"),
            NameAttribute::All => owned("all"),
            _ => None,
        };
        if role.is_some() {
            return role;
        }
        i += 1;
    }
    assert(attributes@.skip(i as int) =~= Seq::<NameAttribute>::empty());
    None
}

/// A mailbox as the listing first reads it, before roles are settled.
#[derive(Debug, Clone, PartialEq, Eq)]
pub struct Listed {
    /// The full hierarchical name, which is also the mailbox's id.
    pub path: String,
    /// What the sidebar shows.
    pub name: String,
    /// The role the server declared, if it declared one.
    pub special: Option<String>,
}

pub struct ListedView {
    pub path: Seq<char>,
    pub name: Seq<char>,
    pub special: Option<Seq<char>>,
}

impl Listed {
    pub open spec fn view(&self) -> ListedView {
        ListedView { path: self.path@, name: self.name@, special: opt_view(self.special) }
    }
}

pub open spec fn listed_view(v: Seq<Listed>) -> Seq<ListedView> {
    v.map_values(|l: Listed| l.view())
}

pub open spec fn opt_str(o: Option<&str>) -> Option<Seq<char>> {
    match o {
        Some(s) => Some(s@),
        None => None,
    }
}

/// One line of a LIST response: a mailbox that cannot be selected is left
/// out; any other is named by its leaf and carries what it declared.
pub fn listed_entry(path: &str, delimiter: Option<&str>, attributes: &[NameAttribute]) -> (r:
    Option<Listed>)
    ensures
        r is None <==> attributes@.contains(NameAttribute::NoSelect),
        r matches Some(l) ==> l.view() == (ListedView {
            path: path@,
            name: display_name_spec(leaf_name_spec(path@, opt_str(delimiter))),
            special: special_use_role_spec(attributes@),
        }),
{
    let mut i: usize = 0;
    while i < attributes.len()
        invariant
            i <= attributes.len(),
            forall|k: int| 0 <= k < i ==> attributes@[k] != NameAttribute::NoSelect,
        decreases attributes.len() - i,
    {
        if let NameAttribute::NoSelect = &attributes[i] {
            assert(attributes@[i as int] == NameAttribute::NoSelect);
            return None;
        }
        i += 1;
    }
    let leaf = leaf_name(path, delimiter);
    Some(
        Listed {
            path: path.to_owned(),
            name: display_name(leaf.as_str()),
            special: special_use_role(attributes),
        },
    )
}

/// The roles every mailbox of the listing declared, in order.
pub open spec fn declared_roles(ls: Seq<ListedView>) -> Seq<Seq<char>>
    decreases ls.len(),
{
    if ls.len() == 0 {
        Seq::<Seq<char>>::empty()
    } else {
        match ls.last().special {
            Some(r) => declared_roles(ls.drop_last()).push(r),
            None => declared_roles(ls.drop_last()),
        }
    }
}

/// Where role settling stands: the roles taken so far and the role given
/// to each mailbox read so far.
pub struct RoleState {
    pub claimed: Seq<Seq<char>>,
    pub roles: Seq<Option<Seq<char>>>,
}

/// One mailbox's role. A declared role is kept. Otherwise the name's guess
/// is taken only when no mailbox has claimed that role yet, and then claims
/// it; a guess that loses leaves the mailbox without a role.
pub open spec fn role_step(st: RoleState, l: ListedView) -> RoleState {
    match l.special {
        Some(r) => RoleState { claimed: st.claimed, roles: st.roles.push(Some(r)) },
        None => match role_from_name_spec(l.path) {
            Some(g) => if st.claimed.contains(g) {
                RoleState { claimed: st.claimed, roles: st.roles.push(None) }
            } else {
                RoleState { claimed: st.claimed.push(g), roles: st.roles.push(Some(g)) }
            },
            None => RoleState { claimed: st.claimed, roles: st.roles.push(None) },
        },
    }
}

pub open spec fn role_steps(declared: Seq<Seq<char>>, ls: Seq<ListedView>) -> RoleState
    decreases ls.len(),
{
    if ls.len() == 0 {
        RoleState { claimed: declared, roles: Seq::<Option<Seq<char>>>::empty() }
    } else {
        role_step(role_steps(declared, ls.drop_last()), ls.last())
    }
}

/// The role each mailbox of a listing ends up with. Every declared role is
/// claimed before any name is read, so a declaration always beats a guess,
/// wherever in the list the declaring mailbox stands.
pub open spec fn resolved_roles(ls: Seq<ListedView>) -> Seq<Option<Seq<char>>> {
    role_steps(declared_roles(ls), ls).roles
}

/// The mailboxes of a listing, in the order listed, with roles settled.
pub open spec fn resolve_mailboxes_spec(account_id: Seq<char>, ls: Seq<ListedView>) -> Seq<MailboxView> {
    Seq::new(
        ls.len(),
        |i: int|
            MailboxView {
                id: ls[i].path,
                account_id: account_id,
                name: ls[i].name,
                role: resolved_roles(ls)[i],
                total_emails: 0,
                unread_emails: 0,
                sort_order: 0,
            },
    )
}

proof fn lemma_role_steps_len(declared: Seq<Seq<char>>, ls: Seq<ListedView>)
    ensures
        role_steps(declared, ls).roles.len() == ls.len(),
    decreases ls.len(),
{
    if ls.len() > 0 {
        lemma_role_steps_len(declared, ls.drop_last());
    }
}

proof fn lemma_role_steps_prefix(declared: Seq<Seq<char>>, ls: Seq<ListedView>, n: int, k: int)
    requires
        0 <= k < n <= ls.len(),
    ensures
        role_steps(declared, ls.take(n)).roles[k] == role_steps(declared, ls).roles[k],
    decreases ls.len(),
{
    lemma_role_steps_len(declared, ls.take(n));
    lemma_role_steps_len(declared, ls);
    if n < ls.len() {
        assert(ls.drop_last().take(n) =~= ls.take(n));
        lemma_role_steps_prefix(declared, ls.drop_last(), n, k);
        lemma_role_steps_len(declared, ls.drop_last());
    } else {
        assert(ls.take(n) =~= ls);
    }
}

fn claimed_by(claimed: &Vec<String>, g: &String) -> (r: bool)
    ensures
        r == crate::contentline::strings_view(claimed@).contains(g@),
{
    let ghost cv = crate::contentline::strings_view(claimed@);
    let gc = chars_of(g.as_str());
    let mut i: usize = 0;
    while i < claimed.len()
        invariant
            i <= claimed.len(),
            cv == crate::contentline::strings_view(claimed@),
            gc@ == g@,
            forall|k: int| 0 <= k < i ==> cv[k] != g@,
        decreases claimed.len() - i,
    {
        if chars_eq(&chars_of(claimed[i].as_str()), &gc) {
            assert(cv[i as int] == g@);
            return true;
        }
        i += 1;
    }
    false
}

/// Settles the roles of a whole listing and makes its mailboxes.
///
/// The server's own SPECIAL-USE declaration wins. A second mailbox whose
/// name suggests the same role keeps its place in the list but loses the
/// role, so it sorts as an ordinary folder rather than fighting the real one
/// for the same slot. Nothing is hidden.
pub fn resolve_mailboxes(account_id: &str, listed: &Vec<Listed>) -> (r: Vec<Mailbox>)
    ensures
        mailboxes_view(r@) == resolve_mailboxes_spec(account_id@, listed_view(listed@)),
{
    let ghost lv = listed_view(listed@);
    let mut claimed: Vec<String> = Vec::new();
    let mut i: usize = 0;
    while i < listed.len()
        invariant
            i <= listed.len(),
            lv == listed_view(listed@),
            crate::contentline::strings_view(claimed@) == declared_roles(lv.take(i as int)),
        decreases listed.len() - i,
    {
        assert(lv.take(i + 1).drop_last() =~= lv.take(i as int));
        assert(lv.take(i + 1).last() == listed@[i as int].view());
        match &listed[i].special {
            Some(r) => {
                let ghost before = crate::contentline::strings_view(claimed@);
                claimed.push(r.clone());
                assert(crate::contentline::strings_view(claimed@) =~= before.push(r@));
            },
            None => {},
        }
        i += 1;
    }
    assert(lv.take(listed.len() as int) =~= lv);
    let ghost declared = declared_roles(lv);
    let mut out: Vec<Mailbox> = Vec::new();
    let mut j: usize = 0;
    while j < listed.len()
        invariant
            j <= listed.len(),
            lv == listed_view(listed@),
            declared == declared_roles(lv),
            crate::contentline::strings_view(claimed@) == role_steps(declared, lv.take(j as int)).claimed,
            out@.len() == j,
            forall|k: int|
                0 <= k < j ==> #[trigger] out@[k].view() == (MailboxView {
                    id: lv[k].path,
                    account_id: account_id@,
                    name: lv[k].name,
                    role: role_steps(declared, lv.take(j as int)).roles[k],
                    total_emails: 0,
                    unread_emails: 0,
                    sort_order: 0,
                }),
        decreases listed.len() - j,
    {
        let ghost pre = lv.take(j as int);
        assert(lv.take(j + 1).drop_last() =~= pre);
        assert(lv.take(j + 1).last() == listed@[j as int].view());
        proof {
            lemma_role_steps_len(declared, pre);
        }
        let entry = &listed[j];
        let role: Option<String> = match &entry.special {
            Some(r) => Some(r.clone()),
            None => match role_from_name(entry.path.as_str()) {
                Some(guess) => {
                    if claimed_by(&claimed, &guess) {
                        None
                    } else {
                        let ghost before = crate::contentline::strings_view(claimed@);
                        claimed.push(guess.clone());
                        assert(crate::contentline::strings_view(claimed@) =~= before.push(guess@));
                        Some(guess)
                    }
                },
                None => None,
            },
        };
        let ghost st = role_steps(declared, lv.take(j + 1));
        assert(opt_view(role) == st.roles[j as int]);
        out.push(
            Mailbox {
                id: entry.path.clone(),
                account_id: account_id.to_owned(),
                name: entry.name.clone(),
                role,
                total_emails: 0,
                unread_emails: 0,
                sort_order: 0,
            },
        );
        assert forall|k: int| 0 <= k < j + 1 implies #[trigger] out@[k].view() == (MailboxView {
            id: lv[k].path,
            account_id: account_id@,
            name: lv[k].name,
            role: st.roles[k],
            total_emails: 0,
            unread_emails: 0,
            sort_order: 0,
        }) by {
            if k < j {
                assert(st.roles[k] == role_steps(declared, pre).roles[k]);
            }
        }
        j += 1;
    }
    assert(lv.take(listed.len() as int) =~= lv);
    assert(mailboxes_view(out@) =~= resolve_mailboxes_spec(account_id@, lv));
    out
}

proof fn lemma_declared_contains(ls: Seq<ListedView>)
    ensures
        forall|j: int|
            0 <= j < ls.len() && ls[j].special is Some ==> declared_roles(ls).contains(
                #[trigger] ls[j].special->0,
            ),
    decreases ls.len(),
{
    if ls.len() > 0 {
        let init = ls.drop_last();
        lemma_declared_contains(init);
        let d0 = declared_roles(init);
        assert forall|j: int|
            0 <= j < ls.len() && ls[j].special is Some implies declared_roles(ls).contains(
                #[trigger] ls[j].special->0,
            ) by {
            if j < ls.len() - 1 {
                assert(init[j] == ls[j]);
                assert(d0.contains(ls[j].special->0));
                let w = choose|w: int| 0 <= w < d0.len() && d0[w] == ls[j].special->0;
                match ls.last().special {
                    Some(r) => {
                        assert(declared_roles(ls) == d0.push(r));
                        assert(declared_roles(ls)[w] == d0[w]);
                    },
                    None => {},
                }
            } else {
                let r = ls.last().special->0;
                assert(declared_roles(ls) == d0.push(r));
                assert(declared_roles(ls)[d0.len() as int] == r);
            }
        }
    }
}

proof fn lemma_push_keeps(s: Seq<Seq<char>>, g: Seq<char>)
    ensures
        forall|x: Seq<char>| s.contains(x) ==> #[trigger] s.push(g).contains(x),
        s.push(g).contains(g),
        forall|x: Seq<char>| #[trigger] s.push(g).contains(x) ==> s.contains(x) || x == g,
{
    assert(s.push(g)[s.len() as int] == g);
    assert forall|x: Seq<char>| s.contains(x) implies #[trigger] s.push(g).contains(x) by {
        let w = choose|w: int| 0 <= w < s.len() && s[w] == x;
        assert(s.push(g)[w] == x);
    }
    assert forall|x: Seq<char>| #[trigger] s.push(g).contains(x) implies s.contains(x) || x == g by {
        let w = choose|w: int| 0 <= w < s.push(g).len() && s.push(g)[w] == x;
        if w < s.len() {
            assert(s[w] == x);
        }
    }
}

proof fn lemma_roles_inv(declared: Seq<Seq<char>>, ls: Seq<ListedView>)
    requires
        forall|j: int|
            0 <= j < ls.len() && ls[j].special is Some ==> declared.contains(
                #[trigger] ls[j].special->0,
            ),
    ensures
        role_steps(declared, ls).roles.len() == ls.len(),
        forall|x: Seq<char>| declared.contains(x) ==> #[trigger] role_steps(declared, ls).claimed.contains(x),
        forall|k: int|
            0 <= k < ls.len() && (#[trigger] role_steps(declared, ls).roles[k]) is Some
                ==> role_steps(declared, ls).claimed.contains(role_steps(declared, ls).roles[k]->0),
        forall|k: int|
            0 <= k < ls.len() && ls[k].special is None && (#[trigger] role_steps(
                declared,
                ls,
            ).roles[k]) is Some ==> !declared.contains(role_steps(declared, ls).roles[k]->0),
        forall|k: int|
            0 <= k < ls.len() && ls[k].special is Some ==> #[trigger] role_steps(
                declared,
                ls,
            ).roles[k] == ls[k].special,
        forall|k: int, j: int|
            0 <= k < ls.len() && 0 <= j < ls.len() && k != j && ls[k].special is None && (
            #[trigger] role_steps(declared, ls).roles[k]) is Some ==> #[trigger] role_steps(
                declared,
                ls,
            ).roles[j] != role_steps(declared, ls).roles[k],
    decreases ls.len(),
{
    if ls.len() > 0 {
        let init = ls.drop_last();
        assert forall|j: int|
            0 <= j < init.len() && init[j].special is Some implies declared.contains(
                #[trigger] init[j].special->0,
            ) by {
            assert(init[j] == ls[j]);
        }
        lemma_roles_inv(declared, init);
        let p = role_steps(declared, init);
        let st = role_steps(declared, ls);
        let l = ls.last();
        let m = init.len() as int;
        assert(st == role_step(p, l));
        assert(forall|k: int| 0 <= k < m ==> #[trigger] ls[k] == init[k]);
        match l.special {
            Some(y) => {
                assert(ls[m].special == Some(y));
                assert(declared.contains(y));
                assert(st.roles == p.roles.push(Some(y)));
                assert(forall|k: int| 0 <= k < m ==> #[trigger] st.roles[k] == p.roles[k]);
            },
            None => {
                match role_from_name_spec(l.path) {
                    Some(g) => {
                        if p.claimed.contains(g) {
                            assert(st.roles == p.roles.push(None::<Seq<char>>));
                            assert(forall|k: int| 0 <= k < m ==> #[trigger] st.roles[k] == p.roles[k]);
                        } else {
                            lemma_push_keeps(p.claimed, g);
                            assert(st.roles == p.roles.push(Some(g)));
                            assert(st.claimed == p.claimed.push(g));
                            assert(forall|k: int| 0 <= k < m ==> #[trigger] st.roles[k] == p.roles[k]);
                            assert(!declared.contains(g));
                            assert forall|k: int, j: int|
                                0 <= k < ls.len() && 0 <= j < ls.len() && k != j
                                    && ls[k].special is None && (
                                #[trigger] st.roles[k]) is Some implies #[trigger] st.roles[j]
                                != st.roles[k] by {
                                if k == m {
                                    if st.roles[j] is Some {
                                        assert(p.claimed.contains(p.roles[j]->0));
                                    }
                                } else if j == m {
                                    assert(p.claimed.contains(p.roles[k]->0));
                                } else {
                                    assert(st.roles[k] == p.roles[k]);
                                    assert(st.roles[j] == p.roles[j]);
                                }
                            }
                        }
                    },
                    None => {
                        assert(st.roles == p.roles.push(None::<Seq<char>>));
                        assert(forall|k: int| 0 <= k < m ==> #[trigger] st.roles[k] == p.roles[k]);
                    },
                }
            },
        }
    }
}

/// A role guessed from a folder's name is held by no other mailbox of the
/// listing: neither by one the server declared it for nor by a second guess.
pub proof fn lemma_guessed_role_unique(ls: Seq<ListedView>, i: int, j: int)
    requires
        0 <= i < ls.len(),
        0 <= j < ls.len(),
        i != j,
        ls[i].special is None,
        resolved_roles(ls)[i] is Some,
    ensures
        resolved_roles(ls)[j] != resolved_roles(ls)[i],
{
    lemma_declared_contains(ls);
    lemma_roles_inv(declared_roles(ls), ls);
}

/// A role the server declared for a mailbox is the role it keeps.
pub proof fn lemma_declared_role_kept(ls: Seq<ListedView>, i: int)
    requires
        0 <= i < ls.len(),
        ls[i].special is Some,
    ensures
        resolved_roles(ls)[i] == ls[i].special,
{
    lemma_declared_contains(ls);
    lemma_roles_inv(declared_roles(ls), ls);
}

proof fn lemma_declared_from(ls: Seq<ListedView>, x: Seq<char>)
    requires
        declared_roles(ls).contains(x),
    ensures
        exists|j: int| 0 <= j < ls.len() && (#[trigger] ls[j]).special == Some(x),
    decreases ls.len(),
{
    let init = ls.drop_last();
    let d0 = declared_roles(init);
    let w = choose|w: int| 0 <= w < declared_roles(ls).len() && declared_roles(ls)[w] == x;
    match ls.last().special {
        Some(r) => {
            if w < d0.len() {
                assert(d0[w] == x);
                lemma_declared_from(init, x);
                let j = choose|j: int| 0 <= j < init.len() && (#[trigger] init[j]).special == Some(x);
                assert(ls[j] == init[j]);
            } else {
                assert(ls[ls.len() - 1].special == Some(x));
            }
        },
        None => {
            assert(d0.contains(x));
            lemma_declared_from(init, x);
            let j = choose|j: int| 0 <= j < init.len() && (#[trigger] init[j]).special == Some(x);
            assert(ls[j] == init[j]);
        },
    }
}

/// A mailbox's name guess, when it has no declared role.
pub open spec fn guess_of(l: ListedView) -> Option<Seq<char>> {
    if l.special is None {
        role_from_name_spec(l.path)
    } else {
        None
    }
}

proof fn lemma_claimed_from(declared: Seq<Seq<char>>, ls: Seq<ListedView>, x: Seq<char>)
    requires
        role_steps(declared, ls).claimed.contains(x),
    ensures
        declared.contains(x) || exists|j: int| 0 <= j < ls.len() && guess_of(#[trigger] ls[j]) == Some(x),
    decreases ls.len(),
{
    if ls.len() > 0 {
        let init = ls.drop_last();
        let p = role_steps(declared, init);
        let l = ls.last();
        if p.claimed.contains(x) {
            lemma_claimed_from(declared, init, x);
            if !declared.contains(x) {
                let j = choose|j: int| 0 <= j < init.len() && guess_of(#[trigger] init[j]) == Some(x);
                assert(ls[j] == init[j]);
            }
        } else {
            match l.special {
                Some(_) => {},
                None => match role_from_name_spec(l.path) {
                    Some(g) => {
                        if !p.claimed.contains(g) {
                            lemma_push_keeps(p.claimed, g);
                            assert(x == g);
                            assert(guess_of(ls[ls.len() - 1]) == Some(x));
                        }
                    },
                    None => {},
                },
            }
        }
    }
}

/// A folder name's guess is taken whenever it is free: when no mailbox of
/// the listing declares that role and no mailbox before it guessed the same
/// one. On a server without SPECIAL-USE, the first `Drafts` folder is the
/// drafts mailbox.
pub proof fn lemma_free_guess_taken(ls: Seq<ListedView>, i: int)
    requires
        0 <= i < ls.len(),
        guess_of(ls[i]) is Some,
        forall|j: int| 0 <= j < ls.len() ==> (#[trigger] ls[j]).special != guess_of(ls[i]),
        forall|j: int| 0 <= j < i ==> guess_of(#[trigger] ls[j]) != guess_of(ls[i]),
    ensures
        resolved_roles(ls)[i] == guess_of(ls[i]),
{
    let g = guess_of(ls[i])->0;
    let declared = declared_roles(ls);
    let pre = ls.take(i);
    let p = role_steps(declared, pre);
    if declared.contains(g) {
        lemma_declared_from(ls, g);
    }
    if p.claimed.contains(g) {
        lemma_claimed_from(declared, pre, g);
        if !declared.contains(g) {
            let j = choose|j: int| 0 <= j < pre.len() && guess_of(#[trigger] pre[j]) == Some(g);
            assert(pre[j] == ls[j]);
        }
    }
    assert(ls.take(i + 1).drop_last() =~= pre);
    assert(ls.take(i + 1).last() == ls[i]);
    lemma_role_steps_len(declared, pre);
    lemma_role_steps_prefix(declared, ls, i + 1, i);
}

/// A flag as a FETCH response reports it.
#[derive(Debug, Clone, PartialEq, Eq)]
pub enum Flag {
    Seen,
    Answered,
    Flagged,
    Deleted,
    Draft,
    Recent,
    MayCreate,
    Custom(String),
}

/// An address from an IMAP ENVELOPE, its parts as the server sent them.
#[derive(Debug, Clone, PartialEq, Eq)]
pub struct RawAddress {
    pub name: Option<Vec<u8>>,
    pub mailbox: Option<Vec<u8>>,
    pub host: Option<Vec<u8>>,
}

/// The parts of an IMAP ENVELOPE the list reads.
#[derive(Debug, Clone, PartialEq, Eq)]
pub struct RawEnvelope {
    pub from: Option<Vec<RawAddress>>,
    pub to: Option<Vec<RawAddress>>,
    pub subject: Option<Vec<u8>>,
}

/// One message of a FETCH response, as plain values.
#[derive(Debug, Clone, PartialEq, Eq)]
pub struct Fetched {
    pub uid: Option<u32>,
    pub envelope: Option<RawEnvelope>,
    pub flags: Vec<Flag>,
    /// INTERNALDATE, already written as RFC 3339.
    pub internal_date: Option<String>,
    /// `BODY[HEADER]`.
    pub header: Option<Vec<u8>>,
    /// The first slice of `BODY[TEXT]`.
    pub text: Option<Vec<u8>>,
}

pub open spec fn bytes_view(o: Option<Vec<u8>>) -> Option<Seq<u8>> {
    match o {
        Some(b) => Some(b@),
        None => None,
    }
}

pub struct RawAddressView {
    pub name: Option<Seq<u8>>,
    pub mailbox: Option<Seq<u8>>,
    pub host: Option<Seq<u8>>,
}

impl RawAddress {
    pub open spec fn view(&self) -> RawAddressView {
        RawAddressView {
            name: bytes_view(self.name),
            mailbox: bytes_view(self.mailbox),
            host: bytes_view(self.host),
        }
    }
}

pub open spec fn raw_addresses_view(v: Seq<RawAddress>) -> Seq<RawAddressView> {
    v.map_values(|a: RawAddress| a.view())
}

pub open spec fn raw_list_view(o: Option<Vec<RawAddress>>) -> Option<Seq<RawAddressView>> {
    match o {
        Some(v) => Some(raw_addresses_view(v@)),
        None => None,
    }
}

/// An ENVELOPE address as the canonical model holds it: the name only when
/// it has non-blank text, and `mailbox@host`, or the mailbox alone when there
/// is no host.
pub open spec fn raw_address_spec(a: RawAddressView) -> EmailAddressView {
    let mailbox = decoded_spec(a.mailbox);
    let host = decoded_spec(a.host);
    EmailAddressView {
        name: match a.name {
            Some(n) => if trim(utf8_lossy(n)).len() > 0 {
                Some(utf8_lossy(n))
            } else {
                None
            },
            None => None,
        },
        email: if host.len() == 0 {
            mailbox
        } else {
            mailbox.push('@') + host
        },
    }
}

pub open spec fn raw_addresses_spec(list: Option<Seq<RawAddressView>>) -> Seq<EmailAddressView> {
    match list {
        Some(l) => l.map_values(|a: RawAddressView| raw_address_spec(a)),
        None => Seq::<EmailAddressView>::empty(),
    }
}

fn join_at(mailbox: &String, host: &String) -> (r: String)
    ensures
        r@ == mailbox@.push('@') + host@,
{
    let mut v = chars_of(mailbox.as_str());
    v.push('@');
    append_all(&mut v, &chars_of(host.as_str()));
    string_of(&v)
}

/// The addresses of an ENVELOPE field.
pub fn addresses(list: Option<&Vec<RawAddress>>) -> (r: Vec<EmailAddress>)
    ensures
        addresses_view(r@) == raw_addresses_spec(
            match list {
                Some(l) => Some(raw_addresses_view(l@)),
                None => None,
            },
        ),
{
    let mut out: Vec<EmailAddress> = Vec::new();
    match list {
        Some(l) => {
            let ghost lv = raw_addresses_view(l@);
            let mut i: usize = 0;
            while i < l.len()
                invariant
                    i <= l.len(),
                    lv == raw_addresses_view(l@),
                    addresses_view(out@) == lv.take(i as int).map_values(
                        |a: RawAddressView| raw_address_spec(a),
                    ),
                decreases l.len() - i,
            {
                let a = &l[i];
                let mailbox = decoded(
                    match &a.mailbox {
                        Some(b) => Some(b.as_slice()),
                        None => None,
                    },
                );
                let host = decoded(
                    match &a.host {
                        Some(b) => Some(b.as_slice()),
                        None => None,
                    },
                );
                let name = match &a.name {
                    Some(n) => {
                        let text = from_utf8_lossy(n.as_slice());
                        if trim_chars(&chars_of(text.as_str())).len() > 0 {
                            Some(text)
                        } else {
                            None
                        }
                    },
                    None => None,
                };
                let email = if host.as_str().is_empty() {
                    mailbox
                } else {
                    join_at(&mailbox, &host)
                };
                let addr = EmailAddress { name, email };
                assert(addr.view() == raw_address_spec(lv[i as int]));
                let ghost before = addresses_view(out@);
                out.push(addr);
                assert(addresses_view(out@) =~= before.push(addr.view()));
                i += 1;
                assert(lv.take(i as int).map_values(|a: RawAddressView| raw_address_spec(a))
                    =~= lv.take(i - 1).map_values(|a: RawAddressView| raw_address_spec(a)).push(
                    raw_address_spec(lv[i - 1]),
                ));
            }
            assert(lv.take(l.len() as int) =~= lv);
        },
        None => {
            assert(addresses_view(out@) =~= Seq::<EmailAddressView>::empty());
        },
    }
    out
}

/// An address as mail-parser read it, RFC 2047 names already decoded.
#[derive(Debug, Clone, PartialEq, Eq)]
pub struct ParsedAddr {
    pub name: Option<String>,
    pub address: Option<String>,
}

pub struct ParsedAddrView {
    pub name: Option<Seq<char>>,
    pub address: Option<Seq<char>>,
}

impl ParsedAddr {
    pub open spec fn view(&self) -> ParsedAddrView {
        ParsedAddrView { name: opt_view(self.name), address: opt_view(self.address) }
    }
}

pub open spec fn parsed_group_view(v: Seq<ParsedAddr>) -> Seq<ParsedAddrView> {
    v.map_values(|a: ParsedAddr| a.view())
}

pub open spec fn parsed_groups_view(v: Seq<Vec<ParsedAddr>>) -> Seq<Seq<ParsedAddrView>> {
    v.map_values(|g: Vec<ParsedAddr>| parsed_group_view(g@))
}

/// A parsed address kept only when it has a non-blank address; its name
/// only when that has non-blank text.
pub open spec fn parsed_addr_spec(a: ParsedAddrView) -> Option<EmailAddressView> {
    match a.address {
        Some(e) => if trim(e).len() > 0 {
            Some(
                EmailAddressView {
                    name: match a.name {
                        Some(n) => if trim(n).len() > 0 {
                            Some(n)
                        } else {
                            None
                        },
                        None => None,
                    },
                    email: e,
                },
            )
        } else {
            None
        },
        None => None,
    }
}

pub open spec fn parsed_group_spec(g: Seq<ParsedAddrView>) -> Seq<EmailAddressView>
    decreases g.len(),
{
    if g.len() == 0 {
        Seq::<EmailAddressView>::empty()
    } else {
        match parsed_addr_spec(g.last()) {
            Some(a) => parsed_group_spec(g.drop_last()).push(a),
            None => parsed_group_spec(g.drop_last()),
        }
    }
}

/// The kept addresses of every group, groups in order.
pub open spec fn parsed_groups_spec(gs: Seq<Seq<ParsedAddrView>>) -> Seq<EmailAddressView>
    decreases gs.len(),
{
    if gs.len() == 0 {
        Seq::<EmailAddressView>::empty()
    } else {
        parsed_groups_spec(gs.drop_last()) + parsed_group_spec(gs.last())
    }
}

pub open spec fn parsed_addresses_spec(gs: Option<Seq<Seq<ParsedAddrView>>>) -> Seq<EmailAddressView> {
    match gs {
        Some(g) => parsed_groups_spec(g),
        None => Seq::<EmailAddressView>::empty(),
    }
}

fn non_blank(s: &String) -> (r: bool)
    ensures
        r == (trim(s@).len() > 0),
{
    trim_chars(&chars_of(s.as_str())).len() > 0
}

/// Addresses as mail-parser read them, the members of every group flattened
/// into one list; entries without an address are skipped.
pub fn parsed_addresses(groups: Option<&Vec<Vec<ParsedAddr>>>) -> (r: Vec<EmailAddress>)
    ensures
        addresses_view(r@) == parsed_addresses_spec(
            match groups {
                Some(g) => Some(parsed_groups_view(g@)),
                None => None,
            },
        ),
{
    let mut out: Vec<EmailAddress> = Vec::new();
    match groups {
        Some(gs) => {
            let ghost gv = parsed_groups_view(gs@);
            let mut i: usize = 0;
            while i < gs.len()
                invariant
                    i <= gs.len(),
                    gv == parsed_groups_view(gs@),
                    addresses_view(out@) == parsed_groups_spec(gv.take(i as int)),
                decreases gs.len() - i,
            {
                assert(gv.take(i + 1).drop_last() =~= gv.take(i as int));
                assert(gv.take(i + 1).last() == parsed_group_view(gs@[i as int]@));
                let g = &gs[i];
                let ghost base = addresses_view(out@);
                let ghost grp = parsed_group_view(g@);
                let mut k: usize = 0;
                while k < g.len()
                    invariant
                        k <= g.len(),
                        grp == parsed_group_view(g@),
                        addresses_view(out@) == base + parsed_group_spec(grp.take(k as int)),
                    decreases g.len() - k,
                {
                    assert(grp.take(k + 1).drop_last() =~= grp.take(k as int));
                    assert(grp.take(k + 1).last() == g@[k as int].view());
                    let a = &g[k];
                    match &a.address {
                        Some(e) => {
                            if non_blank(e) {
                                let name = match &a.name {
                                    Some(n) => if non_blank(n) {
                                        Some(n.clone())
                                    } else {
                                        None
                                    },
                                    None => None,
                                };
                                let addr = EmailAddress { name, email: e.clone() };
                                let ghost before = addresses_view(out@);
                                out.push(addr);
                                assert(addresses_view(out@) =~= before.push(addr.view()));
                                assert(addresses_view(out@) =~= base + parsed_group_spec(
                                    grp.take(k + 1),
                                ));
                            } else {
                                assert(parsed_group_spec(grp.take(k + 1)) == parsed_group_spec(
                                    grp.take(k as int),
                                ));
                            }
                        },
                        None => {
                            assert(parsed_group_spec(grp.take(k + 1)) == parsed_group_spec(
                                grp.take(k as int),
                            ));
                        },
                    }
                    k += 1;
                }
                assert(grp.take(g.len() as int) =~= grp);
                i += 1;
            }
            assert(gv.take(gs.len() as int) =~= gv);
        },
        None => {
            assert(addresses_view(out@) =~= Seq::<EmailAddressView>::empty());
        },
    }
    out
}

/// What mail-parser made of a message, as far as the list reads it.
#[derive(Debug, Clone, PartialEq, Eq)]
pub struct ParsedParts {
    pub from: Option<Vec<Vec<ParsedAddr>>>,
    pub to: Option<Vec<Vec<ParsedAddr>>>,
    pub subject: Option<String>,
    pub body_text: Option<String>,
    pub body_html: Option<String>,
    pub message_id: Option<String>,
    pub references: Option<Vec<String>>,
}

pub struct ParsedPartsView {
    pub from: Option<Seq<Seq<ParsedAddrView>>>,
    pub to: Option<Seq<Seq<ParsedAddrView>>>,
    pub subject: Option<Seq<char>>,
    pub body_text: Option<Seq<char>>,
    pub body_html: Option<Seq<char>>,
    pub message_id: Option<Seq<char>>,
    pub references: Option<Seq<Seq<char>>>,
}

pub open spec fn groups_opt_view(o: Option<Vec<Vec<ParsedAddr>>>) -> Option<Seq<Seq<ParsedAddrView>>> {
    match o {
        Some(g) => Some(parsed_groups_view(g@)),
        None => None,
    }
}

impl ParsedParts {
    pub open spec fn view(&self) -> ParsedPartsView {
        ParsedPartsView {
            from: groups_opt_view(self.from),
            to: groups_opt_view(self.to),
            subject: opt_view(self.subject),
            body_text: opt_view(self.body_text),
            body_html: opt_view(self.body_html),
            message_id: opt_view(self.message_id),
            references: match self.references {
                Some(r) => Some(strs_view(r@)),
                None => None,
            },
        }
    }
}

/// Whether `preview_of` can read a message: one with no plain-text part
/// previews from its HTML, which `strip_tags` must be able to read.
pub open spec fn preview_readable(p: ParsedPartsView) -> bool {
    p.body_text is None ==> (p.body_html matches Some(h) ==> strip_tags_defined(h))
}

/// The text a preview is made from: the plain-text alternative, else the
/// HTML one without its markup, else nothing.
pub open spec fn preview_source(p: ParsedPartsView) -> Seq<char> {
    match p.body_text {
        Some(t) => t,
        None => match p.body_html {
            Some(h) => strip_from(h, 0, false, Seq::<char>::empty()),
            None => Seq::<char>::empty(),
        },
    }
}

/// Works out whether `preview_of` can read a message.
pub fn preview_can_read(parts: &ParsedParts) -> (r: bool)
    ensures
        r == preview_readable(parts.view()),
{
    match &parts.body_text {
        Some(_) => true,
        None => match &parts.body_html {
            Some(h) => strip_tags_can_read(h.as_str()),
            None => true,
        },
    }
}

/// A one-line preview from a parsed message.
///
/// Prefers the plain-text alternative and falls back to stripping tags out of
/// the HTML one.
pub fn preview_of(parts: &ParsedParts) -> (r: String)
    requires
        preview_readable(parts.view()),
    ensures
        r@ == flatten_spec(preview_source(parts.view())),
{
    match &parts.body_text {
        Some(t) => preview_text(t.as_str()),
        None => match &parts.body_html {
            Some(h) => {
                let text = strip_tags(h.as_str());
                preview_text(text.as_str())
            },
            None => {
                assert(flatten_spec(Seq::<char>::empty()) =~= Seq::<char>::empty());
                String::new()
            },
        },
    }
}

/// The domain the provider proved the message comes from, read from the
/// first `Authentication-Results` field of the raw header block.
pub open spec fn verified_domain_spec(header: Option<Seq<u8>>) -> Option<Seq<char>> {
    match header {
        Some(h) => if vstd::utf8::valid_utf8(h) {
            match crate::auth::first_header_spec(
                vstd::utf8::decode_utf8(h),
                "Authentication-Results"@,
            ) {
                Some(v) => match crate::auth::parse_spec(v) {
                    crate::auth::AuthView::Verified(d) => Some(d),
                    _ => None,
                },
                None => None,
            }
        } else {
            None
        },
        None => None,
    }
}

/// Reads the provider's verdict out of a raw header block.
pub fn verified_domain_of(header: Option<&[u8]>) -> (r: Option<String>)
    ensures
        opt_view(r) == verified_domain_spec(
            match header {
                Some(h) => Some(h@),
                None => None,
            },
        ),
{
    match header {
        Some(h) => match from_utf8(h) {
            Some(text) => match crate::auth::first_header(text.as_str(), "Authentication-Results") {
                Some(value) => {
                    let verdict = crate::auth::parse(value.as_str());
                    match verdict.verified_domain() {
                        Some(d) => Some(d.to_owned()),
                        None => None,
                    }
                },
                None => None,
            },
            None => None,
        },
        None => None,
    }
}

pub open spec fn has_flag(flags: Seq<Flag>, f: Flag) -> bool {
    flags.contains(f)
}

fn flag_present(flags: &Vec<Flag>, seen: bool) -> (r: bool)
    ensures
        r == has_flag(flags@, if seen { Flag::Seen } else { Flag::Flagged }),
{
    let mut i: usize = 0;
    while i < flags.len()
        invariant
            i <= flags.len(),
            forall|k: int|
                0 <= k < i ==> flags@[k] != (if seen {
                    Flag::Seen
                } else {
                    Flag::Flagged
                }),
        decreases flags.len() - i,
    {
        let hit = match &flags[i] {
            Flag::Seen => seen,
            Flag::Flagged => !seen,
            _ => false,
        };
        if hit {
            assert(flags@[i as int] == (if seen {
                Flag::Seen
            } else {
                Flag::Flagged
            }));
            return true;
        }
        i += 1;
    }
    false
}

pub open spec fn str_or_empty(o: Option<Seq<char>>) -> Seq<char> {
    match o {
        Some(s) => s,
        None => Seq::<char>::empty(),
    }
}

pub struct FetchedView {
    pub uid: Option<u32>,
    pub flags: Seq<Flag>,
    pub internal_date: Option<Seq<char>>,
    pub header: Option<Seq<u8>>,
    pub text: Option<Seq<u8>>,
}

impl Fetched {
    pub open spec fn view(&self) -> FetchedView {
        FetchedView {
            uid: self.uid,
            flags: self.flags@,
            internal_date: opt_view(self.internal_date),
            header: bytes_view(self.header),
            text: bytes_view(self.text),
        }
    }
}

pub struct RawEnvelopeView {
    pub from: Option<Seq<RawAddressView>>,
    pub to: Option<Seq<RawAddressView>>,
    pub subject: Option<Seq<u8>>,
}

impl RawEnvelope {
    pub open spec fn view(&self) -> RawEnvelopeView {
        RawEnvelopeView {
            from: raw_list_view(self.from),
            to: raw_list_view(self.to),
            subject: bytes_view(self.subject),
        }
    }
}

/// The list row for one fetched message. Parsed values win; the raw ENVELOPE
/// stays as the fallback, so a message mail-parser chokes on still shows
/// something rather than a blank row. A message whose only text is HTML that
/// `strip_tags` cannot read previews from the raw body slice instead.
pub open spec fn assemble_spec(
    account_id: Seq<char>,
    mailbox: Seq<char>,
    uid_validity: u32,
    uid: u32,
    f: FetchedView,
    env: RawEnvelopeView,
    parsed: Option<ParsedPartsView>,
) -> EnvelopeView {
    let id = message_id_spec(mailbox, uid_validity, uid);
    let from_parsed = match parsed {
        Some(p) => parsed_addresses_spec(p.from),
        None => Seq::<EmailAddressView>::empty(),
    };
    let to_parsed = match parsed {
        Some(p) => parsed_addresses_spec(p.to),
        None => Seq::<EmailAddressView>::empty(),
    };
    let preview_parsed = match parsed {
        Some(p) => if preview_readable(p) {
            flatten_spec(preview_source(p))
        } else {
            Seq::<char>::empty()
        },
        None => Seq::<char>::empty(),
    };
    EnvelopeView {
        id: id,
        account_id: account_id,
        thread_id: id,
        mailbox_ids: seq![mailbox],
        from: if from_parsed.len() > 0 {
            from_parsed
        } else {
            raw_addresses_spec(env.from)
        },
        to: if to_parsed.len() > 0 {
            to_parsed
        } else {
            raw_addresses_spec(env.to)
        },
        subject: match parsed {
            Some(p) if p.subject is Some => p.subject->0,
            _ => decoded_spec(env.subject),
        },
        preview: if preview_parsed.len() > 0 {
            preview_parsed
        } else {
            preview_from_spec(f.text)
        },
        received_at: str_or_empty(f.internal_date),
        is_unread: !has_flag(f.flags, Flag::Seen),
        is_flagged: has_flag(f.flags, Flag::Flagged),
        has_attachment: false,
        verified_domain: verified_domain_spec(f.header),
        message_id: match parsed {
            Some(p) => p.message_id,
            None => None,
        },
        references: match parsed {
            Some(p) if p.references is Some => p.references->0,
            _ => Seq::<Seq<char>>::empty(),
        },
    }
}

fn bytes_ref(o: &Option<Vec<u8>>) -> (r: Option<&[u8]>)
    ensures
        match r {
            Some(b) => bytes_view(*o) == Some(b@),
            None => o is None,
        },
{
    match o {
        Some(b) => Some(b.as_slice()),
        None => None,
    }
}

fn clone_strings(v: &Vec<String>) -> (r: Vec<String>)
    ensures
        strs_view(r@) == strs_view(v@),
{
    let mut out: Vec<String> = Vec::new();
    let mut i: usize = 0;
    while i < v.len()
        invariant
            i <= v.len(),
            strs_view(out@) == strs_view(v@).take(i as int),
        decreases v.len() - i,
    {
        let ghost before = strs_view(out@);
        out.push(v[i].clone());
        assert(strs_view(out@) =~= before.push(v@[i as int]@));
        i += 1;
        assert(strs_view(v@).take(i as int) =~= strs_view(v@).take(i - 1).push(v@[i - 1]@));
    }
    assert(strs_view(v@).take(v.len() as int) =~= strs_view(v@));
    out
}

fn clone_opt(o: &Option<String>) -> (r: Option<String>)
    ensures
        opt_view(r) == opt_view(*o),
{
    match o {
        Some(s) => Some(s.clone()),
        None => None,
    }
}

/// Builds the list row for one fetched message from what the server sent and
/// what mail-parser made of it.
pub fn assemble_envelope(
    account_id: &str,
    mailbox: &str,
    uid_validity: u32,
    uid: u32,
    fetch: &Fetched,
    envelope: &RawEnvelope,
    parsed: Option<&ParsedParts>,
) -> (r: Envelope)
    ensures
        r.view() == assemble_spec(
            account_id@,
            mailbox@,
            uid_validity,
            uid,
            fetch.view(),
            envelope.view(),
            match parsed {
                Some(p) => Some(p.view()),
                None => None,
            },
        ),
{
    let id = message_id(mailbox, uid_validity, uid);
    let from_parsed = match parsed {
        Some(p) => parsed_addresses(
            match &p.from {
                Some(g) => Some(g),
                None => None,
            },
        ),
        None => Vec::new(),
    };
    let from = if from_parsed.len() > 0 {
        from_parsed
    } else {
        addresses(
            match &envelope.from {
                Some(l) => Some(l),
                None => None,
            },
        )
    };
    let to_parsed = match parsed {
        Some(p) => parsed_addresses(
            match &p.to {
                Some(g) => Some(g),
                None => None,
            },
        ),
        None => Vec::new(),
    };
    let to = if to_parsed.len() > 0 {
        to_parsed
    } else {
        addresses(
            match &envelope.to {
                Some(l) => Some(l),
                None => None,
            },
        )
    };
    let subject = match parsed {
        Some(p) => match &p.subject {
            Some(s) => s.clone(),
            None => decoded(bytes_ref(&envelope.subject)),
        },
        None => decoded(bytes_ref(&envelope.subject)),
    };
    let preview_parsed = match parsed {
        Some(p) => if preview_can_read(p) {
            preview_of(p)
        } else {
            String::new()
        },
        None => String::new(),
    };
    let preview = if !preview_parsed.as_str().is_empty() {
        preview_parsed
    } else {
        preview_from(bytes_ref(&fetch.text))
    };
    let received_at = match &fetch.internal_date {
        Some(d) => d.clone(),
        None => String::new(),
    };
    let mut mailbox_ids: Vec<String> = Vec::new();
    mailbox_ids.push(mailbox.to_owned());
    assert(strs_view(mailbox_ids@) =~= seq![mailbox@]);
    let message_id = match parsed {
        Some(p) => clone_opt(&p.message_id),
        None => None,
    };
    let references = match parsed {
        Some(p) => match &p.references {
            Some(r) => clone_strings(r),
            None => Vec::new(),
        },
        None => Vec::new(),
    };
    assert(parsed is None || parsed->0.references is None ==> strs_view(references@) =~= Seq::<Seq<char>>::empty());
    let thread_id = id.clone();
    Envelope {
        id,
        account_id: account_id.to_owned(),
        thread_id,
        mailbox_ids,
        from,
        to,
        subject,
        preview,
        received_at,
        is_unread: !flag_present(&fetch.flags, true),
        is_flagged: flag_present(&fetch.flags, false),
        has_attachment: false,
        verified_domain: verified_domain_of(bytes_ref(&fetch.header)),
        message_id,
        references,
    }
}

/// Whether `MessageParser::default().parse` of `mail-parser` finds a message
/// in these bytes.
pub uninterp spec fn mail_parses(raw: Seq<u8>) -> bool;

/// The From addresses `mail-parser` reads in these bytes, as groups of
/// name and address (a plain list is one group); `None` where it finds no
/// message or no From.
pub uninterp spec fn mail_from(raw: Seq<u8>) -> Option<Seq<Seq<ParsedAddrView>>>;

/// The To addresses `mail-parser` reads in these bytes, as `mail_from`.
pub uninterp spec fn mail_to(raw: Seq<u8>) -> Option<Seq<Seq<ParsedAddrView>>>;

/// The subject `mail-parser` reads in these bytes, decoded.
pub uninterp spec fn mail_subject(raw: Seq<u8>) -> Option<Seq<char>>;

/// The first plain-text body `mail-parser` finds in these bytes, decoded.
pub uninterp spec fn mail_body_text(raw: Seq<u8>) -> Option<Seq<char>>;

/// The first HTML body `mail-parser` finds in these bytes, decoded.
pub uninterp spec fn mail_body_html(raw: Seq<u8>) -> Option<Seq<char>>;

/// The Message-ID `mail-parser` reads in these bytes.
pub uninterp spec fn mail_message_id(raw: Seq<u8>) -> Option<Seq<char>>;

/// The References `mail-parser` reads in these bytes, as a list of ids.
pub uninterp spec fn mail_references(raw: Seq<u8>) -> Option<Seq<Seq<char>>>;

/// What `mail-parser` makes of a raw message, part by part; `None` where it
/// finds no message.
pub open spec fn parts_of(raw: Seq<u8>) -> Option<ParsedPartsView> {
    if mail_parses(raw) {
        Some(
            ParsedPartsView {
                from: mail_from(raw),
                to: mail_to(raw),
                subject: mail_subject(raw),
                body_text: mail_body_text(raw),
                body_html: mail_body_html(raw),
                message_id: mail_message_id(raw),
                references: mail_references(raw),
            },
        )
    } else {
        None
    }
}

/// `MessageParser::default().parse` of `mail-parser`: whether it finds a
/// message, named `mail_parses` of the bytes. The crate's own account of
/// its robustness is that it is fuzzed.
#[verifier::external_body]
fn parses(raw: &[u8]) -> (r: bool)
    ensures
        r == mail_parses(raw@),
{
    mail_parser::MessageParser::default().parse(raw).is_some()
}

/// `Message::from` of what `MessageParser::default().parse` finds, each
/// entry's name and address copied, named `mail_from` of the bytes.
#[verifier::external_body]
fn parsed_from(raw: &[u8]) -> (r: Option<Vec<Vec<ParsedAddr>>>)
    ensures
        groups_opt_view(r) == mail_from(raw@),
{
    let m = mail_parser::MessageParser::default().parse(raw)?;
    let one = |x: &mail_parser::Addr<'_>| ParsedAddr {
        name: x.name.as_deref().map(str::to_owned),
        address: x.address.as_deref().map(str::to_owned),
    };
    m.from().map(|a| match a {
        mail_parser::Address::List(list) => vec![list.iter().map(one).collect()],
        mail_parser::Address::Group(gs) => gs.iter().map(|g| g.addresses.iter().map(one).collect()).collect(),
    })
}

/// `Message::to` of what `MessageParser::default().parse` finds, each
/// entry's name and address copied, named `mail_to` of the bytes.
#[verifier::external_body]
fn parsed_to(raw: &[u8]) -> (r: Option<Vec<Vec<ParsedAddr>>>)
    ensures
        groups_opt_view(r) == mail_to(raw@),
{
    let m = mail_parser::MessageParser::default().parse(raw)?;
    let one = |x: &mail_parser::Addr<'_>| ParsedAddr {
        name: x.name.as_deref().map(str::to_owned),
        address: x.address.as_deref().map(str::to_owned),
    };
    m.to().map(|a| match a {
        mail_parser::Address::List(list) => vec![list.iter().map(one).collect()],
        mail_parser::Address::Group(gs) => gs.iter().map(|g| g.addresses.iter().map(one).collect()).collect(),
    })
}

/// `Message::subject` of what `MessageParser::default().parse` finds, owned,
/// named `mail_subject` of the bytes.
#[verifier::external_body]
fn parsed_subject(raw: &[u8]) -> (r: Option<String>)
    ensures
        opt_view(r) == mail_subject(raw@),
{
    mail_parser::MessageParser::default().parse(raw)?.subject().map(str::to_owned)
}

/// `Message::body_text(0)` of what `MessageParser::default().parse` finds,
/// owned, named `mail_body_text` of the bytes.
#[verifier::external_body]
fn parsed_body_text(raw: &[u8]) -> (r: Option<String>)
    ensures
        opt_view(r) == mail_body_text(raw@),
{
    mail_parser::MessageParser::default().parse(raw)?.body_text(0).map(|c| c.into_owned())
}

/// `Message::body_html(0)` of what `MessageParser::default().parse` finds,
/// owned, named `mail_body_html` of the bytes.
#[verifier::external_body]
fn parsed_body_html(raw: &[u8]) -> (r: Option<String>)
    ensures
        opt_view(r) == mail_body_html(raw@),
{
    mail_parser::MessageParser::default().parse(raw)?.body_html(0).map(|c| c.into_owned())
}

/// `Message::message_id` of what `MessageParser::default().parse` finds,
/// owned, named `mail_message_id` of the bytes.
#[verifier::external_body]
fn parsed_message_id(raw: &[u8]) -> (r: Option<String>)
    ensures
        opt_view(r) == mail_message_id(raw@),
{
    mail_parser::MessageParser::default().parse(raw)?.message_id().map(str::to_owned)
}

/// `Message::references` of what `MessageParser::default().parse` finds,
/// read as a text list and owned, named `mail_references` of the bytes.
#[verifier::external_body]
fn parsed_references(raw: &[u8]) -> (r: Option<Vec<String>>)
    ensures
        match r {
            Some(v) => mail_references(raw@) == Some(strs_view(v@)),
            None => mail_references(raw@) is None,
        },
{
    let m = mail_parser::MessageParser::default().parse(raw)?;
    m.references().as_text_list().map(|l| l.iter().map(|r| r.to_string()).collect())
}

/// What mail-parser makes of a raw message, as plain values; `None` where it
/// finds no message at all.
pub fn read_parts(raw: &[u8]) -> (r: Option<ParsedParts>)
    ensures
        match r {
            Some(p) => parts_of(raw@) == Some(p.view()),
            None => parts_of(raw@) is None,
        },
{
    if !parses(raw) {
        return None;
    }
    let p = ParsedParts {
        from: parsed_from(raw),
        to: parsed_to(raw),
        subject: parsed_subject(raw),
        body_text: parsed_body_text(raw),
        body_html: parsed_body_html(raw),
        message_id: parsed_message_id(raw),
        references: parsed_references(raw),
    };
    assert(p.view().references == mail_references(raw@));
    Some(p)
}

/// The bytes handed to mail-parser for a list row: the header, then the
/// slice of the body, each empty where the server sent none.
pub open spec fn fetched_bytes(f: FetchedView) -> Seq<u8> {
    (match f.header {
        Some(h) => h,
        None => Seq::<u8>::empty(),
    }) + match f.text {
        Some(t) => t,
        None => Seq::<u8>::empty(),
    }
}

/// The list row for one message of a FETCH response; `None` for a message
/// that came without its UID or its ENVELOPE.
///
/// The header and the body slice are handed to mail-parser together, which
/// undoes RFC 2047 encoded-words and transfer encodings; whatever it makes
/// of them, the row is built by `assemble_envelope`.
pub fn project_envelope(account_id: &str, mailbox: &str, uid_validity: u32, fetch: &Fetched) -> (r:
    Option<Envelope>)
    ensures
        r is None <==> (fetch.uid is None || fetch.envelope is None),
        r matches Some(e) ==> e.view() == assemble_spec(
            account_id@,
            mailbox@,
            uid_validity,
            fetch.uid->0,
            fetch.view(),
            fetch.envelope->0.view(),
            parts_of(fetched_bytes(fetch.view())),
        ),
{
    let uid = match fetch.uid {
        Some(u) => u,
        None => {
            return None;
        },
    };
    let envelope = match &fetch.envelope {
        Some(e) => e,
        None => {
            return None;
        },
    };
    let mut raw: Vec<u8> = Vec::new();
    match &fetch.header {
        Some(h) => {
            let mut k: usize = 0;
            while k < h.len()
                invariant
                    k <= h.len(),
                    raw@ == h@.take(k as int),
                decreases h.len() - k,
            {
                raw.push(h[k]);
                k += 1;
                assert(raw@ =~= h@.take(k as int));
            }
            assert(h@.take(h.len() as int) =~= h@);
        },
        None => {},
    }
    let ghost head = raw@;
    match &fetch.text {
        Some(t) => {
            let mut k: usize = 0;
            while k < t.len()
                invariant
                    k <= t.len(),
                    raw@ == head + t@.take(k as int),
                decreases t.len() - k,
            {
                raw.push(t[k]);
                k += 1;
                assert(raw@ =~= head + t@.take(k as int));
            }
            assert(t@.take(t.len() as int) =~= t@);
        },
        None => {
            assert(raw@ =~= head + Seq::<u8>::empty());
        },
    }
    assert(raw@ == fetched_bytes(fetch.view()));
    let parsed = read_parts(raw.as_slice());
    let e = assemble_envelope(
        account_id,
        mailbox,
        uid_validity,
        uid,
        fetch,
        envelope,
        match &parsed {
            Some(p) => Some(p),
            None => None,
        },
    );
    let ghost pv = match parsed {
        Some(p) => Some(p.view()),
        None => None::<ParsedPartsView>,
    };
    assert(e.view() == assemble_spec(
        account_id@,
        mailbox@,
        uid_validity,
        uid,
        fetch.view(),
        envelope.view(),
        pv,
    ));
    Some(e)
}

/// The first sequence number of the newest `limit` messages of a mailbox
/// holding `total`: counted back from the end, never below 1. There is
/// nothing to fetch from an empty mailbox, nor for a limit of 0.
pub open spec fn first_sequence_spec(total: u32, limit: u32) -> Option<u32> {
    if total == 0 || limit == 0 {
        None
    } else if total <= limit {
        Some(1)
    } else {
        Some((total - limit + 1) as u32)
    }
}

/// Where the fetch of the newest `limit` messages starts; `None` when there
/// is nothing to fetch. Messages are fetched by sequence number counting
/// back from the end rather than by UID range: UIDs are sparse after
/// deletions.
pub fn first_sequence(total: u32, limit: u32) -> (r: Option<u32>)
    ensures
        r == first_sequence_spec(total, limit),
        r matches Some(f) ==> 1 <= f <= total && total - f + 1 == if limit < total {
            limit
        } else {
            total
        },
{
    if total == 0 || limit == 0 {
        None
    } else if total <= limit {
        Some(1)
    } else {
        Some(total - limit + 1)
    }
}

/// The sequence set `first:total` for the newest `limit` messages; `None`
/// when there is nothing to fetch.
pub fn fetch_range(total: u32, limit: u32) -> (r: Option<String>)
    ensures
        match first_sequence_spec(total, limit) {
            Some(f) => r matches Some(s) && s@ == decimal(f as nat).push(':') + decimal(total as nat),
            None => r is None,
        },
{
    let first = match first_sequence(total, limit) {
        Some(f) => f,
        None => {
            return None;
        },
    };
    let mut out = u32_to_decimal(first);
    out.push(':');
    append_all(&mut out, &u32_to_decimal(total));
    Some(string_of(&out))
}

/// Strictly before, in the order `String` compares by: character by
/// character, a proper prefix first.
pub open spec fn text_less(a: Seq<char>, b: Seq<char>) -> bool
    decreases a.len(),
{
    if a.len() == 0 {
        b.len() > 0
    } else if b.len() == 0 {
        false
    } else if a[0] != b[0] {
        a[0] < b[0]
    } else {
        text_less(a.drop_first(), b.drop_first())
    }
}

pub proof fn lemma_text_less_asymmetric(a: Seq<char>, b: Seq<char>)
    ensures
        !(text_less(a, b) && text_less(b, a)),
    decreases a.len(),
{
    if a.len() > 0 && b.len() > 0 && a[0] == b[0] {
        lemma_text_less_asymmetric(a.drop_first(), b.drop_first());
    }
}

pub proof fn lemma_text_less_transitive(a: Seq<char>, b: Seq<char>, c: Seq<char>)
    requires
        text_less(a, b),
        text_less(b, c),
    ensures
        text_less(a, c),
    decreases a.len(),
{
    if a.len() > 0 && b.len() > 0 && c.len() > 0 && a[0] == b[0] && b[0] == c[0] {
        lemma_text_less_transitive(a.drop_first(), b.drop_first(), c.drop_first());
    }
}

pub proof fn lemma_text_less_total(a: Seq<char>, b: Seq<char>)
    ensures
        text_less(a, b) || text_less(b, a) || a == b,
    decreases a.len(),
{
    if a.len() > 0 && b.len() > 0 && a[0] == b[0] {
        lemma_text_less_total(a.drop_first(), b.drop_first());
        if a.drop_first() == b.drop_first() {
            assert(a =~= seq![a[0]] + a.drop_first());
            assert(b =~= seq![b[0]] + b.drop_first());
        }
    } else if a.len() == 0 && b.len() == 0 {
        assert(a =~= b);
    }
}

fn text_lt(a: &Vec<char>, b: &Vec<char>) -> (r: bool)
    ensures
        r == text_less(a@, b@),
{
    let mut i: usize = 0;
    assert(a@.skip(0) =~= a@);
    assert(b@.skip(0) =~= b@);
    while i < a.len() && i < b.len() && a[i] == b[i]
        invariant
            i <= a.len(),
            i <= b.len(),
            text_less(a@, b@) == text_less(a@.skip(i as int), b@.skip(i as int)),
        decreases a.len() - i,
    {
        assert(a@.skip(i as int).drop_first() =~= a@.skip(i + 1));
        assert(b@.skip(i as int).drop_first() =~= b@.skip(i + 1));
        i += 1;
    }
    if i == a.len() {
        i < b.len()
    } else if i == b.len() {
        false
    } else {
        assert(a@.skip(i as int)[0] == a@[i as int]);
        assert(b@.skip(i as int)[0] == b@[i as int]);
        a[i] < b[i]
    }
}

/// Where a message with receipt time `key` goes in a list already newest
/// first: before the first older message, after every message at least as new.
pub open spec fn insert_pos(s: Seq<EnvelopeView>, key: Seq<char>) -> int
    decreases s.len(),
{
    if s.len() == 0 {
        0
    } else if text_less(s[0].received_at, key) {
        0
    } else {
        1 + insert_pos(s.drop_first(), key)
    }
}

/// Messages newest first by receipt time, those received at the same time in
/// the order they came: a stable sort.
pub open spec fn newest_first(v: Seq<EnvelopeView>) -> Seq<EnvelopeView>
    decreases v.len(),
{
    if v.len() == 0 {
        Seq::<EnvelopeView>::empty()
    } else {
        let s = newest_first(v.drop_last());
        s.insert(insert_pos(s, v.last().received_at), v.last())
    }
}

proof fn lemma_insert_pos(s: Seq<EnvelopeView>, key: Seq<char>, p: int)
    requires
        0 <= p <= s.len(),
        forall|q: int| 0 <= q < p ==> !text_less(#[trigger] s[q].received_at, key),
        p == s.len() || text_less(s[p].received_at, key),
    ensures
        insert_pos(s, key) == p,
    decreases p,
{
    if p > 0 {
        assert forall|q: int| 0 <= q < p - 1 implies !text_less(
            #[trigger] s.drop_first()[q].received_at,
            key,
        ) by {
            assert(s.drop_first()[q] == s[q + 1]);
        }
        if p < s.len() {
            assert(s.drop_first()[p - 1] == s[p]);
        }
        lemma_insert_pos(s.drop_first(), key, p - 1);
    }
}

proof fn lemma_insert_pos_bounds(s: Seq<EnvelopeView>, key: Seq<char>)
    ensures
        0 <= insert_pos(s, key) <= s.len(),
        forall|q: int| 0 <= q < insert_pos(s, key) ==> !text_less(#[trigger] s[q].received_at, key),
        insert_pos(s, key) < s.len() ==> text_less(s[insert_pos(s, key)].received_at, key),
    decreases s.len(),
{
    if s.len() > 0 && !text_less(s[0].received_at, key) {
        lemma_insert_pos_bounds(s.drop_first(), key);
        assert forall|q: int| 0 <= q < insert_pos(s, key) implies !text_less(
            #[trigger] s[q].received_at,
            key,
        ) by {
            if q > 0 {
                assert(s[q] == s.drop_first()[q - 1]);
            }
        }
        if insert_pos(s, key) < s.len() {
            assert(s[insert_pos(s, key)] == s.drop_first()[insert_pos(s, key) - 1]);
        }
    }
}

/// Ordered newest first: no message stands before a newer one.
pub open spec fn is_newest_first(s: Seq<EnvelopeView>) -> bool {
    forall|i: int, j: int|
        0 <= i < j < s.len() ==> !text_less(#[trigger] s[i].received_at, #[trigger] s[j].received_at)
}

/// The envelope list comes out newest first, holding exactly the messages it
/// was given.
pub proof fn lemma_newest_first_sorted(v: Seq<EnvelopeView>)
    ensures
        is_newest_first(newest_first(v)),
        newest_first(v).to_multiset() == v.to_multiset(),
    decreases v.len(),
{
    broadcast use vstd::seq_lib::group_seq_properties;
    broadcast use vstd::multiset::group_multiset_axioms;

    if v.len() > 0 {
        lemma_newest_first_sorted(v.drop_last());
        let s = newest_first(v.drop_last());
        let e = v.last();
        let key = e.received_at;
        let p = insert_pos(s, key);
        lemma_insert_pos_bounds(s, key);
        let r = s.insert(p, e);
        assert(r == newest_first(v));
        s.insert_ensures(p, e);
        assert forall|i: int, j: int| 0 <= i < j < r.len() implies !text_less(
            #[trigger] r[i].received_at,
            #[trigger] r[j].received_at,
        ) by {
            if j < p {
                assert(r[i] == s[i] && r[j] == s[j]);
            } else if j == p {
                assert(r[i] == s[i]);
            } else if i < p {
                assert(r[i] == s[i] && r[j] == s[j - 1]);
            } else if i == p {
                assert(r[j] == s[j - 1]);
                assert(text_less(s[p].received_at, key));
                if p < j - 1 {
                    assert(!text_less(s[p].received_at, s[j - 1].received_at));
                }
                if text_less(key, s[j - 1].received_at) {
                    if p == j - 1 {
                        lemma_text_less_asymmetric(s[p].received_at, key);
                    } else {
                        lemma_text_less_transitive(s[p].received_at, key, s[j - 1].received_at);
                    }
                }
            } else {
                assert(r[i] == s[i - 1] && r[j] == s[j - 1]);
            }
        }
        assert(s.subrange(0, p) + s.subrange(p, s.len() as int) =~= s);
        assert(r.to_multiset() == s.to_multiset().insert(e)) by {
            vstd::seq_lib::lemma_multiset_commutative(s.subrange(0, p).push(e), s.subrange(p, s.len() as int));
            vstd::seq_lib::lemma_multiset_commutative(s.subrange(0, p), s.subrange(p, s.len() as int));
        }
        assert(v.drop_last().push(e) =~= v);
    }
}

/// Sorts a fetched batch newest first; messages received at the same time
/// keep the order the server gave them.
pub fn sort_newest_first(v: Vec<Envelope>) -> (r: Vec<Envelope>)
    ensures
        envelopes_view(r@) == newest_first(envelopes_view(v@)),
{
    let ghost orig = envelopes_view(v@);
    let total = v.len();
    assert(orig.len() == total);
    let mut rest = v;
    let mut out: Vec<Envelope> = Vec::new();
    let mut n: usize = 0;
    while rest.len() > 0
        invariant
            n + rest.len() == orig.len(),
            orig.len() <= usize::MAX,
            envelopes_view(rest@) == orig.skip(n as int),
            envelopes_view(out@) == newest_first(orig.take(n as int)),
        decreases rest.len(),
    {
        let ghost before = rest@;
        assert(envelopes_view(before)[0] == before[0].view());
        let e = rest.remove(0);
        assert(e.view() == orig[n as int]);
        assert(forall|k: int| 0 <= k < rest@.len() ==> #[trigger] rest@[k] == before[k + 1]);
        assert forall|k: int| 0 <= k < rest@.len() implies #[trigger] envelopes_view(rest@)[k]
            == orig.skip(n + 1)[k] by {
            assert(envelopes_view(before)[k + 1] == before[k + 1].view());
        }
        assert(envelopes_view(rest@) =~= orig.skip(n + 1));
        let ghost ov = envelopes_view(out@);
        let mut p: usize = 0;
        while p < out.len() && !text_lt(&chars_of(out[p].received_at.as_str()), &chars_of(e.received_at.as_str()))
            invariant
                p <= out.len(),
                ov == envelopes_view(out@),
                forall|q: int| 0 <= q < p ==> !text_less(#[trigger] ov[q].received_at, e.received_at@),
            decreases out.len() - p,
        {
            assert(ov[p as int].received_at == out@[p as int].received_at@);
            p += 1;
        }
        proof {
            if p < out.len() {
                assert(ov[p as int].received_at == out@[p as int].received_at@);
            }
            lemma_insert_pos(ov, e.received_at@, p as int);
        }
        out.insert(p, e);
        assert(orig.take(n + 1).drop_last() =~= orig.take(n as int));
        assert(orig.take(n + 1).last() == e.view());
        assert(envelopes_view(out@) =~= ov.insert(p as int, e.view()));
        n += 1;
    }
    assert(orig.take(n as int) =~= orig);
    out
}

/// The IMAP flags the keywords stand for, keywords without one dropped.
pub open spec fn imap_flags_spec(keywords: Seq<Seq<char>>) -> Seq<Seq<char>>
    decreases keywords.len(),
{
    if keywords.len() == 0 {
        Seq::<Seq<char>>::empty()
    } else {
        match imap_flag_spec(keywords.last()) {
            Some(f) => imap_flags_spec(keywords.drop_last()).push(f),
            None => imap_flags_spec(keywords.drop_last()),
        }
    }
}

/// The STORE query that sets (`+FLAGS`) or clears (`-FLAGS`) the flags the
/// keywords stand for: `op (flag flag ...)`. Nothing to store gives `None`.
pub open spec fn flag_query_spec(op: Seq<char>, keywords: Seq<Seq<char>>) -> Option<Seq<char>> {
    let flags = imap_flags_spec(keywords);
    if flags.len() == 0 {
        None
    } else {
        Some(op + " ("@ + join_with(flags, ' ') + ")"@)
    }
}

/// Builds the STORE query for a set of JMAP keywords. The translation to
/// IMAP's backslash flags happens here, where the protocol difference
/// belongs; keywords IMAP has no flag for are left out.
pub fn flag_query(op: &str, keywords: &Vec<String>) -> (r: Option<String>)
    ensures
        opt_view(r) == flag_query_spec(op@, strs_view(keywords@)),
{
    let ghost kv = strs_view(keywords@);
    let mut flags: Vec<Vec<char>> = Vec::new();
    let mut i: usize = 0;
    while i < keywords.len()
        invariant
            i <= keywords.len(),
            kv == strs_view(keywords@),
            views(flags@) == imap_flags_spec(kv.take(i as int)),
        decreases keywords.len() - i,
    {
        assert(kv.take(i + 1).drop_last() =~= kv.take(i as int));
        assert(kv.take(i + 1).last() == keywords@[i as int]@);
        match imap_flag(keywords[i].as_str()) {
            Some(f) => {
                let ghost before = views(flags@);
                let fc = chars_of(f);
                flags.push(fc);
                assert(views(flags@) =~= before.push(fc@));
            },
            None => {},
        }
        i += 1;
    }
    assert(kv.take(keywords.len() as int) =~= kv);
    if flags.len() == 0 {
        return None;
    }
    let mut out = chars_of(op);
    append_all(&mut out, &chars_of(" ("));
    append_all(&mut out, &join_chars(&flags, ' '));
    append_all(&mut out, &chars_of(")"));
    Some(string_of(&out))
}

/// The body of a message fetched whole. An empty fetch and a message
/// mail-parser cannot read are refused; otherwise the first HTML and the
/// first plain-text part, as mail-parser finds them.
pub fn email_body(id: &str, raw: &[u8]) -> (r: Result<EmailBody, ImapError>)
    ensures
        raw@.len() == 0 <==> r matches Err(ImapError::NoBody(_)),
        r matches Err(ImapError::NoBody(s)) ==> s@ == id@,
        r matches Ok(b) ==> b.id@ == id@ && raw@.len() > 0,
        r matches Err(ImapError::Unparseable(s)) ==> s@ == id@,
        r is Ok <==> raw@.len() > 0 && mail_parses(raw@),
        r matches Ok(b) ==> opt_view(b.html) == mail_body_html(raw@) && opt_view(b.text) == mail_body_text(raw@),
        !(r matches Err(ImapError::NotAMessageId(_))),
{
    if raw.len() == 0 {
        return Err(ImapError::NoBody(id.to_owned()));
    }
    if !parses(raw) {
        return Err(ImapError::Unparseable(id.to_owned()));
    }
    Ok(
        EmailBody {
            id: id.to_owned(),
            html: parsed_body_html(raw),
            text: parsed_body_text(raw),
        },
    )
}

} // verus!
