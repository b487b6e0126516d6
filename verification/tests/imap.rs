use bazmail_core::imap::{
    assemble_envelope, display_name, email_body, fetch_range, first_sequence, flag_query,
    imap_flag, leaf_name, listed_entry, message_id, parse_message_id, preview_from, preview_of,
    preview_text, project_envelope, read_parts, resolve_mailboxes, role_from_name,
    sort_newest_first, special_use_role, strip_tags, strip_tags_can_read, Fetched, Flag,
    ImapClient, ImapError, Listed, NameAttribute, RawAddress, RawEnvelope,
};
use bazmail_core::model::Envelope;

#[test]
fn encoded_subjects_are_decoded() {
    let raw = b"Subject: =?utf-8?B?SGVsbG8gdGhlcmU=?=

body
";
    let parsed = mail_parser::MessageParser::default().parse(raw.as_slice()).unwrap();
    assert_eq!(parsed.subject(), Some("Hello there"));
    let parts = read_parts(raw.as_slice()).unwrap();
    assert_eq!(parts.subject.as_deref(), Some("Hello there"));
}

#[test]
fn quoted_printable_html_previews_as_words() {
    let raw = b"Content-Type: text/html; charset=utf-8
Content-Transfer-Encoding: quoted-printable

<html lang=3D\"en\"><body><p>Your receipt is ready</p></body></html>
";
    let parsed = read_parts(raw.as_slice()).unwrap();
    let preview = preview_of(&parsed);
    assert!(
        preview.contains("Your receipt is ready"),
        "expected words, got {preview:?}"
    );
    assert!(!preview.contains("3D"), "quoted-printable leaked: {preview:?}");
    assert!(!preview.contains('<'), "markup leaked: {preview:?}");
}

#[test]
fn strip_tags_drops_script_and_style_content() {
    let html = "<style>p{color:red}</style><p>Real text</p><script>alert(1)</script>";
    let text = strip_tags(html);
    assert!(text.contains("Real text"));
    assert!(!text.contains("color"), "style content leaked: {text:?}");
    assert!(!text.contains("alert"), "script content leaked: {text:?}");
}

#[test]
fn message_ids_round_trip() {
    let id = message_id("INBOX", 12345, 678);
    let (mailbox, validity, uid) = parse_message_id(&id).unwrap();
    assert_eq!(mailbox, "INBOX");
    assert_eq!(validity, 12345);
    assert_eq!(uid, 678);
}

#[test]
fn message_ids_survive_mailboxes_with_separators_in_the_name() {
    let id = message_id("Archive/2026/Q3.notes", 9, 42);
    let (mailbox, _, uid) = parse_message_id(&id).unwrap();
    assert_eq!(mailbox, "Archive/2026/Q3.notes");
    assert_eq!(uid, 42);
}

#[test]
fn roles_fall_back_to_names_when_special_use_is_absent() {
    assert_eq!(role_from_name("INBOX").as_deref(), Some("inbox"));
    assert_eq!(role_from_name("Sent Messages").as_deref(), Some("sent"));
    assert_eq!(role_from_name("Deleted Messages").as_deref(), Some("trash"));
    assert_eq!(role_from_name("Work/Clients"), None);
}

#[test]
fn leaf_name_strips_the_hierarchy() {
    assert_eq!(leaf_name("Archive/2026/Q3", Some("/")), "Q3");
    assert_eq!(leaf_name("INBOX", Some("/")), "INBOX");
}

#[test]
fn only_the_inbox_gets_its_casing_rewritten() {
    assert_eq!(display_name("INBOX"), "Inbox");
    assert_eq!(display_name("inbox"), "Inbox");
    assert_eq!(display_name("Sent Messages"), "Sent Messages");
    assert_eq!(display_name("URGENT"), "URGENT");
}

#[test]
fn preview_collapses_whitespace() {
    let raw = b"Hello   there\r\n\r\n   from   iCloud\r\n";
    assert_eq!(preview_from(Some(raw)), "Hello there from iCloud");
}

#[test]
fn a_message_id_without_a_uid_is_refused() {
    assert_eq!(
        parse_message_id("INBOX\u{1}7"),
        Err(ImapError::NotAMessageId("INBOX\u{1}7".to_string()))
    );
    assert_eq!(
        parse_message_id("INBOX\u{1}x\u{1}5"),
        Ok(("INBOX".to_string(), 0, 5))
    );
    assert_eq!(message_id("INBOX", 1, 2), "INBOX\u{1}1\u{1}2");
}

#[test]
fn keywords_become_backslash_flags() {
    assert_eq!(imap_flag("$seen"), Some("\\Seen"));
    assert_eq!(imap_flag("$flagged"), Some("\\Flagged"));
    assert_eq!(imap_flag("$answered"), Some("\\Answered"));
    assert_eq!(imap_flag("$draft"), Some("\\Draft"));
    assert_eq!(imap_flag("$junk"), None);
    let add = vec!["$seen".to_string(), "$junk".to_string(), "$flagged".to_string()];
    assert_eq!(flag_query("+FLAGS", &add).as_deref(), Some("+FLAGS (\\Seen \\Flagged)"));
    assert_eq!(flag_query("-FLAGS", &vec!["$junk".to_string()]), None);
}

#[test]
fn a_leaf_name_with_a_longer_delimiter() {
    assert_eq!(leaf_name("a::b::c", Some("::")), "c");
    assert_eq!(leaf_name("a.b", Some("")), "a.b");
    assert_eq!(leaf_name("a.b", None), "a.b");
}

#[test]
fn the_declared_role_wins_and_a_guess_is_not_shared() {
    let listed = vec![
        Listed { path: "Sent".into(), name: "Sent".into(), special: None },
        Listed { path: "Sent Messages".into(), name: "Sent Messages".into(), special: Some("sent".into()) },
        Listed { path: "Trash".into(), name: "Trash".into(), special: None },
        Listed { path: "Deleted Messages".into(), name: "Deleted Messages".into(), special: None },
        Listed { path: "INBOX".into(), name: "Inbox".into(), special: None },
    ];
    let out = resolve_mailboxes("acct", &listed);
    assert_eq!(out.len(), 5, "nothing is hidden");
    assert_eq!(out[0].role, None, "the guess loses to the declaration");
    assert_eq!(out[1].role.as_deref(), Some("sent"));
    assert_eq!(out[2].role.as_deref(), Some("trash"));
    assert_eq!(out[3].role, None, "the second guess loses to the first");
    assert_eq!(out[4].role.as_deref(), Some("inbox"));
    assert!(out.iter().all(|m| m.account_id == "acct"));
}

#[test]
fn special_use_is_read_from_the_attributes() {
    assert_eq!(
        special_use_role(&[NameAttribute::Marked, NameAttribute::Junk, NameAttribute::Sent]).as_deref(),
        Some("junk")
    );
    assert_eq!(special_use_role(&[NameAttribute::NoInferiors]), None);
    assert!(listed_entry("[Gmail]", Some("/"), &[NameAttribute::NoSelect]).is_none());
    let entry = listed_entry("Lists/INBOX", Some("/"), &[NameAttribute::Archive]).unwrap();
    assert_eq!(entry.name, "Inbox");
    assert_eq!(entry.special.as_deref(), Some("archive"));
}

#[test]
fn the_newest_messages_are_fetched_by_sequence() {
    assert_eq!(first_sequence(500, 200), Some(301));
    assert_eq!(first_sequence(50, 200), Some(1));
    assert_eq!(first_sequence(7, 1), Some(7));
    assert_eq!(first_sequence(7, 0), None);
    assert_eq!(first_sequence(0, 10), None);
    assert_eq!(fetch_range(500, 200).as_deref(), Some("301:500"));
    assert_eq!(fetch_range(500, 0), None);
}

fn fetched(uid: u32, date: &str, text: &[u8]) -> Fetched {
    Fetched {
        uid: Some(uid),
        envelope: Some(RawEnvelope {
            from: Some(vec![RawAddress {
                name: Some(b"  ".to_vec()),
                mailbox: Some(b"sarah".to_vec()),
                host: Some(b"example.com".to_vec()),
            }]),
            to: None,
            subject: Some(b"Raw subject".to_vec()),
        }),
        flags: vec![Flag::Seen],
        internal_date: Some(date.to_string()),
        header: None,
        text: Some(text.to_vec()),
    }
}

#[test]
fn the_raw_envelope_is_the_fallback() {
    let f = fetched(9, "2026-08-30T09:00:00+00:00", b"Hello   world");
    let e = assemble_envelope("acct", "INBOX", 3, 9, &f, f.envelope.as_ref().unwrap(), None);
    assert_eq!(e.id, message_id("INBOX", 3, 9));
    assert_eq!(e.thread_id, e.id);
    assert_eq!(e.mailbox_ids, vec!["INBOX".to_string()]);
    assert_eq!(e.subject, "Raw subject");
    assert_eq!(e.from.len(), 1);
    assert_eq!(e.from[0].email, "sarah@example.com");
    assert_eq!(e.from[0].name, None, "a blank name is no name");
    assert_eq!(e.preview, "Hello world");
    assert!(!e.is_unread);
    assert!(!e.is_flagged);
    assert_eq!(e.verified_domain, None);
}

#[test]
fn a_fetch_without_a_uid_is_skipped() {
    let mut f = fetched(9, "x", b"");
    f.uid = None;
    assert!(project_envelope("acct", "INBOX", 3, &f).is_none());
}

#[test]
fn a_parsed_message_wins_over_the_raw_envelope() {
    let mut f = fetched(9, "2026-08-30T09:00:00+00:00", b"Body text here\r\n");
    f.header = Some(
        b"Authentication-Results: mx.example.net; dmarc=pass header.from=example.com\r\nFrom: Sarah Chen <sarah@example.com>\r\nSubject: =?utf-8?B?SGVsbG8gdGhlcmU=?=\r\nMessage-ID: <abc@example.com>\r\n\r\n".to_vec(),
    );
    let e = project_envelope("acct", "INBOX", 3, &f).unwrap();
    assert_eq!(e.subject, "Hello there");
    assert_eq!(e.from[0].name.as_deref(), Some("Sarah Chen"));
    assert_eq!(e.verified_domain.as_deref(), Some("example.com"));
    assert_eq!(e.message_id.as_deref(), Some("abc@example.com"));
    assert_eq!(e.preview, "Body text here");
}

fn envelope(id: &str, received_at: &str) -> Envelope {
    Envelope {
        id: id.into(),
        account_id: "acct".into(),
        thread_id: id.into(),
        mailbox_ids: vec!["inbox".into()],
        from: vec![],
        to: vec![],
        subject: String::new(),
        preview: String::new(),
        received_at: received_at.into(),
        is_unread: true,
        is_flagged: false,
        has_attachment: false,
        verified_domain: None,
        message_id: None,
        references: Vec::new(),
    }
}

#[test]
fn a_batch_sorts_newest_first_and_keeps_ties_in_order() {
    let sorted = sort_newest_first(vec![
        envelope("a", "2026-08-28T09:00:00Z"),
        envelope("b", "2026-08-30T09:00:00Z"),
        envelope("c", "2026-08-28T09:00:00Z"),
        envelope("d", "2026-08-29T09:00:00Z"),
    ]);
    let ids: Vec<&str> = sorted.iter().map(|e| e.id.as_str()).collect();
    assert_eq!(ids, vec!["b", "d", "a", "c"]);
}

#[test]
fn script_content_outside_ascii_is_refused_before_reading() {
    assert!(strip_tags_can_read("<p>caf\u{e9}</p>"));
    assert!(!strip_tags_can_read("<script>caf\u{e9}</script>"));
    assert_eq!(strip_tags("a<b>c</b>d"), "a c d");
}

#[test]
fn previews_are_cut_at_two_hundred_characters() {
    let long = "word ".repeat(100);
    let p = preview_text(&long);
    assert_eq!(p.chars().count(), 200);
    assert!(p.starts_with("word word"));
}

#[test]
fn an_empty_fetch_has_no_body() {
    assert_eq!(email_body("x", b""), Err(ImapError::NoBody("x".into())));
    let b = email_body("x", b"Subject: s\r\n\r\nplain words\r\n").unwrap();
    assert_eq!(b.id, "x");
    assert_eq!(b.text.as_deref().map(str::trim), Some("plain words"));
}

#[test]
fn the_client_keeps_its_connection_details() {
    let c = ImapClient::new("imap.mail.me.com".into(), 993, "me".into(), "pw".into());
    assert_eq!(c.host(), "imap.mail.me.com");
    assert_eq!(c.port(), 993);
    assert_eq!(c.username(), "me");
    assert_eq!(c.password(), "pw");
}

#[test]
fn parsed_parts_keep_each_header_in_its_place() {
    let raw = b"From: Ada <ada@example.com>\r\nTo: Bob <bob@example.com>\r\nSubject: Hi\r\nMessage-ID: <m1@example.com>\r\nReferences: <r1@example.com> <r2@example.com>\r\n\r\nHello\r\n";
    let p = read_parts(raw.as_slice()).unwrap();
    assert_eq!(p.from.as_ref().unwrap()[0][0].address.as_deref(), Some("ada@example.com"));
    assert_eq!(p.to.as_ref().unwrap()[0][0].address.as_deref(), Some("bob@example.com"));
    assert_eq!(p.subject.as_deref(), Some("Hi"));
    assert_eq!(p.message_id.as_deref(), Some("m1@example.com"));
    assert_eq!(p.references, Some(vec!["r1@example.com".to_string(), "r2@example.com".to_string()]));
    assert_eq!(p.body_text.as_deref().map(str::trim), Some("Hello"));
}
