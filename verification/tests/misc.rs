use bazmail_core::at_rest::{is_encrypted, is_plaintext_sqlite, protect, protection, AtRestError, Protection};
use bazmail_core::model::{EmailAddress, Outgoing};
use bazmail_core::smtp::{check_recipients, compose_plan, SmtpClient, SmtpError};

#[test]
fn protection_is_reported_honestly() {
    assert_eq!(protection(false, false), Protection::Volume);
    assert_eq!(protection(true, true), Protection::Encrypted);
    assert_eq!(protection(true, false), Protection::Refused);
    assert!(is_encrypted(Some(0x4000 | 0x20)));
    assert!(!is_encrypted(Some(0x20)));
    assert!(!is_encrypted(None));
}

#[test]
fn the_attribute_is_trusted_not_the_call() {
    assert_eq!(protect(false, false, false, "p"), Ok(()));
    assert_eq!(protect(true, true, true, "p"), Ok(()));
    assert_eq!(protect(true, true, false, "p"), Err(AtRestError::AttributeNotSet("p".into())));
    assert_eq!(protect(true, false, true, "p"), Err(AtRestError::CouldNotEncrypt("p".into())));
}

#[test]
fn the_sqlite_magic_is_recognised() {
    assert!(is_plaintext_sqlite(Some(b"SQLite format 3\0")));
    assert!(!is_plaintext_sqlite(Some(b"SQLite format 3!")));
    assert!(!is_plaintext_sqlite(Some(b"short")));
    assert!(!is_plaintext_sqlite(None));
}

#[test]
fn display_prefers_a_name_then_the_local_part() {
    let a = EmailAddress { name: Some("Sarah Chen".into()), email: "s@x".into() };
    assert_eq!(a.display(), "Sarah Chen");
    let b = EmailAddress { name: Some("  ".into()), email: "sarah@loopstudios.example".into() };
    assert_eq!(b.display(), "sarah");
    let c = EmailAddress { name: None, email: "@x".into() };
    assert_eq!(c.display(), "@x");
}

fn outgoing() -> Outgoing {
    Outgoing {
        account_id: "acct".into(),
        to: vec![EmailAddress { name: Some("Ada".into()), email: "ada@example.com".into() }],
        cc: vec![],
        bcc: vec![EmailAddress { name: None, email: "hidden@example.com".into() }],
        subject: "Hello".into(),
        text: "Body".into(),
        in_reply_to: Some("<p@x>".into()),
        references: vec![],
    }
}

#[test]
fn bcc_never_reaches_the_headers() {
    let from = EmailAddress { name: None, email: "me@example.com".into() };
    let plan = compose_plan(&from, &outgoing());
    assert_eq!(plan.from_name, "");
    assert_eq!(plan.to, vec![("Ada".to_string(), "ada@example.com".to_string())]);
    assert_eq!(plan.cc, None);
    assert_eq!(plan.references, None);
    assert_eq!(plan.in_reply_to.as_deref(), Some("<p@x>"));
    let client = SmtpClient::new("smtp.example.com".into(), 465, "me".into(), "pw".into());
    assert!(client.implicit_tls());
    let raw = client.compose(&from, &outgoing()).unwrap();
    let text = String::from_utf8_lossy(&raw);
    assert!(text.contains("ada@example.com"));
    assert!(!text.contains("hidden@example.com"));
    assert!(text.starts_with("From: "));
    assert!(text.contains("\r\nTo: "));
    assert!(text.contains("\r\nSubject: "));
    assert!(text.contains("\r\nIn-Reply-To: "));
    assert!(text.contains("Message-ID: "));
    assert!(text.contains("\r\nDate: "));
    assert!(text.contains("MIME-Version: 1.0\r\n"));
}

#[test]
fn a_message_needs_a_recipient() {
    assert_eq!(check_recipients(&vec![]), Err(SmtpError::NoRecipients));
    assert_eq!(check_recipients(&vec!["a@b".into()]), Ok(()));
}
