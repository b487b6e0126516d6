use bazmail_core::model::{EmailAddress, Outgoing};
use bazmail_core::jmap::{
    find_args, identity_for, into_mailbox, patch, pick_body_value, send_plan, AccountInfo, JmapAddress,
    JmapEmail, JmapError, JmapIdentity, JmapMailbox, MethodResponse, Session, CAP_MAIL,
    CAP_SUBMISSION,
};

fn session(primary: &[(&str, &str)]) -> Session {
    Session {
        api_url: "https://api.example/jmap".into(),
        username: "me@example.com".into(),
        primary_accounts: primary.iter().map(|(k, v)| (k.to_string(), v.to_string())).collect(),
        accounts: vec![("u1".into(), AccountInfo { name: "Me".into() })],
    }
}

#[test]
fn the_mail_account_comes_from_the_session() {
    let s = session(&[(CAP_MAIL, "u1")]);
    assert_eq!(s.mail_account_id(), Ok("u1"));
    assert_eq!(s.submission_account_id(), Ok("u1"), "falls back to the mail account");
    let s = session(&[(CAP_MAIL, "u1"), (CAP_SUBMISSION, "u2")]);
    assert_eq!(s.submission_account_id(), Ok("u2"));
    let s = session(&[]);
    assert_eq!(s.mail_account_id(), Err(JmapError::NoMailAccount));
    assert_eq!(s.submission_account_id(), Err(JmapError::NoSubmissionAccount));
}

fn response(name: &str, call_id: &str) -> MethodResponse {
    MethodResponse {
        name: name.into(),
        has_args: true,
        error_type: None,
        error_description: None,
        call_id: call_id.into(),
    }
}

#[test]
fn a_jmap_error_is_an_error() {
    let rs = vec![response("Mailbox/get", "m0"), response("error", "g0")];
    assert_eq!(find_args(&rs, "m0"), Ok(0));
    assert_eq!(
        find_args(&rs, "g0"),
        Err(JmapError::MethodError {
            call_id: "g0".into(),
            kind: "unknown error".into(),
            detail: String::new()
        })
    );
    assert_eq!(find_args(&rs, "zz"), Err(JmapError::NoResponse("zz".into())));
    let mut bare = response("Email/get", "b0");
    bare.has_args = false;
    assert_eq!(find_args(&vec![bare], "b0"), Err(JmapError::Malformed("b0".into())));
}

fn email() -> JmapEmail {
    JmapEmail {
        id: "M1".into(),
        thread_id: String::new(),
        mailbox_ids: vec!["inbox".into()],
        keywords: vec!["$flagged".into()],
        from: Some(vec![JmapAddress { name: Some("Sarah".into()), email: "s@example.com".into() }]),
        to: None,
        subject: Some("Hi".into()),
        received_at: Some("2026-08-30T09:00:00Z".into()),
        preview: None,
        has_attachment: true,
        message_id: Some(vec!["<a@x>".into(), "<b@x>".into()]),
        references: None,
        authentication_results: Some(vec![
            "mx.example.net; dmarc=pass header.from=example.com".into(),
            "evil; dmarc=pass header.from=bank.example".into(),
        ]),
    }
}

#[test]
fn a_jmap_email_becomes_an_envelope() {
    let e = email().into_envelope("acct");
    assert_eq!(e.id, "M1");
    assert_eq!(e.thread_id, "M1", "no thread id: its own thread");
    assert_eq!(e.account_id, "acct");
    assert!(e.is_unread);
    assert!(e.is_flagged);
    assert_eq!(e.from[0].name.as_deref(), Some("Sarah"));
    assert!(e.to.is_empty());
    assert_eq!(e.preview, "");
    assert_eq!(e.message_id.as_deref(), Some("<a@x>"));
    assert_eq!(e.verified_domain.as_deref(), Some("example.com"), "the topmost verdict");
    assert!(e.references.is_empty());
}

#[test]
fn the_identity_matching_the_address_is_chosen() {
    let ids = vec![
        JmapIdentity { id: "i1".into(), email: "me@example.com".into() },
        JmapIdentity { id: "i2".into(), email: "Alias@Example.com".into() },
    ];
    assert_eq!(identity_for(&ids, "alias@example.com"), Ok("i2".to_string()));
    assert_eq!(identity_for(&ids, "other@example.com"), Ok("i1".to_string()));
    assert_eq!(
        identity_for(&vec![], "x@y"),
        Err(JmapError::NoIdentity("x@y".into()))
    );
}

#[test]
fn patches_add_then_remove() {
    let p = patch("mailboxIds", &vec!["a".into()], &vec!["b".into(), "a".into()]);
    assert_eq!(
        p,
        vec![
            ("mailboxIds/a".to_string(), true),
            ("mailboxIds/b".to_string(), false),
            ("mailboxIds/a".to_string(), false)
        ]
    );
}

#[test]
fn the_first_part_with_a_value_is_the_body() {
    let values = vec![("2".to_string(), "text two".to_string())];
    let parts = vec![None, Some("1".to_string()), Some("2".to_string())];
    assert_eq!(pick_body_value(&parts, &values).as_deref(), Some("text two"));
    assert_eq!(pick_body_value(&vec![Some("9".into())], &values), None);
}

#[test]
fn a_listed_mailbox_is_ours() {
    let m = into_mailbox(
        JmapMailbox {
            id: "mb".into(),
            name: "Inbox".into(),
            role: Some("inbox".into()),
            total_emails: 3,
            unread_emails: 1,
            sort_order: 2,
        },
        "acct",
    );
    assert_eq!(m.account_id, "acct");
    assert_eq!(m.role.as_deref(), Some("inbox"));
    assert_eq!(m.total_emails, 3);
}

fn outgoing(cc: &[&str], in_reply_to: Option<&str>, references: &[&str]) -> Outgoing {
    Outgoing {
        account_id: "fm".into(),
        to: vec![EmailAddress { name: None, email: "a@example.com".into() }],
        cc: cc.iter().map(|e| EmailAddress { name: Some("C".into()), email: e.to_string() }).collect(),
        bcc: Vec::new(),
        subject: "Hi".into(),
        text: "Hello".into(),
        in_reply_to: in_reply_to.map(str::to_owned),
        references: references.iter().map(|r| r.to_string()).collect(),
    }
}

#[test]
fn a_send_files_from_drafts_into_sent() {
    let plan = send_plan("d1", "s1", &outgoing(&[], None, &[]));
    assert_eq!(plan.drafts_key, "mailboxIds/d1");
    assert_eq!(plan.sent_key, "mailboxIds/s1");
    assert!(plan.cc.is_none());
    assert!(plan.bcc.is_none());
    assert!(plan.in_reply_to.is_none());
    assert!(plan.references.is_none());
}

#[test]
fn a_reply_carries_its_thread() {
    let plan = send_plan("d1", "s1", &outgoing(&["c@example.com"], Some("<p@x>"), &["<r@x>", "<p@x>"]));
    assert_eq!(plan.cc.unwrap()[0].email, "c@example.com");
    assert_eq!(plan.in_reply_to, Some(vec!["<p@x>".to_string()]));
    assert_eq!(plan.references, Some(vec!["<r@x>".to_string(), "<p@x>".to_string()]));
}

#[test]
fn a_refused_object_is_a_refused_send() {
    assert!(bazmail_core::jmap::set_refused(Some(1)));
    assert!(!bazmail_core::jmap::set_refused(Some(0)));
    assert!(!bazmail_core::jmap::set_refused(None));
}
