use bazmail_core::config::{default_session_url, AccountConfig, Config, ImapConfig};
use bazmail_core::engine::{
    accounts_of, account_config, connect_label, filter_envelopes, has_inbox, imap_destination,
    inbox_ids, is_flag_change, label_from_username, mailbox_by_role, mailbox_change,
    move_account, over_fetch, read_change, refresh_token_rotated, sender_for,
    imap_account_config, oauth_account_config, token_account_config, Drain,
    set_account_color, token_lifetime, verified_account, EngineError,
    granted_refresh_token, oauth_account,
};
use bazmail_core::oauth::Tokens;
use bazmail_core::jmap::{AccountInfo, Session};
use bazmail_core::model::{Connection, Envelope, Mailbox, Mutation};

fn account(id: &str) -> AccountConfig {
    AccountConfig {
        id: id.into(),
        label: format!("{id}.com"),
        color: "#5b7cfa".into(),
        identity: format!("me@{id}.com"),
        session_url: default_session_url(),
        token: None,
        token_env: None,
        client_id: None,
        imap: None,
    }
}

fn config(ids: &[&str]) -> Config {
    let mut c = Config::default();
    for id in ids {
        c.upsert(account(id));
    }
    c
}

fn ids(c: &Config) -> Vec<&str> {
    c.accounts.iter().map(|a| a.id.as_str()).collect()
}

#[test]
fn accounts_are_moved_one_place_at_a_time() {
    let mut c = config(&["a", "b", "c"]);
    move_account(&mut c, "b", true);
    assert_eq!(ids(&c), vec!["b", "a", "c"]);
    move_account(&mut c, "b", true);
    assert_eq!(ids(&c), vec!["b", "a", "c"], "nowhere to go at the top");
    move_account(&mut c, "b", false);
    assert_eq!(ids(&c), vec!["a", "b", "c"]);
    move_account(&mut c, "c", false);
    assert_eq!(ids(&c), vec!["a", "b", "c"]);
    move_account(&mut c, "zz", false);
    assert_eq!(ids(&c), vec!["a", "b", "c"]);
}

#[test]
fn the_connection_is_read_from_the_config() {
    let mut c = config(&["tok", "oauth", "imap"]);
    c.accounts[1].client_id = Some("cid".into());
    c.accounts[2].imap = Some(ImapConfig { host: "h".into(), port: 993, username: "u".into() });
    c.accounts[2].client_id = Some("cid".into());
    let accounts = accounts_of(&c);
    assert_eq!(accounts[0].connection, Connection::Token);
    assert_eq!(accounts[1].connection, Connection::Oauth);
    assert_eq!(accounts[2].connection, Connection::Imap, "IMAP wins");
    assert_eq!(accounts[0].label, "tok.com");
}

#[test]
fn repainting_touches_one_account() {
    let mut c = config(&["a", "b"]);
    set_account_color(&mut c, "b", "#ff0000");
    assert_eq!(c.accounts[1].color, "#ff0000");
    assert_eq!(c.accounts[0].color, "#5b7cfa");
    assert_eq!(account_config(&c, "a").unwrap().id, "a");
    assert_eq!(account_config(&c, "x").err(), Some(EngineError::NoAccount("x".into())));
    assert_eq!(sender_for(&c, "b").unwrap().email, "me@b.com");
}

fn mailbox(id: &str, role: Option<&str>) -> Mailbox {
    Mailbox {
        id: id.into(),
        account_id: "acct".into(),
        name: id.into(),
        role: role.map(str::to_string),
        total_emails: 0,
        unread_emails: 0,
        sort_order: 0,
    }
}

#[test]
fn roles_find_mailboxes() {
    let ms = vec![mailbox("1", Some("sent")), mailbox("2", Some("inbox")), mailbox("3", Some("inbox"))];
    assert_eq!(mailbox_by_role(&ms, "acct", "inbox"), Ok("2".to_string()));
    assert_eq!(
        mailbox_by_role(&ms, "acct", "archive"),
        Err(EngineError::NoMailbox { account_id: "acct".into(), role: "archive".into() })
    );
    assert_eq!(inbox_ids(&ms), vec!["2".to_string(), "3".to_string()]);
    assert!(has_inbox(&ms));
    assert!(!has_inbox(&vec![mailbox("1", None)]));
}

fn s(v: &[&str]) -> Vec<String> {
    v.iter().map(|x| x.to_string()).collect()
}

#[test]
fn apply_mailbox_change_moves_the_message() {
    let after = mailbox_change(&s(&["inbox"]), &s(&["archive"]), &s(&["inbox"]));
    assert_eq!(after, s(&["archive"]));
}

#[test]
fn apply_mailbox_change_leaves_other_mailboxes_alone() {
    let after = mailbox_change(&s(&["inbox", "starred"]), &s(&["archive"]), &s(&["inbox"]));
    assert_eq!(after, s(&["starred", "archive"]));
    let again = mailbox_change(&after, &s(&["archive"]), &s(&[]));
    assert_eq!(again, after, "adding what is there adds nothing");
}

fn envelope(id: &str, mailbox: &str) -> Envelope {
    Envelope {
        id: id.into(),
        account_id: "acct".into(),
        thread_id: id.into(),
        mailbox_ids: vec![mailbox.into()],
        from: vec![],
        to: vec![],
        subject: String::new(),
        preview: String::new(),
        received_at: String::new(),
        is_unread: true,
        is_flagged: false,
        has_attachment: false,
        verified_domain: None,
        message_id: None,
        references: Vec::new(),
    }
}

#[test]
fn envelopes_filter_by_mailbox() {
    let rows = vec![envelope("b", "archive"), envelope("a", "inbox"), envelope("c", "inbox")];
    let found = filter_envelopes(rows.clone(), &s(&["inbox"]), 10);
    assert_eq!(found.iter().map(|e| e.id.as_str()).collect::<Vec<_>>(), vec!["a", "c"]);
    let limited = filter_envelopes(rows.clone(), &s(&["inbox"]), 1);
    assert_eq!(limited.len(), 1);
    let all = filter_envelopes(rows, &s(&[]), 10);
    assert_eq!(all.len(), 3);
    assert_eq!(over_fetch(10, true), 80);
    assert_eq!(over_fetch(10, false), 10);
}

#[test]
fn tokens_are_trusted_a_minute_less() {
    assert_eq!(token_lifetime(None), 3540);
    assert_eq!(token_lifetime(Some(300)), 240);
    assert_eq!(token_lifetime(Some(70)), 30);
    assert_eq!(token_lifetime(Some(10)), 30);
    assert!(refresh_token_rotated(Some("new"), "old"));
    assert!(!refresh_token_rotated(Some("old"), "old"));
    assert!(!refresh_token_rotated(None, "old"));
}

#[test]
fn mutations_and_labels() {
    let (kind, add, remove) = read_change(true);
    assert_eq!(kind, "mark-read");
    assert_eq!(add, s(&["$seen"]));
    assert!(remove.is_empty());
    let (kind, add, remove) = read_change(false);
    assert_eq!(kind, "mark-unread");
    assert!(add.is_empty());
    assert_eq!(remove, s(&["$seen"]));
    let m = Mutation {
        id: 1,
        account_id: "a".into(),
        email_id: "e".into(),
        kind: "archive".into(),
        add_mailbox_ids: s(&["archive"]),
        remove_mailbox_ids: s(&["inbox"]),
        add_flags: vec![],
        remove_flags: vec![],
        attempts: 0,
    };
    assert!(!is_flag_change(&m));
    assert_eq!(imap_destination(&s(&["archive", "x"])), Ok(&"archive".to_string()));
    assert_eq!(imap_destination(&s(&[])), Err(EngineError::NoDestination));
    assert_eq!(label_from_username("me@example.com"), "example.com");
    assert_eq!(label_from_username("me@"), "me@");
    assert_eq!(connect_label("  ".into(), "me@icloud.com"), "icloud.com");
    assert_eq!(connect_label("Mine".into(), "me@icloud.com"), "Mine");
}

#[test]
fn a_verified_token_reports_who_it_belongs_to() {
    let session = Session {
        api_url: "https://api.example/jmap".into(),
        username: "me@fastmail.com".into(),
        primary_accounts: vec![("urn:ietf:params:jmap:mail".into(), "u1".into())],
        accounts: vec![("u1".into(), AccountInfo { name: "Me".into() })],
    };
    let v = verified_account(&session);
    assert_eq!(v.username, "me@fastmail.com");
    assert_eq!(v.account_name, "Me");
    assert_eq!(v.suggested_id, "fastmail");
    assert_eq!(v.suggested_label, "fastmail.com");
}

#[test]
fn undo_puts_an_archived_message_back() {
    let start = s(&["inbox", "starred"]);
    let archived = mailbox_change(&start, &s(&["archive"]), &s(&["inbox"]));
    assert_eq!(archived, s(&["starred", "archive"]));
    let restored = mailbox_change(&archived, &s(&["inbox"]), &s(&["archive"]));
    assert_eq!(restored, s(&["starred", "inbox"]));
    let mut a = restored.clone();
    let mut b = start.clone();
    a.sort();
    b.sort();
    assert_eq!(a, b);
}

#[test]
fn saved_accounts_keep_their_secrets_out_of_the_file() {
    let imap = imap_account_config(
        "me-icloud-com".into(), "icloud.com".into(), "#fff".into(),
        "imap.mail.me.com".into(), 993, "me@icloud.com".into(),
    );
    assert_eq!(imap.identity, "me@icloud.com");
    assert_eq!(imap.session_url, "");
    assert!(imap.token.is_none() && imap.client_id.is_none());
    let i = imap.imap.unwrap();
    assert_eq!((i.host.as_str(), i.port, i.username.as_str()), ("imap.mail.me.com", 993, "me@icloud.com"));

    let oauth = oauth_account_config(
        "me-fastmail-com".into(), "fastmail.com".into(), "#000".into(),
        "me@fastmail.com".into(), default_session_url(), "client-1".into(),
    );
    assert_eq!(oauth.client_id.as_deref(), Some("client-1"));
    assert!(oauth.token.is_none() && oauth.imap.is_none());
    assert_eq!(accounts_of(&Config { accounts: vec![oauth.clone()] })[0].connection, Connection::Oauth);

    let token = token_account_config(
        "me-fastmail-com".into(), "fastmail.com".into(), "#000".into(),
        "me@fastmail.com".into(), default_session_url(),
    );
    assert!(token.token.is_none() && token.client_id.is_none() && token.imap.is_none());
    assert_eq!(accounts_of(&Config { accounts: vec![token] })[0].connection, Connection::Token);
}

fn mutation(id: i64, email: &str, kind: &str) -> Mutation {
    Mutation {
        id,
        account_id: "acct".into(),
        email_id: email.into(),
        kind: kind.into(),
        add_mailbox_ids: Vec::new(),
        remove_mailbox_ids: Vec::new(),
        add_flags: Vec::new(),
        remove_flags: Vec::new(),
        attempts: 0,
    }
}

#[test]
fn a_failed_archive_holds_back_its_undo() {
    let archive = mutation(1, "a", "archive");
    let undo = mutation(2, "a", "unarchive");
    let other = mutation(3, "b", "archive");
    let mut drain = Drain::new();
    assert!(drain.may_send(&archive));
    drain.record(&archive, false);
    assert!(!drain.may_send(&undo), "the undo must not overtake the archive");
    assert!(drain.may_send(&other), "other messages are not held back");
    drain.record(&other, true);
    assert_eq!(drain.sent, 1);
    assert_eq!(drain.blocked, vec![("acct".to_string(), "a".to_string())]);
}

#[test]
fn only_web_links_reach_the_browser() {
    assert!(bazmail_core::engine::opens_in_browser("https"));
    assert!(bazmail_core::engine::opens_in_browser("http"));
    assert!(!bazmail_core::engine::opens_in_browser("file"));
    assert!(!bazmail_core::engine::opens_in_browser("javascript"));
    assert!(!bazmail_core::engine::opens_in_browser("httpx"));
}

#[test]
fn a_sign_in_without_a_refresh_token_is_refused() {
    let tokens = Tokens { access_token: "a".into(), refresh_token: None, expires_in: Some(3600) };
    assert_eq!(granted_refresh_token(&tokens), Err(EngineError::NoRefreshToken));
    let tokens = Tokens { access_token: "a".into(), refresh_token: Some("r1".into()), expires_in: None };
    assert_eq!(granted_refresh_token(&tokens), Ok("r1".to_string()));
}

#[test]
fn an_oauth_account_is_named_after_its_address() {
    let (account, saved) = oauth_account(
        "me@Fast-Mail.com",
        "#abc".into(),
        "https://api.fastmail.com/jmap/session".into(),
        "client-1".into(),
    );
    assert_eq!(account.id, "fast-mail");
    assert_eq!(account.label, "Fast-Mail.com");
    assert_eq!(account.color, "#abc");
    assert_eq!(account.identity, "me@Fast-Mail.com");
    assert_eq!(account.connection, Connection::Oauth);
    assert_eq!(saved.id, "fast-mail");
    assert_eq!(saved.label, "Fast-Mail.com");
    assert_eq!(saved.identity, "me@Fast-Mail.com");
    assert_eq!(saved.session_url, "https://api.fastmail.com/jmap/session");
    assert_eq!(saved.client_id.as_deref(), Some("client-1"));
    assert!(saved.token.is_none() && saved.token_env.is_none() && saved.imap.is_none());
}
