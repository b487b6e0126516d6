use bazmail_core::config::{
    account_id_from_address, default_session_url, AccountConfig, Config, ConfigError, ImapConfig,
};

fn account(id: &str) -> AccountConfig {
    AccountConfig {
        id: id.into(),
        label: format!("{id}.com"),
        color: "#5b7cfa".into(),
        identity: format!("me@{id}.com"),
        session_url: default_session_url(),
        token: None,
        token_env: None,
        client_id: None,
        imap: None,
    }
}

#[test]
fn upsert_replaces_rather_than_duplicating() {
    let mut config = Config::default();
    config.upsert(account("example"));
    let mut updated = account("example");
    updated.client_id = Some("new".into());
    config.upsert(updated);

    assert_eq!(config.accounts.len(), 1);
    assert_eq!(config.accounts[0].client_id.as_deref(), Some("new"));
}

#[test]
fn two_accounts_are_both_kept() {
    let mut config = Config::default();
    config.upsert(account("example"));
    config.upsert(account("icloud"));
    assert_eq!(config.accounts.len(), 2);
    assert!(!config.is_empty());
}

#[test]
fn removing_forgets_only_that_account() {
    let mut config = Config::default();
    config.upsert(account("example"));
    config.upsert(account("icloud"));
    config.remove("example");
    assert_eq!(config.accounts.len(), 1);
    assert_eq!(config.accounts[0].id, "icloud");
    config.remove("nobody");
    assert_eq!(config.accounts.len(), 1);
}

#[test]
fn the_kind_of_account_follows_its_fields() {
    let mut a = account("x");
    assert!(!a.is_oauth());
    assert!(!a.is_imap());
    a.client_id = Some("id".into());
    assert!(a.is_oauth());
    a.imap = Some(ImapConfig { host: "h".into(), port: 993, username: "u".into() });
    assert!(a.is_imap());
}

#[test]
fn ids_come_from_the_domain() {
    assert_eq!(account_id_from_address("you@example.com"), "example");
    assert_eq!(account_id_from_address("Me@Fast-Mail.COM"), "fast-mail");
    assert_eq!(account_id_from_address("local.part"), "local");
    assert_eq!(account_id_from_address("@@@"), "account");
    assert_eq!(account_id_from_address("a@b_c!.d"), "bc");
}

#[test]
fn the_environment_wins_then_the_store_then_the_file() {
    let mut a = account("example");
    a.token_env = Some("BAZMAIL_TOKEN".into());
    a.token = Some("inline".into());
    assert_eq!(a.resolve_token(Some("from-env"), Some("stored")), Ok("from-env".to_string()));
    assert_eq!(a.resolve_token(Some("   "), Some("stored")), Ok("stored".to_string()));
    assert_eq!(a.resolve_token(None, Some(" ")), Ok("inline".to_string()));
    assert_eq!(a.env_token(Some("x")), Some("x".to_string()));
    a.token = None;
    assert_eq!(
        a.resolve_token(None, None),
        Err(ConfigError::NoCredential("example".into()))
    );
    let b = account("plain");
    assert_eq!(b.env_token(Some("ignored")), None, "no variable named, nothing read");
}

#[test]
fn the_config_lives_under_appdata_or_home() {
    let l = Config::config_dir(Some("C:\\Users\\me\\AppData"), Some("/home/me")).unwrap();
    assert_eq!(l.base, "C:\\Users\\me\\AppData");
    assert_eq!(l.components, vec!["BazMail".to_string()]);
    let l = Config::config_path(None, Some("/home/me")).unwrap();
    assert_eq!(l.base, "/home/me");
    assert_eq!(
        l.components,
        vec![".config".to_string(), "bazmail".to_string(), "config.json".to_string()]
    );
    assert_eq!(Config::config_dir(None, None), Err(ConfigError::NoHome));
}
