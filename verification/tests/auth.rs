use bazmail_core::auth::{first_header, parse, Authentication};

#[test]
fn reads_a_dmarc_pass() {
    let got = parse("mx.example.net; dmarc=pass header.from=apple.com; spf=pass");
    assert_eq!(
        got,
        Authentication::Verified {
            domain: "apple.com".into()
        }
    );
}

#[test]
fn policy_comments_do_not_become_results() {
    let got = parse(
        "mx1.example.net; dmarc=pass (p=REJECT sp=REJECT dis=NONE) header.from=Apple.com",
    );
    assert_eq!(
        got.verified_domain(),
        Some("apple.com"),
        "domain should be lowercased and the comment ignored"
    );
}

#[test]
fn a_failure_is_not_a_verification() {
    let got = parse("mx.example.net; dmarc=fail header.from=paypa1.com");
    assert_eq!(got, Authentication::Failed);
    assert_eq!(got.verified_domain(), None);
}

#[test]
fn spf_and_dkim_alone_prove_nothing_about_the_from_domain() {
    let got = parse(
        "mx.example.net; spf=pass smtp.mailfrom=bounces.sender.net; dkim=pass header.d=sender.net",
    );
    assert_eq!(got, Authentication::Unknown);
}

#[test]
fn an_absent_or_unreadable_header_is_unknown() {
    assert_eq!(parse(""), Authentication::Unknown);
    assert_eq!(parse("mx.example.net; none"), Authentication::Unknown);
}

#[test]
fn a_pass_without_a_from_domain_is_not_actionable() {
    assert_eq!(parse("mx.example.net; dmarc=pass"), Authentication::Unknown);
}

#[test]
fn the_verified_domain_is_always_lowercase() {
    let got = parse("mx.example.net; dmarc=pass header.from=EXAMPLE.Org");
    assert_eq!(got.verified_domain(), Some("example.org"));
}

#[test]
fn the_topmost_header_is_the_one_read() {
    let raw = "Received: from a\r\nAuthentication-Results: mx.example.net;\r\n dmarc=pass header.from=apple.com\r\nAuthentication-Results: evil.example; dmarc=pass header.from=bank.example\r\n\r\nbody";
    let value = first_header(raw, "authentication-results").unwrap();
    assert_eq!(value, "mx.example.net;\r\n dmarc=pass header.from=apple.com".replace("\r\n", ""));
    assert_eq!(parse(&value).verified_domain(), Some("apple.com"));
}

#[test]
fn a_missing_header_is_none() {
    assert_eq!(first_header("Subject: hi\r\n\r\nAuthentication-Results: x", "Authentication-Results"), None);
}
