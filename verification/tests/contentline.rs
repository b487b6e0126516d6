use bazmail_core::contentline::{parse_property, split_escaped, split_unquoted, unescape, unfold};

#[test]
fn contentline_a_folded_line_is_rejoined() {
    let raw = "SUMMARY:a very long\r\n  summary\r\n";
    assert_eq!(unfold(raw).trim(), "SUMMARY:a very long summary");
}

#[test]
fn a_colon_inside_a_quoted_parameter_does_not_end_the_name() {
    let p = parse_property(r#"DTSTART;TZID="Europe/London:x":20260101T090000"#).unwrap();
    assert_eq!(p.name, "dtstart");
    assert_eq!(p.value, "20260101T090000");
}

#[test]
fn a_group_prefix_is_separated_from_the_name() {
    let p = parse_property("item1.EMAIL;type=pref:a@b.example").unwrap();
    assert_eq!(p.name, "email");
    assert_eq!(p.group.as_deref(), Some("item1"));
    assert!(p.param_is("type", "PREF"), "compared without case");
}

#[test]
fn splitting_happens_before_unescaping() {
    let parts = split_escaped(r"A\; B;Second", ';');
    assert_eq!(parts.len(), 2);
    assert_eq!(unescape(&parts[0]), "A; B");
    assert_eq!(unescape(&parts[1]), "Second");
}

#[test]
fn a_line_without_a_colon_is_not_a_property() {
    assert!(parse_property("BEGIN VCARD").is_none());
}

#[test]
fn quoted_separators_do_not_split() {
    let parts = split_unquoted(r#"a;"b;c";d"#, ';');
    assert_eq!(parts, vec!["a".to_string(), "\"b;c\"".to_string(), "d".to_string()]);
}

#[test]
fn escapes_are_undone() {
    assert_eq!(unescape(r"a\nb\\c\,d"), "a\nb\\c,d");
}

#[test]
fn splitting_and_joining_gives_the_text_back() {
    let raw = r"x\;y;z;;w";
    let parts = split_escaped(raw, ';');
    assert_eq!(parts.join(";"), raw);
}

#[test]
fn unfolding_settles_in_one_pass() {
    let raw = "NOTE:one\r\n two\r\n\tthree\r\nFN:Ada\r\n";
    let once = unfold(raw);
    assert_eq!(once, "NOTE:onetwothree\nFN:Ada\n");
    assert_eq!(unfold(&once), once);
    assert!(once.split('\n').skip(1).all(|l| !l.starts_with(' ') && !l.starts_with('\t')));
}

#[test]
fn continuation_after_an_empty_line_settles() {
    let once = unfold("a\n\n b");
    assert_eq!(once, "a\nb");
    assert_eq!(unfold(&once), once);
    let through_blanks = unfold("a\n\n \n\tb");
    assert_eq!(through_blanks, "a\nb");
    assert_eq!(unfold(&through_blanks), through_blanks);
}

#[test]
fn a_repeated_parameter_key_collects_under_one_entry() {
    let p = parse_property("TEL;TYPE=cell;type=work;PREF:+1").unwrap();
    assert_eq!(p.params.entries.len(), 1);
    assert_eq!(p.params.entries[0].0, "type");
    assert_eq!(p.params.entries[0].1, vec!["cell".to_string(), "work".to_string(), "PREF".to_string()]);
    assert!(p.param_is("type", "WORK"));
}
