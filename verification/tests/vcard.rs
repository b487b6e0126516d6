use base64::Engine;
use bazmail_core::vcard::{parse, parse_many};

const APPLE: &str = "BEGIN:VCARD\r\n\
VERSION:3.0\r\n\
UID:ABCD-1234\r\n\
N:Chen;Sarah;;;\r\n\
FN:Sarah Chen\r\n\
ORG:Loop Studios;Design\r\n\
item1.EMAIL;type=INTERNET;type=pref:sarah@loopstudios.example\r\n\
item1.X-ABLabel:Studio\r\n\
EMAIL;type=INTERNET;type=HOME:sarah@home.example\r\n\
TEL;type=CELL:+1 555 0100\r\n\
REV:2026-09-01T10:00:00Z\r\n\
END:VCARD\r\n";

#[test]
fn reads_a_card_from_icloud() {
    let c = parse(APPLE).expect("should parse");
    assert_eq!(c.uid, "ABCD-1234");
    assert_eq!(c.name, "Sarah Chen");
    assert_eq!(c.organisation.as_deref(), Some("Loop Studios"));
    assert_eq!(c.emails.len(), 2);
    assert_eq!(c.emails[0].value, "sarah@loopstudios.example");
    assert!(c.emails[0].preferred, "type=pref marks the one to use");
    assert_eq!(c.phones[0].value, "+1 555 0100");
    assert_eq!(c.revision.as_deref(), Some("2026-09-01T10:00:00Z"));
}

#[test]
fn a_group_label_reaches_the_address_it_belongs_to() {
    let c = parse(APPLE).unwrap();
    assert_eq!(c.emails[0].label, "studio");
    assert_eq!(c.emails[1].label, "home", "falls back to TYPE");
}

#[test]
fn transport_hints_are_not_labels() {
    let c = parse(APPLE).unwrap();
    assert!(c.emails.iter().all(|e| e.label != "internet"));
}

#[test]
fn vcard_a_folded_line_is_rejoined() {
    let raw = "BEGIN:VCARD\r\nVERSION:3.0\r\nFN:Folded\r\nEMAIL:someone.with.a.very\r\n .long.address@example.com\r\nEND:VCARD\r\n";
    let c = parse(raw).unwrap();
    assert_eq!(c.emails[0].value, "someone.with.a.very.long.address@example.com");
}

#[test]
fn escapes_come_back_as_text() {
    let raw = "BEGIN:VCARD\r\nVERSION:3.0\r\nFN:Smith\\, Jane\r\nORG:A\\; B\r\nEND:VCARD\r\n";
    let c = parse(raw).unwrap();
    assert_eq!(c.name, "Smith, Jane");
    assert_eq!(c.organisation.as_deref(), Some("A; B"));
}

#[test]
fn a_card_without_fn_is_still_named() {
    let raw = "BEGIN:VCARD\r\nVERSION:3.0\r\nN:Okafor;Ada;;;\r\nEMAIL:ada@example.com\r\nEND:VCARD\r\n";
    assert_eq!(parse(raw).unwrap().name, "Ada Okafor");
}

#[test]
fn a_nameless_card_falls_back_to_its_address() {
    let raw = "BEGIN:VCARD\r\nVERSION:3.0\r\nEMAIL:ghost@example.com\r\nEND:VCARD\r\n";
    assert_eq!(parse(raw).unwrap().name, "ghost@example.com");
}

#[test]
fn a_card_with_nothing_to_show_is_not_a_contact() {
    let raw = "BEGIN:VCARD\r\nVERSION:3.0\r\nNOTE:just a note\r\nEND:VCARD\r\n";
    assert!(parse(raw).is_none());
}

#[test]
fn version_four_marks_preference_differently() {
    let raw = "BEGIN:VCARD\r\nVERSION:4.0\r\nFN:Ada\r\nEMAIL;PREF=1:first@example.com\r\nEMAIL:second@example.com\r\nEND:VCARD\r\n";
    let c = parse(raw).unwrap();
    assert!(c.emails[0].preferred);
    assert!(!c.emails[1].preferred);
}

#[test]
fn several_cards_in_one_body() {
    let raw = format!("{APPLE}{APPLE}");
    assert_eq!(parse_many(&raw).len(), 2);
}

#[test]
fn an_inline_photo_is_decoded() {
    let png = [0x89u8, 0x50, 0x4e, 0x47];
    let encoded = base64::engine::general_purpose::STANDARD.encode(png);
    let raw = format!(
        "BEGIN:VCARD\r\nVERSION:3.0\r\nFN:Pic\r\nPHOTO;ENCODING=b;TYPE=PNG:{encoded}\r\nEND:VCARD\r\n"
    );
    let photo = parse(&raw).unwrap().photo.expect("a photo");
    assert_eq!(photo.media_type, "image/png");
    assert_eq!(photo.data, png);
}

#[test]
fn a_photo_url_is_not_fetched() {
    let raw = "BEGIN:VCARD\r\nVERSION:4.0\r\nFN:Linked\r\nPHOTO:https://example.com/p.jpg\r\nEND:VCARD\r\n";
    assert!(parse(raw).unwrap().photo.is_none());
}

#[test]
fn cards_outside_begin_and_end_are_not_read() {
    let raw = format!("FN:Stray\r\n{APPLE}junk\r\n");
    let cards = parse_many(&raw);
    assert_eq!(cards.len(), 1);
    assert_eq!(cards[0].uid, "ABCD-1234");
}

#[test]
fn a_bad_photo_is_no_photo() {
    let raw = "BEGIN:VCARD\r\nVERSION:3.0\r\nFN:Pic\r\nPHOTO;ENCODING=b;TYPE=PNG:!!!notbase64\r\nEND:VCARD\r\n";
    assert!(parse(raw).unwrap().photo.is_none());
}
