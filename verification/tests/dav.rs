use bazmail_core::dav::{
    absolute, check_status, first_href, last_segment, parse_collections, parse_resources,
    resource_file_name, safe_name, DavError, Kind, CALDAV, CARDDAV, DAV,
};
use bazmail_core::xml::{child_text, find_tag, parse_tree};

const PRINCIPAL: &str = r#"<?xml version="1.0"?>
<multistatus xmlns="DAV:">
  <response>
    <href>/1234567/principal/</href>
    <propstat>
      <prop><current-user-principal><href>/1234567/principal/</href></current-user-principal></prop>
      <status>HTTP/1.1 200 OK</status>
    </propstat>
  </response>
</multistatus>"#;

const COLLECTIONS: &str = r#"<?xml version="1.0"?>
<multistatus xmlns="DAV:" xmlns:card="urn:ietf:params:xml:ns:carddav" xmlns:cs="http://calendarserver.org/ns/">
  <response>
    <href>/1234567/carddavhome/</href>
    <propstat><prop><resourcetype><collection/></resourcetype></prop></propstat>
  </response>
  <response>
    <href>/1234567/carddavhome/card/</href>
    <propstat>
      <prop>
        <resourcetype><collection/><card:addressbook/></resourcetype>
        <displayname>Contacts</displayname>
        <cs:getctag>HK-1</cs:getctag>
      </prop>
    </propstat>
  </response>
</multistatus>"#;

fn chars(s: &str) -> Vec<char> {
    s.chars().collect()
}

#[test]
fn finds_the_principal_href() {
    assert_eq!(
        first_href(PRINCIPAL, DAV, "current-user-principal").as_deref(),
        Some("/1234567/principal/")
    );
}

#[test]
fn a_relative_href_is_resolved_against_the_host() {
    let url = absolute("https://contacts.icloud.com", "/1234567/principal/").unwrap();
    assert_eq!(url.as_str(), "https://contacts.icloud.com/1234567/principal/");
}

#[test]
fn only_real_address_books_are_returned() {
    let t = parse_tree(COLLECTIONS).unwrap();
    let mut books = Vec::new();
    let mut from = 0;
    while let Some(r) = find_tag(&t, 0, from, false, &chars(DAV), &chars("response")) {
        if find_tag(&t, r, r, false, &chars(CARDDAV), &chars("addressbook")).is_some() {
            books.push(r);
        }
        from = r + 1;
    }
    assert_eq!(books.len(), 1, "the home is not an address book");
    assert_eq!(
        child_text(&t, books[0], DAV, "href").as_deref(),
        Some("/1234567/carddavhome/card/")
    );
    let found = parse_collections(COLLECTIONS, "https://contacts.icloud.com", Kind::Contacts).unwrap();
    assert_eq!(found.len(), 1);
    assert_eq!(found[0].url, "https://contacts.icloud.com/1234567/carddavhome/card/");
    assert_eq!(found[0].name, "Contacts");
    assert_eq!(found[0].tag.as_deref(), Some("HK-1"));
}

#[test]
fn the_response_href_wins_over_one_nested_in_a_property() {
    let xml = r#"<multistatus xmlns="DAV:"><response>
        <href>/right/</href>
        <propstat><prop><owner><href>/wrong/</href></owner></prop></propstat>
    </response></multistatus>"#;
    let t = parse_tree(xml).unwrap();
    let response = find_tag(&t, 0, 0, false, &chars(DAV), &chars("response")).unwrap();
    assert_eq!(child_text(&t, response, DAV, "href").as_deref(), Some("/right/"));
}

#[test]
fn a_nameless_collection_is_named_for_its_path() {
    assert_eq!(last_segment("https://contacts.icloud.com/123/carddavhome/card/"), "card");
}

#[test]
fn contacts_and_calendars_differ_only_in_their_nouns() {
    assert_eq!(Kind::Contacts.home_set(), "addressbook-home-set");
    assert_eq!(Kind::Calendars.home_set(), "calendar-home-set");
    assert_eq!(Kind::Calendars.namespace(), CALDAV);
    assert_eq!(Kind::Calendars.well_known(), "/.well-known/caldav");
}

#[test]
fn a_property_in_a_failed_propstat_is_not_there() {
    let xml = r#"<multistatus xmlns="DAV:"><response><href>/</href>
        <propstat><prop><current-user-principal><href>/nope/</href></current-user-principal></prop>
        <status>HTTP/1.1 404 Not Found</status></propstat>
    </response></multistatus>"#;
    assert_eq!(first_href(xml, DAV, "current-user-principal"), None);
    assert_eq!(first_href("not xml", DAV, "current-user-principal"), None);
}

#[test]
fn resources_keep_their_bytes_and_etags() {
    let xml = r#"<multistatus xmlns="DAV:" xmlns:card="urn:ietf:params:xml:ns:carddav">
      <response><href>/book/</href><propstat><prop><getetag>"0"</getetag></prop><status>HTTP/1.1 200 OK</status></propstat></response>
      <response><href>/book/a.vcf</href><propstat><prop><getetag> "1" </getetag><card:address-data>BEGIN:VCARD</card:address-data></prop><status>HTTP/1.1 200 OK</status></propstat></response>
      <response><href>/book/b.vcf</href><propstat><prop><card:address-data>hidden</card:address-data></prop><status>HTTP/1.1 403 Forbidden</status></propstat></response>
    </multistatus>"#;
    let found = parse_resources(xml, "https://dav.example.com/", CARDDAV, "address-data");
    assert_eq!(found.len(), 1);
    assert_eq!(found[0].url, "https://dav.example.com/book/a.vcf");
    assert_eq!(found[0].etag.as_deref(), Some("\"1\""));
    assert_eq!(found[0].raw, "BEGIN:VCARD");
}

#[test]
fn names_are_made_safe_for_a_filesystem() {
    assert_eq!(safe_name("Work: 2026/Q3"), "Work__2026_Q3");
    assert_eq!(safe_name("..__.."), "untitled");
    assert_eq!(safe_name("._card.vcf_"), "card.vcf");
    assert_eq!(safe_name("caf\u{e9}"), "caf\u{e9}");
    assert_eq!(resource_file_name("https://x.example/book/a%20b.vcf", "https://x.example"), "a_20b.vcf");
}

#[test]
fn statuses_are_read_as_answers_or_refusals() {
    assert_eq!(check_status("u", 207), Ok(()));
    assert_eq!(check_status("u", 200), Ok(()));
    assert_eq!(check_status("u", 401), Err(DavError::Unauthorized("u".into())));
    assert_eq!(check_status("u", 500), Err(DavError::Status("u".into(), 500)));
    assert!(Kind::Contacts.home_set_body().contains("<x:addressbook-home-set/>"));
    assert!(Kind::Calendars.report_body().contains("VEVENT"));
    assert_eq!(Kind::Contacts.data_name(), "address-data");
}
