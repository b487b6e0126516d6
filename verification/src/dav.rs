//! The WebDAV underneath contacts and calendars.
//!
//! CardDAV and CalDAV are the same protocol with different nouns: find the
//! user's principal, ask it where its collections live, list them, then fetch
//! their contents. Only the namespace and the name of the home-set differ, so
//! they are written once here and cannot drift into disagreeing about how
//! discovery works.
//!
//! The HTTP exchanges are the application's. What a multistatus reply says,
//! which of its parts to believe, and what to call things are decided here.

use vstd::prelude::*;
use crate::model::{opt_view, strs_view};
use crate::text::{
    chars_eq, chars_of, is_ascii_alnum, parse_u32, parse_u32_spec, split_words, string_of, trim,
    trim_chars, views, words,
};
use crate::xml::{
    child_text, child_text_spec, find_tag, first_tag, is_under, parse_tree, tag_is, text_trimmed,
    trimmed_text, tree_ok, under, xml_tree, XmlNode,
};

verus! {

pub const DAV: &'static str = "DAV:";

pub const CARDDAV: &'static str = "urn:ietf:params:xml:ns:carddav";

pub const CALDAV: &'static str = "urn:ietf:params:xml:ns:caldav";

/// Apple's extension, and the only way to tell a collection changed without
/// asking for all of it.
pub const CALSERVER: &'static str = "http://calendarserver.org/ns/";

/// Which kind of collection we are looking for.
#[derive(Debug, Clone, Copy, PartialEq, Eq)]
pub enum Kind {
    Contacts,
    Calendars,
}

impl Kind {
    pub open spec fn namespace_spec(self) -> Seq<char> {
        match self {
            Kind::Contacts => CARDDAV@,
            Kind::Calendars => CALDAV@,
        }
    }

    pub open spec fn resource_type_spec(self) -> Seq<char> {
        match self {
            Kind::Contacts => "addressbook"@,
            Kind::Calendars => "calendar"@,
        }
    }

    pub fn namespace(self) -> (r: &'static str)
        ensures
            r@ == self.namespace_spec(),
    {
        match self {
            Kind::Contacts => CARDDAV,
            Kind::Calendars => CALDAV,
        }
    }

    pub fn home_set(self) -> (r: &'static str)
        ensures
            r@ == match self {
                Kind::Contacts => "addressbook-home-set"@,
                Kind::Calendars => "calendar-home-set"@,
            },
    {
        match self {
            Kind::Contacts => "addressbook-home-set",
            Kind::Calendars => "calendar-home-set",
        }
    }

    /// The resource type that marks a collection as one of ours.
    pub fn resource_type(self) -> (r: &'static str)
        ensures
            r@ == self.resource_type_spec(),
    {
        match self {
            Kind::Contacts => "addressbook",
            Kind::Calendars => "calendar",
        }
    }

    pub fn well_known(self) -> (r: &'static str)
        ensures
            r@ == match self {
                Kind::Contacts => "/.well-known/carddav"@,
                Kind::Calendars => "/.well-known/caldav"@,
            },
    {
        match self {
            Kind::Contacts => "/.well-known/carddav",
            Kind::Calendars => "/.well-known/caldav",
        }
    }

    /// The name of the property that carries an item's data.
    pub fn data_name(self) -> (r: &'static str)
        ensures
            r@ == match self {
                Kind::Contacts => "address-data"@,
                Kind::Calendars => "calendar-data"@,
            },
    {
        match self {
            Kind::Contacts => "address-data",
            Kind::Calendars => "calendar-data",
        }
    }
}

/// One address book or calendar.
#[derive(Debug, Clone, PartialEq, Eq)]
pub struct Collection {
    /// Absolute URL.
    pub url: String,
    pub name: String,
    /// Changes whenever anything inside does.
    pub tag: Option<String>,
}

/// One card or event, as the server holds it.
#[derive(Debug, Clone, PartialEq, Eq)]
pub struct Resource {
    /// Absolute URL. This is the thing a write targets.
    pub url: String,
    /// The server's version marker, sent back as If-Match.
    pub etag: Option<String>,
    /// Exactly what the server sent, kept verbatim: a card holds far more
    /// than a mail client models, and writing back a regenerated one would
    /// drop all of it.
    pub raw: String,
}

/// What a backup wrote.
#[derive(Debug, Clone, PartialEq, Eq)]
pub struct Backup {
    pub collections: usize,
    pub items: usize,
    pub path: String,
}

/// What talking to a DAV server can come to.
#[derive(Debug, Clone, PartialEq, Eq)]
pub enum DavError {
    /// The server at this URL rejected the credentials: for iCloud this must
    /// be an app-specific password.
    Unauthorized(String),
    /// The server at this URL answered with this status.
    Status(String, u16),
    /// An href that cannot be resolved against the account's URL.
    Unresolvable(String),
    /// A reply that is not XML.
    Unreadable,
}

/// Whether an HTTP status is an answer to read: any 2xx, 207 included.
pub fn check_status(url: &str, status: u16) -> (r: Result<(), DavError>)
    ensures
        r is Ok <==> 200 <= status < 300,
        r matches Err(DavError::Unauthorized(u)) ==> status == 401 && u@ == url@,
        r matches Err(DavError::Status(u, s)) ==> status != 401 && s == status && u@ == url@,
        !(r matches Err(DavError::Unresolvable(_))),
        !(r matches Err(DavError::Unreadable)),
{
    if status == 401 {
        return Err(DavError::Unauthorized(url.to_owned()));
    }
    if !(200 <= status && status < 300) && status != 207 {
        return Err(DavError::Status(url.to_owned(), status));
    }
    Ok(())
}

/// The first word of a status line that reads as a `u16`.
pub open spec fn first_code(ws: Seq<Seq<char>>) -> Option<u32>
    decreases ws.len(),
{
    if ws.len() == 0 {
        None
    } else if parse_u32_spec(ws[0]) matches Some(v) && v <= 65535 {
        parse_u32_spec(ws[0])
    } else {
        first_code(ws.drop_first())
    }
}

/// Whether a propstat reports success: the first number in its status line
/// is 2xx. A propstat without a status (or with an empty one) is taken at
/// face value.
pub open spec fn propstat_succeeded_spec(t: Seq<XmlNode>, p: int) -> bool {
    match first_tag(t, p, 0, true, DAV@, "status"@) {
        Some(s) => match t[s].text {
            Some(text) => match first_code(words(text@)) {
                Some(c) => 200 <= c < 300,
                None => false,
            },
            None => true,
        },
        None => true,
    }
}

/// Whether a propstat reports success.
///
/// A multistatus answers each property separately, and a server may return
/// the element you asked for inside a propstat that says 404.
pub fn propstat_succeeded(t: &Vec<XmlNode>, p: usize) -> (r: bool)
    ensures
        r == propstat_succeeded_spec(t@, p as int),
{
    let s = match find_tag(t, p, 0, true, &chars_of(DAV), &chars_of("status")) {
        Some(s) => s,
        None => {
            return true;
        },
    };
    let text = match &t[s].text {
        Some(text) => text,
        None => {
            return true;
        },
    };
    let ws = split_words(&chars_of(text.as_str()));
    let ghost wv = views(ws@);
    let mut i: usize = 0;
    assert(wv.skip(0) =~= wv);
    while i < ws.len()
        invariant
            i <= ws.len(),
            wv == views(ws@),
            wv == words(text@),
            first_tag(t@, p as int, 0, true, DAV@, "status"@) == Some(s as int),
            s < t@.len(),
            t@[s as int].text == Some(*text),
            first_code(wv) == first_code(wv.skip(i as int)),
        decreases ws.len() - i,
    {
        assert(wv.skip(i as int)[0] == ws@[i as int]@);
        assert(wv.skip(i as int).drop_first() =~= wv.skip(i + 1));
        match parse_u32(&ws[i]) {
            Some(v) => if v <= 65535 {
                return 200 <= v && v < 300;
            },
            None => {},
        }
        i += 1;
    }
    false
}

/// Propstats of the subtree from position `from` on that report success.
pub open spec fn good_propstat_from(t: Seq<XmlNode>, root: int, children_only: bool, from: int) -> Option<
    int,
>
    decreases t.len() - from,
{
    match first_tag(t, root, from, children_only, DAV@, "propstat"@) {
        Some(p) => if propstat_succeeded_spec(t, p) {
            Some(p)
        } else if from <= p < t.len() {
            good_propstat_from(t, root, children_only, p + 1)
        } else {
            None
        },
        None => None,
    }
}

/// The first node with this tag inside a propstat that succeeded, taking
/// the propstats in document order and each one's nodes in document order.
pub open spec fn in_good_propstats(
    t: Seq<XmlNode>,
    root: int,
    children_only: bool,
    from: int,
    ns: Seq<char>,
    name: Seq<char>,
) -> Option<int>
    decreases t.len() - from,
{
    match good_propstat_from(t, root, children_only, from) {
        Some(p) => match first_tag(t, p, p, false, ns, name) {
            Some(k) => Some(k),
            None => if from <= p < t.len() {
                in_good_propstats(t, root, children_only, p + 1, ns, name)
            } else {
                None
            },
        },
        None => None,
    }
}

proof fn lemma_first_tag_at_least(
    t: Seq<XmlNode>,
    root: int,
    from: int,
    children_only: bool,
    ns: Seq<char>,
    name: Seq<char>,
)
    ensures
        first_tag(t, root, from, children_only, ns, name) matches Some(k) ==> from <= k < t.len(),
    decreases t.len() - from,
{
    if 0 <= from < t.len() {
        lemma_first_tag_at_least(t, root, from + 1, children_only, ns, name);
    }
}

fn good_propstat(t: &Vec<XmlNode>, root: usize, children_only: bool, from: usize) -> (r: Option<
    usize,
>)
    ensures
        match r {
            Some(p) => good_propstat_from(t@, root as int, children_only, from as int) == Some(
                p as int,
            ) && p < t@.len(),
            None => good_propstat_from(t@, root as int, children_only, from as int) is None,
        },
{
    let dav = chars_of(DAV);
    let ps = chars_of("propstat");
    let mut j = from;
    while j < t.len()
        invariant
            from <= j,
            dav@ == DAV@,
            ps@ == "propstat"@,
            good_propstat_from(t@, root as int, children_only, from as int) == good_propstat_from(
                t@,
                root as int,
                children_only,
                j as int,
            ),
        decreases t.len() - j,
    {
        proof {
            lemma_first_tag_at_least(t@, root as int, j as int, children_only, DAV@, "propstat"@);
        }
        match find_tag(t, root, j, children_only, &dav, &ps) {
            Some(p) => {
                if propstat_succeeded(t, p) {
                    return Some(p);
                }
                j = p + 1;
            },
            None => {
                return None;
            },
        }
    }
    proof {
        lemma_first_tag_at_least(t@, root as int, j as int, children_only, DAV@, "propstat"@);
    }
    None
}

fn find_in_good_propstats(
    t: &Vec<XmlNode>,
    root: usize,
    children_only: bool,
    ns: &Vec<char>,
    name: &Vec<char>,
) -> (r: Option<usize>)
    ensures
        match r {
            Some(k) => in_good_propstats(t@, root as int, children_only, 0, ns@, name@) == Some(
                k as int,
            ) && k < t@.len(),
            None => in_good_propstats(t@, root as int, children_only, 0, ns@, name@) is None,
        },
{
    let mut j: usize = 0;
    while j < t.len()
        invariant
            in_good_propstats(t@, root as int, children_only, 0, ns@, name@) == in_good_propstats(
                t@,
                root as int,
                children_only,
                j as int,
                ns@,
                name@,
            ),
        decreases t.len() - j,
    {
        match good_propstat(t, root, children_only, j) {
            Some(p) => {
                proof {
                    lemma_first_tag_at_least(t@, root as int, j as int, children_only, DAV@, "propstat"@);
                    lemma_good_at_least(t@, root as int, children_only, j as int);
                }
                match find_tag(t, p, p, false, ns, name) {
                    Some(k) => {
                        return Some(k);
                    },
                    None => {
                        j = p + 1;
                    },
                }
            },
            None => {
                return None;
            },
        }
    }
    proof {
        lemma_good_at_least(t@, root as int, children_only, j as int);
    }
    None
}

proof fn lemma_good_at_least(t: Seq<XmlNode>, root: int, children_only: bool, from: int)
    ensures
        good_propstat_from(t, root, children_only, from) matches Some(p) ==> from <= p < t.len(),
    decreases t.len() - from,
{
    lemma_first_tag_at_least(t, root, from, children_only, DAV@, "propstat"@);
    match first_tag(t, root, from, children_only, DAV@, "propstat"@) {
        Some(p) => if !propstat_succeeded_spec(t, p) && from <= p < t.len() {
            lemma_good_at_least(t, root, children_only, p + 1);
        },
        None => {},
    }
}

/// The href inside the named property, ignoring properties the server said
/// it does not have: the first such property in a successful propstat
/// anywhere in the document, the first `href` inside it, its text trimmed
/// and not empty.
pub open spec fn first_href_spec(t: Seq<XmlNode>, ns: Seq<char>, property: Seq<char>) -> Option<
    Seq<char>,
> {
    match in_good_propstats(t, 0, false, 0, ns, property) {
        Some(f) => match first_tag(t, f, f, false, DAV@, "href"@) {
            Some(h) => match trimmed_text(t[h]) {
                Some(s) => if s.len() > 0 {
                    Some(s)
                } else {
                    None
                },
                None => None,
            },
            None => None,
        },
        None => None,
    }
}

/// The href inside the named property of a PROPFIND reply; `None` for a
/// reply that is not XML.
pub fn first_href(xml: &str, namespace: &str, property: &str) -> (r: Option<String>)
    ensures
        opt_view(r) == match xml_tree(xml@) {
            Some(t) => first_href_spec(t, namespace@, property@),
            None => None,
        },
{
    let t = match parse_tree(xml) {
        Some(t) => t,
        None => {
            return None;
        },
    };
    first_href_in(&t, namespace, property)
}

/// The href inside the named property of a parsed reply.
pub fn first_href_in(t: &Vec<XmlNode>, namespace: &str, property: &str) -> (r: Option<String>)
    ensures
        opt_view(r) == first_href_spec(t@, namespace@, property@),
{
    let f = match find_in_good_propstats(t, 0, false, &chars_of(namespace), &chars_of(property)) {
        Some(f) => f,
        None => {
            return None;
        },
    };
    let h = match find_tag(t, f, f, false, &chars_of(DAV), &chars_of("href")) {
        Some(h) => h,
        None => {
            return None;
        },
    };
    match text_trimmed(&t[h]) {
        Some(s) => if s.as_str().is_empty() {
            None
        } else {
            Some(s)
        },
        None => None,
    }
}

/// Where the `url` crate resolves `href` against the base URL `base`, as it
/// writes the result; `None` where either cannot be read.
pub uninterp spec fn url_resolve(base: Seq<char>, href: Seq<char>) -> Option<Seq<char>>;

/// `Url::parse(base)?.join(href)` of the `url` crate (as `reqwest` exports
/// it), written back as text.
///
/// Trusted: the result is named `url_resolve` of the two texts; nothing more
/// is claimed.
#[verifier::external_body]
fn resolve(base: &str, href: &str) -> (r: Option<String>)
    ensures
        opt_view(r) == url_resolve(base@, href@),
{
    reqwest::Url::parse(base).ok()?.join(href).ok().map(|u| u.to_string())
}

/// The path segments the `url` crate reads in a URL; `None` for a URL that
/// cannot be read or cannot be a base.
pub uninterp spec fn url_path_segments(url: Seq<char>) -> Option<Seq<Seq<char>>>;

/// `Url::parse(url)?.path_segments()` of the `url` crate, collected.
///
/// Trusted: the result is named `url_path_segments` of the text; nothing
/// more is claimed.
#[verifier::external_body]
fn path_segments(url: &str) -> (r: Option<Vec<String>>)
    ensures
        match r {
            Some(v) => url_path_segments(url@) == Some(strs_view(v@)),
            None => url_path_segments(url@) is None,
        },
{
    reqwest::Url::parse(url).ok()?.path_segments().map(|s| s.map(str::to_owned).collect())
}

/// The last non-empty segment of a path.
pub open spec fn last_nonempty(segs: Seq<Seq<char>>) -> Option<Seq<char>>
    decreases segs.len(),
{
    if segs.len() == 0 {
        None
    } else if segs.last().len() > 0 {
        Some(segs.last())
    } else {
        last_nonempty(segs.drop_last())
    }
}

/// What a nameless thing at a URL is called: its last non-empty path
/// segment, or "Untitled".
pub open spec fn last_segment_spec(url: Seq<char>) -> Seq<char> {
    match url_path_segments(url) {
        Some(segs) => match last_nonempty(segs) {
            Some(s) => s,
            None => "Untitled"@,
        },
        None => "Untitled"@,
    }
}

/// The last non-empty path segment of a URL, which is what a provider's own
/// interface usually shows for something without a name.
pub fn last_segment(url: &str) -> (r: String)
    ensures
        r@ == last_segment_spec(url@),
{
    match path_segments(url) {
        Some(segs) => {
            let ghost sv = strs_view(segs@);
            let mut i = segs.len();
            assert(sv.take(i as int) =~= sv);
            while i > 0
                invariant
                    i <= segs.len(),
                    sv == strs_view(segs@),
                    url_path_segments(url@) == Some(sv),
                    last_nonempty(sv) == last_nonempty(sv.take(i as int)),
                decreases i,
            {
                assert(sv.take(i as int).last() == segs@[i - 1]@);
                assert(sv.take(i as int).drop_last() =~= sv.take(i - 1));
                if !segs[i - 1].as_str().is_empty() {
                    return segs[i - 1].clone();
                }
                i -= 1;
            }
            "Untitled".to_owned()
        },
        None => "Untitled".to_owned(),
    }
}

/// What `char::is_alphanumeric` says of a character: Unicode alphabetic or
/// numeric.
pub uninterp spec fn unicode_alphanumeric(c: char) -> bool;

/// `char::is_alphanumeric`.
///
/// Trusted: the result is named `unicode_alphanumeric`, and on ASCII it is
/// exactly the letters and digits, as the standard library documents.
#[verifier::external_body]
fn is_alphanumeric(c: char) -> (r: bool)
    ensures
        r == unicode_alphanumeric(c),
        (c as u32) < 128 ==> (r <==> is_ascii_alnum(c)),
{
    c.is_alphanumeric()
}

/// A character kept in a file name: alphanumeric, `-`, `_` or `.`.
pub open spec fn keeps(c: char) -> bool {
    unicode_alphanumeric(c) || c == '-' || c == '_' || c == '.'
}

/// Every other character becomes `_`.
pub open spec fn clean_char(c: char) -> char {
    if keeps(c) {
        c
    } else {
        '_'
    }
}

/// Strips `.` and `_` from the start.
pub open spec fn strip_dots_start(s: Seq<char>) -> Seq<char>
    decreases s.len(),
{
    if s.len() > 0 && (s[0] == '.' || s[0] == '_') {
        strip_dots_start(s.drop_first())
    } else {
        s
    }
}

/// Strips `.` and `_` from the end.
pub open spec fn strip_dots_end(s: Seq<char>) -> Seq<char>
    decreases s.len(),
{
    if s.len() > 0 && (s.last() == '.' || s.last() == '_') {
        strip_dots_end(s.drop_last())
    } else {
        s
    }
}

/// A server-chosen name made safe for a filesystem.
pub open spec fn safe_name_spec(input: Seq<char>) -> Seq<char> {
    let cleaned = input.map_values(|c: char| clean_char(c));
    let trimmed = strip_dots_end(strip_dots_start(cleaned));
    if trimmed.len() == 0 {
        "untitled"@
    } else {
        trimmed
    }
}

/// Makes a server-chosen name safe to put on a filesystem: anything but an
/// alphanumeric, `-`, `_` or `.` becomes `_`, dots and underscores are
/// trimmed from both ends, and nothing left is "untitled".
pub fn safe_name(input: &str) -> (r: String)
    ensures
        r@ == safe_name_spec(input@),
{
    let v = chars_of(input);
    let mut cleaned: Vec<char> = Vec::new();
    let mut i: usize = 0;
    while i < v.len()
        invariant
            i <= v.len(),
            cleaned@ == v@.take(i as int).map_values(|c: char| clean_char(c)),
        decreases v.len() - i,
    {
        let c = v[i];
        let keep = is_alphanumeric(c) || c == '-' || c == '_' || c == '.';
        cleaned.push(
            if keep {
                c
            } else {
                '_'
            },
        );
        i += 1;
        assert(cleaned@ =~= v@.take(i as int).map_values(|c: char| clean_char(c)));
    }
    assert(v@.take(v.len() as int) =~= v@);
    let ghost cv = cleaned@;
    let mut lo: usize = 0;
    assert(cv.skip(0) =~= cv);
    while lo < cleaned.len() && (cleaned[lo] == '.' || cleaned[lo] == '_')
        invariant
            lo <= cleaned.len(),
            cv == cleaned@,
            strip_dots_start(cv) == strip_dots_start(cv.skip(lo as int)),
        decreases cleaned.len() - lo,
    {
        assert(cv.skip(lo as int).drop_first() =~= cv.skip(lo + 1));
        lo += 1;
    }
    let mut hi = cleaned.len();
    let ghost st = cv.skip(lo as int);
    assert(st =~= cv.subrange(lo as int, hi as int));
    while hi > lo && (cleaned[hi - 1] == '.' || cleaned[hi - 1] == '_')
        invariant
            lo <= hi <= cleaned.len(),
            cv == cleaned@,
            st == cv.skip(lo as int),
            strip_dots_end(st) == strip_dots_end(cv.subrange(lo as int, hi as int)),
        decreases hi - lo,
    {
        assert(cv.subrange(lo as int, hi as int).drop_last() =~= cv.subrange(lo as int, hi - 1));
        hi -= 1;
    }
    if hi == lo {
        assert(cv.subrange(lo as int, hi as int) =~= Seq::<char>::empty());
        return "untitled".to_owned();
    }
    let out = crate::text::slice_chars(cleaned.as_slice(), lo, hi);
    string_of(&out)
}

pub struct ResourceView {
    pub url: Seq<char>,
    pub etag: Option<Seq<char>>,
    pub raw: Seq<char>,
}

impl Resource {
    pub open spec fn view(&self) -> ResourceView {
        ResourceView { url: self.url@, etag: opt_view(self.etag), raw: self.raw@ }
    }
}

pub open spec fn resources_view(v: Seq<Resource>) -> Seq<ResourceView> {
    v.map_values(|r: Resource| r.view())
}

/// One `response` of a REPORT reply as a resource: its own `href` resolved
/// against the account's URL, the payload from a successful propstat (the
/// collection itself, and anything the server declined to hand over, has
/// none and is left out), and the ETag from one, trimmed.
pub open spec fn resource_of(
    t: Seq<XmlNode>,
    r: int,
    base: Seq<char>,
    data_ns: Seq<char>,
    data_name: Seq<char>,
) -> Option<ResourceView> {
    match child_text_spec(t, r, DAV@, "href"@) {
        Some(href) => match url_resolve(base, trim(href)) {
            Some(url) => match in_good_propstats(t, r, true, 0, data_ns, data_name) {
                Some(d) => match t[d].text {
                    Some(raw) => Some(
                        ResourceView {
                            url,
                            etag: match in_good_propstats(t, r, true, 0, DAV@, "getetag"@) {
                                Some(e) => trimmed_text(t[e]),
                                None => None,
                            },
                            raw: raw@,
                        },
                    ),
                    None => None,
                },
                None => None,
            },
            None => None,
        },
        None => None,
    }
}

/// The resources of the responses from position `from` on, in order.
pub open spec fn resources_from(
    t: Seq<XmlNode>,
    base: Seq<char>,
    data_ns: Seq<char>,
    data_name: Seq<char>,
    from: int,
) -> Seq<ResourceView>
    decreases t.len() - from,
{
    match first_tag(t, 0, from, false, DAV@, "response"@) {
        Some(r) => if from <= r < t.len() {
            (match resource_of(t, r, base, data_ns, data_name) {
                Some(x) => seq![x],
                None => Seq::<ResourceView>::empty(),
            }) + resources_from(t, base, data_ns, data_name, r + 1)
        } else {
            Seq::<ResourceView>::empty()
        },
        None => Seq::<ResourceView>::empty(),
    }
}

fn resource_at(t: &Vec<XmlNode>, r: usize, base: &str, data_ns: &Vec<char>, data_name: &Vec<char>) -> (res:
    Option<Resource>)
    ensures
        match res {
            Some(x) => resource_of(t@, r as int, base@, data_ns@, data_name@) == Some(x.view()),
            None => resource_of(t@, r as int, base@, data_ns@, data_name@) is None,
        },
{
    let href = match child_text(t, r, DAV, "href") {
        Some(h) => h,
        None => {
            return None;
        },
    };
    let trimmed = string_of(&trim_chars(&chars_of(href.as_str())));
    let url = match resolve(base, trimmed.as_str()) {
        Some(u) => u,
        None => {
            return None;
        },
    };
    let d = match find_in_good_propstats(t, r, true, data_ns, data_name) {
        Some(d) => d,
        None => {
            return None;
        },
    };
    let raw = match &t[d].text {
        Some(raw) => raw.clone(),
        None => {
            return None;
        },
    };
    let etag = match find_in_good_propstats(t, r, true, &chars_of(DAV), &chars_of("getetag")) {
        Some(e) => text_trimmed(&t[e]),
        None => None,
    };
    Some(Resource { url, etag, raw })
}

/// Reads a parsed multistatus into resources, keeping only what the server
/// said it actually has.
pub fn resources_in(t: &Vec<XmlNode>, base: &str, data_namespace: &str, data_name: &str) -> (r: Vec<
    Resource,
>)
    ensures
        resources_view(r@) == resources_from(t@, base@, data_namespace@, data_name@, 0),
{
    let ns = chars_of(data_namespace);
    let name = chars_of(data_name);
    let dav = chars_of(DAV);
    let resp = chars_of("response");
    let mut out: Vec<Resource> = Vec::new();
    let mut j: usize = 0;
    while j < t.len()
        invariant
            ns@ == data_namespace@,
            name@ == data_name@,
            dav@ == DAV@,
            resp@ == "response"@,
            resources_view(out@) + resources_from(t@, base@, ns@, name@, j as int) == resources_from(
                t@,
                base@,
                ns@,
                name@,
                0,
            ),
        decreases t.len() - j,
    {
        proof {
            lemma_first_tag_at_least(t@, 0, j as int, false, DAV@, "response"@);
        }
        match find_tag(t, 0, j, false, &dav, &resp) {
            Some(r) => {
                let ghost before = resources_view(out@);
                match resource_at(t, r, base, &ns, &name) {
                    Some(x) => {
                        out.push(x);
                        assert(resources_view(out@) =~= before.push(x.view()));
                        assert(resources_view(out@) + resources_from(t@, base@, ns@, name@, r + 1)
                            =~= before + resources_from(t@, base@, ns@, name@, j as int));
                    },
                    None => {
                        assert(resources_from(t@, base@, ns@, name@, j as int) =~= resources_from(
                            t@,
                            base@,
                            ns@,
                            name@,
                            r + 1,
                        ));
                    },
                }
                j = r + 1;
            },
            None => {
                assert(resources_view(out@) =~= resources_view(out@) + resources_from(
                    t@,
                    base@,
                    ns@,
                    name@,
                    j as int,
                ));
                return out;
            },
        }
    }
    proof {
        lemma_first_tag_at_least(t@, 0, j as int, false, DAV@, "response"@);
    }
    assert(resources_view(out@) =~= resources_view(out@) + resources_from(
        t@,
        base@,
        ns@,
        name@,
        j as int,
    ));
    out
}

/// Reads a multistatus reply into resources; a reply that is not XML holds
/// none.
pub fn parse_resources(xml: &str, base: &str, data_namespace: &str, data_name: &str) -> (r: Vec<
    Resource,
>)
    ensures
        resources_view(r@) == match xml_tree(xml@) {
            Some(t) => resources_from(t, base@, data_namespace@, data_name@, 0),
            None => Seq::<ResourceView>::empty(),
        },
{
    match parse_tree(xml) {
        Some(t) => resources_in(&t, base, data_namespace, data_name),
        None => Vec::new(),
    }
}

pub struct CollectionView {
    pub url: Seq<char>,
    pub name: Seq<char>,
    pub tag: Option<Seq<char>>,
}

impl Collection {
    pub open spec fn view(&self) -> CollectionView {
        CollectionView { url: self.url@, name: self.name@, tag: opt_view(self.tag) }
    }
}

pub open spec fn collections_view(v: Seq<Collection>) -> Seq<CollectionView> {
    v.map_values(|c: Collection| c.view())
}

/// The earlier of two positions.
pub open spec fn earlier(a: Option<int>, b: Option<int>) -> Option<int> {
    match (a, b) {
        (Some(x), Some(y)) => if x <= y {
            Some(x)
        } else {
            Some(y)
        },
        (Some(x), None) => Some(x),
        (None, y) => y,
    }
}

/// What one `response` of a collection listing comes to: nothing when it is
/// not one of ours (by resource type, never by name) or has no `href`; the
/// `href` itself when it cannot be resolved; otherwise the collection, named
/// by its display name when that has non-blank text and by its last path
/// segment otherwise, tagged by the first `getctag` or `sync-token`.
pub open spec fn collection_of(t: Seq<XmlNode>, r: int, base: Seq<char>, kind: Kind) -> Option<
    Result<CollectionView, Seq<char>>,
> {
    if first_tag(t, r, r, false, kind.namespace_spec(), kind.resource_type_spec()) is None {
        None
    } else {
        match child_text_spec(t, r, DAV@, "href"@) {
            Some(href) => match url_resolve(base, trim(href)) {
                Some(url) => Some(
                    Ok(
                        CollectionView {
                            url,
                            name: match first_tag(t, r, r, false, DAV@, "displayname"@) {
                                Some(n) => match t[n].text {
                                    Some(s) => if trim(s@).len() > 0 {
                                        s@
                                    } else {
                                        last_segment_spec(url)
                                    },
                                    None => last_segment_spec(url),
                                },
                                None => last_segment_spec(url),
                            },
                            tag: match earlier(
                                first_tag(t, r, r, false, CALSERVER@, "getctag"@),
                                first_tag(t, r, r, false, DAV@, "sync-token"@),
                            ) {
                                Some(k) => opt_view(t[k].text),
                                None => None,
                            },
                        },
                    ),
                ),
                None => Some(Err(href)),
            },
            None => None,
        }
    }
}

/// The collections of a listing from position `from` on, or the first href
/// that cannot be resolved.
pub open spec fn collections_from(t: Seq<XmlNode>, base: Seq<char>, kind: Kind, from: int) -> Result<
    Seq<CollectionView>,
    Seq<char>,
>
    decreases t.len() - from,
{
    match first_tag(t, 0, from, false, DAV@, "response"@) {
        Some(r) => if from <= r < t.len() {
            match collection_of(t, r, base, kind) {
                Some(Err(h)) => Err(h),
                Some(Ok(c)) => match collections_from(t, base, kind, r + 1) {
                    Ok(rest) => Ok(seq![c] + rest),
                    Err(h) => Err(h),
                },
                None => collections_from(t, base, kind, r + 1),
            }
        } else {
            Ok(Seq::<CollectionView>::empty())
        },
        None => Ok(Seq::<CollectionView>::empty()),
    }
}

/// The display name a `response` gives, when it has non-blank text.
pub open spec fn display_name_of(t: Seq<XmlNode>, r: int) -> Option<Seq<char>> {
    match first_tag(t, r, r, false, DAV@, "displayname"@) {
        Some(n) => match t[n].text {
            Some(s) => if trim(s@).len() > 0 {
                Some(s@)
            } else {
                None
            },
            None => None,
        },
        None => None,
    }
}

/// A listed collection is named by its display name when it has one with
/// text, and otherwise by the last path segment of its own resolved URL; its
/// URL is its `href` resolved against the base.
pub proof fn lemma_collection_name(t: Seq<XmlNode>, r: int, base: Seq<char>, kind: Kind)
    ensures
        collection_of(t, r, base, kind) matches Some(Ok(c)) ==> {
            &&& child_text_spec(t, r, DAV@, "href"@) matches Some(href) && url_resolve(
                base,
                trim(href),
            ) == Some(c.url)
            &&& display_name_of(t, r) matches Some(d) ==> c.name == d
            &&& display_name_of(t, r) is None ==> c.name == last_segment_spec(c.url)
        },
        first_tag(t, r, r, false, kind.namespace_spec(), kind.resource_type_spec()) is None
            ==> collection_of(t, r, base, kind) is None,
{
}

/// A resource is a `response` with a payload: its URL is its `href` resolved
/// against the account's URL, its text is the payload of a successful
/// propstat, and a response with no such payload (the collection itself, or
/// what the server declined to hand over) is no resource.
pub proof fn lemma_resource_parts(
    t: Seq<XmlNode>,
    r: int,
    base: Seq<char>,
    data_ns: Seq<char>,
    data_name: Seq<char>,
)
    ensures
        resource_of(t, r, base, data_ns, data_name) matches Some(x) ==> {
            &&& child_text_spec(t, r, DAV@, "href"@) matches Some(href) && url_resolve(
                base,
                trim(href),
            ) == Some(x.url)
            &&& in_good_propstats(t, r, true, 0, data_ns, data_name) matches Some(d) && t[d].text
                matches Some(raw) && x.raw == raw@
        },
        in_good_propstats(t, r, true, 0, data_ns, data_name) is None ==> resource_of(
            t,
            r,
            base,
            data_ns,
            data_name,
        ) is None,
{
}

/// Every collection a listing yields is what one of its `response`s comes
/// to, so each is named as `lemma_collection_name` says.
pub proof fn lemma_listed_collections_come_from_responses(
    t: Seq<XmlNode>,
    base: Seq<char>,
    kind: Kind,
    from: int,
)
    requires
        0 <= from,
    ensures
        collections_from(t, base, kind, from) matches Ok(cs) ==> forall|i: int|
            0 <= i < cs.len() ==> exists|r: int|
                from <= r < t.len() && collection_of(t, r, base, kind) == Some(
                    Ok::<CollectionView, Seq<char>>(#[trigger] cs[i]),
                ),
    decreases t.len() - from,
{
    match first_tag(t, 0, from, false, DAV@, "response"@) {
        Some(r) => if from <= r < t.len() {
            lemma_listed_collections_come_from_responses(t, base, kind, r + 1);
            match collections_from(t, base, kind, from) {
                Ok(cs) => {
                    match collection_of(t, r, base, kind) {
                        Some(Ok(c)) => {
                            let rest = collections_from(t, base, kind, r + 1)->Ok_0;
                            assert(cs == seq![c] + rest);
                            assert forall|i: int| 0 <= i < cs.len() implies exists|q: int|
                                from <= q < t.len() && collection_of(t, q, base, kind) == Some(
                                    Ok::<CollectionView, Seq<char>>(#[trigger] cs[i]),
                                ) by {
                                if i == 0 {
                                    assert(collection_of(t, r, base, kind) == Some(
                                        Ok::<CollectionView, Seq<char>>(cs[0]),
                                    ));
                                } else {
                                    assert(cs[i] == rest[i - 1]);
                                    let q = choose|q: int|
                                        r + 1 <= q < t.len() && collection_of(t, q, base, kind)
                                            == Some(Ok::<CollectionView, Seq<char>>(#[trigger] rest[i - 1]));
                                    assert(from <= q < t.len());
                                }
                            }
                        },
                        _ => {},
                    }
                },
                Err(_) => {},
            }
        },
        None => {},
    }
}

fn collection_at(t: &Vec<XmlNode>, r: usize, base: &str, kind: Kind) -> (res: Option<
    Result<Collection, String>,
>)
    ensures
        match res {
            Some(Ok(c)) => collection_of(t@, r as int, base@, kind) == Some(
                Ok::<CollectionView, Seq<char>>(c.view()),
            ),
            Some(Err(h)) => collection_of(t@, r as int, base@, kind) == Some(
                Err::<CollectionView, Seq<char>>(h@),
            ),
            None => collection_of(t@, r as int, base@, kind) is None,
        },
{
    if find_tag(t, r, r, false, &chars_of(kind.namespace()), &chars_of(kind.resource_type())).is_none() {
        return None;
    }
    let href = match child_text(t, r, DAV, "href") {
        Some(h) => h,
        None => {
            return None;
        },
    };
    let trimmed = string_of(&trim_chars(&chars_of(href.as_str())));
    let url = match resolve(base, trimmed.as_str()) {
        Some(u) => u,
        None => {
            return Some(Err(href));
        },
    };
    let name = match find_tag(t, r, r, false, &chars_of(DAV), &chars_of("displayname")) {
        Some(n) => match &t[n].text {
            Some(s) => if trim_chars(&chars_of(s.as_str())).len() > 0 {
                s.clone()
            } else {
                last_segment(url.as_str())
            },
            None => last_segment(url.as_str()),
        },
        None => last_segment(url.as_str()),
    };
    let a = find_tag(t, r, r, false, &chars_of(CALSERVER), &chars_of("getctag"));
    let b = find_tag(t, r, r, false, &chars_of(DAV), &chars_of("sync-token"));
    let first = match (a, b) {
        (Some(x), Some(y)) => if x <= y {
            Some(x)
        } else {
            Some(y)
        },
        (Some(x), None) => Some(x),
        (None, y) => y,
    };
    let tag = match first {
        Some(k) => match &t[k].text {
            Some(s) => Some(s.clone()),
            None => None,
        },
        None => None,
    };
    Some(Ok(Collection { url, name, tag }))
}

/// Reads a parsed Depth 1 listing of a home set into the collections of this
/// kind.
pub fn collections_in(t: &Vec<XmlNode>, base: &str, kind: Kind) -> (r: Result<
    Vec<Collection>,
    DavError,
>)
    ensures
        match r {
            Ok(v) => collections_from(t@, base@, kind, 0) == Ok::<Seq<CollectionView>, Seq<char>>(
                collections_view(v@),
            ),
            Err(e) => collections_from(t@, base@, kind, 0) matches Err(h) && (e matches DavError::Unresolvable(eh) && eh@ == h),
        },
{
    let dav = chars_of(DAV);
    let resp = chars_of("response");
    let mut out: Vec<Collection> = Vec::new();
    let mut j: usize = 0;
    while j < t.len()
        invariant
            dav@ == DAV@,
            resp@ == "response"@,
            match collections_from(t@, base@, kind, j as int) {
                Ok(rest) => collections_from(t@, base@, kind, 0) == Ok::<
                    Seq<CollectionView>,
                    Seq<char>,
                >(collections_view(out@) + rest),
                Err(h) => collections_from(t@, base@, kind, 0) == Err::<
                    Seq<CollectionView>,
                    Seq<char>,
                >(h),
            },
        decreases t.len() - j,
    {
        proof {
            lemma_first_tag_at_least(t@, 0, j as int, false, DAV@, "response"@);
        }
        match find_tag(t, 0, j, false, &dav, &resp) {
            Some(r) => {
                let ghost before = collections_view(out@);
                match collection_at(t, r, base, kind) {
                    Some(Ok(c)) => {
                        out.push(c);
                        assert(collections_view(out@) =~= before.push(c.view()));
                        proof {
                            match collections_from(t@, base@, kind, r as int + 1) {
                                Ok(rest) => {
                                    assert(collections_view(out@) + rest =~= before + (seq![c.view()]
                                        + rest));
                                },
                                Err(_) => {},
                            }
                        }
                    },
                    Some(Err(h)) => {
                        return Err(DavError::Unresolvable(h));
                    },
                    None => {},
                }
                j = r + 1;
            },
            None => {
                assert(collections_view(out@) =~= collections_view(out@) + Seq::<
                    CollectionView,
                >::empty());
                return Ok(out);
            },
        }
    }
    proof {
        lemma_first_tag_at_least(t@, 0, j as int, false, DAV@, "response"@);
    }
    assert(collections_view(out@) =~= collections_view(out@) + Seq::<CollectionView>::empty());
    Ok(out)
}

/// Reads a Depth 1 listing of a home set; a reply that is not XML cannot be
/// read.
pub fn parse_collections(xml: &str, base: &str, kind: Kind) -> (r: Result<
    Vec<Collection>,
    DavError,
>)
    ensures
        match xml_tree(xml@) {
            Some(t) => match r {
                Ok(v) => collections_from(t, base@, kind, 0) == Ok::<Seq<CollectionView>, Seq<char>>(
                    collections_view(v@),
                ),
                Err(e) => collections_from(t, base@, kind, 0) matches Err(h) && (e matches DavError::Unresolvable(eh) && eh@ == h),
            },
            None => r == Err::<Vec<Collection>, DavError>(DavError::Unreadable),
        },
{
    match parse_tree(xml) {
        Some(t) => collections_in(&t, base, kind),
        None => Err(DavError::Unreadable),
    }
}

/// The file a backed-up resource is written to: its URL's last path segment
/// (or the account URL's, when the resource's cannot be read), made safe.
pub open spec fn resource_file_spec(resource_url: Seq<char>, base: Seq<char>) -> Seq<char> {
    safe_name_spec(
        last_segment_spec(
            if url_path_segments(resource_url) is Some {
                resource_url
            } else {
                base
            },
        ),
    )
}

/// The name a backed-up resource is written under.
pub fn resource_file_name(resource_url: &str, base: &str) -> (r: String)
    ensures
        r@ == resource_file_spec(resource_url@, base@),
{
    let seg = match path_segments(resource_url) {
        Some(_) => last_segment(resource_url),
        None => last_segment(base),
    };
    safe_name(seg.as_str())
}

/// Asks for the account's own URL.
pub const PRINCIPAL_BODY: &'static str = "<d:propfind xmlns:d=\"DAV:\"><d:prop><d:current-user-principal/></d:prop></d:propfind>";

/// Asks a home set for its collections: type, name and change tags.
pub const COLLECTIONS_BODY: &'static str = "<d:propfind xmlns:d=\"DAV:\" xmlns:cs=\"http://calendarserver.org/ns/\"><d:prop><d:resourcetype/><d:displayname/><cs:getctag/><d:sync-token/></d:prop></d:propfind>";

/// Everything in an address book: ETags and cards.
pub const CONTACTS_REPORT: &'static str = "<card:addressbook-query xmlns:d=\"DAV:\" xmlns:card=\"urn:ietf:params:xml:ns:carddav\"><d:prop><d:getetag/><card:address-data/></d:prop></card:addressbook-query>";

/// Every event in a calendar. A calendar-query must carry a filter, and
/// VEVENT only keeps a Reminders list from arriving dressed as a diary.
pub const CALENDARS_REPORT: &'static str = "<cal:calendar-query xmlns:d=\"DAV:\" xmlns:cal=\"urn:ietf:params:xml:ns:caldav\"><d:prop><d:getetag/><cal:calendar-data/></d:prop><cal:filter><cal:comp-filter name=\"VCALENDAR\"><cal:comp-filter name=\"VEVENT\"/></cal:comp-filter></cal:filter></cal:calendar-query>";

impl Kind {
    /// The REPORT that fetches everything in a collection of this kind.
    pub fn report_body(self) -> (r: &'static str)
        ensures
            r@ == match self {
                Kind::Contacts => CONTACTS_REPORT@,
                Kind::Calendars => CALENDARS_REPORT@,
            },
    {
        match self {
            Kind::Contacts => CONTACTS_REPORT,
            Kind::Calendars => CALENDARS_REPORT,
        }
    }

    /// The PROPFIND that asks a principal where its collections of this kind
    /// live.
    pub fn home_set_body(self) -> (r: String)
        ensures
            r@ == "<d:propfind xmlns:d=\"DAV:\" xmlns:x=\""@ + self.namespace_spec()
                + "\"><d:prop><x:"@ + match self {
                Kind::Contacts => "addressbook-home-set"@,
                Kind::Calendars => "calendar-home-set"@,
            } + "/></d:prop></d:propfind>"@,
    {
        let mut v = chars_of("<d:propfind xmlns:d=\"DAV:\" xmlns:x=\"");
        v = cat_str(&v, self.namespace());
        v = cat_str(&v, "\"><d:prop><x:");
        v = cat_str(&v, self.home_set());
        v = cat_str(&v, "/></d:prop></d:propfind>");
        string_of(&v)
    }
}

fn cat_str(a: &Vec<char>, b: &str) -> (r: Vec<char>)
    ensures
        r@ == a@ + b@,
{
    let mut out = crate::text::copy_chars(a.as_slice());
    let bc = chars_of(b);
    let ghost start = out@;
    let mut k: usize = 0;
    while k < bc.len()
        invariant
            k <= bc.len(),
            out@ == start + bc@.take(k as int),
        decreases bc.len() - k,
    {
        out.push(bc[k]);
        k += 1;
        assert(out@ =~= start + bc@.take(k as int));
    }
    assert(bc@.take(bc.len() as int) =~= bc@);
    out
}

/// Resolves an href that may be a path against the account's URL: a caller
/// handed a path with no host cannot fetch it.
pub fn absolute(base: &str, href: &str) -> (r: Result<String, DavError>)
    ensures
        match r {
            Ok(u) => url_resolve(base@, trim(href@)) == Some(u@),
            Err(e) => url_resolve(base@, trim(href@)) is None && (e matches DavError::Unresolvable(h) && h@ == href@),
        },
{
    let trimmed = string_of(&trim_chars(&chars_of(href)));
    match resolve(base, trimmed.as_str()) {
        Some(u) => Ok(u),
        None => Err(DavError::Unresolvable(href.to_owned())),
    }
}

} // verus!
