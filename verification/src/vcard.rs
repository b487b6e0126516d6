//! Reading vCards (3.0 and 4.0), as CardDAV servers hand them out.
//!
//! The line format is `contentline`'s. What is left here is what a card means:
//! which lines are the name, the addresses and the numbers, and how Apple's
//! group labels attach to the address they belong to.

use vstd::prelude::*;
use base64::Engine;
use crate::contentline::{
    param_has, param_values, parse_property, property_spec, split_escaped_chars,
    split_escaped_spec, strings_view, unescape_chars, unescape_spec, unfold, unfold_spec,
    ParamsView, Property, PropertyView,
};
use crate::ical::lines_of;
use crate::ical::lines_spec;
use crate::text::{
    chars_eq, chars_of, copy_chars, eq_ic, eq_ignore_case, has_prefix, is_whitespace, is_ws,
    lower_chars, lower_seq, slice_chars, split_chars, split_on, starts_with, string_of, trim,
    trim_chars, views, find_first, first_index,
};

verus! {

/// A contact, as much of it as a mail client needs.
#[derive(Debug, Clone, Default, PartialEq, Eq)]
pub struct Contact {
    /// The card's own identifier, stable across edits.
    pub uid: String,
    /// What to call the person.
    pub name: String,
    pub emails: Vec<Detail>,
    pub phones: Vec<Detail>,
    pub organisation: Option<String>,
    /// Inline photo, as bytes and a media type. URLs are ignored: a remote
    /// fetch on behalf of a contact is a tracking beacon by another name.
    pub photo: Option<Photo>,
    /// The card's revision, for noticing changes without comparing everything.
    pub revision: Option<String>,
}

/// An address or number, with whatever the card called it.
#[derive(Debug, Clone, PartialEq, Eq)]
pub struct Detail {
    pub value: String,
    /// "home", "work", or a label the user typed. Lowercased; empty when the
    /// card said nothing.
    pub label: String,
    /// The one to use when only one can be used.
    pub preferred: bool,
}

#[derive(Debug, Clone, PartialEq, Eq)]
pub struct Photo {
    pub media_type: String,
    pub data: Vec<u8>,
}

pub struct DetailView {
    pub value: Seq<char>,
    pub label: Seq<char>,
    pub preferred: bool,
}

pub struct PhotoView {
    pub media_type: Seq<char>,
    pub data: Seq<u8>,
}

pub struct ContactView {
    pub uid: Seq<char>,
    pub name: Seq<char>,
    pub emails: Seq<DetailView>,
    pub phones: Seq<DetailView>,
    pub organisation: Option<Seq<char>>,
    pub photo: Option<PhotoView>,
    pub revision: Option<Seq<char>>,
}

impl Detail {
    pub open spec fn view(&self) -> DetailView {
        DetailView { value: self.value@, label: self.label@, preferred: self.preferred }
    }
}

impl Photo {
    pub open spec fn view(&self) -> PhotoView {
        PhotoView { media_type: self.media_type@, data: self.data@ }
    }
}

pub open spec fn details_view(v: Seq<Detail>) -> Seq<DetailView> {
    v.map_values(|d: Detail| d.view())
}

impl Contact {
    pub open spec fn view(&self) -> ContactView {
        ContactView {
            uid: self.uid@,
            name: self.name@,
            emails: details_view(self.emails@),
            phones: details_view(self.phones@),
            organisation: crate::ical::ov(self.organisation),
            photo: match self.photo {
                Some(p) => Some(p.view()),
                None => None,
            },
            revision: crate::ical::ov(self.revision),
        }
    }
}

/// What the STANDARD base64 engine of the `base64` crate decodes a byte
/// string to, or `None` where it reports an error.
pub uninterp spec fn base64_standard_decode(input: Seq<u8>) -> Option<Seq<u8>>;

/// Decodes with `base64::engine::general_purpose::STANDARD`.
///
/// Trusted: the result is taken to be exactly what the crate's decoder returns
/// for the UTF-8 bytes of `input`, named `base64_standard_decode`; nothing is
/// claimed about what that is.
#[verifier::external_body]
fn decode_base64(input: &str) -> (r: Option<Vec<u8>>)
    ensures
        r matches Some(v) ==> base64_standard_decode(vstd::utf8::encode_utf8(input@)) == Some(v@),
        r is None ==> base64_standard_decode(vstd::utf8::encode_utf8(input@)) is None,
{
    base64::engine::general_purpose::STANDARD.decode(input).ok()
}

/// 3.0 says TYPE=PREF or a bare PREF; 4.0 says PREF=1.
pub open spec fn is_preferred_spec(ps: ParamsView) -> bool {
    param_has(ps, "type"@, "pref"@) || (param_values(ps, "pref"@) matches Some(vs) && vs.len() > 0)
}

/// Transport hints, which say how to reach an address rather than what it is
/// for, and so are never labels.
pub open spec fn is_hint(t: Seq<char>) -> bool {
    t == "internet"@ || t == "pref"@ || t == "voice"@ || t == "other"@
}

/// The first lowercased type that is not a transport hint, or empty.
pub open spec fn first_label(ts: Seq<Seq<char>>) -> Seq<char>
    decreases ts.len(),
{
    if ts.len() == 0 {
        Seq::empty()
    } else if !is_hint(lower_seq(ts[0])) {
        lower_seq(ts[0])
    } else {
        first_label(ts.drop_first())
    }
}

pub open spec fn label_spec(ps: ParamsView) -> Seq<char> {
    match param_values(ps, "type"@) {
        Some(vs) => first_label(vs),
        None => Seq::empty(),
    }
}

fn is_preferred(params: &crate::contentline::Params) -> (r: bool)
    ensures
        r == is_preferred_spec(params.view()),
{
    if params.has("type", "pref") {
        return true;
    }
    match params.get("pref") {
        Some(vs) => vs.len() > 0,
        None => false,
    }
}

/// The label a detail should carry.
///
/// INTERNET and other transport hints are not labels — they say how to reach an
/// address, not what it is for, and showing "internet" beside every address
/// tells the reader nothing.
fn label_of(params: &crate::contentline::Params) -> (r: Vec<char>)
    ensures
        r@ == label_spec(params.view()),
{
    match params.get("type") {
        Some(vs) => {
            let ghost ts = strings_view(vs@);
            assert(ts.skip(0) =~= ts);
            let mut i: usize = 0;
            while i < vs.len()
                invariant
                    i <= vs.len(),
                    ts == strings_view(vs@),
                    param_values(params.view(), "type"@) == Some(ts),
                    first_label(ts) == first_label(ts.skip(i as int)),
                decreases vs.len() - i,
            {
                assert(ts.skip(i as int)[0] == vs@[i as int]@);
                let t = lower_chars(&chars_of(vs[i].as_str()));
                let internet = chars_of("internet");
                let pref = chars_of("pref");
                let voice = chars_of("voice");
                let other = chars_of("other");
                if !(chars_eq(&t, &internet) || chars_eq(&t, &pref) || chars_eq(&t, &voice)
                    || chars_eq(&t, &other)) {
                    return t;
                }
                assert(ts.skip(i as int).drop_first() =~= ts.skip(i + 1));
                i += 1;
            }
            Vec::new()
        },
        None => Vec::new(),
    }
}

pub open spec fn data_prefix() -> Seq<char> {
    "data:"@
}

/// Every character but whitespace.
pub open spec fn strip_ws(s: Seq<char>) -> Seq<char>
    decreases s.len(),
{
    if s.len() == 0 {
        s
    } else if is_ws(s.last()) {
        strip_ws(s.drop_last())
    } else {
        strip_ws(s.drop_last()).push(s.last())
    }
}

/// The media type and encoded payload of an inline photo: a 4.0 `data:` URI,
/// or 3.0's `ENCODING=b` with a `TYPE`. Anything else is a URL and has none.
pub open spec fn photo_source(ps: ParamsView, raw: Seq<char>) -> Option<(Seq<char>, Seq<char>)> {
    let encoding = match param_values(ps, "encoding"@) {
        Some(vs) if vs.len() > 0 => lower_seq(vs[0]),
        _ => Seq::empty(),
    };
    if starts_with(raw, data_prefix()) {
        let rest = raw.skip(data_prefix().len() as int);
        match first_index(rest, ',') {
            Some(k) => Some((split_on(rest.take(k), ';')[0], rest.skip(k + 1))),
            None => None,
        }
    } else if encoding == "b"@ || encoding == "base64"@ {
        let kind = match param_values(ps, "type"@) {
            Some(vs) if vs.len() > 0 => lower_seq(vs[0]),
            _ => "jpeg"@,
        };
        Some(("image/"@ + kind, raw))
    } else {
        None
    }
}

/// What `read_photo` decodes: the payload with whitespace removed and base64
/// decoded; a decoding failure or no bytes at all is no photo.
pub open spec fn photo_spec(ps: ParamsView, raw: Seq<char>) -> Option<PhotoView> {
    match photo_source(ps, raw) {
        Some((media, payload)) => match base64_standard_decode(
            vstd::utf8::encode_utf8(strip_ws(payload)),
        ) {
            Some(data) if data.len() > 0 => Some(PhotoView { media_type: media, data }),
            _ => None,
        },
        None => None,
    }
}

fn read_photo(property: &Property, raw: &Vec<char>) -> (r: Option<Photo>)
    ensures
        r matches Some(p) ==> photo_spec(property.params.view(), raw@) == Some(p.view()),
        r is None ==> photo_spec(property.params.view(), raw@) is None,
{
    let ghost ps = property.params.view();
    let encoding = match property.params.get("encoding") {
        Some(vs) => {
            if vs.len() > 0 {
                assert(strings_view(vs@)[0] == vs@[0]@);
                lower_chars(&chars_of(vs[0].as_str()))
            } else {
                Vec::new()
            }
        },
        None => Vec::new(),
    };
    let data_lit = chars_of("data:");
    let source: Option<(Vec<char>, Vec<char>)> = if has_prefix(raw, &data_lit) {
        let rest = slice_chars(raw, data_lit.len(), raw.len());
        assert(rest@ =~= raw@.skip(data_prefix().len() as int));
        match find_first(&rest, ',') {
            Some(k) => {
                let meta = slice_chars(&rest, 0, k);
                let data = slice_chars(&rest, k + 1, rest.len());
                assert(meta@ =~= rest@.take(k as int));
                assert(data@ =~= rest@.skip(k + 1));
                Some((crate::model::before_first(&meta, ';'), data))
            },
            None => None,
        }
    } else if is_text(&encoding, "b") || is_text(&encoding, "base64") {
        let kind = match property.params.get("type") {
            Some(vs) => {
                if vs.len() > 0 {
                    assert(strings_view(vs@)[0] == vs@[0]@);
                    lower_chars(&chars_of(vs[0].as_str()))
                } else {
                    chars_of("jpeg")
                }
            },
            None => chars_of("jpeg"),
        };
        let mut media = chars_of("image/");
        let ghost m0 = media@;
        let mut j: usize = 0;
        while j < kind.len()
            invariant
                j <= kind.len(),
                media@ == m0 + kind@.take(j as int),
            decreases kind.len() - j,
        {
            media.push(kind[j]);
            j += 1;
            assert(media@ =~= m0 + kind@.take(j as int));
        }
        assert(kind@.take(kind.len() as int) =~= kind@);
        Some((media, copy_chars(raw)))
    } else {
        None
    };
    assert(source matches Some(s) ==> photo_source(ps, raw@) == Some((s.0@, s.1@)));
    assert(source is None ==> photo_source(ps, raw@) is None);
    match source {
        Some((media, payload)) => {
            let cleaned = string_of(&strip_whitespace(&payload));
            match decode_base64(cleaned.as_str()) {
                Some(data) => {
                    if data.len() > 0 {
                        Some(Photo { media_type: string_of(&media), data })
                    } else {
                        None
                    }
                },
                None => None,
            }
        },
        None => None,
    }
}

fn is_text(v: &Vec<char>, lit: &str) -> (r: bool)
    ensures
        r == (v@ == lit@),
{
    let l = chars_of(lit);
    chars_eq(v, &l)
}

fn strip_whitespace(v: &Vec<char>) -> (r: Vec<char>)
    ensures
        r@ == strip_ws(v@),
{
    let mut out: Vec<char> = Vec::new();
    let mut i: usize = 0;
    while i < v.len()
        invariant
            i <= v.len(),
            out@ == strip_ws(v@.take(i as int)),
        decreases v.len() - i,
    {
        assert(v@.take(i + 1).drop_last() =~= v@.take(i as int));
        assert(v@.take(i + 1).last() == v@[i as int]);
        if !is_whitespace(v[i]) {
            out.push(v[i]);
        }
        i += 1;
    }
    assert(v@.take(v.len() as int) =~= v@);
    out
}

pub struct PendingView {
    pub group: Option<Seq<char>>,
    pub preferred: bool,
    pub label: Seq<char>,
    pub is_email: bool,
    pub value: Seq<char>,
}

/// What has been read of a card so far.
pub struct CardState {
    pub uid: Seq<char>,
    pub name: Seq<char>,
    pub organisation: Option<Seq<char>>,
    pub photo: Option<PhotoView>,
    pub revision: Option<Seq<char>>,
    /// The name from `N`, given name first.
    pub structured: Option<Seq<char>>,
    /// Group labels in the order they appeared; a later one for the same
    /// group replaces an earlier one.
    pub labels: Seq<(Seq<char>, Seq<char>)>,
    /// Addresses and numbers, labelled once the whole card is read.
    pub pending: Seq<PendingView>,
}

pub open spec fn empty_card() -> CardState {
    CardState {
        uid: Seq::empty(),
        name: Seq::empty(),
        organisation: None,
        photo: None,
        revision: None,
        structured: None,
        labels: Seq::empty(),
        pending: Seq::empty(),
    }
}

/// The name an `N` value gives: given name, a space, family name, trimmed.
pub open spec fn structured_name(raw: Seq<char>) -> Seq<char> {
    let parts = split_escaped_spec(raw, ';');
    let given = if parts.len() > 1 {
        unescape_spec(parts[1])
    } else {
        Seq::empty()
    };
    let family = unescape_spec(parts[0]);
    trim(trim(given).push(' ') + trim(family))
}

/// The organisation an `ORG` value gives: its first field.
pub open spec fn organisation_of(raw: Seq<char>) -> Seq<char> {
    trim(unescape_spec(split_escaped_spec(raw, ';')[0]))
}

/// One property of a card applied to what has been read.
pub open spec fn card_prop(st: CardState, p: PropertyView) -> CardState {
    let value = trim(unescape_spec(p.value));
    let name = p.name;
    if name == "uid"@ {
        if value.len() > 0 { CardState { uid: value, ..st } } else { st }
    } else if name == "fn"@ {
        if value.len() > 0 { CardState { name: value, ..st } } else { st }
    } else if name == "n"@ {
        if st.structured is None && structured_name(p.value).len() > 0 {
            CardState { structured: Some(structured_name(p.value)), ..st }
        } else {
            st
        }
    } else if name == "org"@ {
        if st.organisation is None && value.len() > 0 && organisation_of(p.value).len() > 0 {
            CardState { organisation: Some(organisation_of(p.value)), ..st }
        } else {
            st
        }
    } else if name == "rev"@ {
        if value.len() > 0 { CardState { revision: Some(value), ..st } } else { st }
    } else if name == "x-ablabel"@ {
        if p.group is Some && value.len() > 0 {
            CardState { labels: st.labels.push((p.group->0, lower_seq(value))), ..st }
        } else {
            st
        }
    } else if name == "email"@ || name == "tel"@ {
        if value.len() > 0 {
            CardState {
                pending: st.pending.push(
                    PendingView {
                        group: p.group,
                        preferred: is_preferred_spec(p.params),
                        label: label_spec(p.params),
                        is_email: name == "email"@,
                        value,
                    },
                ),
                ..st
            }
        } else {
            st
        }
    } else if name == "photo"@ {
        if st.photo is None { CardState { photo: photo_spec(p.params, p.value), ..st } } else { st }
    } else {
        st
    }
}

proof fn lemma_first_label_not_hint(ts: Seq<Seq<char>>)
    ensures
        !is_hint(first_label(ts)),
    decreases ts.len(),
{
    reveal_strlit("internet");
    reveal_strlit("pref");
    reveal_strlit("voice");
    reveal_strlit("other");
    if ts.len() > 0 && is_hint(lower_seq(ts[0])) {
        lemma_first_label_not_hint(ts.drop_first());
    }
    if ts.len() == 0 {
        assert("internet"@.len() > 0 && "pref"@.len() > 0 && "voice"@.len() > 0 && "other"@.len() > 0);
    }
}

/// A phone number is labelled exactly as an address with the same
/// parameters would be: by the first `TYPE` value that is not a transport
/// hint, lowercased, and by nothing when there is no `TYPE`. Only the kind of
/// the detail differs; its value, group and preference are read alike.
pub proof fn lemma_phone_labelled_like_email(st: CardState, p: PropertyView)
    requires
        p.name == "tel"@,
        trim(unescape_spec(p.value)).len() > 0,
    ensures
        ({
            let q = PropertyView { name: "email"@, ..p };
            let phone = card_prop(st, p).pending;
            let email = card_prop(st, q).pending;
            &&& phone.len() == st.pending.len() + 1 && email.len() == st.pending.len() + 1
            &&& phone.drop_last() == st.pending && email.drop_last() == st.pending
            &&& phone.last().label == email.last().label
            &&& phone.last().group == email.last().group
            &&& phone.last().preferred == email.last().preferred
            &&& phone.last().value == email.last().value
            &&& !phone.last().is_email && email.last().is_email
            &&& (param_values(p.params, "type"@) matches Some(vs) ==> (vs.len() > 0 && !(
            lower_seq(vs[0]) == "internet"@ || lower_seq(vs[0]) == "pref"@ || lower_seq(vs[0])
                == "voice"@ || lower_seq(vs[0]) == "other"@) ==> phone.last().label == lower_seq(
                vs[0],
            )))
            &&& phone.last().label != "internet"@ && phone.last().label != "pref"@
            &&& phone.last().label != "voice"@ && phone.last().label != "other"@
            &&& (param_values(p.params, "type"@) is None ==> phone.last().label.len() == 0)
        }),
{
    reveal_strlit("uid");
    reveal_strlit("fn");
    reveal_strlit("n");
    reveal_strlit("org");
    reveal_strlit("rev");
    reveal_strlit("x-ablabel");
    reveal_strlit("email");
    reveal_strlit("tel");
    reveal_strlit("type");
    let q = PropertyView { name: "email"@, ..p };
    assert(q.params == p.params);
    reveal_strlit("internet");
    reveal_strlit("pref");
    reveal_strlit("voice");
    reveal_strlit("other");
    match param_values(p.params, "type"@) {
        Some(vs) => lemma_first_label_not_hint(vs),
        None => {},
    }
    assert("tel"@[0] != "uid"@[0]);
    assert("tel"@[0] != "fn"@[0]);
    assert("tel"@[0] != "n"@[0]);
    assert("tel"@[0] != "org"@[0]);
    assert("tel"@[0] != "rev"@[0]);
    assert("tel"@[0] != "x-ablabel"@[0]);
    assert("email"@[0] != "uid"@[0]);
    assert("email"@[0] != "fn"@[0]);
    assert("email"@[0] != "n"@[0]);
    assert("email"@[0] != "org"@[0]);
    assert("email"@[0] != "rev"@[0]);
    assert("email"@[0] != "x-ablabel"@[0]);
    assert("tel"@[0] != "email"@[0]);
    assert(card_prop(st, p).pending.drop_last() =~= st.pending);
    assert(card_prop(st, q).pending.drop_last() =~= st.pending);
}

pub open spec fn card_step(st: CardState, line: Seq<char>) -> CardState {
    match property_spec(line) {
        Some(p) => card_prop(st, p),
        None => st,
    }
}

pub open spec fn card_steps(lines: Seq<Seq<char>>) -> CardState
    decreases lines.len(),
{
    if lines.len() == 0 {
        empty_card()
    } else {
        card_step(card_steps(lines.drop_last()), lines.last())
    }
}

/// The label most recently given to a group.
pub open spec fn label_lookup(labels: Seq<(Seq<char>, Seq<char>)>, g: Seq<char>) -> Option<Seq<char>>
    decreases labels.len(),
{
    if labels.len() == 0 {
        None
    } else if labels.last().0 == g {
        Some(labels.last().1)
    } else {
        label_lookup(labels.drop_last(), g)
    }
}

/// A pending address or number with its label settled: the group's label
/// wins over the one from `TYPE`, wherever in the card it appeared.
pub open spec fn settle(p: PendingView, labels: Seq<(Seq<char>, Seq<char>)>) -> DetailView {
    DetailView {
        value: p.value,
        label: match p.group {
            Some(g) => match label_lookup(labels, g) {
                Some(l) => l,
                None => p.label,
            },
            None => p.label,
        },
        preferred: p.preferred,
    }
}

/// A group's `X-ABLabel` beats the `TYPE` label of the address or number in
/// that group, the most recent one for the group winning, wherever in the
/// card it stands; a label for another group, or a detail in no group, is
/// left as `TYPE` labelled it. Value and preference are never touched.
pub proof fn lemma_group_label_wins(
    p: PendingView,
    labels: Seq<(Seq<char>, Seq<char>)>,
    g: Seq<char>,
    l: Seq<char>,
)
    ensures
        p.group == Some(g) ==> settle(p, labels.push((g, l))).label == l,
        p.group != Some(g) ==> settle(p, labels.push((g, l))).label == settle(p, labels).label,
        p.group is None ==> settle(p, labels).label == p.label,
        settle(p, labels).value == p.value && settle(p, labels).preferred == p.preferred,
{
    assert(labels.push((g, l)).drop_last() =~= labels);
}

/// The settled emails (`want_email`) or phone numbers, in card order.
pub open spec fn settled(ps: Seq<PendingView>, labels: Seq<(Seq<char>, Seq<char>)>, want_email: bool) -> Seq<DetailView>
    decreases ps.len(),
{
    if ps.len() == 0 {
        Seq::empty()
    } else if ps.last().is_email == want_email {
        settled(ps.drop_last(), labels, want_email).push(settle(ps.last(), labels))
    } else {
        settled(ps.drop_last(), labels, want_email)
    }
}

/// The contact a finished card describes, or none when there is nothing to
/// show and nothing to reach. A card without `FN` is named from `N`, then
/// from its first address.
pub open spec fn finish_card(st: CardState) -> Option<ContactView> {
    let emails = settled(st.pending, st.labels, true);
    let phones = settled(st.pending, st.labels, false);
    let name = if st.name.len() > 0 {
        st.name
    } else {
        match st.structured {
            Some(s) => s,
            None => if emails.len() > 0 { emails[0].value } else { Seq::empty() },
        }
    };
    if st.uid.len() == 0 && name.len() == 0 && emails.len() == 0 {
        None
    } else {
        Some(ContactView {
            uid: st.uid,
            name,
            emails,
            phones,
            organisation: st.organisation,
            photo: st.photo,
            revision: st.revision,
        })
    }
}

/// What `parse` reads from one card.
pub open spec fn parse_spec(raw: Seq<char>) -> Option<ContactView> {
    finish_card(card_steps(lines_spec(unfold_spec(raw))))
}

/// A card is dropped only when there is nothing usable in it: every contact
/// read has an identifier, a name or an address, and a card with an
/// identifier or a name is kept even when it has no address.
pub proof fn lemma_only_empty_cards_are_dropped(raw: Seq<char>)
    ensures
        parse_spec(raw) matches Some(c) ==> (c.uid.len() > 0 || c.name.len() > 0 || c.emails.len() > 0),
        ({
            let st = card_steps(lines_spec(unfold_spec(raw)));
            (st.uid.len() > 0 || st.name.len() > 0) ==> parse_spec(raw) is Some
        }),
{
}

pub open spec fn ovc(o: Option<Vec<char>>) -> Option<Seq<char>> {
    match o {
        Some(v) => Some(v@),
        None => None,
    }
}

struct PendingExec {
    group: Option<Vec<char>>,
    preferred: bool,
    label: Vec<char>,
    is_email: bool,
    value: Vec<char>,
}

impl PendingExec {
    spec fn view(&self) -> PendingView {
        PendingView {
            group: ovc(self.group),
            preferred: self.preferred,
            label: self.label@,
            is_email: self.is_email,
            value: self.value@,
        }
    }
}

struct CardExec {
    uid: Vec<char>,
    name: Vec<char>,
    organisation: Option<Vec<char>>,
    photo: Option<Photo>,
    revision: Option<Vec<char>>,
    structured: Option<Vec<char>>,
    labels: Vec<(Vec<char>, Vec<char>)>,
    pending: Vec<PendingExec>,
}

spec fn labels_view(v: Seq<(Vec<char>, Vec<char>)>) -> Seq<(Seq<char>, Seq<char>)> {
    v.map_values(|e: (Vec<char>, Vec<char>)| (e.0@, e.1@))
}

spec fn pending_view(v: Seq<PendingExec>) -> Seq<PendingView> {
    v.map_values(|e: PendingExec| e.view())
}

impl CardExec {
    spec fn view(&self) -> CardState {
        CardState {
            uid: self.uid@,
            name: self.name@,
            organisation: ovc(self.organisation),
            photo: match self.photo {
                Some(p) => Some(p.view()),
                None => None,
            },
            revision: ovc(self.revision),
            structured: ovc(self.structured),
            labels: labels_view(self.labels@),
            pending: pending_view(self.pending@),
        }
    }
}

fn structured_name_exec(raw: &Vec<char>) -> (r: Vec<char>)
    ensures
        r@ == structured_name(raw@),
{
    let parts = split_escaped_chars(raw, ';');
    proof {
        crate::contentline::lemma_split_escaped_nonempty(raw@, ';');
    }
    assert(parts@[0]@ == views(parts@)[0]);
    let given = if parts.len() > 1 {
        assert(parts@[1]@ == views(parts@)[1]);
        unescape_chars(&parts[1])
    } else {
        Vec::new()
    };
    let family = unescape_chars(&parts[0]);
    let mut joined = trim_chars(&given);
    joined.push(' ');
    let f = trim_chars(&family);
    let ghost j0 = joined@;
    let mut k: usize = 0;
    while k < f.len()
        invariant
            k <= f.len(),
            joined@ == j0 + f@.take(k as int),
        decreases f.len() - k,
    {
        joined.push(f[k]);
        k += 1;
        assert(joined@ =~= j0 + f@.take(k as int));
    }
    assert(f@.take(f.len() as int) =~= f@);
    trim_chars(&joined)
}

fn card_prop_exec(st: &mut CardExec, p: &Property)
    ensures
        final(st).view() == card_prop(old(st).view(), p.view()),
{
    let raw = chars_of(p.value);
    let value = trim_chars(&unescape_chars(&raw));
    let name = chars_of(p.name.as_str());
    if is_text(&name, "uid") {
        if value.len() > 0 {
            st.uid = value;
        }
    } else if is_text(&name, "fn") {
        if value.len() > 0 {
            st.name = value;
        }
    } else if is_text(&name, "n") {
        if st.structured.is_none() {
            let joined = structured_name_exec(&raw);
            if joined.len() > 0 {
                st.structured = Some(joined);
            }
        }
    } else if is_text(&name, "org") {
        if st.organisation.is_none() && value.len() > 0 {
            let parts = split_escaped_chars(&raw, ';');
            proof {
                crate::contentline::lemma_split_escaped_nonempty(raw@, ';');
            }
            assert(parts@[0]@ == views(parts@)[0]);
            let first = trim_chars(&unescape_chars(&parts[0]));
            if first.len() > 0 {
                st.organisation = Some(first);
            }
        }
    } else if is_text(&name, "rev") {
        if value.len() > 0 {
            st.revision = Some(value);
        }
    } else if is_text(&name, "x-ablabel") {
        match &p.group {
            Some(g) => {
                if value.len() > 0 {
                    let entry = (chars_of(g.as_str()), lower_chars(&value));
                    let ghost lv = labels_view(st.labels@);
                    let ghost ev = (entry.0@, entry.1@);
                    st.labels.push(entry);
                    assert(labels_view(st.labels@) =~= lv.push(ev));
                }
            },
            None => {},
        }
    } else if is_text(&name, "email") || is_text(&name, "tel") {
        if value.len() > 0 {
            let group = match &p.group {
                Some(g) => Some(chars_of(g.as_str())),
                None => None,
            };
            let pend = PendingExec {
                group,
                preferred: is_preferred(&p.params),
                label: label_of(&p.params),
                is_email: is_text(&name, "email"),
                value,
            };
            let ghost pv = pending_view(st.pending@);
            let ghost ev = pend.view();
            st.pending.push(pend);
            assert(pending_view(st.pending@) =~= pv.push(ev));
        }
    } else if is_text(&name, "photo") {
        if st.photo.is_none() {
            st.photo = read_photo(p, &raw);
        }
    }
}

fn lookup_label(labels: &Vec<(Vec<char>, Vec<char>)>, g: &Vec<char>) -> (r: Option<Vec<char>>)
    ensures
        ovc(r) == label_lookup(labels_view(labels@), g@),
{
    let mut i = labels.len();
    assert(labels_view(labels@).take(i as int) =~= labels_view(labels@));
    while i > 0
        invariant
            i <= labels.len(),
            label_lookup(labels_view(labels@), g@) == label_lookup(labels_view(labels@).take(i as int), g@),
        decreases i,
    {
        let ghost lv = labels_view(labels@).take(i as int);
        assert(lv.last() == (labels@[i - 1].0@, labels@[i - 1].1@));
        assert(lv.drop_last() =~= labels_view(labels@).take(i - 1));
        if chars_eq(&labels[i - 1].0, g) {
            return Some(copy_chars(&labels[i - 1].1));
        }
        i -= 1;
    }
    None
}

fn settle_all(pending: &Vec<PendingExec>, labels: &Vec<(Vec<char>, Vec<char>)>, want_email: bool) -> (r: Vec<Detail>)
    ensures
        details_view(r@) == settled(pending_view(pending@), labels_view(labels@), want_email),
{
    let mut out: Vec<Detail> = Vec::new();
    let mut i: usize = 0;
    while i < pending.len()
        invariant
            i <= pending.len(),
            details_view(out@) == settled(pending_view(pending@).take(i as int), labels_view(labels@), want_email),
        decreases pending.len() - i,
    {
        let ghost pv = pending_view(pending@);
        assert(pv.take(i + 1).drop_last() =~= pv.take(i as int));
        assert(pv.take(i + 1).last() == pending@[i as int].view());
        let pend = &pending[i];
        if pend.is_email == want_email {
            let label = match &pend.group {
                Some(g) => match lookup_label(labels, g) {
                    Some(l) => l,
                    None => copy_chars(&pend.label),
                },
                None => copy_chars(&pend.label),
            };
            let d = Detail { value: string_of(&pend.value), label: string_of(&label), preferred: pend.preferred };
            let ghost ov = details_view(out@);
            let ghost dv = d.view();
            out.push(d);
            assert(details_view(out@) =~= ov.push(dv));
        }
        i += 1;
    }
    assert(pending_view(pending@).take(pending.len() as int) =~= pending_view(pending@));
    out
}

/// Reads one vCard.
///
/// Returns `None` only when there is nothing usable — no identifier and no way
/// to address the person. A card with a name and no address is still worth
/// keeping; a card with neither is not a contact.
pub fn parse(raw: &str) -> (r: Option<Contact>)
    ensures
        r matches Some(c) ==> parse_spec(raw@) == Some(c.view()),
        r is None ==> parse_spec(raw@) is None,
{
    let unfolded = unfold(raw);
    let lines = lines_of(&chars_of(unfolded.as_str()));
    let mut st = CardExec {
        uid: Vec::new(),
        name: Vec::new(),
        organisation: None,
        photo: None,
        revision: None,
        structured: None,
        labels: Vec::new(),
        pending: Vec::new(),
    };
    assert(st.view().labels =~= empty_card().labels);
    assert(st.view().pending =~= empty_card().pending);
    assert(st.view().uid =~= empty_card().uid);
    assert(st.view().name =~= empty_card().name);
    let mut i: usize = 0;
    while i < lines.len()
        invariant
            i <= lines.len(),
            views(lines@) == lines_spec(unfold_spec(raw@)),
            st.view() == card_steps(views(lines@).take(i as int)),
        decreases lines.len() - i,
    {
        let ghost ls = views(lines@);
        assert(ls.take(i + 1).drop_last() =~= ls.take(i as int));
        assert(ls.take(i + 1).last() == lines@[i as int]@);
        let text = string_of(&lines[i]);
        match parse_property(text.as_str()) {
            Some(p) => card_prop_exec(&mut st, &p),
            None => {},
        }
        i += 1;
    }
    assert(views(lines@).take(lines.len() as int) =~= views(lines@));
    let emails = settle_all(&st.pending, &st.labels, true);
    let phones = settle_all(&st.pending, &st.labels, false);
    let name = if st.name.len() > 0 {
        string_of(&st.name)
    } else {
        match &st.structured {
            Some(s) => string_of(s),
            None => if emails.len() > 0 {
                assert(details_view(emails@)[0] == emails@[0].view());
                emails[0].value.clone()
            } else {
                String::new()
            },
        }
    };
    let name_empty = name.as_str().is_empty();
    if st.uid.len() == 0 && name_empty && emails.len() == 0 {
        return None;
    }
    let c = Contact {
        uid: string_of(&st.uid),
        name,
        emails,
        phones,
        organisation: match &st.organisation {
            Some(o) => Some(string_of(o)),
            None => None,
        },
        photo: st.photo,
        revision: match &st.revision {
            Some(o) => Some(string_of(o)),
            None => None,
        },
    };
    Some(c)
}


/// What the reader of a multi-card body holds between lines: the card being
/// collected and the contacts read so far.
pub struct ManyState {
    pub current: Seq<char>,
    pub out: Seq<ContactView>,
}

/// One line of a multi-card body. `BEGIN:VCARD` starts a fresh card, every
/// line is kept with its newline, and `END:VCARD` hands the card to `parse`.
pub open spec fn many_step(st: ManyState, line: Seq<char>) -> ManyState {
    let base = if eq_ic(line, "BEGIN:VCARD"@) {
        seq![]
    } else {
        st.current
    };
    let cur = base + line.push('\n');
    if eq_ic(line, "END:VCARD"@) {
        ManyState {
            current: seq![],
            out: match parse_spec(cur) {
                Some(c) => st.out.push(c),
                None => st.out,
            },
        }
    } else {
        ManyState { current: cur, out: st.out }
    }
}

pub open spec fn many_steps(lines: Seq<Seq<char>>) -> ManyState
    decreases lines.len(),
{
    if lines.len() == 0 {
        ManyState { current: seq![], out: seq![] }
    } else {
        many_step(many_steps(lines.drop_last()), lines.last())
    }
}

/// The contacts of a body holding several cards, in the order they come.
pub open spec fn parse_many_spec(raw: Seq<char>) -> Seq<ContactView> {
    many_steps(lines_spec(unfold_spec(raw))).out
}

pub open spec fn contacts_view(v: Seq<Contact>) -> Seq<ContactView> {
    v.map_values(|c: Contact| c.view())
}

/// Splits a response body holding several cards.
pub fn parse_many(raw: &str) -> (r: Vec<Contact>)
    ensures
        contacts_view(r@) == parse_many_spec(raw@),
{
    let unfolded = unfold(raw);
    let lines = lines_of(&chars_of(unfolded.as_str()));
    let begin = chars_of("BEGIN:VCARD");
    let end = chars_of("END:VCARD");
    let mut out: Vec<Contact> = Vec::new();
    let mut current: Vec<char> = Vec::new();
    let mut i: usize = 0;
    while i < lines.len()
        invariant
            i <= lines.len(),
            views(lines@) == lines_spec(unfold_spec(raw@)),
            begin@ == "BEGIN:VCARD"@,
            end@ == "END:VCARD"@,
            current@ == many_steps(views(lines@).take(i as int)).current,
            contacts_view(out@) == many_steps(views(lines@).take(i as int)).out,
        decreases lines.len() - i,
    {
        let ghost ls = views(lines@);
        assert(ls.take(i + 1).drop_last() =~= ls.take(i as int));
        assert(ls.take(i + 1).last() == lines@[i as int]@);
        let line = &lines[i];
        if eq_ignore_case(line, &begin) {
            current = Vec::new();
        }
        let ghost before = current@;
        let mut k: usize = 0;
        while k < line.len()
            invariant
                k <= line.len(),
                current@ == before + line@.take(k as int),
            decreases line.len() - k,
        {
            current.push(line[k]);
            k += 1;
            assert(current@ =~= before + line@.take(k as int));
        }
        current.push('\n');
        assert(current@ =~= before + line@.push('\n'));
        if eq_ignore_case(line, &end) {
            let text = string_of(&current);
            match parse(text.as_str()) {
                Some(c) => {
                    let ghost ov = contacts_view(out@);
                    let ghost cv = c.view();
                    out.push(c);
                    assert(contacts_view(out@) =~= ov.push(cv));
                },
                None => {},
            }
            current = Vec::new();
        }
        i += 1;
    }
    assert(views(lines@).take(lines.len() as int) =~= views(lines@));
    out
}

} // verus!
