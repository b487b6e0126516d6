//! Reading the provider's authentication verdict for a message.
//!
//! We do not evaluate SPF, DKIM or DMARC ourselves: the receiving provider
//! already did, at the only point where it is possible. What we do instead is
//! read the `Authentication-Results` header the provider stamped, on one
//! assumption worth stating plainly: the topmost header is ours.
//!
//! The verdict decides whether "always allow images from apple.com" is a
//! sensible offer or a trap. On a DMARC-enforced domain nobody else can put
//! that domain in a From header, so the allowance means what the user thinks.

use vstd::prelude::*;
use crate::text::{
    chars_of, eq_ic, eq_ignore_case, find_first, first_index, lower_chars, lower_seq, slice_chars,
    split_chars, split_on, split_words, string_of, strip_all_start, trim, trim_char,
    trim_char_chars, trim_chars, views, words,
};

verus! {

/// What the provider concluded about where a message came from.
#[derive(Debug, Clone, PartialEq, Eq)]
pub enum Authentication {
    /// DMARC passed, so the `From` domain is genuinely that domain.
    Verified { domain: String },
    /// The provider checked and the message did not pass.
    Failed,
    /// Nothing to go on: the header is missing, says nothing about DMARC, or
    /// cannot be read.
    Unknown,
}

/// The verdict as plain values.
pub enum AuthView {
    Verified(Seq<char>),
    Failed,
    Unknown,
}

impl Authentication {
    pub open spec fn view(&self) -> AuthView {
        match self {
            Authentication::Verified { domain } => AuthView::Verified(domain@),
            Authentication::Failed => AuthView::Failed,
            Authentication::Unknown => AuthView::Unknown,
        }
    }

    /// The domain a message is proven to come from, if any.
    ///
    /// `Failed` and `Unknown` deliberately collapse to `None` here: in both
    /// cases there is nothing we can promise the user about who sent this.
    pub fn verified_domain(&self) -> (r: Option<&str>)
        ensures
            match self.view() {
                AuthView::Verified(d) => r matches Some(s) && s@ == d,
                _ => r is None,
            },
    {
        match self {
            Authentication::Verified { domain } => Some(domain.as_str()),
            _ => None,
        }
    }
}

/// How deep inside parentheses the text so far leaves us.
pub open spec fn comment_depth(s: Seq<char>) -> nat
    decreases s.len(),
{
    if s.len() == 0 {
        0
    } else {
        let d = comment_depth(s.drop_last());
        if s.last() == '(' {
            d + 1
        } else if s.last() == ')' {
            if d > 0 {
                (d - 1) as nat
            } else {
                0
            }
        } else {
            d
        }
    }
}

/// The text with RFC 5322 comments removed: parentheses, which may nest, and
/// everything inside them. A stray `)` outside any comment is dropped too.
pub open spec fn strip_comments_spec(s: Seq<char>) -> Seq<char>
    decreases s.len(),
{
    if s.len() == 0 {
        Seq::<char>::empty()
    } else {
        let out = strip_comments_spec(s.drop_last());
        let c = s.last();
        if c != '(' && c != ')' && comment_depth(s.drop_last()) == 0 {
            out.push(c)
        } else {
            out
        }
    }
}

/// What has been read so far: the last `dmarc=` result and the last
/// non-empty `header.from=` domain.
pub struct Scan {
    pub dmarc: Option<Seq<char>>,
    pub from: Option<Seq<char>>,
}

pub open spec fn dmarc_key() -> Seq<char> {
    seq!['d', 'm', 'a', 'r', 'c']
}

pub open spec fn header_from_key() -> Seq<char> {
    seq!['h', 'e', 'a', 'd', 'e', 'r', '.', 'f', 'r', 'o', 'm']
}

pub open spec fn pass_word() -> Seq<char> {
    seq!['p', 'a', 's', 's']
}

/// A `header.from` value with whitespace, quotes and a leading `@` removed.
pub open spec fn domain_of(value: Seq<char>) -> Seq<char> {
    strip_all_start(trim_char(trim(value), '"'), '@')
}

/// One `key=value` token applied to the scan; a token without `=` changes
/// nothing.
pub open spec fn scan_token(st: Scan, tok: Seq<char>) -> Scan {
    match first_index(tok, '=') {
        Some(k) => {
            let key = lower_seq(trim(tok.take(k)));
            let value = tok.skip(k + 1);
            if key == dmarc_key() {
                Scan { dmarc: Some(trim(value)), from: st.from }
            } else if key == header_from_key() && domain_of(value).len() > 0 {
                Scan { dmarc: st.dmarc, from: Some(lower_seq(domain_of(value))) }
            } else {
                st
            }
        },
        None => st,
    }
}

pub open spec fn scan_tokens(st: Scan, toks: Seq<Seq<char>>) -> Scan
    decreases toks.len(),
{
    if toks.len() == 0 {
        st
    } else {
        scan_token(scan_tokens(st, toks.drop_last()), toks.last())
    }
}

/// The tokens of every part after the first (the authserv-id), in order.
pub open spec fn scan_parts(st: Scan, parts: Seq<Seq<char>>) -> Scan
    decreases parts.len(),
{
    if parts.len() == 0 {
        st
    } else {
        scan_tokens(scan_parts(st, parts.drop_last()), words(parts.last()))
    }
}

pub open spec fn verdict(st: Scan) -> AuthView {
    match (st.dmarc, st.from) {
        (Some(r), Some(d)) if eq_ic(r, pass_word()) => AuthView::Verified(d),
        (Some(r), _) if eq_ic(r, pass_word()) => AuthView::Unknown,
        (Some(_), _) => AuthView::Failed,
        _ => AuthView::Unknown,
    }
}

/// What `parse` concludes from a header value: comments removed, the text
/// split at `;`, the first part (who stamped it) skipped, and the remaining
/// whitespace-separated `key=value` tokens read in order. DMARC `pass` with a
/// `header.from` domain is a verification of that domain; a pass without one
/// tells nothing; any other DMARC result is a failure; no DMARC result at all
/// is no verdict.
pub open spec fn parse_spec(header: Seq<char>) -> AuthView {
    let parts = split_on(strip_comments_spec(header), ';');
    verdict(scan_parts(Scan { dmarc: None, from: None }, parts.skip(1)))
}

/// Removes RFC 5322 comments, which may nest and routinely contain `;` and
/// `=`. `dmarc=pass (p=REJECT sp=REJECT dis=NONE) header.from=apple.com` would
/// otherwise parse `p=REJECT` as a method result.
fn strip_comments(v: &[char]) -> (r: Vec<char>)
    ensures
        r@ == strip_comments_spec(v@),
{
    let mut out: Vec<char> = Vec::new();
    let mut depth: usize = 0;
    let mut i: usize = 0;
    while i < v.len()
        invariant
            i <= v.len(),
            depth == comment_depth(v@.take(i as int)),
            depth <= i,
            out@ == strip_comments_spec(v@.take(i as int)),
        decreases v.len() - i,
    {
        let c = v[i];
        assert(v@.take(i + 1).drop_last() =~= v@.take(i as int));
        assert(v@.take(i + 1).last() == c);
        if c == '(' {
            depth = depth + 1;
        } else if c == ')' {
            if depth > 0 {
                depth = depth - 1;
            }
        } else if depth == 0 {
            out.push(c);
        }
        i += 1;
    }
    assert(v@.take(v.len() as int) =~= v@);
    out
}

struct ScanExec {
    dmarc: Option<Vec<char>>,
    from: Option<Vec<char>>,
}

impl ScanExec {
    spec fn view(&self) -> Scan {
        Scan {
            dmarc: match self.dmarc {
                Some(d) => Some(d@),
                None => None,
            },
            from: match self.from {
                Some(f) => Some(f@),
                None => None,
            },
        }
    }
}

fn literal(s: &str) -> (r: Vec<char>)
    ensures
        r@ == s@,
{
    chars_of(s)
}

fn scan_token_exec(st: &mut ScanExec, tok: &[char])
    ensures
        final(st).view() == scan_token(old(st).view(), tok@),
{
    if let Some(k) = find_first(tok, '=') {
        let raw_key = slice_chars(tok, 0, k);
        let key = lower_chars(&trim_chars(&raw_key));
        let value = slice_chars(tok, k + 1, tok.len());
        assert(raw_key@ =~= tok@.take(k as int));
        assert(value@ =~= tok@.skip(k + 1));
        let dmarc = literal("dmarc");
        let header_from = literal("header.from");
        proof {
            reveal_strlit("dmarc");
            reveal_strlit("header.from");
        }
        assert(dmarc@ =~= dmarc_key());
        assert(header_from@ =~= header_from_key());
        if crate::text::chars_eq(&key, &dmarc) {
            st.dmarc = Some(trim_chars(&value));
        } else if crate::text::chars_eq(&key, &header_from) {
            let d = strip_leading(&trim_char_chars(&trim_chars(&value), '"'), '@');
            if d.len() > 0 {
                st.from = Some(lower_chars(&d));
            }
        }
    }
}

/// `str::trim_start_matches(c)`.
fn strip_leading(v: &[char], c: char) -> (r: Vec<char>)
    ensures
        r@ == strip_all_start(v@, c),
{
    let mut lo: usize = 0;
    assert(v@.skip(0) =~= v@);
    while lo < v.len() && v[lo] == c
        invariant
            lo <= v.len(),
            strip_all_start(v@, c) == strip_all_start(v@.skip(lo as int), c),
        decreases v.len() - lo,
    {
        assert(v@.skip(lo as int).drop_first() =~= v@.skip(lo + 1));
        lo += 1;
    }
    assert(v@.skip(lo as int) =~= v@.subrange(lo as int, v.len() as int));
    slice_chars(v, lo, v.len())
}

/// Parses the topmost `Authentication-Results` header.
///
/// Takes the header value only. Where several are present, pass the first —
/// see the module note on why the top one is the one that counts.
pub fn parse(header: &str) -> (r: Authentication)
    ensures
        r.view() == parse_spec(header@),
{
    let cleaned = strip_comments(&chars_of(header));
    let parts = split_chars(&cleaned, ';');
    let mut st = ScanExec { dmarc: None, from: None };
    let ghost ps = views(parts@).skip(1);
    let mut p: usize = 1;
    while p < parts.len()
        invariant
            1 <= p <= parts.len() || (p == 1 && parts.len() == 0),
            views(parts@) == split_on(strip_comments_spec(header@), ';'),
            ps == views(parts@).skip(1),
            st.view() == scan_parts(Scan { dmarc: None, from: None }, ps.take(p - 1)),
        decreases parts.len() - p,
    {
        assert(ps.take(p as int).drop_last() =~= ps.take(p - 1));
        assert(ps.take(p as int).last() == parts@[p as int]@);
        let toks = split_words(parts[p].as_slice());
        let ghost st0 = st.view();
        let mut t: usize = 0;
        while t < toks.len()
            invariant
                t <= toks.len(),
                views(toks@) == words(parts@[p as int]@),
                st.view() == scan_tokens(st0, views(toks@).take(t as int)),
            decreases toks.len() - t,
        {
            assert(views(toks@).take(t + 1).drop_last() =~= views(toks@).take(t as int));
            assert(views(toks@).take(t + 1).last() == toks@[t as int]@);
            scan_token_exec(&mut st, toks[t].as_slice());
            t += 1;
        }
        assert(views(toks@).take(toks.len() as int) =~= views(toks@));
        p += 1;
    }
    proof {
        crate::text::lemma_split_nonempty(strip_comments_spec(header@), ';');
    }
    assert(ps.take(parts.len() - 1) =~= ps);
    let pass = literal("pass");
    proof {
        reveal_strlit("pass");
    }
    assert(pass@ =~= pass_word());
    match (st.dmarc, st.from) {
        (Some(result), Some(domain)) => {
            if eq_ignore_case(&result, &pass) {
                Authentication::Verified { domain: string_of(&domain) }
            } else {
                Authentication::Failed
            }
        },
        (Some(result), None) => {
            if eq_ignore_case(&result, &pass) {
                Authentication::Unknown
            } else {
                Authentication::Failed
            }
        },
        _ => Authentication::Unknown,
    }
}

/// A domain is verified only on a DMARC `pass` (in any case) from the
/// header's last DMARC result, and the domain is the `header.from` it
/// names; a header with no DMARC result is never a verification.
pub proof fn lemma_verified_only_on_dmarc_pass(header: Seq<char>)
    ensures
        ({
            let st = scan_parts(Scan { dmarc: None, from: None }, split_on(strip_comments_spec(header), ';').skip(1));
            parse_spec(header) matches AuthView::Verified(d) ==> (st.dmarc matches Some(r) && eq_ic(r, pass_word())
                && st.from == Some(d))
        }),
{
}

/// The domain of a verification is never empty and never holds an uppercase
/// ASCII letter, whatever the header said.
pub proof fn lemma_verified_domain_is_lowercase(header: Seq<char>)
    ensures
        parse_spec(header) matches AuthView::Verified(d) ==> d.len() > 0 && lower_seq(d) == d,
{
    let parts = split_on(strip_comments_spec(header), ';');
    lemma_scan_parts_lower(Scan { dmarc: None, from: None }, parts.skip(1));
}

pub open spec fn from_ok(st: Scan) -> bool {
    st.from matches Some(d) ==> d.len() > 0 && lower_seq(d) == d
}

proof fn lemma_lower_idempotent(s: Seq<char>)
    ensures
        lower_seq(lower_seq(s)) == lower_seq(s),
{
    assert(lower_seq(lower_seq(s)) =~= lower_seq(s));
}

proof fn lemma_scan_parts_lower(st: Scan, parts: Seq<Seq<char>>)
    requires
        from_ok(st),
    ensures
        from_ok(scan_parts(st, parts)),
    decreases parts.len(),
{
    if parts.len() > 0 {
        lemma_scan_parts_lower(st, parts.drop_last());
        lemma_scan_tokens_lower(scan_parts(st, parts.drop_last()), words(parts.last()));
    }
}

proof fn lemma_scan_tokens_lower(st: Scan, toks: Seq<Seq<char>>)
    requires
        from_ok(st),
    ensures
        from_ok(scan_tokens(st, toks)),
    decreases toks.len(),
{
    if toks.len() > 0 {
        lemma_scan_tokens_lower(st, toks.drop_last());
        let s0 = scan_tokens(st, toks.drop_last());
        let tok = toks.last();
        if let Some(k) = first_index(tok, '=') {
            lemma_lower_idempotent(domain_of(tok.skip(k + 1)));
        }
    }
}

/// Where a scan of a header block stands: whether it is over, and the value
/// of the wanted field collected so far, continuation lines included.
pub struct HeaderScan {
    pub done: bool,
    pub value: Option<Seq<char>>,
}

/// One line of a header block. An empty line ends the block. A line that
/// starts with a space or a tab continues the field before it, and is kept
/// whole (unfolding removes only the line break). Any other line starts a
/// field: it ends a field being collected, or, where its name before the
/// first `:` is the wanted one (ignoring ASCII case), starts collecting.
pub open spec fn header_step(st: HeaderScan, line: Seq<char>, name: Seq<char>) -> HeaderScan {
    if st.done {
        st
    } else if line.len() == 0 {
        HeaderScan { done: true, value: st.value }
    } else if line[0] == ' ' || line[0] == '\t' {
        match st.value {
            Some(v) => HeaderScan { done: false, value: Some(v + line) },
            None => st,
        }
    } else if st.value is Some {
        HeaderScan { done: true, value: st.value }
    } else {
        match first_index(line, ':') {
            Some(k) => if eq_ic(line.take(k), name) {
                HeaderScan { done: false, value: Some(line.skip(k + 1)) }
            } else {
                st
            },
            None => st,
        }
    }
}

pub open spec fn header_steps(lines: Seq<Seq<char>>, name: Seq<char>) -> HeaderScan
    decreases lines.len(),
{
    if lines.len() == 0 {
        HeaderScan { done: false, value: None }
    } else {
        header_step(header_steps(lines.drop_last(), name), lines.last(), name)
    }
}

/// The first field called `name` in a raw header block, unfolded and
/// trimmed.
pub open spec fn first_header_spec(raw: Seq<char>, name: Seq<char>) -> Option<Seq<char>> {
    match header_steps(crate::ical::lines_spec(raw), name).value {
        Some(v) => Some(trim(v)),
        None => None,
    }
}

/// Finds the first header field called `name` in a raw header block and
/// returns its value, unfolded and trimmed. The topmost is the one the
/// receiving provider stamped, which is why the first one is the one taken.
pub fn first_header(raw: &str, name: &str) -> (r: Option<String>)
    ensures
        match r {
            Some(s) => first_header_spec(raw@, name@) == Some(s@),
            None => first_header_spec(raw@, name@) is None,
        },
{
    let lines = crate::ical::lines_of(&chars_of(raw));
    let want = chars_of(name);
    let mut done = false;
    let mut value: Option<Vec<char>> = None;
    let mut i: usize = 0;
    while i < lines.len()
        invariant
            i <= lines.len(),
            views(lines@) == crate::ical::lines_spec(raw@),
            want@ == name@,
            header_steps(views(lines@).take(i as int), name@) == (HeaderScan {
                done,
                value: match value {
                    Some(v) => Some(v@),
                    None => None,
                },
            }),
        decreases lines.len() - i,
    {
        let ghost ls = views(lines@);
        assert(ls.take(i + 1).drop_last() =~= ls.take(i as int));
        assert(ls.take(i + 1).last() == lines@[i as int]@);
        let line = &lines[i];
        if done {
        } else if line.len() == 0 {
            done = true;
        } else if line[0] == ' ' || line[0] == '\t' {
            match value {
                Some(mut v) => {
                    let ghost v0 = v@;
                    let mut k: usize = 0;
                    while k < line.len()
                        invariant
                            k <= line.len(),
                            v@ == v0 + line@.take(k as int),
                        decreases line.len() - k,
                    {
                        v.push(line[k]);
                        k += 1;
                        assert(v@ =~= v0 + line@.take(k as int));
                    }
                    assert(line@.take(line.len() as int) =~= line@);
                    value = Some(v);
                },
                None => {},
            }
        } else if value.is_some() {
            done = true;
        } else {
            match find_first(line.as_slice(), ':') {
                Some(k) => {
                    let field = slice_chars(line.as_slice(), 0, k);
                    assert(field@ =~= line@.take(k as int));
                    if eq_ignore_case(&field, &want) {
                        let rest = slice_chars(line.as_slice(), k + 1, line.len());
                        assert(rest@ =~= line@.skip(k + 1));
                        value = Some(rest);
                    }
                },
                None => {},
            }
        }
        i += 1;
    }
    assert(views(lines@).take(lines.len() as int) =~= views(lines@));
    match value {
        Some(v) => Some(string_of(&trim_chars(&v))),
        None => None,
    }
}

} // verus!
