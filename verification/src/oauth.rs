//! OAuth 2.0 for Fastmail, as a public native client.
//!
//! Fastmail advertises everything needed to do this properly and without any
//! developer sign-up: dynamic client registration (RFC 7591), PKCE with S256,
//! `token_endpoint_auth_method: none`, and an `offline_access` scope for
//! refresh tokens. There is no client secret to ship, which is the point: a
//! secret embedded in a desktop app is not a secret.
//!
//! The redirect is a loopback URI per RFC 8252. The HTTP exchanges and the
//! loopback socket are the application's; the URLs, forms and the reading of
//! the redirect are here.

use vstd::prelude::*;
use base64::Engine;
use sha2::Digest;
use crate::text::{
    chars_of, from_utf8_lossy, lossy_text, split_on, split_chars, string_of, strip_all_end, utf8_lossy, views,
    words, split_words, lemma_split_nonempty, first_index, find_first, slice_chars, decimal,
};
use crate::model::opt_view;

verus! {

pub const FASTMAIL_ISSUER: &'static str = "https://api.fastmail.com";

pub const SCOPE_MAIL: &'static str = "urn:ietf:params:oauth:scope:mail";

pub const SCOPE_OFFLINE: &'static str = "offline_access";

/// The resource indicator (RFC 8707). Fastmail requires it: omitting it fails
/// the authorization with `invalid_target`.
pub const FASTMAIL_RESOURCE: &'static str = "https://api.fastmail.com/jmap/session";

/// The authorization server's endpoints, from its own metadata.
#[derive(Debug, Clone, PartialEq, Eq)]
pub struct Endpoints {
    pub registration_endpoint: String,
    pub authorization_endpoint: String,
    pub token_endpoint: String,
    pub revocation_endpoint: Option<String>,
}

/// A PKCE pair. The verifier stays in this process; only its hash crosses the
/// network, so an intercepted authorization code is useless without us.
#[derive(Debug, Clone, PartialEq, Eq)]
pub struct Pkce {
    pub verifier: String,
    pub challenge: String,
}

#[derive(Debug, Clone, PartialEq, Eq)]
pub struct Tokens {
    pub access_token: String,
    pub refresh_token: Option<String>,
    pub expires_in: Option<u64>,
}

/// Why a sign-in did not produce a code.
#[derive(Debug, Clone, PartialEq, Eq)]
pub enum OauthError {
    /// The provider refused, with its error code and perhaps a description.
    Refused { error: String, description: Option<String> },
    /// The redirect's `state` is not ours: another page may be feeding us a
    /// code of its choosing.
    StateMismatch,
    /// The redirect carried no authorization code.
    NoCode,
    /// The system's randomness source is unavailable.
    NoRandomness,
}

/// The crate's URL_SAFE_NO_PAD base64 encoding of a byte string.
pub uninterp spec fn base64_url_encode(bytes: Seq<u8>) -> Seq<char>;

/// How long unpadded base64 of `n` bytes is: four characters for every
/// three bytes, two or three for a remainder of one or two.
pub open spec fn unpadded_len(n: nat) -> nat {
    (n / 3) * 4 + if n % 3 == 1 {
        2nat
    } else if n % 3 == 2 {
        3nat
    } else {
        0nat
    }
}

/// Encodes with `base64::engine::general_purpose::URL_SAFE_NO_PAD`.
///
/// Trusted: the result is named `base64_url_encode` of the bytes, and its
/// length is what the crate's `encoded_len` computes without padding. The
/// crate panics when that length overflows, which the precondition rules
/// out.
#[verifier::external_body]
fn encode_base64_url(bytes: &[u8]) -> (r: String)
    requires
        (bytes@.len() / 3) * 4 + 3 <= usize::MAX,
    ensures
        r@ == base64_url_encode(bytes@),
        r@.len() == unpadded_len(bytes@.len()),
{
    base64::engine::general_purpose::URL_SAFE_NO_PAD.encode(bytes)
}

/// The SHA-256 digest of a byte string.
pub uninterp spec fn sha256(bytes: Seq<u8>) -> Seq<u8>;

/// `Sha256::digest` of the `sha2` crate.
///
/// Trusted: the result is named `sha256` of the bytes and is 32 bytes long.
#[verifier::external_body]
fn sha256_digest(bytes: &[u8]) -> (r: Vec<u8>)
    ensures
        r@ == sha256(bytes@),
        r@.len() == 32,
{
    sha2::Sha256::digest(bytes).to_vec()
}

/// `getrandom::fill` on a fresh buffer of `n` bytes.
///
/// Trusted: when the system source answers, the buffer holds `n` bytes. What
/// they are is chance, so nothing else is said; `None` when the source fails.
#[verifier::external_body]
fn random_bytes(n: usize) -> (r: Option<Vec<u8>>)
    ensures
        r matches Some(b) ==> b@.len() == n,
{
    let mut buf = vec![0u8; n];
    match getrandom::fill(&mut buf) {
        Ok(()) => Some(buf),
        Err(_) => None,
    }
}

/// `bytes` random bytes, written as unpadded URL-safe base64; `None` when the
/// system's randomness is unavailable.
pub fn random_urlsafe(bytes: usize) -> (r: Option<String>)
    requires
        (bytes / 3) * 4 + 3 <= usize::MAX,
    ensures
        r matches Some(s) ==> s@.len() == unpadded_len(bytes as nat) && exists|b: Seq<u8>|
            b.len() == bytes && s@ == #[trigger] base64_url_encode(b),
{
    match random_bytes(bytes) {
        Some(b) => Some(encode_base64_url(b.as_slice())),
        None => None,
    }
}

/// A fresh PKCE pair: a verifier of 32 random bytes, and as challenge the
/// unpadded URL-safe base64 of the SHA-256 of the verifier's bytes (S256).
pub fn pkce() -> (r: Result<Pkce, OauthError>)
    ensures
        r matches Ok(p) ==> p.challenge@ == base64_url_encode(
            sha256(vstd::utf8::encode_utf8(p.verifier@)),
        ) && p.verifier@.len() == 43,
        r matches Ok(p) ==> exists|b: Seq<u8>| b.len() == 32 && p.verifier@ == #[trigger] base64_url_encode(b),
        r matches Err(e) ==> e == OauthError::NoRandomness,
{
    match random_urlsafe(32) {
        Some(verifier) => {
            let digest = sha256_digest(verifier.as_str().as_bytes());
            let challenge = encode_base64_url(digest.as_slice());
            Ok(Pkce { verifier, challenge })
        },
        None => Err(OauthError::NoRandomness),
    }
}

/// Bytes sent as they are in a URL component: ASCII letters, digits, and
/// `-`, `_`, `.`, `~`.
pub open spec fn is_unreserved(b: u8) -> bool {
    (65 <= b && b <= 90) || (97 <= b && b <= 122) || (48 <= b && b <= 57) || b == 45 || b == 95
        || b == 46 || b == 126
}

/// An uppercase hexadecimal digit.
pub open spec fn hex_digit(n: u8) -> char {
    if n < 10 {
        ((n + 48) as u8) as char
    } else {
        ((n + 55) as u8) as char
    }
}

/// One byte percent-encoded.
pub open spec fn encode_byte(b: u8) -> Seq<char> {
    if is_unreserved(b) {
        seq![b as char]
    } else {
        seq!['%', hex_digit(b / 16), hex_digit(b % 16)]
    }
}

/// Percent-encoding of a byte string, every byte but the unreserved ones
/// written `%XY` with uppercase hex.
pub open spec fn url_encode_bytes(b: Seq<u8>) -> Seq<char>
    decreases b.len(),
{
    if b.len() == 0 {
        Seq::<char>::empty()
    } else {
        encode_byte(b[0]) + url_encode_bytes(b.drop_first())
    }
}

fn hex_digit_exec(n: u8) -> (r: char)
    requires
        n < 16,
    ensures
        r == hex_digit(n),
{
    if n < 10 {
        (n + 48) as char
    } else {
        (n + 55) as char
    }
}

/// Percent-encodes a value for a URL query: every byte of its UTF-8 form
/// except the unreserved ones becomes `%XY`.
pub fn urlencode(value: &str) -> (r: String)
    ensures
        r@ == urlencode_spec(value@),
{
    let bytes = value.as_bytes();
    let mut out: Vec<char> = Vec::new();
    let mut i: usize = 0;
    assert(bytes@.skip(0) =~= bytes@);
    assert(out@ + url_encode_bytes(bytes@) =~= url_encode_bytes(bytes@));
    while i < bytes.len()
        invariant
            i <= bytes.len(),
            out@ + url_encode_bytes(bytes@.skip(i as int)) == url_encode_bytes(bytes@),
        decreases bytes.len() - i,
    {
        let b = bytes[i];
        let ghost before = out@;
        assert(bytes@.skip(i as int)[0] == b);
        assert(bytes@.skip(i as int).drop_first() =~= bytes@.skip(i + 1));
        if (65 <= b && b <= 90) || (97 <= b && b <= 122) || (48 <= b && b <= 57) || b == 45 || b
            == 95 || b == 46 || b == 126 {
            out.push(b as char);
        } else {
            out.push('%');
            out.push(hex_digit_exec(b / 16));
            out.push(hex_digit_exec(b % 16));
        }
        assert(out@ =~= before + encode_byte(b));
        assert(out@ + url_encode_bytes(bytes@.skip(i + 1)) =~= before + url_encode_bytes(
            bytes@.skip(i as int),
        ));
        i += 1;
    }
    assert(bytes@.skip(i as int) =~= Seq::<u8>::empty());
    assert(out@ + Seq::<char>::empty() =~= out@);
    string_of(&out)
}

/// A hexadecimal digit's value, either case.
pub open spec fn hex_value(b: u8) -> Option<u8> {
    if 48 <= b && b <= 57 {
        Some((b - 48) as u8)
    } else if 65 <= b && b <= 70 {
        Some((b - 55) as u8)
    } else if 97 <= b && b <= 102 {
        Some((b - 87) as u8)
    } else {
        None
    }
}

/// What `u8::from_str_radix(_, 16)` makes of two bytes: two hex digits, or a
/// `+` sign before one.
pub open spec fn hex_pair(a: u8, b: u8) -> Option<u8> {
    if a == 43 {
        hex_value(b)
    } else if hex_value(a) is Some && hex_value(b) is Some {
        Some((hex_value(a)->0 * 16 + hex_value(b)->0) as u8)
    } else {
        None
    }
}

/// Percent-decoding of a byte string: `%` with two more bytes after it that
/// read as hex becomes that byte, `+` becomes a space, anything else stays.
pub open spec fn url_decode_bytes(b: Seq<u8>) -> Seq<u8>
    decreases b.len(),
{
    if b.len() == 0 {
        Seq::<u8>::empty()
    } else if b[0] == 37 && 2 < b.len() && hex_pair(b[1], b[2]) is Some {
        seq![hex_pair(b[1], b[2])->0] + url_decode_bytes(b.skip(3))
    } else if b[0] == 43 {
        seq![32u8] + url_decode_bytes(b.drop_first())
    } else {
        seq![b[0]] + url_decode_bytes(b.drop_first())
    }
}

/// Whether `urldecode` can read a value: it reads the two bytes after a `%`
/// as a slice of the text, which must end on a character boundary.
pub open spec fn url_decode_defined(b: Seq<u8>) -> bool
    decreases b.len(),
{
    if b.len() == 0 {
        true
    } else if b[0] == 37 && 2 < b.len() {
        (3 == b.len() || !vstd::utf8::is_continuation_byte(b[3])) && if hex_pair(
            b[1],
            b[2],
        ) is Some {
            url_decode_defined(b.skip(3))
        } else {
            url_decode_defined(b.drop_first())
        }
    } else {
        url_decode_defined(b.drop_first())
    }
}

/// The text a percent-encoded value stands for.
pub open spec fn urldecode_spec(value: Seq<char>) -> Seq<char> {
    lossy_text(url_decode_bytes(vstd::utf8::encode_utf8(value)))
}

/// The percent-encoding of a text, as `urlencode` writes it.
pub open spec fn urlencode_spec(value: Seq<char>) -> Seq<char> {
    url_encode_bytes(vstd::utf8::encode_utf8(value))
}

fn hex_value_exec(b: u8) -> (r: Option<u8>)
    ensures
        r == hex_value(b),
{
    if 48 <= b && b <= 57 {
        Some(b - 48)
    } else if 65 <= b && b <= 70 {
        Some(b - 55)
    } else if 97 <= b && b <= 102 {
        Some(b - 87)
    } else {
        None
    }
}

fn hex_pair_exec(a: u8, b: u8) -> (r: Option<u8>)
    ensures
        r == hex_pair(a, b),
{
    if a == 43 {
        hex_value_exec(b)
    } else {
        match (hex_value_exec(a), hex_value_exec(b)) {
            (Some(x), Some(y)) => Some(x * 16 + y),
            _ => None,
        }
    }
}

/// Works out whether `urldecode` can read a value.
pub fn urldecode_can_read(value: &str) -> (r: bool)
    ensures
        r == url_decode_defined(vstd::utf8::encode_utf8(value@)),
{
    let bytes = value.as_bytes();
    let mut i: usize = 0;
    assert(bytes@.skip(0) =~= bytes@);
    while i < bytes.len()
        invariant
            i <= bytes.len(),
            bytes@ == vstd::utf8::encode_utf8(value@),
            url_decode_defined(bytes@) == url_decode_defined(bytes@.skip(i as int)),
        decreases bytes.len() - i,
    {
        let ghost rest = bytes@.skip(i as int);
        assert(rest[0] == bytes@[i as int]);
        assert(rest.drop_first() =~= bytes@.skip(i + 1));
        assert(rest.len() == bytes.len() - i);
        if bytes[i] == 37 && bytes.len() - i > 2 {
            assert(rest[1] == bytes@[i + 1] && rest[2] == bytes@[i + 2]);
            if bytes.len() - i > 3 {
                assert(rest[3] == bytes@[i + 3]);
                let c = bytes[i + 3];
                if 0x80 <= c && c <= 0xbf {
                    assert(vstd::utf8::is_continuation_byte(rest[3]));
                    assert(!url_decode_defined(rest));
                    return false;
                }
            }
            if hex_pair_exec(bytes[i + 1], bytes[i + 2]).is_some() {
                assert(rest.skip(3) =~= bytes@.skip(i + 3));
                i += 3;
            } else {
                i += 1;
            }
        } else {
            i += 1;
        }
    }
    assert(bytes@.skip(i as int) =~= Seq::<u8>::empty());
    true
}

/// Percent-decodes a value taken from a URL query; `+` reads as a space.
/// Byte sequences that are not UTF-8 are replaced rather than refused.
pub fn urldecode(value: &str) -> (r: String)
    requires
        url_decode_defined(vstd::utf8::encode_utf8(value@)),
    ensures
        r@ == urldecode_spec(value@),
{
    let bytes = value.as_bytes();
    let mut out: Vec<u8> = Vec::new();
    let mut i: usize = 0;
    assert(bytes@.skip(0) =~= bytes@);
    while i < bytes.len()
        invariant
            i <= bytes.len(),
            out@ + url_decode_bytes(bytes@.skip(i as int)) == url_decode_bytes(bytes@),
        decreases bytes.len() - i,
    {
        let ghost rest = bytes@.skip(i as int);
        let ghost before = out@;
        assert(rest[0] == bytes@[i as int]);
        assert(rest.drop_first() =~= bytes@.skip(i + 1));
        let b = bytes[i];
        let mut step: usize = 1;
        if b == 37 && bytes.len() - i > 2 {
            assert(rest[1] == bytes@[i + 1] && rest[2] == bytes@[i + 2]);
            match hex_pair_exec(bytes[i + 1], bytes[i + 2]) {
                Some(v) => {
                    out.push(v);
                    assert(rest.skip(3) =~= bytes@.skip(i + 3));
                    step = 3;
                },
                None => {
                    out.push(b);
                },
            }
        } else if b == 43 {
            out.push(32);
        } else {
            out.push(b);
        }
        assert(out@ + url_decode_bytes(bytes@.skip(i + step)) =~= before + url_decode_bytes(rest));
        i += step;
    }
    assert(bytes@.skip(i as int) =~= Seq::<u8>::empty());
    assert(out@ + Seq::<u8>::empty() =~= out@);
    from_utf8_lossy(out.as_slice())
}

proof fn lemma_encode_ascii(b: Seq<u8>)
    ensures
        vstd::utf8::is_ascii_chars(url_encode_bytes(b)),
    decreases b.len(),
{
    if b.len() > 0 {
        lemma_encode_ascii(b.drop_first());
        let e = encode_byte(b[0]);
        let r = url_encode_bytes(b.drop_first());
        assert forall|i: int| 0 <= i < (e + r).len() implies '\0' <= #[trigger] (e + r)[i] <= '\u{7f}' by {
            if i >= e.len() {
                assert((e + r)[i] == r[i - e.len()]);
            } else if is_unreserved(b[0]) {
            } else {
                assert(b[0] / 16 < 16 && b[0] % 16 < 16);
            }
        }
    }
}

/// The bytes of ASCII text, one per character.
pub open spec fn ascii_bytes(s: Seq<char>) -> Seq<u8> {
    s.map_values(|c: char| c as u8)
}

proof fn lemma_decode_encoded(b: Seq<u8>)
    ensures
        url_decode_bytes(ascii_bytes(url_encode_bytes(b))) == b,
        url_decode_defined(ascii_bytes(url_encode_bytes(b))),
    decreases b.len(),
{
    if b.len() == 0 {
        assert(ascii_bytes(url_encode_bytes(b)) =~= Seq::<u8>::empty());
        assert(b =~= Seq::<u8>::empty());
    } else {
        let rest = b.drop_first();
        lemma_decode_encoded(rest);
        lemma_encode_ascii(rest);
        let e = encode_byte(b[0]);
        let x = ascii_bytes(url_encode_bytes(b));
        let xr = ascii_bytes(url_encode_bytes(rest));
        assert(x =~= ascii_bytes(e) + xr);
        if is_unreserved(b[0]) {
            assert(x[0] == b[0]);
            assert(x.drop_first() =~= xr);
            assert(seq![b[0]] + rest =~= b);
        } else {
            let hi = b[0] / 16;
            let lo = b[0] % 16;
            assert(x[0] == 37u8);
            assert(x[1] == hex_digit(hi) as u8);
            assert(x[2] == hex_digit(lo) as u8);
            assert(hex_value(hex_digit(hi) as u8) == Some(hi));
            assert(hex_value(hex_digit(lo) as u8) == Some(lo));
            assert(hex_digit(hi) as u8 != 43u8);
            assert(hi * 16 + lo == b[0]);
            assert(x.skip(3) =~= xr);
            assert(seq![b[0]] + rest =~= b);
            if x.len() > 3 {
                assert(x[3] == xr[0]);
                if url_encode_bytes(rest).len() > 0 {
                    assert(vstd::utf8::is_ascii_chars(url_encode_bytes(rest)));
                    assert('\0' <= url_encode_bytes(rest)[0] <= '\u{7f}');
                }
            }
        }
    }
}

/// Decoding gives back what encoding was given, for every text: the
/// round trip a loopback redirect makes. What encoding writes can always be
/// read back.
pub proof fn lemma_urldecode_urlencode(s: Seq<char>)
    ensures
        url_decode_defined(vstd::utf8::encode_utf8(urlencode_spec(s))),
        urldecode_spec(urlencode_spec(s)) == s,
{
    let b = vstd::utf8::encode_utf8(s);
    let e = url_encode_bytes(b);
    lemma_encode_ascii(b);
    vstd::utf8::is_ascii_chars_encode_utf8(e);
    assert(vstd::utf8::encode_utf8(e) =~= ascii_bytes(e));
    lemma_decode_encoded(b);
    vstd::utf8::encode_utf8_decode_utf8(s);
    vstd::utf8::encode_utf8_valid_utf8(s);
}

/// The address of an issuer's own metadata, however many slashes end the
/// issuer.
pub open spec fn metadata_url_spec(issuer: Seq<char>) -> Seq<char> {
    strip_all_end(issuer, '/') + "/.well-known/oauth-authorization-server"@
}

fn cat(a: &Vec<char>, b: &str) -> (r: Vec<char>)
    ensures
        r@ == a@ + b@,
{
    let mut out = crate::text::copy_chars(a.as_slice());
    let bc = chars_of(b);
    let ghost start = out@;
    let mut k: usize = 0;
    while k < bc.len()
        invariant
            k <= bc.len(),
            out@ == start + bc@.take(k as int),
        decreases bc.len() - k,
    {
        out.push(bc[k]);
        k += 1;
        assert(out@ =~= start + bc@.take(k as int));
    }
    assert(bc@.take(bc.len() as int) =~= bc@);
    out
}

/// Where an authorization server publishes its metadata (RFC 8414).
pub fn metadata_url(issuer: &str) -> (r: String)
    ensures
        r@ == metadata_url_spec(issuer@),
{
    let v = chars_of(issuer);
    let mut end = v.len();
    assert(v@.take(v.len() as int) =~= v@);
    while end > 0 && v[end - 1] == '/'
        invariant
            end <= v.len(),
            strip_all_end(v@, '/') == strip_all_end(v@.take(end as int), '/'),
        decreases end,
    {
        assert(v@.take(end as int).drop_last() =~= v@.take(end - 1));
        end -= 1;
    }
    let base = slice_chars(v.as_slice(), 0, end);
    assert(base@ =~= v@.take(end as int));
    assert(v@.take(v.len() as int) =~= v@);
    string_of(&cat(&base, "/.well-known/oauth-authorization-server"))
}

/// The authorization request, every parameter percent-encoded.
pub open spec fn authorize_url_spec(
    endpoint: Seq<char>,
    client_id: Seq<char>,
    redirect_uri: Seq<char>,
    state: Seq<char>,
    challenge: Seq<char>,
) -> Seq<char> {
    let q = |v: Seq<char>| url_encode_bytes(vstd::utf8::encode_utf8(v));
    endpoint + "?response_type=code&client_id="@ + q(client_id) + "&redirect_uri="@ + q(
        redirect_uri,
    ) + "&scope="@ + q("urn:ietf:params:oauth:scope:mail offline_access"@) + "&state="@ + q(state)
        + "&code_challenge="@ + q(challenge) + "&code_challenge_method=S256&resource="@ + q(
        "https://api.fastmail.com/jmap/session"@,
    )
}

fn cat_str(a: &Vec<char>, b: &String) -> (r: Vec<char>)
    ensures
        r@ == a@ + b@,
{
    cat(a, b.as_str())
}

/// The URL the browser is sent to: the authorization endpoint with the code
/// flow's parameters, the PKCE challenge and Fastmail's resource indicator.
pub fn authorize_url(
    endpoints: &Endpoints,
    client_id: &str,
    redirect_uri: &str,
    state: &str,
    challenge: &str,
) -> (r: String)
    ensures
        r@ == authorize_url_spec(
            endpoints.authorization_endpoint@,
            client_id@,
            redirect_uri@,
            state@,
            challenge@,
        ),
{
    let scope = "urn:ietf:params:oauth:scope:mail offline_access";
    let resource = "https://api.fastmail.com/jmap/session";
    let mut out = chars_of(endpoints.authorization_endpoint.as_str());
    out = cat(&out, "?response_type=code&client_id=");
    out = cat_str(&out, &urlencode(client_id));
    out = cat(&out, "&redirect_uri=");
    out = cat_str(&out, &urlencode(redirect_uri));
    out = cat(&out, "&scope=");
    out = cat_str(&out, &urlencode(scope));
    out = cat(&out, "&state=");
    out = cat_str(&out, &urlencode(state));
    out = cat(&out, "&code_challenge=");
    out = cat_str(&out, &urlencode(challenge));
    out = cat(&out, "&code_challenge_method=S256&resource=");
    out = cat_str(&out, &urlencode(resource));
    string_of(&out)
}

pub open spec fn pairs_view(v: Seq<(String, String)>) -> Seq<(Seq<char>, Seq<char>)> {
    v.map_values(|p: (String, String)| (p.0@, p.1@))
}

fn pair(k: &str, v: &str) -> (r: (String, String))
    ensures
        r.0@ == k@,
        r.1@ == v@,
{
    (k.to_owned(), v.to_owned())
}

/// The form that exchanges an authorization code for tokens.
pub fn exchange_form(code: &str, redirect_uri: &str, client_id: &str, verifier: &str) -> (r: Vec<
    (String, String),
>)
    ensures
        pairs_view(r@) == seq![
            ("grant_type"@, "authorization_code"@),
            ("code"@, code@),
            ("redirect_uri"@, redirect_uri@),
            ("client_id"@, client_id@),
            ("code_verifier"@, verifier@),
            ("resource"@, "https://api.fastmail.com/jmap/session"@),
        ],
{
    let mut v: Vec<(String, String)> = Vec::new();
    v.push(pair("grant_type", "authorization_code"));
    v.push(pair("code", code));
    v.push(pair("redirect_uri", redirect_uri));
    v.push(pair("client_id", client_id));
    v.push(pair("code_verifier", verifier));
    v.push(pair("resource", "https://api.fastmail.com/jmap/session"));
    assert(pairs_view(v@) =~= seq![
        ("grant_type"@, "authorization_code"@),
        ("code"@, code@),
        ("redirect_uri"@, redirect_uri@),
        ("client_id"@, client_id@),
        ("code_verifier"@, verifier@),
        ("resource"@, "https://api.fastmail.com/jmap/session"@),
    ]);
    v
}

/// The form that trades a refresh token for a new access token.
pub fn refresh_form(refresh_token: &str, client_id: &str) -> (r: Vec<(String, String)>)
    ensures
        pairs_view(r@) == seq![
            ("grant_type"@, "refresh_token"@),
            ("refresh_token"@, refresh_token@),
            ("client_id"@, client_id@),
            ("resource"@, "https://api.fastmail.com/jmap/session"@),
        ],
{
    let mut v: Vec<(String, String)> = Vec::new();
    v.push(pair("grant_type", "refresh_token"));
    v.push(pair("refresh_token", refresh_token));
    v.push(pair("client_id", client_id));
    v.push(pair("resource", "https://api.fastmail.com/jmap/session"));
    assert(pairs_view(v@) =~= seq![
        ("grant_type"@, "refresh_token"@),
        ("refresh_token"@, refresh_token@),
        ("client_id"@, client_id@),
        ("resource"@, "https://api.fastmail.com/jmap/session"@),
    ]);
    v
}

/// The request target of an HTTP request line: its second word.
pub open spec fn request_target(text: Seq<char>) -> Option<Seq<char>> {
    let w = words(text);
    if w.len() > 1 {
        Some(w[1])
    } else {
        None
    }
}

/// The query of a request target: what follows the first `?`, or nothing.
pub open spec fn query_of(target: Seq<char>) -> Seq<char> {
    match first_index(target, '?') {
        Some(k) => target.skip(k + 1),
        None => Seq::<char>::empty(),
    }
}

/// The parameters of a redirect that sign-in reads, each the last one given.
pub struct CallbackParams {
    pub code: Option<Seq<char>>,
    pub state: Option<Seq<char>>,
    pub error: Option<Seq<char>>,
    pub description: Option<Seq<char>>,
}

/// Whether a query parameter's name is one that sign-in reads.
pub open spec fn is_read_key(key: Seq<char>) -> bool {
    key == "code"@ || key == "state"@ || key == "error"@ || key == "error_description"@
}

/// One `key=value` pair of the query; a pair without `=` is ignored.
pub open spec fn param_step(p: CallbackParams, pair: Seq<char>) -> CallbackParams {
    match first_index(pair, '=') {
        Some(k) => {
            let key = pair.take(k);
            let v = urldecode_spec(pair.skip(k + 1));
            if key == "code"@ {
                CallbackParams { code: Some(v), ..p }
            } else if key == "state"@ {
                CallbackParams { state: Some(v), ..p }
            } else if key == "error"@ {
                CallbackParams { error: Some(v), ..p }
            } else if key == "error_description"@ {
                CallbackParams { description: Some(v), ..p }
            } else {
                p
            }
        },
        None => p,
    }
}

pub open spec fn param_steps(pairs: Seq<Seq<char>>) -> CallbackParams
    decreases pairs.len(),
{
    if pairs.len() == 0 {
        CallbackParams { code: None, state: None, error: None, description: None }
    } else {
        param_step(param_steps(pairs.drop_last()), pairs.last())
    }
}

/// Whether every value sign-in decodes can be decoded.
pub open spec fn pairs_readable(pairs: Seq<Seq<char>>) -> bool {
    forall|i: int|
        0 <= i < pairs.len() ==> (#[trigger] first_index(pairs[i], '=') matches Some(k) ==> (
        is_read_key(pairs[i].take(k)) ==> url_decode_defined(
            vstd::utf8::encode_utf8(pairs[i].skip(k + 1)),
        )))
}

/// What a redirect concluded.
pub enum CallbackView {
    Code(Seq<char>),
    Refused(Seq<char>, Option<Seq<char>>),
    StateMismatch,
    NoCode,
}

/// A refusal from the provider wins; then the `state` must be exactly ours;
/// then there must be a code.
pub open spec fn callback_verdict(p: CallbackParams, expected_state: Seq<char>) -> CallbackView {
    if p.error is Some {
        CallbackView::Refused(p.error->0, p.description)
    } else if p.state != Some(expected_state) {
        CallbackView::StateMismatch
    } else if p.code is Some {
        CallbackView::Code(p.code->0)
    } else {
        CallbackView::NoCode
    }
}

pub open spec fn callback_pairs(request: Seq<u8>) -> Option<Seq<Seq<char>>> {
    match request_target(lossy_text(request)) {
        Some(t) => Some(split_on(query_of(t), '&')),
        None => None,
    }
}

/// What a request on the loopback listener means for sign-in; `None` for a
/// request without a target, which is skipped.
pub open spec fn callback_spec(request: Seq<u8>, expected_state: Seq<char>) -> Option<CallbackView> {
    match callback_pairs(request) {
        Some(pairs) => Some(callback_verdict(param_steps(pairs), expected_state)),
        None => None,
    }
}

/// Only our own sign-in gets a code through: a redirect concludes with a
/// code only when it carries no error, its `state` is exactly the one we
/// sent, and the code is the one it carries; any other state is a mismatch
/// unless the provider refused.
pub proof fn lemma_code_needs_our_state(request: Seq<u8>, expected_state: Seq<char>)
    ensures
        callback_spec(request, expected_state) matches Some(CallbackView::Code(c)) ==> (callback_pairs(
            request,
        ) matches Some(pairs) && param_steps(pairs).error is None && param_steps(pairs).state
            == Some(expected_state) && param_steps(pairs).code == Some(c)),
        callback_pairs(request) matches Some(pairs) ==> (param_steps(pairs).error is None
            && param_steps(pairs).state != Some(expected_state) ==> callback_spec(
            request,
            expected_state,
        ) == Some(CallbackView::StateMismatch)),
{
}

/// Whether `callback_outcome` can read a request.
pub open spec fn callback_defined(request: Seq<u8>) -> bool {
    match callback_pairs(request) {
        Some(pairs) => pairs_readable(pairs),
        None => true,
    }
}

pub open spec fn outcome_view(r: Result<String, OauthError>) -> CallbackView {
    match r {
        Ok(c) => CallbackView::Code(c@),
        Err(OauthError::Refused { error, description }) => CallbackView::Refused(
            error@,
            opt_view(description),
        ),
        Err(OauthError::StateMismatch) => CallbackView::StateMismatch,
        _ => CallbackView::NoCode,
    }
}

fn query_pairs(request: &[u8]) -> (r: Option<Vec<Vec<char>>>)
    ensures
        match r {
            Some(v) => callback_pairs(request@) == Some(views(v@)),
            None => callback_pairs(request@) is None,
        },
{
    let text = from_utf8_lossy(request);
    assert(text@ == lossy_text(request@));
    let w = split_words(&chars_of(text.as_str()));
    if w.len() < 2 {
        return None;
    }
    assert(w@[1]@ == views(w@)[1]);
    let target = &w[1];
    let query = match find_first(target.as_slice(), '?') {
        Some(k) => slice_chars(target.as_slice(), k + 1, target.len()),
        None => Vec::new(),
    };
    proof {
        crate::text::lemma_first_index(target@, '?');
    }
    assert(query@ =~= query_of(target@));
    Some(split_chars(&query, '&'))
}

/// Works out whether `callback_outcome` can read a request.
pub fn callback_can_read(request: &[u8]) -> (r: bool)
    ensures
        r == callback_defined(request@),
{
    match query_pairs(request) {
        Some(pairs) => {
            let ghost pv = views(pairs@);
            let mut i: usize = 0;
            while i < pairs.len()
                invariant
                    i <= pairs.len(),
                    pv == views(pairs@),
                    callback_pairs(request@) == Some(pv),
                    forall|j: int|
                        0 <= j < i ==> (#[trigger] first_index(pv[j], '=') matches Some(k) ==> (
                        is_read_key(pv[j].take(k)) ==> url_decode_defined(
                            vstd::utf8::encode_utf8(pv[j].skip(k + 1)),
                        ))),
                decreases pairs.len() - i,
            {
                let pair = &pairs[i];
                assert(pv[i as int] == pair@);
                proof {
                    crate::text::lemma_first_index(pair@, '=');
                }
                match find_first(pair.as_slice(), '=') {
                    Some(k) => {
                        let key = slice_chars(pair.as_slice(), 0, k);
                        assert(key@ =~= pair@.take(k as int));
                        if read_key(&key) {
                            let v = string_of(&slice_chars(pair.as_slice(), k + 1, pair.len()));
                            assert(v@ =~= pair@.skip(k + 1));
                            if !urldecode_can_read(v.as_str()) {
                                assert(first_index(pv[i as int], '=') == Some(k as int));
                                return false;
                            }
                        }
                    },
                    None => {},
                }
                i += 1;
            }
            true
        },
        None => true,
    }
}

fn read_key(key: &Vec<char>) -> (r: bool)
    ensures
        r == is_read_key(key@),
{
    crate::text::chars_eq(key, &chars_of("code")) || crate::text::chars_eq(key, &chars_of("state"))
        || crate::text::chars_eq(key, &chars_of("error")) || crate::text::chars_eq(
        key,
        &chars_of("error_description"),
    )
}

fn opt_clone(o: &Option<String>) -> (r: Option<String>)
    ensures
        opt_view(r) == opt_view(*o),
{
    match o {
        Some(s) => Some(s.clone()),
        None => None,
    }
}

/// Reads one request on the loopback listener: `GET /callback?code=…&state=…`.
///
/// Returns the code only if `state` matches, which is what stops another page
/// on the machine from feeding us a code of its choosing. `None` means the
/// request had no target and the listener should wait for the next one.
pub fn callback_outcome(request: &[u8], expected_state: &str) -> (r: Option<
    Result<String, OauthError>,
>)
    requires
        callback_defined(request@),
    ensures
        match r {
            Some(o) => callback_spec(request@, expected_state@) == Some(outcome_view(o)) && !(o matches Err(OauthError::NoRandomness)),
            None => callback_spec(request@, expected_state@) is None,
        },
{
    let pairs = match query_pairs(request) {
        Some(p) => p,
        None => {
            return None;
        },
    };
    let ghost pv = views(pairs@);
    let mut code: Option<String> = None;
    let mut state: Option<String> = None;
    let mut error: Option<String> = None;
    let mut description: Option<String> = None;
    let mut i: usize = 0;
    while i < pairs.len()
        invariant
            i <= pairs.len(),
            pv == views(pairs@),
            pairs_readable(pv),
            param_steps(pv.take(i as int)) == (CallbackParams {
                code: opt_view(code),
                state: opt_view(state),
                error: opt_view(error),
                description: opt_view(description),
            }),
        decreases pairs.len() - i,
    {
        let pair = &pairs[i];
        assert(pv[i as int] == pair@);
        assert(pv.take(i + 1).drop_last() =~= pv.take(i as int));
        assert(pv.take(i + 1).last() == pair@);
        proof {
            crate::text::lemma_first_index(pair@, '=');
        }
        match find_first(pair.as_slice(), '=') {
            Some(k) => {
                let key = slice_chars(pair.as_slice(), 0, k);
                assert(key@ =~= pair@.take(k as int));
                if read_key(&key) {
                    let raw = string_of(&slice_chars(pair.as_slice(), k + 1, pair.len()));
                    assert(raw@ =~= pair@.skip(k + 1));
                    assert(first_index(pv[i as int], '=') == Some(k as int));
                    let v = urldecode(raw.as_str());
                    if crate::text::chars_eq(&key, &chars_of("code")) {
                        code = Some(v);
                    } else if crate::text::chars_eq(&key, &chars_of("state")) {
                        state = Some(v);
                    } else if crate::text::chars_eq(&key, &chars_of("error")) {
                        error = Some(v);
                    } else {
                        description = Some(v);
                    }
                }
            },
            None => {},
        }
        i += 1;
    }
    assert(pv.take(pairs.len() as int) =~= pv);
    let outcome = match &error {
        Some(e) => Err(OauthError::Refused { error: e.clone(), description: opt_clone(&description) }),
        None => {
            let matches = match &state {
                Some(s) => crate::text::chars_eq(&chars_of(s.as_str()), &chars_of(expected_state)),
                None => false,
            };
            if !matches {
                Err(OauthError::StateMismatch)
            } else {
                match code {
                    Some(c) => Ok(c),
                    None => Err(OauthError::NoCode),
                }
            }
        },
    };
    Some(outcome)
}

/// The page shown in the browser after a successful sign-in.
pub const CALLBACK_OK: &'static str = "<!doctype html><meta charset=utf-8><title>BazMail</title><body style=\"background:#111827;color:#f8f9fb;font:16px/1.6 system-ui;display:grid;place-items:center;height:100vh;margin:0\"><div style=\"text-align:center\"><p style=\"font-size:20px;font-weight:600\">Connected.</p><p style=\"color:#969ca6\">You can close this tab and go back to BazMail.</p></div>";

/// The page shown in the browser after a failed sign-in.
pub const CALLBACK_FAILED: &'static str = "<!doctype html><meta charset=utf-8><title>BazMail</title><body style=\"background:#111827;color:#f8f9fb;font:16px/1.6 system-ui;display:grid;place-items:center;height:100vh;margin:0\"><div style=\"text-align:center\"><p style=\"font-size:20px;font-weight:600\">Sign-in failed.</p><p style=\"color:#969ca6\">Close this tab and try again from BazMail.</p></div>";

pub open spec fn callback_page(ok: bool) -> Seq<char> {
    if ok {
        CALLBACK_OK@
    } else {
        CALLBACK_FAILED@
    }
}

/// The HTTP response the browser gets, with the page's length in bytes.
pub open spec fn callback_response_spec(ok: bool) -> Seq<char> {
    "HTTP/1.1 200 OK\r\nContent-Type: text/html; charset=utf-8\r\nContent-Length: "@ + decimal(
        vstd::utf8::encode_utf8(callback_page(ok)).len(),
    ) + "\r\nConnection: close\r\n\r\n"@ + callback_page(ok)
}

/// The response to the redirect: a page saying whether sign-in worked, the
/// connection closed after it.
pub fn callback_response(ok: bool) -> (r: String)
    ensures
        r@ == callback_response_spec(ok),
{
    let page: &str = if ok {
        CALLBACK_OK
    } else {
        CALLBACK_FAILED
    };
    let mut out = chars_of("HTTP/1.1 200 OK\r\nContent-Type: text/html; charset=utf-8\r\nContent-Length: ");
    let len = crate::text::usize_to_decimal(page.as_bytes().len());
    let mut k: usize = 0;
    let ghost start = out@;
    while k < len.len()
        invariant
            k <= len.len(),
            out@ == start + len@.take(k as int),
        decreases len.len() - k,
    {
        out.push(len[k]);
        k += 1;
        assert(out@ =~= start + len@.take(k as int));
    }
    assert(len@.take(len.len() as int) =~= len@);
    out = cat(&out, "\r\nConnection: close\r\n\r\n");
    out = cat(&out, page);
    string_of(&out)
}

} // verus!
