use base64::Engine;
use vstd::prelude::*;
use vstd::utf8::{decode_utf8, valid_utf8};

use crate::err::{ProxyError, UNAUTHORIZED};
use crate::text::{chars_of, push_char, string_of};

verus! {

#[verifier::external_type_specification]
#[verifier::external_body]
#[verifier::reject_recursive_types(T)]
pub struct ExHeaderMap<T>(hyper::header::HeaderMap<T>);

#[verifier::external_type_specification]
#[verifier::external_body]
pub struct ExHeaderValue(hyper::header::HeaderValue);

/// A username and password taken from a Basic authorization header.
#[derive(Debug, Clone, Hash)]
pub struct Credentials {
    pub username: String,
    pub password: String,
}

impl View for Credentials {
    type V = (Seq<char>, Seq<char>);

    open spec fn view(&self) -> (Seq<char>, Seq<char>) {
        (self.username@, self.password@)
    }
}

impl Credentials {
    /// A copy with the same username and password.
    pub fn duplicate(&self) -> (r: Credentials)
        ensures
            r@ == self@,
    {
        Credentials { username: self.username.clone(), password: self.password.clone() }
    }
}

impl PartialEq for Credentials {
    fn eq(&self, other: &Credentials) -> (r: bool)
        ensures
            r == (self@ == other@),
    {
        self.username == other.username && self.password == other.password
    }
}

impl Eq for Credentials {}

impl vstd::std_specs::cmp::PartialEqSpecImpl for Credentials {
    open spec fn obeys_eq_spec() -> bool {
        true
    }

    open spec fn eq_spec(&self, other: &Credentials) -> bool {
        self@ == other@
    }
}

/// Why an authorization header yields no credentials.
#[derive(Debug, Clone, Copy, PartialEq, Eq, Structural)]
pub enum AuthFault {
    /// No authorization header.
    Missing,
    /// The header value, or the decoded payload, is not text.
    NotText,
    /// The value does not start with `Basic `.
    UnsupportedScheme,
    /// The payload is not standard base64.
    BadEncoding,
    /// The decoded text has no `:`.
    NoSeparator,
}

/// What standard base64 (with padding) decodes `s` to, if it is valid.
pub uninterp spec fn base64_standard(s: Seq<char>) -> Option<Seq<u8>>;

/// Relies on base64's `STANDARD` engine `decode`: `None` exactly when the
/// input is not valid padded standard base64.
#[verifier::external_body]
fn decode_base64(s: &str) -> (r: Option<Vec<u8>>)
    ensures
        match r {
            Some(b) => base64_standard(s@) == Some(b@),
            None => base64_standard(s@) is None,
        },
{
    base64::engine::general_purpose::STANDARD.decode(s).ok()
}

/// Relies on String::from_utf8: succeeds exactly on valid UTF-8, and then
/// holds the decoded characters.
#[verifier::external_body]
fn utf8_string(b: Vec<u8>) -> (r: Option<String>)
    ensures
        r is Some <==> valid_utf8(b@),
        r matches Some(s) ==> s@ == decode_utf8(b@),
{
    String::from_utf8(b).ok()
}

/// The scheme that a Basic authorization value must start with.
pub open spec fn basic_scheme() -> Seq<char> {
    seq!['B', 'a', 's', 'i', 'c', ' ']
}

/// `s` splits at its first `:` into `user` and `pass`.
pub open spec fn splits_at_first_colon(s: Seq<char>, user: Seq<char>, pass: Seq<char>) -> bool {
    &&& s == user + seq![':'] + pass
    &&& !user.contains(':')
}

/// What a value's payload decodes to, when it carries the Basic scheme.
pub open spec fn decoded_payload(value: Seq<char>) -> Option<Seq<u8>> {
    base64_standard(value.skip(6))
}

/// The fault of an authorization value, or `None` when it carries credentials.
pub open spec fn authorization_fault(value: Seq<char>) -> Option<AuthFault> {
    if value.len() < 6 || value.take(6) != basic_scheme() {
        Some(AuthFault::UnsupportedScheme)
    } else if decoded_payload(value) is None {
        Some(AuthFault::BadEncoding)
    } else if !valid_utf8(decoded_payload(value)->0) {
        Some(AuthFault::NotText)
    } else if !decode_utf8(decoded_payload(value)->0).contains(':') {
        Some(AuthFault::NoSeparator)
    } else {
        None
    }
}

/// `r` is what `value` yields: credentials split at the first colon of the
/// decoded text, or the fault.
pub open spec fn authorization_result(value: Seq<char>, r: Result<Credentials, AuthFault>) -> bool {
    match r {
        Ok(c) => authorization_fault(value) is None && splits_at_first_colon(
            decode_utf8(decoded_payload(value)->0),
            c.username@,
            c.password@,
        ),
        Err(f) => authorization_fault(value) == Some(f),
    }
}

/// Splits decoded text at its first colon; the password may hold more colons.
pub fn split_credentials(decoded: &str) -> (r: Option<Credentials>)
    ensures
        r is None <==> !decoded@.contains(':'),
        r matches Some(c) ==> splits_at_first_colon(decoded@, c.username@, c.password@),
{
    let cs = chars_of(decoded);
    let mut i: usize = 0;
    while i < cs.len()
        invariant
            i <= cs@.len(),
            cs@ == decoded@,
            forall|j: int| 0 <= j < i ==> cs@[j] != ':',
        decreases cs.len() - i,
    {
        if cs[i] == ':' {
            let username = string_of(&cs, 0, i);
            let password = string_of(&cs, i + 1, cs.len());
            assert(!username@.contains(':'));
            assert(decoded@ =~= username@ + seq![':'] + password@);
            return Some(Credentials { username, password });
        }
        i = i + 1;
    }
    None
}

/// Checks the scheme prefix of an authorization value.
fn has_basic_scheme(cs: &Vec<char>) -> (r: bool)
    ensures
        r == (cs@.len() >= 6 && cs@.take(6) == basic_scheme()),
{
    if cs.len() < 6 {
        return false;
    }
    let r = cs[0] == 'B' && cs[1] == 'a' && cs[2] == 's' && cs[3] == 'i' && cs[4] == 'c' && cs[5]
        == ' ';
    assert(r ==> cs@.take(6) =~= basic_scheme());
    assert(cs@.take(6) == basic_scheme() ==> cs@.take(6)[0] == 'B' && cs@.take(6)[1] == 'a'
        && cs@.take(6)[2] == 's' && cs@.take(6)[3] == 'i' && cs@.take(6)[4] == 'c'
        && cs@.take(6)[5] == ' ');
    r
}

/// Extracts credentials from the text of an authorization header.
pub fn parse_authorization(value: &str) -> (r: Result<Credentials, AuthFault>)
    ensures
        authorization_result(value@, r),
{
    let cs = chars_of(value);
    if !has_basic_scheme(&cs) {
        return Err(AuthFault::UnsupportedScheme);
    }
    let payload = string_of(&cs, 6, cs.len());
    assert(payload@ =~= value@.skip(6));
    let bytes = match decode_base64(payload.as_str()) {
        Some(b) => b,
        None => return Err(AuthFault::BadEncoding),
    };
    let text = match utf8_string(bytes) {
        Some(t) => t,
        None => return Err(AuthFault::NotText),
    };
    match split_credentials(text.as_str()) {
        Some(c) => Ok(c),
        None => Err(AuthFault::NoSeparator),
    }
}

/// A username without a colon and any password, joined by a colon, split
/// back into exactly that username and password: colons in the password
/// survive.
pub proof fn lemma_first_colon_split_round_trip(user: Seq<char>, pass: Seq<char>, u: Seq<char>, p: Seq<char>)
    requires
        !user.contains(':'),
        splits_at_first_colon(user + seq![':'] + pass, u, p),
    ensures
        u == user,
        p == pass,
        splits_at_first_colon(user + seq![':'] + pass, user, pass),
{
    let s = user + seq![':'] + pass;
    if u.len() < user.len() {
        assert(s[u.len() as int] == ':');
        assert(user[u.len() as int] == s[u.len() as int]);
    } else if u.len() > user.len() {
        assert(s[user.len() as int] == ':');
        assert(u[user.len() as int] == s[user.len() as int]);
    }
    assert(u =~= s.take(u.len() as int));
    assert(user =~= s.take(user.len() as int));
    assert(p =~= s.skip(u.len() as int + 1));
    assert(pass =~= s.skip(user.len() as int + 1));
}

/// A value in the `Bearer` scheme never yields credentials: it is refused
/// as an unsupported scheme before anything is decoded.
pub proof fn lemma_bearer_rejected(value: Seq<char>)
    requires
        value.len() >= 7,
        value.take(7) == seq!['B', 'e', 'a', 'r', 'e', 'r', ' '],
    ensures
        authorization_fault(value) == Some(AuthFault::UnsupportedScheme),
        forall|r: Result<Credentials, AuthFault>| #[trigger] authorization_result(value, r)
            ==> r == Err::<Credentials, AuthFault>(AuthFault::UnsupportedScheme),
{
    assert(value[1] == value.take(7)[1]);
    assert(value.take(6)[1] == value[1]);
    assert(basic_scheme()[1] == 'a');
}

/// The raw bytes of a header map's `Authorization` entry, if it has one.
pub uninterp spec fn authorization_header(h: hyper::header::HeaderMap) -> Option<Seq<u8>>;

/// Relies on HeaderMap::get and HeaderValue::as_bytes: the bytes of the
/// `Authorization` header, if there is one.
#[verifier::external_body]
fn authorization_bytes(headers: &hyper::header::HeaderMap) -> (r: Option<Vec<u8>>)
    ensures
        match r {
            Some(b) => authorization_header(*headers) == Some(b@),
            None => authorization_header(*headers) is None,
        },
{
    headers.get("Authorization").map(|v| v.as_bytes().to_vec())
}

/// A byte that a header value may hold as text: visible ASCII or a tab.
pub open spec fn is_header_text_byte(b: u8) -> bool {
    (32 <= b && b < 127) || b == 9
}

/// Header bytes read as text, one character per byte.
pub open spec fn header_chars(b: Seq<u8>) -> Seq<char> {
    b.map_values(|x: u8| x as char)
}

/// Header bytes are text when every byte is visible ASCII or a tab.
pub open spec fn is_header_text(b: Seq<u8>) -> bool {
    forall|i: int| 0 <= i < b.len() ==> is_header_text_byte(#[trigger] b[i])
}

/// The text of a header value, as `HeaderValue::to_str` reads it.
pub fn header_text(b: &Vec<u8>) -> (r: Option<String>)
    ensures
        r is Some <==> is_header_text(b@),
        r matches Some(s) ==> s@ == header_chars(b@),
{
    let mut out = String::new();
    let mut i: usize = 0;
    while i < b.len()
        invariant
            i <= b@.len(),
            out@ == header_chars(b@.subrange(0, i as int)),
            forall|j: int| 0 <= j < i ==> is_header_text_byte(#[trigger] b@[j]),
        decreases b.len() - i,
    {
        let x = b[i];
        if !((32 <= x && x < 127) || x == 9) {
            return None;
        }
        push_char(&mut out, x as char);
        assert(header_chars(b@.subrange(0, i + 1)) =~= header_chars(b@.subrange(0, i as int)).push(
            x as char,
        ));
        i = i + 1;
    }
    assert(b@.subrange(0, i as int) =~= b@);
    Some(out)
}

/// `r` is what a request whose `Authorization` entry is `h` yields: a
/// missing, non-text or faulty value is `UNAUTHORIZED`; otherwise the
/// credentials split the value's decoded payload at its first colon.
pub open spec fn basic_auth_result(h: Option<Seq<u8>>, r: Result<Credentials, ProxyError>) -> bool {
    match h {
        None => r matches Err(e) && e.status == UNAUTHORIZED,
        Some(b) => match r {
            Ok(c) => is_header_text(b) && authorization_fault(header_chars(b)) is None
                && splits_at_first_colon(
                decode_utf8(decoded_payload(header_chars(b))->0),
                c.username@,
                c.password@,
            ),
            Err(e) => e.status == UNAUTHORIZED && !(is_header_text(b) && authorization_fault(
                header_chars(b),
            ) is None),
        },
    }
}

impl AuthFault {
    /// The classified error for this fault: always `UNAUTHORIZED`.
    pub fn into_error(self) -> (r: ProxyError)
        ensures
            r.status == UNAUTHORIZED,
    {
        let message = match self {
            AuthFault::Missing => "No basic auth",
            AuthFault::NotText => "Invalid basic auth text",
            AuthFault::UnsupportedScheme => "Unsupported auth scheme",
            AuthFault::BadEncoding => "Invalid basic auth encoding",
            AuthFault::NoSeparator => "Invalid basic auth",
        };
        ProxyError::new(message.to_owned(), UNAUTHORIZED)
    }
}

/// Extracts Basic credentials from the `Authorization` header.
pub fn parse_basic_auth(headers: &hyper::header::HeaderMap) -> (r: Result<Credentials, ProxyError>)
    ensures
        basic_auth_result(authorization_header(*headers), r),
{
    let bytes = match authorization_bytes(headers) {
        Some(b) => b,
        None => return Err(AuthFault::Missing.into_error()),
    };
    let text = match header_text(&bytes) {
        Some(t) => t,
        None => return Err(AuthFault::NotText.into_error()),
    };
    match parse_authorization(text.as_str()) {
        Ok(c) => Ok(c),
        Err(f) => Err(f.into_error()),
    }
}

} // verus!
