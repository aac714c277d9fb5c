//! The command-line client's requests to the daemon and its reading of the answers.

use vstd::prelude::*;
use vstd::string::*;
use crate::addr::{dotted, push_dotted};
use crate::text::{push_char, trim_slashes, trim_trailing_slashes};

verus! {

/// Whether a byte may stand for itself in a path segment: ASCII letters and digits and
/// `-`, `_`, `.`, `~`.
pub open spec fn unreserved(b: u8) -> bool {
    (65 <= b <= 90) || (97 <= b <= 122) || (48 <= b <= 57) || b == 45 || b == 95 || b == 46 || b == 126
}

/// The upper-case hexadecimal digit of `d < 16`.
pub open spec fn hex_upper(d: nat) -> char {
    if d < 10 {
        ((d + 48) as u8) as char
    } else {
        ((d + 55) as u8) as char
    }
}

/// A byte in a path segment: itself where it is unreserved, `%XX` with its upper-case
/// hexadecimal value otherwise.
pub open spec fn encode_byte(b: u8) -> Seq<char> {
    if unreserved(b) {
        seq![b as char]
    } else {
        seq!['%', hex_upper(b as nat / 16), hex_upper(b as nat % 16)]
    }
}

/// The percent-encoding of a byte string.
pub open spec fn url_encoded(bs: Seq<u8>) -> Seq<char>
    decreases bs.len(),
{
    if bs.len() == 0 {
        Seq::empty()
    } else {
        url_encoded(bs.drop_last()) + encode_byte(bs.last())
    }
}

fn hex_digit(d: u8) -> (c: char)
    requires
        d < 16,
    ensures
        c == hex_upper(d as nat),
{
    if d < 10 {
        (48u8 + d) as char
    } else {
        (55u8 + d) as char
    }
}

/// Percent-encodes the UTF-8 bytes of `s` for use as one path segment.
pub fn urlencode(s: &str) -> (r: String)
    ensures
        r@ == url_encoded(s.spec_bytes()),
{
    let bytes = s.as_bytes();
    let mut out = String::new();
    let mut i: usize = 0;
    while i < bytes.len()
        invariant
            i <= bytes@.len(),
            bytes@ == s.spec_bytes(),
            out@ == url_encoded(bytes@.take(i as int)),
        decreases bytes@.len() - i,
    {
        let b: u8 = bytes[i];
        let ghost before = out@;
        if (65 <= b && b <= 90) || (97 <= b && b <= 122) || (48 <= b && b <= 57) || b == 45 || b == 95 || b == 46
            || b == 126 {
            push_char(&mut out, b as char);
        } else {
            push_char(&mut out, '%');
            push_char(&mut out, hex_digit(b / 16));
            push_char(&mut out, hex_digit(b % 16));
        }
        proof {
            assert(bytes@.take(i + 1).drop_last() =~= bytes@.take(i as int));
            assert(out@ =~= before + encode_byte(b));
        }
        i = i + 1;
    }
    proof {
        assert(bytes@.take(bytes@.len() as int) =~= bytes@);
    }
    out
}

/// The value of an upper-case hexadecimal digit.
pub open spec fn hex_value(c: char) -> int {
    if (c as int) < 58 {
        c as int - 48
    } else {
        c as int - 55
    }
}

/// Reads a percent-encoded path segment back into bytes, from its end: a `%` three
/// places from the end opens an escape of two hexadecimal digits; any other last
/// character stands for itself.
pub open spec fn url_decoded(s: Seq<char>) -> Seq<u8>
    decreases s.len(),
{
    if s.len() == 0 {
        Seq::empty()
    } else if s.len() >= 3 && s[s.len() - 3] == '%' {
        url_decoded(s.subrange(0, s.len() - 3)).push((hex_value(s[s.len() - 2]) * 16 + hex_value(s[s.len() - 1])) as u8)
    } else {
        url_decoded(s.drop_last()).push(s.last() as u8)
    }
}

/// In an encoding, every `%` is followed by the two digits of its escape.
proof fn lemma_percent_opens_escape(bs: Seq<u8>)
    ensures
        forall|j: int| 0 <= j < url_encoded(bs).len() && #[trigger] url_encoded(bs)[j] == '%' ==> j + 2 < url_encoded(bs).len(),
    decreases bs.len(),
{
    if bs.len() > 0 {
        lemma_percent_opens_escape(bs.drop_last());
        let p = url_encoded(bs.drop_last());
        let b = bs.last();
        assert forall|j: int| 0 <= j < url_encoded(bs).len() && #[trigger] url_encoded(bs)[j] == '%' implies j + 2 < url_encoded(bs).len() by {
            if j < p.len() {
                assert(url_encoded(bs)[j] == p[j]);
            } else if unreserved(b) {
                assert(url_encoded(bs)[j] == b as char);
            } else if j > p.len() {
                assert(b as nat / 16 < 16 && b as nat % 16 < 16);
            }
        }
    }
}

/// Percent-encoding loses nothing: decoding an encoding gives back the bytes, so two
/// different names never share a path segment.
pub proof fn lemma_urlencode_lossless(bs: Seq<u8>)
    ensures
        url_decoded(url_encoded(bs)) == bs,
    decreases bs.len(),
{
    if bs.len() > 0 {
        let p = bs.drop_last();
        let b = bs.last();
        lemma_urlencode_lossless(p);
        lemma_percent_opens_escape(p);
        let ep = url_encoded(p);
        let s = url_encoded(bs);
        assert(s == ep + encode_byte(b));
        if unreserved(b) {
            assert(s.drop_last() =~= ep);
            if s.len() >= 3 {
                assert(s[s.len() - 3] == ep[ep.len() - 2]);
            }
            assert((b as char) as u8 == b);
        } else {
            assert(s.subrange(0, s.len() - 3) =~= ep);
            let hi = b as nat / 16;
            let lo = b as nat % 16;
            assert(hex_value(hex_upper(hi)) == hi);
            assert(hex_value(hex_upper(lo)) == lo);
        }
        assert(bs =~= p.push(b));
    }
}

/// Different names give different path segments.
pub proof fn lemma_urlencode_injective(a: Seq<u8>, b: Seq<u8>)
    requires
        url_encoded(a) == url_encoded(b),
    ensures
        a == b,
{
    lemma_urlencode_lossless(a);
    lemma_urlencode_lossless(b);
}

/// A percent-encoded name stays one path segment: it holds no `/`, `?` or `#`.
pub proof fn lemma_encoded_is_one_segment(bs: Seq<u8>)
    ensures
        forall|x: int| 0 <= x < url_encoded(bs).len() ==> {
            let c = #[trigger] url_encoded(bs)[x];
            c != '/' && c != '?' && c != '#'
        },
    decreases bs.len(),
{
    if bs.len() > 0 {
        lemma_encoded_is_one_segment(bs.drop_last());
        let p = url_encoded(bs.drop_last());
        let e = encode_byte(bs.last());
        let b = bs.last();
        assert forall|x: int| 0 <= x < url_encoded(bs).len() implies {
            let c = #[trigger] url_encoded(bs)[x];
            c != '/' && c != '?' && c != '#'
        } by {
            if x >= p.len() {
                let c = url_encoded(bs)[x];
                assert(c == e[x - p.len()]);
                if unreserved(b) {
                    assert(c == b as char);
                } else {
                    assert(b as nat / 16 < 16 && b as nat % 16 < 16);
                }
            } else {
                assert(url_encoded(bs)[x] == p[x]);
            }
        }
    }
}

/// HTTP methods of the daemon's API.
#[derive(Clone, Copy, Debug, PartialEq, Eq, Structural)]
pub enum Method {
    Get,
    Post,
    Put,
    Delete,
}

/// A request to the daemon: its method, its path, and whether it changes the
/// configuration (and so needs the token).
#[derive(Debug)]
pub struct RequestSpec {
    pub method: Method,
    pub path: String,
    pub mutating: bool,
}

/// The path `/interfaces/{name}` followed by `suffix`, with the name percent-encoded.
pub open spec fn iface_path(name: Seq<u8>, suffix: Seq<char>) -> Seq<char> {
    "/interfaces/"@ + url_encoded(name) + suffix
}

fn iface_request(method: Method, name: &str, suffix: &str, mutating: bool) -> (r: RequestSpec)
    ensures
        r.method == method,
        r.path@ == iface_path(name.spec_bytes(), suffix@),
        r.mutating == mutating,
{
    let mut path = "/interfaces/".to_owned();
    let enc = urlencode(name);
    path.append(enc.as_str());
    path.append(suffix);
    RequestSpec { method, path, mutating }
}

/// `GET /health`.
pub fn health_request() -> (r: RequestSpec)
    ensures
        r.method == Method::Get,
        r.path@ == "/health"@,
        !r.mutating,
{
    RequestSpec { method: Method::Get, path: "/health".to_owned(), mutating: false }
}

/// `GET /interfaces`.
pub fn list_ifaces_request() -> (r: RequestSpec)
    ensures
        r.method == Method::Get,
        r.path@ == "/interfaces"@,
        !r.mutating,
{
    RequestSpec { method: Method::Get, path: "/interfaces".to_owned(), mutating: false }
}

/// `POST /interfaces`, whose body names the interface.
pub fn create_iface_request() -> (r: RequestSpec)
    ensures
        r.method == Method::Post,
        r.path@ == "/interfaces"@,
        r.mutating,
{
    RequestSpec { method: Method::Post, path: "/interfaces".to_owned(), mutating: true }
}

/// `DELETE /interfaces/{name}`.
pub fn delete_iface_request(name: &str) -> (r: RequestSpec)
    ensures
        r.method == Method::Delete,
        r.path@ == iface_path(name.spec_bytes(), Seq::empty()),
        r.mutating,
{
    let r = iface_request(Method::Delete, name, "", true);
    proof {
        reveal_strlit("");
        assert(r.path@ =~= iface_path(name.spec_bytes(), Seq::empty()));
    }
    r
}

/// `POST /interfaces/{name}/refresh-ip`.
pub fn refresh_iface_ip_request(name: &str) -> (r: RequestSpec)
    ensures
        r.method == Method::Post,
        r.path@ == iface_path(name.spec_bytes(), "/refresh-ip"@),
        r.mutating,
{
    iface_request(Method::Post, name, "/refresh-ip", true)
}

/// `GET /interfaces/{iface}/dnat`.
pub fn list_dnat_request(iface: &str) -> (r: RequestSpec)
    ensures
        r.method == Method::Get,
        r.path@ == iface_path(iface.spec_bytes(), "/dnat"@),
        !r.mutating,
{
    iface_request(Method::Get, iface, "/dnat", false)
}

/// `POST /interfaces/{iface}/dnat`, whose body is the mapping.
pub fn add_dnat_request(iface: &str) -> (r: RequestSpec)
    ensures
        r.method == Method::Post,
        r.path@ == iface_path(iface.spec_bytes(), "/dnat"@),
        r.mutating,
{
    iface_request(Method::Post, iface, "/dnat", true)
}

/// `DELETE /interfaces/{iface}/dnat/{orig}`.
pub fn delete_dnat_request(iface: &str, orig: u32) -> (r: RequestSpec)
    ensures
        r.method == Method::Delete,
        r.path@ == iface_path(iface.spec_bytes(), "/dnat/"@ + dotted(orig)),
        r.mutating,
{
    let mut r = iface_request(Method::Delete, iface, "/dnat/", true);
    push_dotted(&mut r.path, orig);
    proof {
        assert(r.path@ =~= iface_path(iface.spec_bytes(), "/dnat/"@ + dotted(orig)));
    }
    r
}

/// `GET /interfaces/{iface}/snat`.
pub fn list_snat_request(iface: &str) -> (r: RequestSpec)
    ensures
        r.method == Method::Get,
        r.path@ == iface_path(iface.spec_bytes(), "/snat"@),
        !r.mutating,
{
    iface_request(Method::Get, iface, "/snat", false)
}

/// `POST /interfaces/{iface}/snat`, whose body is the mapping.
pub fn add_snat_request(iface: &str) -> (r: RequestSpec)
    ensures
        r.method == Method::Post,
        r.path@ == iface_path(iface.spec_bytes(), "/snat"@),
        r.mutating,
{
    iface_request(Method::Post, iface, "/snat", true)
}

/// `DELETE /interfaces/{iface}/snat/{orig}`.
pub fn delete_snat_request(iface: &str, orig: u32) -> (r: RequestSpec)
    ensures
        r.method == Method::Delete,
        r.path@ == iface_path(iface.spec_bytes(), "/snat/"@ + dotted(orig)),
        r.mutating,
{
    let mut r = iface_request(Method::Delete, iface, "/snat/", true);
    push_dotted(&mut r.path, orig);
    proof {
        assert(r.path@ =~= iface_path(iface.spec_bytes(), "/snat/"@ + dotted(orig)));
    }
    r
}

/// `GET /interfaces/{iface}/masquerade`.
pub fn get_masquerade_request(iface: &str) -> (r: RequestSpec)
    ensures
        r.method == Method::Get,
        r.path@ == iface_path(iface.spec_bytes(), "/masquerade"@),
        !r.mutating,
{
    iface_request(Method::Get, iface, "/masquerade", false)
}

/// `PUT /interfaces/{iface}/masquerade`, whose body is the masquerade configuration.
pub fn put_masquerade_request(iface: &str) -> (r: RequestSpec)
    ensures
        r.method == Method::Put,
        r.path@ == iface_path(iface.spec_bytes(), "/masquerade"@),
        r.mutating,
{
    iface_request(Method::Put, iface, "/masquerade", true)
}

/// The daemon's base URL as the client keeps it: without trailing slashes.
pub fn normalize_base(base: &str) -> (r: String)
    ensures
        r@ == trim_slashes(base@),
{
    trim_trailing_slashes(base)
}

/// Why the client refuses to send a request.
#[derive(Debug)]
pub enum ClientError {
    /// The request changes the configuration and no token was given.
    MissingToken,
}

/// The text of a [`ClientError`].
pub open spec fn client_error_text(e: ClientError) -> Seq<char> {
    match e {
        ClientError::MissingToken => "--token / WIREPF_TOKEN required for this command"@,
    }
}

impl ClientError {
    /// The message that the client reports.
    pub fn message(&self) -> (m: String)
        ensures
            m@ == client_error_text(*self),
    {
        match self {
            ClientError::MissingToken => "--token / WIREPF_TOKEN required for this command".to_owned(),
        }
    }
}

/// A request ready to send: its full URL and the bearer token it carries, if any.
#[derive(Debug)]
pub struct Prepared {
    pub url: String,
    pub bearer: Option<String>,
}

/// Prepares a request: the URL is the base followed by the path; a request that changes
/// the configuration carries the token as a bearer token and is refused without one;
/// other requests carry none.
pub fn req(base: &str, token: &Option<String>, path: &str, mutating: bool) -> (r: Result<Prepared, ClientError>)
    ensures
        mutating && token.is_none() <==> r is Err,
        r matches Ok(p) ==> p.url@ == base@ + path@ && match p.bearer {
            Some(b) => mutating && token.is_some() && b@ == token.unwrap()@,
            None => !mutating,
        },
{
    let mut url = base.to_owned();
    url.append(path);
    if mutating {
        match token {
            Some(t) => Ok(Prepared { url, bearer: Some(t.clone()) }),
            None => Err(ClientError::MissingToken),
        }
    } else {
        Ok(Prepared { url, bearer: None })
    }
}

/// Whether an HTTP status is a success (2xx).
pub fn is_success(status: u16) -> (r: bool)
    ensures
        r == (200 <= status <= 299),
{
    200 <= status && status <= 299
}

/// An error answer of the daemon as the client reports it.
#[derive(Debug)]
pub struct ApiError {
    pub status: u16,
    pub message: String,
}

/// The error of an answer: the `error` field of its JSON body where the body is such an
/// object, otherwise the body read as text.
pub fn api_error(status: u16, error_field: Option<String>, body_text: String) -> (e: ApiError)
    ensures
        e.status == status,
        e.message@ == match error_field {
            Some(m) => m@,
            None => body_text@,
        },
{
    match error_field {
        Some(m) => ApiError { status, message: m },
        None => ApiError { status, message: body_text },
    }
}

/// Reading an answer without a body: a success gives nothing; any other status is the
/// answer's error.
pub fn decode_empty(status: u16, error_field: Option<String>, body_text: String) -> (r: Result<(), ApiError>)
    ensures
        (200 <= status <= 299) <==> r is Ok,
        r matches Err(e) ==> e.status == status && e.message@ == match error_field {
            Some(m) => m@,
            None => body_text@,
        },
{
    if is_success(status) {
        Ok(())
    } else {
        Err(api_error(status, error_field, body_text))
    }
}

} // verus!
