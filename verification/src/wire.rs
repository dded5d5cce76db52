//! What goes over a connection: header values, addresses, and the frames of requests and replies.
use vstd::prelude::*;
use vstd::utf8;

use crate::text;

verus! {

/// Whether a header value may hold a byte.
pub open spec fn header_byte(b: u8) -> bool {
    b >= 32 && b != 127 || b == 9
}

/// Whether a text can be a header value.
pub open spec fn header_text(s: Seq<char>) -> bool {
    forall|i: int|
        0 <= i < utf8::encode_utf8(s).len() ==> header_byte(#[trigger] utf8::encode_utf8(s)[i])
}

/// Calls `reqwest::header::HeaderValue::from_str`: it takes every text without control characters
/// other than tabs.
#[verifier::external_body]
pub(crate) fn header_allowed(s: &str) -> (r: bool)
    ensures
        r == header_text(s@),
{
    reqwest::header::HeaderValue::from_str(s).is_ok()
}

/// The header value that presents a token.
pub open spec fn bearer(token: Seq<char>) -> Seq<char> {
    "Bearer "@ + text::trimmed(token)
}

/// The header value that presents a token, where it can be one.
pub fn authorization(token: &str) -> (r: Option<String>)
    ensures
        match r {
            Some(h) => header_text(bearer(token@)) && h@ == bearer(token@),
            None => !header_text(bearer(token@)),
        },
{
    let mut h = "Bearer ".to_owned();
    let t = text::trim(token);
    h.append(t.as_str());
    if header_allowed(h.as_str()) {
        Some(h)
    } else {
        None
    }
}

/// The parts of an address that matter here.
pub struct Address {
    pub scheme: String,
    pub host: Option<String>,
    pub username: String,
    pub password: bool,
    pub fragment: bool,
}

#[verifier::ext_equal]
pub struct AddressView {
    pub scheme: Seq<char>,
    pub host: Option<Seq<char>>,
    pub username: Seq<char>,
    pub password: bool,
    pub fragment: bool,
}

impl Address {
    pub open spec fn view(&self) -> AddressView {
        AddressView {
            scheme: self.scheme@,
            host: text::optional_view(self.host),
            username: self.username@,
            password: self.password,
            fragment: self.fragment,
        }
    }
}

/// What `reqwest::Url::parse` makes of a text.
pub uninterp spec fn address_of(s: Seq<char>) -> Option<AddressView>;

/// Calls `reqwest::Url::parse`: the parts of the address that a text is, by `scheme`, `host_str`,
/// `username`, `password` and `fragment`, or nothing where it is none.
#[verifier::external_body]
pub(crate) fn read_address(s: &str) -> (r: Option<Address>)
    ensures
        match r {
            Some(a) => address_of(s@) == Some(a@),
            None => address_of(s@) is None,
        },
{
    let url = reqwest::Url::parse(s).ok()?;
    let (scheme, host) = (url.scheme().to_owned(), url.host_str().map(str::to_owned));
    let username = url.username().to_owned();
    Some(Address { scheme, host, username, password: url.password().is_some(), fragment: url.fragment().is_some() })
}

/// Whether bytes occur in others at a place.
pub open spec fn bytes_at(hay: Seq<u8>, needle: Seq<u8>, i: int) -> bool {
    0 <= i && i + needle.len() <= hay.len() && hay.subrange(i, i + needle.len()) == needle
}

/// Whether bytes occur in others.
pub open spec fn holds_bytes(hay: Seq<u8>, needle: Seq<u8>) -> bool {
    exists|i: int| bytes_at(hay, needle, i)
}

fn is_at(hay: &[u8], needle: &Vec<u8>, at: usize) -> (r: bool)
    requires
        at + needle@.len() <= hay@.len(),
    ensures
        r == bytes_at(hay@, needle@, at as int),
{
    let mut j: usize = 0;
    while j < needle.len()
        invariant
            j <= needle@.len(),
            at + needle.len() <= hay.len(),
            forall|k: int| 0 <= k < j ==> hay@[at + k] == needle@[k],
        decreases needle@.len() - j,
    {
        if hay[at + j] != needle[j] {
            assert(hay@.subrange(at as int, at + needle@.len())[j as int] != needle@[j as int]);
            return false;
        }
        j += 1;
    }
    assert(hay@.subrange(at as int, at + needle@.len()) =~= needle@);
    true
}

fn find_bytes(hay: &[u8], needle: &Vec<u8>) -> (r: Option<usize>)
    ensures
        match r {
            Some(i) => bytes_at(hay@, needle@, i as int) && forall|k: int|
                0 <= k < i ==> !bytes_at(hay@, needle@, k),
            None => !holds_bytes(hay@, needle@),
        },
{
    if needle.len() > hay.len() {
        return None;
    }
    let mut i: usize = 0;
    loop
        invariant
            i <= hay@.len() - needle@.len(),
            forall|k: int| 0 <= k < i ==> !bytes_at(hay@, needle@, k),
        decreases hay@.len() - i,
    {
        if is_at(hay, needle, i) {
            return Some(i);
        }
        if i == hay.len() - needle.len() {
            return None;
        }
        i += 1;
    }
}

/// The end of a line.
pub open spec fn line_end() -> Seq<u8> {
    seq![13u8, 10u8]
}

/// The end of a header: an empty line.
pub open spec fn header_end() -> Seq<u8> {
    seq![13u8, 10u8, 13u8, 10u8]
}

/// Whether the first line of a request is there.
pub fn has_line(bytes: &[u8]) -> (r: bool)
    ensures
        r == holds_bytes(bytes@, line_end()),
{
    let mut end: Vec<u8> = Vec::new();
    end.push(13);
    end.push(10);
    assert(end@ =~= line_end());
    find_bytes(bytes, &end).is_some()
}

/// The place of the end of a header.
pub open spec fn header_at(bytes: Seq<u8>) -> Option<int> {
    if holds_bytes(bytes, header_end()) {
        Some(choose|i: int| is_first_header_end(bytes, i))
    } else {
        None
    }
}

pub open spec fn is_first_header_end(bytes: Seq<u8>, i: int) -> bool {
    bytes_at(bytes, header_end(), i) && forall|k: int|
        0 <= k < i ==> !bytes_at(bytes, header_end(), k)
}

/// The place of the end of a header, if it is there.
pub fn find_header(bytes: &[u8]) -> (r: Option<usize>)
    ensures
        match r {
            Some(i) => header_at(bytes@) == Some(i as int) && i + 4 <= bytes@.len()
                && is_first_header_end(bytes@, i as int),
            None => header_at(bytes@) is None,
        },
{
    let mut end: Vec<u8> = Vec::new();
    end.push(13);
    end.push(10);
    end.push(13);
    end.push(10);
    assert(end@ =~= header_end());
    let r = find_bytes(bytes, &end);
    proof {
        if let Some(i) = r {
            header_found(bytes@, i as int);
        }
    }
    r
}

/// The end of a header that is there lies inside the bytes.
pub proof fn header_is_inside(bytes: Seq<u8>)
    requires
        holds_bytes(bytes, header_end()),
    ensures
        header_at(bytes) matches Some(n) && 0 <= n && n + 4 <= bytes.len()
            && is_first_header_end(bytes, n),
{
    let i = choose|i: int| bytes_at(bytes, header_end(), i);
    first_end(bytes, i);
    let n = choose|n: int| is_first_header_end(bytes, n);
    assert(is_first_header_end(bytes, n));
    assert(header_end().len() == 4);
}

/// The end of a header is where it first occurs.
pub proof fn header_found(bytes: Seq<u8>, n: int)
    requires
        is_first_header_end(bytes, n),
    ensures
        header_at(bytes) == Some(n),
{
    assert(bytes_at(bytes, header_end(), n));
    let j = choose|j: int| is_first_header_end(bytes, j);
    assert(is_first_header_end(bytes, j));
    if j < n {
        assert(!bytes_at(bytes, header_end(), j));
    }
    if n < j {
        assert(!bytes_at(bytes, header_end(), n));
    }
}

proof fn first_end(bytes: Seq<u8>, i: int)
    requires
        bytes_at(bytes, header_end(), i),
    ensures
        exists|n: int| is_first_header_end(bytes, n),
    decreases i,
{
    if exists|k: int| 0 <= k < i && bytes_at(bytes, header_end(), k) {
        let k = choose|k: int| 0 <= k < i && bytes_at(bytes, header_end(), k);
        first_end(bytes, k);
    } else {
        assert(is_first_header_end(bytes, i));
    }
}

/// The head of a reply.
pub open spec fn reply_head(status: u16, headers: Seq<char>, length: nat) -> Seq<char> {
    "HTTP/1.1 "@ + text::decimal(status as nat) + " Response\r\n"@ + headers
        + "Content-Length: "@ + text::decimal(length) + "\r\nConnection: close\r\n\r\n"@
}

/// A reply: its head, and its body.
pub fn reply(status: u16, headers: &str, body: &str) -> (r: String)
    ensures
        r@ == reply_head(status, headers@, text::utf8_len(body@)) + body@,
{
    let mut r = "HTTP/1.1 ".to_owned();
    let code = text::decimal_text(status as u64);
    r.append(code.as_str());
    r.append(" Response\r\n");
    r.append(headers);
    r.append("Content-Length: ");
    let n = text::decimal_text(text::byte_len(body) as u64);
    r.append(n.as_str());
    r.append("\r\nConnection: close\r\n\r\n");
    r.append(body);
    r
}

}
