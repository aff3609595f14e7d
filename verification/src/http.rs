//! Settings of the HTTP client, status codes, and request headers.

use hyper::header::HeaderValue;
use hyper::HeaderMap;
use vstd::prelude::*;
use vstd::utf8::{
    encode_utf8, encode_utf8_decode_utf8, encode_utf8_valid_utf8, is_ascii_chars,
    is_ascii_chars_encode_utf8,
};

use crate::text::text_of;
use crate::time::{Duration, NANOS_PER_SEC};

verus! {

pub const STATUS_ACCEPTED: u16 = 202;

pub const STATUS_BAD_REQUEST: u16 = 400;

pub const STATUS_FORBIDDEN: u16 = 403;

pub const STATUS_INTERNAL_SERVER_ERROR: u16 = 500;

pub const STATUS_BAD_GATEWAY: u16 = 502;

/// Settings of the client that forwards requests.
#[derive(Clone, Debug)]
pub struct HTTPClientConfig {
    /// Cap on time to establish a TCP connection.
    pub connect_timeout: Option<Duration>,
    /// TCP keepalive interval on the underlying socket.
    pub tcp_keepalive: Option<Duration>,
    /// How long an idle pooled connection is kept before being dropped.
    pub pool_idle_timeout: Option<Duration>,
    /// Max idle connections kept per upstream host.
    pub pool_max_idle_per_host: usize,
}

impl Default for HTTPClientConfig {
    fn default() -> (config: HTTPClientConfig)
        ensures
            config.connect_timeout matches Some(d) && d@ == 10 * NANOS_PER_SEC,
            config.tcp_keepalive matches Some(d) && d@ == 60 * NANOS_PER_SEC,
            config.pool_idle_timeout matches Some(d) && d@ == 90 * NANOS_PER_SEC,
            config.pool_max_idle_per_host == 32,
            config.connect_timeout matches Some(d) && d.nanos == 10_000_000_000,
            config.tcp_keepalive matches Some(d) && d.nanos == 60_000_000_000,
            config.pool_idle_timeout matches Some(d) && d.nanos == 90_000_000_000,
    {
        HTTPClientConfig {
            connect_timeout: Some(Duration::from_secs(10)),
            tcp_keepalive: Some(Duration::from_secs(60)),
            pool_idle_timeout: Some(Duration::from_secs(90)),
            pool_max_idle_per_host: 32,
        }
    }
}

/// `http::HeaderMap`, opaque here. What one holds is [`headers_of`].
#[verifier::external_type_specification]
#[verifier::external_body]
#[verifier::reject_recursive_types(T)]
pub struct ExHeaderMap<T>(HeaderMap<T>);

/// `http::HeaderValue`, opaque here.
#[verifier::external_type_specification]
#[verifier::external_body]
pub struct ExHeaderValue(HeaderValue);

/// What a lookup by name finds in a header map: under each name that finds a header,
/// in lower case, the bytes of the first of its values. A header that no text finds,
/// such as one with a double quote in its name, is not in it.
pub uninterp spec fn headers_of(headers: HeaderMap) -> Map<Seq<char>, Seq<u8>>;

/// Text with the ASCII letters in lower case.
pub open spec fn ascii_lower(text: Seq<char>) -> Seq<char> {
    Seq::new(
        text.len(),
        |i: int|
            if 'A' <= text[i] <= 'Z' {
                (text[i] as u32 + 32) as char
            } else {
                text[i]
            },
    )
}

/// `HeaderMap::get` with a name as text: the first value of the header, as the bytes
/// that `HeaderValue::as_bytes` gives, whatever the case of the name. A text that is
/// no name of a header finds nothing.
#[verifier::external_body]
fn first_value<'a>(headers: &'a HeaderMap, name: &str) -> (value: Option<&'a [u8]>)
    ensures
        match value {
            Some(bytes) => {
                &&& headers_of(*headers).contains_key(ascii_lower(name@))
                &&& bytes@ == headers_of(*headers)[ascii_lower(name@)]
            },
            None => !headers_of(*headers).contains_key(ascii_lower(name@)),
        },
{
    headers.get(name).map(|value| value.as_bytes())
}

/// A byte that may stand in the text of a header value: visible ASCII, a space or
/// a tab.
pub open spec fn is_text_byte(b: u8) -> bool {
    32 <= b < 127 || b == 9
}

/// The text of a header value: its bytes as characters, where all of them may
/// stand in text.
pub open spec fn value_text(bytes: Seq<u8>) -> Option<Seq<char>> {
    if forall|i: int| 0 <= i < bytes.len() ==> is_text_byte(#[trigger] bytes[i]) {
        Some(Seq::new(bytes.len(), |i: int| bytes[i] as char))
    } else {
        None
    }
}

/// The value of a header in a map of headers, as text.
pub open spec fn header_text(headers: Map<Seq<char>, Seq<u8>>, name: Seq<char>) -> Option<
    Seq<char>,
> {
    if headers.contains_key(ascii_lower(name)) {
        value_text(headers[ascii_lower(name)])
    } else {
        None
    }
}

/// The text of a header value, or nothing where it holds a byte that may not stand
/// in text.
pub fn value_to_str(bytes: &[u8]) -> (text: Option<&str>)
    ensures
        match text {
            Some(t) => value_text(bytes@) == Some(t@),
            None => value_text(bytes@) is None,
        },
{
    let mut i: usize = 0;
    while i < bytes.len()
        invariant
            i <= bytes@.len(),
            forall|j: int| 0 <= j < i ==> is_text_byte(#[trigger] bytes@[j]),
        decreases bytes@.len() - i,
    {
        let b = bytes[i];
        if !(32 <= b && b < 127 || b == 9) {
            return None;
        }
        i += 1;
    }
    proof {
        let chars = Seq::new(bytes@.len(), |i: int| bytes@[i] as char);
        assert(is_ascii_chars(chars));
        is_ascii_chars_encode_utf8(chars);
        assert(encode_utf8(chars) =~= bytes@);
        encode_utf8_valid_utf8(chars);
        encode_utf8_decode_utf8(chars);
    }
    text_of(bytes)
}

/// The value of a request header as text: nothing where the header is missing or
/// its first value holds a byte that may not stand in text.
pub fn header_value<'a>(headers: &'a HeaderMap, name: &str) -> (value: Option<&'a str>)
    ensures
        match value {
            Some(v) => header_text(headers_of(*headers), name@) == Some(v@),
            None => header_text(headers_of(*headers), name@) is None,
        },
{
    match first_value(headers, name) {
        Some(bytes) => value_to_str(bytes),
        None => None,
    }
}

/// A letter of ASCII in upper case has its counterpart in lower case, and every other
/// character stays as it is.
pub proof fn law_ascii_lower(text: Seq<char>, i: int)
    requires
        0 <= i < text.len(),
    ensures
        ascii_lower(text).len() == text.len(),
        'A' <= text[i] <= 'Z' ==> ascii_lower(text)[i] as int == text[i] as int + 32,
        !('A' <= text[i] <= 'Z') ==> ascii_lower(text)[i] == text[i],
{
}

/// A header value is text exactly if all of its bytes are tabs or printable ASCII, and
/// then each byte is one character of the text, from the first to the last.
pub proof fn law_value_is_its_bytes(bytes: Seq<u8>)
    ensures
        value_text(bytes) is Some <==> forall|i: int|
            0 <= i < bytes.len() ==> #[trigger] bytes[i] == 9 || 32 <= bytes[i] <= 126,
        value_text(bytes) matches Some(text) ==> {
            &&& text.len() == bytes.len()
            &&& forall|i: int| 0 <= i < bytes.len() ==> #[trigger] text[i] as int == bytes[i]
        },
{
    if value_text(bytes) is Some {
        assert forall|i: int| 0 <= i < bytes.len() implies #[trigger] bytes[i] == 9 || 32
            <= bytes[i] <= 126 by {
            assert(is_text_byte(bytes[i]));
        }
    }
    if forall|i: int| 0 <= i < bytes.len() ==> #[trigger] bytes[i] == 9 || 32 <= bytes[i] <= 126 {
        assert(forall|i: int| 0 <= i < bytes.len() ==> is_text_byte(#[trigger] bytes[i]));
    }
}

/// Values with different bytes are different texts.
pub proof fn law_values_stay_apart(x: Seq<u8>, y: Seq<u8>)
    requires
        value_text(x) is Some,
        value_text(x) == value_text(y),
    ensures
        x == y,
{
    law_value_is_its_bytes(x);
    law_value_is_its_bytes(y);
    let text = value_text(x)->0;
    assert forall|i: int| 0 <= i < x.len() implies x[i] == y[i] by {
        assert(text[i] as int == x[i] && text[i] as int == y[i]);
    }
    assert(x =~= y);
}

/// The text of a header is the text of the value that stands under its name in lower
/// case. Where none does, or the value is no text, there is none.
pub proof fn law_header_text(headers: Map<Seq<char>, Seq<u8>>, name: Seq<char>)
    ensures
        headers.contains_key(ascii_lower(name)) ==> header_text(headers, name) == value_text(
            headers[ascii_lower(name)],
        ),
        !headers.contains_key(ascii_lower(name)) ==> header_text(headers, name) is None,
{
}

} // verus!
