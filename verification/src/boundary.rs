//! The calls that leave the library.
use axum::http::{HeaderMap, HeaderValue};
use reqwest::{StatusCode, Url};
use vstd::prelude::*;

use crate::number;
use crate::text;

verus! {

/// `String::push` appends the given character to the end of the string.
pub assume_specification[ String::push ](s: &mut String, c: char)
    ensures
        final(s)@ == old(s)@.push(c),
;

/// The parts of a parsed URL that the library reads.
#[derive(Debug, Clone)]
pub struct ParsedUrl {
    pub scheme: String,
    pub query: Option<String>,
    pub fragment: Option<String>,
    pub path_segments: Option<Vec<String>>,
}

/// The texts of a [`ParsedUrl`].
pub struct ParsedUrlView {
    pub scheme: Seq<char>,
    pub query: Option<Seq<char>>,
    pub fragment: Option<Seq<char>>,
    pub path_segments: Option<Seq<Seq<char>>>,
}

impl View for ParsedUrl {
    type V = ParsedUrlView;

    open spec fn view(&self) -> ParsedUrlView {
        ParsedUrlView {
            scheme: self.scheme@,
            query: text::text_option(self.query),
            fragment: text::text_option(self.fragment),
            path_segments: match self.path_segments {
                Some(segments) => Some(text::texts(segments@)),
                None => None,
            },
        }
    }
}

/// What the result of a URL parse holds: the parts of the URL, or the message
/// of the parse error.
pub open spec fn url_result(r: Result<ParsedUrl, String>) -> Result<ParsedUrlView, Seq<char>> {
    match r {
        Ok(url) => Ok(url@),
        Err(message) => Err(message@),
    }
}

/// What `Url::parse` makes of a text.
pub uninterp spec fn parsed_url(text: Seq<char>) -> Result<ParsedUrlView, Seq<char>>;

/// Calls `Url::parse` and reads the scheme, the query, the fragment and the
/// path segments of the URL, or the message of the error. Nothing is claimed of
/// the outcome but that it depends on the text alone.
#[verifier::external_body]
pub(crate) fn parse_url(text: &str) -> (r: Result<ParsedUrl, String>)
    ensures
        url_result(r) == parsed_url(text@),
{
    match Url::parse(text) {
        Ok(url) => Ok(ParsedUrl {
            scheme: url.scheme().to_string(),
            query: url.query().map(str::to_string),
            fragment: url.fragment().map(str::to_string),
            path_segments: url.path_segments().map(|s| s.map(str::to_string).collect()),
        }),
        Err(err) => Err(err.to_string()),
    }
}

/// What `StatusCode` prints for a status code, where it is one.
pub uninterp spec fn status_line(code: u16) -> Option<Seq<char>>;

/// Calls `StatusCode::from_u16` and prints the status. The numbers from 100 to
/// 999 are status codes, and the text starts with the number and a space. The
/// reason phrase that follows depends on the number alone.
#[verifier::external_body]
pub(crate) fn print_status(code: u16) -> (r: Option<String>)
    ensures
        text::text_option(r) == status_line(code),
        r is Some <==> 100 <= code <= 999,
        r matches Some(line) ==> text::starts_with(
            line@,
            number::decimal(code as nat) + seq![' '],
        ),
{
    StatusCode::from_u16(code).ok().map(|status| status.to_string())
}

/// What `String::from_utf8_lossy` makes of bytes.
pub uninterp spec fn lossy_text(bytes: Seq<u8>) -> Seq<char>;

/// Calls `String::from_utf8_lossy`. Bytes that are UTF-8 are decoded; of others
/// nothing is claimed but that the text depends on the bytes alone.
#[verifier::external_body]
pub(crate) fn decode_lossy(bytes: &[u8]) -> (r: String)
    ensures
        r@ == lossy_text(bytes@),
        vstd::utf8::valid_utf8(bytes@) ==> r@ == vstd::utf8::decode_utf8(bytes@),
{
    String::from_utf8_lossy(bytes).into_owned()
}

/// `HeaderValue`, of which the library sees nothing.
#[verifier::external_type_specification]
#[verifier::external_body]
pub struct ExHeaderValue(HeaderValue);

/// `HeaderMap`, whose contents are named by [`header_values`].
#[verifier::external_type_specification]
#[verifier::external_body]
#[verifier::reject_recursive_types(T)]
pub struct ExHeaderMap<T>(HeaderMap<T>);

/// The headers in a map: the bytes of the first value under each name, the
/// names in lower case.
pub uninterp spec fn header_values(headers: HeaderMap<HeaderValue>) -> Map<Seq<char>, Seq<u8>>;

/// Calls `HeaderMap::get` and copies the bytes of the value. The case of ASCII
/// letters in the name makes no difference; a text that is no name of a header
/// leads to nothing.
#[verifier::external_body]
pub(crate) fn header_value(headers: &HeaderMap<HeaderValue>, name: &str) -> (r: Option<Vec<u8>>)
    ensures
        match r {
            Some(value) => header_values(*headers).contains_key(text::lower(name@))
                && header_values(*headers)[text::lower(name@)] == value@,
            None => !header_values(*headers).contains_key(text::lower(name@)),
        },
{
    headers.get(name).map(|value| value.as_bytes().to_vec())
}

} // verus!
