//! The headers of a client that are handed on to the upstreams.
use axum::http::{HeaderMap, HeaderValue};
use vstd::prelude::*;
use vstd::string::StringExecFns;

use crate::boundary;
use crate::boundary::header_value;
use crate::text;

verus! {

/// Whether a byte is visible ASCII, a space or a tab.
pub open spec fn visible(byte: u8) -> bool {
    32 <= byte <= 126 || byte == 9
}

/// The text of a header value, where all of it is visible.
pub open spec fn visible_text(bytes: Seq<u8>) -> Option<Seq<char>> {
    if forall|i: int| 0 <= i < bytes.len() ==> visible(#[trigger] bytes[i]) {
        Some(Seq::new(bytes.len(), |i: int| bytes[i] as char))
    } else {
        None
    }
}

/// The text of the header with the first of two names that is there.
pub open spec fn header_text(
    values: Map<Seq<char>, Seq<u8>>,
    name: Seq<char>,
    other: Seq<char>,
) -> Option<Seq<char>> {
    if values.contains_key(name) {
        visible_text(values[name])
    } else if values.contains_key(other) {
        visible_text(values[other])
    } else {
        None
    }
}

/// What a client says of itself.
#[derive(Debug, Clone)]
pub struct ClientHeaders {
    pub title: Option<String>,
    pub user_agent: Option<String>,
    pub http_referer: Option<String>,
}

/// The value of [`ClientHeaders`].
pub struct ClientHeadersView {
    pub title: Option<Seq<char>>,
    pub user_agent: Option<Seq<char>>,
    pub http_referer: Option<Seq<char>>,
}

impl View for ClientHeaders {
    type V = ClientHeadersView;

    open spec fn view(&self) -> ClientHeadersView {
        ClientHeadersView {
            title: text::text_option(self.title),
            user_agent: text::text_option(self.user_agent),
            http_referer: text::text_option(self.http_referer),
        }
    }
}

/// What a client says of itself in its headers.
pub open spec fn client_headers(values: Map<Seq<char>, Seq<u8>>) -> ClientHeadersView {
    ClientHeadersView {
        title: header_text(values, "x-title"@, "x-title"@),
        user_agent: header_text(values, "user-agent"@, "user-agent"@),
        http_referer: header_text(values, "referer"@, "http-referer"@),
    }
}

/// The headers and their values, as texts.
pub open spec fn header_pairs(headers: Seq<(String, String)>) -> Seq<(Seq<char>, Seq<char>)> {
    Seq::new(headers.len(), |i: int| (headers[i].0@, headers[i].1@))
}

/// A header, where there is a value for it.
pub open spec fn header_with(name: Seq<char>, value: Option<Seq<char>>) -> Seq<
    (Seq<char>, Seq<char>),
> {
    match value {
        Some(v) => seq![(name, v)],
        None => Seq::empty(),
    }
}

/// The headers of a request to an upstream.
pub open spec fn request_headers(client: ClientHeadersView, key: Option<Seq<char>>) -> Seq<
    (Seq<char>, Seq<char>),
> {
    header_with("X-Title"@, client.title) + header_with("user-agent"@, client.user_agent)
        + header_with("HTTP-Referer"@, client.http_referer) + authorization(key)
}

/// The header that holds the key for an upstream.
pub open spec fn authorization(key: Option<Seq<char>>) -> Seq<(Seq<char>, Seq<char>)> {
    match key {
        Some(k) => seq![("Authorization"@, "Bearer "@ + k)],
        None => Seq::empty(),
    }
}

/// The key of an upstream goes into the `Authorization` header and nowhere
/// else, and without a key there is no such header.
pub proof fn key_is_the_last_header(client: ClientHeadersView, key: Option<Seq<char>>)
    ensures
        request_headers(client, key) == request_headers(client, None) + authorization(key),
        forall|i: int|
            0 <= i < request_headers(client, None).len() ==> (#[trigger] request_headers(
                client,
                None,
            )[i]).0 != "Authorization"@,
{
    reveal_strlit("Authorization");
    reveal_strlit("X-Title");
    reveal_strlit("user-agent");
    reveal_strlit("HTTP-Referer");
    let plain = header_with("X-Title"@, client.title) + header_with(
        "user-agent"@,
        client.user_agent,
    ) + header_with("HTTP-Referer"@, client.http_referer);
    assert(plain + Seq::<(Seq<char>, Seq<char>)>::empty() == plain);
    assert("Authorization"@[0] == 'A');
    assert("X-Title"@[0] == 'X');
    assert("user-agent"@[0] == 'u');
    assert("HTTP-Referer"@[0] == 'H');
}

/// The text of a header value, where all of it is visible.
pub fn text_of_value(bytes: &Vec<u8>) -> (r: Option<String>)
    ensures
        text::text_option(r) == visible_text(bytes@),
{
    let mut r = String::new();
    let mut i: usize = 0;
    while i < bytes.len()
        invariant
            i <= bytes@.len(),
            forall|j: int| 0 <= j < i ==> visible(#[trigger] bytes@[j]),
            r@ == Seq::new(i as nat, |j: int| bytes@[j] as char),
        decreases bytes@.len() - i,
    {
        let byte: u8 = bytes[i];
        if !((32 <= byte && byte <= 126) || byte == 9) {
            assert(!visible(bytes@[i as int]));
            return None;
        }
        r.push(byte as char);
        i += 1;
    }
    Some(r)
}

impl ClientHeaders {
    fn text_under(headers: &HeaderMap<HeaderValue>, name: &str, other: &str) -> (r: Option<String>)
        requires
            text::lower(name@) == name@,
            text::lower(other@) == other@,
        ensures
            text::text_option(r) == header_text(
                boundary::header_values(*headers),
                name@,
                other@,
            ),
    {
        match header_value(headers, name) {
            Some(value) => text_of_value(&value),
            None => match header_value(headers, other) {
                Some(value) => text_of_value(&value),
                None => None,
            },
        }
    }

    /// Reads what a client says of itself.
    pub fn from_map(headers: &HeaderMap<HeaderValue>) -> (r: Self)
        ensures
            r@ == client_headers(boundary::header_values(*headers)),
    {
        proof {
            reveal_strlit("x-title");
            reveal_strlit("user-agent");
            reveal_strlit("referer");
            reveal_strlit("http-referer");
            assert(text::lower("x-title"@) == "x-title"@);
            assert(text::lower("user-agent"@) == "user-agent"@);
            assert(text::lower("referer"@) == "referer"@);
            assert(text::lower("http-referer"@) == "http-referer"@);
        }
        ClientHeaders {
            title: Self::text_under(headers, "x-title", "x-title"),
            user_agent: Self::text_under(headers, "user-agent", "user-agent"),
            http_referer: Self::text_under(headers, "referer", "http-referer"),
        }
    }

    /// How the client is named in the log: by its title, or else by its user
    /// agent.
    pub fn log_prefix(&self) -> (r: Option<&str>)
        ensures
            match r {
                Some(prefix) => Some(prefix@),
                None => None,
            } == crate::routing::first_text(self@.title, self@.user_agent),
    {
        match &self.title {
            Some(title) => Some(title.as_str()),
            None => match &self.user_agent {
                Some(agent) => Some(agent.as_str()),
                None => None,
            },
        }
    }

    /// The headers of a request to an upstream that takes the given key.
    pub fn request_headers(&self, key: &Option<String>) -> (r: Vec<(String, String)>)
        ensures
            header_pairs(r@) == request_headers(self@, text::text_option(*key)),
    {
        let mut r: Vec<(String, String)> = Vec::new();
        assert(header_pairs(r@) == Seq::<(Seq<char>, Seq<char>)>::empty());
        push_header(&mut r, "X-Title", &self.title);
        push_header(&mut r, "user-agent", &self.user_agent);
        push_header(&mut r, "HTTP-Referer", &self.http_referer);
        assert(header_pairs(r@) + authorization(None) == header_pairs(r@));
        push_authorization(&mut r, key);
        r
    }
}

fn push_header(headers: &mut Vec<(String, String)>, name: &str, value: &Option<String>)
    ensures
        header_pairs(final(headers)@) == header_pairs(old(headers)@) + header_with(
            name@,
            text::text_option(*value),
        ),
{
    let ghost start = header_pairs(headers@);
    if let Some(v) = value {
        headers.push((name.to_owned(), v.clone()));
        assert(header_pairs(headers@) == start + seq![(name@, v@)]);
    } else {
        assert(start + Seq::<(Seq<char>, Seq<char>)>::empty() == start);
    }
}

/// Adds the header that holds the key for an upstream.
pub fn push_authorization(headers: &mut Vec<(String, String)>, key: &Option<String>)
    ensures
        header_pairs(final(headers)@) == header_pairs(old(headers)@) + authorization(
            text::text_option(*key),
        ),
{
    let ghost start = header_pairs(headers@);
    if let Some(k) = key {
        headers.push(("Authorization".to_owned(), "Bearer ".to_owned().concat(k)));
        assert(header_pairs(headers@) == start + seq![("Authorization"@, "Bearer "@ + k@)]);
    } else {
        assert(start + Seq::<(Seq<char>, Seq<char>)>::empty() == start);
    }
}

} // verus!
