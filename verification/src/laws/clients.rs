//! Laws of what clients say of themselves.
use vstd::prelude::*;

use crate::headers;
use crate::headers::{ClientHeaders, ClientHeadersView};
use crate::identity;
use crate::identity::SystemPrompt;
use crate::laws::text as texts;
use crate::text;

verus! {

/// Whether a byte may stand in the text of a header: a tab, or from the space to
/// the tilde.
pub open spec fn printable(byte: u8) -> bool {
    byte == 9 || 32 <= byte <= 126
}

/// The text of a header is its bytes as characters, where all of them are
/// printable, and nothing otherwise.
pub proof fn header_text_is_its_bytes(bytes: Seq<u8>)
    ensures
        (forall|i: int| 0 <= i < bytes.len() ==> printable(#[trigger] bytes[i])) ==> {
            &&& headers::visible_text(bytes) is Some
            &&& headers::visible_text(bytes)->0.len() == bytes.len()
            &&& forall|i: int|
                0 <= i < bytes.len() ==> (#[trigger] headers::visible_text(bytes)->0[i]) as int
                    == bytes[i]
        },
        (exists|i: int| 0 <= i < bytes.len() && !printable(#[trigger] bytes[i]))
            ==> headers::visible_text(bytes) is None,
{
    if forall|i: int| 0 <= i < bytes.len() ==> printable(#[trigger] bytes[i]) {
        assert forall|i: int| 0 <= i < bytes.len() implies headers::visible(
            #[trigger] bytes[i],
        ) by {
            assert(printable(bytes[i]));
        }
    }
    if exists|i: int| 0 <= i < bytes.len() && !printable(#[trigger] bytes[i]) {
        let i = choose|i: int| 0 <= i < bytes.len() && !printable(#[trigger] bytes[i]);
        assert(!headers::visible(bytes[i]));
    }
}

/// A client is described by its headers: the title and the user agent by one
/// each, and the referer by `referer`, or by `http-referer` where there is no
/// such header at all.
pub proof fn headers_describe_the_client(values: Map<Seq<char>, Seq<u8>>)
    ensures
        ({
            let client = headers::client_headers(values);
            &&& values.contains_key("x-title"@) ==> client.title == headers::visible_text(
                values["x-title"@],
            )
            &&& !values.contains_key("x-title"@) ==> client.title is None
            &&& values.contains_key("user-agent"@) ==> client.user_agent == headers::visible_text(
                values["user-agent"@],
            )
            &&& !values.contains_key("user-agent"@) ==> client.user_agent is None
            &&& values.contains_key("referer"@) ==> client.http_referer == headers::visible_text(
                values["referer"@],
            )
            &&& !values.contains_key("referer"@) && values.contains_key("http-referer"@)
                ==> client.http_referer == headers::visible_text(values["http-referer"@])
            &&& !values.contains_key("referer"@) && !values.contains_key("http-referer"@)
                ==> client.http_referer is None
        }),
{
}

/// A request carries a header for each thing that the client says of itself and
/// one for the key, with these values, and no other header.
pub proof fn requests_carry_what_the_client_says(
    client: ClientHeadersView,
    key: Option<Seq<char>>,
    name: Seq<char>,
    value: Seq<char>,
)
    ensures
        headers::request_headers(client, key).contains((name, value)) <==> {
            ||| name == "X-Title"@ && client.title == Some(value)
            ||| name == "user-agent"@ && client.user_agent == Some(value)
            ||| name == "HTTP-Referer"@ && client.http_referer == Some(value)
            ||| name == "Authorization"@ && key is Some && value == "Bearer "@ + key->0
        },
        headers::request_headers(client, key).len() == (if client.title is Some {
            1int
        } else {
            0
        }) + (if client.user_agent is Some {
            1int
        } else {
            0
        }) + (if client.http_referer is Some {
            1int
        } else {
            0
        }) + (if key is Some {
            1int
        } else {
            0
        }),
{
    let a = headers::header_with("X-Title"@, client.title);
    let b = headers::header_with("user-agent"@, client.user_agent);
    let c = headers::header_with("HTTP-Referer"@, client.http_referer);
    let d = headers::authorization(key);
    let x = (name, value);
    lemma_in_both(a, b, x);
    lemma_in_both(a + b, c, x);
    lemma_in_both(a + b + c, d, x);
    lemma_in_one("X-Title"@, client.title, x);
    lemma_in_one("user-agent"@, client.user_agent, x);
    lemma_in_one("HTTP-Referer"@, client.http_referer, x);
    if let Some(k) = key {
        assert(d[0] == ("Authorization"@, "Bearer "@ + k));
    }
}

proof fn lemma_in_both(
    a: Seq<(Seq<char>, Seq<char>)>,
    b: Seq<(Seq<char>, Seq<char>)>,
    x: (Seq<char>, Seq<char>),
)
    ensures
        (a + b).contains(x) <==> a.contains(x) || b.contains(x),
{
    if a.contains(x) {
        assert((a + b)[a.index_of(x)] == x);
    }
    if b.contains(x) {
        assert((a + b)[a.len() + b.index_of(x)] == x);
    }
    if (a + b).contains(x) {
        let i = (a + b).index_of(x);
        if i < a.len() {
            assert(a[i] == x);
        } else {
            assert(b[i - a.len()] == x);
        }
    }
}

proof fn lemma_in_one(name: Seq<char>, value: Option<Seq<char>>, x: (Seq<char>, Seq<char>))
    ensures
        headers::header_with(name, value).contains(x) <==> x.0 == name && value == Some(x.1),
{
    if let Some(v) = value {
        assert(headers::header_with(name, value)[0] == (name, v));
        if x.0 == name && value == Some(x.1) {
            assert(x == (name, v));
        }
    }
}

/// The values of headers are those of each, in their order.
pub proof fn values_of_headers(pairs: Seq<(String, String)>, client: ClientHeaders)
    ensures
        headers::header_pairs(pairs).len() == pairs.len(),
        forall|i: int|
            0 <= i < pairs.len() ==> #[trigger] headers::header_pairs(pairs)[i] == (
                pairs[i].0@,
                pairs[i].1@,
            ),
        client.title is None <==> client@.title is None,
        client.title is Some ==> client@.title->0 == client.title->0@,
        client.user_agent is None <==> client@.user_agent is None,
        client.user_agent is Some ==> client@.user_agent->0 == client.user_agent->0@,
        client.http_referer is None <==> client@.http_referer is None,
        client.http_referer is Some ==> client@.http_referer->0 == client.http_referer->0@,
{
}

/// A text names its client if and only if, white space aside, it starts with the
/// mark; it names it by what follows the mark, white space aside.
pub proof fn marked_texts_name_the_client(content: Seq<char>, value: Seq<char>)
    ensures
        text::trim(content) == "x-anthropic-billing-header:"@ + value ==> identity::billing_value(
            content,
        ) == Some(text::trim(value)),
        (forall|v: Seq<char>|
            #[trigger] ("x-anthropic-billing-header:"@ + v) != text::trim(content))
            ==> identity::billing_value(content) is None,
{
    let mark = "x-anthropic-billing-header:"@;
    texts::prefix_and_rest_are_the_text(value, mark);
    texts::prefix_and_rest_are_the_text(text::trim(content), mark);
    if text::strip_prefix(text::trim(content), mark) is Some {
        let rest = text::strip_prefix(text::trim(content), mark)->0;
        assert(mark + rest == text::trim(content));
    }
}

/// The first text of a prompt that names the client decides; where none does,
/// the client is not named.
pub proof fn first_marked_text_decides(contents: Seq<Seq<char>>, n: int)
    requires
        0 <= n <= contents.len(),
        forall|i: int|
            0 <= i < n ==> identity::billing_value(#[trigger] contents[i]) is None,
        n < contents.len() ==> identity::billing_value(contents[n]) is Some,
    ensures
        n < contents.len() ==> identity::first_billing_value(contents) == identity::billing_value(
            contents[n],
        ),
        n == contents.len() ==> identity::first_billing_value(contents) is None,
{
    identity::lemma_first_value(contents, n);
}

/// The texts of a prompt are its one text, or those of its messages in their
/// order; a request without a prompt names nobody.
pub proof fn prompts_hold_texts(prompt: SystemPrompt)
    ensures
        identity::client_identity(None) is None,
        identity::client_identity(Some(prompt)) == identity::first_billing_value(
            identity::prompt_texts(prompt),
        ),
        match prompt {
            SystemPrompt::Single(content) => identity::prompt_texts(prompt).len() == 1
                && identity::prompt_texts(prompt)[0] == content@,
            SystemPrompt::Multiple(messages) => identity::prompt_texts(prompt).len()
                == messages@.len() && forall|i: int|
                0 <= i < messages@.len() ==> #[trigger] identity::prompt_texts(prompt)[i]
                    == messages@[i].text@,
        },
{
}

} // verus!
