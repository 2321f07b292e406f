//! Laws of base URLs and their endpoints.
use vstd::prelude::*;

use crate::boundary;
use crate::boundary::{ParsedUrl, ParsedUrlView};
use crate::endpoint;
use crate::endpoint::{BaseUrl, BaseUrlView, UrlErrorView};
use crate::laws::text as texts;
use crate::text;

verus! {

/// Segments that are not empty are those that are left, in their order.
pub proof fn filled_segments_are_left(a: Seq<Seq<char>>, b: Seq<Seq<char>>, part: Seq<char>)
    ensures
        endpoint::filled(a + b) == endpoint::filled(a) + endpoint::filled(b),
        part.len() > 0 ==> endpoint::filled(seq![part]) == seq![part],
        part.len() == 0 ==> endpoint::filled(seq![part]).len() == 0,
    decreases b.len(),
{
    let none = Seq::<Seq<char>>::empty();
    assert(seq![part].drop_last() == none);
    assert(endpoint::filled(none) == none);
    assert(none.push(part) == seq![part]);
    if b.len() == 0 {
        assert(a + b == a);
        assert(endpoint::filled(a) + none == endpoint::filled(a));
    } else {
        filled_segments_are_left(a, b.drop_last(), part);
        assert((a + b).drop_last() == a + b.drop_last());
        assert((a + b).last() == b.last());
        let x = endpoint::filled(a);
        let y = endpoint::filled(b.drop_last());
        assert(x + y.push(b.last()) == (x + y).push(b.last()));
    }
}

/// A URL that is parsed is accepted if and only if its scheme is `http` or
/// `https` and it has neither a query nor a fragment. Its text loses the slashes
/// at its end, and its segments those that are empty.
pub proof fn parsed_urls_are_accepted(address: Seq<char>, url: ParsedUrlView)
    ensures
        ({
            let result = endpoint::accepted_url(address, Ok(url));
            let web = url.scheme == seq!['h', 't', 't', 'p'] || url.scheme == seq![
                'h',
                't',
                't',
                'p',
                's',
            ];
            &&& !web ==> result == Err::<BaseUrlView, UrlErrorView>(UrlErrorView::Scheme)
            &&& web && (url.query is Some || url.fragment is Some) ==> result == Err::<
                BaseUrlView,
                UrlErrorView,
            >(UrlErrorView::QueryOrFragment)
            &&& web && url.query is None && url.fragment is None ==> result is Ok && (
            result->Ok_0).text == text::trim_end_char(address, '/')
            &&& web && url.query is None && url.fragment is None && url.path_segments is None ==> (
            result->Ok_0).segments.len() == 0
            &&& web && url.query is None && url.fragment is None && url.path_segments is Some ==> (
            result->Ok_0).segments == endpoint::filled(url.path_segments->0)
        }),
{
    reveal_strlit("http");
    reveal_strlit("https");
    assert("http"@ == seq!['h', 't', 't', 'p']);
    assert("https"@ == seq!['h', 't', 't', 'p', 's']);
}

/// A text that is no URL is refused with what the parser says of it, and a blank
/// one before it is parsed.
pub proof fn what_is_no_url_is_refused(raw: Seq<char>, reason: Seq<char>)
    ensures
        text::trim(raw).len() == 0 ==> endpoint::base_url(raw) == Err::<BaseUrlView, UrlErrorView>(
            UrlErrorView::Empty,
        ),
        endpoint::accepted_url(raw, Err(reason)) == Err::<BaseUrlView, UrlErrorView>(
            UrlErrorView::Invalid(reason),
        ),
        text::trim(raw).len() > 0 ==> endpoint::base_url(raw) == endpoint::accepted_url(
            text::trim(raw),
            boundary::parsed_url(text::trim(raw)),
        ),
{
}

/// Whether a text is `chat`.
pub open spec fn says_chat(s: Seq<char>) -> bool {
    s == seq!['c', 'h', 'a', 't']
}

/// Whether a text is `completions`.
pub open spec fn says_completions(s: Seq<char>) -> bool {
    s == seq!['c', 'o', 'm', 'p', 'l', 'e', 't', 'i', 'o', 'n', 's']
}

/// Whether a text is a `v`, small or capital, and one or more digits.
pub open spec fn says_version(s: Seq<char>) -> bool {
    &&& s.len() >= 2
    &&& s[0] == 'v' || s[0] == 'V'
    &&& forall|i: int| 1 <= i < s.len() ==> 48 <= (#[trigger] s[i]) as int <= 57
}

proof fn lemma_version(s: Seq<char>)
    ensures
        endpoint::version_segment(s) <==> says_version(s),
{
    if endpoint::version_segment(s) {
        assert forall|i: int| 1 <= i < s.len() implies 48 <= (#[trigger] s[i]) as int <= 57 by {
            assert('0' <= s[i] <= '9');
        }
    }
    if says_version(s) {
        assert forall|i: int| 1 <= i < s.len() implies '0' <= #[trigger] s[i] <= '9' by {
            assert(48 <= s[i] as int <= 57);
        }
    }
}

proof fn lemma_words()
    ensures
        says_chat("chat"@),
        says_completions("completions"@),
{
    reveal_strlit("chat");
    reveal_strlit("completions");
    assert("chat"@ == seq!['c', 'h', 'a', 't']);
    assert("completions"@ == seq!['c', 'o', 'm', 'p', 'l', 'e', 't', 'i', 'o', 'n', 's']);
}

/// The path of a base URL decides its endpoints: one that ends in
/// `chat/completions` is the chat endpoint itself; one that ends in one half of
/// that is refused; below a version the endpoints follow directly; and below
/// anything else they follow a `v1`.
pub proof fn paths_decide_the_endpoints(base: BaseUrlView)
    ensures
        ({
            let n = base.segments.len() as int;
            let last = base.segments[n - 1];
            let full = n >= 2 && says_chat(base.segments[n - 2]) && says_completions(last);
            let half = n >= 1 && !full && (says_chat(last) || says_completions(last));
            let versioned = n >= 1 && !full && !half && says_version(last);
            let chat = endpoint::chat_url_below(base);
            let models = endpoint::models_url_below(base);
            &&& full ==> chat == Ok::<Seq<char>, UrlErrorView>(base.text)
            &&& half ==> chat == Err::<Seq<char>, UrlErrorView>(UrlErrorView::PartialPath) && models
                == Err::<Seq<char>, UrlErrorView>(UrlErrorView::PartialPath)
            &&& versioned ==> chat == Ok::<Seq<char>, UrlErrorView>(
                base.text + "/chat/completions"@,
            ) && models == Ok::<Seq<char>, UrlErrorView>(base.text + "/models"@)
            &&& !full && !half && !versioned ==> chat == Ok::<Seq<char>, UrlErrorView>(
                base.text + "/v1/chat/completions"@,
            ) && models == Ok::<Seq<char>, UrlErrorView>(base.text + "/v1/models"@)
        }),
{
    lemma_words();
    if base.segments.len() > 0 {
        lemma_version(base.segments.last());
    }
}

/// The models endpoint of a full chat endpoint is beside it: `root/models` for
/// `root/chat/completions`.
pub proof fn models_are_beside_the_chat_endpoint(root: Seq<char>, segments: Seq<Seq<char>>)
    requires
        segments.len() >= 2,
        says_chat(segments[segments.len() - 2]),
        says_completions(segments[segments.len() - 1]),
        root.len() > 0,
        root.last() != '/',
        forall|a: Seq<char>| #[trigger] (a + "/chat/completions"@) != root,
    ensures
        endpoint::models_url_below(BaseUrlView { text: root + "/chat/completions"@, segments })
            == Ok::<Seq<char>, UrlErrorView>(root + "/models"@),
{
    lemma_words();
    reveal_strlit("/chat/completions");
    texts::repetitions_of_a_suffix_go(root, "/chat/completions"@);
}

/// A base URL has the endpoints below what is left of it when it is accepted,
/// and is refused where that is.
pub proof fn endpoints_are_below_the_base_url(raw: Seq<char>)
    ensures
        endpoint::base_url(raw) matches Ok(base) ==> endpoint::chat_url(raw)
            == endpoint::chat_url_below(base) && endpoint::models_url(raw)
            == endpoint::models_url_below(base),
        endpoint::base_url(raw) matches Err(error) ==> endpoint::chat_url(raw) == Err::<
            Seq<char>,
            UrlErrorView,
        >(error) && endpoint::models_url(raw) == Err::<Seq<char>, UrlErrorView>(error),
{
}

/// The values of URLs hold every field of them.
pub proof fn url_value_holds_every_field(url: ParsedUrl, base: BaseUrl)
    ensures
        url@.scheme == url.scheme@,
        url.query is None <==> url@.query is None,
        url.query is Some ==> url@.query->0 == url.query->0@,
        url.fragment is None <==> url@.fragment is None,
        url.fragment is Some ==> url@.fragment->0 == url.fragment->0@,
        url.path_segments is None <==> url@.path_segments is None,
        url.path_segments is Some ==> url@.path_segments->0 == text::texts(url.path_segments->0@),
        base@.text == base.text@,
        base@.segments == text::texts(base.segments@),
{
}

} // verus!
