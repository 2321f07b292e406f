//! From the base URL of an upstream to the endpoints below it.
use vstd::prelude::*;
use vstd::string::StringExecFns;

use crate::boundary;
use crate::boundary::{parse_url, ParsedUrl, ParsedUrlView};
use crate::config::Config;
use crate::text;
use crate::text::{chars_of, same_text, trimmed, trimmed_end_char, trimmed_end_text};

verus! {

/// Why a base URL is refused.
#[derive(Debug, Clone)]
pub enum UrlError {
    /// There is no URL.
    Empty,
    /// The text is no URL; holds what the parser says of it.
    Invalid(String),
    /// The scheme is neither `http` nor `https`.
    Scheme,
    /// The URL has a query or a fragment.
    QueryOrFragment,
    /// The path ends in one half of `chat/completions`.
    PartialPath,
}

/// The value of a [`UrlError`].
pub enum UrlErrorView {
    Empty,
    Invalid(Seq<char>),
    Scheme,
    QueryOrFragment,
    PartialPath,
}

impl View for UrlError {
    type V = UrlErrorView;

    open spec fn view(&self) -> UrlErrorView {
        match self {
            UrlError::Empty => UrlErrorView::Empty,
            UrlError::Invalid(reason) => UrlErrorView::Invalid(reason@),
            UrlError::Scheme => UrlErrorView::Scheme,
            UrlError::QueryOrFragment => UrlErrorView::QueryOrFragment,
            UrlError::PartialPath => UrlErrorView::PartialPath,
        }
    }
}

impl UrlErrorView {
    /// What is said of the error.
    pub open spec fn message(self) -> Seq<char> {
        match self {
            UrlErrorView::Empty => "UPSTREAM_BASE_URL must not be empty"@,
            UrlErrorView::Invalid(
                reason,
            ) => "UPSTREAM_BASE_URL must be a valid http(s) URL: "@ + reason,
            UrlErrorView::Scheme => "UPSTREAM_BASE_URL must use http or https"@,
            UrlErrorView::QueryOrFragment =>
                "UPSTREAM_BASE_URL must not include query parameters or fragments"@,
            UrlErrorView::PartialPath =>
                "UPSTREAM_BASE_URL must be either a service base URL, a versioned base URL like https://gateway.example.com/v2, or the full .../chat/completions endpoint"@,
        }
    }
}

impl UrlError {
    /// What is said of the error.
    pub fn message(&self) -> (r: String)
        ensures
            r@ == self@.message(),
    {
        match self {
            UrlError::Empty => "UPSTREAM_BASE_URL must not be empty".to_owned(),
            UrlError::Invalid(
                reason,
            ) => "UPSTREAM_BASE_URL must be a valid http(s) URL: ".to_owned().concat(reason),
            UrlError::Scheme => "UPSTREAM_BASE_URL must use http or https".to_owned(),
            UrlError::QueryOrFragment =>
                "UPSTREAM_BASE_URL must not include query parameters or fragments".to_owned(),
            UrlError::PartialPath =>
                "UPSTREAM_BASE_URL must be either a service base URL, a versioned base URL like https://gateway.example.com/v2, or the full .../chat/completions endpoint".to_owned(),
        }
    }
}

/// An accepted base URL: its text without slashes at the end, and the segments
/// of its path that are not empty.
#[derive(Debug, Clone)]
pub struct BaseUrl {
    pub text: String,
    pub segments: Vec<String>,
}

/// The value of a [`BaseUrl`].
pub struct BaseUrlView {
    pub text: Seq<char>,
    pub segments: Seq<Seq<char>>,
}

impl View for BaseUrl {
    type V = BaseUrlView;

    open spec fn view(&self) -> BaseUrlView {
        BaseUrlView { text: self.text@, segments: text::texts(self.segments@) }
    }
}

/// The parts that are not empty.
pub open spec fn filled(parts: Seq<Seq<char>>) -> Seq<Seq<char>>
    decreases parts.len(),
{
    if parts.len() == 0 {
        Seq::empty()
    } else if parts.last().len() == 0 {
        filled(parts.drop_last())
    } else {
        filled(parts.drop_last()).push(parts.last())
    }
}

/// The segments of the path of a parsed URL that are not empty.
pub open spec fn path_of(url: ParsedUrlView) -> Seq<Seq<char>> {
    match url.path_segments {
        Some(segments) => filled(segments),
        None => Seq::empty(),
    }
}

/// What becomes of a trimmed URL text that was parsed.
pub open spec fn accepted_url(
    text: Seq<char>,
    parsed: Result<ParsedUrlView, Seq<char>>,
) -> Result<BaseUrlView, UrlErrorView> {
    match parsed {
        Err(reason) => Err(UrlErrorView::Invalid(reason)),
        Ok(url) => if url.scheme != "http"@ && url.scheme != "https"@ {
            Err(UrlErrorView::Scheme)
        } else if url.query is Some || url.fragment is Some {
            Err(UrlErrorView::QueryOrFragment)
        } else {
            Ok(
                BaseUrlView {
                    text: text::trim_end_char(text, '/'),
                    segments: path_of(url),
                },
            )
        },
    }
}

/// What becomes of a base URL as it was written.
pub open spec fn base_url(raw: Seq<char>) -> Result<BaseUrlView, UrlErrorView> {
    let text = text::trim(raw);
    if text.len() == 0 {
        Err(UrlErrorView::Empty)
    } else {
        accepted_url(text, boundary::parsed_url(text))
    }
}

/// Whether a path ends in `chat/completions`.
pub open spec fn chat_completions_path(segments: Seq<Seq<char>>) -> bool {
    let n = segments.len();
    n >= 2 && segments[n - 2] == "chat"@ && segments[n - 1] == "completions"@
}

/// Whether a segment is a version: a `v`, in either case, and digits.
pub open spec fn version_segment(segment: Seq<char>) -> bool {
    &&& segment.len() >= 2
    &&& segment[0] == 'v' || segment[0] == 'V'
    &&& forall|i: int| 1 <= i < segment.len() ==> '0' <= #[trigger] segment[i] <= '9'
}

/// Whether a path ends in one half of `chat/completions`.
pub open spec fn partial_path(segments: Seq<Seq<char>>) -> bool {
    segments.len() > 0 && (segments.last() == "chat"@ || segments.last() == "completions"@)
}

/// Whether a path ends in a version.
pub open spec fn versioned_path(segments: Seq<Seq<char>>) -> bool {
    segments.len() > 0 && version_segment(segments.last())
}

/// The chat completions endpoint below an accepted base URL.
pub open spec fn chat_url_below(base: BaseUrlView) -> Result<Seq<char>, UrlErrorView> {
    if chat_completions_path(base.segments) {
        Ok(base.text)
    } else if partial_path(base.segments) {
        Err(UrlErrorView::PartialPath)
    } else if versioned_path(base.segments) {
        Ok(base.text + "/chat/completions"@)
    } else {
        Ok(base.text + "/v1/chat/completions"@)
    }
}

/// The models endpoint below an accepted base URL.
pub open spec fn models_url_below(base: BaseUrlView) -> Result<Seq<char>, UrlErrorView> {
    if chat_completions_path(base.segments) {
        let root = text::trim_end_text(base.text, "/chat/completions"@);
        Ok(text::trim_end_char(root, '/') + "/models"@)
    } else if partial_path(base.segments) {
        Err(UrlErrorView::PartialPath)
    } else if versioned_path(base.segments) {
        Ok(base.text + "/models"@)
    } else {
        Ok(base.text + "/v1/models"@)
    }
}

/// The chat completions endpoint for a base URL as it was written.
pub open spec fn chat_url(raw: Seq<char>) -> Result<Seq<char>, UrlErrorView> {
    match base_url(raw) {
        Ok(base) => chat_url_below(base),
        Err(error) => Err(error),
    }
}

/// The models endpoint for a base URL as it was written.
pub open spec fn models_url(raw: Seq<char>) -> Result<Seq<char>, UrlErrorView> {
    match base_url(raw) {
        Ok(base) => models_url_below(base),
        Err(error) => Err(error),
    }
}

/// The value of a result that holds a text.
pub open spec fn url_outcome(r: Result<String, UrlError>) -> Result<Seq<char>, UrlErrorView> {
    match r {
        Ok(url) => Ok(url@),
        Err(error) => Err(error@),
    }
}

/// The value of a result that holds a base URL.
pub open spec fn base_outcome(r: Result<BaseUrl, UrlError>) -> Result<BaseUrlView, UrlErrorView> {
    match r {
        Ok(base) => Ok(base@),
        Err(error) => Err(error@),
    }
}

/// A base URL has a chat completions endpoint if and only if it has a models
/// endpoint, and where it has neither both are refused alike.
pub proof fn endpoints_agree(raw: Seq<char>)
    ensures
        chat_url(raw) is Ok <==> models_url(raw) is Ok,
        chat_url(raw) is Err ==> chat_url(raw)->Err_0 == models_url(raw)->Err_0,
{
}

/// Whether a parsed URL is a chat completions endpoint: an `http` or `https` URL
/// without a query or a fragment, whose path ends in `chat/completions`.
pub open spec fn full_endpoint(parsed: Result<ParsedUrlView, Seq<char>>) -> bool {
    &&& parsed matches Ok(url)
    &&& url.scheme == "http"@ || url.scheme == "https"@
    &&& url.query is None
    &&& url.fragment is None
    &&& chat_completions_path(path_of(url))
}

/// Whether two URLs are parsed alike, empty segments of the path aside.
pub open spec fn parsed_alike(
    a: Result<ParsedUrlView, Seq<char>>,
    b: Result<ParsedUrlView, Seq<char>>,
) -> bool {
    match (a, b) {
        (Ok(x), Ok(y)) => x.scheme == y.scheme && x.query == y.query && x.fragment == y.fragment
            && path_of(x) == path_of(y),
        (Err(x), Err(y)) => x == y,
        _ => false,
    }
}

proof fn lemma_trim_end_char(s: Seq<char>, c: char)
    ensures
        text::trim_end_char(text::trim_end_char(s, c), c) == text::trim_end_char(s, c),
    decreases s.len(),
{
    if s.len() > 0 && s.last() == c {
        lemma_trim_end_char(s.drop_last(), c);
    }
}

/// Where the endpoint of a base URL is not the base URL itself, it is what
/// `root` says and `/chat/completions`, and the models endpoint is the same
/// and `/models`.
proof fn lemma_root(base: BaseUrlView) -> (root: Seq<char>)
    requires
        chat_url_below(base) is Ok,
        !chat_completions_path(base.segments),
        text::trim_end_char(base.text, '/') == base.text,
    ensures
        chat_url_below(base)->Ok_0 == root + "/chat/completions"@,
        models_url_below(base) == Ok::<Seq<char>, UrlErrorView>(root + "/models"@),
        text::trim_end_char(root, '/') == root,
        root == base.text || !text::ends_with(root, "/chat/completions"@),
{
    let suffix = "/chat/completions"@;
    reveal_strlit("/chat/completions");
    reveal_strlit("/v1/chat/completions");
    reveal_strlit("/v1/models");
    reveal_strlit("/models");
    if versioned_path(base.segments) {
        base.text
    } else {
        let version = seq!['/', 'v', '1'];
        let root = base.text + version;
        assert("/v1/chat/completions"@ == version + suffix);
        assert("/v1/models"@ == version + "/models"@);
        assert(base.text + "/v1/chat/completions"@ == root + suffix);
        assert(base.text + "/v1/models"@ == root + "/models"@);
        assert(root.last() == '1');
        assert(!text::ends_with(root, suffix)) by {
            if text::ends_with(root, suffix) {
                let tail = root.skip(root.len() - suffix.len());
                assert(tail[suffix.len() - 1] == root[root.len() - 1]);
                assert(suffix[suffix.len() - 1] == 's');
            }
        }
        root
    }
}

proof fn lemma_base_of_endpoint(raw: Seq<char>)
    requires
        chat_url(raw) is Ok,
        ({
            let url = chat_url(raw)->Ok_0;
            &&& url.len() > 0
            &&& text::trim(url) == url
            &&& full_endpoint(boundary::parsed_url(url))
        }),
    ensures
        ({
            let url = chat_url(raw)->Ok_0;
            &&& base_url(url) is Ok
            &&& (base_url(url)->Ok_0).text == url
            &&& chat_completions_path((base_url(url)->Ok_0).segments)
        }),
{
    let url = chat_url(raw)->Ok_0;
    let base = base_url(raw)->Ok_0;
    lemma_trim_end_char(text::trim(raw), '/');
    assert(text::trim_end_char(url, '/') == url) by {
        if !chat_completions_path(base.segments) {
            let root = lemma_root(base);
            reveal_strlit("/chat/completions");
            assert(url.last() == "/chat/completions"@.last());
            assert(url.last() == 's');
        }
    }
}

/// The endpoint of a base URL is used as it is where it is given as a base URL
/// itself, and where it is parsed as the endpoint that it is. White space that
/// the base URL has before slashes at its end is at the end of the endpoint,
/// which would then be trimmed.
pub proof fn full_endpoint_is_used_as_it_is(raw: Seq<char>)
    requires
        chat_url(raw) is Ok,
        ({
            let url = chat_url(raw)->Ok_0;
            &&& url.len() > 0
            &&& text::trim(url) == url
            &&& full_endpoint(boundary::parsed_url(url))
        }),
    ensures
        chat_url(chat_url(raw)->Ok_0) == chat_url(raw),
{
    lemma_base_of_endpoint(raw);
}

/// A base URL and its chat completions endpoint lead to the same models
/// endpoint, where the endpoint is parsed as the endpoint that it is. A base
/// URL whose text ends in `/chat/completions` has a path that does.
pub proof fn full_endpoint_has_the_same_models(raw: Seq<char>)
    requires
        chat_url(raw) is Ok,
        ({
            let url = chat_url(raw)->Ok_0;
            &&& url.len() > 0
            &&& text::trim(url) == url
            &&& full_endpoint(boundary::parsed_url(url))
        }),
        text::ends_with((base_url(raw)->Ok_0).text, "/chat/completions"@)
            ==> chat_completions_path((base_url(raw)->Ok_0).segments),
    ensures
        models_url(chat_url(raw)->Ok_0) == models_url(raw),
{
    lemma_base_of_endpoint(raw);
    let url = chat_url(raw)->Ok_0;
    let base = base_url(raw)->Ok_0;
    if !chat_completions_path(base.segments) {
        lemma_trim_end_char(text::trim(raw), '/');
        let suffix = "/chat/completions"@;
        reveal_strlit("/chat/completions");
        let root = lemma_root(base);
        assert(url.skip(url.len() - suffix.len()) == suffix);
        assert(url.take(url.len() - suffix.len()) == root);
        assert(text::trim_end_text(url, suffix) == text::trim_end_text(root, suffix));
        assert(text::trim_end_text(root, suffix) == root);
    }
}

proof fn lemma_trim_start_then(s: Seq<char>, c: char)
    requires
        text::trim_start(s).len() > 0,
    ensures
        text::trim_start(s.push(c)) == text::trim_start(s).push(c),
    decreases s.len(),
{
    if s.len() > 0 && text::white_space(s.first()) {
        lemma_trim_start_then(s.drop_first(), c);
        assert(s.push(c).drop_first() == s.drop_first().push(c));
    }
}

proof fn lemma_trim_start_last(s: Seq<char>)
    requires
        s.len() > 0,
        !text::white_space(s.last()),
    ensures
        text::trim_start(s).len() > 0,
        text::trim_start(s).last() == s.last(),
    decreases s.len(),
{
    if text::white_space(s.first()) {
        lemma_trim_start_last(s.drop_first());
    }
}

/// A slash at the end of a base URL changes nothing, where the two are parsed
/// alike.
pub proof fn trailing_slash_is_ignored(raw: Seq<char>)
    requires
        raw.len() > 0,
        !text::white_space(raw.last()),
        parsed_alike(
            boundary::parsed_url(text::trim(raw)),
            boundary::parsed_url(text::trim(raw).push('/')),
        ),
    ensures
        chat_url(raw.push('/')) == chat_url(raw),
        models_url(raw.push('/')) == models_url(raw),
{
    lemma_trim_start_last(raw);
    lemma_trim_start_then(raw, '/');
    let start = text::trim_start(raw);
    assert(text::trim(raw) == start);
    assert(text::trim(raw.push('/')) == start.push('/'));
    assert(start.push('/').drop_last() == start);
    assert(text::trim_end_char(start.push('/'), '/') == text::trim_end_char(start, '/'));
}

proof fn lemma_trim_plain(s: Seq<char>)
    requires
        s.len() > 0 ==> !text::white_space(s.first()) && !text::white_space(s.last()),
    ensures
        text::trim(s) == s,
{
}

proof fn lemma_trim_end_char_holds(s: Seq<char>, c: char)
    ensures
        text::trim_end_char(s, c).len() <= s.len(),
        text::trim_end_char(s, c) == s.take(text::trim_end_char(s, c).len() as int),
    decreases s.len(),
{
    if s.len() > 0 && s.last() == c {
        lemma_trim_end_char_holds(s.drop_last(), c);
        let n = text::trim_end_char(s, c).len() as int;
        assert(s.drop_last().take(n) == s.take(n));
    } else {
        assert(s.take(s.len() as int) == s);
    }
}

/// The endpoint of a base URL without white space needs no trimming.
pub proof fn endpoint_without_space_is_trimmed(raw: Seq<char>)
    requires
        forall|i: int| 0 <= i < raw.len() ==> !text::white_space(#[trigger] raw[i]),
        chat_url(raw) is Ok,
    ensures
        text::trim(chat_url(raw)->Ok_0) == chat_url(raw)->Ok_0,
{
    lemma_trim_plain(raw);
    let base = base_url(raw)->Ok_0;
    let url = chat_url(raw)->Ok_0;
    lemma_trim_end_char_holds(raw, '/');
    reveal_strlit("/chat/completions");
    reveal_strlit("/v1/chat/completions");
    assert(base.text == raw.take(base.text.len() as int));
    assert(base.text.len() > 0 ==> base.text.first() == raw[0] && base.text.last()
        == raw[base.text.len() - 1]);
    if base.text.len() > 0 {
        assert(url.first() == base.text.first());
    }
    lemma_trim_plain(url);
}

/// White space around a base URL changes nothing.
pub proof fn surrounding_space_is_ignored(raw: Seq<char>, other: Seq<char>)
    requires
        text::trim(raw) == text::trim(other),
    ensures
        chat_url(raw) == chat_url(other),
        models_url(raw) == models_url(other),
{
}

fn filled_of(parts: &Vec<String>) -> (r: Vec<String>)
    ensures
        text::texts(r@) == filled(text::texts(parts@)),
{
    let ghost all = text::texts(parts@);
    let mut r: Vec<String> = Vec::new();
    let mut i: usize = 0;
    assert(text::texts(r@) == filled(all.take(0)));
    while i < parts.len()
        invariant
            i <= parts@.len(),
            all == text::texts(parts@),
            text::texts(r@) == filled(all.take(i as int)),
        decreases parts@.len() - i,
    {
        let ghost done = text::texts(r@);
        assert(all.take(i + 1).drop_last() == all.take(i as int));
        assert(all.take(i + 1).last() == parts@[i as int]@);
        if !parts[i].as_str().is_empty() {
            r.push(parts[i].clone());
            assert(text::texts(r@) == done.push(parts@[i as int]@));
        }
        i += 1;
    }
    assert(all.take(i as int) == all);
    r
}

impl Config {
    /// Reads and checks a base URL.
    pub fn parse_base_url(raw: &str) -> (r: Result<BaseUrl, UrlError>)
        ensures
            base_outcome(r) == base_url(raw@),
    {
        let text = trimmed(raw);
        if text.as_str().is_empty() {
            return Err(UrlError::Empty);
        }
        let parsed = parse_url(&text);
        Self::accept_url(&text, parsed)
    }

    /// Checks a trimmed URL text, given what the parser made of it.
    pub fn accept_url(text: &str, parsed: Result<ParsedUrl, String>) -> (r: Result<
        BaseUrl,
        UrlError,
    >)
        ensures
            base_outcome(r) == accepted_url(text@, boundary::url_result(parsed)),
    {
        match parsed {
            Err(reason) => Err(UrlError::Invalid(reason)),
            Ok(url) => {
                if !same_text(&url.scheme, "http") && !same_text(&url.scheme, "https") {
                    return Err(UrlError::Scheme);
                }
                if url.query.is_some() || url.fragment.is_some() {
                    return Err(UrlError::QueryOrFragment);
                }
                let segments = match url.path_segments {
                    Some(segments) => filled_of(&segments),
                    None => Vec::new(),
                };
                assert(text::texts(Seq::<String>::empty()) == Seq::<Seq<char>>::empty());
                Ok(BaseUrl { text: trimmed_end_char(text, '/'), segments })
            },
        }
    }

    /// Whether a path ends in `chat/completions`.
    pub fn is_chat_completions_path(segments: &[String]) -> (r: bool)
        ensures
            r == chat_completions_path(text::texts(segments@)),
    {
        let n: usize = segments.len();
        n >= 2 && same_text(&segments[n - 2], "chat") && same_text(
            &segments[n - 1],
            "completions",
        )
    }

    /// Whether a segment is a version: a `v`, in either case, and digits.
    pub fn is_version_segment(segment: &str) -> (r: bool)
        ensures
            r == version_segment(segment@),
    {
        let chars = chars_of(segment);
        if chars.len() < 2 || (chars[0] != 'v' && chars[0] != 'V') {
            return false;
        }
        let mut i: usize = 1;
        while i < chars.len()
            invariant
                1 <= i <= chars@.len(),
                chars@ == segment@,
                forall|j: int| 1 <= j < i ==> '0' <= #[trigger] chars@[j] <= '9',
            decreases chars@.len() - i,
        {
            if chars[i] < '0' || '9' < chars[i] {
                assert(!('0' <= segment@[i as int] <= '9'));
                return false;
            }
            i += 1;
        }
        true
    }

    fn ends_partial(segments: &[String]) -> (r: bool)
        ensures
            r == partial_path(text::texts(segments@)),
    {
        let n: usize = segments.len();
        n > 0 && (same_text(&segments[n - 1], "chat") || same_text(
            &segments[n - 1],
            "completions",
        ))
    }

    fn ends_versioned(segments: &[String]) -> (r: bool)
        ensures
            r == versioned_path(text::texts(segments@)),
    {
        let n: usize = segments.len();
        n > 0 && Self::is_version_segment(&segments[n - 1])
    }

    /// The chat completions endpoint below an accepted base URL.
    pub fn chat_completions_url_below(base: BaseUrl) -> (r: Result<String, UrlError>)
        ensures
            url_outcome(r) == chat_url_below(base@),
    {
        if Self::is_chat_completions_path(&base.segments) {
            Ok(base.text)
        } else if Self::ends_partial(&base.segments) {
            Err(UrlError::PartialPath)
        } else if Self::ends_versioned(&base.segments) {
            Ok(base.text.concat("/chat/completions"))
        } else {
            Ok(base.text.concat("/v1/chat/completions"))
        }
    }

    /// The models endpoint below an accepted base URL.
    pub fn models_url_below(base: BaseUrl) -> (r: Result<String, UrlError>)
        ensures
            url_outcome(r) == models_url_below(base@),
    {
        if Self::is_chat_completions_path(&base.segments) {
            let root = trimmed_end_text(&base.text, "/chat/completions");
            Ok(trimmed_end_char(&root, '/').concat("/models"))
        } else if Self::ends_partial(&base.segments) {
            Err(UrlError::PartialPath)
        } else if Self::ends_versioned(&base.segments) {
            Ok(base.text.concat("/models"))
        } else {
            Ok(base.text.concat("/v1/models"))
        }
    }

    /// The chat completions endpoint for a base URL.
    pub fn resolve_chat_completions_url(raw: &str) -> (r: Result<String, UrlError>)
        ensures
            url_outcome(r) == chat_url(raw@),
    {
        match Self::parse_base_url(raw) {
            Ok(base) => Self::chat_completions_url_below(base),
            Err(error) => Err(error),
        }
    }

    /// The models endpoint for a base URL.
    pub fn resolve_models_url(raw: &str) -> (r: Result<String, UrlError>)
        ensures
            url_outcome(r) == models_url(raw@),
    {
        match Self::parse_base_url(raw) {
            Ok(base) => Self::models_url_below(base),
            Err(error) => Err(error),
        }
    }
}

} // verus!
