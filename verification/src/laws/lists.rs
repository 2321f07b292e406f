//! Laws of the lists that the configuration is written in.
use vstd::prelude::*;

use crate::config::{
    ConfigError, ConfigErrorView, ModelMapError, ModelMapErrorView,
};
use crate::endpoint;
use crate::endpoint::{UrlError, UrlErrorView};
use crate::laws::text as texts;
use crate::lists;
use crate::name_map;
use crate::text;

verus! {

/// A list of URLs is accepted if and only if it has an entry and every entry is
/// accepted; its URLs are its entries. The first entry that is refused refuses
/// it.
pub proof fn url_lists_hold_accepted_urls(raw: Seq<char>, n: int)
    requires
        ({
            let entries = text::list_entries(raw, seq![';']);
            &&& 0 <= n <= entries.len()
            &&& forall|i: int| 0 <= i < n ==> endpoint::chat_url(#[trigger] entries[i]) is Ok
            &&& n < entries.len() ==> endpoint::chat_url(entries[n]) is Err
        }),
    ensures
        ({
            let entries = text::list_entries(raw, seq![';']);
            let result = lists::upstream_url_list(raw);
            &&& entries.len() == 0 ==> result == Err::<Seq<Seq<char>>, UrlErrorView>(
                UrlErrorView::Empty,
            )
            &&& entries.len() > 0 && n == entries.len() ==> result == Ok::<
                Seq<Seq<char>>,
                UrlErrorView,
            >(entries)
            &&& n < entries.len() ==> result == Err::<Seq<Seq<char>>, UrlErrorView>(
                endpoint::chat_url(entries[n])->Err_0,
            )
        }),
{
    let entries = text::list_entries(raw, seq![';']);
    if n < entries.len() {
        lists::lemma_refusal_after(entries, n);
    } else {
        lists::lemma_no_refusal(entries);
    }
}

/// Each accepted base URL has its own endpoints, at its own place.
pub proof fn endpoints_keep_their_places(urls: Seq<Seq<char>>, i: int)
    requires
        0 <= i < urls.len(),
        endpoint::chat_url(urls[i]) is Ok,
    ensures
        lists::chat_urls(urls).len() == urls.len(),
        lists::models_urls(urls).len() == urls.len(),
        endpoint::chat_url(urls[i]) == Ok::<Seq<char>, UrlErrorView>(lists::chat_urls(urls)[i]),
        endpoint::models_url(urls[i]) == Ok::<Seq<char>, UrlErrorView>(lists::models_urls(urls)[i]),
{
    endpoint::endpoints_agree(urls[i]);
}

/// Terms are separated by semicolons and line feeds, and by nothing else; each
/// is trimmed, and dropped where nothing is left of it.
pub proof fn terms_are_separated(a: Seq<char>, mark: char, b: Seq<char>)
    requires
        mark == ';' || mark == '\n',
    ensures
        lists::ignore_terms(a.push(mark) + b) == lists::ignore_terms(a) + lists::ignore_terms(b),
        !a.contains(';') && !a.contains('\n') && text::trim(a).len() > 0 ==> lists::ignore_terms(a)
            == seq![text::trim(a)],
        !a.contains(';') && !a.contains('\n') && text::trim(a).len() == 0 ==> lists::ignore_terms(
            a,
        ).len() == 0,
{
    let marks = seq![';', '\n'];
    assert(marks[0] == ';' && marks[1] == '\n');
    texts::lists_are_read_piece_by_piece(a, mark, b, marks);
    if !a.contains(';') && !a.contains('\n') {
        assert forall|i: int| 0 <= i < a.len() implies !marks.contains(#[trigger] a[i]) by {
            assert(a[i] != ';' && a[i] != '\n');
        }
        texts::list_without_a_mark(a, marks);
    }
}

/// URLs are separated by semicolons, and by nothing else.
pub proof fn urls_are_separated(a: Seq<char>, b: Seq<char>)
    ensures
        text::list_entries(a.push(';') + b, seq![';']) == text::list_entries(a, seq![';'])
            + text::list_entries(b, seq![';']),
        !a.contains(';') && text::trim(a).len() > 0 ==> text::list_entries(a, seq![';']) == seq![
            text::trim(a),
        ],
        !a.contains(';') && text::trim(a).len() == 0 ==> text::list_entries(a, seq![';']).len()
            == 0,
{
    let marks = seq![';'];
    assert(marks[0] == ';');
    texts::lists_are_read_piece_by_piece(a, ';', b, marks);
    if !a.contains(';') {
        assert forall|i: int| 0 <= i < a.len() implies !marks.contains(#[trigger] a[i]) by {
            assert(a[i] != ';');
        }
        texts::list_without_a_mark(a, marks);
    }
}

/// What is kept of terms are some of the terms, one for each fold that there is.
pub proof fn kept_terms_cover_the_folds(terms: Seq<Seq<char>>, k: int)
    requires
        0 <= k < terms.len(),
    ensures
        exists|i: int|
            0 <= i < lists::deduped(terms).len() && lists::fold(
                #[trigger] lists::deduped(terms)[i],
            ) == lists::fold(terms[k]),
    decreases terms.len(),
{
    let init = terms.drop_last();
    let before = lists::deduped(init);
    let kept = lists::deduped(terms);
    if k < init.len() {
        assert(init[k] == terms[k]);
        kept_terms_cover_the_folds(init, k);
        let i = choose|i: int|
            0 <= i < before.len() && lists::fold(#[trigger] before[i]) == lists::fold(init[k]);
        assert(kept[i] == before[i]);
    } else if lists::repeats(init, terms.last()) {
        let j = choose|j: int|
            0 <= j < init.len() && lists::fold(#[trigger] init[j]) == lists::fold(terms.last());
        kept_terms_cover_the_folds(init, j);
        let i = choose|i: int|
            0 <= i < before.len() && lists::fold(#[trigger] before[i]) == lists::fold(init[j]);
        assert(kept[i] == before[i]);
    } else {
        assert(kept[before.len() as int] == terms.last());
    }
}

/// No two terms that are kept have one fold.
pub proof fn kept_terms_differ(terms: Seq<Seq<char>>, i: int, j: int)
    requires
        0 <= i < j < lists::deduped(terms).len(),
    ensures
        lists::fold(lists::deduped(terms)[i]) != lists::fold(lists::deduped(terms)[j]),
{
    lists::deduped_terms_are_distinct(terms);
}

/// Every term that is kept is one of the terms.
pub proof fn kept_terms_are_terms(terms: Seq<Seq<char>>, i: int)
    requires
        0 <= i < lists::deduped(terms).len(),
    ensures
        terms.contains(lists::deduped(terms)[i]),
    decreases terms.len(),
{
    let init = terms.drop_last();
    let before = lists::deduped(init);
    if i < before.len() {
        kept_terms_are_terms(init, i);
        let k = init.index_of(before[i]);
        assert(terms[k] == before[i]);
    } else {
        assert(terms[terms.len() - 1] == terms.last());
    }
}

/// Terms that are added change nothing of what was kept before them: of two
/// terms with one fold the first stays, at its place.
pub proof fn earlier_terms_stay(terms: Seq<Seq<char>>, more: Seq<Seq<char>>)
    ensures
        lists::deduped(terms).len() <= lists::deduped(terms + more).len(),
        lists::deduped(terms + more).take(lists::deduped(terms).len() as int) == lists::deduped(
            terms,
        ),
    decreases more.len(),
{
    let kept = lists::deduped(terms);
    let n = kept.len() as int;
    if more.len() == 0 {
        assert(terms + more == terms);
        assert(kept.take(n) == kept);
    } else {
        let init = more.drop_last();
        earlier_terms_stay(terms, init);
        assert((terms + more).drop_last() == terms + init);
        let before = lists::deduped(terms + init);
        assert(before.push(more.last()).take(n) == before.take(n));
    }
}

/// An entry of a model map is cut at its first `=`; both sides are trimmed, and
/// neither may be empty then.
pub proof fn map_entries_have_two_sides(source: Seq<char>, target: Seq<char>)
    requires
        !source.contains('='),
    ensures
        lists::model_map_entry(source) == Err::<(Seq<char>, Seq<char>), ModelMapErrorView>(
            ModelMapErrorView::NoTarget(source),
        ),
        text::trim(source).len() > 0 && text::trim(target).len() > 0 ==> lists::model_map_entry(
            source.push('=') + target,
        ) == Ok::<(Seq<char>, Seq<char>), ModelMapErrorView>(
            (text::trim(source), text::trim(target)),
        ),
        text::trim(source).len() == 0 || text::trim(target).len() == 0 ==> lists::model_map_entry(
            source.push('=') + target,
        ) == Err::<(Seq<char>, Seq<char>), ModelMapErrorView>(
            ModelMapErrorView::EmptySide(source.push('=') + target),
        ),
{
    texts::first_mark_cuts_once(source, '=', target);
}

proof fn lemma_maps_of_both(a: Seq<Seq<char>>, b: Seq<Seq<char>>, source: Seq<char>)
    ensures
        lists::model_map_of(a) is Err ==> lists::model_map_of(a + b) == lists::model_map_of(a),
        lists::model_map_of(a) is Ok && lists::model_map_of(b) is Err ==> lists::model_map_of(a + b)
            == lists::model_map_of(b),
        lists::model_map_of(a) is Ok && lists::model_map_of(b) is Ok ==> lists::model_map_of(a + b)
            is Ok && name_map::lookup(lists::model_map_of(a + b)->Ok_0, source) == (
        if name_map::lookup(lists::model_map_of(b)->Ok_0, source) is Some {
            name_map::lookup(lists::model_map_of(b)->Ok_0, source)
        } else {
            name_map::lookup(lists::model_map_of(a)->Ok_0, source)
        }),
    decreases b.len(),
{
    if b.len() == 0 {
        assert(a + b == a);
        assert(lists::model_map_of(b) == Ok::<_, ModelMapErrorView>(
            Seq::<(Seq<char>, Seq<char>)>::empty(),
        ));
        assert(name_map::lookup(Seq::<(Seq<char>, Seq<char>)>::empty(), source) is None);
    } else {
        let init = b.drop_last();
        lemma_maps_of_both(a, init, source);
        assert((a + b).drop_last() == a + init);
        assert((a + b).last() == b.last());
        if lists::model_map_of(a) is Ok && lists::model_map_of(b) is Ok {
            let (s, t) = lists::model_map_entry(b.last())->Ok_0;
            name_map::lookup_after_insert(lists::model_map_of(init)->Ok_0, s, t, source);
            name_map::lookup_after_insert(lists::model_map_of(a + init)->Ok_0, s, t, source);
        }
    }
}

/// A model map is what both sides of a separator say, the later one first; it is
/// refused for the first entry that is.
pub proof fn model_maps_are_read_piece_by_piece(
    a: Seq<char>,
    mark: char,
    b: Seq<char>,
    source: Seq<char>,
)
    requires
        mark == ';' || mark == '\n',
    ensures
        ({
            let both = lists::model_map(a.push(mark) + b);
            let x = lists::model_map(a);
            let y = lists::model_map(b);
            &&& x is Err ==> both == x
            &&& x is Ok && y is Err ==> both == y
            &&& x is Ok && y is Ok ==> both is Ok
            &&& x is Ok && y is Ok && name_map::lookup(y->Ok_0, source) is Some
                ==> name_map::lookup(both->Ok_0, source) == name_map::lookup(y->Ok_0, source)
            &&& x is Ok && y is Ok && name_map::lookup(y->Ok_0, source) is None
                ==> name_map::lookup(both->Ok_0, source) == name_map::lookup(x->Ok_0, source)
        }),
{
    let marks = seq![';', '\n'];
    assert(marks[0] == ';' && marks[1] == '\n');
    texts::lists_are_read_piece_by_piece(a, mark, b, marks);
    lemma_maps_of_both(text::list_entries(a, marks), text::list_entries(b, marks), source);
}

/// A model map without a separator is that of its one entry, or empty.
pub proof fn model_map_of_one_entry(a: Seq<char>)
    requires
        !a.contains(';'),
        !a.contains('\n'),
    ensures
        text::trim(a).len() == 0 ==> lists::model_map(a) is Ok && (lists::model_map(
            a,
        )->Ok_0).len() == 0,
        text::trim(a).len() > 0 ==> match lists::model_map_entry(text::trim(a)) {
            Ok((source, target)) => lists::model_map(a) == Ok::<_, ModelMapErrorView>(
                seq![(source, target)],
            ),
            Err(error) => lists::model_map(a) == Err::<
                Seq<(Seq<char>, Seq<char>)>,
                ModelMapErrorView,
            >(error),
        },
{
    let marks = seq![';', '\n'];
    assert(marks[0] == ';' && marks[1] == '\n');
    assert forall|i: int| 0 <= i < a.len() implies !marks.contains(#[trigger] a[i]) by {
        assert(a[i] != ';' && a[i] != '\n');
    }
    texts::list_without_a_mark(a, marks);
    let none = Seq::<Seq<char>>::empty();
    assert(seq![text::trim(a)].drop_last() == none);
    assert(lists::model_map_of(none) == Ok::<_, ModelMapErrorView>(
        Seq::<(Seq<char>, Seq<char>)>::empty(),
    ));
    if text::trim(a).len() == 0 {
        assert(text::list_entries(a, marks) == none);
    }
}

/// What is said of an error names what is wrong, and where.
pub proof fn errors_name_what_is_wrong(entry: Seq<char>, name: Seq<char>, error: UrlErrorView)
    ensures
        ModelMapErrorView::NoTarget(entry).message()
            == "Invalid ANTHROPIC_PROXY_MODEL_MAP entry '"@ + entry + "'. Expected source=target"@,
        ModelMapErrorView::EmptySide(entry).message()
            == "Invalid ANTHROPIC_PROXY_MODEL_MAP entry '"@ + entry
            + "'. Source and target models must be non-empty"@,
        ConfigErrorView::Url(error).message() == error.message(),
        ConfigErrorView::ModelMap(ModelMapErrorView::NoTarget(entry)).message()
            == ModelMapErrorView::NoTarget(entry).message(),
        (ConfigErrorView::Upstream { name, error }).message() == "Upstream '"@ + name + "': "@
            + error.message(),
        UrlErrorView::Invalid(entry).message() == "UPSTREAM_BASE_URL must be a valid http(s) URL: "@
            + entry,
{
}

/// The values of errors say what they hold.
pub proof fn values_of_errors(text: String, error: UrlError, map_error: ModelMapError)
    ensures
        UrlError::Invalid(text)@ == UrlErrorView::Invalid(text@),
        error is Empty <==> error@ is Empty,
        error is Scheme <==> error@ is Scheme,
        error is QueryOrFragment <==> error@ is QueryOrFragment,
        error is PartialPath <==> error@ is PartialPath,
        ModelMapError::NoTarget(text)@ == ModelMapErrorView::NoTarget(text@),
        ModelMapError::EmptySide(text)@ == ModelMapErrorView::EmptySide(text@),
        ConfigError::Url(error)@ == ConfigErrorView::Url(error@),
        ConfigError::ModelMap(map_error)@ == ConfigErrorView::ModelMap(map_error@),
        ConfigError::MissingBaseUrl@ == ConfigErrorView::MissingBaseUrl,
{
}

/// URLs resolve where each of them is accepted.
pub proof fn resolving_urls(urls: Seq<Seq<char>>)
    ensures
        lists::all_resolve(urls) <==> forall|i: int|
            0 <= i < urls.len() ==> endpoint::chat_url(#[trigger] urls[i]) is Ok,
{
}

/// What is said of each reason for which a URL is refused.
pub proof fn refusals_of_urls_have_words()
    ensures
        UrlErrorView::Empty.message() == "UPSTREAM_BASE_URL must not be empty"@,
        UrlErrorView::Scheme.message() == "UPSTREAM_BASE_URL must use http or https"@,
        UrlErrorView::QueryOrFragment.message()
            == "UPSTREAM_BASE_URL must not include query parameters or fragments"@,
{
}

} // verus!
