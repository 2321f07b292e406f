//! The lists that the configuration is written in: upstream URLs, terms to
//! ignore and model maps.
use vstd::prelude::*;

use crate::config::{Config, ModelMapError, ModelMapErrorView};
use crate::endpoint;
use crate::endpoint::{UrlError, UrlErrorView};
use crate::name_map;
use crate::name_map::NameMap;
use crate::text;
use crate::text::{entries_of_list, folded, split_text_once, trimmed};

verus! {

/// The first refusal among base URLs, in their order.
pub open spec fn first_refusal(urls: Seq<Seq<char>>) -> Option<UrlErrorView>
    decreases urls.len(),
{
    if urls.len() == 0 {
        None
    } else {
        match endpoint::chat_url(urls.first()) {
            Err(error) => Some(error),
            Ok(_) => first_refusal(urls.drop_first()),
        }
    }
}

/// The base URLs in a list that is separated by `;`. The list is refused where
/// it is empty, and where one of the URLs is.
pub open spec fn upstream_url_list(raw: Seq<char>) -> Result<Seq<Seq<char>>, UrlErrorView> {
    let urls = text::list_entries(raw, seq![';']);
    if urls.len() == 0 {
        Err(UrlErrorView::Empty)
    } else {
        match first_refusal(urls) {
            Some(error) => Err(error),
            None => Ok(urls),
        }
    }
}

/// The value of a result that holds a list of texts.
pub open spec fn url_list_outcome(r: Result<Vec<String>, UrlError>) -> Result<
    Seq<Seq<char>>,
    UrlErrorView,
> {
    match r {
        Ok(urls) => Ok(text::texts(urls@)),
        Err(error) => Err(error@),
    }
}

/// Whether every one of the base URLs is accepted.
pub open spec fn all_resolve(urls: Seq<Seq<char>>) -> bool {
    forall|i: int| 0 <= i < urls.len() ==> endpoint::chat_url(#[trigger] urls[i]) is Ok
}

/// The chat completions endpoints for base URLs that are accepted.
pub open spec fn chat_urls(urls: Seq<Seq<char>>) -> Seq<Seq<char>> {
    Seq::new(urls.len(), |i: int| endpoint::chat_url(urls[i])->Ok_0)
}

/// The models endpoints for base URLs that are accepted.
pub open spec fn models_urls(urls: Seq<Seq<char>>) -> Seq<Seq<char>> {
    Seq::new(urls.len(), |i: int| endpoint::models_url(urls[i])->Ok_0)
}

/// The terms in a list that is separated by `;` or line feeds.
pub open spec fn ignore_terms(value: Seq<char>) -> Seq<Seq<char>> {
    text::list_entries(value, seq![';', '\n'])
}

/// What terms have in common that differ in white space and in the case of
/// ASCII letters alone.
pub open spec fn fold(term: Seq<char>) -> Seq<char> {
    text::lower(text::join(text::words(term), seq![' ']))
}

/// Whether a term has the same fold as one of the terms.
pub open spec fn repeats(terms: Seq<Seq<char>>, term: Seq<char>) -> bool {
    exists|j: int| 0 <= j < terms.len() && fold(#[trigger] terms[j]) == fold(term)
}

/// The terms without those that repeat one before them.
pub open spec fn deduped(terms: Seq<Seq<char>>) -> Seq<Seq<char>>
    decreases terms.len(),
{
    if terms.len() == 0 {
        Seq::empty()
    } else {
        let before = deduped(terms.drop_last());
        if repeats(terms.drop_last(), terms.last()) {
            before
        } else {
            before.push(terms.last())
        }
    }
}

/// The source and the target of an entry of a model map.
pub open spec fn model_map_entry(entry: Seq<char>) -> Result<
    (Seq<char>, Seq<char>),
    ModelMapErrorView,
> {
    match text::split_once(entry, '=') {
        None => Err(ModelMapErrorView::NoTarget(entry)),
        Some((source, target)) => if text::trim(source).len() == 0 || text::trim(target).len()
            == 0 {
            Err(ModelMapErrorView::EmptySide(entry))
        } else {
            Ok((text::trim(source), text::trim(target)))
        },
    }
}

/// The map of the entries. Of two entries with one source the later counts; of
/// the entries that are refused the first is reported.
pub open spec fn model_map_of(entries: Seq<Seq<char>>) -> Result<
    Seq<(Seq<char>, Seq<char>)>,
    ModelMapErrorView,
>
    decreases entries.len(),
{
    if entries.len() == 0 {
        Ok(Seq::empty())
    } else {
        match model_map_of(entries.drop_last()) {
            Err(error) => Err(error),
            Ok(before) => match model_map_entry(entries.last()) {
                Err(error) => Err(error),
                Ok((source, target)) => Ok(name_map::inserted(before, source, target)),
            },
        }
    }
}

/// The model map in a list that is separated by `;` or line feeds.
pub open spec fn model_map(value: Seq<char>) -> Result<
    Seq<(Seq<char>, Seq<char>)>,
    ModelMapErrorView,
> {
    model_map_of(text::list_entries(value, seq![';', '\n']))
}

/// The value of a result that holds a model map.
pub open spec fn model_map_outcome(r: Result<NameMap<String>, ModelMapError>) -> Result<
    Seq<(Seq<char>, Seq<char>)>,
    ModelMapErrorView,
> {
    match r {
        Ok(map) => Ok(map@),
        Err(error) => Err(error@),
    }
}

/// Nothing is refused if and only if every base URL is accepted.
pub proof fn lemma_no_refusal(urls: Seq<Seq<char>>)
    ensures
        first_refusal(urls) is None <==> all_resolve(urls),
    decreases urls.len(),
{
    if urls.len() > 0 {
        let rest = urls.drop_first();
        lemma_no_refusal(rest);
        assert(forall|i: int| 0 <= i < rest.len() ==> #[trigger] rest[i] == urls[i + 1]);
        if all_resolve(urls) {
            assert(endpoint::chat_url(urls[0]) is Ok);
        }
        if first_refusal(urls) is None {
            assert forall|i: int| 0 <= i < urls.len() implies endpoint::chat_url(
                #[trigger] urls[i],
            ) is Ok by {
                if i > 0 {
                    assert(rest[i - 1] == urls[i]);
                }
            }
        }
    }
}

/// The first base URL that is refused is the one that is reported.
pub proof fn lemma_refusal_after(urls: Seq<Seq<char>>, n: int)
    requires
        0 <= n < urls.len(),
        forall|i: int| 0 <= i < n ==> endpoint::chat_url(#[trigger] urls[i]) is Ok,
        endpoint::chat_url(urls[n]) is Err,
    ensures
        first_refusal(urls) == Some(endpoint::chat_url(urls[n])->Err_0),
    decreases n,
{
    if n > 0 {
        assert(endpoint::chat_url(urls[0]) is Ok);
        let rest = urls.drop_first();
        assert(forall|i: int| 0 <= i < rest.len() ==> #[trigger] rest[i] == urls[i + 1]);
        lemma_refusal_after(rest, n - 1);
    }
}

/// A list of upstream URLs that is accepted holds at least one URL, and every
/// one of them has its endpoints.
pub proof fn accepted_urls_resolve(raw: Seq<char>)
    ensures
        upstream_url_list(raw) matches Ok(urls) ==> urls.len() > 0 && all_resolve(urls),
{
    lemma_no_refusal(text::list_entries(raw, seq![';']));
}

/// What is kept of the terms has the folds of the terms, each of them once.
pub proof fn deduped_terms_are_distinct(terms: Seq<Seq<char>>)
    ensures
        forall|i: int, j: int|
            0 <= i < j < deduped(terms).len() ==> fold(#[trigger] deduped(terms)[i]) != fold(
                #[trigger] deduped(terms)[j],
            ),
        forall|term: Seq<char>|
            #![trigger repeats(deduped(terms), term)]
            repeats(deduped(terms), term) <==> repeats(terms, term),
    decreases terms.len(),
{
    if terms.len() > 0 {
        let init = terms.drop_last();
        let last = terms.last();
        let before = deduped(init);
        let kept = deduped(terms);
        deduped_terms_are_distinct(init);
        assert(repeats(before, last) <==> repeats(init, last));
        assert forall|i: int, j: int| 0 <= i < j < kept.len() implies fold(#[trigger] kept[i])
            != fold(#[trigger] kept[j]) by {
            if !repeats(init, last) && j == kept.len() - 1 {
                assert(before[i] == kept[i]);
            } else {
                assert(before[i] == kept[i]);
                assert(before[j] == kept[j]);
            }
        }
        assert forall|term: Seq<char>|
            #![trigger repeats(kept, term)]
            repeats(kept, term) <==> repeats(terms, term) by {
            assert(repeats(before, term) <==> repeats(init, term));
            if repeats(kept, term) {
                let j = choose|j: int|
                    0 <= j < kept.len() && fold(#[trigger] kept[j]) == fold(term);
                if j < before.len() {
                    assert(before[j] == kept[j]);
                    let k = choose|k: int|
                        0 <= k < init.len() && fold(#[trigger] init[k]) == fold(term);
                    assert(terms[k] == init[k]);
                } else {
                    assert(terms[terms.len() - 1] == last);
                }
            }
            if repeats(terms, term) {
                let j = choose|j: int|
                    0 <= j < terms.len() && fold(#[trigger] terms[j]) == fold(term);
                if j < init.len() {
                    assert(init[j] == terms[j]);
                    assert(repeats(init, term));
                    let k = choose|k: int|
                        0 <= k < before.len() && fold(#[trigger] before[k]) == fold(term);
                    assert(kept[k] == before[k]);
                } else if repeats(init, last) {
                    let k = choose|k: int|
                        0 <= k < before.len() && fold(#[trigger] before[k]) == fold(last);
                    assert(kept[k] == before[k]);
                } else {
                    assert(kept[kept.len() - 1] == last);
                }
            }
        }
    }
}

proof fn lemma_distinct_terms_stay(terms: Seq<Seq<char>>)
    requires
        forall|i: int, j: int|
            0 <= i < j < terms.len() ==> fold(#[trigger] terms[i]) != fold(#[trigger] terms[j]),
    ensures
        deduped(terms) == terms,
    decreases terms.len(),
{
    if terms.len() > 0 {
        let init = terms.drop_last();
        assert(forall|i: int| 0 <= i < init.len() ==> init[i] == terms[i]);
        lemma_distinct_terms_stay(init);
        if repeats(init, terms.last()) {
            let j = choose|j: int|
                0 <= j < init.len() && fold(#[trigger] init[j]) == fold(terms.last());
            assert(fold(terms[j]) != fold(terms[terms.len() - 1]));
        }
        assert(init.push(terms.last()) == terms);
    }
}

/// Terms that were deduplicated stay as they are.
pub proof fn dedupe_is_idempotent(terms: Seq<Seq<char>>)
    ensures
        deduped(deduped(terms)) == deduped(terms),
{
    deduped_terms_are_distinct(terms);
    lemma_distinct_terms_stay(deduped(terms));
}

/// A model map that is accepted is in the order of its sources.
pub proof fn model_map_is_ordered(entries: Seq<Seq<char>>)
    ensures
        model_map_of(entries) matches Ok(map) ==> name_map::ascending(map),
    decreases entries.len(),
{
    if entries.len() > 0 {
        model_map_is_ordered(entries.drop_last());
        if let Ok(before) = model_map_of(entries.drop_last()) {
            if let Ok((source, target)) = model_map_entry(entries.last()) {
                name_map::insert_keeps_order(before, source, target);
            }
        }
    }
}

/// In a model map the last entry for a source decides: where nothing is
/// refused, one more entry sets the target of its source and of no other.
pub proof fn last_entry_decides(
    entries: Seq<Seq<char>>,
    entry: Seq<char>,
    other: Seq<char>,
)
    requires
        model_map_of(entries) is Ok,
        model_map_entry(entry) is Ok,
    ensures
        model_map_of(entries.push(entry)) is Ok,
        name_map::lookup(model_map_of(entries.push(entry))->Ok_0, other) == if other
            == (model_map_entry(entry)->Ok_0).0 {
            Some((model_map_entry(entry)->Ok_0).1)
        } else {
            name_map::lookup(model_map_of(entries)->Ok_0, other)
        },
{
    assert(entries.push(entry).drop_last() == entries);
    let (source, target) = model_map_entry(entry)->Ok_0;
    name_map::lookup_after_insert(model_map_of(entries)->Ok_0, source, target, other);
}

/// Whether a text is among the strings.
fn is_among(strings: &Vec<String>, one: &String) -> (r: bool)
    ensures
        r == text::texts(strings@).contains(one@),
{
    let ghost all = text::texts(strings@);
    let mut i: usize = 0;
    while i < strings.len()
        invariant
            i <= strings@.len(),
            all == text::texts(strings@),
            forall|j: int| 0 <= j < i ==> #[trigger] all[j] != one@,
        decreases strings@.len() - i,
    {
        assert(all[i as int] == strings@[i as int]@);
        if strings[i] == *one {
            return true;
        }
        i += 1;
    }
    false
}

impl Config {
    /// Reads a list of upstream URLs.
    pub fn parse_upstream_urls(raw: &str) -> (r: Result<Vec<String>, UrlError>)
        ensures
            url_list_outcome(r) == upstream_url_list(raw@),
    {
        let marks: [char; 1] = [';'];
        assert(marks@ == seq![';']);
        let urls = entries_of_list(raw, &marks);
        let ghost all = text::texts(urls@);
        if urls.len() == 0 {
            return Err(UrlError::Empty);
        }
        let mut i: usize = 0;
        while i < urls.len()
            invariant
                i <= urls@.len(),
                urls@.len() > 0,
                all == text::texts(urls@),
                all == text::list_entries(raw@, seq![';']),
                forall|j: int| 0 <= j < i ==> endpoint::chat_url(#[trigger] all[j]) is Ok,
            decreases urls@.len() - i,
        {
            assert(all[i as int] == urls@[i as int]@);
            if let Err(error) = Self::resolve_chat_completions_url(&urls[i]) {
                proof {
                    lemma_refusal_after(all, i as int);
                }
                return Err(error);
            }
            i += 1;
        }
        proof {
            lemma_no_refusal(all);
        }
        Ok(urls)
    }

    /// Whether every upstream URL is accepted.
    pub fn upstream_urls_resolve(&self) -> (r: bool)
        ensures
            r == all_resolve(self@.upstream_urls),
    {
        let ghost all = text::texts(self.upstream_urls@);
        let mut i: usize = 0;
        while i < self.upstream_urls.len()
            invariant
                i <= self.upstream_urls@.len(),
                all == text::texts(self.upstream_urls@),
                forall|j: int| 0 <= j < i ==> endpoint::chat_url(#[trigger] all[j]) is Ok,
            decreases self.upstream_urls@.len() - i,
        {
            assert(all[i as int] == self.upstream_urls@[i as int]@);
            if Self::resolve_chat_completions_url(&self.upstream_urls[i]).is_err() {
                assert(endpoint::chat_url(self@.upstream_urls[i as int]) is Err);
                return false;
            }
            i += 1;
        }
        true
    }

    /// The chat completions endpoints of the upstream URLs.
    pub fn chat_completions_urls(&self) -> (r: Vec<String>)
        requires
            all_resolve(self@.upstream_urls),
        ensures
            text::texts(r@) == chat_urls(self@.upstream_urls),
    {
        let ghost all = text::texts(self.upstream_urls@);
        let mut r: Vec<String> = Vec::new();
        let mut i: usize = 0;
        while i < self.upstream_urls.len()
            invariant
                i <= self.upstream_urls@.len(),
                all == text::texts(self.upstream_urls@),
                all_resolve(all),
                text::texts(r@) == chat_urls(all.take(i as int)),
            decreases self.upstream_urls@.len() - i,
        {
            assert(all[i as int] == self.upstream_urls@[i as int]@);
            let ghost done = text::texts(r@);
            if let Ok(url) = Self::resolve_chat_completions_url(&self.upstream_urls[i]) {
                r.push(url);
            }
            assert(text::texts(r@) == done.push(endpoint::chat_url(all[i as int])->Ok_0));
            assert(chat_urls(all.take(i + 1)) == chat_urls(all.take(i as int)).push(
                endpoint::chat_url(all[i as int])->Ok_0,
            ));
            i += 1;
        }
        assert(all.take(i as int) == all);
        r
    }

    /// The models endpoints of the upstream URLs.
    pub fn models_urls(&self) -> (r: Vec<String>)
        requires
            all_resolve(self@.upstream_urls),
        ensures
            text::texts(r@) == models_urls(self@.upstream_urls),
    {
        let ghost all = text::texts(self.upstream_urls@);
        let mut r: Vec<String> = Vec::new();
        let mut i: usize = 0;
        while i < self.upstream_urls.len()
            invariant
                i <= self.upstream_urls@.len(),
                all == text::texts(self.upstream_urls@),
                all_resolve(all),
                text::texts(r@) == models_urls(all.take(i as int)),
            decreases self.upstream_urls@.len() - i,
        {
            assert(all[i as int] == self.upstream_urls@[i as int]@);
            proof {
                endpoint::endpoints_agree(all[i as int]);
            }
            let ghost done = text::texts(r@);
            if let Ok(url) = Self::resolve_models_url(&self.upstream_urls[i]) {
                r.push(url);
            }
            assert(text::texts(r@) == done.push(endpoint::models_url(all[i as int])->Ok_0));
            assert(models_urls(all.take(i + 1)) == models_urls(all.take(i as int)).push(
                endpoint::models_url(all[i as int])->Ok_0,
            ));
            i += 1;
        }
        assert(all.take(i as int) == all);
        r
    }

    /// The chat completions endpoints of the upstream URLs, where all of these
    /// are accepted.
    pub fn checked_chat_completions_urls(&self) -> (r: Option<Vec<String>>)
        ensures
            match r {
                Some(urls) => all_resolve(self@.upstream_urls) && text::texts(urls@) == chat_urls(
                    self@.upstream_urls,
                ),
                None => !all_resolve(self@.upstream_urls),
            },
    {
        if self.upstream_urls_resolve() {
            Some(self.chat_completions_urls())
        } else {
            None
        }
    }

    /// The models endpoints of the upstream URLs, where all of these are
    /// accepted.
    pub fn checked_models_urls(&self) -> (r: Option<Vec<String>>)
        ensures
            match r {
                Some(urls) => all_resolve(self@.upstream_urls) && text::texts(urls@) == models_urls(
                    self@.upstream_urls,
                ),
                None => !all_resolve(self@.upstream_urls),
            },
    {
        if self.upstream_urls_resolve() {
            Some(self.models_urls())
        } else {
            None
        }
    }

    /// Reads a list of terms to ignore.
    pub fn parse_system_prompt_ignore_terms(value: &str) -> (r: Vec<String>)
        ensures
            text::texts(r@) == ignore_terms(value@),
    {
        let marks: [char; 2] = [';', '\n'];
        assert(marks@ == seq![';', '\n']);
        entries_of_list(value, &marks)
    }

    /// Drops the terms that repeat one before them.
    pub fn dedupe_ignore_terms(terms: &mut Vec<String>)
        ensures
            text::texts(final(terms)@) == deduped(text::texts(old(terms)@)),
    {
        let ghost all = text::texts(terms@);
        let mut given: Vec<String> = Vec::new();
        std::mem::swap(&mut given, terms);
        let mut kept: Vec<String> = Vec::new();
        let mut seen: Vec<String> = Vec::new();
        assert(all.take(0) == Seq::<Seq<char>>::empty());
        assert(text::texts(kept@) == Seq::<Seq<char>>::empty());
        for term in it: given
            invariant
                it.seq() == given@,
                all == text::texts(given@),
                text::texts(kept@) == deduped(all.take(it.index() as int)),
                forall|t: Seq<char>|
                    #![trigger repeats(all.take(it.index() as int), t)]
                    text::texts(seen@).contains(fold(t)) <==> repeats(
                        all.take(it.index() as int),
                        t,
                    ),
        {
            let ghost n = it.index() as int;
            let ghost before = all.take(n);
            let ghost after = all.take(n + 1);
            let ghost kept_before = text::texts(kept@);
            let ghost seen_before = text::texts(seen@);
            let ghost last = term@;
            assert(after.drop_last() == before);
            assert(after.last() == last);
            let form = folded(&term);
            assert(form@ == fold(last));
            assert(repeats(before, last) <==> seen_before.contains(fold(last)));
            if !is_among(&seen, &form) {
                seen.push(form);
                kept.push(term);
                assert(text::texts(kept@) == kept_before.push(last));
                assert(text::texts(seen@) == seen_before.push(fold(last)));
            }
            assert forall|t: Seq<char>|
                #![trigger repeats(after, t)]
                text::texts(seen@).contains(fold(t)) <==> repeats(after, t) by {
                let seen_after = text::texts(seen@);
                assert(repeats(before, t) <==> seen_before.contains(fold(t)));
                assert(forall|k: int| 0 <= k < n ==> #[trigger] before[k] == after[k]);
                if seen_after.contains(fold(t)) {
                    let k = seen_after.index_of(fold(t));
                    if k < seen_before.len() {
                        assert(seen_before[k] == fold(t));
                        let j = choose|j: int|
                            0 <= j < before.len() && fold(#[trigger] before[j]) == fold(t);
                        assert(after[j] == before[j]);
                    } else {
                        assert(after[n] == last);
                    }
                }
                if repeats(after, t) {
                    let j = choose|j: int|
                        0 <= j < after.len() && fold(#[trigger] after[j]) == fold(t);
                    if j < n {
                        assert(before[j] == after[j]);
                        assert(repeats(before, t));
                        let k = seen_before.index_of(fold(t));
                        assert(seen_after[k] == fold(t));
                    } else if seen_before.contains(fold(last)) {
                        let k = seen_before.index_of(fold(t));
                        assert(seen_after[k] == fold(t));
                    } else {
                        assert(seen_after[seen_before.len() as int] == fold(t));
                    }
                }
            }
        }
        assert(all.take(all.len() as int) == all);
        *terms = kept;
    }

    /// Reads a model map.
    pub fn parse_model_map(value: &str) -> (r: Result<NameMap<String>, ModelMapError>)
        ensures
            model_map_outcome(r) == model_map(value@),
    {
        let marks: [char; 2] = [';', '\n'];
        assert(marks@ == seq![';', '\n']);
        let entries = entries_of_list(value, &marks);
        let ghost all = text::texts(entries@);
        let mut map: NameMap<String> = NameMap::new();
        let mut i: usize = 0;
        assert(all.take(0) == Seq::<Seq<char>>::empty());
        while i < entries.len()
            invariant
                i <= entries@.len(),
                all == text::texts(entries@),
                all == text::list_entries(value@, seq![';', '\n']),
                model_map_of(all.take(i as int)) == Ok::<_, ModelMapErrorView>(map@),
            decreases entries@.len() - i,
        {
            let entry = &entries[i];
            assert(all.take(i + 1).drop_last() == all.take(i as int));
            assert(all.take(i + 1).last() == entry@);
            let outcome = match split_text_once(entry, '=') {
                None => Err(ModelMapError::NoTarget(entry.clone())),
                Some((source, target)) => {
                    let source = trimmed(&source);
                    let target = trimmed(&target);
                    if source.as_str().is_empty() || target.as_str().is_empty() {
                        Err(ModelMapError::EmptySide(entry.clone()))
                    } else {
                        Ok((source, target))
                    }
                },
            };
            match outcome {
                Err(error) => {
                    proof {
                        lemma_model_map_refused(all, i + 1);
                    }
                    return Err(error);
                },
                Ok((source, target)) => map.insert(source, target),
            }
            i += 1;
        }
        assert(all.take(i as int) == all);
        Ok(map)
    }
}

proof fn lemma_model_map_refused(entries: Seq<Seq<char>>, n: int)
    requires
        0 <= n <= entries.len(),
        model_map_of(entries.take(n)) is Err,
    ensures
        model_map_of(entries) == model_map_of(entries.take(n)),
    decreases entries.len() - n,
{
    if n < entries.len() {
        assert(entries.take(n + 1).drop_last() == entries.take(n));
        lemma_model_map_refused(entries, n + 1);
    } else {
        assert(entries.take(n) == entries);
    }
}

} // verus!
