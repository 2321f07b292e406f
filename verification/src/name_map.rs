//! A map from names to values that is walked in the order of the names.
use vstd::prelude::*;

use crate::order;
use crate::order::comes_before;
use crate::text::same_text;

verus! {

/// Whether the names strictly ascend.
pub open spec fn ascending<T>(entries: Seq<(Seq<char>, T)>) -> bool {
    forall|i: int, j: int|
        0 <= i < j < entries.len() ==> order::before(
            (#[trigger] entries[i]).0,
            (#[trigger] entries[j]).0,
        )
}

/// The value that stands under `name`.
pub open spec fn lookup<T>(entries: Seq<(Seq<char>, T)>, name: Seq<char>) -> Option<T>
    decreases entries.len(),
{
    if entries.len() == 0 {
        None
    } else if entries.first().0 == name {
        Some(entries.first().1)
    } else {
        lookup(entries.drop_first(), name)
    }
}

/// The entries with `value` under `name`: in the place of the value that stood
/// there, or as a new entry before the first greater name.
pub open spec fn inserted<T>(
    entries: Seq<(Seq<char>, T)>,
    name: Seq<char>,
    value: T,
) -> Seq<(Seq<char>, T)>
    decreases entries.len(),
{
    if entries.len() == 0 {
        seq![(name, value)]
    } else if entries.first().0 == name {
        seq![(name, value)] + entries.drop_first()
    } else if order::before(name, entries.first().0) {
        seq![(name, value)] + entries
    } else {
        seq![entries.first()] + inserted(entries.drop_first(), name, value)
    }
}

/// The entries with each of `added` inserted, one after the other.
pub open spec fn extended<T>(
    entries: Seq<(Seq<char>, T)>,
    added: Seq<(Seq<char>, T)>,
) -> Seq<(Seq<char>, T)>
    decreases added.len(),
{
    if added.len() == 0 {
        entries
    } else {
        inserted(extended(entries, added.drop_last()), added.last().0, added.last().1)
    }
}

/// The names and the views of the values of a vector of pairs.
pub open spec fn pairs<V: View>(entries: Seq<(String, V)>) -> Seq<(Seq<char>, V::V)> {
    Seq::new(entries.len(), |i: int| (entries[i].0@, entries[i].1@))
}

/// The names of a vector of pairs, each with its value as it is.
spec fn named<V>(entries: Seq<(String, V)>) -> Seq<(Seq<char>, V)> {
    Seq::new(entries.len(), |i: int| (entries[i].0@, entries[i].1))
}

proof fn lemma_named<V: View>(entries: Seq<(String, V)>)
    ensures
        ascending(named(entries)) == ascending(pairs(entries)),
{
    let a = named(entries);
    let b = pairs(entries);
    assert(forall|i: int| 0 <= i < entries.len() ==> (#[trigger] a[i]).0 == (#[trigger] b[i]).0);
    if ascending(a) {
        assert forall|i: int, j: int| 0 <= i < j < b.len() implies order::before(
            (#[trigger] b[i]).0,
            (#[trigger] b[j]).0,
        ) by {
            assert(order::before(a[i].0, a[j].0));
        }
    }
    if ascending(b) {
        assert forall|i: int, j: int| 0 <= i < j < a.len() implies order::before(
            (#[trigger] a[i]).0,
            (#[trigger] a[j]).0,
        ) by {
            assert(order::before(b[i].0, b[j].0));
        }
    }
}

/// The value under a name that occurs is the value of that entry.
pub proof fn lookup_of_entry<T>(entries: Seq<(Seq<char>, T)>, i: int)
    requires
        ascending(entries),
        0 <= i < entries.len(),
    ensures
        lookup(entries, entries[i].0) == Some(entries[i].1),
    decreases entries.len(),
{
    if i > 0 {
        order::order_is_asymmetric(entries[0].0, entries[i].0);
        let rest = entries.drop_first();
        assert(rest[i - 1] == entries[i]);
        lemma_ascending_rest(entries);
        lookup_of_entry(rest, i - 1);
    }
}

/// A name that no entry has leads to no value.
pub proof fn lookup_of_absent<T>(entries: Seq<(Seq<char>, T)>, name: Seq<char>)
    requires
        forall|i: int| 0 <= i < entries.len() ==> (#[trigger] entries[i]).0 != name,
    ensures
        lookup(entries, name) is None,
    decreases entries.len(),
{
    if entries.len() > 0 {
        let rest = entries.drop_first();
        assert(forall|i: int| 0 <= i < rest.len() ==> rest[i] == entries[i + 1]);
        assert(entries[0].0 != name);
        lookup_of_absent(rest, name);
    }
}

/// A name that leads to a value is the name of an entry with that value.
pub proof fn position_of_lookup<T>(entries: Seq<(Seq<char>, T)>, name: Seq<char>) -> (i: int)
    requires
        lookup(entries, name) is Some,
    ensures
        0 <= i < entries.len(),
        entries[i].0 == name,
        lookup(entries, name) == Some(entries[i].1),
    decreases entries.len(),
{
    if entries.first().0 == name {
        0
    } else {
        position_of_lookup(entries.drop_first(), name) + 1
    }
}

proof fn lemma_ascending_rest<T>(entries: Seq<(Seq<char>, T)>)
    requires
        ascending(entries),
        entries.len() > 0,
    ensures
        ascending(entries.drop_first()),
{
    let rest = entries.drop_first();
    assert forall|i: int, j: int| 0 <= i < j < rest.len() implies order::before(
        (#[trigger] rest[i]).0,
        (#[trigger] rest[j]).0,
    ) by {
        assert(rest[i] == entries[i + 1]);
        assert(rest[j] == entries[j + 1]);
    }
}

proof fn lemma_inserted_after<T>(
    entries: Seq<(Seq<char>, T)>,
    name: Seq<char>,
    value: T,
    n: int,
)
    requires
        0 <= n <= entries.len(),
        forall|i: int| 0 <= i < n ==> order::before((#[trigger] entries[i]).0, name),
    ensures
        inserted(entries, name, value) == entries.take(n) + inserted(
            entries.skip(n),
            name,
            value,
        ),
    decreases n,
{
    if n == 0 {
        assert(entries.skip(0) == entries);
        assert(entries.take(0) + inserted(entries, name, value) == inserted(entries, name, value));
    } else {
        assert(order::before(entries[0].0, name));
        order::order_is_asymmetric(entries[0].0, name);
        let rest = entries.drop_first();
        assert forall|i: int| 0 <= i < n - 1 implies order::before(
            (#[trigger] rest[i]).0,
            name,
        ) by {
            assert(rest[i] == entries[i + 1]);
        }
        lemma_inserted_after(rest, name, value, n - 1);
        assert(rest.skip(n - 1) == entries.skip(n));
        assert(seq![entries.first()] + rest.take(n - 1) == entries.take(n));
        let tail = inserted(entries.skip(n), name, value);
        assert(seq![entries.first()] + (rest.take(n - 1) + tail) == entries.take(n) + tail);
    }
}

/// After an insertion the name leads to the value, and every other name leads
/// where it led before.
pub proof fn lookup_after_insert<T>(
    entries: Seq<(Seq<char>, T)>,
    name: Seq<char>,
    value: T,
    other: Seq<char>,
)
    ensures
        lookup(inserted(entries, name, value), other) == if other == name {
            Some(value)
        } else {
            lookup(entries, other)
        },
    decreases entries.len(),
{
    let result = inserted(entries, name, value);
    let none = Seq::<(Seq<char>, T)>::empty();
    if entries.len() == 0 {
        assert(result.first() == (name, value));
        assert(result.drop_first() == none);
        assert(lookup(none, other) is None);
        assert(lookup(entries, other) is None);
    } else if entries.first().0 == name {
        assert(result.first() == (name, value));
        assert(result.drop_first() == entries.drop_first());
    } else if order::before(name, entries.first().0) {
        assert(result.first() == (name, value));
        assert(result.drop_first() == entries);
    } else {
        lookup_after_insert(entries.drop_first(), name, value, other);
        assert(result.first() == entries.first());
        assert(result.drop_first() == inserted(entries.drop_first(), name, value));
    }
}

proof fn lemma_inserted_names<T>(
    entries: Seq<(Seq<char>, T)>,
    name: Seq<char>,
    value: T,
    low: Seq<char>,
)
    requires
        order::before(low, name),
        forall|i: int| 0 <= i < entries.len() ==> order::before(
            low,
            (#[trigger] entries[i]).0,
        ),
    ensures
        forall|i: int|
            0 <= i < inserted(entries, name, value).len() ==> order::before(
                low,
                (#[trigger] inserted(entries, name, value)[i]).0,
            ),
    decreases entries.len(),
{
    let result = inserted(entries, name, value);
    if entries.len() > 0 {
        let rest = entries.drop_first();
        assert(forall|i: int| 0 <= i < rest.len() ==> rest[i] == entries[i + 1]);
        lemma_inserted_names(rest, name, value, low);
        let tail = inserted(rest, name, value);
        assert forall|i: int| 0 <= i < result.len() implies order::before(
            low,
            (#[trigger] result[i]).0,
        ) by {
            if entries.first().0 == name {
                if i > 0 {
                    assert(result[i] == rest[i - 1]);
                }
            } else if order::before(name, entries.first().0) {
                if i > 0 {
                    assert(result[i] == entries[i - 1]);
                }
            } else if i > 0 {
                assert(result[i] == tail[i - 1]);
            } else {
                assert(result[0] == entries[0]);
            }
        }
    }
}

/// An insertion keeps the names in their order.
pub proof fn insert_keeps_order<T>(entries: Seq<(Seq<char>, T)>, name: Seq<char>, value: T)
    requires
        ascending(entries),
    ensures
        ascending(inserted(entries, name, value)),
    decreases entries.len(),
{
    let result = inserted(entries, name, value);
    if entries.len() > 0 {
        let rest = entries.drop_first();
        lemma_ascending_rest(entries);
        if entries.first().0 == name {
            assert forall|i: int, j: int| 0 <= i < j < result.len() implies order::before(
                (#[trigger] result[i]).0,
                (#[trigger] result[j]).0,
            ) by {
                assert(result[i].0 == entries[i].0);
                assert(result[j].0 == entries[j].0);
            }
        } else if order::before(name, entries.first().0) {
            assert forall|i: int, j: int| 0 <= i < j < result.len() implies order::before(
                (#[trigger] result[i]).0,
                (#[trigger] result[j]).0,
            ) by {
                assert(result[j] == entries[j - 1]);
                if i > 0 {
                    assert(result[i] == entries[i - 1]);
                } else if j > 1 {
                    order::order_is_transitive(name, entries[0].0, entries[j - 1].0);
                }
            }
        } else {
            let tail = inserted(rest, name, value);
            order::order_is_total(name, entries.first().0);
            insert_keeps_order(rest, name, value);
            assert forall|i: int| 0 <= i < rest.len() implies order::before(
                entries.first().0,
                (#[trigger] rest[i]).0,
            ) by {
                assert(rest[i] == entries[i + 1]);
                assert(entries[0] == entries.first());
            }
            lemma_inserted_names(rest, name, value, entries.first().0);
            assert forall|i: int, j: int| 0 <= i < j < result.len() implies order::before(
                (#[trigger] result[i]).0,
                (#[trigger] result[j]).0,
            ) by {
                assert(result[j] == tail[j - 1]);
                if i > 0 {
                    assert(result[i] == tail[i - 1]);
                }
            }
        }
    }
}

/// Inserted entries keep the names in their order.
pub proof fn extend_keeps_order<T>(entries: Seq<(Seq<char>, T)>, added: Seq<(Seq<char>, T)>)
    requires
        ascending(entries),
    ensures
        ascending(extended(entries, added)),
    decreases added.len(),
{
    if added.len() > 0 {
        let init = added.drop_last();
        extend_keeps_order(entries, init);
        insert_keeps_order(extended(entries, init), added.last().0, added.last().1);
    }
}

proof fn lemma_ascending_init<T>(entries: Seq<(Seq<char>, T)>)
    requires
        ascending(entries),
        entries.len() > 0,
    ensures
        ascending(entries.drop_last()),
        lookup(entries, entries.last().0) == Some(entries.last().1),
        forall|name: Seq<char>|
            name != entries.last().0 ==> #[trigger] lookup(entries, name) == lookup(
                entries.drop_last(),
                name,
            ),
    decreases entries.len(),
{
    let init = entries.drop_last();
    let last = entries.last();
    assert(forall|i: int| 0 <= i < init.len() ==> #[trigger] init[i] == entries[i]);
    assert forall|i: int, j: int| 0 <= i < j < init.len() implies order::before(
        (#[trigger] init[i]).0,
        (#[trigger] init[j]).0,
    ) by {
        assert(init[i] == entries[i]);
        assert(init[j] == entries[j]);
    }
    lookup_of_entry(entries, entries.len() - 1);
    assert forall|name: Seq<char>| name != last.0 implies #[trigger] lookup(entries, name)
        == lookup(init, name) by {
        if entries.len() > 1 {
            lemma_ascending_rest(entries);
            let rest = entries.drop_first();
            assert(rest.last() == last);
            lemma_ascending_init(rest);
            assert(rest.drop_last() == init.drop_first());
            assert(init.first() == entries.first());
            assert(lookup(rest, name) == lookup(rest.drop_last(), name));
        } else {
            assert(entries.first() == last);
            assert(lookup(entries.drop_first(), name) is None);
        }
    }
}

/// After the entries of another map are inserted, a name leads where it leads
/// in that map, and one that is not in it leads where it led before.
pub proof fn lookup_after_extend<T>(
    entries: Seq<(Seq<char>, T)>,
    added: Seq<(Seq<char>, T)>,
    name: Seq<char>,
)
    requires
        ascending(added),
    ensures
        lookup(extended(entries, added), name) == match lookup(added, name) {
            Some(value) => Some(value),
            None => lookup(entries, name),
        },
    decreases added.len(),
{
    if added.len() > 0 {
        let init = added.drop_last();
        lemma_ascending_init(added);
        lookup_after_extend(entries, init, name);
        lookup_after_insert(extended(entries, init), added.last().0, added.last().1, name);
        if name != added.last().0 {
            assert(lookup(added, name) == lookup(init, name));
        }
    }
}

/// After entries are inserted that agree on the value under a name, the name
/// leads to that value; one that none of them has leads where it led before.
pub proof fn lookup_after_agreeing<T>(
    entries: Seq<(Seq<char>, T)>,
    added: Seq<(Seq<char>, T)>,
    name: Seq<char>,
    value: T,
)
    requires
        forall|k: int|
            0 <= k < added.len() && (#[trigger] added[k]).0 == name ==> added[k].1 == value,
    ensures
        lookup(extended(entries, added), name) == if exists|k: int|
            0 <= k < added.len() && (#[trigger] added[k]).0 == name {
            Some(value)
        } else {
            lookup(entries, name)
        },
    decreases added.len(),
{
    if added.len() > 0 {
        let init = added.drop_last();
        let n = init.len() as int;
        assert(forall|k: int| 0 <= k < n ==> #[trigger] init[k] == added[k]);
        assert(added[n] == added.last());
        lookup_after_agreeing(entries, init, name, value);
        lookup_after_insert(extended(entries, init), added.last().0, added.last().1, name);
        if exists|k: int| 0 <= k < added.len() && (#[trigger] added[k]).0 == name {
            let k = choose|k: int| 0 <= k < added.len() && (#[trigger] added[k]).0 == name;
            if k < n {
                assert(init[k].0 == name);
            }
        }
        if exists|k: int| 0 <= k < n && (#[trigger] init[k]).0 == name {
            let k = choose|k: int| 0 <= k < n && (#[trigger] init[k]).0 == name;
            assert(added[k].0 == name);
        }
    }
}

proof fn lemma_views_of_inserted<V: View>(
    entries: Seq<(Seq<char>, V)>,
    viewed: Seq<(Seq<char>, V::V)>,
    name: Seq<char>,
    value: V,
)
    requires
        entries.len() == viewed.len(),
        forall|i: int|
            0 <= i < entries.len() ==> (#[trigger] viewed[i]) == (entries[i].0, entries[i].1@),
    ensures
        inserted(entries, name, value).len() == inserted(viewed, name, value@).len(),
        forall|i: int|
            0 <= i < inserted(entries, name, value).len() ==> (#[trigger] inserted(
                viewed,
                name,
                value@,
            )[i]) == (inserted(entries, name, value)[i].0, inserted(entries, name, value)[i].1@),
    decreases entries.len(),
{
    if entries.len() > 0 {
        assert(viewed[0] == (entries[0].0, entries[0].1@));
        let rest = entries.drop_first();
        let viewed_rest = viewed.drop_first();
        assert forall|i: int| 0 <= i < rest.len() implies (#[trigger] viewed_rest[i]) == (
            rest[i].0,
            rest[i].1@,
        ) by {
            assert(viewed_rest[i] == viewed[i + 1]);
            assert(rest[i] == entries[i + 1]);
        }
        lemma_views_of_inserted(rest, viewed_rest, name, value);
        let a = inserted(entries, name, value);
        let b = inserted(viewed, name, value@);
        let c = inserted(rest, name, value);
        let d = inserted(viewed_rest, name, value@);
        assert forall|i: int| 0 <= i < a.len() implies (#[trigger] b[i]) == (a[i].0, a[i].1@) by {
            if entries.first().0 == name {
                if i > 0 {
                    assert(b[i] == viewed[i]);
                }
            } else if order::before(name, entries.first().0) {
                if i > 0 {
                    assert(b[i] == viewed[i - 1]);
                }
            } else if i > 0 {
                assert(b[i] == d[i - 1]);
                assert(a[i] == c[i - 1]);
            } else {
                assert(b[0] == viewed[0]);
            }
        }
    }
}

/// A map from names to values, kept in the order of the names.
#[derive(Debug)]
pub struct NameMap<V> {
    entries: Vec<(String, V)>,
}

impl<V: View> View for NameMap<V> {
    type V = Seq<(Seq<char>, V::V)>;

    closed spec fn view(&self) -> Seq<(Seq<char>, V::V)> {
        pairs(self.entries@)
    }
}

impl<V> NameMap<V> {
    #[verifier::type_invariant]
    spec fn in_order(self) -> bool {
        ascending(named(self.entries@))
    }
}

impl<V: View> NameMap<V> {
    /// A map without entries.
    pub fn new() -> (r: Self)
        ensures
            r@ == Seq::<(Seq<char>, V::V)>::empty(),
    {
        let r = NameMap { entries: Vec::new() };
        assert(r@ == Seq::<(Seq<char>, V::V)>::empty());
        r
    }

    /// The number of entries.
    pub fn len(&self) -> (r: usize)
        ensures
            r == self@.len(),
            ascending(self@),
    {
        proof {
            use_type_invariant(self);
            lemma_named(self.entries@);
        }
        self.entries.len()
    }

    pub fn is_empty(&self) -> (r: bool)
        ensures
            r == (self@.len() == 0),
    {
        self.entries.len() == 0
    }

    /// The value that stands under `name`.
    pub fn get(&self, name: &str) -> (r: Option<&V>)
        ensures
            match r {
                Some(value) => lookup(self@, name@) == Some(value@),
                None => lookup(self@, name@) is None,
            },
    {
        proof {
            use_type_invariant(self);
            lemma_named(self.entries@);
        }
        let mut i: usize = 0;
        while i < self.entries.len()
            invariant
                i <= self.entries@.len(),
                ascending(self@),
                forall|j: int| 0 <= j < i ==> (#[trigger] self@[j]).0 != name@,
            decreases self.entries@.len() - i,
        {
            assert(self@[i as int] == (self.entries@[i as int].0@, self.entries@[i as int].1@));
            if same_text(&self.entries[i].0, name) {
                proof {
                    lookup_of_entry(self@, i as int);
                }
                return Some(&self.entries[i].1);
            }
            i += 1;
        }
        proof {
            lookup_of_absent(self@, name@);
        }
        None
    }

    /// Sets the value under `name`.
    pub fn insert(&mut self, name: String, value: V)
        ensures
            final(self)@ == inserted(old(self)@, name@, value@),
    {
        proof {
            use_type_invariant(&*self);
        }
        let ghost start = self.entries@;
        let mut entries: Vec<(String, V)> = Vec::new();
        std::mem::swap(&mut entries, &mut self.entries);
        let mut i: usize = 0;
        while i < entries.len() && comes_before(&entries[i].0, &name)
            invariant
                i <= entries@.len(),
                entries@ == start,
                forall|j: int|
                    0 <= j < i ==> order::before((#[trigger] named(start)[j]).0, name@),
            decreases entries@.len() - i,
        {
            assert(named(start)[i as int].0 == start[i as int].0@);
            i += 1;
        }
        let ghost n = i as int;
        let ghost key = name@;
        proof {
            lemma_inserted_after(named(start), key, value, n);
            insert_keeps_order(named(start), key, value);
            lemma_views_of_inserted(named(start), pairs(start), key, value);
            if n < start.len() {
                assert(named(start).skip(n).first() == named(start)[n]);
                order::order_is_total(start[n].0@, key);
            }
        }
        if i < entries.len() && same_text(&entries[i].0, &name) {
            entries[i] = (name, value);
            assert(named(entries@) == named(start).take(n) + (seq![(key, value)] + named(
                start,
            ).skip(n).drop_first()));
        } else {
            entries.insert(i, (name, value));
            proof {
                if n < start.len() {
                    assert(named(entries@) == named(start).take(n) + (seq![(key, value)] + named(
                        start,
                    ).skip(n)));
                } else {
                    assert(named(entries@) == named(start).take(n) + seq![(key, value)]);
                }
            }
        }
        assert(named(entries@) == inserted(named(start), key, value));
        self.entries = entries;
        assert(pairs(self.entries@) == inserted(pairs(start), key, value@)) by {
            let a = inserted(named(start), key, value);
            assert(forall|j: int|
                0 <= j < a.len() ==> #[trigger] named(self.entries@)[j] == a[j]);
        }
    }

    /// The map of the given pairs; of two pairs with one name the later counts.
    pub fn from_pairs(given: Vec<(String, V)>) -> (r: Self)
        ensures
            r@ == extended(Seq::empty(), pairs(given@)),
    {
        let mut r: Self = NameMap::new();
        r.insert_all(given);
        r
    }

    fn insert_all(&mut self, given: Vec<(String, V)>)
        ensures
            final(self)@ == extended(old(self)@, pairs(given@)),
    {
        let ghost added = pairs(given@);
        let ghost start = self@;
        assert(added.take(0) == Seq::<(Seq<char>, V::V)>::empty());
        for pair in it: given
            invariant
                it.seq() == given@,
                added == pairs(given@),
                self@ == extended(start, added.take(it.index() as int)),
        {
            let ghost n = it.index() as int;
            assert(added.take(n + 1).drop_last() == added.take(n));
            assert(added.take(n + 1).last() == (pair.0@, pair.1@));
            self.insert(pair.0, pair.1);
        }
        assert(added.take(added.len() as int) == added);
    }

    /// Inserts the entries of another map.
    pub fn extend(&mut self, other: NameMap<V>)
        ensures
            final(self)@ == extended(old(self)@, other@),
    {
        self.insert_all(other.entries);
    }

    /// The name of the entry at `index`, in the order of the names.
    pub fn name(&self, index: usize) -> (r: &String)
        requires
            index < self@.len(),
        ensures
            r@ == self@[index as int].0,
    {
        &self.entries[index].0
    }

    /// The value of the entry at `index`, in the order of the names.
    pub fn value(&self, index: usize) -> (r: &V)
        requires
            index < self@.len(),
        ensures
            r@ == self@[index as int].1,
    {
        &self.entries[index].1
    }
}

impl NameMap<String> {
    /// A second map with the same entries.
    pub fn duplicate(&self) -> (r: Self)
        ensures
            r@ == self@,
    {
        let mut entries: Vec<(String, String)> = Vec::new();
        proof {
            use_type_invariant(self);
        }
        let mut i: usize = 0;
        while i < self.entries.len()
            invariant
                i <= self.entries@.len(),
                entries@ == self.entries@.take(i as int),
            decreases self.entries@.len() - i,
        {
            entries.push((self.entries[i].0.clone(), self.entries[i].1.clone()));
            i += 1;
        }
        assert(entries@ == self.entries@);
        NameMap { entries }
    }
}

impl<V: Clone> NameMap<V> {
    /// Whether a map has the names of another, and under each of them a clone of
    /// the value that stands there.
    pub closed spec fn clones(self, other: Self) -> bool {
        &&& self.entries@.len() == other.entries@.len()
        &&& forall|i: int|
            0 <= i < self.entries@.len() ==> (#[trigger] self.entries@[i]).0@
                == other.entries@[i].0@ && cloned::<V>(other.entries@[i].1, self.entries@[i].1)
    }
}

impl<V: Clone> Clone for NameMap<V> {
    fn clone(&self) -> (r: Self)
        ensures
            r.clones(*self),
    {
        let mut entries: Vec<(String, V)> = Vec::new();
        proof {
            use_type_invariant(self);
        }
        let mut i: usize = 0;
        while i < self.entries.len()
            invariant
                i <= self.entries@.len(),
                entries@.len() == i,
                forall|j: int|
                    0 <= j < i ==> (#[trigger] entries@[j]).0@ == self.entries@[j].0@ && cloned::<V>(
                        self.entries@[j].1,
                        entries@[j].1,
                    ),
            decreases self.entries@.len() - i,
        {
            entries.push((self.entries[i].0.clone(), self.entries[i].1.clone()));
            i += 1;
        }
        assert(ascending(named(entries@))) by {
            let a = named(self.entries@);
            let b = named(entries@);
            assert forall|i: int, j: int| 0 <= i < j < b.len() implies order::before(
                (#[trigger] b[i]).0,
                (#[trigger] b[j]).0,
            ) by {
                assert(order::before(a[i].0, a[j].0));
            }
        }
        NameMap { entries }
    }
}

} // verus!
