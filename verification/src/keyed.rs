//! Sets of texts, and values kept under texts.
use vstd::prelude::*;

use crate::text;

verus! {

/// Values under keys, in the order in which the keys came.
pub type Pairs = Seq<(Seq<char>, Seq<char>)>;

/// The value under `key` among the entries from `from` on.
pub open spec fn value_from(pairs: Pairs, key: Seq<char>, from: int) -> Option<Seq<char>>
    decreases pairs.len() - from,
{
    if from < 0 || from >= pairs.len() {
        None
    } else if pairs[from].0 == key {
        Some(pairs[from].1)
    } else {
        value_from(pairs, key, from + 1)
    }
}

/// The value under `key`.
pub open spec fn value_of(pairs: Pairs, key: Seq<char>) -> Option<Seq<char>> {
    value_from(pairs, key, 0)
}

/// The first position at or after `from` of an entry under `key`, or the number of
/// entries where there is none.
pub open spec fn key_position(pairs: Pairs, key: Seq<char>, from: int) -> int
    decreases pairs.len() - from,
{
    if from >= pairs.len() {
        pairs.len() as int
    } else if pairs[from].0 == key {
        from
    } else {
        key_position(pairs, key, from + 1)
    }
}

/// `pairs` with `value` under `key`, in the place of the value that was there, or last.
pub open spec fn with_value(pairs: Pairs, key: Seq<char>, value: Seq<char>) -> Pairs {
    let position = key_position(pairs, key, 0);
    if 0 <= position < pairs.len() {
        pairs.update(position, (key, value))
    } else {
        pairs.push((key, value))
    }
}

/// [`key_position`] gives the first position of the key.
pub proof fn lemma_key_position(pairs: Pairs, key: Seq<char>, from: int)
    requires
        0 <= from <= pairs.len(),
    ensures
        from <= key_position(pairs, key, from) <= pairs.len(),
        key_position(pairs, key, from) < pairs.len() ==> pairs[key_position(pairs, key, from)].0
            == key && value_from(pairs, key, from) == Some(
            pairs[key_position(pairs, key, from)].1,
        ),
        key_position(pairs, key, from) == pairs.len() ==> value_from(pairs, key, from) is None,
        forall|i: int|
            from <= i < key_position(pairs, key, from) ==> (#[trigger] pairs[i]).0 != key,
    decreases pairs.len() - from,
{
    if from < pairs.len() && pairs[from].0 != key {
        lemma_key_position(pairs, key, from + 1);
    }
}

/// What stands under a key where the entries differ from others only under another key.
proof fn lemma_value_elsewhere(left: Pairs, right: Pairs, key: Seq<char>, from: int)
    requires
        0 <= from,
        left.len() <= right.len(),
        forall|i: int|
            from <= i < left.len() ==> (#[trigger] left[i]) == right[i] || (left[i].0 != key
                && right[i].0 != key),
        forall|i: int| left.len() <= i < right.len() ==> (#[trigger] right[i]).0 != key,
    ensures
        value_from(left, key, from) == value_from(right, key, from),
    decreases right.len() - from,
{
    if from < right.len() {
        lemma_value_elsewhere(left, right, key, from + 1);
    }
}

/// The value that was put under a key stands there, and what stands under other keys
/// does not change.
pub proof fn lemma_with_value(pairs: Pairs, key: Seq<char>, value: Seq<char>, other: Seq<char>)
    ensures
        value_of(with_value(pairs, key, value), key) == Some(value),
        other != key ==> value_of(with_value(pairs, key, value), other) == value_of(pairs, other),
        value_of(pairs, key) is Some ==> with_value(pairs, key, value).len() == pairs.len(),
        value_of(pairs, key) is None ==> with_value(pairs, key, value) == pairs.push((key, value)),
{
    lemma_key_position(pairs, key, 0);
    let after = with_value(pairs, key, value);
    let position = key_position(pairs, key, 0);
    lemma_key_position(after, key, 0);
    let found = key_position(after, key, 0);
    assert(after[position] == (key, value));
    if found < position {
        assert(after[found] == pairs[found]);
    }
    assert(found == position);
    if other != key {
        lemma_value_elsewhere(pairs, after, other, 0);
    }
}

/// Whether no two entries have the same key.
pub open spec fn distinct_keys(pairs: Pairs) -> bool {
    forall|i: int, j: int|
        0 <= i < j < pairs.len() ==> (#[trigger] pairs[i]).0 != (#[trigger] pairs[j]).0
}

/// Putting a value under a key leaves the keys distinct.
pub proof fn lemma_distinct_with_value(pairs: Pairs, key: Seq<char>, value: Seq<char>)
    requires
        distinct_keys(pairs),
    ensures
        distinct_keys(with_value(pairs, key, value)),
{
    lemma_key_position(pairs, key, 0);
    let after = with_value(pairs, key, value);
    assert forall|i: int, j: int| 0 <= i < j < after.len() implies (#[trigger] after[i]).0 != (
    #[trigger] after[j]).0 by {
        if j < pairs.len() {
            assert(after[i].0 == pairs[i].0 && after[j].0 == pairs[j].0);
        } else {
            assert(after[i] == pairs[i]);
        }
    }
}

/// `pairs` with each of `others`, in order.
pub open spec fn with_values(pairs: Pairs, others: Pairs) -> Pairs
    decreases others.len(),
{
    if others.len() == 0 {
        pairs
    } else {
        with_value(with_values(pairs, others.drop_last()), others.last().0, others.last().1)
    }
}

/// Values under texts.
#[derive(Debug, PartialEq, Eq)]
pub struct TextMap {
    entries: Vec<(String, String)>,
}

/// The views of entries.
pub open spec fn pair_views(entries: Seq<(String, String)>) -> Pairs {
    entries.map_values(|entry: (String, String)| (entry.0@, entry.1@))
}

impl View for TextMap {
    type V = Pairs;

    closed spec fn view(&self) -> Pairs {
        pair_views(self.entries@)
    }
}

impl Clone for TextMap {
    fn clone(&self) -> (copy: Self)
        ensures
            copy@ == self@,
    {
        let mut entries: Vec<(String, String)> = Vec::new();
        let mut i: usize = 0;
        while i < self.entries.len()
            invariant
                i <= self.entries@.len(),
                entries@.len() == i,
                forall|j: int|
                    0 <= j < i ==> (#[trigger] entries@[j]).0@ == self.entries@[j].0@
                        && entries@[j].1@ == self.entries@[j].1@,
            decreases self.entries@.len() - i,
        {
            entries.push((self.entries[i].0.clone(), self.entries[i].1.clone()));
            i += 1;
        }
        assert(pair_views(entries@) =~= pair_views(self.entries@));
        TextMap { entries }
    }
}

impl TextMap {
    pub fn new() -> (map: Self)
        ensures
            map@ == Pairs::empty(),
    {
        let map = TextMap { entries: Vec::new() };
        assert(map@ =~= Pairs::empty());
        map
    }

    /// The value under `key`.
    pub fn get(&self, key: &str) -> (value: Option<&str>)
        ensures
            match value {
                Some(value) => value_of(self@, key@) == Some(value@),
                None => value_of(self@, key@) is None,
            },
    {
        let mut i: usize = 0;
        while i < self.entries.len()
            invariant
                i <= self.entries@.len(),
                value_from(self@, key@, i as int) == value_of(self@, key@),
            decreases self.entries@.len() - i,
        {
            assert(self@[i as int] == (self.entries@[i as int].0@, self.entries@[i as int].1@));
            if text::same_text(self.entries[i].0.as_str(), key) {
                return Some(self.entries[i].1.as_str());
            }
            i += 1;
        }
        None
    }

    /// Puts `value` under `key`.
    pub fn put(&mut self, key: &str, value: &str)
        ensures
            final(self)@ == with_value(old(self)@, key@, value@),
    {
        let ghost before = self@;
        let mut i: usize = 0;
        while i < self.entries.len()
            invariant
                i <= self.entries@.len(),
                before == self@,
                before == old(self)@,
                key_position(before, key@, i as int) == key_position(before, key@, 0),
            decreases self.entries@.len() - i,
        {
            assert(self@[i as int] == (self.entries@[i as int].0@, self.entries@[i as int].1@));
            if text::same_text(self.entries[i].0.as_str(), key) {
                self.entries.set(i, (text::copy_text(key), text::copy_text(value)));
                assert(self@ =~= before.update(i as int, (key@, value@)));
                return;
            }
            i += 1;
        }
        self.entries.push((text::copy_text(key), text::copy_text(value)));
        assert(self@ =~= before.push((key@, value@)));
    }

    pub fn len(&self) -> (count: usize)
        ensures
            count == self@.len(),
    {
        self.entries.len()
    }

    /// The entry at `index`.
    pub fn entry(&self, index: usize) -> (entry: (&str, &str))
        requires
            index < self@.len(),
        ensures
            (entry.0@, entry.1@) == self@[index as int],
    {
        assert(self@[index as int] == (
            self.entries@[index as int].0@,
            self.entries@[index as int].1@,
        ));
        (self.entries[index].0.as_str(), self.entries[index].1.as_str())
    }
}

/// A set of texts.
#[derive(Debug, PartialEq, Eq)]
pub struct TextSet {
    items: Vec<String>,
}

impl View for TextSet {
    type V = Set<Seq<char>>;

    closed spec fn view(&self) -> Set<Seq<char>> {
        text::texts(self.items@).to_set()
    }
}

impl Clone for TextSet {
    fn clone(&self) -> (copy: Self)
        ensures
            copy@ == self@,
    {
        TextSet { items: text::copy_texts(&self.items) }
    }
}

impl TextSet {
    pub fn new() -> (set: Self)
        ensures
            set@ == Set::<Seq<char>>::empty(),
    {
        let set = TextSet { items: Vec::new() };
        assert(set@ =~= Set::<Seq<char>>::empty());
        set
    }

    pub fn contains(&self, item: &str) -> (result: bool)
        ensures
            result == self@.contains(item@),
    {
        let mut i: usize = 0;
        while i < self.items.len()
            invariant
                i <= self.items@.len(),
                forall|j: int| 0 <= j < i ==> (#[trigger] text::texts(self.items@)[j]) != item@,
            decreases self.items@.len() - i,
        {
            if text::same_text(self.items[i].as_str(), item) {
                assert(text::texts(self.items@)[i as int] == item@);
                return true;
            }
            i += 1;
        }
        false
    }

    pub fn insert(&mut self, item: &str)
        ensures
            final(self)@ == old(self)@.insert(item@),
    {
        let ghost before = text::texts(self.items@);
        if self.contains(item) {
            assert(self@ =~= old(self)@.insert(item@));
            return;
        }
        self.items.push(text::copy_text(item));
        let ghost after = text::texts(self.items@);
        assert(after =~= before.push(item@));
        assert forall|other: Seq<char>|
            after.contains(other) <==> before.contains(other) || other == item@ by {
            if before.contains(other) {
                let at = choose|i: int| 0 <= i < before.len() && before[i] == other;
                assert(after[at] == other);
            }
            assert(after[before.len() as int] == item@);
        }
        assert(self@ =~= old(self)@.insert(item@));
    }
}

} // verus!
