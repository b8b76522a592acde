//! JSON values as plain data, and the two conversions between them and text.
use vstd::prelude::*;

use crate::text;

verus! {

/// A JSON value. The members of an object stand in a list of key and value; where
/// a key occurs twice, the first of the two is the one that is read.
#[derive(Debug, PartialEq, Eq)]
pub enum Json {
    Null,
    Bool(bool),
    /// An integer from 0 to `u64::MAX`.
    Unsigned(u64),
    /// An integer below 0.
    Negative(i64),
    /// Any other number, by its text.
    Float(String),
    Text(String),
    Array(Vec<Json>),
    Object(Vec<(String, Json)>),
}

/// What a [`Json`] value holds.
#[verifier::ext_equal]
pub enum JsonView {
    Null,
    Bool(bool),
    Unsigned(u64),
    Negative(i64),
    Float(Seq<char>),
    Text(Seq<char>),
    Array(Seq<JsonView>),
    Object(Seq<(Seq<char>, JsonView)>),
}

impl Json {
    pub open spec fn view(self) -> JsonView
        decreases self,
    {
        match self {
            Json::Null => JsonView::Null,
            Json::Bool(value) => JsonView::Bool(value),
            Json::Unsigned(value) => JsonView::Unsigned(value),
            Json::Negative(value) => JsonView::Negative(value),
            Json::Float(text) => JsonView::Float(text@),
            Json::Text(text) => JsonView::Text(text@),
            Json::Array(items) => JsonView::Array(
                Seq::new(
                    items@.len(),
                    |i: int|
                        if 0 <= i < items@.len() {
                            items@[i].view()
                        } else {
                            JsonView::Null
                        },
                ),
            ),
            Json::Object(entries) => JsonView::Object(
                Seq::new(
                    entries@.len(),
                    |i: int|
                        if 0 <= i < entries@.len() {
                            (entries@[i].0@, entries@[i].1.view())
                        } else {
                            (Seq::<char>::empty(), JsonView::Null)
                        },
                ),
            ),
        }
    }
}

/// The views of a sequence of values.
pub open spec fn json_views(items: Seq<Json>) -> Seq<JsonView> {
    items.map_values(|item: Json| item@)
}

/// The views of a sequence of object members.
pub open spec fn entry_views(entries: Seq<(String, Json)>) -> Seq<(Seq<char>, JsonView)> {
    entries.map_values(|entry: (String, Json)| (entry.0@, entry.1@))
}

/// The view of an array and of an object, by the views of what they hold.
pub broadcast proof fn lemma_container_views(json: Json)
    ensures
        json is Array ==> #[trigger] json@ == JsonView::Array(json_views(json->Array_0@)),
        json is Object ==> json@ == JsonView::Object(entry_views(json->Object_0@)),
{
    match json {
        Json::Array(items) => {
            assert(json@->Array_0 =~= json_views(items@));
        },
        Json::Object(entries) => {
            assert(json@->Object_0 =~= entry_views(entries@));
        },
        _ => {},
    }
}

impl Clone for Json {
    fn clone(&self) -> (copy: Self)
        ensures
            copy@ == self@,
        decreases self,
    {
        match self {
            Json::Null => Json::Null,
            Json::Bool(value) => Json::Bool(*value),
            Json::Unsigned(value) => Json::Unsigned(*value),
            Json::Negative(value) => Json::Negative(*value),
            Json::Float(text) => Json::Float(text::copy_text(text.as_str())),
            Json::Text(text) => Json::Text(text::copy_text(text.as_str())),
            Json::Array(items) => {
                let mut copies: Vec<Json> = Vec::new();
                let mut i: usize = 0;
                while i < items.len()
                    invariant
                        i <= items@.len(),
                        *self is Array,
                        *items == self->Array_0,
                        copies@.len() == i,
                        forall|j: int| 0 <= j < i ==> (#[trigger] copies@[j])@ == items@[j]@,
                    decreases items@.len() - i,
                {
                    assert(decreases_to!(self => items@[i as int]));
                    copies.push(items[i].clone());
                    i += 1;
                }
                let copy = Json::Array(copies);
                proof {
                    lemma_container_views(copy);
                    lemma_container_views(*self);
                    assert(json_views(copies@) =~= json_views(items@));
                }
                copy
            },
            Json::Object(entries) => {
                let mut copies: Vec<(String, Json)> = Vec::new();
                let mut i: usize = 0;
                while i < entries.len()
                    invariant
                        i <= entries@.len(),
                        *self is Object,
                        *entries == self->Object_0,
                        copies@.len() == i,
                        forall|j: int|
                            0 <= j < i ==> (#[trigger] copies@[j]).0@ == entries@[j].0@
                                && copies@[j].1@ == entries@[j].1@,
                    decreases entries@.len() - i,
                {
                    assert(decreases_to!(self => entries@[i as int].1));
                    copies.push((text::copy_text(entries[i].0.as_str()), entries[i].1.clone()));
                    i += 1;
                }
                let copy = Json::Object(copies);
                proof {
                    lemma_container_views(copy);
                    lemma_container_views(*self);
                    assert(entry_views(copies@) =~= entry_views(entries@));
                }
                copy
            },
        }
    }
}

/// The members of an object under construction.
pub struct Members {
    entries: Vec<(String, Json)>,
}

impl View for Members {
    type V = Seq<(Seq<char>, JsonView)>;

    closed spec fn view(&self) -> Seq<(Seq<char>, JsonView)> {
        entry_views(self.entries@)
    }
}

impl Members {
    pub fn new() -> (members: Self)
        ensures
            members@ == Seq::<(Seq<char>, JsonView)>::empty(),
    {
        let members = Members { entries: Vec::new() };
        assert(members@ =~= Seq::<(Seq<char>, JsonView)>::empty());
        members
    }

    /// The members with one more at the end.
    pub fn with(self, key: &str, value: Json) -> (members: Self)
        ensures
            members@ == self@.push((key@, value@)),
    {
        let mut entries = self.entries;
        let ghost before = entries@;
        entries.push((text::copy_text(key), value));
        assert(entry_views(entries@) =~= entry_views(before).push((key@, value@)));
        Members { entries }
    }

    /// The object that has these members.
    pub fn object(self) -> (json: Json)
        ensures
            json@ == JsonView::Object(self@),
    {
        let json = Json::Object(self.entries);
        proof {
            lemma_container_views(json);
        }
        json
    }
}

/// The JSON text value `value`.
pub fn text_value(value: &str) -> (json: Json)
    ensures
        json@ == JsonView::Text(value@),
{
    Json::Text(text::copy_text(value))
}

/// The JSON array of `items`.
pub fn array_value(items: Vec<Json>) -> (json: Json)
    ensures
        json@ == JsonView::Array(json_views(items@)),
{
    let json = Json::Array(items);
    proof {
        lemma_container_views(json);
    }
    json
}

/// The JSON array that holds `item` alone.
pub fn singleton(item: Json) -> (json: Json)
    ensures
        json@ == JsonView::Array(seq![item@]),
{
    let mut items: Vec<Json> = Vec::new();
    items.push(item);
    assert(json_views(items@) =~= seq![item@]);
    array_value(items)
}

/// The first value at or after position `from` that stands under `key`.
pub open spec fn entry_from(
    entries: Seq<(Seq<char>, JsonView)>,
    key: Seq<char>,
    from: int,
) -> Option<JsonView>
    decreases entries.len() - from,
{
    if from < 0 || from >= entries.len() {
        None
    } else if entries[from].0 == key {
        Some(entries[from].1)
    } else {
        entry_from(entries, key, from + 1)
    }
}

/// The member of `json` under `key`; only an object has members.
pub open spec fn member(json: JsonView, key: Seq<char>) -> Option<JsonView> {
    match json {
        JsonView::Object(entries) => entry_from(entries, key, 0),
        _ => None,
    }
}

/// The member under `second` of the member under `first`.
pub open spec fn member_of_member(json: JsonView, first: Seq<char>, second: Seq<char>) -> Option<
    JsonView,
> {
    match member(json, first) {
        Some(inner) => member(inner, second),
        None => None,
    }
}

/// The characters of a text value.
pub open spec fn as_text(json: Option<JsonView>) -> Option<Seq<char>> {
    match json {
        Some(JsonView::Text(text)) => Some(text),
        _ => None,
    }
}

/// The number that a value holds where it is an integer from 0 to `u64::MAX`.
pub open spec fn as_unsigned(json: Option<JsonView>) -> Option<u64> {
    match json {
        Some(JsonView::Unsigned(value)) => Some(value),
        _ => None,
    }
}

/// The number that a value holds, or 0 where it is no such integer.
pub open spec fn unsigned_or_zero(json: Option<JsonView>) -> u64 {
    match json {
        Some(JsonView::Unsigned(value)) => value,
        _ => 0,
    }
}

/// The items of an array value.
pub open spec fn as_items(json: Option<JsonView>) -> Option<Seq<JsonView>> {
    match json {
        Some(JsonView::Array(items)) => Some(items),
        _ => None,
    }
}

/// The view of an optional value.
pub open spec fn optional_view(json: Option<&Json>) -> Option<JsonView> {
    match json {
        Some(value) => Some(value@),
        None => None,
    }
}

/// The view of an optional value.
pub open spec fn owned_view(json: Option<Json>) -> Option<JsonView> {
    match json {
        Some(value) => Some(value@),
        None => None,
    }
}

impl Json {
    /// The member under `key`; only an object has members.
    pub fn get(&self, key: &str) -> (value: Option<&Json>)
        ensures
            optional_view(value) == member(self@, key@),
    {
        if let Json::Object(entries) = self {
            proof {
                lemma_container_views(*self);
            }
            let mut i: usize = 0;
            while i < entries.len()
                invariant
                    i <= entries@.len(),
                    self@ == JsonView::Object(entry_views(entries@)),
                    entry_from(entry_views(entries@), key@, i as int) == member(self@, key@),
                decreases entries@.len() - i,
            {
                assert(entry_views(entries@)[i as int] == (
                    entries@[i as int].0@,
                    entries@[i as int].1@,
                ));
                if text::same_text(entries[i].0.as_str(), key) {
                    return Some(&entries[i].1);
                }
                i += 1;
            }
        }
        None
    }

    /// The member under `second` of the member under `first`.
    pub fn get_in(&self, first: &str, second: &str) -> (value: Option<&Json>)
        ensures
            optional_view(value) == member_of_member(self@, first@, second@),
    {
        match self.get(first) {
            Some(inner) => inner.get(second),
            None => None,
        }
    }

    /// The characters of a text value.
    pub fn as_str(&self) -> (text: Option<&str>)
        ensures
            match text {
                Some(value) => as_text(Some(self@)) == Some(value@),
                None => as_text(Some(self@)) is None,
            },
    {
        match self {
            Json::Text(value) => Some(value.as_str()),
            _ => None,
        }
    }

    /// The number that the value holds where it is an integer from 0 to
    /// `u64::MAX`.
    pub fn as_u64(&self) -> (number: Option<u64>)
        ensures
            number == as_unsigned(Some(self@)),
    {
        match self {
            Json::Unsigned(value) => Some(*value),
            _ => None,
        }
    }
}

/// The text of an optional text value.
pub fn text_in(json: Option<&Json>) -> (text: Option<String>)
    ensures
        text::optional_text(text) == as_text(optional_view(json)),
{
    match json {
        Some(Json::Text(value)) => Some(text::copy_text(value.as_str())),
        _ => None,
    }
}

/// The integer that an optional value holds.
pub fn unsigned_in(json: Option<&Json>) -> (number: Option<u64>)
    ensures
        number == as_unsigned(optional_view(json)),
{
    match json {
        Some(Json::Unsigned(value)) => Some(*value),
        _ => None,
    }
}

/// The integer that an optional value holds, or 0.
pub fn unsigned_in_or_zero(json: Option<&Json>) -> (number: u64)
    ensures
        number == unsigned_or_zero(optional_view(json)),
{
    match json {
        Some(Json::Unsigned(value)) => *value,
        _ => 0,
    }
}

/// How deeply arrays and objects are nested in `json`.
pub open spec fn depth(json: JsonView) -> nat
    decreases json,
{
    match json {
        JsonView::Array(items) => 1 + deepest(items),
        JsonView::Object(entries) => 1 + deepest_entry(entries),
        _ => 0,
    }
}

/// The depth of the deepest of `items`.
pub open spec fn deepest(items: Seq<JsonView>) -> nat
    decreases items,
{
    if items.len() == 0 {
        0
    } else {
        let last = depth(items.last());
        let rest = deepest(items.drop_last());
        if last > rest {
            last
        } else {
            rest
        }
    }
}

/// The depth of the deepest value in `entries`.
pub open spec fn deepest_entry(entries: Seq<(Seq<char>, JsonView)>) -> nat
    decreases entries,
{
    if entries.len() == 0 {
        0
    } else {
        let last = depth(entries.last().1);
        let rest = deepest_entry(entries.drop_last());
        if last > rest {
            last
        } else {
            rest
        }
    }
}

/// The deepest nesting of arrays and objects that can be read back.
pub const MAX_READ_DEPTH: usize = 127;

/// Whether `json` is in the form in which it comes out of a text: the keys of each
/// object ascend, and a number stands under the variant of its range. Of the numbers that
/// are no integers it is those whose text is read as itself.
pub open spec fn canonical(json: JsonView) -> bool
    decreases json,
{
    match json {
        JsonView::Negative(value) => value < 0,
        JsonView::Float(text) => reads_as(text, json),
        JsonView::Array(items) => forall|i: int|
            0 <= i < items.len() ==> canonical(#[trigger] items[i]),
        JsonView::Object(entries) => {
            &&& forall|i: int| 0 <= i < entries.len() ==> canonical((#[trigger] entries[i]).1)
            &&& forall|i: int, j: int|
                0 <= i < j < entries.len() ==> text::precedes(
                    (#[trigger] entries[i]).0,
                    (#[trigger] entries[j]).0,
                )
        },
        _ => true,
    }
}

/// Whether the text of `json` can be read back as `json`.
pub open spec fn readable(json: JsonView) -> bool {
    canonical(json) && depth(json) <= MAX_READ_DEPTH
}

/// What `serde_json` reads in `text`: the value, or the message of its error.
pub uninterp spec fn parsed_json(text: Seq<char>) -> Result<JsonView, Seq<char>>;

/// Whether reading `text` gives `json`.
pub open spec fn reads_as(text: Seq<char>, json: JsonView) -> bool {
    parsed_json(text) == Ok::<JsonView, Seq<char>>(json)
}

/// The compact text that `serde_json` writes for `json`.
pub uninterp spec fn json_text(json: JsonView) -> Seq<char>;

/// The view of the outcome of reading a text.
pub open spec fn outcome_view(outcome: Result<Json, String>) -> Result<JsonView, Seq<char>> {
    match outcome {
        Ok(json) => Ok(json@),
        Err(message) => Err(message@),
    }
}

/// The value type of `serde_json`. It is only handed from the parser to the
/// conversion and from the conversion to the writer.
#[verifier::external_type_specification]
#[verifier::external_body]
pub struct ExJsonValue(serde_json::Value);

/// `serde_json::from_str` into a `serde_json::Value`, with the value turned into
/// [`Json`] and the error into its message. Both depend on the text alone.
#[verifier::external_body]
pub(crate) fn read_json(text: &str) -> (outcome: Result<Json, String>)
    ensures
        outcome_view(outcome) == parsed_json(text@),
{
    match serde_json::from_str::<serde_json::Value>(text) {
        Ok(value) => Ok(json_of_value(value)),
        Err(error) => Err(error.to_string()),
    }
}

/// `serde_json::Value` to [`Json`], variant by variant. Nothing is stated of it:
/// what [`read_json`] states covers the conversion.
#[verifier::external_body]
fn json_of_value(value: serde_json::Value) -> Json {
    match value {
        serde_json::Value::Null => Json::Null,
        serde_json::Value::Bool(value) => Json::Bool(value),
        serde_json::Value::Number(number) => match (number.as_u64(), number.as_i64()) {
            (Some(value), _) => Json::Unsigned(value),
            (None, Some(value)) => Json::Negative(value),
            (None, None) => Json::Float(number.to_string()),
        },
        serde_json::Value::String(text) => Json::Text(text),
        serde_json::Value::Array(items) => Json::Array(items.into_iter().map(json_of_value).collect()),
        serde_json::Value::Object(map) =>
            Json::Object(map.into_iter().map(|(key, item)| (key, json_of_value(item))).collect()),
    }
}

/// The compact text of a `serde_json::Value` (its `Display` form), with the value
/// made from [`Json`]. The text depends on the value alone. It is one line, for
/// control characters are written escaped, and it is not blank. Reading it back gives the value wherever
/// that is [`readable`].
#[verifier::external_body]
pub(crate) fn write_json(json: &Json) -> (written: String)
    ensures
        written@ == json_text(json@),
        text::on_one_line(written@),
        !text::is_blank(written@),
        readable(json@) ==> reads_as(written@, json@),
{
    value_of_json(json).to_string()
}

/// [`Json`] to `serde_json::Value`, variant by variant. Nothing is stated of it:
/// what [`write_json`] states covers the conversion.
#[verifier::external_body]
pub(crate) fn value_of_json(json: &Json) -> serde_json::Value {
    match json {
        Json::Null => serde_json::Value::Null,
        Json::Bool(value) => serde_json::Value::Bool(*value),
        Json::Unsigned(value) => serde_json::Value::from(*value),
        Json::Negative(value) => serde_json::Value::from(*value),
        Json::Float(text) => text.parse().ok().and_then(serde_json::Number::from_f64).into(),
        Json::Text(text) => serde_json::Value::String(text.clone()),
        Json::Array(items) => serde_json::Value::Array(items.iter().map(value_of_json).collect()),
        Json::Object(entries) => serde_json::Value::Object(
            entries.iter().map(|(key, item)| (key.clone(), value_of_json(item))).collect(),
        ),
    }
}

impl Json {
    /// The value that `text` holds, or the message of the error.
    pub fn parse(text: &str) -> (outcome: Result<Json, String>)
        ensures
            outcome_view(outcome) == parsed_json(text@),
    {
        read_json(text)
    }

    /// The compact text of the value, on one line. Reading it gives the value back wherever that
    /// is [`readable`].
    pub fn to_text(&self) -> (written: String)
        ensures
            written@ == json_text(self@),
            text::on_one_line(written@),
            !text::is_blank(written@),
            readable(self@) ==> reads_as(written@, self@),
    {
        write_json(self)
    }
}

/// Whether `json` can hold a record of `count` fields: an object, or an array of
/// at most `count` items that gives the fields in order.
pub open spec fn record_shape(json: JsonView, count: nat) -> bool {
    match json {
        JsonView::Object(_) => true,
        JsonView::Array(items) => items.len() <= count,
        _ => false,
    }
}

/// The field `name` of a record, which stands at `index` where the record is an
/// array.
pub open spec fn record_field(json: JsonView, index: int, name: Seq<char>) -> Option<JsonView> {
    match json {
        JsonView::Object(entries) => entry_from(entries, name, 0),
        JsonView::Array(items) => if 0 <= index < items.len() {
            Some(items[index])
        } else {
            None
        },
        _ => None,
    }
}

impl Json {
    /// Whether the value can hold a record of `count` fields.
    pub fn has_record_shape(&self, count: usize) -> (result: bool)
        ensures
            result == record_shape(self@, count as nat),
    {
        proof {
            lemma_container_views(*self);
        }
        match self {
            Json::Object(_) => true,
            Json::Array(items) => items.len() <= count,
            _ => false,
        }
    }

    /// The field `name` of a record, which stands at `index` where the record is an
    /// array.
    pub fn field(&self, index: usize, name: &str) -> (value: Option<&Json>)
        ensures
            optional_view(value) == record_field(self@, index as int, name@),
    {
        proof {
            lemma_container_views(*self);
        }
        match self {
            Json::Object(_) => self.get(name),
            Json::Array(items) => if index < items.len() {
                Some(&items[index])
            } else {
                None
            },
            _ => None,
        }
    }
}

/// The depth of an array is one more than a bound on the depth of its items.
pub proof fn lemma_deepest(items: Seq<JsonView>, bound: nat)
    requires
        forall|i: int| 0 <= i < items.len() ==> depth(#[trigger] items[i]) <= bound,
    ensures
        deepest(items) <= bound,
    decreases items.len(),
{
    if items.len() > 0 {
        lemma_deepest(items.drop_last(), bound);
    }
}

/// The depth of an object is one more than a bound on the depth of its values.
pub proof fn lemma_deepest_entry(entries: Seq<(Seq<char>, JsonView)>, bound: nat)
    requires
        forall|i: int| 0 <= i < entries.len() ==> depth((#[trigger] entries[i]).1) <= bound,
    ensures
        deepest_entry(entries) <= bound,
    decreases entries.len(),
{
    if entries.len() > 0 {
        lemma_deepest_entry(entries.drop_last(), bound);
    }
}

/// What stands under a key that no earlier entry has.
pub proof fn lemma_entry_at(
    entries: Seq<(Seq<char>, JsonView)>,
    key: Seq<char>,
    from: int,
    position: int,
)
    requires
        0 <= from <= position < entries.len(),
        entries[position].0 == key,
        forall|j: int| from <= j < position ==> (#[trigger] entries[j]).0 != key,
    ensures
        entry_from(entries, key, from) == Some(entries[position].1),
    decreases position - from,
{
    if from < position {
        assert(entries[from].0 != key);
        lemma_entry_at(entries, key, from + 1, position);
    }
}

/// Nothing stands under a key that no entry has.
pub proof fn lemma_no_entry(entries: Seq<(Seq<char>, JsonView)>, key: Seq<char>, from: int)
    requires
        0 <= from,
        forall|j: int| from <= j < entries.len() ==> (#[trigger] entries[j]).0 != key,
    ensures
        entry_from(entries, key, from) is None,
    decreases entries.len() - from,
{
    if from < entries.len() {
        assert(entries[from].0 != key);
        lemma_no_entry(entries, key, from + 1);
    }
}

/// A value is read by its kind, and a value of another kind is not read: a text as its
/// characters, a number without a sign as that number, an array as its items. The member of an
/// object is the first one with its name, and nothing but an object has members.
pub proof fn law_values_are_read_by_their_kind(
    value: JsonView,
    text: Seq<char>,
    number: u64,
    items: Seq<JsonView>,
)
    ensures
        as_text(Some(JsonView::Text(text))) == Some(text),
        !(value is Text) ==> as_text(Some(value)) is None,
        as_text(None) is None,
        as_unsigned(Some(JsonView::Unsigned(number))) == Some(number),
        unsigned_or_zero(Some(JsonView::Unsigned(number))) == number,
        !(value is Unsigned) ==> as_unsigned(Some(value)) is None && unsigned_or_zero(Some(value))
            == 0,
        as_unsigned(None) is None && unsigned_or_zero(None) == 0,
        as_items(Some(JsonView::Array(items))) == Some(items),
        !(value is Array) ==> as_items(Some(value)) is None,
        as_items(None) is None,
        !(value is Object) ==> member(value, text) is None,
{
}

/// The member of an object is what stands under its name for the first time.
pub proof fn law_first_entry_counts(
    before: Seq<(Seq<char>, JsonView)>,
    name: Seq<char>,
    value: JsonView,
    after: Seq<(Seq<char>, JsonView)>,
    other: Seq<char>,
)
    requires
        forall|i: int| 0 <= i < before.len() ==> (#[trigger] before[i]).0 != name,
    ensures
        member(JsonView::Object(before.push((name, value)) + after), name) == Some(value),
        member(JsonView::Object(before), name) is None,
        member_of_member(
            JsonView::Object(before.push((name, value)) + after),
            name,
            other,
        ) == member(value, other),
{
    let entries = before.push((name, value)) + after;
    assert(entries[before.len() as int] == (name, value));
    assert forall|j: int| 0 <= j < before.len() implies (#[trigger] entries[j]).0 != name by {
        assert(entries[j] == before[j]);
    }
    lemma_entry_at(entries, name, 0, before.len() as int);
    lemma_no_entry(before, name, 0);
}

} // verus!
