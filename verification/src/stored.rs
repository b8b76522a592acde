//! What is stored as JSON text, with the fields of each record in their own order.
use vstd::prelude::*;

use crate::json;
use crate::json::{Json, JsonView};
use crate::keyed;
use crate::keyed::Pairs;
use crate::raw;
use crate::text;

verus! {

/// What is stored: a JSON value, a list, or a record. A record is written as an object whose
/// members stand in the order of the fields.
pub enum Stored {
    Value(Json),
    List(Vec<Stored>),
    Record(Vec<(String, Stored)>),
}

/// What a [`Stored`] holds.
#[verifier::ext_equal]
pub enum StoredView {
    Value(JsonView),
    List(Seq<StoredView>),
    Record(Seq<(Seq<char>, StoredView)>),
}

impl Stored {
    pub open spec fn view(self) -> StoredView
        decreases self,
    {
        match self {
            Stored::Value(json) => StoredView::Value(json@),
            Stored::List(items) => StoredView::List(
                Seq::new(
                    items@.len(),
                    |i: int|
                        if 0 <= i < items@.len() {
                            items@[i].view()
                        } else {
                            StoredView::Value(JsonView::Null)
                        },
                ),
            ),
            Stored::Record(fields) => StoredView::Record(
                Seq::new(
                    fields@.len(),
                    |i: int|
                        if 0 <= i < fields@.len() {
                            (fields@[i].0@, fields@[i].1.view())
                        } else {
                            (Seq::<char>::empty(), StoredView::Value(JsonView::Null))
                        },
                ),
            ),
        }
    }
}

/// The views of a list.
pub open spec fn stored_views(items: Seq<Stored>) -> Seq<StoredView> {
    items.map_values(|item: Stored| item@)
}

/// The views of fields.
pub open spec fn field_views(fields: Seq<(String, Stored)>) -> Seq<(Seq<char>, StoredView)> {
    fields.map_values(|field: (String, Stored)| (field.0@, field.1@))
}

/// The text under which something is stored: a value by its compact JSON text, a list in
/// brackets and a record in braces, with commas and without white space.
pub open spec fn stored_text(stored: StoredView) -> Seq<char>
    decreases stored,
{
    match stored {
        StoredView::Value(value) => json::json_text(value),
        StoredView::List(items) => "["@ + text::joined(item_texts(items), ","@) + "]"@,
        StoredView::Record(fields) => "{"@ + text::joined(field_texts(fields), ","@) + "}"@,
    }
}

/// The texts of items.
pub open spec fn item_texts(items: Seq<StoredView>) -> Seq<Seq<char>>
    decreases items,
{
    if items.len() == 0 {
        Seq::empty()
    } else {
        item_texts(items.drop_last()).push(stored_text(items.last()))
    }
}

/// The texts of fields: the name, a colon and the value.
pub open spec fn field_texts(fields: Seq<(Seq<char>, StoredView)>) -> Seq<Seq<char>>
    decreases fields,
{
    if fields.len() == 0 {
        Seq::empty()
    } else {
        field_texts(fields.drop_last()).push(
            json::json_text(JsonView::Text(fields.last().0)) + ":"@ + stored_text(fields.last().1),
        )
    }
}

/// Each item has its text.
pub proof fn lemma_item_texts(items: Seq<StoredView>)
    ensures
        item_texts(items).len() == items.len(),
        forall|i: int|
            0 <= i < items.len() ==> (#[trigger] item_texts(items)[i]) == stored_text(items[i]),
    decreases items.len(),
{
    if items.len() > 0 {
        lemma_item_texts(items.drop_last());
    }
}

/// Each field has its text.
proof fn lemma_field_texts(fields: Seq<(Seq<char>, StoredView)>)
    ensures
        field_texts(fields).len() == fields.len(),
        forall|i: int|
            0 <= i < fields.len() ==> (#[trigger] field_texts(fields)[i]) == field_text(fields[i]),
    decreases fields.len(),
{
    if fields.len() > 0 {
        lemma_field_texts(fields.drop_last());
    }
}

/// The first field at or after position `from` of that name.
pub open spec fn field_from(
    fields: Seq<(Seq<char>, StoredView)>,
    name: Seq<char>,
    from: int,
) -> Option<StoredView>
    decreases fields.len() - from,
{
    if from < 0 || from >= fields.len() {
        None
    } else if fields[from].0 == name {
        Some(fields[from].1)
    } else {
        field_from(fields, name, from + 1)
    }
}

/// Whether `json` holds the same as `stored`: an object that has as many members as the
/// record has fields, and under each key what the field of that name holds.
pub open spec fn holds_same(stored: StoredView, json: JsonView) -> bool
    decreases json,
{
    match (stored, json) {
        (StoredView::Value(value), _) => value == json,
        (StoredView::List(items), JsonView::Array(values)) => items.len() == values.len() && forall|
            i: int,
        |
            0 <= i < values.len() ==> holds_same(items[i], #[trigger] values[i]),
        (StoredView::Record(fields), JsonView::Object(entries)) => fields.len() == entries.len()
            && forall|i: int|
            0 <= i < entries.len() ==> match field_from(
                fields,
                (#[trigger] entries[i]).0,
                0,
            ) {
                Some(value) => holds_same(value, entries[i].1),
                None => false,
            },
        _ => false,
    }
}

/// Whether no record has two fields of one name.
pub open spec fn names_differ(stored: StoredView) -> bool
    decreases stored,
{
    match stored {
        StoredView::Value(_) => true,
        StoredView::List(items) => forall|i: int|
            0 <= i < items.len() ==> names_differ(#[trigger] items[i]),
        StoredView::Record(fields) => {
            &&& forall|i: int| 0 <= i < fields.len() ==> names_differ((#[trigger] fields[i]).1)
            &&& forall|i: int, j: int|
                0 <= i < j < fields.len() ==> (#[trigger] fields[i]).0 != (#[trigger] fields[j]).0
        },
    }
}

/// `text` in four pairs of brackets.
pub open spec fn bracketed(text: Seq<char>) -> Seq<char> {
    "[[[["@ + text + "]]]]"@
}

/// `value` in four arrays.
pub open spec fn nested(value: JsonView) -> JsonView {
    JsonView::Array(
        seq![JsonView::Array(seq![JsonView::Array(seq![JsonView::Array(seq![value])])])],
    )
}

/// Whether what is stored is read back from `text`, and each part of it from the text of
/// that part: the text is one value, and it is read as the JSON value that holds the same,
/// by itself and in brackets, wherever that is [`json::readable`].
pub open spec fn reads_back(text: Seq<char>, stored: StoredView) -> bool
    decreases stored,
{
    &&& raw::stands_alone(text)
    &&& forall|value: JsonView| #[trigger]
        holds_same(stored, value) && json::readable(value) ==> json::reads_as(text, value)
    &&& forall|value: JsonView| #[trigger]
        holds_same(stored, value) && json::readable(nested(value)) ==> json::reads_as(
            bracketed(text),
            nested(value),
        )
    &&& match stored {
        StoredView::Value(_) => true,
        StoredView::List(items) => forall|i: int|
            0 <= i < items.len() ==> reads_back(stored_text(#[trigger] items[i]), items[i]),
        StoredView::Record(fields) => forall|i: int|
            0 <= i < fields.len() ==> {
                &&& reads_back(stored_text((#[trigger] fields[i]).1), fields[i].1)
                &&& raw::stands_alone(json::json_text(JsonView::Text(fields[i].0)))
                &&& json::reads_as(
                    json::json_text(JsonView::Text(fields[i].0)),
                    JsonView::Text(fields[i].0),
                )
            },
    }
}

/// Whether what is stored is read back from its text, and so is each part of it.
pub open spec fn read_back(stored: StoredView) -> bool {
    reads_back(stored_text(stored), stored)
}

/// The value type of `serde_yaml`, whose mappings keep the order of their entries. It is
/// only handed from the conversion to the writer.
#[verifier::external_type_specification]
#[verifier::external_body]
pub struct ExYamlValue(serde_yaml::Value);

/// `serde_json::to_string` of a `serde_yaml::Value` made from what is stored: a mapping is
/// written as an object whose members stand in the order of its entries, a sequence as an
/// array, and anything else as its JSON text. It is one line, for control characters are
/// written escaped, and it is not blank. `serde_json` reads it back, and each of its parts.
#[verifier::external_body]
pub(crate) fn write_stored(stored: &Stored) -> (written: String)
    requires
        names_differ(stored@),
    ensures
        written@ == stored_text(stored@),
        text::on_one_line(written@),
        !text::is_blank(written@),
        reads_back(written@, stored@),
{
    serde_json::to_string(&yaml_of_stored(stored)).unwrap_or_default()
}

/// What is stored to `serde_yaml::Value`, variant by variant. Nothing is stated of it: what
/// [`write_stored`] states covers the conversion.
#[verifier::external_body]
fn yaml_of_stored(stored: &Stored) -> serde_yaml::Value {
    match stored {
        Stored::Value(value) => yaml_of_value(json::value_of_json(value)),
        Stored::List(items) => serde_yaml::Value::Sequence(items.iter().map(yaml_of_stored).collect()),
        Stored::Record(fields) => serde_yaml::Value::Mapping(
            fields.iter().map(|(name, value)| (name.as_str().into(), yaml_of_stored(value))).collect(),
        ),
    }
}

/// `serde_json::Value` to `serde_yaml::Value`, variant by variant. Nothing is stated of it:
/// what [`write_stored`] states covers the conversion.
#[verifier::external_body]
fn yaml_of_value(value: serde_json::Value) -> serde_yaml::Value {
    match value {
        serde_json::Value::Array(items) =>
            serde_yaml::Value::Sequence(items.into_iter().map(yaml_of_value).collect()),
        serde_json::Value::Object(map) => serde_yaml::Value::Mapping(
            map.into_iter().map(|(key, item)| (key.into(), yaml_of_value(item))).collect(),
        ),
        scalar => serde_yaml::to_value(scalar).unwrap_or_default(),
    }
}

impl Stored {
    /// The text under which this is stored, on one line.
    pub fn to_text(&self) -> (written: String)
        requires
            names_differ(self@),
        ensures
            written@ == stored_text(self@),
            text::on_one_line(written@),
            !text::is_blank(written@),
            read_back(self@),
    {
        write_stored(self)
    }
}

/// The text `value`, to be stored.
pub fn stored_str(value: &str) -> (stored: Stored)
    ensures
        stored@ == StoredView::Value(JsonView::Text(value@)),
{
    Stored::Value(json::text_value(value))
}

/// The list of `items`, to be stored.
pub fn stored_list(items: Vec<Stored>) -> (stored: Stored)
    ensures
        stored@ == StoredView::List(stored_views(items@)),
{
    let stored = Stored::List(items);
    assert(stored@->List_0 =~= stored_views(items@));
    stored
}

/// The fields of a record under construction.
pub struct Fields {
    fields: Vec<(String, Stored)>,
}

impl View for Fields {
    type V = Seq<(Seq<char>, StoredView)>;

    closed spec fn view(&self) -> Seq<(Seq<char>, StoredView)> {
        field_views(self.fields@)
    }
}

impl Fields {
    pub fn new() -> (fields: Self)
        ensures
            fields@ == Seq::<(Seq<char>, StoredView)>::empty(),
    {
        let fields = Fields { fields: Vec::new() };
        assert(fields@ =~= Seq::<(Seq<char>, StoredView)>::empty());
        fields
    }

    /// The fields with one more at the end.
    pub fn with(self, name: &str, value: Stored) -> (fields: Self)
        ensures
            fields@ == self@.push((name@, value@)),
    {
        let mut fields = self.fields;
        let ghost before = fields@;
        fields.push((text::copy_text(name), value));
        assert(field_views(fields@) =~= field_views(before).push((name@, value@)));
        Fields { fields }
    }

    /// The record that has these fields.
    pub fn record(self) -> (stored: Stored)
        ensures
            stored@ == StoredView::Record(self@),
    {
        let stored = Stored::Record(self.fields);
        assert(stored@->Record_0 =~= field_views(self.fields@));
        stored
    }
}

/// Parts that are joined are the first one and the others.
proof fn lemma_joined_first(parts: Seq<Seq<char>>, separator: Seq<char>)
    requires
        parts.len() >= 2,
    ensures
        text::joined(parts, separator) == parts[0] + separator + text::joined(
            parts.skip(1),
            separator,
        ),
    decreases parts.len(),
{
    reveal_with_fuel(text::joined, 3);
    if parts.len() == 2 {
        assert(parts.drop_last()[0] == parts[0]);
        assert(parts.skip(1)[0] == parts.last());
    } else {
        lemma_joined_first(parts.drop_last(), separator);
        assert(parts.drop_last().skip(1) =~= parts.skip(1).drop_last());
        assert(parts.skip(1).last() == parts.last());
        assert(parts[0] + separator + text::joined(parts.skip(1).drop_last(), separator) + separator
            + parts.last() =~= parts[0] + separator + (text::joined(
            parts.skip(1).drop_last(),
            separator,
        ) + separator + parts.last()));
    }
}

/// The text of a field.
pub open spec fn field_text(field: (Seq<char>, StoredView)) -> Seq<char> {
    json::json_text(JsonView::Text(field.0)) + ":"@ + stored_text(field.1)
}

/// The names of fields, with the texts of their values.
pub open spec fn field_pairs(fields: Seq<(Seq<char>, StoredView)>) -> Pairs {
    fields.map_values(|field: (Seq<char>, StoredView)| (field.0, stored_text(field.1)))
}

/// Whether fields are read back.
pub open spec fn fields_read_back(fields: Seq<(Seq<char>, StoredView)>) -> bool {
    forall|i: int|
        0 <= i < fields.len() ==> {
            &&& read_back((#[trigger] fields[i]).1)
            &&& raw::stands_alone(json::json_text(JsonView::Text(fields[i].0)))
            &&& json::reads_as(
                json::json_text(JsonView::Text(fields[i].0)),
                JsonView::Text(fields[i].0),
            )
        }
}

/// A field that is followed by what ends it is its name and the text of its value.
proof fn lemma_first_member(field: (Seq<char>, StoredView), rest: Seq<char>)
    requires
        read_back(field.1),
        raw::stands_alone(json::json_text(JsonView::Text(field.0))),
        json::reads_as(json::json_text(JsonView::Text(field.0)), JsonView::Text(field.0)),
        raw::ends_value(rest),
    ensures
        raw::first_member(field_text(field) + rest) == Some(
            ((field.0, stored_text(field.1)), rest),
        ),
{
    reveal_strlit(":");
    let name = json::json_text(JsonView::Text(field.0));
    let value = stored_text(field.1);
    let tail = ":"@ + value + rest;
    assert(field_text(field) + rest =~= name + tail);
    assert(tail[0] == ':');
    raw::lemma_first_value(name, tail);
    assert(tail.skip(1) =~= value + rest);
    raw::lemma_first_value(value, rest);
}

/// The members that stand in the text of a record.
proof fn lemma_members_from(fields: Seq<(Seq<char>, StoredView)>)
    requires
        fields.len() > 0,
        fields_read_back(fields),
    ensures
        raw::members_from(text::joined(field_texts(fields), ","@) + "}"@) == Some(
            field_pairs(fields),
        ),
        text::joined(field_texts(fields), ","@).len() > 0,
        text::joined(field_texts(fields), ","@)[0] == json::json_text(JsonView::Text(fields[0].0))[0],
    decreases fields.len(),
{
    reveal_strlit(",");
    reveal_strlit("}");
    reveal_strlit(":");
    let parts = field_texts(fields);
    lemma_field_texts(fields);
    let field = fields[0];
    assert(read_back(field.1));
    assert(parts[0] == field_text(field));
    if fields.len() == 1 {
        lemma_first_member(field, "}"@);
        assert("}"@.skip(1) =~= Seq::<char>::empty());
        assert(field_pairs(fields) =~= seq![(field.0, stored_text(field.1))]);
    } else {
        let others = fields.skip(1);
        lemma_field_texts(others);
        assert(field_texts(others) =~= parts.skip(1)) by {
            assert forall|i: int| 0 <= i < others.len() implies field_texts(others)[i] == parts.skip(
                1,
            )[i] by {
                assert(parts[i + 1] == field_text(fields[i + 1]));
                assert(field_texts(others)[i] == field_text(others[i]));
            }
        }
        lemma_joined_first(parts, ","@);
        assert forall|i: int| 0 <= i < others.len() implies read_back((#[trigger] others[i]).1)
            && raw::stands_alone(json::json_text(JsonView::Text(others[i].0))) && json::reads_as(
            json::json_text(JsonView::Text(others[i].0)),
            JsonView::Text(others[i].0),
        ) by {
            assert(others[i] == fields[i + 1]);
        }
        lemma_members_from(others);
        let rest = ","@ + text::joined(field_texts(others), ","@) + "}"@;
        assert(text::joined(parts, ","@) + "}"@ =~= field_text(field) + rest);
        assert(rest[0] == ',');
        lemma_first_member(field, rest);
        assert(rest.skip(1) =~= text::joined(field_texts(others), ","@) + "}"@);
        assert(field_pairs(fields) =~= seq![(field.0, stored_text(field.1))] + field_pairs(others));
    }
}

/// The items that stand in the text of a list.
proof fn lemma_items_from(items: Seq<StoredView>)
    requires
        items.len() > 0,
        forall|i: int| 0 <= i < items.len() ==> read_back(#[trigger] items[i]),
    ensures
        raw::items_from(text::joined(item_texts(items), ","@) + "]"@) == Some(item_texts(items)),
        text::joined(item_texts(items), ","@).len() > 0,
        text::joined(item_texts(items), ","@)[0] == stored_text(items[0])[0],
    decreases items.len(),
{
    reveal_strlit(",");
    reveal_strlit("]");
    let parts = item_texts(items);
    lemma_item_texts(items);
    let first = stored_text(items[0]);
    assert(read_back(items[0]));
    assert(parts[0] == first);
    if items.len() == 1 {
        raw::lemma_first_value(first, "]"@);
        assert("]"@.skip(1) =~= Seq::<char>::empty());
        assert(parts =~= seq![first]);
    } else {
        let others = items.skip(1);
        lemma_item_texts(others);
        assert(item_texts(others) =~= parts.skip(1)) by {
            assert forall|i: int| 0 <= i < others.len() implies item_texts(others)[i] == parts.skip(
                1,
            )[i] by {
                assert(parts[i + 1] == stored_text(items[i + 1]));
                assert(item_texts(others)[i] == stored_text(others[i]));
            }
        }
        lemma_joined_first(parts, ","@);
        assert forall|i: int| 0 <= i < others.len() implies read_back(#[trigger] others[i]) by {
            assert(others[i] == items[i + 1]);
        }
        lemma_items_from(others);
        let rest = ","@ + text::joined(item_texts(others), ","@) + "]"@;
        assert(text::joined(parts, ","@) + "]"@ =~= first + rest);
        assert(rest[0] == ',');
        raw::lemma_first_value(first, rest);
        assert(rest.skip(1) =~= text::joined(item_texts(others), ","@) + "]"@);
        assert(parts =~= seq![first] + item_texts(others));
    }
}

/// A record that is taken apart gives its fields.
pub proof fn lemma_raw_members(fields: Seq<(Seq<char>, StoredView)>)
    requires
        fields.len() > 0,
        read_back(StoredView::Record(fields)),
    ensures
        raw::raw_members(stored_text(StoredView::Record(fields))) == Some(field_pairs(fields)),
        fields_read_back(fields),
{
    reveal_strlit("{");
    reveal_strlit("}");
    let whole = stored_text(StoredView::Record(fields));
    let inner = text::joined(field_texts(fields), ","@);
    assert(fields_read_back(fields));
    lemma_members_from(fields);
    assert(whole =~= "{"@ + inner + "}"@);
    assert(whole[0] == '{');
    assert(whole.skip(1) =~= inner + "}"@);
    assert((inner + "}"@)[0] == inner[0]);
    assert(raw::stands_alone(json::json_text(JsonView::Text(fields[0].0))));
    assert(raw::unspaced(inner + "}"@) == inner + "}"@);
}

/// A list that is taken apart gives its items.
pub proof fn lemma_raw_items(items: Seq<StoredView>)
    requires
        read_back(StoredView::List(items)),
    ensures
        raw::raw_items(stored_text(StoredView::List(items))) == Some(item_texts(items)),
{
    reveal_strlit("[");
    reveal_strlit("]");
    let whole = stored_text(StoredView::List(items));
    let inner = text::joined(item_texts(items), ","@);
    assert(whole =~= "["@ + inner + "]"@);
    assert(whole[0] == '[');
    assert(whole.skip(1) =~= inner + "]"@);
    if items.len() == 0 {
        assert(inner + "]"@ =~= "]"@);
        assert("]"@.skip(1) =~= Seq::<char>::empty());
        assert(item_texts(items) =~= Seq::<Seq<char>>::empty());
    } else {
        lemma_items_from(items);
        assert((inner + "]"@)[0] == inner[0]);
        assert(read_back(items[0]));
        assert(raw::unspaced(inner + "]"@) == inner + "]"@);
    }
}

/// A number or a text that is read back is read as it is.
pub proof fn lemma_read_value(value: JsonView)
    requires
        json::canonical(value),
        json::depth(value) == 0,
        !(value is Object),
    ensures
        read_back(StoredView::Value(value)) ==> raw::plain_value(
            stored_text(StoredView::Value(value)),
        ) == Some(value),
{
    assert(holds_same(StoredView::Value(value), value));
}

/// The text of the field at `at` is found under its name, which occurs once.
pub proof fn lemma_field_found(fields: Seq<(Seq<char>, StoredView)>, at: int)
    requires
        0 <= at < fields.len(),
        names_differ(StoredView::Record(fields)),
    ensures
        raw::named_once(field_pairs(fields), fields[at].0),
        keyed::value_of(field_pairs(fields), fields[at].0) == Some(stored_text(fields[at].1)),
{
    let pairs = field_pairs(fields);
    let name = fields[at].0;
    let record = StoredView::Record(fields);
    assert(record->Record_0 == fields);
    reveal_with_fuel(names_differ, 2);
    assert(names_differ(record));
    assert forall|i: int, j: int| 0 <= i < j < pairs.len() implies !((#[trigger] pairs[i]).0 == name
        && (#[trigger] pairs[j]).0 == name) by {
        assert(fields[i].0 != fields[j].0);
    }
    keyed::lemma_key_position(pairs, name, 0);
    let position = keyed::key_position(pairs, name, 0);
    assert(pairs[at].0 == name);
    if position < at {
        assert(fields[position].0 != fields[at].0);
        assert(pairs[position].0 == name);
    } else if position > at {
        assert(pairs[at].0 != name);
    }
}

/// A name that no field has is not found.
pub proof fn lemma_field_missing(fields: Seq<(Seq<char>, StoredView)>, name: Seq<char>)
    requires
        forall|i: int| 0 <= i < fields.len() ==> (#[trigger] fields[i]).0 != name,
    ensures
        raw::named_once(field_pairs(fields), name),
        keyed::value_of(field_pairs(fields), name) is None,
{
    let pairs = field_pairs(fields);
    assert forall|i: int| 0 <= i < pairs.len() implies (#[trigger] pairs[i]).0 != name by {
        assert(fields[i].0 != name);
    }
    keyed::lemma_key_position(pairs, name, 0);
}

} // verus!
