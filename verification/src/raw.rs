//! JSON texts taken apart into their members and items, which are not read themselves.
use vstd::prelude::*;

use crate::json;
use crate::json::{Json, JsonView};
use crate::keyed;
use crate::keyed::Pairs;
use crate::text;

verus! {

/// What follows the JSON value with which `text` begins, or `None` where it begins with
/// none.
pub uninterp spec fn after_value(text: Seq<char>) -> Option<Seq<char>>;

/// The first step of a `serde_json::StreamDeserializer` that reads `serde::de::IgnoredAny`:
/// one value is passed over, whatever numbers it holds and however deep it is nested. The
/// result is what follows it, a part of `text` that depends on `text` alone.
#[verifier::external_body]
fn skip_value(text: &str) -> (rest: Option<String>)
    ensures
        text::optional_text(rest) == after_value(text@),
        rest is Some ==> rest->0@.len() < text@.len() && rest->0@ == text@.skip(
            text@.len() - rest->0@.len(),
        ),
{
    let mut values = serde_json::Deserializer::from_str(text).into_iter::<serde::de::IgnoredAny>();
    match values.next() {
        Some(Ok(_)) => Some(text[values.byte_offset()..].to_string()),
        _ => None,
    }
}

/// Whether `c` is white space between the parts of a JSON text.
pub open spec fn json_space(c: char) -> bool {
    c == ' ' || c == '\n' || c == '\t' || c == '\r'
}

/// `text` without the white space at its beginning.
pub open spec fn unspaced(text: Seq<char>) -> Seq<char>
    decreases text.len(),
{
    if text.len() > 0 && json_space(text[0]) {
        unspaced(text.skip(1))
    } else {
        text
    }
}

/// White space is all that goes.
proof fn lemma_unspaced(text: Seq<char>)
    ensures
        unspaced(text).len() <= text.len(),
        unspaced(text).len() > 0 ==> !json_space(unspaced(text)[0]),
    decreases text.len(),
{
    if text.len() > 0 && json_space(text[0]) {
        lemma_unspaced(text.skip(1));
    }
}

/// `text` without the white space at its beginning.
fn without_space(text: &str) -> (result: String)
    ensures
        result@ == unspaced(text@),
        result@.len() <= text@.len(),
{
    let chars = text::chars_of(text);
    let mut i: usize = 0;
    assert(text@.skip(0) =~= text@);
    while i < chars.len() && (chars[i] == ' ' || chars[i] == '\n' || chars[i] == '\t' || chars[i]
        == '\r')
        invariant
            i <= chars@.len(),
            chars@ == text@,
            unspaced(text@.skip(i as int)) == unspaced(text@),
        decreases chars@.len() - i,
    {
        assert(text@.skip(i as int)[0] == chars@[i as int]);
        assert(text@.skip(i as int).skip(1) =~= text@.skip(i + 1));
        i += 1;
    }
    let result = text::text_between(&chars, i, chars.len());
    proof {
        lemma_unspaced(text@);
        assert(result@ =~= text@.skip(i as int));
        if i < chars@.len() {
            assert(text@.skip(i as int)[0] == chars@[i as int]);
        }
    }
    result
}

/// The text of the value with which `text` begins, and what follows it, both without white
/// space before them.
pub open spec fn first_value(text: Seq<char>) -> Option<(Seq<char>, Seq<char>)> {
    let begun = unspaced(text);
    match after_value(begun) {
        Some(rest) => if rest.len() < begun.len() {
            Some((begun.take(begun.len() - rest.len()), unspaced(rest)))
        } else {
            None
        },
        None => None,
    }
}

/// The view of a value and of what follows it.
pub open spec fn split_view(split: Option<(String, String)>) -> Option<(Seq<char>, Seq<char>)> {
    match split {
        Some((value, rest)) => Some((value@, rest@)),
        None => None,
    }
}

/// The text of the value with which `text` begins, and what follows it.
fn take_value(text: &str) -> (split: Option<(String, String)>)
    ensures
        split_view(split) == first_value(text@),
        split is Some ==> (split->0).1@.len() < text@.len(),
{
    let begun = without_space(text);
    match skip_value(begun.as_str()) {
        Some(rest) => {
            let chars = text::chars_of(begun.as_str());
            let count = text::chars_of(rest.as_str()).len();
            let value = text::text_between(&chars, 0, chars.len() - count);
            assert(value@ =~= begun@.take(begun@.len() - rest@.len()));
            Some((value, without_space(rest.as_str())))
        },
        None => None,
    }
}

/// Whether `text` begins with `c`.
pub open spec fn led_by(text: Seq<char>, c: char) -> bool {
    text.len() > 0 && text[0] == c
}

/// `text`, which begins with a character that goes, without that and the white space after
/// it.
pub open spec fn past_first(text: Seq<char>) -> Seq<char> {
    unspaced(text.skip(1))
}

/// Whether `text` begins with `c`.
fn begins_with_char(text: &str, c: char) -> (result: bool)
    ensures
        result == led_by(text@, c),
{
    let chars = text::chars_of(text);
    chars.len() > 0 && chars[0] == c
}

/// `text` without its first character and the white space after that.
fn behind_first(text: &str) -> (rest: String)
    requires
        text@.len() > 0,
    ensures
        rest@ == past_first(text@),
        rest@.len() < text@.len(),
{
    let chars = text::chars_of(text);
    let rest = text::text_between(&chars, 1, chars.len());
    assert(rest@ =~= text@.skip(1));
    without_space(rest.as_str())
}

/// `first` before what there is.
pub open spec fn before<T>(first: Seq<T>, rest: Option<Seq<T>>) -> Option<Seq<T>> {
    match rest {
        Some(rest) => Some(first + rest),
        None => None,
    }
}

/// The member with which `text` begins, and what follows it.
pub open spec fn first_member(text: Seq<char>) -> Option<((Seq<char>, Seq<char>), Seq<char>)> {
    match first_value(text) {
        Some((key, rest)) => match json::parsed_json(key) {
            Ok(JsonView::Text(name)) => if led_by(rest, ':') {
                match first_value(rest.skip(1)) {
                    Some((value, after)) => Some(((name, value), after)),
                    None => None,
                }
            } else {
                None
            },
            _ => None,
        },
        None => None,
    }
}

/// The members that stand in `text` up to the closing brace, with which it ends.
pub open spec fn members_from(text: Seq<char>) -> Option<Pairs>
    decreases text.len(),
{
    match first_member(text) {
        Some((member, after)) => if after.len() >= text.len() {
            None
        } else if led_by(after, ',') {
            before(seq![member], members_from(after.skip(1)))
        } else if led_by(after, '}') && past_first(after).len() == 0 {
            Some(seq![member])
        } else {
            None
        },
        None => None,
    }
}

/// The members of the object that `text` is, by the texts of their values, in order and with
/// repetitions. `None` where it is no object.
pub open spec fn raw_members(text: Seq<char>) -> Option<Pairs> {
    let begun = unspaced(text);
    if !led_by(begun, '{') {
        None
    } else if led_by(past_first(begun), '}') {
        if past_first(past_first(begun)).len() == 0 {
            Some(Seq::empty())
        } else {
            None
        }
    } else {
        members_from(begun.skip(1))
    }
}

/// The items that stand in `text` up to the closing bracket, with which it ends.
pub open spec fn items_from(text: Seq<char>) -> Option<Seq<Seq<char>>>
    decreases text.len(),
{
    match first_value(text) {
        Some((item, after)) => if after.len() >= text.len() {
            None
        } else if led_by(after, ',') {
            before(seq![item], items_from(after.skip(1)))
        } else if led_by(after, ']') && past_first(after).len() == 0 {
            Some(seq![item])
        } else {
            None
        },
        None => None,
    }
}

/// The texts of the items of the array that `text` is. `None` where it is no array.
pub open spec fn raw_items(text: Seq<char>) -> Option<Seq<Seq<char>>> {
    let begun = unspaced(text);
    if !led_by(begun, '[') {
        None
    } else if led_by(past_first(begun), ']') {
        if past_first(past_first(begun)).len() == 0 {
            Some(Seq::empty())
        } else {
            None
        }
    } else {
        items_from(begun.skip(1))
    }
}

/// `text` without its first character.
fn behind(text: &str) -> (rest: String)
    requires
        text@.len() > 0,
    ensures
        rest@ == text@.skip(1),
{
    let chars = text::chars_of(text);
    let rest = text::text_between(&chars, 1, chars.len());
    assert(rest@ =~= text@.skip(1));
    rest
}

/// The view of a member and of what follows it.
pub open spec fn member_view(split: Option<((String, String), String)>) -> Option<
    ((Seq<char>, Seq<char>), Seq<char>),
> {
    match split {
        Some(((name, value), after)) => Some(((name@, value@), after@)),
        None => None,
    }
}

/// The member with which `text` begins, and what follows it.
fn take_member(text: &str) -> (split: Option<((String, String), String)>)
    ensures
        member_view(split) == first_member(text@),
        split is Some ==> (split->0).1@.len() < text@.len(),
{
    match take_value(text) {
        Some((key, rest)) => match Json::parse(key.as_str()) {
            Ok(Json::Text(name)) => if begins_with_char(rest.as_str(), ':') {
                match take_value(behind(rest.as_str()).as_str()) {
                    Some((value, after)) => Some(((name, value), after)),
                    None => None,
                }
            } else {
                None
            },
            _ => None,
        },
        None => None,
    }
}

/// The view of optional members.
pub open spec fn members_view(members: Option<Vec<(String, String)>>) -> Option<Pairs> {
    match members {
        Some(members) => Some(keyed::pair_views(members@)),
        None => None,
    }
}

/// The view of optional items.
pub open spec fn items_view(items: Option<Vec<String>>) -> Option<Seq<Seq<char>>> {
    match items {
        Some(items) => Some(text::texts(items@)),
        None => None,
    }
}

/// The members of the object that `text` is, by the texts of their values.
pub fn members_of(text: &str) -> (members: Option<Vec<(String, String)>>)
    ensures
        members_view(members) == raw_members(text@),
{
    let begun = without_space(text);
    let mut members: Vec<(String, String)> = Vec::new();
    assert(keyed::pair_views(members@) =~= Pairs::empty());
    if !begins_with_char(begun.as_str(), '{') {
        return None;
    }
    let inner = behind_first(begun.as_str());
    if begins_with_char(inner.as_str(), '}') {
        let end = behind_first(inner.as_str());
        return if end.as_str().is_empty() {
            Some(members)
        } else {
            None
        };
    }
    let mut rest = behind(begun.as_str());
    let ghost start = rest@;
    assert(before(Pairs::empty(), members_from(start)) == members_from(start)) by {
        if let Some(all) = members_from(start) {
            assert(Pairs::empty() + all =~= all);
        }
    }
    loop
        invariant
            raw_members(text@) == members_from(start),
            members_from(start) == before(keyed::pair_views(members@), members_from(rest@)),
        decreases rest@.len(),
    {
        let (member, after) = match take_member(rest.as_str()) {
            Some(split) => split,
            None => {
                return None;
            },
        };
        let ghost view = (member.0@, member.1@);
        let ghost done = keyed::pair_views(members@);
        members.push(member);
        assert(keyed::pair_views(members@) =~= done.push(view));
        assert(done + seq![view] =~= done.push(view));
        if begins_with_char(after.as_str(), ',') {
            let ghost more = members_from(after@.skip(1));
            proof {
                if let Some(more) = more {
                    assert(done + (seq![view] + more) =~= done.push(view) + more);
                }
            }
            rest = behind(after.as_str());
        } else if begins_with_char(after.as_str(), '}') {
            let end = behind_first(after.as_str());
            return if end.as_str().is_empty() {
                Some(members)
            } else {
                None
            };
        } else {
            return None;
        }
    }
}

/// The texts of the items of the array that `text` is.
pub fn items_of(text: &str) -> (items: Option<Vec<String>>)
    ensures
        items_view(items) == raw_items(text@),
{
    let begun = without_space(text);
    let mut items: Vec<String> = Vec::new();
    assert(text::texts(items@) =~= Seq::<Seq<char>>::empty());
    if !begins_with_char(begun.as_str(), '[') {
        return None;
    }
    let inner = behind_first(begun.as_str());
    if begins_with_char(inner.as_str(), ']') {
        let end = behind_first(inner.as_str());
        return if end.as_str().is_empty() {
            Some(items)
        } else {
            None
        };
    }
    let mut rest = behind(begun.as_str());
    let ghost start = rest@;
    assert(before(Seq::<Seq<char>>::empty(), items_from(start)) == items_from(start)) by {
        if let Some(all) = items_from(start) {
            assert(Seq::<Seq<char>>::empty() + all =~= all);
        }
    }
    loop
        invariant
            raw_items(text@) == items_from(start),
            items_from(start) == before(text::texts(items@), items_from(rest@)),
        decreases rest@.len(),
    {
        let (item, after) = match take_value(rest.as_str()) {
            Some(split) => split,
            None => {
                return None;
            },
        };
        let ghost view = item@;
        let ghost done = text::texts(items@);
        items.push(item);
        assert(text::texts(items@) =~= done.push(view));
        assert(done + seq![view] =~= done.push(view));
        if begins_with_char(after.as_str(), ',') {
            let ghost more = items_from(after@.skip(1));
            proof {
                if let Some(more) = more {
                    assert(done + (seq![view] + more) =~= done.push(view) + more);
                }
            }
            rest = behind(after.as_str());
        } else if begins_with_char(after.as_str(), ']') {
            let end = behind_first(after.as_str());
            return if end.as_str().is_empty() {
                Some(items)
            } else {
                None
            };
        } else {
            return None;
        }
    }
}

/// Whether no two of `members` have that name.
pub open spec fn named_once(members: Pairs, name: Seq<char>) -> bool {
    forall|i: int, j: int|
        0 <= i < j < members.len() ==> !((#[trigger] members[i]).0 == name && (
        #[trigger] members[j]).0 == name)
}

/// The texts of the fields of the record that `text` is: an object, in which no name occurs
/// twice and members of other names do not matter, or an array that gives the fields in
/// order, of which the last ones may be missing. `None` where it is no such record.
pub open spec fn raw_fields(text: Seq<char>, names: Seq<Seq<char>>) -> Option<
    Seq<Option<Seq<char>>>,
> {
    match raw_members(text) {
        Some(members) => if forall|i: int|
            0 <= i < names.len() ==> named_once(members, #[trigger] names[i]) {
            Some(Seq::new(names.len(), |i: int| keyed::value_of(members, names[i])))
        } else {
            None
        },
        None => match raw_items(text) {
            Some(items) => if items.len() <= names.len() {
                Some(
                    Seq::new(
                        names.len(),
                        |i: int|
                            if i < items.len() {
                                Some(items[i])
                            } else {
                                None
                            },
                    ),
                )
            } else {
                None
            },
            None => None,
        },
    }
}

/// The views of optional texts.
pub open spec fn optional_texts(items: Seq<Option<String>>) -> Seq<Option<Seq<char>>> {
    items.map_values(|item: Option<String>| text::optional_text(item))
}

/// The view of optional fields.
pub open spec fn fields_view(fields: Option<Vec<Option<String>>>) -> Option<
    Seq<Option<Seq<char>>>,
> {
    match fields {
        Some(fields) => Some(optional_texts(fields@)),
        None => None,
    }
}

/// The value under `name`, or `Err` where the name occurs twice.
fn only_value(members: &Vec<(String, String)>, name: &str) -> (value: Result<Option<String>, ()>)
    ensures
        match value {
            Ok(value) => named_once(keyed::pair_views(members@), name@) && text::optional_text(value)
                == keyed::value_of(keyed::pair_views(members@), name@),
            Err(_) => !named_once(keyed::pair_views(members@), name@),
        },
{
    let ghost views = keyed::pair_views(members@);
    let mut found: Option<String> = None;
    let ghost mut at: int = -1;
    let mut i: usize = 0;
    while i < members.len()
        invariant
            i <= members@.len(),
            views == keyed::pair_views(members@),
            -1 <= at < i,
            at >= 0 ==> found is Some && views[at] == (name@, found->0@),
            at < 0 ==> found is None,
            forall|j: int| 0 <= j < i && j != at ==> (#[trigger] views[j]).0 != name@,
        decreases members@.len() - i,
    {
        assert(views[i as int] == (members@[i as int].0@, members@[i as int].1@));
        if text::same_text(members[i].0.as_str(), name) {
            if found.is_some() {
                assert(views[at].0 == name@ && views[i as int].0 == name@);
                return Err(());
            }
            found = Some(text::copy_text(members[i].1.as_str()));
            proof {
                at = i as int;
            }
        }
        i += 1;
    }
    proof {
        keyed::lemma_key_position(views, name@, 0);
        assert(named_once(views, name@)) by {
            assert forall|i: int, j: int| 0 <= i < j < views.len() implies !((
            #[trigger] views[i]).0 == name@ && (#[trigger] views[j]).0 == name@) by {
                if i != at {
                    assert(views[i].0 != name@);
                } else {
                    assert(views[j].0 != name@);
                }
            }
        }
        let position = keyed::key_position(views, name@, 0);
        if position < views.len() {
            if position != at {
                assert(views[position].0 != name@);
            }
        } else if at >= 0 {
            assert(views[at].0 == name@);
        }
    }
    Ok(found)
}

/// The texts of the fields of the record that `text` is.
pub fn fields_of(text: &str, names: &Vec<String>) -> (fields: Option<Vec<Option<String>>>)
    ensures
        fields_view(fields) == raw_fields(text@, text::texts(names@)),
{
    let ghost wanted = text::texts(names@);
    let mut fields: Vec<Option<String>> = Vec::new();
    let mut i: usize = 0;
    match members_of(text) {
        Some(members) => {
            let ghost views = keyed::pair_views(members@);
            while i < names.len()
                invariant
                    i <= names@.len(),
                    wanted == text::texts(names@),
                    views == keyed::pair_views(members@),
                    raw_members(text@) == Some(views),
                    fields@.len() == i,
                    forall|j: int| 0 <= j < i ==> named_once(views, #[trigger] wanted[j]),
                    forall|j: int|
                        0 <= j < i ==> text::optional_text(#[trigger] fields@[j])
                            == keyed::value_of(views, wanted[j]),
                decreases names@.len() - i,
            {
                assert(wanted[i as int] == names@[i as int]@);
                match only_value(&members, names[i].as_str()) {
                    Ok(value) => {
                        fields.push(value);
                    },
                    Err(_) => {
                        assert(!named_once(views, wanted[i as int]));
                        return None;
                    },
                }
                i += 1;
            }
            assert(raw_fields(text@, wanted) is Some);
            assert(optional_texts(fields@) =~= raw_fields(text@, wanted)->0);
            Some(fields)
        },
        None => match items_of(text) {
            Some(items) => {
                let ghost views = text::texts(items@);
                if items.len() > names.len() {
                    return None;
                }
                while i < names.len()
                    invariant
                        i <= names@.len(),
                        fields@.len() == i,
                        views == text::texts(items@),
                        forall|j: int|
                            0 <= j < i ==> text::optional_text(#[trigger] fields@[j]) == if j
                                < views.len() {
                                Some(views[j])
                            } else {
                                None
                            },
                    decreases names@.len() - i,
                {
                    if i < items.len() {
                        assert(views[i as int] == items@[i as int]@);
                        fields.push(Some(text::copy_text(items[i].as_str())));
                    } else {
                        fields.push(None);
                    }
                    i += 1;
                }
                assert(optional_texts(fields@) =~= raw_fields(text@, wanted)->0);
                Some(fields)
            },
            None => None,
        },
    }
}

/// What a text is read as, where it is no object that has two members of one name.
pub open spec fn plain_value(text: Seq<char>) -> Option<JsonView> {
    match json::parsed_json(text) {
        Ok(value) => match (value, raw_members(text)) {
            (JsonView::Object(_), Some(members)) => if keyed::distinct_keys(members) {
                Some(value)
            } else {
                None
            },
            _ => Some(value),
        },
        Err(_) => None,
    }
}

/// What an optional text is read as.
pub open spec fn optional_value(text: Option<Seq<char>>) -> Option<JsonView> {
    match text {
        Some(text) => plain_value(text),
        None => None,
    }
}

/// Whether two members have one name.
fn has_repeats(members: &Vec<(String, String)>) -> (result: bool)
    ensures
        result == !keyed::distinct_keys(keyed::pair_views(members@)),
{
    let ghost views = keyed::pair_views(members@);
    let mut i: usize = 0;
    while i < members.len()
        invariant
            i <= members@.len(),
            views == keyed::pair_views(members@),
            forall|j: int| 0 <= j < i ==> named_once(views, (#[trigger] views[j]).0),
        decreases members@.len() - i,
    {
        assert(views[i as int] == (members@[i as int].0@, members@[i as int].1@));
        if only_value(members, members[i].0.as_str()).is_err() {
            return true;
        }
        i += 1;
    }
    assert(keyed::distinct_keys(views)) by {
        assert forall|i: int, j: int| 0 <= i < j < views.len() implies (#[trigger] views[i]).0 != (
        #[trigger] views[j]).0 by {
            assert(named_once(views, views[i].0));
        }
    }
    false
}

/// What a text is read as, where it is no object that has two members of one name.
pub fn read_plain(text: &str) -> (value: Option<Json>)
    ensures
        json::owned_view(value) == plain_value(text@),
{
    let value = match Json::parse(text) {
        Ok(value) => value,
        Err(_) => {
            return None;
        },
    };
    if let Json::Object(_) = value {
        if let Some(members) = members_of(text) {
            if has_repeats(&members) {
                return None;
            }
        }
    }
    Some(value)
}

/// What an optional text is read as.
pub fn read_optional(text: &Option<String>) -> (value: Option<Json>)
    ensures
        json::owned_view(value) == optional_value(text::optional_text(*text)),
{
    match text {
        Some(text) => read_plain(text.as_str()),
        None => None,
    }
}

/// Whether each of the names occurs at most once among the members of `text`.
pub open spec fn all_named_once(text: Seq<char>, names: Seq<Seq<char>>) -> bool {
    match raw_members(text) {
        Some(members) => forall|i: int|
            0 <= i < names.len() ==> named_once(members, #[trigger] names[i]),
        None => true,
    }
}

/// Whether each of the names occurs at most once among the members of `text`.
pub fn are_named_once(text: &str, names: &Vec<String>) -> (result: bool)
    ensures
        result == all_named_once(text@, text::texts(names@)),
{
    let ghost wanted = text::texts(names@);
    if let Some(members) = members_of(text) {
        let mut i: usize = 0;
        while i < names.len()
            invariant
                i <= names@.len(),
                wanted == text::texts(names@),
                raw_members(text@) == Some(keyed::pair_views(members@)),
                forall|j: int|
                    0 <= j < i ==> named_once(
                        keyed::pair_views(members@),
                        #[trigger] wanted[j],
                    ),
            decreases names@.len() - i,
        {
            assert(wanted[i as int] == names@[i as int]@);
            if only_value(&members, names[i].as_str()).is_err() {
                return false;
            }
            i += 1;
        }
    }
    true
}

/// Whether `rest` is nothing, or begins with a character that ends a value.
pub open spec fn ends_value(rest: Seq<char>) -> bool {
    rest.len() == 0 || rest[0] == ',' || rest[0] == ':' || rest[0] == ']' || rest[0] == '}'
}

/// Whether `text` is the text of one value, whatever ends it.
pub open spec fn stands_alone(text: Seq<char>) -> bool {
    &&& text.len() > 0
    &&& !json_space(text[0])
    &&& text[0] != '}'
    &&& text[0] != ']'
    &&& forall|rest: Seq<char>|
        ends_value(rest) ==> #[trigger] after_value(text + rest) == Some(rest)
}

/// The value of a text that is followed by what ends it.
pub proof fn lemma_first_value(text: Seq<char>, rest: Seq<char>)
    requires
        stands_alone(text),
        ends_value(rest),
    ensures
        first_value(text + rest) == Some((text, rest)),
{
    let all = text + rest;
    assert(all[0] == text[0]);
    assert(unspaced(all) == all);
    assert(after_value(all) == Some(rest));
    assert(all.take(all.len() - rest.len()) =~= text);
    assert(unspaced(rest) == rest);
}

} // verus!
