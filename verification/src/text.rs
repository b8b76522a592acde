//! Character-level operations on text, stated over `Seq<char>`.
use vstd::prelude::*;
use vstd::utf8::*;

verus! {

/// `String::push`: appends one character and leaves what was there unchanged.
pub assume_specification[ String::push ](string: &mut String, character: char)
    ensures
        final(string)@ == old(string)@.push(character),
;

/// The number of bytes of `text` in UTF-8.
pub open spec fn byte_len(text: Seq<char>) -> nat {
    encode_utf8(text).len()
}

/// The UTF-8 length of `text` in bytes.
pub fn text_len(text: &str) -> (length: usize)
    ensures
        length == byte_len(text@),
{
    text.as_bytes().len()
}

/// Whether two texts hold the same characters.
pub fn same_text(left: &str, right: &str) -> (same: bool)
    ensures
        same == (left@ == right@),
{
    let a = left.as_bytes();
    let b = right.as_bytes();
    proof {
        encode_utf8_decode_utf8(left@);
        encode_utf8_decode_utf8(right@);
    }
    if a.len() != b.len() {
        return false;
    }
    let mut i: usize = 0;
    while i < a.len()
        invariant
            a@.len() == b@.len(),
            i <= a@.len(),
            a@ == encode_utf8(left@),
            b@ == encode_utf8(right@),
            forall|j: int| 0 <= j < i ==> a@[j] == b@[j],
        decreases a@.len() - i,
    {
        if a[i] != b[i] {
            return false;
        }
        i += 1;
    }
    assert(a@ =~= b@);
    true
}

/// The characters of `text`, one per element.
pub fn chars_of(text: &str) -> (chars: Vec<char>)
    ensures
        chars@ == text@,
{
    let mut chars: Vec<char> = Vec::new();
    for c in iter: text.chars()
        invariant
            iter.seq() == text@,
            chars@ == text@.take(iter.index() as int),
    {
        chars.push(c);
    }
    chars
}

/// The text made of `chars[start..end]`.
pub fn text_between(chars: &Vec<char>, start: usize, end: usize) -> (text: String)
    requires
        start <= end <= chars@.len(),
    ensures
        text@ == chars@.subrange(start as int, end as int),
{
    let mut text = String::new();
    let mut i: usize = start;
    while i < end
        invariant
            start <= i <= end <= chars@.len(),
            text@ == chars@.subrange(start as int, i as int),
        decreases end - i,
    {
        text.push(chars[i]);
        assert(chars@.subrange(start as int, i as int).push(chars@[i as int])
            =~= chars@.subrange(start as int, i + 1));
        i += 1;
    }
    text
}

/// An owned copy of `text`.
pub fn copy_text(text: &str) -> (copy: String)
    ensures
        copy@ == text@,
{
    text.to_owned()
}

/// `left` followed by `right`.
pub fn concat(left: &str, right: &str) -> (result: String)
    ensures
        result@ == left@ + right@,
{
    let mut result = left.to_owned();
    result.append(right);
    result
}

/// `first`, `second` and `third` one after the other.
pub fn concat3(first: &str, second: &str, third: &str) -> (result: String)
    ensures
        result@ == first@ + second@ + third@,
{
    let mut result = first.to_owned();
    result.append(second);
    result.append(third);
    result
}

/// An owned copy of an optional text.
pub fn copy_optional(text: &Option<String>) -> (copy: Option<String>)
    ensures
        text is Some ==> copy is Some && copy->0@ == text->0@,
        text is None ==> copy is None,
{
    match text {
        Some(value) => Some(copy_text(value.as_str())),
        None => None,
    }
}

/// The views of a sequence of texts.
pub open spec fn texts(items: Seq<String>) -> Seq<Seq<char>> {
    items.map_values(|item: String| item@)
}

/// The view of an optional text.
pub open spec fn optional_text(item: Option<String>) -> Option<Seq<char>> {
    match item {
        Some(text) => Some(text@),
        None => None,
    }
}

/// A copy of each text, in order.
pub fn copy_texts(items: &Vec<String>) -> (copies: Vec<String>)
    ensures
        texts(copies@) == texts(items@),
{
    let mut copies: Vec<String> = Vec::new();
    let mut i: usize = 0;
    while i < items.len()
        invariant
            i <= items@.len(),
            copies@.len() == i,
            forall|j: int| 0 <= j < i ==> (#[trigger] copies@[j])@ == items@[j]@,
        decreases items@.len() - i,
    {
        copies.push(copy_text(items[i].as_str()));
        i += 1;
    }
    assert(texts(copies@) =~= texts(items@));
    copies
}

/// The Unicode `White_Space` characters.
pub open spec fn is_white_space(c: char) -> bool {
    let code = c as u32;
    ||| 0x9 <= code <= 0xd
    ||| code == 0x20
    ||| code == 0x85
    ||| code == 0xa0
    ||| code == 0x1680
    ||| 0x2000 <= code <= 0x200a
    ||| code == 0x2028
    ||| code == 0x2029
    ||| code == 0x202f
    ||| code == 0x205f
    ||| code == 0x3000
}

/// Whether `c` is a Unicode `White_Space` character.
pub fn white_space(c: char) -> (space: bool)
    ensures
        space == is_white_space(c),
{
    let code: u32 = c as u32;
    (0x9 <= code && code <= 0xd) || code == 0x20 || code == 0x85 || code == 0xa0 || code == 0x1680
        || (0x2000 <= code && code <= 0x200a) || code == 0x2028 || code == 0x2029 || code == 0x202f
        || code == 0x205f || code == 0x3000
}

/// `text` without its leading white space.
pub open spec fn trim_start(text: Seq<char>) -> Seq<char>
    decreases text.len(),
{
    if text.len() > 0 && is_white_space(text[0]) {
        trim_start(text.skip(1))
    } else {
        text
    }
}

/// `text` without its trailing white space.
pub open spec fn trim_end(text: Seq<char>) -> Seq<char>
    decreases text.len(),
{
    if text.len() > 0 && is_white_space(text.last()) {
        trim_end(text.drop_last())
    } else {
        text
    }
}

/// `text` without the white space at both of its ends.
pub open spec fn trimmed(text: Seq<char>) -> Seq<char> {
    trim_end(trim_start(text))
}

/// `text` without the white space at both of its ends.
pub fn trim(text: &str) -> (result: String)
    ensures
        result@ == trimmed(text@),
{
    let chars = chars_of(text);
    let mut start: usize = 0;
    proof {
        assert(chars@.skip(0) =~= chars@);
    }
    while start < chars.len() && white_space(chars[start])
        invariant
            start <= chars@.len(),
            trim_start(chars@.skip(start as int)) == trim_start(chars@),
        decreases chars@.len() - start,
    {
        assert(chars@.skip(start as int).skip(1) =~= chars@.skip(start + 1));
        start += 1;
    }
    let ghost body = chars@.skip(start as int);
    let mut end: usize = chars.len();
    proof {
        assert(trim_start(chars@) == body);
        assert(chars@.subrange(start as int, end as int) =~= body);
    }
    while end > start && white_space(chars[end - 1])
        invariant
            start <= end <= chars@.len(),
            trim_end(chars@.subrange(start as int, end as int)) == trim_end(body),
        decreases end,
    {
        assert(chars@.subrange(start as int, end as int).drop_last() =~= chars@.subrange(
            start as int,
            end - 1,
        ));
        end -= 1;
    }
    text_between(&chars, start, end)
}

/// Whether `text` holds nothing but white space.
pub open spec fn is_blank(text: Seq<char>) -> bool {
    trimmed(text).len() == 0
}

/// Whether `text` holds nothing but white space.
pub fn blank(text: &str) -> (result: bool)
    ensures
        result == is_blank(text@),
{
    trim(text).as_str().is_empty()
}

/// Whether `needle` stands in `haystack` at position `at`.
pub open spec fn occurs_at(haystack: Seq<char>, needle: Seq<char>, at: int) -> bool {
    &&& 0 <= at
    &&& at + needle.len() <= haystack.len()
    &&& haystack.subrange(at, at + needle.len()) == needle
}

/// Whether `needle` occurs in `haystack`.
pub open spec fn contains_text(haystack: Seq<char>, needle: Seq<char>) -> bool {
    exists|at: int| occurs_at(haystack, needle, at)
}

/// The first position at or after `from` where `needle` occurs in `haystack`.
pub open spec fn find_from(haystack: Seq<char>, needle: Seq<char>, from: int) -> Option<int>
    decreases haystack.len() + 1 - from,
{
    if from < 0 || from + needle.len() > haystack.len() {
        None
    } else if occurs_at(haystack, needle, from) {
        Some(from)
    } else {
        find_from(haystack, needle, from + 1)
    }
}

/// [`find_from`] gives the least position of an occurrence, and `None` only
/// where there is none.
pub proof fn lemma_find_from(haystack: Seq<char>, needle: Seq<char>, from: int)
    requires
        0 <= from,
    ensures
        find_from(haystack, needle, from) matches Some(at) ==> from <= at && occurs_at(
            haystack,
            needle,
            at,
        ) && forall|i: int| from <= i < at ==> !occurs_at(haystack, needle, i),
        find_from(haystack, needle, from) is None ==> forall|i: int|
            from <= i ==> !occurs_at(haystack, needle, i),
    decreases haystack.len() + 1 - from,
{
    if from + needle.len() <= haystack.len() && !occurs_at(haystack, needle, from) {
        lemma_find_from(haystack, needle, from + 1);
    }
}

/// Whether `needle` stands in `haystack` at position `at`.
pub fn stands_at(haystack: &Vec<char>, needle: &Vec<char>, at: usize) -> (result: bool)
    ensures
        result == occurs_at(haystack@, needle@, at as int),
{
    if at > haystack.len() || needle.len() > haystack.len() - at {
        return false;
    }
    let mut i: usize = 0;
    while i < needle.len()
        invariant
            i <= needle@.len(),
            at + needle@.len() <= haystack.len(),
            forall|j: int| 0 <= j < i ==> haystack@[at + j] == needle@[j],
        decreases needle@.len() - i,
    {
        if haystack[at + i] != needle[i] {
            assert(haystack@.subrange(at as int, at + needle@.len())[i as int] != needle@[i as int]);
            return false;
        }
        i += 1;
    }
    assert(haystack@.subrange(at as int, at + needle@.len()) =~= needle@);
    true
}

/// The first position at or after `from` where `needle` occurs in `haystack`.
pub fn find_in(haystack: &Vec<char>, needle: &Vec<char>, from: usize) -> (position: Option<usize>)
    ensures
        match position {
            Some(at) => find_from(haystack@, needle@, from as int) == Some(at as int),
            None => find_from(haystack@, needle@, from as int) is None,
        },
{
    let mut i: usize = from;
    while i <= haystack.len() && needle.len() <= haystack.len() - i
        invariant
            from <= i <= haystack@.len() + 1 || from == i,
            find_from(haystack@, needle@, i as int) == find_from(haystack@, needle@, from as int),
        decreases haystack@.len() + 1 - i,
    {
        if stands_at(haystack, needle, i) {
            return Some(i);
        }
        if i == haystack.len() {
            assert(find_from(haystack@, needle@, i + 1) is None);
            return None;
        }
        i += 1;
    }
    None
}

/// Whether `needle` occurs in `text`.
pub fn contains(text: &str, needle: &str) -> (result: bool)
    ensures
        result == contains_text(text@, needle@),
{
    let haystack = chars_of(text);
    let wanted = chars_of(needle);
    proof {
        lemma_find_from(text@, needle@, 0);
    }
    find_in(&haystack, &wanted, 0).is_some()
}

/// Whether `text` begins with `prefix`.
pub open spec fn begins_with(text: Seq<char>, prefix: Seq<char>) -> bool {
    occurs_at(text, prefix, 0)
}

/// Whether `text` begins with `prefix`.
pub fn starts_with(text: &str, prefix: &str) -> (result: bool)
    ensures
        result == begins_with(text@, prefix@),
{
    stands_at(&chars_of(text), &chars_of(prefix), 0)
}

/// The first position at or after `from` that holds `c`, or the length of
/// `text` where there is none.
pub open spec fn next_char(text: Seq<char>, c: char, from: int) -> int
    decreases text.len() - from,
{
    if from >= text.len() {
        text.len() as int
    } else if text[from] == c {
        from
    } else {
        next_char(text, c, from + 1)
    }
}

/// [`next_char`] never goes back, stays within the text, and stops at `c`.
pub proof fn lemma_next_char(text: Seq<char>, c: char, from: int)
    requires
        0 <= from <= text.len(),
    ensures
        from <= next_char(text, c, from) <= text.len(),
        next_char(text, c, from) < text.len() ==> text[next_char(text, c, from)] == c,
        forall|i: int| from <= i < next_char(text, c, from) ==> text[i] != c,
    decreases text.len() - from,
{
    if from < text.len() && text[from] != c {
        lemma_next_char(text, c, from + 1);
    }
}

/// The first position at or after `from` that holds `c`, or the length of
/// `text` where there is none.
pub fn position_of(text: &Vec<char>, c: char, from: usize) -> (position: usize)
    requires
        from <= text@.len(),
    ensures
        position == next_char(text@, c, from as int),
        from <= position <= text@.len(),
{
    let mut i: usize = from;
    while i < text.len() && text[i] != c
        invariant
            from <= i <= text@.len(),
            next_char(text@, c, i as int) == next_char(text@, c, from as int),
        decreases text@.len() - i,
    {
        i += 1;
    }
    i
}

/// `line` without a carriage return at its end.
pub open spec fn without_carriage_return(line: Seq<char>) -> Seq<char> {
    if line.len() > 0 && line.last() == '\r' {
        line.drop_last()
    } else {
        line
    }
}

/// The lines of `text` from position `from` on. A line ends at a line feed,
/// which may follow a carriage return; neither belongs to the line. What follows
/// the last line feed is a line where it is not empty.
pub open spec fn lines_from(text: Seq<char>, from: int) -> Seq<Seq<char>>
    decreases text.len() - from,
{
    if from < 0 || from >= text.len() {
        Seq::empty()
    } else {
        let end = next_char(text, '\n', from);
        proof {
            lemma_next_char(text, '\n', from);
        }
        if end >= text.len() {
            seq![text.skip(from)]
        } else {
            seq![without_carriage_return(text.subrange(from, end))] + lines_from(text, end + 1)
        }
    }
}

/// The lines of `text`.
pub open spec fn line_texts(text: Seq<char>) -> Seq<Seq<char>> {
    lines_from(text, 0)
}

/// The lines of `text`.
pub fn lines(text: &str) -> (result: Vec<String>)
    ensures
        texts(result@) == line_texts(text@),
{
    let chars = chars_of(text);
    let mut result: Vec<String> = Vec::new();
    let mut from: usize = 0;
    assert(texts(result@) + lines_from(chars@, 0) =~= line_texts(chars@));
    while from < chars.len()
        invariant
            from <= chars@.len(),
            chars@ == text@,
            texts(result@) + lines_from(chars@, from as int) == line_texts(chars@),
        decreases chars@.len() - from,
    {
        let end = position_of(&chars, '\n', from);
        let ghost before = texts(result@);
        if end == chars.len() {
            let line = text_between(&chars, from, end);
            assert(chars@.subrange(from as int, end as int) =~= chars@.skip(from as int));
            result.push(line);
            assert(texts(result@) =~= before + seq![chars@.skip(from as int)]);
            return result;
        }
        let mut stop: usize = end;
        if end > from && chars[end - 1] == '\r' {
            stop = end - 1;
        }
        let line = text_between(&chars, from, stop);
        assert(line@ =~= without_carriage_return(chars@.subrange(from as int, end as int)));
        result.push(line);
        assert(texts(result@) =~= before + seq![line@]);
        assert(before + (seq![line@] + lines_from(chars@, end + 1)) =~= (before + seq![line@])
            + lines_from(chars@, end + 1));
        from = end + 1;
    }
    assert(texts(result@) + lines_from(chars@, from as int) =~= texts(result@));
    result
}

/// Whether `text` holds no line break.
pub open spec fn on_one_line(text: Seq<char>) -> bool {
    forall|i: int| 0 <= i < text.len() ==> text[i] != '\n' && text[i] != '\r'
}

/// Whether a file ends where a line may be added: it is empty or ends with a line feed.
pub open spec fn complete_lines(contents: Seq<char>) -> bool {
    contents.len() == 0 || contents.last() == '\n'
}

/// The lines of a file to which a line is added are its lines and that line.
pub proof fn lemma_added_line(contents: Seq<char>, line: Seq<char>, from: int)
    requires
        0 <= from <= contents.len(),
        complete_lines(contents),
        on_one_line(line),
    ensures
        lines_from(contents + line.push('\n'), from) == lines_from(contents, from).push(
            line,
        ),
    decreases contents.len() - from,
{
    let all = contents + line.push('\n');
    lemma_next_char(all, '\n', from);
    let end = next_char(all, '\n', from);
    if from == contents.len() {
        assert(all[contents.len() as int + line.len()] == '\n');
        assert forall|i: int| from <= i < contents.len() + line.len() implies all[i] != '\n' by {
            assert(all[i] == line[i - contents.len()]);
        }
        assert(end == contents.len() + line.len());
        assert(all.subrange(from, end) =~= line);
        assert(lines_from(all, end + 1) =~= Seq::<Seq<char>>::empty());
        assert(lines_from(all, from) =~= seq![line]);
        assert(lines_from(contents, from) =~= Seq::<Seq<char>>::empty());
        assert(lines_from(all, from) =~= lines_from(contents, from).push(line));
    } else {
        lemma_next_char(contents, '\n', from);
        let own = next_char(contents, '\n', from);
        assert(contents[contents.len() - 1] == '\n');
        assert(own < contents.len());
        assert(all[own] == '\n');
        assert forall|i: int| from <= i < own implies all[i] != '\n' by {
            assert(all[i] == contents[i]);
        }
        assert(end == own);
        assert(all.subrange(from, end) =~= contents.subrange(from, own));
        lemma_added_line(contents, line, own + 1);
        let head = seq![without_carriage_return(contents.subrange(from, own))];
        assert(head + lines_from(contents, own + 1).push(line) =~= (head + lines_from(
            contents,
            own + 1,
        )).push(line));
    }
}

/// `parts` one after the other with `separator` between them.
pub open spec fn joined(parts: Seq<Seq<char>>, separator: Seq<char>) -> Seq<char>
    decreases parts.len(),
{
    if parts.len() == 0 {
        Seq::empty()
    } else if parts.len() == 1 {
        parts[0]
    } else {
        joined(parts.drop_last(), separator) + separator + parts.last()
    }
}

/// `parts` one after the other with `separator` between them.
pub fn join(parts: &Vec<String>, separator: &str) -> (result: String)
    ensures
        result@ == joined(texts(parts@), separator@),
{
    let mut result = String::new();
    let mut i: usize = 0;
    while i < parts.len()
        invariant
            i <= parts@.len(),
            result@ == joined(texts(parts@).take(i as int), separator@),
        decreases parts@.len() - i,
    {
        if i > 0 {
            result.append(separator);
        }
        result.append(parts[i].as_str());
        assert(texts(parts@).take(i + 1).drop_last() =~= texts(parts@).take(i as int));
        proof {
            if i == 0 {
                assert(result@ =~= texts(parts@).take(1)[0]);
            }
        }
        i += 1;
    }
    assert(texts(parts@).take(i as int) =~= texts(parts@));
    result
}

/// The decimal digit of value `value`.
pub open spec fn digit(value: nat) -> char {
    (48 + value) as char
}

/// `number` in decimal, without leading zeros.
pub open spec fn decimal(number: nat) -> Seq<char>
    decreases number,
{
    if number < 10 {
        seq![digit(number)]
    } else {
        decimal(number / 10).push(digit(number % 10))
    }
}

/// `number` in decimal, without leading zeros.
pub fn decimal_text(number: u64) -> (result: String)
    ensures
        result@ == decimal(number as nat),
    decreases number,
{
    let last = (48 + (number % 10) as u8) as char;
    if number < 10 {
        let mut result = String::new();
        result.push(last);
        assert(result@ =~= seq![last]);
        result
    } else {
        let mut result = decimal_text(number / 10);
        result.push(last);
        result
    }
}

/// `text` without the characters `c` at its end.
pub open spec fn without_trailing(text: Seq<char>, c: char) -> Seq<char>
    decreases text.len(),
{
    if text.len() > 0 && text.last() == c {
        without_trailing(text.drop_last(), c)
    } else {
        text
    }
}

/// `text` without the characters `c` at its end.
pub fn trim_end_char(text: &str, c: char) -> (result: String)
    ensures
        result@ == without_trailing(text@, c),
{
    let chars = chars_of(text);
    let mut end: usize = chars.len();
    assert(chars@.take(end as int) =~= chars@);
    while end > 0 && chars[end - 1] == c
        invariant
            end <= chars@.len(),
            without_trailing(chars@.take(end as int), c) == without_trailing(chars@, c),
        decreases end,
    {
        assert(chars@.take(end as int).drop_last() =~= chars@.take(end - 1));
        end -= 1;
    }
    assert(chars@.subrange(0, end as int) =~= chars@.take(end as int));
    text_between(&chars, 0, end)
}

/// Whether `left` comes before `right` in the order of their code points.
pub open spec fn precedes(left: Seq<char>, right: Seq<char>) -> bool
    decreases left.len(),
{
    if right.len() == 0 {
        false
    } else if left.len() == 0 {
        true
    } else if left[0] == right[0] {
        precedes(left.skip(1), right.skip(1))
    } else {
        (left[0] as u32) < (right[0] as u32)
    }
}

/// Text that differs first at position `at`, and is smaller there, comes before.
pub proof fn lemma_precedes(left: Seq<char>, right: Seq<char>, at: int)
    requires
        0 <= at < right.len(),
        at < left.len(),
        forall|i: int| 0 <= i < at ==> left[i] == right[i],
        (left[at] as u32) < (right[at] as u32),
    ensures
        precedes(left, right),
    decreases at,
{
    if at > 0 {
        assert(left[0] == right[0]);
        lemma_precedes(left.skip(1), right.skip(1), at - 1);
    }
}

/// The order of texts is strict: a text that comes before another does not come after
/// it.
pub proof fn lemma_precedes_is_strict(left: Seq<char>, right: Seq<char>)
    requires
        precedes(left, right),
    ensures
        !precedes(right, left),
    decreases left.len(),
{
    if left.len() > 0 && left[0] == right[0] {
        lemma_precedes_is_strict(left.skip(1), right.skip(1));
    }
}

/// The order of texts is transitive.
pub proof fn lemma_precedes_is_transitive(first: Seq<char>, second: Seq<char>, third: Seq<char>)
    requires
        precedes(first, second),
        precedes(second, third),
    ensures
        precedes(first, third),
    decreases first.len(),
{
    if first.len() > 0 && first[0] == second[0] && second[0] == third[0] {
        lemma_precedes_is_transitive(first.skip(1), second.skip(1), third.skip(1));
    }
}

/// Whether `left` comes before `right` in the order of their code points.
pub fn comes_before(left: &str, right: &str) -> (result: bool)
    ensures
        result == precedes(left@, right@),
{
    let a = chars_of(left);
    let b = chars_of(right);
    let mut i: usize = 0;
    assert(left@.skip(0) =~= left@);
    assert(right@.skip(0) =~= right@);
    while i < a.len() && i < b.len() && a[i] == b[i]
        invariant
            i <= a@.len(),
            i <= b@.len(),
            a@ == left@,
            b@ == right@,
            precedes(left@.skip(i as int), right@.skip(i as int)) == precedes(left@, right@),
        decreases a@.len() - i,
    {
        assert(left@.skip(i as int).skip(1) =~= left@.skip(i + 1));
        assert(right@.skip(i as int).skip(1) =~= right@.skip(i + 1));
        i += 1;
    }
    if i == b.len() {
        return false;
    }
    if i == a.len() {
        return true;
    }
    (a[i] as u32) < (b[i] as u32)
}

/// What `str::to_lowercase` makes of `text`: the Unicode lowercase mapping.
pub uninterp spec fn lowercase_text(text: Seq<char>) -> Seq<char>;

/// `str::to_lowercase`: the lowercase equivalent of `text`, by the Unicode
/// mapping, which depends on the text alone.
#[verifier::external_body]
pub(crate) fn lowercase(text: &str) -> (result: String)
    ensures
        result@ == lowercase_text(text@),
{
    text.to_lowercase()
}

/// What the `Debug` format makes of `text`: the text in double quotes with
/// special characters escaped.
pub uninterp spec fn quoted_text(text: Seq<char>) -> Seq<char>;

/// The `Debug` format of a string slice (`{:?}`): its quoted and escaped form,
/// which depends on the text alone.
#[verifier::external_body]
pub(crate) fn quoted(text: &str) -> (result: String)
    ensures
        result@ == quoted_text(text@),
{
    format!("{:?}", text)
}

/// The message of the error that `String::from_utf8` gives for `bytes`.
pub uninterp spec fn utf8_failure(bytes: Seq<u8>) -> Seq<char>;

/// `String::from_utf8`: the text whose UTF-8 encoding is `bytes`, or the message
/// of the error where `bytes` is not valid UTF-8. The message depends on the
/// bytes alone.
#[verifier::external_body]
pub(crate) fn utf8_text(bytes: Vec<u8>) -> (result: Result<String, String>)
    ensures
        match result {
            Ok(text) => valid_utf8(bytes@) && text@ == decode_utf8(bytes@),
            Err(message) => !valid_utf8(bytes@) && message@ == utf8_failure(bytes@),
        },
{
    match String::from_utf8(bytes) {
        Ok(text) => Ok(text),
        Err(error) => Err(error.to_string()),
    }
}

/// Trimming takes white space off both ends and nothing else: what is left is a part of the
/// text, all before and after it is white space, and it neither begins nor ends with any.
pub proof fn law_trimming_takes_only_white_space(text: Seq<char>)
    ensures
        exists|start: int, end: int|
            0 <= start <= end <= text.len() && trimmed(text) == #[trigger] text.subrange(start, end)
                && (forall|i: int|
                0 <= i < start || end <= i < text.len() ==> is_white_space(#[trigger] text[i]))
                && (start < end ==> !is_white_space(text[start]) && !is_white_space(text[end - 1])),
{
    let start = lemma_trim_start(text);
    let body = trim_start(text);
    let length = lemma_trim_end(body);
    let end = start + length;
    assert(text.subrange(start, end) =~= body.take(length));
    assert(trimmed(text) =~= text.subrange(start, end));
    assert forall|i: int| 0 <= i < start || end <= i < text.len() implies is_white_space(
        #[trigger] text[i],
    ) by {
        if i >= end {
            assert(body[i - start] == text[i]);
        }
    }
    if start < end {
        assert(body[0] == text[start]);
        assert(body[length - 1] == text[end - 1]);
    }
}

/// Where the text begins that is left after leading white space.
proof fn lemma_trim_start(text: Seq<char>) -> (start: int)
    ensures
        0 <= start <= text.len(),
        trim_start(text) == text.skip(start),
        forall|i: int| 0 <= i < start ==> is_white_space(#[trigger] text[i]),
        start < text.len() ==> !is_white_space(text[start]),
    decreases text.len(),
{
    if text.len() > 0 && is_white_space(text[0]) {
        let rest = text.skip(1);
        let start = lemma_trim_start(rest) + 1;
        assert(rest.skip(start - 1) =~= text.skip(start));
        assert forall|i: int| 0 <= i < start implies is_white_space(#[trigger] text[i]) by {
            if i > 0 {
                assert(rest[i - 1] == text[i]);
            }
        }
        if start < text.len() {
            assert(rest[start - 1] == text[start]);
        }
        start
    } else {
        assert(text.skip(0) =~= text);
        0
    }
}

/// Where the text ends that is left before trailing white space.
proof fn lemma_trim_end(text: Seq<char>) -> (end: int)
    ensures
        0 <= end <= text.len(),
        trim_end(text) == text.take(end),
        forall|i: int| end <= i < text.len() ==> is_white_space(#[trigger] text[i]),
        0 < end ==> !is_white_space(text[end - 1]),
    decreases text.len(),
{
    if text.len() > 0 && is_white_space(text.last()) {
        let rest = text.drop_last();
        let end = lemma_trim_end(rest);
        assert(rest.take(end) =~= text.take(end));
        assert forall|i: int| end <= i < text.len() implies is_white_space(#[trigger] text[i]) by {
            if i < text.len() - 1 {
                assert(rest[i] == text[i]);
            }
        }
        end
    } else {
        assert(text.take(text.len() as int) =~= text);
        text.len() as int
    }
}

/// Blanks, tabs and line ends are white space, and no letter, digit or sign of ASCII is.
pub proof fn law_white_space_of_ascii(c: char)
    requires
        (c as u32) < 0x80,
    ensures
        is_white_space(c) <==> c == ' ' || c == '\t' || c == '\n' || c == '\r' || c as u32 == 0xb
            || c as u32 == 0xc,
{
}

/// The number that decimal digits stand for.
pub open spec fn number_of(digits: Seq<char>) -> int
    decreases digits.len(),
{
    if digits.len() == 0 {
        0
    } else {
        10 * number_of(digits.drop_last()) + (digits.last() as u32 - '0' as u32)
    }
}

/// A number in decimal is read as the same number; it is made of digits, and begins with a zero
/// only where it is zero.
pub proof fn law_decimal_is_read_back(number: nat)
    ensures
        number_of(decimal(number)) == number,
        decimal(number).len() > 0,
        forall|i: int| 0 <= i < decimal(number).len() ==> '0' <= #[trigger] decimal(number)[i] <= '9',
        decimal(number)[0] == '0' ==> number == 0,
    decreases number,
{
    if number >= 10 {
        law_decimal_is_read_back(number / 10);
        let before = decimal(number / 10);
        let after = decimal(number);
        assert(after.drop_last() =~= before);
        assert(after.last() == digit(number % 10));
        assert forall|i: int| 0 <= i < after.len() implies '0' <= #[trigger] after[i] <= '9' by {
            if i < before.len() {
                assert(after[i] == before[i]);
            }
        }
        assert(after[0] == before[0]);
    } else {
        let after = decimal(number);
        assert(after.drop_last() =~= Seq::<char>::empty());
        assert(number_of(after.drop_last()) == 0);
        assert(after.last() == digit(number));
    }
}

/// Joining texts keeps each of them whole and in order, with the separator between them and
/// nowhere else.
pub proof fn law_joining_keeps_every_text(
    first: Seq<Seq<char>>,
    text: Seq<char>,
    second: Seq<Seq<char>>,
    separator: Seq<char>,
)
    ensures
        joined(Seq::empty(), separator).len() == 0,
        joined(seq![text], separator) == text,
        first.len() > 0 ==> joined(first.push(text), separator) == joined(first, separator)
            + separator + text,
        first.len() > 0 && second.len() > 0 ==> joined(first + second, separator) == joined(
            first,
            separator,
        ) + separator + joined(second, separator),
    decreases second.len(),
{
    let one = seq![text];
    assert(one.drop_last() =~= Seq::<Seq<char>>::empty());
    assert(joined(one, separator) =~= text);
    assert(first.push(text).drop_last() =~= first);
    if first.len() > 0 && second.len() > 0 {
        let all = first + second;
        let fewer = second.drop_last();
        assert(all.drop_last() =~= first + fewer);
        assert(all.last() == second.last());
        if fewer.len() > 0 {
            law_joining_keeps_every_text(first, text, fewer, separator);
            assert(joined(all, separator) =~= joined(first, separator) + separator + joined(
                second,
                separator,
            ));
        } else {
            assert(first + fewer =~= first);
            assert(second =~= seq![second.last()]);
            assert(seq![second.last()].drop_last() =~= Seq::<Seq<char>>::empty());
            assert(joined(second, separator) =~= second.last());
        }
    }
}

/// Taking characters off the end takes all of them and nothing else.
pub proof fn law_trailing_characters_are_taken(text: Seq<char>, c: char)
    ensures
        ({
            let left = without_trailing(text, c);
            &&& left.len() <= text.len()
            &&& left == text.take(left.len() as int)
            &&& left.len() > 0 ==> left.last() != c
            &&& forall|i: int| left.len() <= i < text.len() ==> (#[trigger] text[i]) == c
        }),
    decreases text.len(),
{
    let left = without_trailing(text, c);
    if text.len() > 0 && text.last() == c {
        let fewer = text.drop_last();
        law_trailing_characters_are_taken(fewer, c);
        assert(fewer.take(left.len() as int) =~= text.take(left.len() as int));
        assert forall|i: int| left.len() <= i < text.len() implies (#[trigger] text[i]) == c by {
            if i < fewer.len() {
                assert(fewer[i] == text[i]);
            }
        }
    } else {
        assert(text.take(text.len() as int) =~= text);
    }
}

/// Lines end with a line feed, with or without a carriage return before it: what stands before
/// the first line feed is the first line, and the lines after it are those of the rest. What is
/// not ended is a line as it is.
pub proof fn law_lines_end_with_a_line_feed(line: Seq<char>, rest: Seq<char>)
    requires
        !line.contains('\n'),
    ensures
        line.len() == 0 || line.last() != '\r' ==> line_texts(line.push('\n') + rest) == seq![line]
            + line_texts(rest),
        line_texts(line.push('\r').push('\n') + rest) == seq![line] + line_texts(rest),
        line.len() > 0 ==> line_texts(line) == seq![line],
        line_texts(Seq::empty()).len() == 0,
{
    let plain = line.push('\n');
    let returned = line.push('\r').push('\n');
    lemma_first_line(plain, rest, line.len() as int);
    assert forall|i: int| 0 <= i < line.len() + 1 implies (#[trigger] returned[i]) != '\n' by {
        if i < line.len() {
            assert(line.contains(line[i]));
        }
    }
    lemma_first_line(returned, rest, line.len() + 1int);
    assert(plain.take(line.len() as int) =~= line);
    assert(returned.take(line.len() + 1int) =~= line.push('\r'));
    assert(line.push('\r').drop_last() =~= line);
    lemma_next_char(line, '\n', 0);
    let end = next_char(line, '\n', 0);
    if end < line.len() {
        assert(line.contains(line[end]));
    }
    if line.len() > 0 {
        assert(line.skip(0) =~= line);
    }
}

/// The first line of a text, and the lines after it.
proof fn lemma_first_line(head: Seq<char>, rest: Seq<char>, end: int)
    requires
        0 <= end == head.len() - 1,
        head[end] == '\n',
        forall|i: int| 0 <= i < end ==> (#[trigger] head[i]) != '\n',
    ensures
        line_texts(head + rest) == seq![without_carriage_return(head.take(end))] + line_texts(rest),
{
    let all = head + rest;
    lemma_next_char(all, '\n', 0);
    let found = next_char(all, '\n', 0);
    assert(all[end] == '\n');
    if found < end {
        assert(all[found] == head[found]);
    }
    assert(found == end);
    assert(all.subrange(0, end) =~= head.take(end));
    lemma_later_lines(head, rest, 0);
}

/// The lines after a beginning are those of the rest.
proof fn lemma_later_lines(head: Seq<char>, rest: Seq<char>, from: int)
    requires
        0 <= from <= rest.len(),
    ensures
        lines_from(head + rest, head.len() + from) == lines_from(rest, from),
    decreases rest.len() - from,
{
    let all = head + rest;
    let start = head.len() + from;
    if from < rest.len() {
        lemma_next_char(rest, '\n', from);
        lemma_next_char(all, '\n', start);
        let own = next_char(rest, '\n', from);
        let found = next_char(all, '\n', start);
        assert(found == head.len() + own) by {
            if own < rest.len() {
                assert(all[head.len() + own] == '\n');
            }
            if found < head.len() + own {
                assert(all[found] == rest[found - head.len()]);
            }
        }
        if own < rest.len() {
            assert(all.subrange(start, found) =~= rest.subrange(from, own));
            lemma_later_lines(head, rest, own + 1);
        } else {
            assert(all.skip(start) =~= rest.skip(from));
        }
    }
}

/// Texts are ordered by their first different characters; a text comes before what continues it.
pub proof fn law_texts_are_ordered_by_their_first_difference(
    start: Seq<char>,
    left: Seq<char>,
    right: Seq<char>,
)
    ensures
        left.len() > 0 && right.len() > 0 && left[0] != right[0] ==> (precedes(
            start + left,
            start + right,
        ) <==> (left[0] as u32) < (right[0] as u32)),
        right.len() > 0 ==> precedes(start, start + right),
        !precedes(start + right, start),
        !precedes(start, start),
    decreases start.len(),
{
    if start.len() > 0 {
        law_texts_are_ordered_by_their_first_difference(start.skip(1), left, right);
        assert((start + left).skip(1) =~= start.skip(1) + left);
        assert((start + right).skip(1) =~= start.skip(1) + right);
    } else {
        assert(start + left =~= left);
        assert(start + right =~= right);
    }
}

} // verus!
