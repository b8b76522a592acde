//! Server-sent events: cutting a byte stream into events.
use vstd::prelude::*;
use vstd::utf8::*;

use crate::events::{LlmError, LlmErrorView};
use crate::text;

verus! {

#[derive(Debug, PartialEq, Eq)]
pub struct SseEvent {
    pub event: Option<String>,
    pub data: String,
}

/// What an [`SseEvent`] holds.
#[verifier::ext_equal]
pub struct SseEventView {
    pub event: Option<Seq<char>>,
    pub data: Seq<char>,
}

impl View for SseEvent {
    type V = SseEventView;

    open spec fn view(&self) -> SseEventView {
        SseEventView { event: text::optional_text(self.event), data: self.data@ }
    }
}

impl Clone for SseEvent {
    fn clone(&self) -> (copy: Self)
        ensures
            copy@ == self@,
    {
        SseEvent { event: text::copy_optional(&self.event), data: self.data.clone() }
    }
}

/// The views of a sequence of events.
pub open spec fn sse_views(events: Seq<SseEvent>) -> Seq<SseEventView> {
    events.map_values(|event: SseEvent| event@)
}

/// The length of the event separator that stands in `bytes` at position `at`: two
/// line feeds, two carriage returns, or both pairs of carriage return and line
/// feed. It is 0 where none stands there.
pub open spec fn separator_len(bytes: Seq<u8>, at: int) -> int {
    if at < 0 || at + 2 > bytes.len() {
        0
    } else if bytes[at] == 10 && bytes[at + 1] == 10 {
        2
    } else if bytes[at] == 13 && bytes[at + 1] == 13 {
        2
    } else if at + 4 <= bytes.len() && bytes[at] == 13 && bytes[at + 1] == 10 && bytes[at + 2] == 13
        && bytes[at + 3] == 10 {
        4
    } else {
        0
    }
}

/// The first position at or after `from` where a separator stands, or the number of
/// bytes where there is none.
pub open spec fn separator_from(bytes: Seq<u8>, from: int) -> int
    decreases bytes.len() - from,
{
    if from >= bytes.len() {
        bytes.len() as int
    } else if separator_len(bytes, from) > 0 {
        from
    } else {
        separator_from(bytes, from + 1)
    }
}

/// [`separator_from`] stays within the bytes and passes over no separator.
pub proof fn lemma_separator_from(bytes: Seq<u8>, from: int)
    requires
        0 <= from <= bytes.len(),
    ensures
        from <= separator_from(bytes, from) <= bytes.len(),
        separator_from(bytes, from) < bytes.len() ==> separator_len(
            bytes,
            separator_from(bytes, from),
        ) > 0,
        forall|i: int| from <= i < separator_from(bytes, from) ==> separator_len(bytes, i) == 0,
    decreases bytes.len() - from,
{
    if from < bytes.len() && separator_len(bytes, from) == 0 {
        lemma_separator_from(bytes, from + 1);
    }
}

/// The name and the value of a line of an event. A line that begins with a colon is
/// a comment. The value follows the first colon, less one space.
pub open spec fn line_field(line: Seq<char>) -> Option<(Seq<char>, Seq<char>)> {
    let colon = text::next_char(line, ':', 0);
    if colon == 0 && line.len() > 0 {
        None
    } else if colon >= line.len() {
        Some((line, Seq::empty()))
    } else {
        let value = line.skip(colon + 1);
        if value.len() > 0 && value[0] == ' ' {
            Some((line.take(colon), value.skip(1)))
        } else {
            Some((line.take(colon), value))
        }
    }
}

/// The value of the last line named `event`.
pub open spec fn event_name(lines: Seq<Seq<char>>) -> Option<Seq<char>>
    decreases lines.len(),
{
    if lines.len() == 0 {
        None
    } else {
        match line_field(lines.last()) {
            Some((name, value)) if name == "event"@ => Some(value),
            _ => event_name(lines.drop_last()),
        }
    }
}

/// The values of the lines named `data`.
pub open spec fn data_values(lines: Seq<Seq<char>>) -> Seq<Seq<char>>
    decreases lines.len(),
{
    if lines.len() == 0 {
        Seq::empty()
    } else {
        match line_field(lines.last()) {
            Some((name, value)) if name == "data"@ => data_values(lines.drop_last()).push(value),
            _ => data_values(lines.drop_last()),
        }
    }
}

/// The event that a block of text stands for. A block without a line named `event`
/// or `data` stands for none.
pub open spec fn parsed_event(block: Seq<char>) -> Option<SseEventView> {
    let lines = text::line_texts(block);
    if event_name(lines) is None && data_values(lines).len() == 0 {
        None
    } else {
        Some(
            SseEventView {
                event: event_name(lines),
                data: text::joined(data_values(lines), "\n"@),
            },
        )
    }
}

/// The event of a block of text, as a sequence of at most one.
pub open spec fn parsed_events(block: Seq<char>) -> Seq<SseEventView> {
    match parsed_event(block) {
        Some(event) => seq![event],
        None => Seq::empty(),
    }
}

/// What comes of cutting the complete events off the front of a buffer.
#[verifier::ext_equal]
pub struct Cut {
    /// The events, up to the end or to the first block that is no text.
    pub events: Seq<SseEventView>,
    /// What is left in the buffer.
    pub rest: Seq<u8>,
    /// Why a block is no text.
    pub failure: Option<Seq<char>>,
}

/// Cuts the complete events off the front of `bytes`. It ends at the first block
/// that is not valid UTF-8, which is cut off too.
pub open spec fn cut(bytes: Seq<u8>) -> Cut
    decreases bytes.len(),
{
    let start = separator_from(bytes, 0);
    if start < 0 || start >= bytes.len() || separator_len(bytes, start) <= 0 {
        Cut { events: Seq::empty(), rest: bytes, failure: None }
    } else {
        let block = bytes.take(start);
        let rest = bytes.skip(start + separator_len(bytes, start));
        if !valid_utf8(block) {
            Cut { events: Seq::empty(), rest, failure: Some(text::utf8_failure(block)) }
        } else {
            let later = cut(rest);
            Cut {
                events: parsed_events(decode_utf8(block)) + later.events,
                rest: later.rest,
                failure: later.failure,
            }
        }
    }
}

/// The error for a block that is no text.
pub open spec fn not_text(failure: Seq<char>) -> LlmErrorView {
    LlmErrorView::InvalidResponse {
        message: "provider sent invalid UTF-8 SSE data: "@ + failure,
    }
}

/// What the events of a stream are when its end has come: what is left in the
/// buffer is one more block.
pub open spec fn closed(bytes: Seq<u8>) -> Result<Seq<SseEventView>, LlmErrorView> {
    let cut = cut(bytes);
    match cut.failure {
        Some(failure) => Err(not_text(failure)),
        None => if cut.rest.len() == 0 {
            Ok(cut.events)
        } else if valid_utf8(cut.rest) {
            Ok(cut.events + parsed_events(decode_utf8(cut.rest)))
        } else {
            Err(not_text(text::utf8_failure(cut.rest)))
        },
    }
}

/// Cuts a byte stream that comes in chunks into events.
#[derive(Debug)]
pub struct SseParser {
    buffer: Vec<u8>,
}

impl View for SseParser {
    type V = Seq<u8>;

    /// The bytes that do not yet make a complete event.
    closed spec fn view(&self) -> Seq<u8> {
        self.buffer@
    }
}

impl Default for SseParser {
    fn default() -> (parser: Self)
        ensures
            parser@ == Seq::<u8>::empty(),
    {
        SseParser { buffer: Vec::new() }
    }
}

/// A copy of `bytes[start..]`.
fn bytes_after(bytes: &Vec<u8>, start: usize) -> (copy: Vec<u8>)
    requires
        start <= bytes@.len(),
    ensures
        copy@ == bytes@.skip(start as int),
{
    let mut copy: Vec<u8> = Vec::new();
    let mut i: usize = start;
    while i < bytes.len()
        invariant
            start <= i <= bytes@.len(),
            copy@ == bytes@.subrange(start as int, i as int),
        decreases bytes@.len() - i,
    {
        copy.push(bytes[i]);
        assert(copy@ =~= bytes@.subrange(start as int, i + 1));
        i += 1;
    }
    assert(copy@ =~= bytes@.skip(start as int));
    copy
}

/// A copy of `bytes[..end]`.
fn bytes_before(bytes: &Vec<u8>, end: usize) -> (copy: Vec<u8>)
    requires
        end <= bytes@.len(),
    ensures
        copy@ == bytes@.take(end as int),
{
    let mut copy: Vec<u8> = Vec::new();
    let mut i: usize = 0;
    while i < end
        invariant
            i <= end <= bytes@.len(),
            copy@ == bytes@.take(i as int),
        decreases end - i,
    {
        copy.push(bytes[i]);
        assert(copy@ =~= bytes@.take(i + 1));
        i += 1;
    }
    copy
}

/// Where the first separator stands in `buffer`, and its length.
pub fn find_event_separator(buffer: &Vec<u8>) -> (separator: Option<(usize, usize)>)
    ensures
        match separator {
            Some((start, length)) => start == separator_from(buffer@, 0) && start < buffer@.len()
                && length == separator_len(buffer@, start as int) && length > 0,
            None => separator_from(buffer@, 0) == buffer@.len(),
        },
{
    let mut i: usize = 0;
    while i < buffer.len()
        invariant
            i <= buffer@.len(),
            separator_from(buffer@, i as int) == separator_from(buffer@, 0),
        decreases buffer@.len() - i,
    {
        if buffer.len() - i >= 2 {
            if buffer[i] == 10 && buffer[i + 1] == 10 {
                return Some((i, 2));
            }
            if buffer[i] == 13 && buffer[i + 1] == 13 {
                return Some((i, 2));
            }
            if buffer.len() - i >= 4 && buffer[i] == 13 && buffer[i + 1] == 10 && buffer[i + 2]
                == 13 && buffer[i + 3] == 10 {
                return Some((i, 4));
            }
        }
        i += 1;
    }
    None
}

/// The name and the value of a line of an event.
fn field_of(line: &str) -> (field: Option<(String, String)>)
    ensures
        match field {
            Some((name, value)) => line_field(line@) == Some((name@, value@)),
            None => line_field(line@) is None,
        },
{
    let chars = text::chars_of(line);
    let colon = text::position_of(&chars, ':', 0);
    if colon == 0 && chars.len() > 0 {
        return None;
    }
    if colon == chars.len() {
        return Some((text::copy_text(line), String::new()));
    }
    let name = text::text_between(&chars, 0, colon);
    assert(name@ =~= line@.take(colon as int));
    let mut start: usize = colon + 1;
    if start < chars.len() && chars[start] == ' ' {
        start = start + 1;
        assert(line@.skip(colon + 1)[0] == ' ');
    }
    let value = text::text_between(&chars, start, chars.len());
    assert(start == colon + 1 ==> value@ =~= line@.skip(colon + 1));
    assert(start == colon + 2 ==> value@ =~= line@.skip(colon + 1).skip(1));
    Some((name, value))
}

/// The event that a block of text stands for.
pub fn parse_sse_event(text: &str) -> (event: Option<SseEvent>)
    ensures
        match event {
            Some(event) => parsed_event(text@) == Some(event@),
            None => parsed_event(text@) is None,
        },
{
    let lines = text::lines(text);
    let ghost views = text::texts(lines@);
    let mut event: Option<String> = None;
    let mut data_lines: Vec<String> = Vec::new();
    let mut i: usize = 0;
    assert(text::texts(data_lines@) =~= data_values(views.take(0)));
    while i < lines.len()
        invariant
            i <= lines@.len(),
            views == text::texts(lines@),
            text::optional_text(event) == event_name(views.take(i as int)),
            text::texts(data_lines@) == data_values(views.take(i as int)),
        decreases lines@.len() - i,
    {
        assert(views.take(i + 1).drop_last() =~= views.take(i as int));
        assert(views.take(i + 1).last() == lines@[i as int]@);
        if let Some((name, value)) = field_of(lines[i].as_str()) {
            proof {
                reveal_strlit("event");
                reveal_strlit("data");
                assert("event"@.len() != "data"@.len());
            }
            if text::same_text(name.as_str(), "event") {
                event = Some(value);
            } else if text::same_text(name.as_str(), "data") {
                let ghost before = text::texts(data_lines@);
                data_lines.push(value);
                assert(text::texts(data_lines@) =~= before.push(value@));
            }
        }
        i += 1;
    }
    assert(views.take(i as int) =~= views);
    if event.is_none() && data_lines.len() == 0 {
        return None;
    }
    Some(SseEvent { event, data: text::join(&data_lines, "\n") })
}

/// The error for a block that is no text.
fn not_text_error(failure: &str) -> (error: LlmError)
    ensures
        error@ == not_text(failure@),
{
    LlmError::InvalidResponse {
        message: text::concat("provider sent invalid UTF-8 SSE data: ", failure),
    }
}

impl SseParser {
    pub fn new() -> (parser: Self)
        ensures
            parser@ == Seq::<u8>::empty(),
    {
        SseParser { buffer: Vec::new() }
    }

    /// Takes one more chunk of the stream and gives the events that are complete.
    /// Where a block is not valid UTF-8 it fails, and the events before that block
    /// in the chunk are lost.
    pub fn push_bytes(&mut self, bytes: &[u8]) -> (events: Result<Vec<SseEvent>, LlmError>)
        ensures
            final(self)@ == cut(old(self)@ + bytes@).rest,
            match events {
                Ok(events) => cut(old(self)@ + bytes@).failure is None && sse_views(events@)
                    == cut(old(self)@ + bytes@).events,
                Err(error) => cut(old(self)@ + bytes@).failure is Some && error@ == not_text(
                    cut(old(self)@ + bytes@).failure->0,
                ),
            },
    {
        let mut i: usize = 0;
        while i < bytes.len()
            invariant
                i <= bytes@.len(),
                self@ == old(self)@ + bytes@.take(i as int),
            decreases bytes@.len() - i,
        {
            self.buffer.push(bytes[i]);
            assert(self@ =~= old(self)@ + bytes@.take(i + 1));
            i += 1;
        }
        assert(bytes@.take(i as int) =~= bytes@);
        self.take_complete_events()
    }

    /// Ends the stream: gives the events that are complete and takes what is left as
    /// one more block.
    pub fn finish(&mut self) -> (events: Result<Vec<SseEvent>, LlmError>)
        ensures
            match events {
                Ok(events) => closed(old(self)@) == Ok::<Seq<SseEventView>, LlmErrorView>(
                    sse_views(events@),
                ),
                Err(error) => closed(old(self)@) == Err::<Seq<SseEventView>, LlmErrorView>(error@),
            },
            final(self)@ == if cut(old(self)@).failure is Some {
                cut(old(self)@).rest
            } else {
                Seq::empty()
            },
    {
        let mut result = match self.take_complete_events() {
            Ok(events) => events,
            Err(error) => {
                return Err(error);
            },
        };
        if self.buffer.len() == 0 {
            assert(self@ =~= Seq::<u8>::empty());
            return Ok(result);
        }
        let remainder_bytes = bytes_after(&self.buffer, 0);
        assert(remainder_bytes@ =~= self.buffer@);
        self.buffer = Vec::new();
        let remainder = match text::utf8_text(remainder_bytes) {
            Ok(remainder) => remainder,
            Err(failure) => {
                return Err(not_text_error(failure.as_str()));
            },
        };
        let ghost before = sse_views(result@);
        match parse_sse_event(remainder.as_str()) {
            Some(event) => {
                result.push(event);
                assert(sse_views(result@) =~= before + seq![event@]);
            },
            None => {
                assert(before + Seq::<SseEventView>::empty() =~= before);
            },
        }
        Ok(result)
    }

    fn take_complete_events(&mut self) -> (events: Result<Vec<SseEvent>, LlmError>)
        ensures
            final(self)@ == cut(old(self)@).rest,
            match events {
                Ok(events) => cut(old(self)@).failure is None && sse_views(events@) == cut(
                    old(self)@,
                ).events,
                Err(error) => cut(old(self)@).failure is Some && error@ == not_text(
                    cut(old(self)@).failure->0,
                ),
            },
    {
        let mut events: Vec<SseEvent> = Vec::new();
        assert(sse_views(events@) + cut(self@).events =~= cut(self@).events);
        loop
            invariant
                cut(self@).failure == cut(old(self)@).failure,
                cut(self@).rest == cut(old(self)@).rest,
                sse_views(events@) + cut(self@).events == cut(old(self)@).events,
            decreases self@.len(),
        {
            let (start, length) = match find_event_separator(&self.buffer) {
                Some(separator) => separator,
                None => {
                    assert(sse_views(events@) + cut(self@).events =~= sse_views(events@));
                    return Ok(events);
                },
            };
            let ghost before = sse_views(events@);
            assert(start + length <= self.buffer.len());
            let event_bytes = bytes_before(&self.buffer, start);
            let rest = bytes_after(&self.buffer, start + length);
            self.buffer = rest;
            let text = match text::utf8_text(event_bytes) {
                Ok(text) => text,
                Err(failure) => {
                    return Err(not_text_error(failure.as_str()));
                },
            };
            match parse_sse_event(text.as_str()) {
                Some(event) => {
                    events.push(event);
                    assert(sse_views(events@) =~= before + seq![event@]);
                },
                None => {
                    assert(before + Seq::<SseEventView>::empty() =~= before);
                },
            }
            assert(before + (parsed_events(text@) + cut(self@).events) =~= (before + parsed_events(
                text@,
            )) + cut(self@).events);
        }
    }
}

/// The first separator of a buffer stays the first when more bytes follow.
proof fn lemma_separator_stays(bytes: Seq<u8>, more: Seq<u8>, from: int)
    requires
        0 <= from <= bytes.len(),
        separator_from(bytes, from) < bytes.len(),
    ensures
        separator_from(bytes + more, from) == separator_from(bytes, from),
        separator_len(bytes + more, separator_from(bytes, from)) == separator_len(
            bytes,
            separator_from(bytes, from),
        ),
    decreases bytes.len() - from,
{
    lemma_separator_from(bytes, from);
    let all = bytes + more;
    let at = separator_from(bytes, from);
    assert(separator_len(all, at) == separator_len(bytes, at));
    if from < at {
        assert(separator_len(all, from) == 0);
        lemma_separator_stays(bytes, more, from + 1);
    }
}

/// How a stream is split into chunks makes no difference to its events: cutting
/// `bytes` and then what was left of it with `more` behind it gives the same events,
/// the same rest and the same failure as cutting `bytes` and `more` at once. A
/// failure in `bytes` is the failure of both.
pub proof fn law_chunks_do_not_matter(bytes: Seq<u8>, more: Seq<u8>)
    ensures
        cut(bytes).failure is Some ==> cut(bytes + more).failure == cut(bytes).failure && cut(
            bytes + more,
        ).events == cut(bytes).events && cut(bytes + more).rest == cut(bytes).rest + more,
        cut(bytes).failure is None ==> cut(bytes + more) == (Cut {
            events: cut(bytes).events + cut(cut(bytes).rest + more).events,
            rest: cut(cut(bytes).rest + more).rest,
            failure: cut(cut(bytes).rest + more).failure,
        }),
    decreases bytes.len(),
{
    lemma_separator_from(bytes, 0);
    let start = separator_from(bytes, 0);
    if start < bytes.len() {
        lemma_separator_stays(bytes, more, 0);
        let length = separator_len(bytes, start);
        let rest = bytes.skip(start + length);
        assert((bytes + more).take(start) =~= bytes.take(start));
        assert((bytes + more).skip(start + length) =~= rest + more);
        let block = bytes.take(start);
        if valid_utf8(block) {
            law_chunks_do_not_matter(rest, more);
            let first = parsed_events(decode_utf8(block));
            assert(first + (cut(rest).events + cut(cut(rest).rest + more).events) =~= (first + cut(
                rest,
            ).events) + cut(cut(rest).rest + more).events);
        }
    } else {
        assert(cut(bytes).events + cut(bytes + more).events =~= cut(bytes + more).events);
    }
}

/// After an event has been cut off, no complete event is left in the buffer, unless
/// a block was no text.
pub proof fn law_rest_holds_no_event(bytes: Seq<u8>)
    requires
        cut(bytes).failure is None,
    ensures
        forall|i: int| 0 <= i < cut(bytes).rest.len() ==> separator_len(cut(bytes).rest, i) == 0,
    decreases bytes.len(),
{
    lemma_separator_from(bytes, 0);
    let start = separator_from(bytes, 0);
    if start < bytes.len() {
        law_rest_holds_no_event(bytes.skip(start + separator_len(bytes, start)));
    }
}

/// A line is a field with its name before the first colon and its value after it, without one
/// space; a line without a colon is a field without a value, and one that begins with a colon
/// is none.
pub proof fn law_fields_are_split_at_the_colon(name: Seq<char>, value: Seq<char>)
    requires
        name.len() > 0,
        !name.contains(':'),
    ensures
        line_field(name + ": "@ + value) == Some((name, value)),
        value.len() == 0 || value[0] != ' ' ==> line_field(name + ":"@ + value) == Some(
            (name, value),
        ),
        line_field(name) == Some((name, Seq::<char>::empty())),
        line_field(":"@ + value) is None,
{
    reveal_strlit(": ");
    reveal_strlit(":");
    let spaced = name + ": "@ + value;
    let close = name + ":"@ + value;
    assert(spaced.take(name.len() as int) =~= name);
    assert(close.take(name.len() as int) =~= name);
    lemma_colon_at(spaced, name.len() as int, name);
    lemma_colon_at(close, name.len() as int, name);
    assert(spaced.skip(name.len() + 1int).skip(1) =~= value);
    assert(spaced.skip(name.len() + 1int)[0] == ' ');
    assert(close.skip(name.len() + 1int) =~= value);
    text::lemma_next_char(name, ':', 0);
    let at = text::next_char(name, ':', 0);
    if at < name.len() {
        assert(name.contains(name[at]));
    }
    let comment = ":"@ + value;
    assert(comment[0] == ':');
    text::lemma_next_char(comment, ':', 0);
}

/// Where the first colon stands.
proof fn lemma_colon_at(line: Seq<char>, at: int, name: Seq<char>)
    requires
        at == name.len() < line.len(),
        !name.contains(':'),
        line[at] == ':',
        line.take(at) == name,
    ensures
        text::next_char(line, ':', 0) == at,
{
    text::lemma_next_char(line, ':', 0);
    let found = text::next_char(line, ':', 0);
    if found < at {
        assert(line.take(at)[found] == ':');
        assert(name.contains(name[found]));
    }
}

/// An event has the name that was given last and all of its data, one line for each field of
/// data, in order. Fields of other names do not matter, and lines without either are no event.
pub proof fn law_event_has_all_of_its_data(
    first: Seq<Seq<char>>,
    second: Seq<Seq<char>>,
    value: Seq<char>,
    name: Seq<char>,
    block: Seq<char>,
)
    ensures
        data_values(first + second) == data_values(first) + data_values(second),
        event_name(second) is Some ==> event_name(first + second) == event_name(second),
        event_name(second) is None ==> event_name(first + second) == event_name(first),
        data_values(seq!["data: "@ + value]) == seq![value],
        event_name(seq!["data: "@ + value]) is None,
        event_name(seq!["event: "@ + value]) == Some(value),
        data_values(seq!["event: "@ + value]).len() == 0,
        name.len() > 0 && !name.contains(':') && name != "data"@ && name != "event"@
            ==> data_values(seq![name + ": "@ + value]).len() == 0 && event_name(
            seq![name + ": "@ + value],
        ) is None,
        data_values(Seq::empty()).len() == 0,
        event_name(Seq::empty()) is None,
        ({
            let lines = text::line_texts(block);
            let event = parsed_event(block);
            &&& event is None <==> event_name(lines) is None && data_values(lines).len() == 0
            &&& event is Some ==> (event->0).event == event_name(lines)
            &&& event is Some ==> (event->0).data == text::joined(data_values(lines), "\n"@)
            &&& event is Some ==> parsed_events(block) == seq![event->0]
            &&& event is None ==> parsed_events(block).len() == 0
        }),
    decreases second.len(),
{
    reveal_strlit("data");
    reveal_strlit("event");
    reveal_strlit(": ");
    reveal_strlit("data: ");
    reveal_strlit("event: ");
    assert("data"@.len() == 4 && "event"@.len() == 5);
    let all = first + second;
    if second.len() == 0 {
        assert(all =~= first);
        assert(data_values(first) + data_values(second) =~= data_values(first));
    } else {
        law_event_has_all_of_its_data(first, second.drop_last(), value, name, block);
        assert(all.drop_last() =~= first + second.drop_last());
        assert(all.last() == second.last());
        assert(data_values(all) =~= data_values(first) + data_values(second));
    }
    assert("data: "@ + value =~= "data"@ + ": "@ + value);
    assert("event: "@ + value =~= "event"@ + ": "@ + value);
    law_fields_are_split_at_the_colon("data"@, value);
    law_fields_are_split_at_the_colon("event"@, value);
    let data = seq!["data: "@ + value];
    let event = seq!["event: "@ + value];
    assert(data.drop_last() =~= Seq::<Seq<char>>::empty());
    assert(event.drop_last() =~= Seq::<Seq<char>>::empty());
    assert(data_values(data.drop_last()) =~= Seq::<Seq<char>>::empty());
    assert(event_name(data.drop_last()) is None);
    assert(data_values(data) =~= seq![value]);
    if name.len() > 0 && !name.contains(':') && name != "data"@ && name != "event"@ {
        law_fields_are_split_at_the_colon(name, value);
        let other = seq![name + ": "@ + value];
        assert(other.drop_last() =~= Seq::<Seq<char>>::empty());
        assert(data_values(other) =~= Seq::<Seq<char>>::empty());
    }
}

/// An empty line ends an event, whether lines end with a line feed, a carriage return or both:
/// what stands before the first empty line is one event, and what follows it is read on its
/// own.
pub proof fn law_empty_line_ends_an_event(block: Seq<u8>, separator: Seq<u8>, rest: Seq<u8>)
    requires
        separator == seq![10u8, 10u8] || separator == seq![13u8, 13u8] || separator == seq![
            13u8,
            10u8,
            13u8,
            10u8,
        ],
        forall|i: int|
            0 <= i < block.len() ==> !#[trigger] empty_line_at(block + separator + rest, i),
    ensures
        ({
            let whole = cut(block + separator + rest);
            let later = cut(rest);
            &&& valid_utf8(block) ==> {
                &&& whole.events == parsed_events(decode_utf8(block)) + later.events
                &&& whole.rest == later.rest
                &&& whole.failure == later.failure
            }
            &&& !valid_utf8(block) ==> whole.failure is Some && whole.events.len() == 0
        }),
{
    let bytes = block + separator + rest;
    let at = block.len() as int;
    assert(bytes[at] == separator[0]);
    assert(bytes[at + 1] == separator[1]);
    if separator.len() == 4 {
        assert(bytes[at + 2] == separator[2]);
        assert(bytes[at + 3] == separator[3]);
    }
    assert(separator_len(bytes, at) == separator.len());
    lemma_first_empty_line(bytes, 0, at);
    assert(bytes.take(at) =~= block);
    assert(bytes.skip(at + separator.len()) =~= rest);
}

/// Whether an empty line begins at a position: two line feeds, two carriage returns, or two of
/// both.
pub open spec fn empty_line_at(bytes: Seq<u8>, at: int) -> bool {
    ||| 0 <= at && at + 2 <= bytes.len() && bytes[at] == 10 && bytes[at + 1] == 10
    ||| 0 <= at && at + 2 <= bytes.len() && bytes[at] == 13 && bytes[at + 1] == 13
    ||| 0 <= at && at + 4 <= bytes.len() && bytes[at] == 13 && bytes[at + 1] == 10 && bytes[at + 2]
        == 13 && bytes[at + 3] == 10
}

proof fn lemma_first_empty_line(bytes: Seq<u8>, from: int, at: int)
    requires
        0 <= from <= at < bytes.len(),
        separator_len(bytes, at) > 0,
        forall|i: int| from <= i < at ==> !#[trigger] empty_line_at(bytes, i),
    ensures
        separator_from(bytes, from) == at,
    decreases at - from,
{
    if from < at {
        assert(!empty_line_at(bytes, from));
        lemma_first_empty_line(bytes, from + 1, at);
    }
}

} // verus!
