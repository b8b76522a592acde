//! Sessions: their ids, the records in their files, and the list of them.
use vstd::prelude::*;

use crate::conversation::{ContentBlock, ConversationMessage, MessageRole, MessageView};
use crate::conversation;
use crate::json::{Json, JsonView};
use crate::json;
use crate::stored;
use crate::stored::{Fields, StoredView};
use crate::text;
use crate::workspace::WorkspacePaths;
use crate::workspace;

verus! {

/// Why a session could not be used.
#[derive(Debug, PartialEq, Eq)]
pub enum SessionError {
    InvalidSessionId,
    CreateDirectory { path: String },
    Append { session_id: String },
    Serialize { session_id: String },
    Read { session_id: String },
    InvalidRecord { session_id: String, line_number: usize },
    List,
    Metadata { session_id: String },
}

/// What a [`SessionError`] holds.
#[verifier::ext_equal]
pub enum SessionErrorView {
    InvalidSessionId,
    CreateDirectory { path: Seq<char> },
    Append { session_id: Seq<char> },
    Serialize { session_id: Seq<char> },
    Read { session_id: Seq<char> },
    InvalidRecord { session_id: Seq<char>, line_number: int },
    List,
    Metadata { session_id: Seq<char> },
}

impl View for SessionError {
    type V = SessionErrorView;

    open spec fn view(&self) -> SessionErrorView {
        match *self {
            SessionError::InvalidSessionId => SessionErrorView::InvalidSessionId,
            SessionError::CreateDirectory { path } => SessionErrorView::CreateDirectory {
                path: path@,
            },
            SessionError::Append { session_id } => SessionErrorView::Append {
                session_id: session_id@,
            },
            SessionError::Serialize { session_id } => SessionErrorView::Serialize {
                session_id: session_id@,
            },
            SessionError::Read { session_id } => SessionErrorView::Read {
                session_id: session_id@,
            },
            SessionError::InvalidRecord { session_id, line_number } =>
                SessionErrorView::InvalidRecord {
                session_id: session_id@,
                line_number: line_number as int,
            },
            SessionError::List => SessionErrorView::List,
            SessionError::Metadata { session_id } => SessionErrorView::Metadata {
                session_id: session_id@,
            },
        }
    }
}

/// What an error says to a reader.
pub open spec fn session_error_text(error: SessionErrorView) -> Seq<char> {
    match error {
        SessionErrorView::InvalidSessionId =>
            "invalid session ID: session IDs may contain ASCII letters, numbers, hyphens, and underscores"@,
        SessionErrorView::CreateDirectory { .. } => "failed to create the Session directory"@,
        SessionErrorView::Append { session_id } => "failed to append to Session "@ + session_id,
        SessionErrorView::Serialize { session_id } => "failed to serialize a Session "@ + session_id
            + " message"@,
        SessionErrorView::Read { session_id } => "failed to read Session "@ + session_id,
        SessionErrorView::InvalidRecord { session_id, line_number } => "invalid Session "@
            + session_id + " record at line "@ + text::decimal(line_number as nat),
        SessionErrorView::List => "failed to list Sessions"@,
        SessionErrorView::Metadata { session_id } => "failed to read Session metadata for "@
            + session_id,
    }
}

impl SessionError {
    /// What the error says to a reader.
    pub fn message(&self) -> (result: String)
        ensures
            result@ == session_error_text(self@),
    {
        match self {
            SessionError::InvalidSessionId => text::copy_text(
                "invalid session ID: session IDs may contain ASCII letters, numbers, hyphens, and underscores",
            ),
            SessionError::CreateDirectory { .. } => text::copy_text(
                "failed to create the Session directory",
            ),
            SessionError::Append { session_id } => text::concat(
                "failed to append to Session ",
                session_id.as_str(),
            ),
            SessionError::Serialize { session_id } => text::concat3(
                "failed to serialize a Session ",
                session_id.as_str(),
                " message",
            ),
            SessionError::Read { session_id } => text::concat(
                "failed to read Session ",
                session_id.as_str(),
            ),
            SessionError::InvalidRecord { session_id, line_number } => {
                let mut result = text::concat3(
                    "invalid Session ",
                    session_id.as_str(),
                    " record at line ",
                );
                result.append(text::decimal_text(*line_number as u64).as_str());
                result
            },
            SessionError::List => text::copy_text("failed to list Sessions"),
            SessionError::Metadata { session_id } => text::concat(
                "failed to read Session metadata for ",
                session_id.as_str(),
            ),
        }
    }
}

/// Whether a character may stand in a session id: an ASCII letter or digit, a hyphen
/// or an underscore.
pub open spec fn id_char(c: char) -> bool {
    'a' <= c <= 'z' || 'A' <= c <= 'Z' || '0' <= c <= '9' || c == '-' || c == '_'
}

/// Whether `value` is a session id: it is not empty and made of such characters.
pub open spec fn valid_id(value: Seq<char>) -> bool {
    value.len() > 0 && forall|i: int| 0 <= i < value.len() ==> id_char(#[trigger] value[i])
}

/// The id of a session.
#[derive(Debug, PartialEq, Eq, Hash)]
pub struct SessionId {
    value: String,
}

impl View for SessionId {
    type V = Seq<char>;

    closed spec fn view(&self) -> Seq<char> {
        self.value@
    }
}

impl Clone for SessionId {
    fn clone(&self) -> (copy: Self)
        ensures
            copy@ == self@,
    {
        proof {
            use_type_invariant(self);
        }
        SessionId { value: self.value.clone() }
    }
}

impl SessionId {
    #[verifier::type_invariant]
    spec fn well_formed(&self) -> bool {
        valid_id(self.value@)
    }

    /// The id `value`, where it is one.
    pub fn new(value: String) -> (id: Result<Self, SessionError>)
        ensures
            match id {
                Ok(id) => valid_id(value@) && id@ == value@,
                Err(error) => !valid_id(value@) && error@ == SessionErrorView::InvalidSessionId,
            },
    {
        let chars = text::chars_of(value.as_str());
        if chars.len() == 0 {
            return Err(SessionError::InvalidSessionId);
        }
        let mut i: usize = 0;
        while i < chars.len()
            invariant
                i <= chars@.len(),
                chars@ == value@,
                forall|j: int| 0 <= j < i ==> id_char(#[trigger] value@[j]),
            decreases chars@.len() - i,
        {
            let c = chars[i];
            let accepted = ('a' <= c && c <= 'z') || ('A' <= c && c <= 'Z') || ('0' <= c && c
                <= '9') || c == '-' || c == '_';
            if !accepted {
                assert(!id_char(value@[i as int]));
                return Err(SessionError::InvalidSessionId);
            }
            i += 1;
        }
        Ok(SessionId { value })
    }

    /// An id made of a time and a counter.
    pub fn generate(time: u64, counter: u64) -> (id: Self)
        ensures
            id@ == workspace::slug_of(time, counter),
    {
        proof {
            law_slugs_are_ids(time, counter);
        }
        SessionId { value: workspace::unique_slug(time, counter) }
    }

    pub fn as_str(&self) -> (value: &str)
        ensures
            value@ == self@,
            valid_id(value@),
    {
        proof {
            use_type_invariant(self);
        }
        self.value.as_str()
    }
}

/// A name made of a time and a counter is a session id.
pub proof fn law_slugs_are_ids(time: u64, counter: u64)
    ensures
        valid_id(workspace::slug_of(time, counter)),
{
    reveal_strlit("-");
    workspace::lemma_decimal_digits(time as nat);
    workspace::lemma_decimal_digits(counter as nat);
    let slug = workspace::slug_of(time, counter);
    let first = text::decimal(time as nat);
    assert forall|i: int| 0 <= i < slug.len() implies id_char(#[trigger] slug[i]) by {
        if i < first.len() {
            assert(slug[i] == first[i]);
        } else if i > first.len() {
            assert(slug[i] == text::decimal(counter as nat)[i - first.len() - 1]);
        }
    }
}

/// A session id is one component of a path, and neither of the two that stand for
/// other directories: it holds no slash and no dot.
pub proof fn law_ids_do_not_leave_the_directory(id: Seq<char>, i: int)
    requires
        valid_id(id),
        0 <= i < id.len(),
    ensures
        id[i] != '/',
        id[i] != '.',
{
    assert(id_char(id[i]));
}

/// The summary of what was said before a session was compacted, and the messages that
/// were kept.
#[derive(Debug, PartialEq, Eq)]
pub struct CompactBoundary {
    pub summary: String,
    pub keep: Vec<ConversationMessage>,
}

/// What a [`CompactBoundary`] holds.
#[verifier::ext_equal]
pub struct BoundaryView {
    pub summary: Seq<char>,
    pub keep: Seq<MessageView>,
}

impl View for CompactBoundary {
    type V = BoundaryView;

    open spec fn view(&self) -> BoundaryView {
        BoundaryView {
            summary: self.summary@,
            keep: conversation::message_views(self.keep@),
        }
    }
}

impl Clone for CompactBoundary {
    fn clone(&self) -> (copy: Self)
        ensures
            copy@ == self@,
    {
        let keep = conversation::copy_messages(self.keep.as_slice(), 0, self.keep.len());
        assert(conversation::message_views(keep@) =~= conversation::message_views(self.keep@));
        CompactBoundary { summary: self.summary.clone(), keep }
    }
}

/// A record of a session file.
#[derive(Debug, PartialEq, Eq)]
pub enum SessionRecord {
    Message(ConversationMessage),
    CompactBoundary(CompactBoundary),
}

/// What a [`SessionRecord`] holds.
#[verifier::ext_equal]
pub enum RecordView {
    Message(MessageView),
    CompactBoundary(BoundaryView),
}

impl View for SessionRecord {
    type V = RecordView;

    open spec fn view(&self) -> RecordView {
        match *self {
            SessionRecord::Message(message) => RecordView::Message(message@),
            SessionRecord::CompactBoundary(boundary) => RecordView::CompactBoundary(boundary@),
        }
    }
}

/// The views of a sequence of records.
pub open spec fn record_views(records: Seq<SessionRecord>) -> Seq<RecordView> {
    records.map_values(|record: SessionRecord| record@)
}

/// A boundary as it is stored.
pub open spec fn boundary_fields(boundary: BoundaryView) -> StoredView {
    StoredView::Record(
        seq![
            conversation::text_field("type"@, "compact_boundary"@),
            conversation::text_field("summary"@, boundary.summary),
            ("keep"@, StoredView::List(conversation::messages_fields(boundary.keep))),
        ],
    )
}

/// The JSON value that a stored boundary is read as: its members stand in the order of their
/// names.
pub open spec fn boundary_json(boundary: BoundaryView) -> JsonView {
    JsonView::Object(
        seq![
            ("keep"@, JsonView::Array(conversation::message_jsons(boundary.keep))),
            ("summary"@, JsonView::Text(boundary.summary)),
            ("type"@, JsonView::Text("compact_boundary"@)),
        ],
    )
}

/// The stored form of a record.
pub open spec fn record_json(record: RecordView) -> JsonView {
    match record {
        RecordView::Message(message) => conversation::message_json(message),
        RecordView::CompactBoundary(boundary) => boundary_json(boundary),
    }
}

/// What a line of a session file stands for.
#[verifier::ext_equal]
pub enum LineView {
    Record(RecordView),
    /// A boundary that is not understood. It is passed over.
    Skipped,
    /// No record.
    Invalid,
}

/// The boundary that a stored value stands for.
pub open spec fn decoded_boundary(json: JsonView) -> Option<BoundaryView> {
    match (
        json::as_text(json::member(json, "summary"@)),
        json::as_items(json::member(json, "keep"@)),
    ) {
        (Some(summary), Some(items)) => match conversation::decoded_messages(items) {
            Some(keep) => Some(BoundaryView { summary, keep }),
            None => None,
        },
        _ => None,
    }
}

/// What a line stands for, `read` being what was read of it.
pub open spec fn line_meaning(read: Result<JsonView, Seq<char>>) -> LineView {
    match read {
        Err(_) => LineView::Invalid,
        Ok(json) => if json::as_text(json::member(json, "type"@)) == Some("compact_boundary"@) {
            match decoded_boundary(json) {
                Some(boundary) => LineView::Record(RecordView::CompactBoundary(boundary)),
                None => LineView::Skipped,
            }
        } else {
            match conversation::decoded_message(json) {
                Some(message) => LineView::Record(RecordView::Message(message)),
                None => LineView::Invalid,
            }
        },
    }
}

/// The records that lines stand for, or the number of the first line that stands for
/// none, counted from 1.
pub open spec fn records_in(lines: Seq<Seq<char>>) -> Result<Seq<RecordView>, int>
    decreases lines.len(),
{
    if lines.len() == 0 {
        Ok(Seq::empty())
    } else {
        match records_in(lines.drop_last()) {
            Err(line) => Err(line),
            Ok(records) => match line_meaning(json::parsed_json(lines.last())) {
                LineView::Record(record) => Ok(records.push(record)),
                LineView::Skipped => Ok(records),
                LineView::Invalid => Err(lines.len() as int),
            },
        }
    }
}

/// What a line stands for.
#[derive(Debug, PartialEq, Eq)]
pub enum SessionLine {
    Record(SessionRecord),
    Skipped,
    Invalid,
}

impl View for SessionLine {
    type V = LineView;

    open spec fn view(&self) -> LineView {
        match *self {
            SessionLine::Record(record) => LineView::Record(record@),
            SessionLine::Skipped => LineView::Skipped,
            SessionLine::Invalid => LineView::Invalid,
        }
    }
}

/// What a line stands for, `read` being what was read of it.
pub fn interpret_line(read: Result<Json, String>) -> (line: SessionLine)
    ensures
        line@ == line_meaning(json::outcome_view(read)),
{
    let value = match read {
        Ok(value) => value,
        Err(_) => {
            return SessionLine::Invalid;
        },
    };
    if let Some(kind) = json::text_in(value.get("type")) {
        if text::same_text(kind.as_str(), "compact_boundary") {
            let summary = json::text_in(value.get("summary"));
            let keep = match value.get("keep") {
                Some(items) => conversation::messages_from_value(items),
                None => None,
            };
            return match (summary, keep) {
                (Some(summary), Some(keep)) => SessionLine::Record(
                    SessionRecord::CompactBoundary(CompactBoundary { summary, keep }),
                ),
                _ => SessionLine::Skipped,
            };
        }
    }
    match conversation::message_from_value(&value) {
        Some(message) => SessionLine::Record(SessionRecord::Message(message)),
        None => SessionLine::Invalid,
    }
}

/// The records that the text of a session file stands for. It fails at the first line
/// that stands for none.
pub fn read_records(session_id: &SessionId, contents: &str) -> (records: Result<
    Vec<SessionRecord>,
    SessionError,
>)
    ensures
        match records {
            Ok(records) => records_in(text::line_texts(contents@)) == Ok::<Seq<RecordView>, int>(
                record_views(records@),
            ),
            Err(error) => records_in(text::line_texts(contents@)) is Err && error@ == (
            SessionErrorView::InvalidRecord {
                session_id: session_id@,
                line_number: records_in(text::line_texts(contents@))->Err_0,
            }),
        },
{
    let lines = text::lines(contents);
    let ghost all = text::texts(lines@);
    let mut records: Vec<SessionRecord> = Vec::new();
    let mut index: usize = 0;
    assert(record_views(records@) =~= Seq::<RecordView>::empty());
    while index < lines.len()
        invariant
            index <= lines.len(),
            all == text::texts(lines@),
            all == text::line_texts(contents@),
            records_in(all.take(index as int)) == Ok::<Seq<RecordView>, int>(
                record_views(records@),
            ),
        decreases lines@.len() - index,
    {
        assert(all.take(index + 1).drop_last() =~= all.take(index as int));
        assert(all.take(index + 1).last() == lines@[index as int]@);
        let ghost before = record_views(records@);
        match interpret_line(Json::parse(lines[index].as_str())) {
            SessionLine::Record(record) => {
                records.push(record);
                assert(record_views(records@) =~= before.push(record@));
            },
            SessionLine::Skipped => {},
            SessionLine::Invalid => {
                proof {
                    lemma_invalid_line_stays(all, index + 1);
                }
                return Err(
                    SessionError::InvalidRecord {
                        session_id: text::copy_text(session_id.as_str()),
                        line_number: index + 1,
                    },
                );
            },
        }
        index += 1;
    }
    assert(all.take(index as int) =~= all);
    Ok(records)
}

/// Once a line stands for no record, the lines after it do not matter.
proof fn lemma_invalid_line_stays(lines: Seq<Seq<char>>, at: int)
    requires
        0 <= at <= lines.len(),
        records_in(lines.take(at)) is Err,
    ensures
        records_in(lines) == records_in(lines.take(at)),
    decreases lines.len() - at,
{
    if at == lines.len() {
        assert(lines.take(at) =~= lines);
    } else {
        assert(lines.take(at + 1).drop_last() =~= lines.take(at));
        lemma_invalid_line_stays(lines, at + 1);
    }
}

/// The messages among records.
pub open spec fn messages_in(records: Seq<RecordView>) -> Seq<MessageView>
    decreases records.len(),
{
    if records.len() == 0 {
        Seq::empty()
    } else {
        match records.last() {
            RecordView::Message(message) => messages_in(records.drop_last()).push(message),
            RecordView::CompactBoundary(_) => messages_in(records.drop_last()),
        }
    }
}

/// The position of the last boundary among the first `end` records, or -1 where there
/// is none.
pub open spec fn last_boundary(records: Seq<RecordView>, end: int) -> int
    decreases end,
{
    if end <= 0 {
        -1
    } else if records[end - 1] is CompactBoundary {
        end - 1
    } else {
        last_boundary(records, end - 1)
    }
}

/// The message that stands for what a boundary summarizes.
pub open spec fn summary_message(summary: Seq<char>, now: u64) -> MessageView {
    MessageView {
        role: MessageRole::User,
        content: seq![conversation::BlockView::Text { text: summary }],
        timestamp_unix_seconds: now,
    }
}

/// The messages with which a session goes on: the summary of the last boundary, the
/// messages that it kept and those after it; all messages where there is no boundary.
pub open spec fn resumed(records: Seq<RecordView>, now: u64) -> Seq<MessageView> {
    let at = last_boundary(records, records.len() as int);
    if at < 0 {
        messages_in(records)
    } else {
        let boundary = records[at]->CompactBoundary_0;
        seq![summary_message(boundary.summary, now)] + boundary.keep + messages_in(
            records.skip(at + 1),
        )
    }
}

/// The messages among `records[start..]`, moved to the end of `messages`.
fn push_messages(messages: &mut Vec<ConversationMessage>, records: Vec<SessionRecord>, start: usize)
    requires
        start <= records@.len(),
    ensures
        conversation::message_views(final(messages)@) == conversation::message_views(
            old(messages)@,
        ) + messages_in(record_views(records@).skip(start as int)),
{
    let ghost all = record_views(records@);
    let ghost tail = all.skip(start as int);
    let ghost before = conversation::message_views(messages@);
    let ghost given = records@;
    let mut index: usize = 0;
    assert(before + messages_in(tail.take(0)) =~= before);
    let count = records.len();
    for record in iter: records.into_iter()
        invariant
            iter.seq() == given,
            index == iter.index(),
            given.len() == count,
            start <= count,
            all == record_views(given),
            tail == all.skip(start as int),
            index <= start ==> conversation::message_views(messages@) == before,
            index >= start ==> conversation::message_views(messages@) == before + messages_in(
                tail.take(index - start),
            ),
    {
        if index >= start {
            assert(tail.take(index + 1 - start).drop_last() =~= tail.take(index - start));
            assert(tail.take(index + 1 - start).last() == record@);
            let ghost so_far = conversation::message_views(messages@);
            if let SessionRecord::Message(message) = record {
                messages.push(message);
                assert(conversation::message_views(messages@) =~= so_far.push(message@));
                assert(so_far.push(message@) =~= before + messages_in(
                    tail.take(index - start),
                ).push(message@));
            }
        } else {
            assert(tail.take(0) =~= Seq::<RecordView>::empty());
            assert(before + messages_in(tail.take(0)) =~= before);
        }
        index += 1;
    }
    assert(tail.take(count - start) =~= tail);
}

/// The messages with which a session goes on. `now` is the time in seconds.
pub fn resume_messages(records: Vec<SessionRecord>, now: u64) -> (messages: Vec<
    ConversationMessage,
>)
    ensures
        conversation::message_views(messages@) == resumed(record_views(records@), now),
{
    let ghost all = record_views(records@);
    let mut messages: Vec<ConversationMessage> = Vec::new();
    let mut end: usize = records.len();
    while end > 0
        invariant
            end <= records@.len(),
            all == record_views(records@),
            messages@.len() == 0,
            last_boundary(all, end as int) == last_boundary(all, all.len() as int),
        decreases end,
    {
        assert(all[end - 1] == records@[end - 1]@);
        if let SessionRecord::CompactBoundary(boundary) = &records[end - 1] {
            let mut content: Vec<ContentBlock> = Vec::new();
            content.push(ContentBlock::Text { text: boundary.summary.clone() });
            let summary = ConversationMessage {
                role: MessageRole::User,
                content,
                timestamp_unix_seconds: now,
            };
            assert(summary@.content =~= summary_message(boundary.summary@, now).content);
            messages.push(summary);
            let mut keep = conversation::copy_messages(
                boundary.keep.as_slice(),
                0,
                boundary.keep.len(),
            );
            assert(conversation::message_views(keep@) =~= boundary@.keep);
            let ghost kept = conversation::message_views(keep@);
            messages.append(&mut keep);
            assert(conversation::message_views(messages@) =~= seq![summary@] + kept);
            push_messages(&mut messages, records, end);
            return messages;
        }
        end = end - 1;
    }
    assert(conversation::message_views(messages@) + messages_in(all.skip(0)) =~= messages_in(all))
        by {
        assert(all.skip(0) =~= all);
    }
    push_messages(&mut messages, records, 0);
    messages
}

/// The messages of a session file, boundaries left out.
pub fn message_records(records: Vec<SessionRecord>) -> (messages: Vec<ConversationMessage>)
    ensures
        conversation::message_views(messages@) == messages_in(record_views(records@)),
{
    let ghost all = record_views(records@);
    let mut messages: Vec<ConversationMessage> = Vec::new();
    assert(conversation::message_views(messages@) + messages_in(all.skip(0)) =~= messages_in(all))
        by {
        assert(all.skip(0) =~= all);
    }
    push_messages(&mut messages, records, 0);
    messages
}

/// How deeply the arguments of a tool use may be nested for a message to be read back
/// from its record.
pub const MESSAGE_ARGUMENT_DEPTH: usize = 124;

/// How deeply the arguments of a tool use may be nested for a boundary to be read back
/// from its record.
pub const BOUNDARY_ARGUMENT_DEPTH: usize = 122;

/// Whether a record can be read back from its line.
pub open spec fn storable_record(record: RecordView) -> bool {
    match record {
        RecordView::Message(message) => conversation::storable_blocks(
            message.content,
            MESSAGE_ARGUMENT_DEPTH as nat,
        ),
        RecordView::CompactBoundary(boundary) => conversation::storable_messages(
            boundary.keep,
            BOUNDARY_ARGUMENT_DEPTH as nat,
        ),
    }
}

/// Whether `line` is one line that stands for `record`.
pub open spec fn stands_for(line: Seq<char>, record: RecordView) -> bool {
    text::on_one_line(line) && line_meaning(json::parsed_json(line)) == LineView::Record(record)
}

/// Reading the stored form of a record gives the record back.
pub proof fn law_record_round_trip(record: RecordView)
    ensures
        line_meaning(Ok(record_json(record))) == LineView::Record(record),
{
    reveal_strlit("keep");
    reveal_strlit("summary");
    reveal_strlit("type");
    reveal_strlit("content");
    reveal_strlit("role");
    reveal_strlit("timestamp_unix_seconds");
    assert("keep"@.len() == 4 && "type"@.len() == 4 && "role"@.len() == 4);
    assert("summary"@.len() == 7 && "content"@.len() == 7 && "timestamp_unix_seconds"@.len() == 22);
    assert("keep"@[0] != "type"@[0]);
    assert("role"@[0] != "type"@[0]);
    match record {
        RecordView::Message(message) => {
            conversation::law_message_round_trip(message);
            json::lemma_no_entry(
                conversation::message_json(message)->Object_0,
                "type"@,
                0,
            );
        },
        RecordView::CompactBoundary(boundary) => {
            let entries = boundary_json(boundary)->Object_0;
            json::lemma_entry_at(entries, "keep"@, 0, 0);
            json::lemma_entry_at(entries, "summary"@, 0, 1);
            json::lemma_entry_at(entries, "type"@, 0, 2);
            conversation::lemma_messages_round_trip(boundary.keep);
        },
    }
}

/// The text of a storable record can be read back.
proof fn lemma_record_readable(record: RecordView)
    requires
        storable_record(record),
    ensures
        json::readable(record_json(record)),
{
    match record {
        RecordView::Message(message) => {
            conversation::lemma_message_readable(message, MESSAGE_ARGUMENT_DEPTH as nat);
        },
        RecordView::CompactBoundary(boundary) => {
            reveal_strlit("keep");
            reveal_strlit("summary");
            reveal_strlit("type");
            text::lemma_precedes("keep"@, "summary"@, 0);
            text::lemma_precedes("keep"@, "type"@, 0);
            text::lemma_precedes("summary"@, "type"@, 0);
            conversation::lemma_messages_readable(boundary.keep, BOUNDARY_ARGUMENT_DEPTH as nat);
            let entries = boundary_json(boundary)->Object_0;
            json::lemma_deepest_entry(entries, (BOUNDARY_ARGUMENT_DEPTH + 4) as nat);
            assert forall|i: int| 0 <= i < entries.len() implies json::canonical(
                (#[trigger] entries[i]).1,
            ) by {}
            assert(json::canonical(boundary_json(boundary)));
        },
    }
}

/// A boundary is stored under names that differ, and read as its JSON value.
proof fn lemma_boundary_is_stored(boundary: BoundaryView)
    ensures
        stored::names_differ(boundary_fields(boundary)),
        stored::holds_same(boundary_fields(boundary), boundary_json(boundary)),
{
    reveal_strlit("keep");
    reveal_strlit("summary");
    reveal_strlit("type");
    assert("keep"@.len() == 4 && "summary"@.len() == 7 && "type"@.len() == 4);
    assert("keep"@[0] != "type"@[0]);
    reveal_with_fuel(stored::field_from, 4);
    conversation::lemma_messages_are_stored(boundary.keep);
    let fields = boundary_fields(boundary)->Record_0;
    let entries = boundary_json(boundary)->Object_0;
    assert forall|i: int| 0 <= i < fields.len() implies stored::names_differ(
        (#[trigger] fields[i]).1,
    ) by {}
    assert forall|i: int| 0 <= i < entries.len() implies (match stored::field_from(
        fields,
        (#[trigger] entries[i]).0,
        0,
    ) {
        Some(value) => stored::holds_same(value, entries[i].1),
        None => false,
    }) by {}
}

/// The line that is added to a session file for a message, with its line feed.
pub fn message_line(message: &ConversationMessage) -> (line: String)
    ensures
        line@ == stored::stored_text(conversation::message_fields(message@)).push('\n'),
        text::on_one_line(line@.drop_last()),
        storable_record(RecordView::Message(message@)) ==> stands_for(
            line@.drop_last(),
            RecordView::Message(message@),
        ),
{
    proof {
        conversation::lemma_message_is_stored(message@);
    }
    let mut line = conversation::stored_message(message).to_text();
    proof {
        law_record_round_trip(RecordView::Message(message@));
        if storable_record(RecordView::Message(message@)) {
            lemma_record_readable(RecordView::Message(message@));
        }
    }
    let ghost body = line@;
    line.push('\n');
    assert(line@.drop_last() =~= body);
    line
}

/// The line that is added to a session file for a boundary, with its line feed.
pub fn boundary_line(boundary: &CompactBoundary) -> (line: String)
    ensures
        line@ == stored::stored_text(boundary_fields(boundary@)).push('\n'),
        text::on_one_line(line@.drop_last()),
        storable_record(RecordView::CompactBoundary(boundary@)) ==> stands_for(
            line@.drop_last(),
            RecordView::CompactBoundary(boundary@),
        ),
{
    let value = Fields::new().with("type", stored::stored_str("compact_boundary")).with(
        "summary",
        stored::stored_str(boundary.summary.as_str()),
    ).with("keep", conversation::stored_messages(boundary.keep.as_slice())).record();
    assert(value@->Record_0 =~= boundary_fields(boundary@)->Record_0);
    proof {
        lemma_boundary_is_stored(boundary@);
    }
    let mut line = value.to_text();
    proof {
        law_record_round_trip(RecordView::CompactBoundary(boundary@));
        if storable_record(RecordView::CompactBoundary(boundary@)) {
            lemma_record_readable(RecordView::CompactBoundary(boundary@));
        }
    }
    let ghost body = line@;
    line.push('\n');
    assert(line@.drop_last() =~= body);
    line
}

/// What is added to a session is read back: a file of records to which the line of a
/// record is added is the file of those records and that one.
pub proof fn law_appended_record_is_read_back(
    contents: Seq<char>,
    line: Seq<char>,
    records: Seq<RecordView>,
    record: RecordView,
)
    requires
        text::complete_lines(contents),
        records_in(text::line_texts(contents)) == Ok::<Seq<RecordView>, int>(records),
        stands_for(line, record),
    ensures
        text::complete_lines(contents + line.push('\n')),
        records_in(text::line_texts(contents + line.push('\n'))) == Ok::<Seq<RecordView>, int>(
            records.push(record),
        ),
{
    text::lemma_added_line(contents, line, 0);
    let lines = text::line_texts(contents);
    assert(lines.push(line).drop_last() =~= lines);
}

/// A message that is added to a session comes last when the session goes on.
pub proof fn law_added_message_comes_last(records: Seq<RecordView>, message: MessageView, now: u64)
    ensures
        resumed(records.push(RecordView::Message(message)), now) == resumed(records, now).push(
            message,
        ),
{
    let more = records.push(RecordView::Message(message));
    lemma_boundary_before(records, more, records.len() as int);
    let at = last_boundary(records, records.len() as int);
    lemma_last_boundary(records, records.len() as int);
    assert(more.drop_last() =~= records);
    if at >= 0 {
        assert(more.skip(at + 1).drop_last() =~= records.skip(at + 1));
        assert(more.skip(at + 1).last() == RecordView::Message(message));
        let boundary = records[at]->CompactBoundary_0;
        let head = seq![summary_message(boundary.summary, now)] + boundary.keep;
        assert(head + messages_in(records.skip(at + 1)).push(message) =~= (head + messages_in(
            records.skip(at + 1),
        )).push(message));
    }
}

/// After a boundary a session goes on with its summary and what it kept, whatever came
/// before it.
pub proof fn law_boundary_replaces_the_past(
    records: Seq<RecordView>,
    boundary: BoundaryView,
    now: u64,
)
    ensures
        resumed(records.push(RecordView::CompactBoundary(boundary)), now) == seq![
            summary_message(boundary.summary, now),
        ] + boundary.keep,
{
    let more = records.push(RecordView::CompactBoundary(boundary));
    assert(more[more.len() - 1] is CompactBoundary);
    assert(more.skip(more.len() as int) =~= Seq::<RecordView>::empty());
    let head = seq![summary_message(boundary.summary, now)] + boundary.keep;
    assert(head + Seq::<MessageView>::empty() =~= head);
}

/// The last boundary among the first records is the same where only later ones differ.
proof fn lemma_boundary_before(left: Seq<RecordView>, right: Seq<RecordView>, end: int)
    requires
        0 <= end <= left.len(),
        end <= right.len(),
        forall|i: int| 0 <= i < end ==> left[i] == right[i],
    ensures
        last_boundary(left, end) == last_boundary(right, end),
    decreases end,
{
    if end > 0 {
        assert(left[end - 1] == right[end - 1]);
        lemma_boundary_before(left, right, end - 1);
    }
}

/// [`last_boundary`] gives the position of a boundary after which there is none.
pub proof fn lemma_last_boundary(records: Seq<RecordView>, end: int)
    requires
        0 <= end <= records.len(),
    ensures
        -1 <= last_boundary(records, end) < end || end == 0,
        -1 <= last_boundary(records, end),
        last_boundary(records, end) >= 0 ==> records[last_boundary(records, end)] is CompactBoundary,
        forall|i: int| last_boundary(records, end) < i < end ==> records[i] is Message,
    decreases end,
{
    if end > 0 && !(records[end - 1] is CompactBoundary) {
        lemma_last_boundary(records, end - 1);
    }
}

/// What is told of a session in a list.
#[derive(Debug, PartialEq, Eq)]
pub struct SessionSummary {
    pub id: SessionId,
    pub first_user_message: Option<String>,
    pub message_count: usize,
    pub file_size_bytes: u64,
    /// The time of the last change, in nanoseconds since 1970.
    pub modified_at: i128,
}

/// What a [`SessionSummary`] holds.
#[verifier::ext_equal]
pub struct SummaryView {
    pub id: Seq<char>,
    pub first_user_message: Option<Seq<char>>,
    pub message_count: int,
    pub file_size_bytes: u64,
    pub modified_at: i128,
}

impl View for SessionSummary {
    type V = SummaryView;

    open spec fn view(&self) -> SummaryView {
        SummaryView {
            id: self.id@,
            first_user_message: text::optional_text(self.first_user_message),
            message_count: self.message_count as int,
            file_size_bytes: self.file_size_bytes,
            modified_at: self.modified_at,
        }
    }
}

impl Clone for SessionSummary {
    fn clone(&self) -> (copy: Self)
        ensures
            copy@ == self@,
    {
        SessionSummary {
            id: self.id.clone(),
            first_user_message: text::copy_optional(&self.first_user_message),
            message_count: self.message_count,
            file_size_bytes: self.file_size_bytes,
            modified_at: self.modified_at,
        }
    }
}

/// The views of a sequence of summaries.
pub open spec fn summary_views(summaries: Seq<SessionSummary>) -> Seq<SummaryView> {
    summaries.map_values(|summary: SessionSummary| summary@)
}

/// A file of the sessions directory.
#[derive(Debug, PartialEq, Eq)]
pub struct SessionFile {
    /// Its name without the extension, where that is text.
    pub stem: Option<String>,
    pub contents: String,
    pub file_size_bytes: u64,
    pub modified_at: i128,
}

/// What a [`SessionFile`] holds.
#[verifier::ext_equal]
pub struct FileView {
    pub stem: Option<Seq<char>>,
    pub contents: Seq<char>,
    pub file_size_bytes: u64,
    pub modified_at: i128,
}

impl View for SessionFile {
    type V = FileView;

    open spec fn view(&self) -> FileView {
        FileView {
            stem: text::optional_text(self.stem),
            contents: self.contents@,
            file_size_bytes: self.file_size_bytes,
            modified_at: self.modified_at,
        }
    }
}

/// The views of a sequence of files.
pub open spec fn file_views(files: Seq<SessionFile>) -> Seq<FileView> {
    files.map_values(|file: SessionFile| file@)
}

/// Whether an entry of the sessions directory is the file of a session.
pub fn is_session_file(is_file: bool, extension: Option<&str>) -> (result: bool)
    ensures
        result == (is_file && extension is Some && extension->0@ == "jsonl"@),
{
    match extension {
        Some(extension) => is_file && text::same_text(extension, "jsonl"),
        None => false,
    }
}

/// What is told of the session in a file. It fails where the name is no session id, and
/// where a line is no record.
pub open spec fn summary_of(file: FileView) -> Result<SummaryView, SessionErrorView> {
    match file.stem {
        None => Err(SessionErrorView::InvalidSessionId),
        Some(stem) => if !valid_id(stem) {
            Err(SessionErrorView::InvalidSessionId)
        } else {
            match records_in(text::line_texts(file.contents)) {
                Err(line_number) => Err(
                    SessionErrorView::InvalidRecord { session_id: stem, line_number },
                ),
                Ok(records) => Ok(
                    SummaryView {
                        id: stem,
                        first_user_message: conversation::first_user_text_of(messages_in(records)),
                        message_count: messages_in(records).len() as int,
                        file_size_bytes: file.file_size_bytes,
                        modified_at: file.modified_at,
                    },
                ),
            }
        },
    }
}

/// What is told of the session in a file.
pub fn summarize(file: SessionFile) -> (summary: Result<SessionSummary, SessionError>)
    ensures
        match summary {
            Ok(summary) => summary_of(file@) == Ok::<SummaryView, SessionErrorView>(summary@),
            Err(error) => summary_of(file@) == Err::<SummaryView, SessionErrorView>(error@),
        },
{
    let stem = match file.stem {
        Some(stem) => stem,
        None => {
            return Err(SessionError::InvalidSessionId);
        },
    };
    let id = match SessionId::new(stem) {
        Ok(id) => id,
        Err(error) => {
            return Err(error);
        },
    };
    let records = match read_records(&id, file.contents.as_str()) {
        Ok(records) => records,
        Err(error) => {
            return Err(error);
        },
    };
    let messages = message_records(records);
    assert(messages@.len() == conversation::message_views(messages@).len());
    let first_user_message = match conversation::first_user_text(messages.as_slice()) {
        Some(text) => Some(text::copy_text(text)),
        None => None,
    };
    Ok(
        SessionSummary {
            id,
            first_user_message,
            message_count: messages.len(),
            file_size_bytes: file.file_size_bytes,
            modified_at: file.modified_at,
        },
    )
}

/// Whether one session comes before another in the list: it was changed later, or at
/// the same time and its id is greater.
pub open spec fn listed_before(left: SummaryView, right: SummaryView) -> bool {
    left.modified_at > right.modified_at || (left.modified_at == right.modified_at
        && text::precedes(right.id, left.id))
}

/// The first position at or after `from` of a session that comes after `summary`, or
/// the number of sessions where there is none.
pub open spec fn place_for(summaries: Seq<SummaryView>, summary: SummaryView, from: int) -> int
    decreases summaries.len() - from,
{
    if from >= summaries.len() {
        summaries.len() as int
    } else if listed_before(summary, summaries[from]) {
        from
    } else {
        place_for(summaries, summary, from + 1)
    }
}

/// The sessions in the order of the list. Sessions that neither comes before the other
/// keep their order.
pub open spec fn in_list_order(summaries: Seq<SummaryView>) -> Seq<SummaryView>
    decreases summaries.len(),
{
    if summaries.len() == 0 {
        Seq::empty()
    } else {
        let before = in_list_order(summaries.drop_last());
        before.insert(place_for(before, summaries.last(), 0), summaries.last())
    }
}

/// What is told of the sessions in files, in the order of the files, or the first error.
pub open spec fn summaries_of(files: Seq<FileView>) -> Result<Seq<SummaryView>, SessionErrorView>
    decreases files.len(),
{
    if files.len() == 0 {
        Ok(Seq::empty())
    } else {
        match summaries_of(files.drop_last()) {
            Err(error) => Err(error),
            Ok(summaries) => match summary_of(files.last()) {
                Err(error) => Err(error),
                Ok(summary) => Ok(summaries.push(summary)),
            },
        }
    }
}

/// Once a file is wrong, the files after it do not matter.
proof fn lemma_wrong_file_stays(files: Seq<FileView>, at: int)
    requires
        0 <= at <= files.len(),
        summaries_of(files.take(at)) is Err,
    ensures
        summaries_of(files) == summaries_of(files.take(at)),
    decreases files.len() - at,
{
    if at == files.len() {
        assert(files.take(at) =~= files);
    } else {
        assert(files.take(at + 1).drop_last() =~= files.take(at));
        lemma_wrong_file_stays(files, at + 1);
    }
}

/// Whether one session comes before another in the list.
fn is_listed_before(left: &SessionSummary, right: &SessionSummary) -> (result: bool)
    ensures
        result == listed_before(left@, right@),
{
    left.modified_at > right.modified_at || (left.modified_at == right.modified_at
        && text::comes_before(right.id.as_str(), left.id.as_str()))
}

/// Puts a session into its place in the list.
fn place(summaries: &mut Vec<SessionSummary>, summary: SessionSummary)
    ensures
        summary_views(final(summaries)@) == summary_views(old(summaries)@).insert(
            place_for(summary_views(old(summaries)@), summary@, 0),
            summary@,
        ),
{
    let ghost before = summary_views(summaries@);
    let mut i: usize = 0;
    while i < summaries.len() && !is_listed_before(&summary, &summaries[i])
        invariant
            i <= summaries@.len(),
            before == summary_views(summaries@),
            place_for(before, summary@, i as int) == place_for(before, summary@, 0),
        decreases summaries@.len() - i,
    {
        i += 1;
    }
    summaries.insert(i, summary);
    assert(summary_views(summaries@) =~= before.insert(i as int, summary@));
}

/// The filter of a search, on texts in lower case: the query is empty, or occurs in the
/// first message of the user or in the id.
pub open spec fn matches_query(
    query: Seq<char>,
    first_user_message: Option<Seq<char>>,
    id: Seq<char>,
) -> bool {
    query.len() == 0 || (first_user_message is Some && text::contains_text(
        first_user_message->0,
        query,
    )) || text::contains_text(id, query)
}

/// The filter of a search, on texts in lower case.
pub fn query_matches(query: &str, first_user_message: &Option<String>, id: &str) -> (result: bool)
    ensures
        result == matches_query(query@, text::optional_text(*first_user_message), id@),
{
    if query.is_empty() {
        return true;
    }
    if let Some(message) = first_user_message {
        if text::contains(message.as_str(), query) {
            return true;
        }
    }
    text::contains(id, query)
}

/// Whether a search for `query` finds a session. Case makes no difference, and the empty
/// query finds every session.
pub open spec fn found(query: Seq<char>, summary: SummaryView) -> bool {
    query.len() == 0 || matches_query(
        text::lowercase_text(query),
        match summary.first_user_message {
            Some(message) => Some(text::lowercase_text(message)),
            None => None,
        },
        text::lowercase_text(summary.id),
    )
}

/// The sessions of a workspace.
#[derive(Debug, Clone, PartialEq, Eq)]
pub struct SessionStore {
    work_dir: String,
}

impl View for SessionStore {
    type V = Seq<char>;

    /// The directory of the workspace.
    closed spec fn view(&self) -> Seq<char> {
        self.work_dir@
    }
}

/// Where the file of a session stands.
pub open spec fn session_file(work_dir: Seq<char>, id: Seq<char>) -> Seq<char> {
    workspace::path_below(
        workspace::path_below(work_dir, ".mycode/sessions"@),
        id + ".jsonl"@,
    )
}

impl SessionStore {
    pub fn new(work_dir: String) -> (store: Self)
        ensures
            store@ == work_dir@,
    {
        SessionStore { work_dir }
    }

    /// Where the files of the sessions stand.
    pub fn sessions_dir(&self) -> (path: String)
        ensures
            path@ == workspace::path_below(self@, ".mycode/sessions"@),
    {
        WorkspacePaths::new(self.work_dir.clone()).sessions_dir()
    }

    /// Where the file of a session stands.
    pub fn session_path(&self, session_id: &SessionId) -> (path: String)
        ensures
            path@ == session_file(self@, session_id@),
    {
        let name = text::concat(session_id.as_str(), ".jsonl");
        workspace::join_path(self.sessions_dir().as_str(), name.as_str())
    }

    /// The messages with which a session goes on. `contents` is what its file holds, and
    /// `None` where there is no file; `now` is the time in seconds.
    pub fn load(&self, session_id: &SessionId, contents: Option<String>, now: u64) -> (messages:
        Result<Option<Vec<ConversationMessage>>, SessionError>)
        ensures
            match messages {
                Ok(None) => contents is None,
                Ok(Some(messages)) => contents is Some && records_in(
                    text::line_texts(contents->0@),
                ) is Ok && conversation::message_views(messages@) == resumed(
                    records_in(text::line_texts(contents->0@))->Ok_0,
                    now,
                ),
                Err(error) => contents is Some && records_in(text::line_texts(contents->0@)) is Err
                    && error@ == (SessionErrorView::InvalidRecord {
                    session_id: session_id@,
                    line_number: records_in(text::line_texts(contents->0@))->Err_0,
                }),
            },
    {
        match contents {
            None => Ok(None),
            Some(contents) => match read_records(session_id, contents.as_str()) {
                Ok(records) => Ok(Some(resume_messages(records, now))),
                Err(error) => Err(error),
            },
        }
    }

    /// The sessions in the files of the sessions directory, the one that was changed
    /// last first.
    pub fn list(&self, files: Vec<SessionFile>) -> (summaries: Result<
        Vec<SessionSummary>,
        SessionError,
    >)
        ensures
            match summaries {
                Ok(summaries) => summaries_of(file_views(files@)) is Ok && summary_views(
                    summaries@,
                ) == in_list_order(summaries_of(file_views(files@))->Ok_0),
                Err(error) => summaries_of(file_views(files@)) == Err::<
                    Seq<SummaryView>,
                    SessionErrorView,
                >(error@),
            },
    {
        let ghost given = files@;
        let ghost all = file_views(given);
        let mut summaries: Vec<SessionSummary> = Vec::new();
        assert(summary_views(summaries@) =~= in_list_order(Seq::<SummaryView>::empty()));
        for file in iter: files.into_iter()
            invariant
                iter.seq() == given,
                all == file_views(given),
                summaries_of(all.take(iter.index())) is Ok,
                summary_views(summaries@) == in_list_order(
                    summaries_of(all.take(iter.index()))->Ok_0,
                ),
        {
            assert(all.take(iter.index() + 1).drop_last() =~= all.take(iter.index()));
            assert(all.take(iter.index() + 1).last() == file@);
            match summarize(file) {
                Ok(summary) => {
                    let ghost so_far = summaries_of(all.take(iter.index()))->Ok_0;
                    assert(so_far.push(summary@).drop_last() =~= so_far);
                    place(&mut summaries, summary);
                },
                Err(error) => {
                    proof {
                        lemma_wrong_file_stays(all, iter.index() + 1);
                    }
                    return Err(error);
                },
            }
        }
        assert(all.take(all.len() as int) =~= all);
        Ok(summaries)
    }

    /// The sessions that a search for `query` finds, in their order. `listed` is what
    /// [`SessionStore::list`] gave; where that failed, so does the search.
    pub fn search(&self, listed: Result<Vec<SessionSummary>, SessionError>, query: &str) -> (
    outcome: Result<Vec<SessionSummary>, SessionError>)
        ensures
            match listed {
                Ok(listed) => outcome is Ok && summary_views(outcome->Ok_0@) == search_result(
                    summary_views(listed@),
                    query@,
                ),
                Err(error) => outcome is Err && outcome->Err_0@ == error@,
            },
    {
        let listed = match listed {
            Ok(listed) => listed,
            Err(error) => {
                return Err(error);
            },
        };
        let everything = query.is_empty();
        let lowered = text::lowercase(query);
        let ghost wanted = |summary: SummaryView| found(query@, summary);
        let ghost given = listed@;
        let ghost all = summary_views(given);
        let mut summaries: Vec<SessionSummary> = Vec::new();
        proof {
            reveal(Seq::filter);
            assert(summary_views(summaries@) =~= all.take(0).filter(wanted));
        }
        for summary in iter: listed.into_iter()
            invariant
                iter.seq() == given,
                all == summary_views(given),
                everything == (query@.len() == 0),
                lowered@ == text::lowercase_text(query@),
                wanted == (|summary: SummaryView| found(query@, summary)),
                summary_views(summaries@) == all.take(iter.index()).filter(wanted),
        {
            proof {
                reveal(Seq::filter);
                assert(all.take(iter.index() + 1).drop_last() =~= all.take(iter.index()));
                assert(all.take(iter.index() + 1).last() == summary@);
            }
            let message = match &summary.first_user_message {
                Some(message) => Some(text::lowercase(message.as_str())),
                None => None,
            };
            let id = text::lowercase(summary.id.as_str());
            if everything || query_matches(lowered.as_str(), &message, id.as_str()) {
                let ghost before = summary_views(summaries@);
                summaries.push(summary);
                assert(summary_views(summaries@) =~= before.push(summary@));
            }
        }
        assert(all.take(all.len() as int) =~= all);
        Ok(summaries)
    }
}

/// What a search for `query` finds among `listed`.
pub open spec fn search_result(listed: Seq<SummaryView>, query: Seq<char>) -> Seq<SummaryView> {
    listed.filter(|summary: SummaryView| found(query, summary))
}

/// A filter that lets everything pass changes nothing.
proof fn lemma_filter_all(listed: Seq<SummaryView>, wanted: spec_fn(SummaryView) -> bool)
    requires
        forall|i: int| 0 <= i < listed.len() ==> wanted(#[trigger] listed[i]),
    ensures
        listed.filter(wanted) == listed,
    decreases listed.len(),
{
    reveal(Seq::filter);
    if listed.len() > 0 {
        let rest = listed.drop_last();
        assert forall|i: int| 0 <= i < rest.len() implies wanted(#[trigger] rest[i]) by {
            assert(rest[i] == listed[i]);
        }
        lemma_filter_all(rest, wanted);
        assert(wanted(listed[listed.len() - 1]));
        assert(rest.push(listed.last()) =~= listed);
    } else {
        assert(listed.filter(wanted) =~= listed);
    }
}

/// A search for nothing finds every session, in the order of the list.
pub proof fn law_empty_query_finds_all(listed: Seq<SummaryView>)
    ensures
        search_result(listed, Seq::empty()) == listed,
{
    lemma_filter_all(listed, |summary: SummaryView| found(Seq::empty(), summary));
}

/// A search finds a session of the list where the query, in lower case, occurs in its id or
/// in the first message of the user, in lower case; and what it finds stands in the list.
pub proof fn law_search_finds_what_matches(
    listed: Seq<SummaryView>,
    query: Seq<char>,
    summary: SummaryView,
)
    requires
        query.len() > 0,
    ensures
        search_result(listed, query).contains(summary) <==> listed.contains(summary) && (
        text::contains_text(text::lowercase_text(summary.id), text::lowercase_text(query)) || (
        summary.first_user_message is Some && text::contains_text(
            text::lowercase_text(summary.first_user_message->0),
            text::lowercase_text(query),
        ))),
{
    lemma_filter_contains(listed, |one: SummaryView| found(query, one), summary);
    let lowered = text::lowercase_text(query);
    if lowered.len() == 0 {
        let id = text::lowercase_text(summary.id);
        assert(id.subrange(0, 0) =~= lowered);
        assert(text::occurs_at(id, lowered, 0));
    }
}

/// A filter keeps what passes it.
proof fn lemma_filter_contains(
    listed: Seq<SummaryView>,
    wanted: spec_fn(SummaryView) -> bool,
    summary: SummaryView,
)
    ensures
        listed.filter(wanted).contains(summary) <==> listed.contains(summary) && wanted(summary),
    decreases listed.len(),
{
    reveal(Seq::filter);
    if listed.len() > 0 {
        let rest = listed.drop_last();
        let last = listed.last();
        lemma_filter_contains(rest, wanted, summary);
        let kept = rest.filter(wanted);
        if listed.contains(summary) {
            let at = choose|i: int| 0 <= i < listed.len() && listed[i] == summary;
            if at < rest.len() {
                assert(rest[at] == summary);
            }
        }
        if rest.contains(summary) {
            let at = choose|i: int| 0 <= i < rest.len() && rest[i] == summary;
            assert(listed[at] == summary);
        }
        assert(listed[listed.len() - 1] == last);
        if wanted(last) {
            if kept.contains(summary) {
                let at = choose|i: int| 0 <= i < kept.len() && kept[i] == summary;
                assert(kept.push(last)[at] == summary);
            }
            assert(kept.push(last)[kept.len() as int] == last);
            if kept.push(last).contains(summary) {
                let at = choose|i: int|
                    0 <= i < kept.push(last).len() && kept.push(last)[i] == summary;
                if at < kept.len() {
                    assert(kept[at] == summary);
                }
            }
        }
    }
}

/// [`place_for`] gives the first position of a session that comes after.
proof fn lemma_place_for(summaries: Seq<SummaryView>, summary: SummaryView, from: int)
    requires
        0 <= from <= summaries.len(),
    ensures
        from <= place_for(summaries, summary, from) <= summaries.len(),
        place_for(summaries, summary, from) < summaries.len() ==> listed_before(
            summary,
            summaries[place_for(summaries, summary, from)],
        ),
        forall|i: int|
            from <= i < place_for(summaries, summary, from) ==> !listed_before(
                summary,
                #[trigger] summaries[i],
            ),
    decreases summaries.len() - from,
{
    if from < summaries.len() && !listed_before(summary, summaries[from]) {
        lemma_place_for(summaries, summary, from + 1);
    }
}

/// The order of the list is strict and transitive.
proof fn lemma_list_order(first: SummaryView, second: SummaryView, third: SummaryView)
    ensures
        listed_before(first, second) ==> !listed_before(second, first),
        listed_before(first, second) && listed_before(second, third) ==> listed_before(first, third),
{
    if text::precedes(second.id, first.id) {
        text::lemma_precedes_is_strict(second.id, first.id);
        if text::precedes(third.id, second.id) {
            text::lemma_precedes_is_transitive(third.id, second.id, first.id);
        }
    }
}

/// In the list no session stands before one that comes before it: it is ordered by the
/// time of change, newest first, and by id.
pub proof fn law_list_is_ordered(summaries: Seq<SummaryView>, i: int, j: int)
    requires
        0 <= i < j < in_list_order(summaries).len(),
    ensures
        !listed_before(in_list_order(summaries)[j], in_list_order(summaries)[i]),
    decreases summaries.len(),
{
    if summaries.len() > 0 {
        let before = in_list_order(summaries.drop_last());
        let summary = summaries.last();
        lemma_place_for(before, summary, 0);
        let at = place_for(before, summary, 0);
        let list = in_list_order(summaries);
        if j < at {
            law_list_is_ordered(summaries.drop_last(), i, j);
        } else if j == at {
            assert(list[i] == before[i]);
        } else if i < at {
            assert(list[j] == before[j - 1]);
            law_list_is_ordered(summaries.drop_last(), i, j - 1);
        } else if i == at {
            assert(list[j] == before[j - 1]);
            if at < j - 1 {
                law_list_is_ordered(summaries.drop_last(), at, j - 1);
            }
            lemma_list_order(list[j], summary, before[at]);
            lemma_list_order(summary, before[at], summary);
        } else {
            assert(list[j] == before[j - 1]);
            assert(list[i] == before[i - 1]);
            law_list_is_ordered(summaries.drop_last(), i - 1, j - 1);
        }
    }
}

/// The list holds each session as often as there is a file of it.
pub proof fn law_list_is_complete(summaries: Seq<SummaryView>)
    ensures
        in_list_order(summaries).to_multiset() == summaries.to_multiset(),
    decreases summaries.len(),
{
    broadcast use vstd::seq_lib::group_to_multiset_ensures;

    if summaries.len() > 0 {
        let before = in_list_order(summaries.drop_last());
        let summary = summaries.last();
        lemma_place_for(before, summary, 0);
        let at = place_for(before, summary, 0);
        let list = before.insert(at, summary);
        law_list_is_complete(summaries.drop_last());
        assert(list.remove(at) =~= before);
        assert(list[at] == summary);
        assert(list.contains(summary));
        assert(before.to_multiset() == list.to_multiset().remove(summary));
        assert(list.to_multiset() =~= before.to_multiset().insert(summary));
        assert(summaries =~= summaries.drop_last().push(summary));
    } else {
        assert(in_list_order(summaries) =~= summaries);
    }
}

/// The list begins with the session that was changed last; of sessions that were changed at the
/// same time, the one whose id comes later stands first.
pub proof fn law_latest_session_comes_first(summaries: Seq<SummaryView>, i: int, j: int)
    requires
        0 <= i < j < in_list_order(summaries).len(),
    ensures
        ({
            let first = in_list_order(summaries)[i];
            let second = in_list_order(summaries)[j];
            &&& first.modified_at >= second.modified_at
            &&& first.modified_at == second.modified_at ==> !text::precedes(first.id, second.id)
        }),
{
    law_list_is_ordered(summaries, i, j);
}

/// A session without a boundary is resumed with all of its messages, in order.
pub proof fn law_all_messages_are_resumed(records: Seq<RecordView>, now: u64, index: int)
    requires
        forall|i: int| 0 <= i < records.len() ==> (#[trigger] records[i]) is Message,
    ensures
        resumed(records, now).len() == records.len(),
        0 <= index < records.len() ==> resumed(records, now)[index] == records[index]->Message_0,
{
    lemma_no_boundary(records, records.len() as int);
    lemma_messages_of_records(records, index);
}

/// A session with a boundary is resumed with its summary as a text of the user, the messages
/// that the last boundary kept, and all that came after it.
pub proof fn law_resuming_begins_at_the_last_boundary(
    earlier: Seq<RecordView>,
    boundary: BoundaryView,
    later: Seq<RecordView>,
    now: u64,
    index: int,
)
    requires
        forall|i: int| 0 <= i < later.len() ==> (#[trigger] later[i]) is Message,
    ensures
        ({
            let records = earlier.push(RecordView::CompactBoundary(boundary)) + later;
            let messages = resumed(records, now);
            let kept = boundary.keep.len();
            &&& messages.len() == 1 + kept + later.len()
            &&& messages[0].role == MessageRole::User
            &&& messages[0].timestamp_unix_seconds == now
            &&& messages[0].content == seq![
                conversation::BlockView::Text { text: boundary.summary },
            ]
            &&& messages.subrange(1, 1 + kept as int) == boundary.keep
            &&& 0 <= index < later.len() ==> messages[1 + kept + index] == later[index]->Message_0
        }),
{
    let records = earlier.push(RecordView::CompactBoundary(boundary)) + later;
    let at = earlier.len() as int;
    assert(records[at] == RecordView::CompactBoundary(boundary));
    assert forall|i: int| at < i < records.len() implies (#[trigger] records[i]) is Message by {
        assert(records[i] == later[i - at - 1]);
    }
    lemma_boundary_at(records, at, records.len() as int);
    assert(records.skip(at + 1) =~= later);
    lemma_messages_of_records(later, index);
    let messages = resumed(records, now);
    assert(messages.subrange(1, 1 + boundary.keep.len() as int) =~= boundary.keep);
}

proof fn lemma_no_boundary(records: Seq<RecordView>, end: int)
    requires
        0 <= end <= records.len(),
        forall|i: int| 0 <= i < records.len() ==> (#[trigger] records[i]) is Message,
    ensures
        last_boundary(records, end) == -1,
    decreases end,
{
    if end > 0 {
        assert(records[end - 1] is Message);
        lemma_no_boundary(records, end - 1);
    }
}

proof fn lemma_boundary_at(records: Seq<RecordView>, at: int, end: int)
    requires
        0 <= at < end <= records.len(),
        records[at] is CompactBoundary,
        forall|i: int| at < i < records.len() ==> (#[trigger] records[i]) is Message,
    ensures
        last_boundary(records, end) == at,
    decreases end,
{
    if end - 1 > at {
        assert(records[end - 1] is Message);
        lemma_boundary_at(records, at, end - 1);
    }
}

proof fn lemma_messages_of_records(records: Seq<RecordView>, index: int)
    requires
        forall|i: int| 0 <= i < records.len() ==> (#[trigger] records[i]) is Message,
    ensures
        messages_in(records).len() == records.len(),
        0 <= index < records.len() ==> messages_in(records)[index] == records[index]->Message_0,
    decreases records.len(),
{
    if records.len() > 0 {
        let fewer = records.drop_last();
        assert forall|i: int| 0 <= i < fewer.len() implies (#[trigger] fewer[i]) is Message by {
            assert(fewer[i] == records[i]);
        }
        assert(records[records.len() - 1] is Message);
        lemma_messages_of_records(fewer, index);
    }
}

/// A session cannot be read just where one of its lines is neither a message nor a boundary; the
/// first such line is told.
pub proof fn law_first_bad_line_is_told(lines: Seq<Seq<char>>)
    ensures
        match records_in(lines) {
            Ok(_) => forall|i: int|
                0 <= i < lines.len() ==> !(line_meaning(
                    json::parsed_json(#[trigger] lines[i]),
                ) is Invalid),
            Err(number) => {
                &&& 1 <= number <= lines.len()
                &&& line_meaning(json::parsed_json(lines[number - 1])) is Invalid
                &&& forall|i: int|
                    0 <= i < number - 1 ==> !(line_meaning(
                        json::parsed_json(#[trigger] lines[i]),
                    ) is Invalid)
            },
        },
    decreases lines.len(),
{
    if lines.len() > 0 {
        let fewer = lines.drop_last();
        law_first_bad_line_is_told(fewer);
        assert(lines.last() == lines[lines.len() - 1]);
        assert forall|i: int| 0 <= i < fewer.len() implies #[trigger] lines[i] == fewer[i] by {}
    }
}

/// What a line of a session means: one that says it is a boundary is a boundary, or is passed
/// over where it holds none; any other is a message or wrong.
pub proof fn law_lines_are_messages_or_boundaries(json: JsonView, failure: Seq<char>)
    ensures
        ({
            let meaning = line_meaning(Ok(json));
            let marked = json::as_text(json::member(json, "type"@)) == Some("compact_boundary"@);
            &&& marked ==> meaning is Skipped || (meaning is Record && meaning->Record_0
                is CompactBoundary)
            &&& !marked ==> meaning is Invalid || (meaning is Record && meaning->Record_0
                is Message)
            &&& !marked ==> (meaning is Invalid <==> conversation::decoded_message(json) is None)
            &&& marked && meaning is Record ==> {
                let boundary = meaning->Record_0->CompactBoundary_0;
                json::member(json, "summary"@) == Some(JsonView::Text(boundary.summary))
            }
        }),
        line_meaning(Err(failure)) is Invalid,
{
}

/// What is listed of a session: its id, how many messages it has and what the user said first,
/// and the size and time of its file. A file whose name is no id is refused.
pub proof fn law_summary_describes_the_session(file: FileView, records: Seq<RecordView>, now: u64)
    requires
        records_in(text::line_texts(file.contents)) == Ok::<_, int>(records),
    ensures
        ({
            let described = summary_of(file);
            let id = file.stem->0;
            let good = file.stem is Some && id.len() > 0 && forall|i: int|
                0 <= i < id.len() ==> {
                    ||| 'a' <= #[trigger] id[i] <= 'z'
                    ||| 'A' <= id[i] <= 'Z'
                    ||| '0' <= id[i] <= '9'
                    ||| id[i] == '-'
                    ||| id[i] == '_'
                };
            &&& !good ==> described == Err::<SummaryView, _>(SessionErrorView::InvalidSessionId)
            &&& good ==> described is Ok && {
                let summary = described->Ok_0;
                &&& summary.id == id
                &&& summary.file_size_bytes == file.file_size_bytes
                &&& summary.modified_at == file.modified_at
                &&& (forall|i: int| 0 <= i < records.len() ==> (#[trigger] records[i]) is Message)
                    ==> summary.message_count == records.len() && summary.first_user_message
                    == conversation::first_user_text_of(resumed(records, now))
            }
        }),
{
    if forall|i: int| 0 <= i < records.len() ==> (#[trigger] records[i]) is Message {
        law_all_messages_are_resumed(records, now, 0);
        lemma_messages_of_records(records, 0);
        lemma_no_boundary(records, records.len() as int);
    }
    if let Some(id) = file.stem {
        assert(valid_id(id) <==> id.len() > 0 && forall|i: int|
            0 <= i < id.len() ==> {
                ||| 'a' <= #[trigger] id[i] <= 'z'
                ||| 'A' <= id[i] <= 'Z'
                ||| '0' <= id[i] <= '9'
                ||| id[i] == '-'
                ||| id[i] == '_'
            });
    }
}

/// A session stands in the folder for sessions of the work directory, under its id.
pub proof fn law_sessions_stand_in_their_folder(work_dir: Seq<char>, id: Seq<char>)
    requires
        work_dir.len() > 0,
        work_dir.last() != '/',
        valid_id(id),
    ensures
        session_file(work_dir, id) == work_dir + "/.mycode/sessions/"@ + id + ".jsonl"@,
{
    reveal_strlit(".mycode/sessions");
    reveal_strlit("/.mycode/sessions/");
    assert(id_char(id[0]));
    let name = id + ".jsonl"@;
    assert(name[0] == id[0]);
    assert(session_file(work_dir, id) =~= work_dir + "/.mycode/sessions/"@ + id + ".jsonl"@);
}

/// A session is found just where the query is empty, or is a part of its id or of what the user
/// said first, whatever the case of the letters.
pub proof fn law_sessions_are_found_by_what_they_say(query: Seq<char>, summary: SummaryView)
    ensures
        found(query, summary) <==> query.len() == 0 || text::lowercase_text(query).len() == 0
            || text::contains_text(text::lowercase_text(summary.id), text::lowercase_text(query))
            || (summary.first_user_message is Some && text::contains_text(
            text::lowercase_text(summary.first_user_message->0),
            text::lowercase_text(query),
        )),
{
}

} // verus!
