//! Conversations, and the JSON form in which they are stored.
use vstd::prelude::*;

use crate::json;
use crate::json::{Json, JsonView};
use crate::raw;
use crate::stored;
use crate::stored::{Fields, Stored, StoredView};
use crate::text;

verus! {

/// Why a conversation could not be turned into JSON or read from it.
#[derive(Debug, Clone, Copy, PartialEq, Eq, Structural)]
pub enum ConversationError {
    Serialization,
    Deserialization,
}

#[derive(Debug, Clone, Copy, PartialEq, Eq, Structural)]
pub enum MessageRole {
    User,
    Assistant,
    System,
}

#[derive(Debug, PartialEq, Eq)]
pub enum ContentBlock {
    Text { text: String },
    Thinking { thinking: String, signature: String, encrypted_content: String },
    ToolUse { tool_use_id: String, tool_name: String, arguments: Json },
    ToolResult { tool_use_id: String, content: String, is_error: bool },
}

/// What a [`ContentBlock`] holds.
#[verifier::ext_equal]
pub enum BlockView {
    Text { text: Seq<char> },
    Thinking { thinking: Seq<char>, signature: Seq<char>, encrypted_content: Seq<char> },
    ToolUse { tool_use_id: Seq<char>, tool_name: Seq<char>, arguments: JsonView },
    ToolResult { tool_use_id: Seq<char>, content: Seq<char>, is_error: bool },
}

impl View for ContentBlock {
    type V = BlockView;

    open spec fn view(&self) -> BlockView {
        match *self {
            ContentBlock::Text { text } => BlockView::Text { text: text@ },
            ContentBlock::Thinking { thinking, signature, encrypted_content } =>
                BlockView::Thinking {
                thinking: thinking@,
                signature: signature@,
                encrypted_content: encrypted_content@,
            },
            ContentBlock::ToolUse { tool_use_id, tool_name, arguments } => BlockView::ToolUse {
                tool_use_id: tool_use_id@,
                tool_name: tool_name@,
                arguments: arguments@,
            },
            ContentBlock::ToolResult { tool_use_id, content, is_error } => BlockView::ToolResult {
                tool_use_id: tool_use_id@,
                content: content@,
                is_error,
            },
        }
    }
}

impl Clone for ContentBlock {
    fn clone(&self) -> (copy: Self)
        ensures
            copy@ == self@,
    {
        match self {
            ContentBlock::Text { text } => ContentBlock::Text { text: text.clone() },
            ContentBlock::Thinking { thinking, signature, encrypted_content } =>
                ContentBlock::Thinking {
                thinking: thinking.clone(),
                signature: signature.clone(),
                encrypted_content: encrypted_content.clone(),
            },
            ContentBlock::ToolUse { tool_use_id, tool_name, arguments } => ContentBlock::ToolUse {
                tool_use_id: tool_use_id.clone(),
                tool_name: tool_name.clone(),
                arguments: arguments.clone(),
            },
            ContentBlock::ToolResult { tool_use_id, content, is_error } =>
                ContentBlock::ToolResult {
                tool_use_id: tool_use_id.clone(),
                content: content.clone(),
                is_error: *is_error,
            },
        }
    }
}

/// The views of a sequence of blocks.
pub open spec fn block_views(blocks: Seq<ContentBlock>) -> Seq<BlockView> {
    blocks.map_values(|block: ContentBlock| block@)
}

/// A copy of each block, in order.
pub fn copy_blocks(blocks: &Vec<ContentBlock>) -> (copies: Vec<ContentBlock>)
    ensures
        block_views(copies@) == block_views(blocks@),
{
    let mut copies: Vec<ContentBlock> = Vec::new();
    let mut i: usize = 0;
    while i < blocks.len()
        invariant
            i <= blocks@.len(),
            copies@.len() == i,
            forall|j: int| 0 <= j < i ==> (#[trigger] copies@[j])@ == blocks@[j]@,
        decreases blocks@.len() - i,
    {
        copies.push(blocks[i].clone());
        i += 1;
    }
    assert(block_views(copies@) =~= block_views(blocks@));
    copies
}

#[derive(Debug, PartialEq, Eq)]
pub struct ConversationMessage {
    pub role: MessageRole,
    pub content: Vec<ContentBlock>,
    pub timestamp_unix_seconds: u64,
}

/// What a [`ConversationMessage`] holds.
#[verifier::ext_equal]
pub struct MessageView {
    pub role: MessageRole,
    pub content: Seq<BlockView>,
    pub timestamp_unix_seconds: u64,
}

impl View for ConversationMessage {
    type V = MessageView;

    open spec fn view(&self) -> MessageView {
        MessageView {
            role: self.role,
            content: block_views(self.content@),
            timestamp_unix_seconds: self.timestamp_unix_seconds,
        }
    }
}

impl Clone for ConversationMessage {
    fn clone(&self) -> (copy: Self)
        ensures
            copy@ == self@,
    {
        ConversationMessage {
            role: self.role,
            content: copy_blocks(&self.content),
            timestamp_unix_seconds: self.timestamp_unix_seconds,
        }
    }
}

/// The views of a sequence of messages.
pub open spec fn message_views(messages: Seq<ConversationMessage>) -> Seq<MessageView> {
    messages.map_values(|message: ConversationMessage| message@)
}

/// A copy of `messages[start..end]`.
pub fn copy_messages(messages: &[ConversationMessage], start: usize, end: usize) -> (copies: Vec<
    ConversationMessage,
>)
    requires
        start <= end <= messages@.len(),
    ensures
        message_views(copies@) == message_views(messages@).subrange(start as int, end as int),
{
    let mut copies: Vec<ConversationMessage> = Vec::new();
    let mut i: usize = start;
    while i < end
        invariant
            start <= i <= end <= messages@.len(),
            copies@.len() == i - start,
            forall|j: int|
                0 <= j < i - start ==> (#[trigger] copies@[j])@ == messages@[start + j]@,
        decreases end - i,
    {
        copies.push(messages[i].clone());
        i += 1;
    }
    assert(message_views(copies@) =~= message_views(messages@).subrange(start as int, end as int));
    copies
}

/// The text of the first text block at or after position `from`.
pub open spec fn first_text_from(content: Seq<BlockView>, from: int) -> Option<Seq<char>>
    decreases content.len() - from,
{
    if from < 0 || from >= content.len() {
        None
    } else if content[from] is Text {
        Some(content[from]->Text_text)
    } else {
        first_text_from(content, from + 1)
    }
}

/// The text of the first text block.
pub open spec fn first_text(content: Seq<BlockView>) -> Option<Seq<char>> {
    first_text_from(content, 0)
}

/// The view of an optional borrowed text.
pub open spec fn borrowed_text(item: Option<&str>) -> Option<Seq<char>> {
    match item {
        Some(value) => Some(value@),
        None => None,
    }
}

impl ConversationMessage {
    /// The text of the first text block, if there is one.
    pub fn first_text(&self) -> (result: Option<&str>)
        ensures
            borrowed_text(result) == first_text(self@.content),
    {
        let mut i: usize = 0;
        while i < self.content.len()
            invariant
                i <= self.content@.len(),
                first_text_from(self@.content, i as int) == first_text(self@.content),
            decreases self.content@.len() - i,
        {
            assert(self@.content[i as int] == self.content@[i as int]@);
            if let ContentBlock::Text { text } = &self.content[i] {
                return Some(text.as_str());
            }
            i += 1;
        }
        None
    }
}

/// The position at or after `from` of the first message of a user, or the number of
/// messages where there is none.
pub open spec fn user_message_from(messages: Seq<MessageView>, from: int) -> int
    decreases messages.len() - from,
{
    if from >= messages.len() {
        messages.len() as int
    } else if messages[from].role == MessageRole::User {
        from
    } else {
        user_message_from(messages, from + 1)
    }
}

/// The first text of the first message of a user. Later messages do not count, even
/// where that message has no text.
pub open spec fn first_user_text_of(messages: Seq<MessageView>) -> Option<Seq<char>> {
    let position = user_message_from(messages, 0);
    if position < messages.len() {
        first_text(messages[position].content)
    } else {
        None
    }
}

/// The first text of the first message of a user.
pub fn first_user_text(messages: &[ConversationMessage]) -> (result: Option<&str>)
    ensures
        borrowed_text(result) == first_user_text_of(message_views(messages@)),
{
    let mut i: usize = 0;
    while i < messages.len()
        invariant
            i <= messages@.len(),
            user_message_from(message_views(messages@), i as int) == user_message_from(
                message_views(messages@),
                0,
            ),
        decreases messages@.len() - i,
    {
        assert(message_views(messages@)[i as int] == messages@[i as int]@);
        if messages[i].role == MessageRole::User {
            return messages[i].first_text();
        }
        i += 1;
    }
    None
}

/// A sequence of messages.
#[derive(Debug, PartialEq, Eq)]
pub struct Conversation {
    messages: Vec<ConversationMessage>,
}

impl View for Conversation {
    type V = Seq<MessageView>;

    closed spec fn view(&self) -> Seq<MessageView> {
        message_views(self.messages@)
    }
}

impl Clone for Conversation {
    fn clone(&self) -> (copy: Self)
        ensures
            copy@ == self@,
    {
        let end = self.messages.len();
        let messages = copy_messages(self.messages.as_slice(), 0, end);
        assert(message_views(messages@) =~= message_views(self.messages@));
        Conversation { messages }
    }
}

impl Default for Conversation {
    fn default() -> (conversation: Self)
        ensures
            conversation@ == Seq::<MessageView>::empty(),
    {
        Conversation::new()
    }
}

impl Conversation {
    pub fn new() -> (conversation: Self)
        ensures
            conversation@ == Seq::<MessageView>::empty(),
    {
        let conversation = Conversation { messages: Vec::new() };
        assert(conversation@ =~= Seq::<MessageView>::empty());
        conversation
    }

    /// The conversation that consists of `messages`.
    pub fn from_messages(messages: Vec<ConversationMessage>) -> (conversation: Self)
        ensures
            conversation@ == message_views(messages@),
    {
        Conversation { messages }
    }

    /// Adds a message at the end.
    pub fn push(&mut self, message: ConversationMessage)
        ensures
            final(self)@ == old(self)@.push(message@),
    {
        self.messages.push(message);
        assert(self@ =~= old(self)@.push(message@));
    }

    pub fn messages(&self) -> (messages: &[ConversationMessage])
        ensures
            message_views(messages@) == self@,
    {
        self.messages.as_slice()
    }

    /// The first text of the first message of a user.
    pub fn first_user_text(&self) -> (result: Option<&str>)
        ensures
            borrowed_text(result) == first_user_text_of(self@),
    {
        first_user_text(self.messages.as_slice())
    }

    pub fn into_messages(self) -> (messages: Vec<ConversationMessage>)
        ensures
            message_views(messages@) == self@,
    {
        self.messages
    }
}

/// The name of a role in stored messages.
pub open spec fn role_text(role: MessageRole) -> Seq<char> {
    match role {
        MessageRole::User => "user"@,
        MessageRole::Assistant => "assistant"@,
        MessageRole::System => "system"@,
    }
}

/// The name of a role.
pub fn role_name(role: MessageRole) -> (name: &'static str)
    ensures
        name@ == role_text(role),
{
    match role {
        MessageRole::User => "user",
        MessageRole::Assistant => "assistant",
        MessageRole::System => "system",
    }
}

/// The role that `name` names.
pub open spec fn role_named(name: Seq<char>) -> Option<MessageRole> {
    if name == "user"@ {
        Some(MessageRole::User)
    } else if name == "assistant"@ {
        Some(MessageRole::Assistant)
    } else if name == "system"@ {
        Some(MessageRole::System)
    } else {
        None
    }
}

/// The role that a stored value stands for: its name, or an object whose one
/// member has that name and the value null.
pub open spec fn decoded_role(json: JsonView) -> Option<MessageRole> {
    match json {
        JsonView::Text(name) => role_named(name),
        JsonView::Object(entries) => if entries.len() == 1 && entries[0].1 is Null {
            role_named(entries[0].0)
        } else {
            None
        },
        _ => None,
    }
}

/// The JSON value that a stored block is read as: its members stand in the order of their
/// names.
pub open spec fn block_json(block: BlockView) -> JsonView {
    match block {
        BlockView::Text { text } => JsonView::Object(
            seq![("text"@, JsonView::Text(text)), ("type"@, JsonView::Text("text"@))],
        ),
        BlockView::Thinking { thinking, signature, encrypted_content } => if encrypted_content.len()
            == 0 {
            JsonView::Object(
                seq![
                    ("signature"@, JsonView::Text(signature)),
                    ("thinking"@, JsonView::Text(thinking)),
                    ("type"@, JsonView::Text("thinking"@)),
                ],
            )
        } else {
            JsonView::Object(
                seq![
                    ("encrypted_content"@, JsonView::Text(encrypted_content)),
                    ("signature"@, JsonView::Text(signature)),
                    ("thinking"@, JsonView::Text(thinking)),
                    ("type"@, JsonView::Text("thinking"@)),
                ],
            )
        },
        BlockView::ToolUse { tool_use_id, tool_name, arguments } => JsonView::Object(
            seq![
                ("arguments"@, arguments),
                ("tool_name"@, JsonView::Text(tool_name)),
                ("tool_use_id"@, JsonView::Text(tool_use_id)),
                ("type"@, JsonView::Text("tool_use"@)),
            ],
        ),
        BlockView::ToolResult { tool_use_id, content, is_error } => JsonView::Object(
            seq![
                ("content"@, JsonView::Text(content)),
                ("is_error"@, JsonView::Bool(is_error)),
                ("tool_use_id"@, JsonView::Text(tool_use_id)),
                ("type"@, JsonView::Text("tool_result"@)),
            ],
        ),
    }
}

/// A text field of a record.
pub open spec fn text_field(name: Seq<char>, value: Seq<char>) -> (Seq<char>, StoredView) {
    (name, StoredView::Value(JsonView::Text(value)))
}

/// A block as it is stored: its kind, and then its fields. An empty `encrypted_content` is
/// left out.
pub open spec fn block_fields(block: BlockView) -> StoredView {
    match block {
        BlockView::Text { text } => StoredView::Record(
            seq![text_field("type"@, "text"@), text_field("text"@, text)],
        ),
        BlockView::Thinking { thinking, signature, encrypted_content } => {
            let fields = seq![
                text_field("type"@, "thinking"@),
                text_field("thinking"@, thinking),
                text_field("signature"@, signature),
            ];
            StoredView::Record(
                if encrypted_content.len() == 0 {
                    fields
                } else {
                    fields.push(text_field("encrypted_content"@, encrypted_content))
                },
            )
        },
        BlockView::ToolUse { tool_use_id, tool_name, arguments } => StoredView::Record(
            seq![
                text_field("type"@, "tool_use"@),
                text_field("tool_use_id"@, tool_use_id),
                text_field("tool_name"@, tool_name),
                ("arguments"@, StoredView::Value(arguments)),
            ],
        ),
        BlockView::ToolResult { tool_use_id, content, is_error } => StoredView::Record(
            seq![
                text_field("type"@, "tool_result"@),
                text_field("tool_use_id"@, tool_use_id),
                text_field("content"@, content),
                ("is_error"@, StoredView::Value(JsonView::Bool(is_error))),
            ],
        ),
    }
}

/// A block as it is stored.
pub fn stored_block(block: &ContentBlock) -> (stored: Stored)
    ensures
        stored@ == block_fields(block@),
{
    let stored = match block {
        ContentBlock::Text { text } => Fields::new().with(
            "type",
            stored::stored_str("text"),
        ).with("text", stored::stored_str(text.as_str())).record(),
        ContentBlock::Thinking { thinking, signature, encrypted_content } => {
            let mut fields = Fields::new().with("type", stored::stored_str("thinking")).with(
                "thinking",
                stored::stored_str(thinking.as_str()),
            ).with("signature", stored::stored_str(signature.as_str()));
            if !encrypted_content.as_str().is_empty() {
                fields =
                fields.with("encrypted_content", stored::stored_str(encrypted_content.as_str()));
            }
            fields.record()
        },
        ContentBlock::ToolUse { tool_use_id, tool_name, arguments } => Fields::new().with(
            "type",
            stored::stored_str("tool_use"),
        ).with("tool_use_id", stored::stored_str(tool_use_id.as_str())).with(
            "tool_name",
            stored::stored_str(tool_name.as_str()),
        ).with("arguments", Stored::Value(arguments.clone())).record(),
        ContentBlock::ToolResult { tool_use_id, content, is_error } => Fields::new().with(
            "type",
            stored::stored_str("tool_result"),
        ).with("tool_use_id", stored::stored_str(tool_use_id.as_str())).with(
            "content",
            stored::stored_str(content.as_str()),
        ).with("is_error", Stored::Value(Json::Bool(*is_error))).record(),
    };
    assert(stored@->Record_0 =~= block_fields(block@)->Record_0);
    stored
}

/// The block that a stored value stands for. The value is a record whose first
/// field `type` names the kind of block; `encrypted_content` may be left out.
pub open spec fn decoded_block(json: JsonView) -> Option<BlockView> {
    match json::as_text(json::record_field(json, 0, "type"@)) {
        None => None,
        Some(kind) => if kind == "text"@ {
            decoded_text(json)
        } else if kind == "thinking"@ {
            decoded_thinking(json)
        } else if kind == "tool_use"@ {
            decoded_tool_use(json)
        } else if kind == "tool_result"@ {
            decoded_tool_result(json)
        } else {
            None
        },
    }
}

/// The text block that a stored value stands for.
pub open spec fn decoded_text(json: JsonView) -> Option<BlockView> {
    match json::as_text(json::record_field(json, 1, "text"@)) {
        Some(text) if json::record_shape(json, 2) => Some(BlockView::Text { text }),
        _ => None,
    }
}

/// The thinking block that a stored value stands for.
pub open spec fn decoded_thinking(json: JsonView) -> Option<BlockView> {
    let encrypted = match json::record_field(json, 3, "encrypted_content"@) {
        None => Some(Seq::<char>::empty()),
        Some(value) => json::as_text(Some(value)),
    };
    match (
        json::as_text(json::record_field(json, 1, "thinking"@)),
        json::as_text(json::record_field(json, 2, "signature"@)),
        encrypted,
    ) {
        (Some(thinking), Some(signature), Some(encrypted_content)) if json::record_shape(json, 4) =>
            Some(BlockView::Thinking { thinking, signature, encrypted_content }),
        _ => None,
    }
}

/// The tool use that a stored value stands for.
pub open spec fn decoded_tool_use(json: JsonView) -> Option<BlockView> {
    match (
        json::as_text(json::record_field(json, 1, "tool_use_id"@)),
        json::as_text(json::record_field(json, 2, "tool_name"@)),
        json::record_field(json, 3, "arguments"@),
    ) {
        (Some(tool_use_id), Some(tool_name), Some(arguments)) if json::record_shape(json, 4) =>
            Some(BlockView::ToolUse { tool_use_id, tool_name, arguments }),
        _ => None,
    }
}

/// The tool result that a stored value stands for.
pub open spec fn decoded_tool_result(json: JsonView) -> Option<BlockView> {
    match (
        json::as_text(json::record_field(json, 1, "tool_use_id"@)),
        json::as_text(json::record_field(json, 2, "content"@)),
        json::record_field(json, 3, "is_error"@),
    ) {
        (Some(tool_use_id), Some(content), Some(JsonView::Bool(is_error))) if json::record_shape(
            json,
            4,
        ) => Some(BlockView::ToolResult { tool_use_id, content, is_error }),
        _ => None,
    }
}

/// The view of an optional block.
pub open spec fn optional_block(block: Option<ContentBlock>) -> Option<BlockView> {
    match block {
        Some(block) => Some(block@),
        None => None,
    }
}

/// The block that a stored value stands for.
pub fn block_from_value(json: &Json) -> (block: Option<ContentBlock>)
    ensures
        optional_block(block) == decoded_block(json@),
{
    let kind = match json::text_in(json.field(0, "type")) {
        Some(kind) => kind,
        None => {
            return None;
        },
    };
    if text::same_text(kind.as_str(), "text") {
        match json::text_in(json.field(1, "text")) {
            Some(text) if json.has_record_shape(2) => Some(ContentBlock::Text { text }),
            _ => None,
        }
    } else if text::same_text(kind.as_str(), "thinking") {
        let encrypted = match json.field(3, "encrypted_content") {
            None => Some(String::new()),
            Some(value) => json::text_in(Some(value)),
        };
        match (
            json::text_in(json.field(1, "thinking")),
            json::text_in(json.field(2, "signature")),
            encrypted,
        ) {
            (Some(thinking), Some(signature), Some(encrypted_content)) if json.has_record_shape(
                4,
            ) => Some(ContentBlock::Thinking { thinking, signature, encrypted_content }),
            _ => None,
        }
    } else if text::same_text(kind.as_str(), "tool_use") {
        match (
            json::text_in(json.field(1, "tool_use_id")),
            json::text_in(json.field(2, "tool_name")),
            json.field(3, "arguments"),
        ) {
            (Some(tool_use_id), Some(tool_name), Some(arguments)) if json.has_record_shape(4) =>
                Some(ContentBlock::ToolUse {
                tool_use_id,
                tool_name,
                arguments: arguments.clone(),
            }),
            _ => None,
        }
    } else if text::same_text(kind.as_str(), "tool_result") {
        match (
            json::text_in(json.field(1, "tool_use_id")),
            json::text_in(json.field(2, "content")),
            json.field(3, "is_error"),
        ) {
            (Some(tool_use_id), Some(content), Some(Json::Bool(is_error)))
                if json.has_record_shape(4) => Some(ContentBlock::ToolResult {
                tool_use_id,
                content,
                is_error: *is_error,
            }),
            _ => None,
        }
    } else {
        None
    }
}

/// The stored forms of a sequence of blocks.
pub open spec fn block_jsons(blocks: Seq<BlockView>) -> Seq<JsonView> {
    blocks.map_values(|block: BlockView| block_json(block))
}

/// The JSON value that a stored message is read as: its members stand in the order of their
/// names.
pub open spec fn message_json(message: MessageView) -> JsonView {
    JsonView::Object(
        seq![
            ("content"@, JsonView::Array(block_jsons(message.content))),
            ("role"@, JsonView::Text(role_text(message.role))),
            ("timestamp_unix_seconds"@, JsonView::Unsigned(message.timestamp_unix_seconds)),
        ],
    )
}

/// Blocks as they are stored.
pub open spec fn blocks_fields(blocks: Seq<BlockView>) -> Seq<StoredView> {
    blocks.map_values(|block: BlockView| block_fields(block))
}

/// A message as it is stored.
pub open spec fn message_fields(message: MessageView) -> StoredView {
    StoredView::Record(
        seq![
            text_field("role"@, role_text(message.role)),
            ("content"@, StoredView::List(blocks_fields(message.content))),
            (
                "timestamp_unix_seconds"@,
                StoredView::Value(JsonView::Unsigned(message.timestamp_unix_seconds)),
            ),
        ],
    )
}

/// A message as it is stored.
pub fn stored_message(message: &ConversationMessage) -> (stored: Stored)
    ensures
        stored@ == message_fields(message@),
{
    let mut blocks: Vec<Stored> = Vec::new();
    let mut i: usize = 0;
    while i < message.content.len()
        invariant
            i <= message.content@.len(),
            blocks@.len() == i,
            forall|j: int|
                0 <= j < i ==> (#[trigger] blocks@[j])@ == block_fields(message.content@[j]@),
        decreases message.content@.len() - i,
    {
        blocks.push(stored_block(&message.content[i]));
        i += 1;
    }
    assert(stored::stored_views(blocks@) =~= blocks_fields(message@.content));
    let stored = Fields::new().with("role", stored::stored_str(role_name(message.role))).with(
        "content",
        stored::stored_list(blocks),
    ).with(
        "timestamp_unix_seconds",
        Stored::Value(Json::Unsigned(message.timestamp_unix_seconds)),
    ).record();
    assert(stored@->Record_0 =~= message_fields(message@)->Record_0);
    stored
}

/// The blocks that stored values stand for; each of them must stand for one.
pub open spec fn decoded_blocks(items: Seq<JsonView>) -> Option<Seq<BlockView>> {
    if forall|i: int| 0 <= i < items.len() ==> decoded_block(#[trigger] items[i]) is Some {
        Some(items.map_values(|item: JsonView| decoded_block(item)->0))
    } else {
        None
    }
}

/// The message that a stored value stands for. `timestamp_unix_seconds` may be left
/// out and is then 0; members of other names are passed over.
pub open spec fn decoded_message(json: JsonView) -> Option<MessageView> {
    let role = match json::record_field(json, 0, "role"@) {
        Some(value) => decoded_role(value),
        None => None,
    };
    let content = match json::as_items(json::record_field(json, 1, "content"@)) {
        Some(items) => decoded_blocks(items),
        None => None,
    };
    let timestamp = match json::record_field(json, 2, "timestamp_unix_seconds"@) {
        Some(value) => json::as_unsigned(Some(value)),
        None => Some(0u64),
    };
    match (role, content, timestamp) {
        (Some(role), Some(content), Some(timestamp_unix_seconds)) if json::record_shape(json, 3) =>
            Some(MessageView { role, content, timestamp_unix_seconds }),
        _ => None,
    }
}

/// The view of an optional message.
pub open spec fn optional_message(message: Option<ConversationMessage>) -> Option<MessageView> {
    match message {
        Some(message) => Some(message@),
        None => None,
    }
}

/// The role that `name` names.
fn role_from_name(name: &str) -> (role: Option<MessageRole>)
    ensures
        role == role_named(name@),
{
    if text::same_text(name, "user") {
        Some(MessageRole::User)
    } else if text::same_text(name, "assistant") {
        Some(MessageRole::Assistant)
    } else if text::same_text(name, "system") {
        Some(MessageRole::System)
    } else {
        None
    }
}

/// The role that a stored value stands for.
fn role_from_value(json: &Json) -> (role: Option<MessageRole>)
    ensures
        role == decoded_role(json@),
{
    proof {
        json::lemma_container_views(*json);
    }
    match json {
        Json::Text(name) => role_from_name(name.as_str()),
        Json::Object(entries) => {
            if entries.len() != 1 {
                return None;
            }
            proof {
                assert(json@->Object_0[0] == (entries@[0].0@, entries@[0].1@));
                json::lemma_container_views(entries@[0].1);
            }
            match &entries[0].1 {
                Json::Null => role_from_name(entries[0].0.as_str()),
                _ => None,
            }
        },
        _ => None,
    }
}

/// The blocks that stored values stand for.
fn blocks_from_values(items: &Vec<Json>) -> (blocks: Option<Vec<ContentBlock>>)
    ensures
        match blocks {
            Some(blocks) => decoded_blocks(json::json_views(items@)) == Some(block_views(blocks@)),
            None => decoded_blocks(json::json_views(items@)) is None,
        },
{
    let ghost views = json::json_views(items@);
    let mut blocks: Vec<ContentBlock> = Vec::new();
    let mut i: usize = 0;
    while i < items.len()
        invariant
            i <= items@.len(),
            views == json::json_views(items@),
            blocks@.len() == i,
            forall|j: int|
                0 <= j < i ==> decoded_block(#[trigger] views[j]) == Some(blocks@[j]@),
        decreases items@.len() - i,
    {
        assert(views[i as int] == items@[i as int]@);
        match block_from_value(&items[i]) {
            Some(block) => {
                blocks.push(block);
            },
            None => {
                return None;
            },
        }
        i += 1;
    }
    assert(decoded_blocks(views)->0 =~= block_views(blocks@));
    Some(blocks)
}

/// The message that a stored value stands for.
pub fn message_from_value(json: &Json) -> (message: Option<ConversationMessage>)
    ensures
        optional_message(message) == decoded_message(json@),
{
    let role = match json.field(0, "role") {
        Some(value) => role_from_value(value),
        None => None,
    };
    let content = match json.field(1, "content") {
        Some(value) => {
            proof {
                json::lemma_container_views(*value);
            }
            match value {
                Json::Array(items) => blocks_from_values(items),
                _ => None,
            }
        },
        None => None,
    };
    let timestamp: Option<u64> = match json.field(2, "timestamp_unix_seconds") {
        Some(value) => json::unsigned_in(Some(value)),
        None => Some(0),
    };
    match (role, content, timestamp) {
        (Some(role), Some(content), Some(timestamp_unix_seconds)) if json.has_record_shape(3) =>
            Some(ConversationMessage { role, content, timestamp_unix_seconds }),
        _ => None,
    }
}

/// The stored forms of a sequence of messages.
pub open spec fn message_jsons(messages: Seq<MessageView>) -> Seq<JsonView> {
    messages.map_values(|message: MessageView| message_json(message))
}

/// The messages that stored values stand for; each of them must stand for one.
pub open spec fn decoded_messages(items: Seq<JsonView>) -> Option<Seq<MessageView>> {
    if forall|i: int| 0 <= i < items.len() ==> decoded_message(#[trigger] items[i]) is Some {
        Some(items.map_values(|item: JsonView| decoded_message(item)->0))
    } else {
        None
    }
}

/// Messages as they are stored.
pub open spec fn messages_fields(messages: Seq<MessageView>) -> Seq<StoredView> {
    messages.map_values(|message: MessageView| message_fields(message))
}

/// Messages as they are stored, in a list.
pub fn stored_messages(messages: &[ConversationMessage]) -> (stored: Stored)
    ensures
        stored@ == StoredView::List(messages_fields(message_views(messages@))),
{
    let mut items: Vec<Stored> = Vec::new();
    let mut i: usize = 0;
    while i < messages.len()
        invariant
            i <= messages@.len(),
            items@.len() == i,
            forall|j: int| 0 <= j < i ==> (#[trigger] items@[j])@ == message_fields(messages@[j]@),
        decreases messages@.len() - i,
    {
        items.push(stored_message(&messages[i]));
        i += 1;
    }
    assert(stored::stored_views(items@) =~= messages_fields(message_views(messages@)));
    stored::stored_list(items)
}

/// The messages that an array of stored values stands for.
pub fn messages_from_value(json: &Json) -> (messages: Option<Vec<ConversationMessage>>)
    ensures
        match messages {
            Some(messages) => json@ is Array && decoded_messages(json@->Array_0) == Some(
                message_views(messages@),
            ),
            None => json@ is Array ==> decoded_messages(json@->Array_0) is None,
        },
{
    proof {
        json::lemma_container_views(*json);
    }
    let items = match json {
        Json::Array(items) => items,
        _ => {
            return None;
        },
    };
    let ghost views = json::json_views(items@);
    let mut messages: Vec<ConversationMessage> = Vec::new();
    let mut i: usize = 0;
    while i < items.len()
        invariant
            i <= items@.len(),
            views == json::json_views(items@),
            json@ == JsonView::Array(views),
            messages@.len() == i,
            forall|j: int|
                0 <= j < i ==> decoded_message(#[trigger] views[j]) == Some(messages@[j]@),
        decreases items@.len() - i,
    {
        assert(views[i as int] == items@[i as int]@);
        match message_from_value(&items[i]) {
            Some(message) => {
                messages.push(message);
            },
            None => {
                return None;
            },
        }
        i += 1;
    }
    assert(decoded_messages(views)->0 =~= message_views(messages@));
    Some(messages)
}

/// A conversation as it is stored.
pub open spec fn conversation_fields(messages: Seq<MessageView>) -> StoredView {
    StoredView::Record(seq![("messages"@, StoredView::List(messages_fields(messages)))])
}

/// The only item of an array.
pub open spec fn only_item(json: Option<JsonView>) -> Option<JsonView> {
    match json {
        Some(JsonView::Array(items)) => if items.len() == 1 {
            Some(items[0])
        } else {
            None
        },
        _ => None,
    }
}

/// What four arrays hold that stand in each other.
pub open spec fn innermost(json: JsonView) -> Option<JsonView> {
    only_item(only_item(only_item(only_item(Some(json)))))
}

/// The names of the members that matter in a block of that kind.
pub open spec fn block_names(kind: Option<Seq<char>>) -> Seq<Seq<char>> {
    match kind {
        Some(kind) => if kind == "text"@ {
            seq!["type"@, "text"@]
        } else if kind == "thinking"@ {
            seq!["type"@, "thinking"@, "signature"@, "encrypted_content"@]
        } else if kind == "tool_use"@ {
            seq!["type"@, "tool_use_id"@, "tool_name"@, "arguments"@]
        } else if kind == "tool_result"@ {
            seq!["type"@, "tool_use_id"@, "content"@, "is_error"@]
        } else {
            seq!["type"@]
        },
        None => seq!["type"@],
    }
}

/// The block that a text in a conversation stands for. It is read as deep as it stands
/// there, and no member that matters may occur twice.
pub open spec fn parsed_block(text: Seq<char>) -> Option<BlockView> {
    match json::parsed_json(stored::bracketed(text)) {
        Ok(outer) => match innermost(outer) {
            Some(value) => if raw::all_named_once(
                text,
                block_names(json::as_text(json::record_field(value, 0, "type"@))),
            ) {
                decoded_block(value)
            } else {
                None
            },
            None => None,
        },
        Err(_) => None,
    }
}

/// The blocks that texts stand for; each of them must stand for one.
pub open spec fn parsed_blocks(texts: Seq<Seq<char>>) -> Option<Seq<BlockView>> {
    if forall|i: int| 0 <= i < texts.len() ==> parsed_block(#[trigger] texts[i]) is Some {
        Some(texts.map_values(|text: Seq<char>| parsed_block(text)->0))
    } else {
        None
    }
}

/// The names of the fields of a message.
pub open spec fn message_names() -> Seq<Seq<char>> {
    seq!["role"@, "content"@, "timestamp_unix_seconds"@]
}

/// The items of an optional array.
pub open spec fn optional_items(text: Option<Seq<char>>) -> Option<Seq<Seq<char>>> {
    match text {
        Some(text) => raw::raw_items(text),
        None => None,
    }
}

/// The time in a message, 0 where there is none.
pub open spec fn parsed_time(text: Option<Seq<char>>) -> Option<u64> {
    match text {
        Some(text) => json::as_unsigned(raw::plain_value(text)),
        None => Some(0u64),
    }
}

/// The role that an optional value stands for.
pub open spec fn optional_role(value: Option<JsonView>) -> Option<MessageRole> {
    match value {
        Some(value) => decoded_role(value),
        None => None,
    }
}

/// The message that fields stand for.
pub open spec fn message_in(fields: Seq<Option<Seq<char>>>) -> Option<MessageView> {
    match (
        optional_role(raw::optional_value(fields[0])),
        optional_items(fields[1]),
        parsed_time(fields[2]),
    ) {
        (Some(role), Some(items), Some(timestamp_unix_seconds)) => match parsed_blocks(items) {
            Some(content) => Some(MessageView { role, content, timestamp_unix_seconds }),
            None => None,
        },
        _ => None,
    }
}

/// The message that a text in a conversation stands for.
pub open spec fn parsed_message(text: Seq<char>) -> Option<MessageView> {
    match raw::raw_fields(text, message_names()) {
        Some(fields) => message_in(fields),
        None => None,
    }
}

/// The messages that texts stand for; each of them must stand for one.
pub open spec fn parsed_messages(texts: Seq<Seq<char>>) -> Option<Seq<MessageView>> {
    if forall|i: int| 0 <= i < texts.len() ==> parsed_message(#[trigger] texts[i]) is Some {
        Some(texts.map_values(|text: Seq<char>| parsed_message(text)->0))
    } else {
        None
    }
}

/// The conversation that a text stands for: a record of one field, the messages.
pub open spec fn parsed_conversation(text: Seq<char>) -> Option<Seq<MessageView>> {
    match raw::raw_fields(text, seq!["messages"@]) {
        Some(fields) => match optional_items(fields[0]) {
            Some(items) => parsed_messages(items),
            None => None,
        },
        None => None,
    }
}

/// The only item of an array.
fn single<'a>(json: Option<&'a Json>) -> (item: Option<&'a Json>)
    ensures
        json::optional_view(item) == only_item(json::optional_view(json)),
{
    match json {
        Some(json) => {
            proof {
                json::lemma_container_views(*json);
            }
            match json {
                Json::Array(items) => if items.len() == 1 {
                    assert(json::json_views(items@)[0] == items@[0]@);
                    Some(&items[0])
                } else {
                    None
                },
                _ => None,
            }
        },
        None => None,
    }
}

/// The names of the members that matter in a block of that kind.
fn names_of_block(kind: &Option<String>) -> (names: Vec<String>)
    ensures
        text::texts(names@) == block_names(text::optional_text(*kind)),
{
    let mut names: Vec<String> = Vec::new();
    names.push(text::copy_text("type"));
    if let Some(kind) = kind {
        if text::same_text(kind.as_str(), "text") {
            names.push(text::copy_text("text"));
        } else if text::same_text(kind.as_str(), "thinking") {
            names.push(text::copy_text("thinking"));
            names.push(text::copy_text("signature"));
            names.push(text::copy_text("encrypted_content"));
        } else if text::same_text(kind.as_str(), "tool_use") {
            names.push(text::copy_text("tool_use_id"));
            names.push(text::copy_text("tool_name"));
            names.push(text::copy_text("arguments"));
        } else if text::same_text(kind.as_str(), "tool_result") {
            names.push(text::copy_text("tool_use_id"));
            names.push(text::copy_text("content"));
            names.push(text::copy_text("is_error"));
        }
    }
    assert(text::texts(names@) =~= block_names(text::optional_text(*kind)));
    names
}

/// The block that a text in a conversation stands for.
fn read_block(text: &str) -> (block: Option<ContentBlock>)
    ensures
        optional_block(block) == parsed_block(text@),
{
    let outer = match Json::parse(text::concat3("[[[[", text, "]]]]").as_str()) {
        Ok(outer) => outer,
        Err(_) => {
            return None;
        },
    };
    match single(single(single(single(Some(&outer))))) {
        Some(value) => {
            let names = names_of_block(&json::text_in(value.field(0, "type")));
            if raw::are_named_once(text, &names) {
                block_from_value(value)
            } else {
                None
            }
        },
        None => None,
    }
}

/// The blocks that texts stand for; each of them must stand for one.
fn read_blocks(items: &Vec<String>) -> (blocks: Option<Vec<ContentBlock>>)
    ensures
        match blocks {
            Some(blocks) => parsed_blocks(text::texts(items@)) == Some(block_views(blocks@)),
            None => parsed_blocks(text::texts(items@)) is None,
        },
{
    let ghost texts = text::texts(items@);
    let mut blocks: Vec<ContentBlock> = Vec::new();
    let mut i: usize = 0;
    while i < items.len()
        invariant
            i <= items@.len(),
            texts == text::texts(items@),
            blocks@.len() == i,
            forall|j: int| 0 <= j < i ==> parsed_block(#[trigger] texts[j]) == Some(blocks@[j]@),
        decreases items@.len() - i,
    {
        assert(texts[i as int] == items@[i as int]@);
        match read_block(items[i].as_str()) {
            Some(block) => {
                blocks.push(block);
            },
            None => {
                assert(parsed_block(texts[i as int]) is None);
                return None;
            },
        }
        i += 1;
    }
    assert(parsed_blocks(texts)->0 =~= block_views(blocks@));
    Some(blocks)
}

/// The message that a text in a conversation stands for.
fn read_message(text: &str) -> (message: Option<ConversationMessage>)
    ensures
        optional_message(message) == parsed_message(text@),
{
    let mut names: Vec<String> = Vec::new();
    names.push(text::copy_text("role"));
    names.push(text::copy_text("content"));
    names.push(text::copy_text("timestamp_unix_seconds"));
    assert(text::texts(names@) =~= message_names());
    let fields = match raw::fields_of(text, &names) {
        Some(fields) => fields,
        None => {
            return None;
        },
    };
    assert(fields@.len() == raw::optional_texts(fields@).len());
    assert(raw::optional_texts(fields@)[0] == text::optional_text(fields@[0]));
    assert(raw::optional_texts(fields@)[1] == text::optional_text(fields@[1]));
    assert(raw::optional_texts(fields@)[2] == text::optional_text(fields@[2]));
    let role = match raw::read_optional(&fields[0]) {
        Some(value) => role_from_value(&value),
        None => None,
    };
    let items = match &fields[1] {
        Some(content) => raw::items_of(content.as_str()),
        None => None,
    };
    let time = match &fields[2] {
        Some(time) => match raw::read_plain(time.as_str()) {
            Some(Json::Unsigned(time)) => Some(time),
            _ => None,
        },
        None => Some(0u64),
    };
    match (role, items, time) {
        (Some(role), Some(items), Some(timestamp_unix_seconds)) => match read_blocks(&items) {
            Some(content) => Some(ConversationMessage { role, content, timestamp_unix_seconds }),
            None => None,
        },
        _ => None,
    }
}

/// The messages that texts stand for; each of them must stand for one.
fn read_messages(items: &Vec<String>) -> (messages: Option<Vec<ConversationMessage>>)
    ensures
        match messages {
            Some(messages) => parsed_messages(text::texts(items@)) == Some(
                message_views(messages@),
            ),
            None => parsed_messages(text::texts(items@)) is None,
        },
{
    let ghost texts = text::texts(items@);
    let mut messages: Vec<ConversationMessage> = Vec::new();
    let mut i: usize = 0;
    while i < items.len()
        invariant
            i <= items@.len(),
            texts == text::texts(items@),
            messages@.len() == i,
            forall|j: int|
                0 <= j < i ==> parsed_message(#[trigger] texts[j]) == Some(messages@[j]@),
        decreases items@.len() - i,
    {
        assert(texts[i as int] == items@[i as int]@);
        match read_message(items[i].as_str()) {
            Some(message) => {
                messages.push(message);
            },
            None => {
                assert(parsed_message(texts[i as int]) is None);
                return None;
            },
        }
        i += 1;
    }
    assert(parsed_messages(texts)->0 =~= message_views(messages@));
    Some(messages)
}

/// Whether the arguments of each tool use in `content` can be written and read
/// back: they are in canonical form and nested at most `allowance` deep.
pub open spec fn storable_blocks(content: Seq<BlockView>, allowance: nat) -> bool {
    forall|i: int|
        0 <= i < content.len() ==> ((#[trigger] content[i]) matches BlockView::ToolUse {
            arguments,
            ..
        } ==> json::canonical(arguments) && json::depth(arguments) <= allowance)
}

/// Whether the arguments of each tool use in `messages` can be written and read
/// back.
pub open spec fn storable_messages(messages: Seq<MessageView>, allowance: nat) -> bool {
    forall|i: int|
        0 <= i < messages.len() ==> storable_blocks((#[trigger] messages[i]).content, allowance)
}

/// The names of the members of stored blocks are distinct, and so are the kinds.
proof fn lemma_block_names()
    ensures
        "text"@ != "type"@,
        "text"@ != "thinking"@,
        "text"@ != "tool_use"@,
        "text"@ != "tool_result"@,
        "thinking"@ != "tool_use"@,
        "thinking"@ != "tool_result"@,
        "tool_use"@ != "tool_result"@,
        "thinking"@ != "type"@,
        "signature"@ != "thinking"@,
        "signature"@ != "type"@,
        "encrypted_content"@ != "signature"@,
        "encrypted_content"@ != "thinking"@,
        "encrypted_content"@ != "type"@,
        "arguments"@ != "tool_name"@,
        "arguments"@ != "tool_use_id"@,
        "arguments"@ != "type"@,
        "tool_name"@ != "tool_use_id"@,
        "tool_name"@ != "type"@,
        "tool_use_id"@ != "type"@,
        "content"@ != "is_error"@,
        "content"@ != "tool_use_id"@,
        "content"@ != "type"@,
        "is_error"@ != "tool_use_id"@,
        "is_error"@ != "type"@,
{
    reveal_strlit("text");
    reveal_strlit("type");
    reveal_strlit("thinking");
    reveal_strlit("signature");
    reveal_strlit("encrypted_content");
    reveal_strlit("tool_use");
    reveal_strlit("tool_result");
    reveal_strlit("tool_name");
    reveal_strlit("tool_use_id");
    reveal_strlit("arguments");
    reveal_strlit("content");
    reveal_strlit("is_error");
    assert("text"@.len() == 4);
    assert("type"@.len() == 4);
    assert("thinking"@.len() == 8);
    assert("signature"@.len() == 9);
    assert("encrypted_content"@.len() == 17);
    assert("tool_use"@.len() == 8);
    assert("tool_result"@.len() == 11);
    assert("tool_name"@.len() == 9);
    assert("tool_use_id"@.len() == 11);
    assert("arguments"@.len() == 9);
    assert("content"@.len() == 7);
    assert("is_error"@.len() == 8);
    assert("text"@[1] != "type"@[1]);
    assert("thinking"@[1] != "tool_use"@[1]);
    assert("arguments"@[0] != "tool_name"@[0]);
}

/// Reading the stored form of a block gives the block back.
pub proof fn law_block_round_trip(block: BlockView)
    ensures
        decoded_block(block_json(block)) == Some(block),
{
    lemma_block_names();
    let entries = block_json(block)->Object_0;
    match block {
        BlockView::Text { text } => {
            json::lemma_entry_at(entries, "text"@, 0, 0);
            json::lemma_entry_at(entries, "type"@, 0, 1);
        },
        BlockView::Thinking { thinking, signature, encrypted_content } => {
            let shift: int = if encrypted_content.len() == 0 {
                assert(encrypted_content =~= Seq::<char>::empty());
                json::lemma_no_entry(entries, "encrypted_content"@, 0);
                0
            } else {
                json::lemma_entry_at(entries, "encrypted_content"@, 0, 0);
                1
            };
            json::lemma_entry_at(entries, "signature"@, 0, shift);
            json::lemma_entry_at(entries, "thinking"@, 0, shift + 1);
            json::lemma_entry_at(entries, "type"@, 0, shift + 2);
        },
        BlockView::ToolUse { .. } => {
            json::lemma_entry_at(entries, "arguments"@, 0, 0);
            json::lemma_entry_at(entries, "tool_name"@, 0, 1);
            json::lemma_entry_at(entries, "tool_use_id"@, 0, 2);
            json::lemma_entry_at(entries, "type"@, 0, 3);
        },
        BlockView::ToolResult { .. } => {
            json::lemma_entry_at(entries, "content"@, 0, 0);
            json::lemma_entry_at(entries, "is_error"@, 0, 1);
            json::lemma_entry_at(entries, "tool_use_id"@, 0, 2);
            json::lemma_entry_at(entries, "type"@, 0, 3);
        },
    }
}

/// Reading the stored form of a message gives the message back.
pub proof fn law_message_round_trip(message: MessageView)
    ensures
        decoded_message(message_json(message)) == Some(message),
{
    reveal_strlit("content");
    reveal_strlit("role");
    reveal_strlit("timestamp_unix_seconds");
    reveal_strlit("user");
    reveal_strlit("assistant");
    reveal_strlit("system");
    assert("content"@.len() == 7);
    assert("role"@.len() == 4);
    assert("timestamp_unix_seconds"@.len() == 22);
    assert("user"@.len() == 4);
    assert("assistant"@.len() == 9);
    assert("system"@.len() == 6);
    let entries = message_json(message)->Object_0;
    json::lemma_entry_at(entries, "content"@, 0, 0);
    json::lemma_entry_at(entries, "role"@, 0, 1);
    json::lemma_entry_at(entries, "timestamp_unix_seconds"@, 0, 2);
    let items = block_jsons(message.content);
    assert forall|i: int| 0 <= i < items.len() implies decoded_block(#[trigger] items[i]) == Some(
        message.content[i],
    ) by {
        law_block_round_trip(message.content[i]);
    }
    assert(decoded_blocks(items)->0 =~= message.content);
}

/// Reading the stored forms of messages gives the messages back, in order.
pub proof fn lemma_messages_round_trip(messages: Seq<MessageView>)
    ensures
        decoded_messages(message_jsons(messages)) == Some(messages),
{
    let items = message_jsons(messages);
    assert forall|i: int| 0 <= i < items.len() implies decoded_message(#[trigger] items[i])
        == Some(messages[i]) by {
        law_message_round_trip(messages[i]);
    }
    assert(decoded_messages(items)->0 =~= messages);
}

/// A block is stored under names that differ, and read as its JSON value.
proof fn lemma_block_is_stored(block: BlockView)
    ensures
        stored::names_differ(block_fields(block)),
        stored::holds_same(block_fields(block), block_json(block)),
{
    lemma_block_names();
    reveal_with_fuel(stored::field_from, 5);
    reveal_with_fuel(stored::holds_same, 2);
    let fields = block_fields(block)->Record_0;
    let entries = block_json(block)->Object_0;
    assert forall|i: int| 0 <= i < fields.len() implies stored::names_differ(
        (#[trigger] fields[i]).1,
    ) by {}
    assert forall|i: int, j: int| 0 <= i < j < fields.len() implies (#[trigger] fields[i]).0 != (
    #[trigger] fields[j]).0 by {}
    assert forall|i: int| 0 <= i < entries.len() implies (match stored::field_from(
        fields,
        (#[trigger] entries[i]).0,
        0,
    ) {
        Some(value) => stored::holds_same(value, entries[i].1),
        None => false,
    }) by {}
}

/// A message is stored under names that differ, and read as its JSON value.
pub proof fn lemma_message_is_stored(message: MessageView)
    ensures
        stored::names_differ(message_fields(message)),
        stored::holds_same(message_fields(message), message_json(message)),
{
    reveal_strlit("content");
    reveal_strlit("role");
    reveal_strlit("timestamp_unix_seconds");
    assert("content"@.len() == 7 && "role"@.len() == 4 && "timestamp_unix_seconds"@.len() == 22);
    reveal_with_fuel(stored::field_from, 4);
    let items = blocks_fields(message.content);
    let values = block_jsons(message.content);
    assert forall|i: int| 0 <= i < values.len() implies stored::names_differ(items[i])
        && stored::holds_same(items[i], #[trigger] values[i]) by {
        lemma_block_is_stored(message.content[i]);
    }
    assert forall|i: int| 0 <= i < items.len() implies stored::names_differ(#[trigger] items[i]) by {
        assert(stored::holds_same(items[i], values[i]));
    }
    assert(stored::holds_same(StoredView::List(items), JsonView::Array(values)));
    assert(stored::names_differ(StoredView::List(items)));
    let fields = message_fields(message)->Record_0;
    let entries = message_json(message)->Object_0;
    assert forall|i: int| 0 <= i < fields.len() implies stored::names_differ(
        (#[trigger] fields[i]).1,
    ) by {}
    assert forall|i: int| 0 <= i < entries.len() implies (match stored::field_from(
        fields,
        (#[trigger] entries[i]).0,
        0,
    ) {
        Some(value) => stored::holds_same(value, entries[i].1),
        None => false,
    }) by {}
}

/// Messages are stored under names that differ, and read as their JSON values.
pub proof fn lemma_messages_are_stored(messages: Seq<MessageView>)
    ensures
        stored::names_differ(StoredView::List(messages_fields(messages))),
        stored::holds_same(
            StoredView::List(messages_fields(messages)),
            JsonView::Array(message_jsons(messages)),
        ),
{
    let items = messages_fields(messages);
    let values = message_jsons(messages);
    assert forall|i: int| 0 <= i < items.len() implies stored::names_differ(#[trigger] items[i]) by {
        lemma_message_is_stored(messages[i]);
    }
    assert forall|i: int| 0 <= i < values.len() implies stored::holds_same(
        items[i],
        #[trigger] values[i],
    ) by {
        lemma_message_is_stored(messages[i]);
    }
}

/// A conversation is stored under names that differ.
proof fn lemma_conversation_is_stored(messages: Seq<MessageView>)
    ensures
        stored::names_differ(conversation_fields(messages)),
{
    lemma_messages_are_stored(messages);
    let fields = conversation_fields(messages)->Record_0;
    assert(stored::names_differ(fields[0].1));
}

/// The names of the members of stored blocks and messages stand in ascending order.
proof fn lemma_names_ascend()
    ensures
        text::precedes("text"@, "type"@),
        text::precedes("encrypted_content"@, "signature"@),
        text::precedes("encrypted_content"@, "thinking"@),
        text::precedes("encrypted_content"@, "type"@),
        text::precedes("signature"@, "thinking"@),
        text::precedes("signature"@, "type"@),
        text::precedes("thinking"@, "type"@),
        text::precedes("arguments"@, "tool_name"@),
        text::precedes("arguments"@, "tool_use_id"@),
        text::precedes("arguments"@, "type"@),
        text::precedes("tool_name"@, "tool_use_id"@),
        text::precedes("tool_name"@, "type"@),
        text::precedes("tool_use_id"@, "type"@),
        text::precedes("content"@, "is_error"@),
        text::precedes("content"@, "tool_use_id"@),
        text::precedes("content"@, "type"@),
        text::precedes("is_error"@, "tool_use_id"@),
        text::precedes("is_error"@, "type"@),
        text::precedes("content"@, "role"@),
        text::precedes("content"@, "timestamp_unix_seconds"@),
        text::precedes("role"@, "timestamp_unix_seconds"@),
{
    reveal_strlit("text");
    reveal_strlit("type");
    reveal_strlit("thinking");
    reveal_strlit("signature");
    reveal_strlit("encrypted_content");
    reveal_strlit("tool_name");
    reveal_strlit("tool_use_id");
    reveal_strlit("arguments");
    reveal_strlit("content");
    reveal_strlit("is_error");
    reveal_strlit("role");
    reveal_strlit("timestamp_unix_seconds");
    text::lemma_precedes("text"@, "type"@, 1);
    text::lemma_precedes("encrypted_content"@, "signature"@, 0);
    text::lemma_precedes("encrypted_content"@, "thinking"@, 0);
    text::lemma_precedes("encrypted_content"@, "type"@, 0);
    text::lemma_precedes("signature"@, "thinking"@, 0);
    text::lemma_precedes("signature"@, "type"@, 0);
    text::lemma_precedes("thinking"@, "type"@, 1);
    text::lemma_precedes("arguments"@, "tool_name"@, 0);
    text::lemma_precedes("arguments"@, "tool_use_id"@, 0);
    text::lemma_precedes("arguments"@, "type"@, 0);
    text::lemma_precedes("tool_name"@, "tool_use_id"@, 5);
    text::lemma_precedes("tool_name"@, "type"@, 1);
    text::lemma_precedes("tool_use_id"@, "type"@, 1);
    text::lemma_precedes("content"@, "is_error"@, 0);
    text::lemma_precedes("content"@, "tool_use_id"@, 0);
    text::lemma_precedes("content"@, "type"@, 0);
    text::lemma_precedes("is_error"@, "tool_use_id"@, 0);
    text::lemma_precedes("is_error"@, "type"@, 0);
    text::lemma_precedes("content"@, "role"@, 0);
    text::lemma_precedes("content"@, "timestamp_unix_seconds"@, 0);
    text::lemma_precedes("role"@, "timestamp_unix_seconds"@, 0);
}

/// The stored form of a block is canonical, and one level deeper than the arguments
/// of a tool use in it.
proof fn lemma_block_readable(block: BlockView, allowance: nat)
    requires
        block matches BlockView::ToolUse { arguments, .. } ==> json::canonical(arguments)
            && json::depth(arguments) <= allowance,
    ensures
        json::canonical(block_json(block)),
        json::depth(block_json(block)) <= allowance + 1,
{
    lemma_names_ascend();
    let entries = block_json(block)->Object_0;
    assert forall|i: int| 0 <= i < entries.len() implies json::canonical((#[trigger] entries[i]).1)
        && json::depth(entries[i].1) <= allowance by {}
    json::lemma_deepest_entry(entries, allowance);
}

/// The stored form of a message is canonical, and three levels deeper than the
/// arguments of the tool uses in it.
pub proof fn lemma_message_readable(message: MessageView, allowance: nat)
    requires
        storable_blocks(message.content, allowance),
    ensures
        json::canonical(message_json(message)),
        json::depth(message_json(message)) <= allowance + 3,
{
    lemma_names_ascend();
    let items = block_jsons(message.content);
    assert forall|i: int| 0 <= i < items.len() implies json::canonical(#[trigger] items[i])
        && json::depth(items[i]) <= allowance + 1 by {
        lemma_block_readable(message.content[i], allowance);
    }
    json::lemma_deepest(items, allowance + 1);
    let entries = message_json(message)->Object_0;
    assert forall|i: int| 0 <= i < entries.len() implies json::canonical((#[trigger] entries[i]).1)
        && json::depth(entries[i].1) <= allowance + 2 by {}
    json::lemma_deepest_entry(entries, allowance + 2);
}

/// The array of the stored forms of messages is canonical, and four levels deeper
/// than the arguments of the tool uses in them.
pub proof fn lemma_messages_readable(messages: Seq<MessageView>, allowance: nat)
    requires
        storable_messages(messages, allowance),
    ensures
        json::canonical(JsonView::Array(message_jsons(messages))),
        json::depth(JsonView::Array(message_jsons(messages))) <= allowance + 4,
{
    let items = message_jsons(messages);
    assert forall|i: int| 0 <= i < items.len() implies json::canonical(#[trigger] items[i])
        && json::depth(items[i]) <= allowance + 3 by {
        lemma_message_readable(messages[i], allowance);
    }
    json::lemma_deepest(items, allowance + 3);
}

/// How deeply the arguments of a tool use may be nested for a conversation to be
/// read back from its text.
pub const CONVERSATION_ARGUMENT_DEPTH: usize = 122;

/// A block in four arrays is four levels deeper.
proof fn lemma_nested_depth(value: JsonView)
    ensures
        json::depth(stored::nested(value)) == json::depth(value) + 4,
        json::canonical(value) ==> json::canonical(stored::nested(value)),
{
    let one = seq![value];
    let two = seq![JsonView::Array(one)];
    let three = seq![JsonView::Array(two)];
    let four = seq![JsonView::Array(three)];
    assert forall|inner: JsonView| #[trigger] json::deepest(seq![inner]) == json::depth(inner) by {
        reveal_with_fuel(json::deepest, 2);
        assert(seq![inner].last() == inner);
        assert(seq![inner].drop_last() =~= Seq::<JsonView>::empty());
    }
    assert(json::deepest(one) == json::depth(value));
    assert(json::depth(JsonView::Array(one)) == json::depth(value) + 1);
    assert(json::deepest(two) == json::depth(JsonView::Array(one)));
    assert(json::depth(JsonView::Array(two)) == json::depth(value) + 2);
    assert(json::deepest(three) == json::depth(JsonView::Array(two)));
    assert(json::depth(JsonView::Array(three)) == json::depth(value) + 3);
    assert(json::deepest(four) == json::depth(JsonView::Array(three)));
    if json::canonical(value) {
        assert(json::canonical(JsonView::Array(one)));
        assert(json::canonical(JsonView::Array(two)));
        assert(json::canonical(JsonView::Array(three)));
        assert(json::canonical(JsonView::Array(four)));
    }
}

/// The text of a block that was written stands for the block in a conversation.
proof fn lemma_block_read_back(block: BlockView)
    requires
        stored::read_back(block_fields(block)),
        block matches BlockView::ToolUse { arguments, .. } ==> json::canonical(arguments)
            && json::depth(arguments) <= CONVERSATION_ARGUMENT_DEPTH,
    ensures
        parsed_block(stored::stored_text(block_fields(block))) == Some(block),
{
    let value = block_json(block);
    let written = stored::stored_text(block_fields(block));
    lemma_block_is_stored(block);
    lemma_block_readable(block, CONVERSATION_ARGUMENT_DEPTH as nat);
    lemma_nested_depth(value);
    assert(json::reads_as(stored::bracketed(written), stored::nested(value)));
    assert(innermost(stored::nested(value)) == Some(value));
    law_block_round_trip(block);
    lemma_block_names();
    let fields = block_fields(block)->Record_0;
    stored::lemma_raw_members(fields);
    let kind = json::as_text(json::record_field(value, 0, "type"@));
    let names = block_names(kind);
    stored::lemma_field_found(fields, 0);
    stored::lemma_field_found(fields, 1);
    lemma_block_kind(block);
    match block {
        BlockView::Text { .. } => {},
        BlockView::Thinking { encrypted_content, .. } => {
            stored::lemma_field_found(fields, 2);
            if encrypted_content.len() == 0 {
                stored::lemma_field_missing(fields, "encrypted_content"@);
            } else {
                stored::lemma_field_found(fields, 3);
            }
        },
        _ => {
            stored::lemma_field_found(fields, 2);
            stored::lemma_field_found(fields, 3);
        },
    }
    assert forall|i: int| 0 <= i < names.len() implies raw::named_once(
        stored::field_pairs(fields),
        #[trigger] names[i],
    ) by {}
}

/// The kind that a stored block names.
proof fn lemma_block_kind(block: BlockView)
    ensures
        json::as_text(json::record_field(block_json(block), 0, "type"@)) == Some(
            match block {
                BlockView::Text { .. } => "text"@,
                BlockView::Thinking { .. } => "thinking"@,
                BlockView::ToolUse { .. } => "tool_use"@,
                BlockView::ToolResult { .. } => "tool_result"@,
            },
        ),
{
    lemma_block_names();
    let entries = block_json(block)->Object_0;
    json::lemma_entry_at(entries, "type"@, 0, entries.len() - 1);
}

/// The text of a message that was written stands for the message in a conversation.
proof fn lemma_message_read_back(message: MessageView)
    requires
        stored::read_back(message_fields(message)),
        storable_blocks(message.content, CONVERSATION_ARGUMENT_DEPTH as nat),
    ensures
        parsed_message(stored::stored_text(message_fields(message))) == Some(message),
{
    reveal_strlit("user");
    reveal_strlit("assistant");
    reveal_strlit("system");
    assert("user"@.len() == 4 && "assistant"@.len() == 9 && "system"@.len() == 6);
    lemma_message_is_stored(message);
    let fields = message_fields(message)->Record_0;
    stored::lemma_raw_members(fields);
    stored::lemma_field_found(fields, 0);
    stored::lemma_field_found(fields, 1);
    stored::lemma_field_found(fields, 2);
    assert(stored::read_back(fields[0].1));
    assert(stored::read_back(fields[1].1));
    assert(stored::read_back(fields[2].1));
    stored::lemma_read_value(JsonView::Text(role_text(message.role)));
    stored::lemma_read_value(JsonView::Unsigned(message.timestamp_unix_seconds));
    let items = blocks_fields(message.content);
    let texts = stored::item_texts(items);
    stored::lemma_raw_items(items);
    stored::lemma_item_texts(items);
    assert forall|i: int| 0 <= i < texts.len() implies parsed_block(#[trigger] texts[i]) == Some(
        message.content[i],
    ) by {
        assert(stored::read_back(items[i]));
        lemma_block_read_back(message.content[i]);
    }
    assert(parsed_blocks(texts)->0 =~= message.content);
}

/// The text of a conversation that was written stands for the conversation, where the
/// arguments of its tool uses can be read back.
pub proof fn law_conversation_round_trip(messages: Seq<MessageView>)
    requires
        stored::read_back(conversation_fields(messages)),
        storable_messages(messages, CONVERSATION_ARGUMENT_DEPTH as nat),
    ensures
        parsed_conversation(stored::stored_text(conversation_fields(messages))) == Some(messages),
{
    lemma_conversation_is_stored(messages);
    let fields = conversation_fields(messages)->Record_0;
    stored::lemma_raw_members(fields);
    stored::lemma_field_found(fields, 0);
    assert(stored::read_back(fields[0].1));
    let items = messages_fields(messages);
    let texts = stored::item_texts(items);
    stored::lemma_raw_items(items);
    stored::lemma_item_texts(items);
    assert forall|i: int| 0 <= i < texts.len() implies parsed_message(#[trigger] texts[i]) == Some(
        messages[i],
    ) by {
        assert(stored::read_back(items[i]));
        lemma_message_read_back(messages[i]);
    }
    assert(parsed_messages(texts)->0 =~= messages);
}

impl Conversation {
    /// The conversation as JSON text. It always succeeds, and reading the text gives
    /// the conversation back wherever the arguments of its tool uses can be read back.
    pub fn to_json(&self) -> (written: Result<String, ConversationError>)
        ensures
            written is Ok,
            written->Ok_0@ == stored::stored_text(conversation_fields(self@)),
            storable_messages(self@, CONVERSATION_ARGUMENT_DEPTH as nat) ==> parsed_conversation(
                written->Ok_0@,
            ) == Some(self@),
    {
        let stored = Fields::new().with(
            "messages",
            stored_messages(self.messages.as_slice()),
        ).record();
        assert(stored@->Record_0 =~= conversation_fields(self@)->Record_0);
        proof {
            lemma_conversation_is_stored(self@);
        }
        let written = stored.to_text();
        proof {
            if storable_messages(self@, CONVERSATION_ARGUMENT_DEPTH as nat) {
                law_conversation_round_trip(self@);
            }
        }
        Ok(written)
    }

    /// The conversation that a JSON text stands for. It fails where the text is no
    /// JSON or has another shape, or where a member that matters occurs twice; members of
    /// other names are passed over.
    pub fn from_json(json: &str) -> (conversation: Result<Self, ConversationError>)
        ensures
            match conversation {
                Ok(conversation) => parsed_conversation(json@) == Some(conversation@),
                Err(error) => parsed_conversation(json@) is None && error
                    == ConversationError::Deserialization,
            },
    {
        let mut names: Vec<String> = Vec::new();
        names.push(text::copy_text("messages"));
        assert(text::texts(names@) =~= seq!["messages"@]);
        let fields = match raw::fields_of(json, &names) {
            Some(fields) => fields,
            None => {
                return Err(ConversationError::Deserialization);
            },
        };
        assert(fields@.len() == raw::optional_texts(fields@).len());
        assert(raw::optional_texts(fields@)[0] == text::optional_text(fields@[0]));
        let items = match &fields[0] {
            Some(messages) => raw::items_of(messages.as_str()),
            None => None,
        };
        match items {
            Some(items) => match read_messages(&items) {
                Some(messages) => Ok(Conversation { messages }),
                None => Err(ConversationError::Deserialization),
            },
            None => Err(ConversationError::Deserialization),
        }
    }
}

impl ConversationError {
    /// What went wrong, for a reader.
    pub fn message(&self) -> (text: String)
        ensures
            text@ == (match self {
                ConversationError::Serialization => "conversation could not be serialized"@,
                ConversationError::Deserialization => "conversation JSON was invalid"@,
            }),
    {
        match self {
            ConversationError::Serialization => text::copy_text(
                "conversation could not be serialized",
            ),
            ConversationError::Deserialization => text::copy_text("conversation JSON was invalid"),
        }
    }
}

/// A message is stored by names: its role, its blocks and its time, in this order, and each
/// block by its kind and the names of all that it holds.
pub proof fn law_messages_are_stored_by_name(message: MessageView, index: int)
    ensures
        ({
            let fields = message_fields(message)->Record_0;
            let blocks = fields[1].1->List_0;
            &&& fields.len() == 3
            &&& fields[0] == (
                "role"@,
                StoredView::Value(
                    JsonView::Text(
                        match message.role {
                            MessageRole::User => "user"@,
                            MessageRole::Assistant => "assistant"@,
                            MessageRole::System => "system"@,
                        },
                    ),
                ),
            )
            &&& fields[1].0 == "content"@ && fields[1].1 is List
            &&& fields[2] == (
                "timestamp_unix_seconds"@,
                StoredView::Value(JsonView::Unsigned(message.timestamp_unix_seconds)),
            )
            &&& blocks.len() == message.content.len()
            &&& 0 <= index < blocks.len() ==> blocks[index] is Record && {
                let held = blocks[index]->Record_0;
                &&& held.len() > 0 && held[0].0 == "type"@
                &&& match message.content[index] {
                    BlockView::Text { text } => {
                        &&& held.len() == 2
                        &&& held[0].1 == StoredView::Value(JsonView::Text("text"@))
                        &&& held[1] == ("text"@, StoredView::Value(JsonView::Text(text)))
                    },
                    BlockView::Thinking { thinking, signature, encrypted_content } => {
                        &&& held[0].1 == StoredView::Value(JsonView::Text("thinking"@))
                        &&& held[1] == ("thinking"@, StoredView::Value(JsonView::Text(thinking)))
                        &&& held[2] == ("signature"@, StoredView::Value(JsonView::Text(signature)))
                        &&& encrypted_content.len() == 0 ==> held.len() == 3
                        &&& encrypted_content.len() > 0 ==> held.len() == 4 && held[3] == (
                            "encrypted_content"@,
                            StoredView::Value(JsonView::Text(encrypted_content)),
                        )
                    },
                    BlockView::ToolUse { tool_use_id, tool_name, arguments } => {
                        &&& held.len() == 4
                        &&& held[0].1 == StoredView::Value(JsonView::Text("tool_use"@))
                        &&& held[1] == (
                            "tool_use_id"@,
                            StoredView::Value(JsonView::Text(tool_use_id)),
                        )
                        &&& held[2] == ("tool_name"@, StoredView::Value(JsonView::Text(tool_name)))
                        &&& held[3] == ("arguments"@, StoredView::Value(arguments))
                    },
                    BlockView::ToolResult { tool_use_id, content, is_error } => {
                        &&& held.len() == 4
                        &&& held[0].1 == StoredView::Value(JsonView::Text("tool_result"@))
                        &&& held[1] == (
                            "tool_use_id"@,
                            StoredView::Value(JsonView::Text(tool_use_id)),
                        )
                        &&& held[2] == ("content"@, StoredView::Value(JsonView::Text(content)))
                        &&& held[3] == ("is_error"@, StoredView::Value(JsonView::Bool(is_error)))
                    },
                }
            }
        }),
{
}

/// The first text of the user is the first text block of the first message of the user, if
/// there is such a message and it has one.
pub proof fn law_first_user_text(messages: Seq<MessageView>, index: int, at: int)
    ensures
        0 <= index < messages.len() && messages[index].role == MessageRole::User && (forall|i: int|
            0 <= i < index ==> (#[trigger] messages[i]).role != MessageRole::User) ==> {
            let content = messages[index].content;
            &&& 0 <= at < content.len() && content[at] is Text && (forall|j: int|
                0 <= j < at ==> !((#[trigger] content[j]) is Text)) ==> first_user_text_of(messages)
                == Some(content[at]->Text_text)
            &&& (forall|j: int| 0 <= j < content.len() ==> !((#[trigger] content[j]) is Text))
                ==> first_user_text_of(messages) is None
        },
        (forall|i: int|
            0 <= i < messages.len() ==> (#[trigger] messages[i]).role != MessageRole::User)
            ==> first_user_text_of(messages) is None,
{
    if 0 <= index < messages.len() && messages[index].role == MessageRole::User && (forall|i: int|
        0 <= i < index ==> (#[trigger] messages[i]).role != MessageRole::User) {
        lemma_first_user(messages, 0, index);
        let content = messages[index].content;
        if 0 <= at < content.len() && content[at] is Text && (forall|j: int|
            0 <= j < at ==> !((#[trigger] content[j]) is Text)) {
            lemma_first_text(content, 0, at);
        }
        if forall|j: int| 0 <= j < content.len() ==> !((#[trigger] content[j]) is Text) {
            lemma_no_text(content, 0);
        }
    }
    if forall|i: int|
        0 <= i < messages.len() ==> (#[trigger] messages[i]).role != MessageRole::User {
        lemma_no_user(messages, 0);
    }
}

proof fn lemma_first_user(messages: Seq<MessageView>, from: int, index: int)
    requires
        0 <= from <= index < messages.len(),
        messages[index].role == MessageRole::User,
        forall|i: int| from <= i < index ==> (#[trigger] messages[i]).role != MessageRole::User,
    ensures
        user_message_from(messages, from) == index,
    decreases index - from,
{
    if from < index {
        assert(messages[from].role != MessageRole::User);
        lemma_first_user(messages, from + 1, index);
    }
}

proof fn lemma_no_user(messages: Seq<MessageView>, from: int)
    requires
        0 <= from <= messages.len(),
        forall|i: int|
            0 <= i < messages.len() ==> (#[trigger] messages[i]).role != MessageRole::User,
    ensures
        user_message_from(messages, from) == messages.len(),
    decreases messages.len() - from,
{
    if from < messages.len() {
        assert(messages[from].role != MessageRole::User);
        lemma_no_user(messages, from + 1);
    }
}

proof fn lemma_first_text(content: Seq<BlockView>, from: int, at: int)
    requires
        0 <= from <= at < content.len(),
        content[at] is Text,
        forall|j: int| from <= j < at ==> !((#[trigger] content[j]) is Text),
    ensures
        first_text_from(content, from) == Some(content[at]->Text_text),
    decreases at - from,
{
    if from < at {
        assert(!(content[from] is Text));
        lemma_first_text(content, from + 1, at);
    }
}

proof fn lemma_no_text(content: Seq<BlockView>, from: int)
    requires
        0 <= from <= content.len(),
        forall|j: int| 0 <= j < content.len() ==> !((#[trigger] content[j]) is Text),
    ensures
        first_text_from(content, from) is None,
    decreases content.len() - from,
{
    if from < content.len() {
        assert(!(content[from] is Text));
        lemma_no_text(content, from + 1);
    }
}

/// Roles are known by their names, and no other name is a role.
pub proof fn law_roles_have_names(name: Seq<char>)
    ensures
        decoded_role(JsonView::Text("user"@)) == Some(MessageRole::User),
        decoded_role(JsonView::Text("assistant"@)) == Some(MessageRole::Assistant),
        decoded_role(JsonView::Text("system"@)) == Some(MessageRole::System),
        name != "user"@ && name != "assistant"@ && name != "system"@ ==> decoded_role(
            JsonView::Text(name),
        ) is None,
        decoded_role(JsonView::Object(seq![(name, JsonView::Null)])) == decoded_role(
            JsonView::Text(name),
        ),
{
    reveal_strlit("user");
    reveal_strlit("assistant");
    reveal_strlit("system");
    assert("user"@.len() == 4 && "assistant"@.len() == 9 && "system"@.len() == 6);
}

} // verus!
