//! The history of prompts.
use vstd::prelude::*;

use crate::json::{Json, JsonView};
use crate::json;
use crate::raw;
use crate::stored;
use crate::stored::{Fields, Stored, StoredView};
use crate::text;
use crate::workspace::WorkspacePaths;
use crate::workspace;

verus! {

/// How many prompts are kept.
pub const MAX_HISTORY_ENTRIES: usize = 200;

/// Why the history could not be read or written.
#[derive(Debug, Clone, Copy, PartialEq, Eq, Structural)]
pub enum HistoryError {
    CreateDirectory,
    Read,
    Write,
    Serialize,
}

impl HistoryError {
    /// What the error says to a reader.
    pub fn message(&self) -> (result: String)
        ensures
            result@ == (match self {
                HistoryError::CreateDirectory => "failed to create the prompt history directory"@,
                HistoryError::Read => "failed to read prompt history"@,
                HistoryError::Write => "failed to write prompt history"@,
                HistoryError::Serialize => "failed to serialize prompt history"@,
            }),
    {
        match self {
            HistoryError::CreateDirectory => text::copy_text(
                "failed to create the prompt history directory",
            ),
            HistoryError::Read => text::copy_text("failed to read prompt history"),
            HistoryError::Write => text::copy_text("failed to write prompt history"),
            HistoryError::Serialize => text::copy_text("failed to serialize prompt history"),
        }
    }
}

/// The names of the fields of a stored prompt.
pub open spec fn history_names() -> Seq<Seq<char>> {
    seq!["text"@, "timestamp_unix_seconds"@]
}

/// A prompt as it is stored.
pub open spec fn history_fields(prompt: Seq<char>, now: u64) -> StoredView {
    StoredView::Record(
        seq![
            ("text"@, StoredView::Value(JsonView::Text(prompt))),
            ("timestamp_unix_seconds"@, StoredView::Value(JsonView::Unsigned(now))),
        ],
    )
}

/// The prompt that the fields of a line stand for, where both are there.
pub open spec fn prompt_in(prompt: Option<JsonView>, timestamp: Option<JsonView>) -> Option<
    Seq<char>,
> {
    match (json::as_text(prompt), json::as_unsigned(timestamp)) {
        (Some(prompt), Some(_)) => Some(prompt),
        _ => None,
    }
}

/// The prompt that a line stands for.
pub open spec fn line_prompt(line: Seq<char>) -> Option<Seq<char>> {
    match raw::raw_fields(line, history_names()) {
        Some(fields) => prompt_in(raw::optional_value(fields[0]), raw::optional_value(fields[1])),
        None => None,
    }
}

/// `prompts` with one more, unless it is empty or there already.
pub open spec fn with_prompt(prompts: Seq<Seq<char>>, prompt: Seq<char>) -> Seq<Seq<char>> {
    if prompt.len() > 0 && !prompts.contains(prompt) {
        prompts.push(prompt)
    } else {
        prompts
    }
}

/// The prompts that lines stand for, each once. Lines that stand for none are passed
/// over.
pub open spec fn prompts_in(lines: Seq<Seq<char>>) -> Seq<Seq<char>>
    decreases lines.len(),
{
    if lines.len() == 0 {
        Seq::empty()
    } else {
        let before = prompts_in(lines.drop_last());
        if text::is_blank(lines.last()) {
            before
        } else {
            match line_prompt(lines.last()) {
                Some(prompt) => with_prompt(before, prompt),
                None => before,
            }
        }
    }
}

/// The prompts without empty ones and without repetitions.
pub open spec fn without_repeats(prompts: Seq<Seq<char>>) -> Seq<Seq<char>>
    decreases prompts.len(),
{
    if prompts.len() == 0 {
        Seq::empty()
    } else {
        with_prompt(without_repeats(prompts.drop_last()), prompts.last())
    }
}

/// Where the history of a workspace is kept, and how much of it.
#[derive(Debug, Clone, PartialEq, Eq)]
pub struct PromptHistory {
    path: String,
    max_entries: usize,
}

/// What a [`PromptHistory`] holds.
#[verifier::ext_equal]
pub struct HistoryView {
    pub path: Seq<char>,
    pub max_entries: int,
}

impl View for PromptHistory {
    type V = HistoryView;

    closed spec fn view(&self) -> HistoryView {
        HistoryView { path: self.path@, max_entries: self.max_entries as int }
    }
}

/// The last `limit` of `prompts`.
pub open spec fn newest(prompts: Seq<Seq<char>>, limit: int) -> Seq<Seq<char>> {
    if prompts.len() > limit {
        prompts.skip(prompts.len() - limit)
    } else {
        prompts
    }
}

/// The prompts that are kept once `prompt` was given, or `None` where nothing changes:
/// the prompt is blank, or is the last one.
pub open spec fn kept_after(prompts: Seq<Seq<char>>, prompt: Seq<char>, limit: int) -> Option<
    Seq<Seq<char>>,
> {
    let trimmed = text::trimmed(prompt);
    if trimmed.len() == 0 || (prompts.len() > 0 && prompts.last() == trimmed) {
        None
    } else {
        Some(newest(prompts.push(trimmed), limit))
    }
}

/// The text of a history file for `prompts`.
pub open spec fn history_text(prompts: Seq<Seq<char>>, now: u64) -> Seq<char>
    decreases prompts.len(),
{
    if prompts.len() == 0 {
        Seq::empty()
    } else {
        history_text(prompts.drop_last(), now) + stored::stored_text(
            history_fields(prompts.last(), now),
        ).push('\n')
    }
}

/// The prompts that the text of a history file stands for; none where there is no file.
pub open spec fn prompts_of(contents: Option<Seq<char>>) -> Seq<Seq<char>> {
    match contents {
        Some(contents) => prompts_in(text::line_texts(contents)),
        None => Seq::empty(),
    }
}

/// Whether `prompts` contains `prompt`.
fn holds_prompt(prompts: &Vec<String>, prompt: &str) -> (result: bool)
    ensures
        result == text::texts(prompts@).contains(prompt@),
{
    let mut i: usize = 0;
    while i < prompts.len()
        invariant
            i <= prompts@.len(),
            forall|j: int| 0 <= j < i ==> (#[trigger] text::texts(prompts@)[j]) != prompt@,
        decreases prompts@.len() - i,
    {
        if text::same_text(prompts[i].as_str(), prompt) {
            assert(text::texts(prompts@)[i as int] == prompt@);
            return true;
        }
        i += 1;
    }
    false
}

/// The prompt that the fields of a line stand for.
pub fn interpret_history_line(prompt: Option<Json>, timestamp: Option<Json>) -> (result: Option<
    String,
>)
    ensures
        text::optional_text(result) == prompt_in(
            json::owned_view(prompt),
            json::owned_view(timestamp),
        ),
{
    match (prompt, timestamp) {
        (Some(Json::Text(prompt)), Some(Json::Unsigned(_))) => Some(prompt),
        _ => None,
    }
}

/// The prompt that a line stands for.
fn read_line(line: &str) -> (prompt: Option<String>)
    ensures
        text::optional_text(prompt) == line_prompt(line@),
{
    let mut names: Vec<String> = Vec::new();
    names.push(text::copy_text("text"));
    names.push(text::copy_text("timestamp_unix_seconds"));
    assert(text::texts(names@) =~= history_names());
    match raw::fields_of(line, &names) {
        Some(fields) => {
            assert(fields@.len() == raw::optional_texts(fields@).len());
            assert(raw::optional_texts(fields@)[0] == text::optional_text(fields@[0]));
            assert(raw::optional_texts(fields@)[1] == text::optional_text(fields@[1]));
            interpret_history_line(raw::read_optional(&fields[0]), raw::read_optional(&fields[1]))
        },
        None => None,
    }
}

/// A prompt is stored under names that differ.
proof fn lemma_prompt_is_stored(prompt: Seq<char>, now: u64)
    ensures
        stored::names_differ(history_fields(prompt, now)),
{
    reveal_strlit("text");
    reveal_strlit("timestamp_unix_seconds");
    assert("text"@.len() != "timestamp_unix_seconds"@.len());
    let fields = history_fields(prompt, now)->Record_0;
    assert forall|i: int| 0 <= i < fields.len() implies stored::names_differ(
        (#[trigger] fields[i]).1,
    ) by {}
}

/// The line of a prompt that was written stands for the prompt.
pub proof fn law_prompt_round_trip(prompt: Seq<char>, now: u64)
    requires
        stored::read_back(history_fields(prompt, now)),
    ensures
        line_prompt(stored::stored_text(history_fields(prompt, now))) == Some(prompt),
{
    lemma_prompt_is_stored(prompt, now);
    let fields = history_fields(prompt, now)->Record_0;
    stored::lemma_raw_members(fields);
    stored::lemma_field_found(fields, 0);
    stored::lemma_field_found(fields, 1);
    stored::lemma_read_value(JsonView::Text(prompt));
    stored::lemma_read_value(JsonView::Unsigned(now));
    assert(stored::read_back(fields[0].1));
    assert(stored::read_back(fields[1].1));
}

/// No prompt is empty, and none occurs twice.
pub proof fn law_prompts_are_distinct(lines: Seq<Seq<char>>)
    ensures
        prompts_in(lines).no_duplicates(),
        forall|i: int| 0 <= i < prompts_in(lines).len() ==> (#[trigger] prompts_in(lines)[i]).len()
            > 0,
    decreases lines.len(),
{
    if lines.len() > 0 {
        law_prompts_are_distinct(lines.drop_last());
    }
}

impl PromptHistory {
    /// The history of a workspace.
    pub fn new(work_dir: String) -> (history: Self)
        ensures
            history@ == (HistoryView {
                path: workspace::path_below(work_dir@, ".mycode/prompt_history.jsonl"@),
                max_entries: MAX_HISTORY_ENTRIES as int,
            }),
    {
        PromptHistory::with_limit(work_dir, MAX_HISTORY_ENTRIES)
    }

    /// The history of a workspace, of which at most `max_entries` prompts are kept, and
    /// at least one.
    pub fn with_limit(work_dir: String, max_entries: usize) -> (history: Self)
        ensures
            history@ == (HistoryView {
                path: workspace::path_below(work_dir@, ".mycode/prompt_history.jsonl"@),
                max_entries: if max_entries == 0 {
                    1
                } else {
                    max_entries as int
                },
            }),
    {
        PromptHistory {
            path: WorkspacePaths::new(work_dir).prompt_history_file(),
            max_entries: if max_entries == 0 {
                1
            } else {
                max_entries
            },
        }
    }

    /// The prompts in the file, each once. `contents` is what the file holds, and `None`
    /// where there is no file.
    pub fn load(&self, contents: &Option<String>) -> (prompts: Vec<String>)
        ensures
            text::texts(prompts@) == prompts_of(text::optional_text(*contents)),
    {
        let mut prompts: Vec<String> = Vec::new();
        assert(text::texts(prompts@) =~= Seq::<Seq<char>>::empty());
        let contents = match contents {
            Some(contents) => contents,
            None => {
                return prompts;
            },
        };
        let lines = text::lines(contents.as_str());
        let ghost all = text::texts(lines@);
        let mut i: usize = 0;
        while i < lines.len()
            invariant
                i <= lines@.len(),
                all == text::texts(lines@),
                text::texts(prompts@) == prompts_in(all.take(i as int)),
            decreases lines@.len() - i,
        {
            assert(all.take(i + 1).drop_last() =~= all.take(i as int));
            assert(all.take(i + 1).last() == lines@[i as int]@);
            if !text::blank(lines[i].as_str()) {
                if let Some(prompt) = read_line(lines[i].as_str()) {
                    if !prompt.as_str().is_empty() && !holds_prompt(&prompts, prompt.as_str()) {
                        let ghost before = text::texts(prompts@);
                        prompts.push(prompt);
                        assert(text::texts(prompts@) =~= before.push(prompt@));
                    }
                }
            }
            i += 1;
        }
        assert(all.take(i as int) =~= all);
        prompts
    }

    /// What the file holds after `prompt` was given, or `None` where it is not written:
    /// the prompt is blank, or is the last one. `contents` is what the file holds before,
    /// `now` the time in seconds. What is written is read back, each prompt once.
    pub fn append(&self, contents: &Option<String>, prompt: &str, now: u64) -> (written: Option<
        String,
    >)
        ensures
            match kept_after(
                prompts_of(text::optional_text(*contents)),
                prompt@,
                self@.max_entries,
            ) {
                None => written is None,
                Some(kept) => written is Some && written->0@ == history_text(kept, now)
                    && prompts_of(Some(written->0@)) == without_repeats(kept),
            },
    {
        let trimmed = text::trim(prompt);
        if trimmed.as_str().is_empty() {
            return None;
        }
        let mut prompts = self.load(contents);
        let ghost before = text::texts(prompts@);
        if prompts.len() > 0 {
            let last = prompts.len() - 1;
            assert(before.last() == prompts@[last as int]@);
            if text::same_text(prompts[last].as_str(), trimmed.as_str()) {
                return None;
            }
        }
        prompts.push(trimmed);
        let ghost all = before.push(text::trimmed(prompt@));
        assert(text::texts(prompts@) =~= all);
        let mut start: usize = 0;
        if prompts.len() > self.max_entries {
            start = prompts.len() - self.max_entries;
        }
        let ghost kept = newest(all, self@.max_entries);
        assert(kept =~= all.skip(start as int));
        let mut written = String::new();
        let mut i: usize = start;
        assert(kept.take(0) =~= Seq::<Seq<char>>::empty());
        assert(written@ =~= history_text(kept.take(0), now));
        assert(text::line_texts(written@) =~= Seq::<Seq<char>>::empty());
        while i < prompts.len()
            invariant
                start <= i <= prompts@.len(),
                text::texts(prompts@) == all,
                kept == all.skip(start as int),
                written@ == history_text(kept.take(i - start), now),
                text::complete_lines(written@),
                prompts_in(text::line_texts(written@)) == without_repeats(kept.take(i - start)),
            decreases prompts@.len() - i,
        {
            assert(kept.take(i + 1 - start).drop_last() =~= kept.take(i - start));
            assert(kept.take(i + 1 - start).last() == prompts@[i as int]@);
            let value = Fields::new().with("text", stored::stored_str(prompts[i].as_str())).with(
                "timestamp_unix_seconds",
                Stored::Value(Json::Unsigned(now)),
            ).record();
            assert(value@->Record_0 =~= history_fields(prompts@[i as int]@, now)->Record_0);
            proof {
                lemma_prompt_is_stored(prompts@[i as int]@, now);
            }
            let line = value.to_text();
            proof {
                law_prompt_round_trip(prompts@[i as int]@, now);
                text::lemma_added_line(written@, line@, 0);
                let lines = text::line_texts(written@);
                assert(lines.push(line@).drop_last() =~= lines);
            }
            let ghost so_far = written@;
            written.append(line.as_str());
            written.push('\n');
            assert(written@ =~= so_far + line@.push('\n'));
            i += 1;
        }
        assert(kept.take(i - start) =~= kept);
        Some(written)
    }

    pub fn path(&self) -> (path: &str)
        ensures
            path@ == self@.path,
    {
        self.path.as_str()
    }
}

/// A prompt is kept last, without white space around it, after the prompts before it, of which
/// those that are oldest give way to the limit. Only a prompt that says nothing, or that repeats
/// the last one, is not kept.
pub proof fn law_prompt_is_kept_last(prompts: Seq<Seq<char>>, prompt: Seq<char>, limit: int)
    requires
        limit > 0,
    ensures
        ({
            let kept = kept_after(prompts, prompt, limit);
            let trimmed = text::trimmed(prompt);
            &&& kept is None <==> trimmed.len() == 0 || (prompts.len() > 0 && prompts.last()
                == trimmed)
            &&& kept is Some ==> {
                let after = kept->0;
                &&& after.len() > 0 && after.last() == trimmed
                &&& after.len() <= limit
                &&& after.len() == limit || after.len() == prompts.len() + 1
                &&& forall|i: int|
                    0 <= i < after.len() - 1 ==> (#[trigger] after[i]) == prompts[prompts.len() + 1
                        - after.len() + i]
            }
        }),
{
}

/// Every prompt of the history is listed, unless it says nothing, and nothing else is.
pub proof fn law_every_prompt_is_listed(lines: Seq<Seq<char>>, prompt: Seq<char>)
    ensures
        prompts_in(lines).contains(prompt) <==> prompt.len() > 0 && exists|i: int|
            0 <= i < lines.len() && !text::is_blank(#[trigger] lines[i]) && line_prompt(lines[i])
                == Some(prompt),
    decreases lines.len(),
{
    if lines.len() > 0 {
        let fewer = lines.drop_last();
        law_every_prompt_is_listed(fewer, prompt);
        let before = prompts_in(fewer);
        let after = prompts_in(lines);
        assert(lines.last() == lines[lines.len() - 1]);
        if before.contains(prompt) {
            let k = choose|k: int| 0 <= k < before.len() && before[k] == prompt;
            assert(after[k] == prompt);
            let i = choose|i: int|
                0 <= i < fewer.len() && !text::is_blank(#[trigger] fewer[i]) && line_prompt(
                    fewer[i],
                ) == Some(prompt);
            assert(lines[i] == fewer[i]);
        }
        if after.contains(prompt) && !before.contains(prompt) {
            let k = choose|k: int| 0 <= k < after.len() && after[k] == prompt;
            if k < before.len() {
                assert(before[k] == prompt);
            }
            assert(after == before.push(prompt));
        }
        if prompt.len() > 0 && exists|i: int|
            0 <= i < lines.len() && !text::is_blank(#[trigger] lines[i]) && line_prompt(lines[i])
                == Some(prompt) {
            let i = choose|i: int|
                0 <= i < lines.len() && !text::is_blank(#[trigger] lines[i]) && line_prompt(
                    lines[i],
                ) == Some(prompt);
            if i < fewer.len() {
                assert(fewer[i] == lines[i]);
            } else if !before.contains(prompt) {
                assert(after == before.push(prompt));
                assert(after[before.len() as int] == prompt);
            }
        }
    }
}

/// A prompt counts only together with its time.
pub proof fn law_prompts_have_a_time(prompt: Seq<char>, time: u64, other: JsonView)
    ensures
        prompt_in(Some(JsonView::Text(prompt)), Some(JsonView::Unsigned(time))) == Some(prompt),
        prompt_in(Some(JsonView::Text(prompt)), None) is None,
        prompt_in(None, Some(JsonView::Unsigned(time))) is None,
        !(other is Text) ==> prompt_in(Some(other), Some(JsonView::Unsigned(time))) is None,
        !(other is Unsigned) ==> prompt_in(Some(JsonView::Text(prompt)), Some(other)) is None,
{
}

} // verus!
