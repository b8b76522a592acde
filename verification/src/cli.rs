//! What is asked on the command line, and what is answered.
use vstd::prelude::*;

use crate::agent_events::{AgentEvent, AgentEventView};
use crate::compaction::CompactionOutcome;
use crate::json;
use crate::json::{Json, JsonView, Members};
use crate::session::{SessionError, SessionId, SessionSummary, SummaryView};
use crate::session;
use crate::text;
use crate::workspace;

verus! {

/// How the program is used.
pub const USAGE: &'static str =
    "MyCode terminal coding agent\n\nUsage: mycode [OPTIONS]\n\nOptions:\n  -h, --help                    Print help\n  -V, --version                 Print version\n      --headless                Run one headless Agent turn\n      --config <path>           Use an explicit configuration file\n      --session <id|new>        Load a Session or create a new one\n      --permission-mode <mode>  Override the configured Permission mode\n      --compact                 Compact the Session instead of running a turn\n      --list-sessions           List Sessions as JSON lines\n      --search-sessions <text>  List matching Sessions as JSON lines\n";

/// What was asked for on the command line.
#[derive(Debug, PartialEq, Eq)]
pub struct Options {
    pub headless: bool,
    pub compact: bool,
    pub list_sessions: bool,
    pub search_sessions: Option<String>,
    pub config: Option<String>,
    pub session: Option<String>,
    pub permission_mode: Option<String>,
}

/// What [`Options`] hold.
#[verifier::ext_equal]
pub struct OptionsView {
    pub headless: bool,
    pub compact: bool,
    pub list_sessions: bool,
    pub search_sessions: Option<Seq<char>>,
    pub config: Option<Seq<char>>,
    pub session: Option<Seq<char>>,
    pub permission_mode: Option<Seq<char>>,
}

impl View for Options {
    type V = OptionsView;

    open spec fn view(&self) -> OptionsView {
        OptionsView {
            headless: self.headless,
            compact: self.compact,
            list_sessions: self.list_sessions,
            search_sessions: text::optional_text(self.search_sessions),
            config: text::optional_text(self.config),
            session: text::optional_text(self.session),
            permission_mode: text::optional_text(self.permission_mode),
        }
    }
}

/// Nothing was asked for.
pub open spec fn no_options() -> OptionsView {
    OptionsView {
        headless: false,
        compact: false,
        list_sessions: false,
        search_sessions: None,
        config: None,
        session: None,
        permission_mode: None,
    }
}

impl Default for Options {
    fn default() -> (options: Self)
        ensures
            options@ == no_options(),
    {
        Options {
            headless: false,
            compact: false,
            list_sessions: false,
            search_sessions: None,
            config: None,
            session: None,
            permission_mode: None,
        }
    }
}

/// Whether an argument stands before a value.
pub open spec fn takes_value(argument: Seq<char>) -> bool {
    argument == "--config"@ || argument == "--session"@ || argument == "--permission-mode"@
        || argument == "--search-sessions"@
}

/// The options with an argument that stands alone.
pub open spec fn with_flag(options: OptionsView, argument: Seq<char>) -> Option<OptionsView> {
    if argument == "--headless"@ {
        Some(OptionsView { headless: true, ..options })
    } else if argument == "--compact"@ {
        Some(OptionsView { compact: true, ..options })
    } else if argument == "--list-sessions"@ {
        Some(OptionsView { list_sessions: true, ..options })
    } else {
        None
    }
}

/// The options with an argument that stands before a value.
pub open spec fn with_argument(options: OptionsView, argument: Seq<char>, value: Seq<char>)
    -> OptionsView {
    if argument == "--config"@ {
        OptionsView { config: Some(value), ..options }
    } else if argument == "--session"@ {
        OptionsView { session: Some(value), ..options }
    } else if argument == "--permission-mode"@ {
        OptionsView { permission_mode: Some(value), ..options }
    } else {
        OptionsView { search_sessions: Some(value), ..options }
    }
}

/// What arguments from `from` on ask for, beside `options`. `Err` is what is said of the
/// first that is wrong.
pub open spec fn options_from(options: OptionsView, arguments: Seq<Seq<char>>, from: int) -> Result<
    OptionsView,
    Seq<char>,
>
    decreases arguments.len() - from,
{
    if from < 0 || from >= arguments.len() {
        Ok(options)
    } else if takes_value(arguments[from]) {
        if from + 1 >= arguments.len() {
            Err(arguments[from] + " requires a value"@)
        } else {
            options_from(
                with_argument(options, arguments[from], arguments[from + 1]),
                arguments,
                from + 2,
            )
        }
    } else {
        match with_flag(options, arguments[from]) {
            Some(options) => options_from(options, arguments, from + 1),
            None => Err("unknown argument "@ + text::quoted_text(arguments[from])),
        }
    }
}

/// The view of parsed options.
pub open spec fn parsed_view(parsed: Result<Options, String>) -> Result<OptionsView, Seq<char>> {
    match parsed {
        Ok(options) => Ok(options@),
        Err(message) => Err(message@),
    }
}

/// What the arguments ask for.
pub fn parse_arguments(arguments: &Vec<String>) -> (parsed: Result<Options, String>)
    ensures
        parsed_view(parsed) == options_from(no_options(), text::texts(arguments@), 0),
{
    let ghost all = text::texts(arguments@);
    let mut options = Options::default();
    let mut i: usize = 0;
    while i < arguments.len()
        invariant
            i <= arguments@.len(),
            all == text::texts(arguments@),
            options_from(options@, all, i as int) == options_from(no_options(), all, 0),
        decreases arguments@.len() - i,
    {
        let argument = arguments[i].as_str();
        assert(all[i as int] == argument@);
        if text::same_text(argument, "--headless") {
            options.headless = true;
        } else if text::same_text(argument, "--compact") {
            options.compact = true;
        } else if text::same_text(argument, "--list-sessions") {
            options.list_sessions = true;
        } else {
            let config = text::same_text(argument, "--config");
            let session = text::same_text(argument, "--session");
            let permission_mode = text::same_text(argument, "--permission-mode");
            let search_sessions = text::same_text(argument, "--search-sessions");
            if !config && !session && !permission_mode && !search_sessions {
                return Err(text::concat("unknown argument ", text::quoted(argument).as_str()));
            }
            if i + 1 >= arguments.len() {
                return Err(text::concat(argument, " requires a value"));
            }
            assert(all[i + 1] == arguments@[i + 1]@);
            let value = text::copy_text(arguments[i + 1].as_str());
            if config {
                options.config = Some(value);
            } else if session {
                options.session = Some(value);
            } else if permission_mode {
                options.permission_mode = Some(value);
            } else {
                options.search_sessions = Some(value);
            }
            i += 1;
        }
        proof {
            reveal_strlit("--headless");
            reveal_strlit("--compact");
            reveal_strlit("--list-sessions");
            reveal_strlit("--config");
            reveal_strlit("--session");
            reveal_strlit("--permission-mode");
            reveal_strlit("--search-sessions");
            assert("--headless"@.len() == 10 && "--compact"@.len() == 9 && "--list-sessions"@.len()
                == 15 && "--config"@.len() == 8 && "--session"@.len() == 9
                && "--permission-mode"@.len() == 17 && "--search-sessions"@.len() == 17);
            assert("--compact"@[2] != "--session"@[2]);
            assert("--permission-mode"@[2] != "--search-sessions"@[2]);
        }
        i += 1;
    }
    Ok(options)
}

/// Whether one of the arguments is `first` or `second`.
pub open spec fn any_argument(arguments: Seq<Seq<char>>, first: Seq<char>, second: Seq<char>)
    -> bool {
    exists|i: int|
        0 <= i < arguments.len() && ((#[trigger] arguments[i]) == first || arguments[i] == second)
}

fn has_argument(arguments: &Vec<String>, first: &str, second: &str) -> (result: bool)
    ensures
        result == any_argument(text::texts(arguments@), first@, second@),
{
    let ghost all = text::texts(arguments@);
    let mut i: usize = 0;
    while i < arguments.len()
        invariant
            i <= arguments@.len(),
            all == text::texts(arguments@),
            forall|j: int| 0 <= j < i ==> (#[trigger] all[j]) != first@ && all[j] != second@,
        decreases arguments@.len() - i,
    {
        assert(all[i as int] == arguments@[i as int]@);
        if text::same_text(arguments[i].as_str(), first) || text::same_text(
            arguments[i].as_str(),
            second,
        ) {
            return true;
        }
        i += 1;
    }
    false
}

/// What the program does.
#[derive(Debug, PartialEq, Eq)]
pub enum Command {
    Usage,
    Version,
    ListSessions,
    SearchSessions { query: String },
    Run { config: String, session: String, permission_mode: Option<String> },
    Compact { config: String, session: String, permission_mode: Option<String> },
}

/// What a [`Command`] holds.
#[verifier::ext_equal]
pub enum CommandView {
    Usage,
    Version,
    ListSessions,
    SearchSessions { query: Seq<char> },
    Run { config: Seq<char>, session: Seq<char>, permission_mode: Option<Seq<char>> },
    Compact { config: Seq<char>, session: Seq<char>, permission_mode: Option<Seq<char>> },
}

impl View for Command {
    type V = CommandView;

    open spec fn view(&self) -> CommandView {
        match *self {
            Command::Usage => CommandView::Usage,
            Command::Version => CommandView::Version,
            Command::ListSessions => CommandView::ListSessions,
            Command::SearchSessions { query } => CommandView::SearchSessions { query: query@ },
            Command::Run { config, session, permission_mode } => CommandView::Run {
                config: config@,
                session: session@,
                permission_mode: text::optional_text(permission_mode),
            },
            Command::Compact { config, session, permission_mode } => CommandView::Compact {
                config: config@,
                session: session@,
                permission_mode: text::optional_text(permission_mode),
            },
        }
    }
}

/// What the program does for options.
pub open spec fn option_command(options: OptionsView) -> Result<CommandView, Seq<char>> {
    if options.list_sessions {
        Ok(CommandView::ListSessions)
    } else if options.search_sessions is Some {
        Ok(CommandView::SearchSessions { query: options.search_sessions->0 })
    } else if !options.headless {
        Ok(CommandView::Usage)
    } else {
        match (options.config, options.session) {
            (None, _) => Err("--headless requires --config <path>"@),
            (Some(_), None) => Err("--headless requires --session <id|new>"@),
            (Some(config), Some(session)) => if options.compact {
                Ok(
                    CommandView::Compact {
                        config,
                        session,
                        permission_mode: options.permission_mode,
                    },
                )
            } else {
                Ok(CommandView::Run { config, session, permission_mode: options.permission_mode })
            },
        }
    }
}

/// What the program does for arguments: help and the version are told wherever they are
/// asked for, whatever else is said.
pub open spec fn command_of(arguments: Seq<Seq<char>>) -> Result<CommandView, Seq<char>> {
    if any_argument(arguments, "--help"@, "-h"@) {
        Ok(CommandView::Usage)
    } else if any_argument(arguments, "--version"@, "-V"@) {
        Ok(CommandView::Version)
    } else {
        match options_from(no_options(), arguments, 0) {
            Err(message) => Err(message),
            Ok(options) => option_command(options),
        }
    }
}

/// The view of a command.
pub open spec fn command_view(command: Result<Command, String>) -> Result<CommandView, Seq<char>> {
    match command {
        Ok(command) => Ok(command@),
        Err(message) => Err(message@),
    }
}

/// What the program does for arguments.
pub fn command_for(arguments: &Vec<String>) -> (command: Result<Command, String>)
    ensures
        command_view(command) == command_of(text::texts(arguments@)),
{
    if has_argument(arguments, "--help", "-h") {
        return Ok(Command::Usage);
    }
    if has_argument(arguments, "--version", "-V") {
        return Ok(Command::Version);
    }
    let options = match parse_arguments(arguments) {
        Ok(options) => options,
        Err(message) => {
            return Err(message);
        },
    };
    if options.list_sessions {
        return Ok(Command::ListSessions);
    }
    if let Some(query) = options.search_sessions {
        return Ok(Command::SearchSessions { query });
    }
    if !options.headless {
        return Ok(Command::Usage);
    }
    let permission_mode = options.permission_mode;
    match (options.config, options.session) {
        (None, _) => Err(text::copy_text("--headless requires --config <path>")),
        (Some(_), None) => Err(text::copy_text("--headless requires --session <id|new>")),
        (Some(config), Some(session)) => {
            if options.compact {
                Ok(Command::Compact { config, session, permission_mode })
            } else {
                Ok(Command::Run { config, session, permission_mode })
            }
        },
    }
}

/// The session that `argument` names: a new one, named after a time and a counter, or the
/// one with that id.
pub fn requested_session(argument: String, time: u64, counter: u64) -> (id: Result<
    SessionId,
    SessionError,
>)
    ensures
        match id {
            Ok(id) => if argument@ == "new"@ {
                id@ == workspace::slug_of(time, counter)
            } else {
                session::valid_id(argument@) && id@ == argument@
            },
            Err(error) => argument@ != "new"@ && !session::valid_id(argument@) && error@
                is InvalidSessionId,
        },
{
    if text::same_text(argument.as_str(), "new") {
        Ok(SessionId::generate(time, counter))
    } else {
        SessionId::new(argument)
    }
}

/// Whether an answer of a user, of which `read` bytes were read, grants permission.
pub fn grants_permission(read: usize, response: &str) -> (granted: bool)
    ensures
        granted == (read > 0 && text::trimmed(response@) == "y"@),
{
    read > 0 && text::same_text(text::trim(response).as_str(), "y")
}

/// How a run ended, as far as the exit status tells.
#[derive(Debug, Clone, Copy, PartialEq, Eq, Structural)]
pub enum Ending {
    Nothing,
    Completed,
    MaxIterations,
    Cancelled,
    Failed,
}

/// What the exit status of a run depends on.
#[derive(Debug, Clone, Copy, PartialEq, Eq, Structural)]
pub struct RunReport {
    pub permission_denied: bool,
    pub tool_error: bool,
    pub ending: Ending,
}

/// How a run ended whose last event was this.
pub open spec fn ending_of(event: AgentEventView) -> Ending {
    match event {
        AgentEventView::RunCompleted { .. } => Ending::Completed,
        AgentEventView::MaxIterationsReached { .. } => Ending::MaxIterations,
        AgentEventView::RunCancelled => Ending::Cancelled,
        _ => Ending::Failed,
    }
}

/// The exit status of a run.
pub open spec fn status_of(report: RunReport) -> i32 {
    match report.ending {
        Ending::Completed => if report.permission_denied {
            3
        } else if report.tool_error {
            4
        } else {
            0
        },
        Ending::MaxIterations => 5,
        Ending::Cancelled => 130,
        Ending::Failed => 1,
        Ending::Nothing => 1,
    }
}

impl RunReport {
    pub fn new() -> (report: Self)
        ensures
            report == (RunReport {
                permission_denied: false,
                tool_error: false,
                ending: Ending::Nothing,
            }),
    {
        RunReport { permission_denied: false, tool_error: false, ending: Ending::Nothing }
    }

    /// Takes note of an event.
    pub fn note(&mut self, event: &AgentEvent)
        ensures
            *final(self) == (RunReport {
                permission_denied: old(self).permission_denied,
                tool_error: old(self).tool_error || (event@ is ToolResult
                    && event@->ToolResult_is_error),
                ending: ending_of(event@),
            }),
    {
        self.ending = match event {
            AgentEvent::RunCompleted { .. } => Ending::Completed,
            AgentEvent::MaxIterationsReached { .. } => Ending::MaxIterations,
            AgentEvent::RunCancelled => Ending::Cancelled,
            _ => Ending::Failed,
        };
        if let AgentEvent::ToolResult { is_error, .. } = event {
            if *is_error {
                self.tool_error = true;
            }
        }
    }

    /// Takes note of what a user answered.
    pub fn note_permission(&mut self, granted: bool)
        ensures
            *final(self) == (RunReport {
                permission_denied: old(self).permission_denied || !granted,
                ..*old(self)
            }),
    {
        if !granted {
            self.permission_denied = true;
        }
    }

    /// The exit status.
    pub fn status(&self) -> (status: i32)
        ensures
            status == status_of(*self),
    {
        match self.ending {
            Ending::Completed => {
                if self.permission_denied {
                    3
                } else if self.tool_error {
                    4
                } else {
                    0
                }
            },
            Ending::MaxIterations => 5,
            Ending::Cancelled => 130,
            Ending::Failed => 1,
            Ending::Nothing => 1,
        }
    }
}

/// A run succeeds only where it completed, no permission was denied and no tool failed.
pub proof fn law_success_is_complete(report: RunReport)
    ensures
        status_of(report) == 0 <==> report.ending is Completed && !report.permission_denied
            && !report.tool_error,
{
}

/// The line that tells which session has started.
pub fn session_started_line(session_id: &SessionId) -> (line: String)
    ensures
        line@ == json::json_text(
            JsonView::Object(
                seq![
                    ("session_id"@, JsonView::Text(session_id@)),
                    ("type"@, JsonView::Text("session_started"@)),
                ],
            ),
        ),
{
    let value = Members::new().with("session_id", json::text_value(session_id.as_str())).with(
        "type",
        json::text_value("session_started"),
    ).object();
    assert(value@->Object_0 =~= seq![
        ("session_id"@, JsonView::Text(session_id@)),
        ("type"@, JsonView::Text("session_started"@)),
    ]);
    value.to_text()
}

/// A session of a list in JSON.
pub open spec fn summary_json(summary: SummaryView) -> JsonView {
    JsonView::Object(
        seq![
            (
                "first_user_message"@,
                match summary.first_user_message {
                    Some(message) => JsonView::Text(message),
                    None => JsonView::Null,
                },
            ),
            ("id"@, JsonView::Text(summary.id)),
        ],
    )
}

/// The line that tells of a session in a list.
pub fn summary_line(summary: &SessionSummary) -> (line: String)
    ensures
        line@ == json::json_text(summary_json(summary@)),
{
    let message = match &summary.first_user_message {
        Some(message) => json::text_value(message.as_str()),
        None => {
            let none = Json::Null;
            proof {
                json::lemma_container_views(none);
            }
            none
        },
    };
    let value = Members::new().with("first_user_message", message).with(
        "id",
        json::text_value(summary.id.as_str()),
    ).object();
    assert(value@->Object_0 =~= summary_json(summary@)->Object_0);
    value.to_text()
}

/// The line that tells that a session was compacted.
pub fn compacted_line(outcome: &CompactionOutcome) -> (line: String)
    ensures
        line@ == json::json_text(
            JsonView::Object(
                seq![
                    ("summary"@, JsonView::Text(outcome@.summary)),
                    ("type"@, JsonView::Text("compacted"@)),
                ],
            ),
        ),
{
    let value = Members::new().with("summary", json::text_value(outcome.summary.as_str())).with(
        "type",
        json::text_value("compacted"),
    ).object();
    assert(value@->Object_0 =~= seq![
        ("summary"@, JsonView::Text(outcome@.summary)),
        ("type"@, JsonView::Text("compacted"@)),
    ]);
    value.to_text()
}

/// What each argument asks for: it changes the one option that it names and no other, and the
/// arguments after it are read on. One that takes a value takes the argument after it and is
/// refused without one; an unknown one is refused.
pub proof fn law_arguments_set_what_they_name(
    options: OptionsView,
    arguments: Seq<Seq<char>>,
    from: int,
)
    requires
        0 <= from < arguments.len(),
    ensures
        ({
            let argument = arguments[from];
            let read = options_from(options, arguments, from);
            let last = from + 1 >= arguments.len();
            let value = arguments[from + 1];
            let takes = argument == "--config"@ || argument == "--session"@ || argument
                == "--permission-mode"@ || argument == "--search-sessions"@;
            let flag = argument == "--headless"@ || argument == "--compact"@ || argument
                == "--list-sessions"@;
            &&& argument == "--headless"@ ==> read == options_from(
                OptionsView { headless: true, ..options },
                arguments,
                from + 1,
            )
            &&& argument == "--compact"@ ==> read == options_from(
                OptionsView { compact: true, ..options },
                arguments,
                from + 1,
            )
            &&& argument == "--list-sessions"@ ==> read == options_from(
                OptionsView { list_sessions: true, ..options },
                arguments,
                from + 1,
            )
            &&& argument == "--config"@ && !last ==> read == options_from(
                OptionsView { config: Some(value), ..options },
                arguments,
                from + 2,
            )
            &&& argument == "--session"@ && !last ==> read == options_from(
                OptionsView { session: Some(value), ..options },
                arguments,
                from + 2,
            )
            &&& argument == "--permission-mode"@ && !last ==> read == options_from(
                OptionsView { permission_mode: Some(value), ..options },
                arguments,
                from + 2,
            )
            &&& argument == "--search-sessions"@ && !last ==> read == options_from(
                OptionsView { search_sessions: Some(value), ..options },
                arguments,
                from + 2,
            )
            &&& takes && last ==> read == Err::<OptionsView, _>(argument + " requires a value"@)
            &&& !takes && !flag ==> read == Err::<OptionsView, _>(
                "unknown argument "@ + text::quoted_text(argument),
            )
        }),
        options_from(options, arguments, arguments.len() as int) == Ok::<_, Seq<char>>(options),
{
    reveal_strlit("--headless");
    reveal_strlit("--compact");
    reveal_strlit("--list-sessions");
    reveal_strlit("--config");
    reveal_strlit("--session");
    reveal_strlit("--permission-mode");
    reveal_strlit("--search-sessions");
    assert("--headless"@.len() == 10 && "--compact"@.len() == 9 && "--list-sessions"@.len() == 15);
    assert("--config"@.len() == 8 && "--session"@.len() == 9 && "--permission-mode"@.len() == 17);
    assert("--search-sessions"@.len() == 17);
    assert("--compact"@[2] == 'c' && "--session"@[2] == 's');
    assert("--permission-mode"@[2] == 'p' && "--search-sessions"@[2] == 's');
}

/// Which command options come to: sessions are listed or searched whatever else is asked for, a
/// run or a compaction is made only without a terminal, and both need a configuration and a
/// session.
pub proof fn law_options_choose_the_command(options: OptionsView)
    ensures
        ({
            let command = option_command(options);
            let bare = !options.list_sessions && options.search_sessions is None;
            &&& options.list_sessions ==> command == Ok::<_, Seq<char>>(CommandView::ListSessions)
            &&& !options.list_sessions && options.search_sessions is Some ==> command == Ok::<
                _,
                Seq<char>,
            >(CommandView::SearchSessions { query: options.search_sessions->0 })
            &&& bare && !options.headless ==> command == Ok::<_, Seq<char>>(CommandView::Usage)
            &&& bare && options.headless && options.config is None ==> command == Err::<
                CommandView,
                _,
            >("--headless requires --config <path>"@)
            &&& bare && options.headless && options.config is Some && options.session is None
                ==> command == Err::<CommandView, _>("--headless requires --session <id|new>"@)
            &&& bare && options.headless && options.config is Some && options.session is Some
                ==> command == Ok::<_, Seq<char>>(
                if options.compact {
                    CommandView::Compact {
                        config: options.config->0,
                        session: options.session->0,
                        permission_mode: options.permission_mode,
                    }
                } else {
                    CommandView::Run {
                        config: options.config->0,
                        session: options.session->0,
                        permission_mode: options.permission_mode,
                    }
                },
            )
        }),
{
}

/// Who asks for help gets it, whatever else is asked for, and then who asks for the version.
pub proof fn law_help_comes_first(arguments: Seq<Seq<char>>, index: int)
    requires
        0 <= index < arguments.len(),
    ensures
        arguments[index] == "--help"@ || arguments[index] == "-h"@ ==> command_of(arguments)
            == Ok::<_, Seq<char>>(CommandView::Usage),
        (arguments[index] == "--version"@ || arguments[index] == "-V"@) && (forall|i: int|
            0 <= i < arguments.len() ==> (#[trigger] arguments[i]) != "--help"@ && arguments[i]
                != "-h"@) ==> command_of(arguments) == Ok::<_, Seq<char>>(CommandView::Version),
{
}

/// What the exit status tells: nothing where all went well, three for a refused permission, four
/// for a tool that failed, five for too many turns, 130 for a cancellation, and one for anything
/// else.
pub proof fn law_status_tells_how_a_run_ended(
    report: RunReport,
    text: Seq<char>,
    limit: usize,
)
    ensures
        ({
            let status = status_of(report);
            let completed = report.ending is Completed;
            &&& status == 3 <==> completed && report.permission_denied
            &&& status == 4 <==> completed && !report.permission_denied && report.tool_error
            &&& status == 5 <==> report.ending is MaxIterations
            &&& status == 130 <==> report.ending is Cancelled
            &&& status == 1 <==> report.ending is Failed || report.ending is Nothing
        }),
        ending_of(AgentEventView::RunCompleted { final_text: text }) is Completed,
        ending_of(AgentEventView::MaxIterationsReached { limit }) is MaxIterations,
        ending_of(AgentEventView::RunCancelled) is Cancelled,
        ending_of(AgentEventView::RunError { message: text }) is Failed,
{
}

/// What is listed of a session is its id and what the user said first, if anything.
pub proof fn law_listed_sessions_are_named(summary: SummaryView)
    ensures
        ({
            let listed = summary_json(summary);
            &&& json::member(listed, "id"@) == Some(JsonView::Text(summary.id))
            &&& json::member(listed, "first_user_message"@) == Some(
                match summary.first_user_message {
                    Some(message) => JsonView::Text(message),
                    None => JsonView::Null,
                },
            )
        }),
{
    reveal_with_fuel(json::entry_from, 3);
    reveal_strlit("id");
    reveal_strlit("first_user_message");
    assert("id"@.len() == 2 && "first_user_message"@.len() == 18);
}

} // verus!
