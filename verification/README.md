# mycode

A terminal coding agent whose decisions are proved. The library under `src/` holds them as
functions and machines with contracts that Verus checks; the program under `app/` reads files,
talks to providers and runs what the library asks for.

## Layout

| Modules | What they hold |
| --- | --- |
| `text`, `json`, `raw`, `stored`, `keyed` | text as characters, JSON values, JSON texts taken apart and written, maps in the order of insertion |
| `config` | layers of configuration, how they merge and when they are valid |
| `conversation`, `session`, `history`, `plan`, `workspace` | what is kept on disk, and where |
| `client`, `events`, `sse`, `http`, `response` | requests, events of providers, streams and refusals |
| `anthropic`, `openai`, `openai_compat`, `limits`, `provider`, `mock` | the protocols of providers |
| `tool_result`, `stability`, `restart` | the budget of tool results, and why its decisions last |
| `compaction`, `prompt` | when and how a conversation is shortened, and the system prompt |
| `tools`, `agent`, `agent_events`, `cli` | which calls run, the run of an agent, and the command line |

What the library promises as a whole stands in public proof functions whose names begin with
`law_`.

## What is trusted

`text` trusts `String::push`, `str::to_lowercase`, the `Debug` form of text and
`String::from_utf8`. `json` trusts `serde_json` to read and write values, `raw` to pass over
one, and `stored` to write the values of `serde_yaml`, whose mappings keep their order. `config`
trusts `url::Url::parse`. Each says what it takes for granted in its doc comment.

## Running

The family of models that Anthropic serves is named by `MYCODE_ANTHROPIC_FAMILY`. Without it,
those models count as unknown: they get the window of an unknown model and do not think
adaptively.
