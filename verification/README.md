# memoir

The logic of a personal browser-history indexer, verified with [Verus](https://github.com/verus-lang/verus).

Memoir reads the history of a browser, fetches the pages that were visited, keeps their text in an
index, and answers searches and questions about them.

## Layout

- `src/` is the library. Verus proves the contract of every function in it, but for small wrappers
  around other crates and a few functions of the standard library; their doc comments say what is
  taken on trust.
  - `config` settings, hosts and ban patterns
  - `browser` the histories of Firefox, Safari and Orion
  - `fetch` what becomes of a fetched page: its title, its text, its recipe
  - `index` the pages of the index, searching them, and what holds of them whatever is done
  - `cluster` browsing sessions that keep to one topic
  - `rag` the context of a question, and conversations in which the model calls tools
  - `mcp` the Model Context Protocol
  - `server` what is made of the requests to the web server
  - `sync` the steps of bringing the index up to date
  - `session_log`, `desktop` the activity log, and the program around the server
  - `text`, `lists`, `order`, `json`, `score`, `time`, `paths` what the other modules are built on
- `tests/` runs the library on concrete values.
- `app/` is the program around the library: the command line, the web server, SQLite, HTTP, and
  floating-point arithmetic on embeddings.

What happens outside the library is handed to it as plain values. Steps that depend on such
outcomes are functions from a stage and an event to the next stage and an action
(`sync::sync_step`, `fetch::fetch_step`, `server::flow::ask_step`, `server::chat::chat_step`,
`server::digest::digest_step`, `server::indexing::page_step`); `app/` performs the actions.

The functions named `law_…` are proofs of what holds of the library as a whole.
