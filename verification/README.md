# wb_switch_core

The verified core of an application that switches between accounts of the WorkBuddy client. It keeps
an error log, a ledger of rate limits, the conversations of the accounts, and itself up to date. The
library in `src/` is written in Verus: what each function does is stated in its contract and proved.

| Part | What it does |
| --- | --- |
| `src/error_log.rs` | entries of the error log, and the last 200 lines of it |
| `src/limits/` | reading limits from the logs of the client, one event for each, and the ledger |
| `src/session/` | listing conversations, clearing duplicates, folding namesakes, copying to another account |
| `src/update/` | the update source, versions, and asking for the latest release |
| `src/update_service.rs` | the state machine of checking, downloading and installing |
| `src/text.rs`, `src/numerals.rs`, `src/paths.rs` | texts, decimal numerals and paths |
| `src/json.rs`, `src/clock.rs`, `src/session/ids.rs` | what is used of `serde_json`, `chrono` and `uuid`, with what is taken on trust of them |

Functions named `law_…` state what holds of several functions together. `src/session/store.rs` models
the database and the files of conversations, and says what copying and tidying up never lose.

`app/` reads the files and databases, sends the requests and talks to the desktop. A desktop and a
client for requests are given to it as implementations of the traits in `app/host.rs`.
