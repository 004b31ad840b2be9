# prtop

A terminal view of the GitHub pull requests that one is involved in: as their author, by a requested
review, or by a mention. The rules of the program are a library that is verified with Verus; the
terminal, the network and the files are a thin program around it.

## Layout

- `src/` is the verified library. Every function states in its contract what it returns.
  - `app.rs` holds the state and its messages; `follows` says what a message makes of a state, and
    `app_laws.rs` states what holds whatever the messages are.
  - `alerts.rs` says which notifications a change calls for, `rows.rs` what the list shows, and
    `diff.rs` what changed between two collections.
  - `pr_map.rs` wraps the `IndexMap` in which the pull requests are kept, and defines their order.
  - `merge.rs` makes one collection of the search results of several tokens. `poller.rs` decides
    when a token is polled, `ci.rs` which commits are asked for, and `recheck.rs` which dismissed
    mentions come back. `polling.rs` is the course of the polling loop, step by step.
  - `github/` has the questions to GitHub and the meaning of its answers.
  - `dismiss.rs` and `ui_state.rs` hold what outlives the program, `config.rs` and `colors.rs` the
    settings, `notify.rs` and `tui/` the screen.
- `tests/` runs the library with the crates that it calls.
- `app/` is the program.

## What is taken on trust

The library calls `indexmap`, `chrono`, `serde_json` and a few functions of the standard library
through small wrappers. The contract of each wrapper says what is claimed of the outside function;
the doc comment above it says so in words. Everything else is proved.
