//! A live view of the pull requests on GitHub that one is involved in: the rules of the program,
//! apart from the terminal, the network and the files.
//!
//! - [`types`], [`timestamp`], [`text`] and [`ids`] hold what everything else is made of.
//! - [`github`] says what is asked of GitHub and what its answers mean.
//! - [`merge`], [`ci`], [`recheck`] and [`poller`] turn the answers of several tokens into snapshots,
//!   and [`polling`] says in which order.
//! - [`pr_map`], [`diff`], [`alerts`], [`rows`] and [`app`] keep the list and react to messages;
//!   [`app_laws`] states what holds whatever the messages are.
//! - [`dismiss`] and [`ui_state`] hold what outlives the program.
//! - [`config`], [`colors`], [`notify`] and [`tui`] are about settings and the screen.
pub mod alerts;
pub mod app;
pub mod app_laws;
pub mod ci;
pub mod colors;
pub mod config;
pub mod diff;
pub mod dismiss;
pub mod error;
pub mod github;
pub mod ids;
pub mod merge;
pub mod notify;
pub mod poller;
pub mod polling;
pub mod pr_map;
pub mod recheck;
pub mod rows;
pub mod text;
pub mod timestamp;
pub mod tui;
pub mod types;
pub mod ui_state;
