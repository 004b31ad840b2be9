//! The terminal: what keys mean, and what the screen shows.
pub mod event;
pub mod ui;
