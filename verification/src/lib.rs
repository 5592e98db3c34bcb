//! The logic of a desktop widget that shows how much of the usage limits of Anthropic and
//! Codex is used up.
//!
//! The widget reads the credentials of the command line tools, asks the usage services,
//! and shows the answer as text and as tray icons. What it reads, runs and sends is up to
//! the program around this library. Here is decided what to do next, what an answer means
//! and what is shown; for every decision its contract says what comes out.
//!
//! - Polling: [`poller`] takes a poll from step to step, [`requests`] makes the requests and
//!   [`usage`] reads the answers, [`poll_gate`] and [`poll_guard`] admit one poll at a time,
//!   as [`poll_schedule`] lays down.
//! - Credentials: [`credentials`] reads them, [`credential_watch`] notices changes,
//!   [`locations`] and [`commands`] say where they are and which programs refresh them,
//!   [`wsl`] knows the Windows Subsystem for Linux, [`json`] looks into documents.
//! - Display: [`countdown`] writes the lines, [`badge`] and [`drawing`] make the icons that
//!   [`tray_icon`] keeps in line with the shell, [`native_interop`] holds the values that
//!   the Windows API takes.
//! - Ground: [`binary64`] works on percentages, [`time`] on instants and dates, [`text`] and
//!   [`utf16`] on texts, [`models`] and [`localization`] are plain data, [`diagnose`] and
//!   [`version`] write the log and the version.
pub mod badge;
pub mod binary64;
pub mod commands;
pub mod countdown;
pub mod credential_watch;
pub mod credentials;
pub mod diagnose;
pub mod drawing;
pub mod json;
pub mod localization;
pub mod locations;
pub mod models;
pub mod native_interop;
pub mod poll_gate;
pub mod poll_guard;
pub mod poll_schedule;
pub mod poller;
pub mod requests;
pub mod text;
pub mod time;
pub mod tray_icon;
pub mod usage;
pub mod utf16;
pub mod version;
pub mod wsl;
