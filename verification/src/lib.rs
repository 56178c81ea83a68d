//! remtui: the logic of a terminal front end for Apple Reminders that talks
//! to Reminders through `remctl` and to Bear through `bearcli`.

pub mod app;
pub mod bear;
pub mod client;
pub mod config;
pub mod dates;
pub mod digest;
pub mod editor;
pub mod fake;
pub mod json;
pub mod keys;
pub mod models;
pub mod text;
pub mod todos;
pub mod triage;
pub mod ui;
pub mod util;
