//! Session recording: data model, storage layout and rendering rules, and the
//! decisions a recorder makes when sessions start, stop and record commands.

pub mod models;
pub mod recorder;
pub mod storage;
pub mod text;


