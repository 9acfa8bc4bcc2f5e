//! Termaxa gates the commands that an agent wants to run. This crate holds its
//! decisions about text: how a command line is split and what it writes over,
//! how the audit log is framed and read, what the Execution Report says, which
//! notifications go out, and how all of it looks on a terminal.
//!
//! Everything here computes on plain values. Files, the network, the
//! environment and the terminal belong to the caller. The modules whose names
//! end in `_laws` state what holds of the others on all inputs.

pub mod audit;
pub mod audit_laws;
pub mod intent;
pub mod notify;
pub mod notify_laws;
pub mod policy;
pub mod report;
pub mod report_growth_laws;
pub mod report_laws;
pub mod report_text;
pub mod report_text_laws;
pub mod shell;
pub mod shell_laws;
pub mod tally;
pub mod text;
pub mod text_laws;
pub mod ui;
pub mod ui_laws;
