//! A verified core for a terminal process dashboard: process filtering and
//! ordering, label formatting, the key-driven interaction state machine and the
//! soft/force kill protocol.

pub mod text;
pub mod process;
pub mod kill;
pub mod format;
pub mod ui;
