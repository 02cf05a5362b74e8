//! Helper library for a set of small desktop utilities: a phase-based
//! notification timer, a ring with a wrapping cursor, a todo-list summary,
//! Pipewire sink selection, command descriptions, and the plain data types
//! those tools exchange.

pub mod blur;
pub mod clock;
pub mod exec;
pub mod fs;
pub mod humanizer;
pub mod i3status;
pub mod pipewire;
pub mod polizei;
pub mod ring;
pub mod schemas;
pub mod seqs;
pub mod strings;
pub mod timer;
pub mod todo;
