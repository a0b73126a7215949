//! A streaming XML emitter: a state machine that turns document events into
//! well-formed XML bytes, with namespace minimisation, escaping and optional
//! pretty-printing.
pub mod config;
pub mod emitter;
pub mod error;
pub mod escape;
pub mod name;
pub mod markup;
pub mod namespace;
