//! Control core of a remotely operated camera head and motor stage.
//!
//! A client attaches over a network connection and sends commands. The
//! [`listener`] routes them, the [`processor`] dispatches them and schedules
//! the live stream, the [`handler`] delivers motor commands reliably over a
//! serial line, and the [`session_state`] ties the three together. None of
//! the modules touches the connection or the serial line: each takes what was
//! read and says what is to be written.

pub mod handler;
pub mod listener;
pub mod message;
pub mod models;
pub mod outside;
pub mod processor;
pub mod session_state;
pub mod text;
