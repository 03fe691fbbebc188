//! Tailing of text files for lines that match a pattern.
//!
//! The crate holds the decisions of a log watcher and leaves the waiting,
//! the file access and the delivery to its caller:
//!
//! * [`lines`] cuts the bytes read from a file into complete lines and keeps
//!   the unfinished rest for the next read;
//! * [`text`] reads the bytes of a line as text;
//! * [`matcher`] compiles a pattern once and tests lines against it;
//! * [`tailer`] is the per-file state machine: where to read next, when a
//!   file was rotated or truncated, which lines are reported;
//! * [`notify`] describes a reported line and the message sent for it;
//! * [`supervisor`] starts one tailer per configured file and stops them
//!   together;
//! * [`config`] is the shape of the configuration.
pub mod config;
pub mod lines;
pub mod matcher;
pub mod notify;
pub mod supervisor;
pub mod tailer;
pub mod text;
