//! Capture of a child process's standard streams, and the batching relay
//! that forwards what was captured as datagrams.
//!
//! `communicator` holds the frames in which captured bytes travel,
//! `command` the decisions of the stream proxy, `sender` the relay that
//! gathers frames into datagrams, and `config` the reading of the command
//! line. `model` says what the relay does in terms of plain sequences, and
//! `laws` and `timing` prove what follows from that for whole runs.

pub mod communicator;
pub mod model;
pub mod command;
pub mod config;
pub mod sender;
pub mod laws;
pub mod timing;
