//! The protocol core of a two-party UART test rig: the control-channel line
//! codec, the data-plane frame codec, counters and verdicts, and the decisions
//! of the master and slave roles. Everything here is verified; talking to the
//! serial port, clocks and sleeps is left to the caller.
pub mod command;
pub mod config;
pub mod frame;
pub mod line;
pub mod outcome;
pub mod parser;
pub mod session;
pub mod stats;
pub mod text;
