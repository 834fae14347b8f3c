//! Protocol core of a wishbone-bus TCP test server.
//!
//! A hardware simulation drives this library through a session state
//! machine: a client connects, sends one textual command per line
//! (`write`, `read`, `wait_event`, `debug`, `disconnect`, `exit`), and the
//! simulation answers read results and event notifications.  The library
//! holds the verified logic: the codec between 32-bit words and
//! multi-valued logic vectors, the line parser, the session state machine
//! and the response formatting.  The sockets themselves live outside.

pub mod codec;
pub mod ghdl;
pub mod hexnum;
pub mod parser;
pub mod session;
