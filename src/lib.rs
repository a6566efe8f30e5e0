//! A network liveness supervisor: clients keep a shared countdown alive by
//! sending heartbeat lines; when the countdown runs out the service stops.
//!
//! This crate holds the decisions of the service as verified state machines:
//! the wire codec of a [`Signal`], the per-connection line handler, the
//! countdown itself and the supervisory loop that races accepting against
//! expiration.

pub mod connection;
pub mod countdown;
pub mod signal;
pub mod supervisor;

pub use connection::{Connection, CloseReason, Step};
pub use countdown::Countdown;
pub use signal::{decode, encode, DecodeError, Signal};
pub use supervisor::{Action, Event, ShutdownReason, Supervisor, SupervisorState};
