//! Networked state-synchronization core of a two-player real-time game.
//!
//! The crate covers the wire protocol of the UDP session layer, the session
//! registry that admits players and dispatches commands, the per-session and
//! per-player state model, and the client-side reconciliation logic that keeps
//! an opponent's position fresh under unreliable delivery.  Socket I/O,
//! rendering and input handling live outside this crate and call into it with
//! plain values.
//!
//! Screen coordinates and the other fractional quantities of the protocol are
//! held in thousandths (fixed point): the value `1.5` is stored as `1500`.
//! The wire format prints and parses such numbers in decimal notation.

pub mod action;
pub mod client;
pub mod codec;
pub mod direction;
pub mod json;
pub mod numfmt;
pub mod player;
pub mod registry;
pub mod session;
pub mod text;

pub use action::NetActions;
pub use direction::Direction;
