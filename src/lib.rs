//! Message framing over an encrypted byte stream.
//!
//! `connection` holds the receive and send decisions of a message connection
//! as a verified state machine: the caller performs each transport read,
//! feeds the bytes through its secure channel and runs its codec, and the
//! connection decides what happens next. `codec` is a fixed-width codec for
//! 32-bit integers that plugs into it.
pub mod codec;
pub mod connection;
pub mod lemmas;
