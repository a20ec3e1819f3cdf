//! The core of a simulated network: hosts with addresses in virtual time, the
//! datagrams and stream segments that the network hands them, and the sockets
//! by which host software talks to other hosts.
//!
//! Each type has a view, and each function says in its contract which state it
//! leaves and what it returns. What holds of several functions together is
//! proved in [`laws`], and what each call does, said field by field of any call,
//! in [`outcomes`].
pub mod addr;
pub mod envelope;
pub mod handshake;
pub mod host;
pub mod laws;
pub mod listener;
pub mod net;
pub mod ordered_map;
pub mod outcomes;
pub mod signal;
pub mod table;
pub mod tcp;
pub mod time;
pub mod world;
