//! Room coordinator library: a single-threaded room state machine that
//! serializes client activity, enforces a per-role policy before any state
//! change, maintains membership and the DJ queue, and plans broadcasts to
//! every connected client.  The wire codec for the tagged-array message
//! schema is implemented and verified here as well; transport I/O stays
//! outside the library.

pub mod api;
pub mod channel;
pub mod codec;
pub mod policy;
pub mod users;
