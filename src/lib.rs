//! Bridge between a rotary volume controller on a serial link and the host
//! audio mixer: wire frames, port discovery decisions and the state kept by
//! the synchronisation loops. All I/O is performed by the caller.
pub mod codec;
pub mod discovery;
pub mod order;
pub mod probe;
pub mod sync;
