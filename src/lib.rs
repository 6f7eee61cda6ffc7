//! Core engine of a terminal speedcube timer: solve timing, rolling
//! statistics over the solve history, scramble generation and panel
//! navigation. Times are whole milliseconds throughout.
pub mod stats;
pub mod timer;
pub mod router;
pub mod scramble;
pub mod store;
pub mod session;
