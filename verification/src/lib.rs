//! A process memory watchdog library.
//!
//! The library holds the platform-independent logic of a watchdog that
//! periodically enumerates processes whose short name begins with a
//! configured prefix, reads each one's resident memory, and delivers a
//! configured signal to any process whose usage exceeds a byte threshold.
//!
//! Everything that computes or decides lives here, verified: name matching,
//! the `/proc` text parsing, signal-name resolution, and the per-cycle
//! monitoring logic. The platform syscalls themselves (directory
//! enumeration, file reads, signal delivery, sleeping) are I/O and are left
//! to the embedding program, which reaches the logic through the capability
//! traits in [`monitor`].

pub mod linux;
pub mod mac;
pub mod monitor;
pub mod text;
