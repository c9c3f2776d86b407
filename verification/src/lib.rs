//! Debounced, extension-filtered file change watching.
//!
//! A watcher turns the raw notifications of the operating system into few
//! events that say which files changed. This library holds what it decides on
//! the way: which kinds of notification count ([`event`]), which paths count
//! and which of them were reported a moment ago ([`filter`], [`debounce`],
//! [`extensions`]), what is published for a notification ([`watcher`]), and
//! what to watch for a path that does not exist yet ([`resolve`]).

pub mod clock;
pub mod config;
pub mod debounce;
pub mod error;
pub mod event;
pub mod extensions;
pub mod filter;
pub mod resolve;
pub mod watcher;
