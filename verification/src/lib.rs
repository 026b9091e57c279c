//! Decisions behind synthetic Win32 input.
//!
//! Input goes one of three ways: through the user's own devices ([`global`]),
//! posted to a window without touching the user's focus ([`background`]), or
//! injected while the window is in front ([`foreground`]). [`input`] picks the
//! way. No module touches Windows: each procedure runs over a [`tape`] of
//! answers and names the next call it wants made.
//!
//! The contract of a procedure `f` is a spec function `f_flow`: the calls it
//! makes and the value it yields, for every sequence of answers. Laws over these
//! are proof functions named `law_..`; those on which calls a procedure can make
//! at all are in [`effects`]. Those on what a procedure that succeeded has done
//! are in [`deeds`] for injected input, in [`posts`] for posted input, in
//! [`devices`] for the user's own devices and in [`shields`] for the foreground,
//! and those on how it is paced in [`pauses`]. Those on what its questions come
//! to are in [`sights`], those on what decides whether a request reaches its
//! window in [`gates`], and those on why one fails in [`blames`]. Those on
//! running a procedure again with more answers are in [`replay`].

pub mod activation;
pub mod background;
pub mod blames;
pub mod deeds;
pub mod delivery;
pub mod devices;
pub mod effects;
pub mod emitter;
pub mod error;
pub mod foreground;
pub mod gates;
pub mod global;
pub mod input;
pub mod keys;
pub mod message;
pub mod pauses;
pub mod posts;
pub mod replay;
pub mod request;
pub mod shields;
pub mod sights;
pub mod tape;
pub mod text;
pub mod win32;
pub mod window;
