//! A real-time multiplayer emote-guessing session server, as a verified core.
//!
//! Clients are grouped into ephemeral rooms and play timed rounds of a
//! guessing game whose content (an ordered emote sequence) is derived
//! deterministically from a per-room seed.  This crate holds the room
//! directory and round state machine, the session registry, the
//! deterministic emote sequencer, and the guess masking and scoring rules,
//! all as pure transitions on an explicit world value.  Each transition
//! returns the list of outbound actions (messages to deliver, timers to
//! arm); the networked shell around the library performs them.

pub mod data;
pub mod handler;
pub mod laws;
pub mod model;
pub mod requests;
pub mod responses;
pub mod sequencer;
pub mod seventv;
