//! Domain logic of a streamer's soundboard: global hotkeys for sound
//! effects, a background-music player ("the bard") and the password vault
//! for the OBS WebSocket connection.

pub mod text;
pub mod hotkey;
pub mod conflict_checker;
pub mod bard;
pub mod register_hotkey;
pub mod crypto;
pub mod config;
pub mod ducking;
pub mod paths;
pub mod use_cases;
pub mod session;
pub mod repository;
