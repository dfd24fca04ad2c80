//! Core of a karaoke-party server: the shared singing queue and the song catalog.

pub mod clock;
pub mod commands;
pub mod config;
pub mod path_encoding;
pub mod playlist;
pub mod songs;
pub mod text;
