//! Reusable game, world, and session logic for a turn-based dungeon crawler.
//!
//! The world and game layers are synchronous and deterministic for a given
//! seed; terminal, SSH, and browser adapters live outside this library.

pub mod app;
pub mod game;
pub mod protocol;
pub mod server;
pub mod session;
pub mod ui;
pub mod web;
pub mod world;
mod rng;
mod text;
