//! Verified core of the Stellar Guesser sky quiz: the question filter
//! language and the check of sky objects against it, designation name
//! expansion, texture mipmaps, stored settings lists, directory listings,
//! and the small state machines and enumerations used by the game.

pub mod enums;
pub mod text;
pub mod objects;
pub mod names;
pub mod sorted;
pub mod filter;
pub mod parser;
pub mod check;
pub mod textures;
pub mod setup;
pub mod cube;
pub mod settings;
pub mod authors;
pub mod files;
pub mod config;
pub mod camera;
pub mod constellation;
pub mod input;
pub mod query;
pub mod game;
pub mod packs;
pub mod answers;
pub mod renderers;
pub mod questions;
pub mod sky;
pub mod basic_lines;
