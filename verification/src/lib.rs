//! Tile-actor simulation engine for a sparse hex-grid world.
//!
//! The crate holds the data model (identifiers, coordinates, typed data
//! stores, inventories, scripts), the per-tile state machine, the map with
//! its persisted form, and the coordinator that drives ticks, placement and
//! undo. Every function is stated over a mathematical view of its data, and
//! proved against that statement.
//!
//! Three things are taken on trust, each behind a small function whose
//! contract says what is believed of it: the table of the `string_interner`
//! crate that holds the interned texts, the compression of the `zstd` crate,
//! and the two conversions of the standard library from bytes to text.

pub mod coord;
pub mod data;
pub mod format;
pub mod game;
pub mod gui;
pub mod id;
pub mod ids;
pub mod interner;
pub mod inventory;
pub mod loading;
pub mod map;
pub mod map_list;
pub mod models;
pub mod ordered_map;
pub mod persist;
pub mod production;
pub mod registry;
pub mod report;
pub mod script;
pub mod text;
pub mod tile_config;
pub mod tile_entity;
