//! A dynamic Mapbox Vector Tile (MVT) builder.
//!
//! Given slippy-map tile coordinates and a user-supplied spatial SQL query,
//! the library produces the PostGIS SQL for the tile, turns the rows that
//! come back into MVT features (command-encoded geometry plus
//! dictionary-encoded properties), assembles a single-layer tile and
//! serializes it to protobuf wire bytes.  A fingerprint cache maps a
//! request to the encoded bytes.

pub mod cache_provider;
pub mod config;
pub mod decimal;
pub mod dep;
pub mod geo_utils;
pub mod geometry_command_encoder;
pub mod mapbox_vector_tile;
pub mod mvt_error;
pub mod mvt_handler;
pub mod tile_error;
pub mod tile_query_constructor;
pub mod tile_service;
pub mod wire;
