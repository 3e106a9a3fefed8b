//! Block registry and surface decoration for a voxel world server.
//!
//! The registry turns block definition documents into block records, a
//! name index and a texture atlas layout. The builder decorates the surface
//! of a chunk with plants, trees and lamps, driven by thresholded noise.
pub mod atlas;
pub mod block;
pub mod builder;
pub mod canvas;
pub mod catalog;
pub mod chunk;
pub mod comp;
pub mod document;
pub mod ident;
pub mod json;
pub mod noise;
pub mod registry;
pub mod texture;
pub mod types;
