//! Voxel-world core of a block renderer: a grid of typed blocks split into
//! chunks, the triangle mesh derived from it by culling hidden faces, block
//! edits that keep neighbouring chunks consistent, and block picking along a
//! sampled ray.
//!
//! All geometry is held in integers. Vertex positions are whole block
//! coordinates and texture coordinates count atlas tiles, so that every
//! statement about a mesh is exact.
//!
//! - `block`, `texture_atlas`: a block, its faces and their vertices.
//! - `grid`, `culling`, `terrain`, `mesh`: what a grid of blocks is, which
//!   faces it shows, how it is generated and which mesh it has.
//! - `chunk`: a chunk of the world with its mesh.
//! - `world`: the chunks of a region, joined along their edges, and the
//!   edits of single blocks; `world_lemmas` and `world_laws` hold what is
//!   proved about them.
//! - `player`: the keyboard-driven state of the player and block picking.

pub mod block;
pub mod chunk;
pub mod culling;
pub mod grid;
pub mod mesh;
pub mod player;
pub mod terrain;
pub mod texture_atlas;
pub mod world;
pub mod world_laws;
pub mod world_lemmas;
