//! A cross-reference index over a chart of elemental types.
//!
//! A dataset names each type once and gives it three outbound lists: the types
//! it is effective against, not effective against, and without effect against.
//! [`index::index`] inverts those lists, so that every type also knows which
//! types hit it in each of the three ways. All names in the index are handles
//! into one [`registry::PokemonTypeNameRegistry`], which stores each name once.

pub mod dataset;
pub mod index;
pub mod laws;
pub mod query;
pub mod registry;
pub mod text;
