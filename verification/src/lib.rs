//! Token list catalogs: the entry model, its canonical ordering, and the
//! engine that merges several source catalogs into one.

pub mod canonical;
pub mod chain;
pub mod order;
pub mod text;
pub mod locator;
pub mod pubkey;
pub mod token;
pub mod tags;
pub mod sort;
pub mod list;
pub mod registry;
pub mod engine;
pub mod laws;
pub mod resolver;
