//! Commute-accessibility backend core: a typed attribute model, a storage
//! port with an in-memory engine enforcing optimistic concurrency, domain
//! entities, and the tile-scoring engine that drives them.

pub mod assoc;
pub mod attr;
pub mod b64;
pub mod codec;
pub mod cursor;
pub mod deci;
pub mod engine;
pub mod errors;
pub mod house_item;
pub mod jsonstr;
pub mod pagination;
pub mod port;
pub mod radix;
pub mod requirement_item;
pub mod scoring;
pub mod spatial_distance_item;
pub mod stamp;
pub mod store;
mod text;
pub mod uid;
