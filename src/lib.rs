//! Secure random generation: a ChaCha20 keystream seeded from the operating
//! system, an unbiased integer sampler on top of it, strings drawn from
//! character classes, and uniform selection of distinct items.

pub mod charset;
pub mod error;
pub mod keystream;
pub mod sampler;
pub mod service;
pub mod strgen;
pub mod subset;

pub use error::RandomError;
pub use keystream::KeystreamGenerator;
pub use service::{Config, LocalNetworkOnly};
pub use strgen::generate_random_string;
pub use subset::generate_random_choose;
