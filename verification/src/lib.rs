//! Content filtering for a Docker API proxy: which containers are exposed,
//! how container lists and single-container requests are answered, and which
//! connections are tunnelled as raw streams.

pub mod config;
pub mod docker;
pub mod proxy;
pub mod strmap;
pub mod text;
pub mod tunnel;
pub mod utils;
