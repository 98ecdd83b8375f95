//! Verified governance models: token-gated, quadratic, representative and liquid voting.
pub mod ballot;
pub mod bytes;
pub mod sums;
pub mod table;
pub mod ttl;
pub mod token_gated;
pub mod quadratic;
pub mod delegates;
pub mod liquid;
pub mod representative;
