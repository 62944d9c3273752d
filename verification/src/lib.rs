//! Multi-digit integer arithmetic over encrypted digits: the radix model, carry
//! propagation, and casting of digits between parameter sets.

pub mod capability;
pub mod ciphertext;
pub mod clear;
pub mod glwe_secret_key;
pub mod key_switching_key;
pub mod radix_model;
pub mod server_key;
pub mod torus;
