//! A toolkit for studying timing side channels in post-quantum key
//! encapsulation mechanisms: ciphertext perturbation, latency sample
//! recording, threshold classification and an adaptive binary search that
//! recovers secret-dependent values from noisy timing measurements.

pub mod codec;
pub mod config;
pub mod convergence;
pub mod csvio;
pub mod drivers;
pub mod engine;
pub mod kembuf;
pub mod measure;
pub mod modify;
pub mod mutbit;
pub mod oracle;
pub mod params;
pub mod plaintexts;
pub mod recorder;
pub mod search;
pub mod spectrum;
pub mod stats;
pub mod synthetic;
pub mod threshold;
