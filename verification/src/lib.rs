pub mod bytes;
pub mod decimal;
pub mod keccak;
pub mod keccak_spec;
pub mod lanes;
pub mod miner;
pub mod selector;
pub mod small_string;
pub mod sponge;
pub mod sponges_avx;

pub use decimal::write_decimal;
pub use keccak::{chi, iota, iter, iters, rho_pi, rotate_left, theta, theta_avx2};
pub use lanes::Lanes;
pub use miner::{lengths_fit, try_nonce, try_nonces4};
pub use selector::{function_selector_to_hex, normalize_endianess, parse_selector};
pub use small_string::SmallString;
pub use sponge::Sponge;
pub use sponges_avx::{SpongeComputeSlice, SpongesAvx};
