//! A deterministic random number generator for exercising code that needs
//! randomness: it draws its bytes from the ChaCha20 keystream of a fixed key
//! and nonce, so every run produces the same sequence.

pub mod keystream;
pub mod mock_rng;

pub use keystream::KEYSTREAM_LIMIT;
pub use mock_rng::MockRng;
