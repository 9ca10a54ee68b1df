//! Size-constrained generation of Telegram emoji and sticker videos.
//!
//! The library holds the logic: the binary search for the best CRF under a
//! byte budget, the encoder arguments of one job, and the planning,
//! validation and scheduling of a batch. Running the encoder, touching the
//! file system and reading the terminal are left to the caller, which hands
//! the library plain values.

pub mod kind;
pub mod text;
pub mod search;
pub mod encoder;
pub mod two_pass;
pub mod path;
pub mod duration;
pub mod single_gen;
pub mod multi_gen;
pub mod validate;
pub mod display;
pub mod batch;
pub mod cmd;
pub mod command_line;
