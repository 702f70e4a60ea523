//! Random byte sequences and random text, assembled token by token from a
//! configurable charset.
//!
//! A [`Randomizer`] holds a target length, a [`Charset`], an optional
//! separator and a [`StrictLimit`] that says how the length is counted.
//! Generation resolves the charset into a pool of tokens, draws tokens at
//! random and lays them one after another into a buffer until the length
//! counted under the limit reaches the target.  The result is a
//! [`RandomBlock`], which converts into bytes or, if its bytes are UTF-8,
//! into a `String`.
pub mod block;
pub mod charset;
pub mod constants;
pub mod error;
pub mod plan;
pub mod proofs;
pub mod randomizer;
pub mod tokens;
pub mod utf8;

pub use block::RandomBlock;
pub use charset::Charset;
pub use constants::{
    ALPHABETICAL, ALPHABETICAL_LOWER, ALPHABETICAL_UPPER, ALPHANUMERIC, ALPHANUMERIC_LOWER,
    ALPHANUMERIC_UPPER, NUMERICAL, UTF8,
};
pub use error::Error;
pub use plan::StrictLimit;
pub use randomizer::Randomizer;
