//! Random text generation: word picks, alphabet runs, sentence shapes and
//! value literals, composed through a small combinator algebra.
//!
//! Every generation call takes its randomness from an explicit
//! [`source::RandomSource`], which keeps an account of its draws: what a
//! call wrote is told by the draws that it made, so that a deterministic
//! source gives a deterministic text.

pub mod combinator;
pub mod data;
pub mod engine;
pub mod error;
pub mod extend;
pub mod fmt;
pub mod mode;
pub mod source;
pub mod std_specs;
pub mod util;

pub use crate::data::Lexicon;
pub use crate::engine::Iter;
pub use crate::engine::Rg;
pub use crate::error::GenError;
pub use crate::mode::Mode;
pub use crate::mode::Others;
