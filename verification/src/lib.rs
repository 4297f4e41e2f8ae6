//! A Vietnamese Telex input engine.
pub mod ascii;
pub mod bus;
pub mod engine;
pub mod frontend;
pub mod lines;
pub mod release;
mod text;
pub mod tone;
pub mod transform;
pub mod vowel;

pub use engine::{Action, TelexEngine};
