use vstd::prelude::*;

pub mod types;
pub mod segment;
pub mod hashing;
pub mod traits;
pub mod hashers;
pub mod analysis;
pub mod selector;
pub mod error;
pub mod decoders;
pub mod pipeline;
pub mod quantize;
pub mod encoders;
pub mod format;
pub mod cli;
pub mod tui;
pub mod editor;
pub mod parse;
pub mod menu;
pub mod timeline;

verus! {

} // verus!
