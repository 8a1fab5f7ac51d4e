//! Word boundaries.

pub mod ascii;
pub mod ascii_tokenizer;
pub mod ascii_window;
pub mod automaton;
pub mod character_laws;
pub mod class;
pub mod dfa;
pub mod laws;
pub mod listener;
pub mod model;
pub mod neon;
pub mod properties;
pub mod rule_laws;
pub mod rules;
pub mod simd;
pub mod tally;
pub mod text;
pub mod token;
pub mod transitions;
pub mod window;
pub mod window_laws;
pub mod windowed;

pub use ascii::ascii_is_break;
pub use ascii_tokenizer::{tokenize_ascii, tokenize_ascii_to};
pub use dfa::{tokenize, tokenize_to};
pub use neon::{
    load_byte_info, load_table_128, maybe_process_ascii_window_neon,
    maybe_process_ascii_window_neon32, move_nibble_mask, table_lookup, table_lookup32, Neon, Neon32,
    NeonWindowTokens,
};
pub use tally::count_tokens;
pub use token::{Options, TokenProperties};
pub use window::{maybe_process_ascii_window, Scalar, WindowProcessor, WindowTokens};
pub use windowed::{tokenize_windowed, tokenize_windowed_to, tokenize_windowed_with};
