//! Data shapes for the downstream recursive-descent parser, together with
//! the token-reading helpers for operator symbols. The tokenizer itself
//! lives in `token`; these shapes only consume its output.

pub mod boolean;
pub mod numeric;
