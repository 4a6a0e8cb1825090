//! A streaming XML well-formedness validator with a deliberately narrow
//! rule set: every close tag must name the most recently opened element,
//! and neither attribute values nor character data may contain the
//! markup-significant characters `&`, `<` and `>`.
//!
//! The validator consumes a finite sequence of parse events produced by an
//! external tokenizer, never stops at the first problem, and reports the
//! complete ordered list of violations once the stream is exhausted.

pub mod events;
pub mod source;
pub mod validate;
