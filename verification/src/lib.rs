//! String interning with per-domain validation.
//!
//! Equal string contents are deduplicated into a single shared, immutable
//! backing allocation held by an intern table. Callers receive cheap,
//! cloneable `Symbol` handles, each tagged at the type level with a
//! domain implementing `Validator`. Distinct domains may validate the
//! same content differently while still sharing storage: the table
//! deduplicates by content alone, but every construction path runs the
//! calling domain's validation first, so no handle is ever produced that
//! its own domain would reject.
//!
//! The table is an explicitly owned service, not an implicit singleton:
//! handles are registered with it by `resolve` and `acquire` and handed
//! back with `release`, and releasing the last registered handle for a
//! content removes that content's slot. A plain `clone` is an uncounted
//! alias: cheap, valid for as long as the value lives, but with no say
//! over the slot's lifetime. Embedders that want a process-wide table
//! wrap one instance in their own synchronization.

mod base_type;
mod table;
mod validator;

pub use base_type::lemma_lex_cmp_equal_iff;
pub use base_type::lemma_lex_cmp_flip;
pub use base_type::lemma_lex_cmp_transitive;
pub use base_type::lemma_round_trip;
pub use base_type::lemma_same_content_same_symbol;
pub use base_type::lex_cmp;
pub use base_type::Symbol;
pub use table::InternTable;
pub use validator::is_alphanumeric_char;
pub use validator::AlphaNumString;
pub use validator::AnyString;
pub use validator::NotAlphaNumeric;
pub use validator::Validator;
