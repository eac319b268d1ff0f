//! Policy-driven text sanitizer for language-model input and output.
//!
//! Text passed to or from a language model may carry hidden or disallowed
//! code points (invisible tag characters, control characters, emoji outside
//! the deployment's allow-list). This crate classifies every code point
//! against an immutable [`RangePolicy`] and removes the whole span between
//! the first and the last disallowed code point, optionally replacing it
//! with a byte-count marker.

pub mod decimal;
pub mod policy;
pub use policy::CodePointRange;
pub use policy::RangePolicy;

pub mod san;
pub use san::sanitize;

pub mod cow;
pub use cow::CowStr;
pub use cow::StrStorage;
