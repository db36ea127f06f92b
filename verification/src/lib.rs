//! A parser-combinator engine: parsers are composed from small parsing units
//! inside a context that owns them, and a failed parse is reported as a ranked
//! diagnostic rather than as a single failure point.
//!
//! `pool` is the arena that owns the nodes of the combinators; `parsers` holds
//! the failures and their algebra, the nodes, the context and the parsers.

pub mod parsers;
pub mod pool;
