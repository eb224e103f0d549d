//! A deterministic, cache-backed pipeline that turns raw contract bytecode
//! into a normalized interface: the list of callable function signatures a
//! contract exposes, each with its selector, mutability and payability flags.
//!
//! The verified core covers the stable cache-key derivation (`keys`), the
//! normalization of the decompilation engine's raw structures (`normalize`),
//! the stored text format with its proved round trip (`codec`), and the
//! cache-through fetch protocol (`fetch`). The store and the engine stay
//! outside: a caller drives `fetch::fetch_step` with the outcome of each
//! outside step and receives the records or a typed error.

pub mod codec;
pub mod digits;
pub mod fetch;
pub mod hexstr;
pub mod keys;
pub mod normalize;
pub mod records;
mod strutil;
