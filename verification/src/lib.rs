//! A verified codec for a self-describing, tagged binary container format.
//!
//! Values carry a runtime type tag (a *signature* string) alongside their
//! payload.  The crate provides:
//!
//! * a signature grammar with a verified validator ([`signature`]),
//! * a self-describing value type with a mathematical model ([`variant`]),
//! * a capability trait for types that can be tagged, encoded and decoded
//!   ([`value`]),
//! * the optional ("maybe") wrapping transform over any such type, with a
//!   proved round trip ([`maybe`]),
//! * a builder that accumulates values into nested containers under a
//!   statically checked open/close discipline ([`builder`]).

pub mod builder;
pub mod maybe;
pub mod signature;
pub mod value;
pub mod variant;
