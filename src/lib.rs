//! EXPRESS schemas (ISO 10303-11) and exchange files (ISO 10303-21).
//!
//! - `token`, `exchange`, `instances`: the exchange-file syntax, from single tokens
//!   to whole files, and the table that finds entity instances by identifier.
//! - `ast`, `namespace`, `supertype`, `derive`: EXPRESS declarations, their scoped
//!   names, and readers for `SUPERTYPE OF` expressions and `DERIVE` clauses.
//! - `constraints`, `ir`: what is computed from a schema: the instantiable subtype
//!   bundles of each supertype, and the inheritance graph of its entities.
pub mod ast;
pub mod chars;
pub mod constraints;
pub mod derive;
pub mod exchange;
pub mod express;
pub mod instances;
pub mod ir;
pub mod namespace;
pub mod supertype;
pub mod token;
pub mod typeref;
