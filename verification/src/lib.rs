//! Schema-driven code generation for native modules: the schema model, the
//! generator that derives every artifact from it, the ordering of type
//! definitions by dependency, and the schema fingerprint.

pub mod android;
pub mod canonical;
pub mod check;
pub mod cxx;
pub mod deps;
pub mod doctor;
pub mod error;
pub mod generator;
pub mod hash;
pub mod header;
pub mod rust;
pub mod schema;
pub mod templates;
pub mod text;
