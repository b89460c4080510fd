//! A file-backed manager for a JSON document of named database-connection
//! profiles: a codec for the document format, entry normalization, a
//! replace-or-append upsert and an exact-name delete, and a registry for the
//! current configuration file path.

pub mod codec;
pub mod errors;
pub mod manager;
pub mod model;
pub mod ops;
pub mod registry;
pub mod text;

use vstd::prelude::*;

verus! {

} // verus!
