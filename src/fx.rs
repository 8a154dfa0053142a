//! The hasher of `rustc_hash`, which the blocklist and the cache key their tables with.
use vstd::prelude::*;

verus! {

/// `rustc_hash::FxBuildHasher`, carried opaquely in the types of the hash tables.
#[verifier::external_type_specification]
#[verifier::external_body]
pub struct ExFxBuildHasher(rustc_hash::FxBuildHasher);

} // verus!
