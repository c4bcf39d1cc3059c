//! Name resolution is a collaborator: the library keeps only the resolver
//! handle type. Resolution itself (hostname to IP literals) is network I/O
//! and lives with the embedding program.

use vstd::prelude::*;

verus! {

/// A handle for the name-resolution collaborator.
pub struct DNSResolver;

impl DNSResolver {
    pub fn new() -> DNSResolver {
        DNSResolver
    }
}

} // verus!
