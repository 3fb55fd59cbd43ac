//! A view of the catalog that is scoped to one mount.

use vstd::prelude::*;
use vstd::string::*;

use crate::pipe::{Endpoint, EndpointView};

verus! {

/// The catalog as one provider sees it: a handler asks by the path it serves, and the mount
/// is fixed.
#[derive(Debug)]
pub struct Catalog {
    mount: String,
}

impl Catalog {
    /// The mount of the provider.
    pub closed spec fn scope(&self) -> Seq<char> {
        self.mount@
    }

    /// The catalog of the provider at `mount`.
    pub fn new(mount: &str) -> (r: Catalog)
        ensures
            r.scope() == mount@,
    {
        Catalog { mount: mount.to_string() }
    }

    /// The endpoint under which the schema of `path` is kept.
    pub fn endpoint(&self, path: &str) -> (r: Endpoint)
        ensures
            r@ == (EndpointView { mount: self.scope(), path: path@ }),
    {
        Endpoint::new(self.mount.as_str(), path)
    }
}

} // verus!
