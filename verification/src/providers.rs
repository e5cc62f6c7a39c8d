//! The providers that can supply the router's configuration.
use vstd::prelude::*;

verus! {

/// A configurable provider: over HTTP, or from Moogsoft.
#[derive(Clone, Copy, Debug, PartialEq, Eq, Structural)]
pub enum Providers {
    Http,
    Moogsoft,
}

impl Providers {
    /// The name under which the provider is configured.
    pub fn get_component_name(&self) -> (r: &'static str)
        ensures
            *self == Providers::Http ==> r@ == "http"@,
            *self == Providers::Moogsoft ==> r@ == "moogsoft"@,
    {
        match self {
            Providers::Http => "http",
            Providers::Moogsoft => "moogsoft",
        }
    }
}

} // verus!
