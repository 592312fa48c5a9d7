use super::data::Data;
use super::domain::{Domain, DomainView};
use vstd::prelude::*;

verus! {

/// An answer record: the domain it is about, how long it may be cached, and
/// its typed payload. The payload length on the wire is derived from the
/// payload and never stored.
#[derive(Debug, PartialEq)]
pub struct Route {
    domain: Domain,
    ttl: u32,
    data: Data,
}

/// What a [`Route`] holds, over the view of its domain.
pub struct RouteView {
    pub domain: DomainView,
    pub ttl: u32,
    pub data: Data,
}

impl View for Route {
    type V = RouteView;

    closed spec fn view(&self) -> RouteView {
        RouteView { domain: self.domain@, ttl: self.ttl, data: self.data }
    }
}

impl Clone for Route {
    fn clone(&self) -> (r: Self)
        ensures
            r == *self,
    {
        Route { domain: self.domain.clone(), ttl: self.ttl, data: self.data }
    }
}

impl Route {
    /// The answer that `domain` has `data`, to be cached for `ttl` seconds.
    pub fn new(domain: Domain, ttl: u32, data: Data) -> (r: Self)
        ensures
            r@ == (RouteView { domain: domain@, ttl, data }),
    {
        Self { domain, ttl, data }
    }

    /// The domain that the answer is about.
    pub fn domain(&self) -> (r: &Domain)
        ensures
            r@ == self@.domain,
    {
        &self.domain
    }

    /// The time to live, in seconds.
    pub fn ttl(&self) -> (r: u32)
        ensures
            r == self@.ttl,
    {
        self.ttl
    }

    /// The payload.
    pub fn data(&self) -> (r: &Data)
        ensures
            *r == self@.data,
    {
        &self.data
    }
}

/// The views of a list of routes, in order.
pub open spec fn route_views(s: Seq<Route>) -> Seq<RouteView> {
    s.map_values(|a: Route| a@)
}

} // verus!
