use vstd::prelude::*;

use crate::service::{get_service_name, opt_view, service_of};

verus! {

/// The outcome of probing one port.
#[derive(Clone)]
pub struct PortResult {
    pub port: u16,
    pub is_open: bool,
    pub service: Option<String>,
}

impl PortResult {
    /// A record whose service name is always the one the table gives for the port.
    pub open spec fn named(&self) -> bool {
        opt_view(self.service) == service_of(self.port)
    }

    pub fn new(port: u16, is_open: bool) -> (r: PortResult)
        ensures
            r.port == port,
            r.is_open == is_open,
            r.named(),
    {
        PortResult { port, is_open, service: get_service_name(port) }
    }
}

} // verus!
