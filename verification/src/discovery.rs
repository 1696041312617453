use std::collections::HashMap;

use vstd::prelude::*;

use crate::text::str_equal;

verus! {

/// An IP address.
#[derive(Clone, Copy, Debug, PartialEq, Eq)]
pub enum IpAddress {
    V4([u8; 4]),
    V6([u8; 16]),
}

/// An IP address and a port.
#[derive(Clone, Copy, Debug, PartialEq, Eq)]
pub struct SocketAddress {
    pub ip: IpAddress,
    pub port: u16,
}

/// An address within a network.
#[derive(Debug)]
pub struct NetworkAddress {
    pub network: String,
    pub address: IpAddress,
}

/// What a `NamespacedHostname` says, as text.
pub struct NamespacedHostnameView {
    pub namespace: Seq<char>,
    pub hostname: Seq<char>,
}

/// The hostname of a service, with the namespace the service is in.
#[derive(Debug)]
pub struct NamespacedHostname {
    pub namespace: String,
    pub hostname: String,
}

impl View for NamespacedHostname {
    type V = NamespacedHostnameView;

    open spec fn view(&self) -> NamespacedHostnameView {
        NamespacedHostnameView { namespace: self.namespace@, hostname: self.hostname@ }
    }
}

impl NamespacedHostname {
    /// Whether `self` and `other` name the same host in the same namespace.
    pub fn equals(&self, other: &NamespacedHostname) -> (equal: bool)
        ensures
            equal == (self@ == other@),
    {
        str_equal(self.namespace.as_str(), other.namespace.as_str()) && str_equal(
            self.hostname.as_str(),
            other.hostname.as_str(),
        )
    }
}

impl Clone for NamespacedHostname {
    fn clone(&self) -> (copy: Self)
        ensures
            copy == *self,
    {
        NamespacedHostname { namespace: self.namespace.clone(), hostname: self.hostname.clone() }
    }
}

/// Whether an endpoint can take requests.
#[derive(Clone, Copy, Debug, PartialEq, Eq, Structural)]
pub enum HealthStatus {
    Healthy,
    Unhealthy,
}

/// A workload that serves a service.
#[derive(Debug)]
pub struct Endpoint {
    pub workload_uid: String,
    /// From each port of the service to the port of the workload.
    pub port: HashMap<u16, u16>,
    pub status: HealthStatus,
}

/// A service that the gateway knows of.
#[derive(Debug)]
pub struct Service {
    pub name: String,
    pub namespace: String,
    pub hostname: String,
    /// The virtual addresses of the service.
    pub vips: Vec<NetworkAddress>,
    /// From each port of the service to the port of its endpoints.
    pub ports: HashMap<u16, u16>,
    /// The workloads that serve it.
    pub endpoints: Vec<Endpoint>,
}

impl Service {
    /// The name of the service as a host in its namespace.
    pub open spec fn spec_namespaced_hostname(&self) -> NamespacedHostnameView {
        NamespacedHostnameView { namespace: self.namespace@, hostname: self.hostname@ }
    }

    /// The name of the service as a host in its namespace.
    pub fn namespaced_hostname(&self) -> (name: NamespacedHostname)
        ensures
            name@ == self.spec_namespaced_hostname(),
    {
        NamespacedHostname { namespace: self.namespace.clone(), hostname: self.hostname.clone() }
    }
}

} // verus!
