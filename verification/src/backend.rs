//! What the adguard service declares to the generic service lifecycle:
//! its provider name, the runtimes it can be placed on, the lifecycle
//! operations it supports, its default port and the paths holding its state.

use vstd::prelude::*;
use vstd::string::*;

verus! {

/// A kind of workload placement.
#[derive(Debug, Clone, Copy, PartialEq, Eq, Structural)]
pub enum Runtime {
    Docker,
    Podman,
    Lxc,
    Vm,
}

/// A lifecycle operation a service backend can support.
#[derive(Debug, Clone, Copy, PartialEq, Eq, Structural)]
pub enum ServiceCapability {
    Deploy,
    Backup,
    Restore,
    Configure,
    Status,
}

/// adguard service backend: AdGuard Home DNS sinkhole. Holds only the
/// provider name; per-instance endpoint and credentials come with each
/// operation.
#[derive(Debug, Clone, Copy)]
pub struct AdguardBackend {
    provider: &'static str,
}

impl AdguardBackend {
    /// The provider name this backend was created with.
    pub closed spec fn provider_name(&self) -> Seq<char> {
        self.provider@
    }

    /// A backend registered under `provider`.
    pub fn new(provider: &'static str) -> (b: Self)
        ensures
            b.provider_name() == provider@,
    {
        AdguardBackend { provider }
    }

    /// The provider name.
    pub fn provider(&self) -> (p: &str)
        ensures
            p@ == self.provider_name(),
    {
        self.provider
    }

    /// Runtimes adguard can be placed on.
    pub fn runtimes(&self) -> (r: Vec<Runtime>)
        ensures
            r@ == seq![Runtime::Docker, Runtime::Podman, Runtime::Lxc, Runtime::Vm],
    {
        let mut r = Vec::new();
        r.push(Runtime::Docker);
        r.push(Runtime::Podman);
        r.push(Runtime::Lxc);
        r.push(Runtime::Vm);
        r
    }

    /// Lifecycle operations adguard supports.
    pub fn capabilities(&self) -> (c: Vec<ServiceCapability>)
        ensures
            c@ == seq![
                ServiceCapability::Deploy,
                ServiceCapability::Backup,
                ServiceCapability::Restore,
                ServiceCapability::Configure,
                ServiceCapability::Status,
            ],
    {
        let mut c = Vec::new();
        c.push(ServiceCapability::Deploy);
        c.push(ServiceCapability::Backup);
        c.push(ServiceCapability::Restore);
        c.push(ServiceCapability::Configure);
        c.push(ServiceCapability::Status);
        c
    }

    /// The port AdGuard Home's first-run setup interface listens on.
    pub fn default_port(&self) -> (port: u16)
        ensures
            port == 3000,
    {
        3000
    }

    /// In-workload paths holding configuration and data: everything adguard
    /// declares for backup.
    pub fn data_paths(&self) -> (paths: Vec<String>)
        ensures
            paths@.len() == 1,
            paths@[0]@ == "/config"@,
    {
        let mut paths = Vec::new();
        paths.push(String::from_str("/config"));
        paths
    }
}

} // verus!
