//! Core tunnel data model: the per-tunnel snapshot handed to callers, the
//! failure taxonomy, and the provider-adapter trait that a tunnel backend
//! implements.

use vstd::prelude::*;

verus! {

/// Mathematical model of a [`TunnelInfo`] snapshot.
pub ghost struct TunnelInfoV {
    pub port: u16,
    pub provider: Seq<char>,
    pub url: Seq<char>,
    pub started_at_ms: u64,
    pub last_renewed_at_ms: u64,
}

/// Immutable snapshot of one active tunnel, produced afresh on every
/// successful start or renew.
pub struct TunnelInfo {
    pub port: u16,
    pub provider: String,
    pub url: String,
    pub started_at_ms: u64,
    pub last_renewed_at_ms: u64,
}

impl View for TunnelInfo {
    type V = TunnelInfoV;

    open spec fn view(&self) -> TunnelInfoV {
        TunnelInfoV {
            port: self.port,
            provider: self.provider@,
            url: self.url@,
            started_at_ms: self.started_at_ms,
            last_renewed_at_ms: self.last_renewed_at_ms,
        }
    }
}

impl Clone for TunnelInfo {
    fn clone(&self) -> (r: Self)
        ensures
            r@ == self@,
    {
        TunnelInfo {
            port: self.port,
            provider: self.provider.clone(),
            url: self.url.clone(),
            started_at_ms: self.started_at_ms,
            last_renewed_at_ms: self.last_renewed_at_ms,
        }
    }
}

/// A tunnel backend: launches one provider subprocess per local port,
/// watches its output for the announced public URL, and stops it again.
///
/// Only one concrete backend ships with the library, but the registry is
/// written against this interface so another provider can plug in; callers
/// outside the library may implement it for a real subprocess-backed
/// adapter, and are then responsible for honouring the method contracts.
pub trait TunnelProvider: Sized {
    /// Owned handle to one running provider process.
    type Handle;

    /// The backend's identifier, at the specification level. The default
    /// names nothing; a backend verified in this crate overrides it
    /// alongside [`TunnelProvider::name`].
    open spec fn spec_name(&self) -> Seq<char> {
        Seq::empty()
    }

    /// Short identifier of the backend, recorded in every snapshot.
    fn name(&self) -> (r: &'static str)
        ensures
            r@ == self.spec_name(),
    ;

    /// Launch a tunnel for the given local port and hand back the process
    /// handle together with the public URL the process announced.
    ///
    /// A failure is either `StartFailed` (the process could not be
    /// launched) or `UrlTimeout` (it launched but announced no URL within
    /// the deadline; the process has already been killed and reaped).
    fn start(&mut self, port: u16) -> (r: Result<(Self::Handle, String), TunnelError>)
        ensures
            r matches Err(e) ==> e is StartFailed || e is UrlTimeout,
    ;

    /// Kill and reap the process behind the handle.
    fn stop(&mut self, handle: &mut Self::Handle) -> (r: Result<(), TunnelError>)
        ensures
            r matches Err(e) ==> e is StopFailed,
    ;

    /// Non-blocking liveness probe: true when the process behind the
    /// handle has exited, or when its status can no longer be read
    /// (conservatively treated as dead).
    fn probe_dead(&mut self, handle: &mut Self::Handle) -> bool;

    /// Assemble the snapshot for a tunnel that was started at `now_ms`:
    /// a fresh start is its own most recent renewal, so both timestamps
    /// are the start instant.
    fn build_info(&self, port: u16, url: String, now_ms: u64) -> (r: TunnelInfo)
        ensures
            r@.port == port,
            r@.provider == self.spec_name(),
            r@.url == url@,
            r@.started_at_ms == now_ms,
            r@.last_renewed_at_ms == now_ms,
    {
        TunnelInfo {
            port,
            provider: self.name().to_owned(),
            url,
            started_at_ms: now_ms,
            last_renewed_at_ms: now_ms,
        }
    }
}

/// Why a tunnel operation failed.
pub enum TunnelError {
    /// The provider binary is missing or could not be launched.
    StartFailed(String),
    /// The provider process launched but never announced a public URL
    /// within the deadline.
    UrlTimeout,
    /// The operation targeted a port with no active tunnel.
    NotRunning,
    /// The OS-level termination of the provider process failed.
    StopFailed(String),
}

} // verus!
