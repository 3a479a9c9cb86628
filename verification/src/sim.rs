//! A scripted, in-memory tunnel backend. It launches no processes:
//! successive start attempts consume a script of outcomes, and each
//! simulated process records whether it is still alive and whether it was
//! killed. Used to exercise the registry and the reconciliation rules
//! without a real provider binary.

use vstd::prelude::*;

use crate::tunnel::{TunnelError, TunnelProvider};

verus! {

/// What the next simulated start attempt does.
pub enum SimOutcome {
    /// The process comes up and announces this public URL.
    Announce(String),
    /// The spawn itself fails with this reason.
    FailToLaunch(String),
    /// The process launches but never announces a URL: the start times
    /// out, and the process is killed and reaped before the error is
    /// returned.
    NeverAnnounce,
}

impl Clone for SimOutcome {
    fn clone(&self) -> (r: Self)
        ensures
            r == *self,
    {
        match self {
            SimOutcome::Announce(u) => SimOutcome::Announce(u.clone()),
            SimOutcome::FailToLaunch(m) => SimOutcome::FailToLaunch(m.clone()),
            SimOutcome::NeverAnnounce => SimOutcome::NeverAnnounce,
        }
    }
}

/// The observable state of one simulated process.
#[derive(Clone, Copy, Debug, PartialEq, Eq, Structural)]
pub struct SimProcess {
    /// The process is still running.
    pub alive: bool,
    /// The backend killed it (on `stop`, or on a start timeout).
    pub killed: bool,
}

/// The scripted backend. Handles are indexes into the list of simulated
/// processes, in spawn order.
pub struct SimulatedProvider {
    script: Vec<SimOutcome>,
    next_outcome: usize,
    procs: Vec<SimProcess>,
}

/// Replace the entry at `i` of `procs` with `p`.
fn set_proc(procs: &mut Vec<SimProcess>, i: usize, p: SimProcess)
    requires
        i < old(procs)@.len(),
    ensures
        final(procs)@ =~= old(procs)@.update(i as int, p),
{
    let n = procs.len();
    let mut out: Vec<SimProcess> = Vec::new();
    let mut j: usize = 0;
    while j < n
        invariant
            n == procs@.len(),
            i < n,
            j <= n,
            out@.len() == j,
            forall|k: int| 0 <= k < j ==> out@[k] == if k == i as int {
                p
            } else {
                procs@[k]
            },
        decreases n - j,
    {
        if j == i {
            out.push(p);
        } else {
            out.push(procs[j]);
        }
        j += 1;
    }
    *procs = out;
}

impl SimulatedProvider {
    /// The outcomes that successive start attempts will consume.
    pub closed spec fn script(self) -> Seq<SimOutcome> {
        self.script@
    }

    /// How many start attempts have consumed an outcome so far.
    pub closed spec fn cursor(self) -> int {
        self.next_outcome as int
    }

    /// The simulated processes, in spawn order.
    pub closed spec fn procs(self) -> Seq<SimProcess> {
        self.procs@
    }

    /// A backend that will play out the given outcomes, one per start
    /// attempt; attempts beyond the script fail to launch.
    pub fn new(script: Vec<SimOutcome>) -> (r: Self)
        ensures
            r.script() == script@,
            r.cursor() == 0,
            r.procs() =~= Seq::<SimProcess>::empty(),
    {
        SimulatedProvider { script, next_outcome: 0, procs: Vec::new() }
    }

    /// How many start attempts have consumed a scripted outcome.
    pub fn outcomes_consumed(&self) -> (r: usize)
        ensures
            r == self.cursor(),
    {
        self.next_outcome
    }

    /// How many simulated processes were ever spawned.
    pub fn spawned(&self) -> (r: usize)
        ensures
            r == self.procs().len(),
    {
        self.procs.len()
    }

    /// The state of the `h`-th spawned process.
    pub fn process(&self, h: usize) -> (r: SimProcess)
        requires
            h < self.procs().len(),
        ensures
            r == self.procs()[h as int],
    {
        self.procs[h]
    }

    /// Let the `h`-th process exit on its own (not killed by the
    /// backend), as a crashed provider would.
    pub fn mark_exited(&mut self, h: usize)
        requires
            h < old(self).procs().len(),
        ensures
            final(self).script() == old(self).script(),
            final(self).cursor() == old(self).cursor(),
            final(self).procs() =~= old(self).procs().update(
                h as int,
                SimProcess { alive: false, ..old(self).procs()[h as int] },
            ),
    {
        let p = self.procs[h];
        set_proc(&mut self.procs, h, SimProcess { alive: false, killed: p.killed });
    }
}

impl TunnelProvider for SimulatedProvider {
    type Handle = usize;

    open spec fn spec_name(&self) -> Seq<char> {
        "simulated"@
    }

    fn name(&self) -> (r: &'static str)
        ensures
            r@ == self.spec_name(),
    {
        "simulated"
    }

    fn start(&mut self, _port: u16) -> (r: Result<(usize, String), TunnelError>)
        ensures
            final(self).script() == old(self).script(),
            old(self).cursor() >= old(self).script().len() ==> r is Err
                && *final(self) == *old(self),
            old(self).cursor() < old(self).script().len() ==> {
                &&& final(self).cursor() == old(self).cursor() + 1
                &&& (old(self).script()[old(self).cursor()] matches SimOutcome::Announce(u)
                    ==> (r matches Ok((h, url)) && url@ == u@
                        && h == old(self).procs().len()
                        && final(self).procs() =~= old(self).procs().push(
                            SimProcess { alive: true, killed: false },
                        )))
                &&& (old(self).script()[old(self).cursor()] matches SimOutcome::FailToLaunch(m)
                    ==> (r matches Err(e) && e matches TunnelError::StartFailed(msg)
                        && msg@ == m@ && final(self).procs() == old(self).procs()))
                &&& (old(self).script()[old(self).cursor()] is NeverAnnounce
                    ==> (r matches Err(e) && e is UrlTimeout
                        && final(self).procs() =~= old(self).procs().push(
                            SimProcess { alive: false, killed: true },
                        )))
            },
    {
        if self.next_outcome >= self.script.len() {
            return Err(TunnelError::StartFailed("no scripted outcome left".to_owned()));
        }
        let outcome = self.script[self.next_outcome].clone();
        self.next_outcome += 1;
        match outcome {
            SimOutcome::Announce(u) => {
                let h = self.procs.len();
                self.procs.push(SimProcess { alive: true, killed: false });
                Ok((h, u))
            },
            SimOutcome::FailToLaunch(m) => Err(TunnelError::StartFailed(m)),
            SimOutcome::NeverAnnounce => {
                self.procs.push(SimProcess { alive: false, killed: true });
                Err(TunnelError::UrlTimeout)
            },
        }
    }

    fn stop(&mut self, handle: &mut usize) -> (r: Result<(), TunnelError>)
        ensures
            r is Ok,
            final(self).script() == old(self).script(),
            final(self).cursor() == old(self).cursor(),
            *old(handle) < old(self).procs().len() ==> final(self).procs()
                =~= old(self).procs().update(
                *old(handle) as int,
                SimProcess { alive: false, killed: true },
            ),
            *old(handle) >= old(self).procs().len() ==> *final(self) == *old(self),
    {
        if *handle < self.procs.len() {
            set_proc(&mut self.procs, *handle, SimProcess { alive: false, killed: true });
        }
        Ok(())
    }

    fn probe_dead(&mut self, handle: &mut usize) -> (r: bool)
        ensures
            *final(self) == *old(self),
            r == if (*old(handle) as int) < old(self).procs().len() {
                !old(self).procs()[*old(handle) as int].alive
            } else {
                true
            },
    {
        if *handle < self.procs.len() {
            !self.procs[*handle].alive
        } else {
            true
        }
    }
}

} // verus!
