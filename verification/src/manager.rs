//! The tunnel registry: an in-memory mapping from local port to one active
//! tunnel, owning the provider process handles. Entries are kept sorted by
//! port and unique per port; every mutation states exactly how the mapping
//! changed.

use vstd::prelude::*;

use crate::tunnel::{TunnelError, TunnelInfo, TunnelInfoV, TunnelProvider};

verus! {

/// Entries listed in ascending port order, each port at most once.
pub open spec fn ports_sorted(s: Seq<TunnelInfoV>) -> bool {
    forall|i: int, j: int| 0 <= i < j < s.len() ==> s[i].port < s[j].port
}

/// Some entry of `s` is for `port`.
pub open spec fn has_port(s: Seq<TunnelInfoV>, port: u16) -> bool {
    exists|i: int| 0 <= i < s.len() && s[i].port == port
}

/// Index of the entry for `port` (meaningful only when `has_port` holds).
pub open spec fn port_index(s: Seq<TunnelInfoV>, port: u16) -> int {
    choose|i: int| 0 <= i < s.len() && s[i].port == port
}

/// The entry for `port` (meaningful only when `has_port` holds).
pub open spec fn info_of(s: Seq<TunnelInfoV>, port: u16) -> TunnelInfoV {
    s[port_index(s, port)]
}

/// The entries of `s` as a port-keyed map.
pub open spec fn map_of(s: Seq<TunnelInfoV>) -> Map<u16, TunnelInfoV> {
    Map::new(|p: u16| has_port(s, p), |p: u16| info_of(s, p))
}

/// The entries of `s` from index `i` on whose death flag is clear, in
/// order: what a prune against those flags leaves behind.
pub open spec fn kept_entries(s: Seq<TunnelInfoV>, dead: Seq<bool>, i: int) -> Seq<TunnelInfoV>
    decreases s.len() - i,
{
    if i < 0 || i >= s.len() {
        Seq::empty()
    } else {
        let rest = kept_entries(s, dead, i + 1);
        if dead[i] {
            rest
        } else {
            seq![s[i]] + rest
        }
    }
}

/// The ports of the entries of `s` from index `i` on whose death flag is
/// set, in order: what a prune against those flags returns.
pub open spec fn flagged_ports(s: Seq<TunnelInfoV>, dead: Seq<bool>, i: int) -> Seq<u16>
    decreases s.len() - i,
{
    if i < 0 || i >= s.len() {
        Seq::empty()
    } else {
        let rest = flagged_ports(s, dead, i + 1);
        if dead[i] {
            seq![s[i].port] + rest
        } else {
            rest
        }
    }
}

/// In a sorted sequence, the entry at index `i` is the one and only entry
/// for its port.
pub proof fn lemma_port_at(s: Seq<TunnelInfoV>, i: int)
    requires
        ports_sorted(s),
        0 <= i < s.len(),
    ensures
        has_port(s, s[i].port),
        port_index(s, s[i].port) == i,
        info_of(s, s[i].port) == s[i],
{
    assert(has_port(s, s[i].port));
    let j = port_index(s, s[i].port);
    if i < j {
        assert(s[i].port < s[j].port);
    } else if j < i {
        assert(s[j].port < s[i].port);
    }
}

/// A port appears at most once among sorted entries.
pub proof fn lemma_sorted_ports_unique(s: Seq<TunnelInfoV>, i: int, j: int)
    requires
        ports_sorted(s),
        0 <= i < s.len(),
        0 <= j < s.len(),
        s[i].port == s[j].port,
    ensures
        i == j,
{
    if i < j {
        assert(s[i].port < s[j].port);
    } else if j < i {
        assert(s[j].port < s[i].port);
    }
}

/// Inserting an entry at its sorted position keeps the sequence sorted and
/// adds exactly one binding to the port map.
pub proof fn lemma_insert_sorted(s: Seq<TunnelInfoV>, k: int, v: TunnelInfoV)
    requires
        ports_sorted(s),
        0 <= k <= s.len(),
        forall|i: int| 0 <= i < k ==> s[i].port < v.port,
        forall|i: int| k <= i < s.len() ==> v.port < s[i].port,
    ensures
        ports_sorted(s.insert(k, v)),
        !has_port(s, v.port),
        map_of(s.insert(k, v)) =~= map_of(s).insert(v.port, v),
{
    let t = s.insert(k, v);
    assert(forall|i: int| 0 <= i < k ==> t[i] == s[i]);
    assert(t[k] == v);
    assert(forall|i: int| k < i < t.len() ==> t[i] == s[i - 1]);
    assert(ports_sorted(t));
    assert(!has_port(s, v.port));
    assert forall|p: u16| #[trigger] map_of(t).contains_key(p)
        <==> map_of(s).insert(v.port, v).contains_key(p) by {
        if p == v.port {
            assert(t[k].port == p);
            assert(has_port(t, p));
        } else {
            if has_port(s, p) {
                let i = port_index(s, p);
                if i < k {
                    assert(t[i].port == p);
                } else {
                    assert(t[i + 1].port == p);
                }
                assert(has_port(t, p));
            }
            if has_port(t, p) {
                let i = port_index(t, p);
                if i < k {
                    assert(s[i].port == p);
                } else {
                    assert(i != k);
                    assert(s[i - 1].port == p);
                }
                assert(has_port(s, p));
            }
        }
    }
    assert forall|p: u16| map_of(t).contains_key(p) implies #[trigger] map_of(t)[p]
        == map_of(s).insert(v.port, v)[p] by {
        if p == v.port {
            lemma_port_at(t, k);
        } else {
            let i = port_index(s, p);
            assert(0 <= i < s.len() && s[i].port == p);
            if i < k {
                lemma_port_at(t, i);
            } else {
                lemma_port_at(t, i + 1);
            }
        }
    }
}

/// Removing the entry at index `i` keeps the sequence sorted and removes
/// exactly that entry's binding from the port map.
pub proof fn lemma_remove_sorted(s: Seq<TunnelInfoV>, i: int)
    requires
        ports_sorted(s),
        0 <= i < s.len(),
    ensures
        ports_sorted(s.remove(i)),
        map_of(s.remove(i)) =~= map_of(s).remove(s[i].port),
{
    let t = s.remove(i);
    assert(forall|j: int| 0 <= j < i ==> t[j] == s[j]);
    assert(forall|j: int| i <= j < t.len() ==> t[j] == s[j + 1]);
    assert(ports_sorted(t));
    assert forall|p: u16| #[trigger] map_of(t).contains_key(p)
        <==> map_of(s).remove(s[i].port).contains_key(p) by {
        if has_port(t, p) {
            let j = port_index(t, p);
            if j < i {
                assert(s[j].port == p);
            } else {
                assert(s[j + 1].port == p);
            }
            assert(has_port(s, p));
            if p == s[i].port {
                if j < i {
                    lemma_sorted_ports_unique(s, j, i);
                } else {
                    lemma_sorted_ports_unique(s, j + 1, i);
                }
            }
        }
        if has_port(s, p) && p != s[i].port {
            let j = port_index(s, p);
            assert(j != i);
            if j < i {
                assert(t[j].port == p);
            } else {
                assert(t[j - 1].port == p);
            }
            assert(has_port(t, p));
        }
    }
    assert forall|p: u16| map_of(t).contains_key(p) implies #[trigger] map_of(t)[p]
        == map_of(s).remove(s[i].port)[p] by {
        let j = port_index(t, p);
        assert(0 <= j < t.len() && t[j].port == p);
        lemma_port_at(t, j);
        if j < i {
            lemma_port_at(s, j);
        } else {
            lemma_port_at(s, j + 1);
        }
    }
}

/// Law: a port that is active appears in the listing exactly once. Among
/// sorted entries — and [`TunnelManager::list`] returns them sorted — the
/// entry for an active port is one single index.
pub proof fn lemma_listed_exactly_once(s: Seq<TunnelInfoV>, port: u16)
    requires
        ports_sorted(s),
        has_port(s, port),
    ensures
        0 <= port_index(s, port) < s.len(),
        s[port_index(s, port)].port == port,
        forall|i: int| 0 <= i < s.len() && s[i].port == port ==> i == port_index(s, port),
{
    let j = port_index(s, port);
    assert(0 <= j < s.len() && s[j].port == port);
    assert forall|i: int| 0 <= i < s.len() && s[i].port == port implies i == j by {
        lemma_sorted_ports_unique(s, i, j);
    }
}

/// Law: renewing an active tunnel at an instant strictly after its last
/// renewal leaves it with a strictly greater renewal timestamp. The maps
/// are the registry's view before and after a successful
/// [`TunnelManager::renew`], which its contract pins to an insert of a
/// snapshot stamped `now_ms`.
pub proof fn lemma_renew_advances_timestamp(
    pre: Map<u16, TunnelInfoV>,
    post: Map<u16, TunnelInfoV>,
    port: u16,
    info: TunnelInfoV,
    now_ms: u64,
)
    requires
        pre.contains_key(port),
        info.last_renewed_at_ms == now_ms,
        post == pre.insert(port, info),
        now_ms > pre[port].last_renewed_at_ms,
    ensures
        post.contains_key(port),
        post[port].last_renewed_at_ms > pre[port].last_renewed_at_ms,
{
}

/// One registry entry: the owned process handle plus the snapshot that was
/// handed to the caller when the tunnel came up.
struct ActiveTunnel<H> {
    handle: H,
    info: TunnelInfo,
}

/// In-memory registry of active tunnels, keyed by local port, owning the
/// provider and the process handles. The process behind each entry was
/// alive as of the last liveness probe; probes that report death remove
/// the entry immediately.
pub struct TunnelManager<P: TunnelProvider> {
    provider: P,
    active: Vec<ActiveTunnel<P::Handle>>,
}

/// The snapshots behind a sequence of registry entries.
spec fn infos_of<H>(s: Seq<ActiveTunnel<H>>) -> Seq<TunnelInfoV> {
    s.map(|i: int, t: ActiveTunnel<H>| t.info@)
}

impl<P: TunnelProvider> TunnelManager<P> {
    /// The registry's entries, in display (ascending port) order.
    pub closed spec fn infos(self) -> Seq<TunnelInfoV> {
        infos_of(self.active@)
    }

    /// The registry as a port-keyed map.
    pub open spec fn tunnels(self) -> Map<u16, TunnelInfoV> {
        map_of(self.infos())
    }

    /// Entries sorted strictly by port: the structural invariant.
    pub open spec fn wf(self) -> bool {
        ports_sorted(self.infos())
    }

    /// The provider adapter owned by the registry.
    pub closed spec fn spec_provider(self) -> P {
        self.provider
    }

    /// A fresh registry with no active tunnels.
    pub fn new(provider: P) -> (r: Self)
        ensures
            r.wf(),
            r.infos() =~= Seq::<TunnelInfoV>::empty(),
            r.tunnels() =~= Map::<u16, TunnelInfoV>::empty(),
            r.spec_provider() == provider,
    {
        TunnelManager { provider, active: Vec::new() }
    }

    /// Read access to the provider adapter.
    pub fn provider(&self) -> (r: &P)
        ensures
            *r == self.spec_provider(),
    {
        &self.provider
    }

    /// Exclusive access to the provider adapter; the registry entries are
    /// untouched.
    pub fn provider_mut(&mut self) -> (r: &mut P)
        ensures
            *r == old(self).spec_provider(),
            final(self).spec_provider() == *final(r),
            final(self).infos() == old(self).infos(),
    {
        &mut self.provider
    }

    /// Index of the entry for `port`, if there is one.
    fn find_index(&self, port: u16) -> (r: Option<usize>)
        ensures
            match r {
                Some(i) => i < self.infos().len() && self.infos()[i as int].port == port,
                None => !has_port(self.infos(), port),
            },
    {
        let n = self.active.len();
        let mut i: usize = 0;
        while i < n
            invariant
                n == self.active.len(),
                i <= n,
                forall|k: int| 0 <= k < i ==> self.infos()[k].port != port,
            decreases n - i,
        {
            if self.active[i].info.port == port {
                assert(self.infos()[i as int].port == port);
                return Some(i);
            }
            assert(self.infos()[i as int].port != port);
            i += 1;
        }
        assert(!has_port(self.infos(), port));
        None
    }

    /// Position at which an entry for `port` belongs among the sorted
    /// entries.
    fn insert_pos(&self, port: u16) -> (k: usize)
        requires
            self.wf(),
            !has_port(self.infos(), port),
        ensures
            k <= self.infos().len(),
            forall|i: int| 0 <= i < k ==> self.infos()[i].port < port,
            forall|i: int| k <= i < self.infos().len() ==> port < self.infos()[i].port,
    {
        let n = self.active.len();
        let mut k: usize = 0;
        while k < n && self.active[k].info.port < port
            invariant
                n == self.active.len(),
                k <= n,
                forall|i: int| 0 <= i < k ==> self.infos()[i].port < port,
            decreases n - k,
        {
            assert(self.infos()[k as int].port < port);
            k += 1;
        }
        if k < n {
            assert(self.infos()[k as int].port >= port);
            assert(self.infos()[k as int].port != port) by {
                if self.infos()[k as int].port == port {
                    assert(has_port(self.infos(), port));
                }
            }
            assert forall|i: int| k <= i < self.infos().len()
                implies port < #[trigger] self.infos()[i].port by {
                if i > k {
                    assert(self.infos()[k as int].port < self.infos()[i].port);
                }
            }
        }
        k
    }

    /// Record what one provider start attempt for a port with no entry
    /// yielded. An announced handle and URL become the port's fresh entry
    /// and snapshot — the URL and both timestamps exactly as given, the
    /// provider field the backend's name; an error is handed back
    /// unchanged and the registry is untouched.
    pub fn record_start_outcome(
        &mut self,
        port: u16,
        outcome: Result<(P::Handle, String), TunnelError>,
        now_ms: u64,
    ) -> (r: Result<TunnelInfo, TunnelError>)
        requires
            old(self).wf(),
            !has_port(old(self).infos(), port),
        ensures
            final(self).wf(),
            final(self).spec_provider() == old(self).spec_provider(),
            outcome matches Ok(started) ==> (r matches Ok(info) && info@.port == port
                && info@.url == started.1@
                && info@.provider == old(self).spec_provider().spec_name()
                && info@.started_at_ms == now_ms && info@.last_renewed_at_ms == now_ms
                && final(self).tunnels() =~= old(self).tunnels().insert(port, info@)),
            outcome matches Err(e) ==> r == Err::<TunnelInfo, TunnelError>(e)
                && *final(self) == *old(self),
    {
        match outcome {
            Err(e) => Err(e),
            Ok((handle, url)) => {
                let info = self.provider.build_info(port, url, now_ms);
                let k = self.insert_pos(port);
                let stored = info.clone();
                let ghost pre = self.infos();
                self.active.insert(k, ActiveTunnel { handle, info: stored });
                proof {
                    assert(self.infos() =~= pre.insert(k as int, info@));
                    lemma_insert_sorted(pre, k as int, info@);
                }
                Ok(info)
            },
        }
    }

    /// Start a tunnel for `port`, or return the existing snapshot
    /// unchanged when one is already active (starting twice is a no-op,
    /// not an error; no second process is spawned).
    pub fn start(&mut self, port: u16, now_ms: u64) -> (r: Result<TunnelInfo, TunnelError>)
        requires
            old(self).wf(),
        ensures
            final(self).wf(),
            has_port(old(self).infos(), port) ==> *final(self) == *old(self)
                && (r matches Ok(info) && info@ == old(self).tunnels()[port]),
            !has_port(old(self).infos(), port) ==> {
                &&& r matches Ok(info) ==> info@.port == port && info@.started_at_ms == now_ms
                    && info@.last_renewed_at_ms == now_ms
                    && info@.provider == final(self).spec_provider().spec_name()
                    && final(self).tunnels() =~= old(self).tunnels().insert(port, info@)
                &&& r matches Err(e) ==> (e is StartFailed || e is UrlTimeout)
                    && final(self).infos() == old(self).infos()
                    && final(self).tunnels() == old(self).tunnels()
            },
    {
        match self.find_index(port) {
            Some(i) => {
                proof {
                    lemma_port_at(self.infos(), i as int);
                }
                Ok(self.active[i].info.clone())
            },
            None => {
                let outcome = self.provider.start(port);
                self.record_start_outcome(port, outcome, now_ms)
            },
        }
    }

    /// Remove the entry for `port` and stop its process. Fails with
    /// `NotRunning` when the port has no tunnel; a failed OS-level kill is
    /// reported as `StopFailed`, but the entry is gone either way.
    pub fn stop(&mut self, port: u16) -> (r: Result<(), TunnelError>)
        requires
            old(self).wf(),
        ensures
            final(self).wf(),
            !has_port(old(self).infos(), port) ==> *final(self) == *old(self)
                && (r matches Err(e) && e is NotRunning),
            has_port(old(self).infos(), port) ==> final(self).tunnels()
                =~= old(self).tunnels().remove(port)
                && (r is Ok || (r matches Err(e) && e is StopFailed)),
    {
        match self.find_index(port) {
            None => Err(TunnelError::NotRunning),
            Some(i) => {
                let ghost pre = self.infos();
                let mut t = self.active.remove(i);
                proof {
                    assert(self.infos() =~= pre.remove(i as int));
                    lemma_remove_sorted(pre, i as int);
                }
                self.provider.stop(&mut t.handle)
            },
        }
    }

    /// Stop-then-start for `port`, ignoring stop errors, yielding a fresh
    /// snapshot whose renewal instant is `now_ms`. Used both for explicit
    /// renewal and for recovery after a detected death.
    pub fn renew(&mut self, port: u16, now_ms: u64) -> (r: Result<TunnelInfo, TunnelError>)
        requires
            old(self).wf(),
        ensures
            final(self).wf(),
            r matches Ok(info) ==> info@.port == port && info@.started_at_ms == now_ms
                && info@.last_renewed_at_ms == now_ms
                && info@.provider == final(self).spec_provider().spec_name()
                && final(self).tunnels() =~= old(self).tunnels().insert(port, info@),
            r matches Err(e) ==> (e is StartFailed || e is UrlTimeout)
                && final(self).tunnels() =~= old(self).tunnels().remove(port),
    {
        if let Some(i) = self.find_index(port) {
            let ghost pre = self.infos();
            let mut t = self.active.remove(i);
            proof {
                assert(self.infos() =~= pre.remove(i as int));
                lemma_remove_sorted(pre, i as int);
            }
            let _ = self.provider.stop(&mut t.handle);
        } else {
            proof {
                assert(self.tunnels() =~= old(self).tunnels().remove(port));
            }
        }
        let ghost mid = self.tunnels();
        let outcome = self.provider.start(port);
        let r = self.record_start_outcome(port, outcome, now_ms);
        proof {
            assert(mid =~= old(self).tunnels().remove(port));
            if r is Ok {
                assert(self.tunnels() =~= old(self).tunnels().insert(port, r->Ok_0@));
            } else {
                assert(self.tunnels() =~= old(self).tunnels().remove(port));
            }
        }
        r
    }

    /// Run the non-blocking liveness probe over every entry, in display
    /// order, leaving every entry in place; flag `k` reports the `k`-th
    /// entry's process dead (exited, or the probe failed — the outside
    /// probe folds an error into `true`, the conservative policy).
    fn probe_entries(&mut self) -> (flags: Vec<bool>)
        ensures
            final(self).infos() == old(self).infos(),
            flags@.len() == old(self).infos().len(),
    {
        let ghost s0 = self.infos();
        let mut flags: Vec<bool> = Vec::new();
        let mut probed: Vec<ActiveTunnel<P::Handle>> = Vec::new();
        while self.active.len() > 0
            invariant
                flags@.len() == probed@.len(),
                infos_of(probed@) + self.infos() =~= s0,
            decreases self.active.len(),
        {
            let ghost pre = self.infos();
            let mut t = self.active.remove(0);
            let ghost probed_pre = probed@;
            proof {
                assert(t.info@ == pre[0]);
                assert(self.infos() =~= pre.remove(0));
            }
            let is_dead = self.provider.probe_dead(&mut t.handle);
            flags.push(is_dead);
            let ghost tv = t.info@;
            probed.push(t);
            proof {
                assert(infos_of(probed@) =~= infos_of(probed_pre).push(tv));
                assert(infos_of(probed@) + self.infos() =~= s0);
            }
        }
        self.active = probed;
        proof {
            assert(self.infos() + Seq::<TunnelInfoV>::empty() =~= self.infos());
            assert(self.infos() =~= s0);
        }
        flags
    }

    /// Remove exactly the flagged entries — entry `k` stays iff
    /// `dead_flags[k]` is false — and return the ports of the flagged
    /// entries, in ascending order. The flags are one liveness verdict
    /// per entry, in display order; this pins what the prune does for
    /// every possible vector of verdicts.
    pub fn prune_dead(&mut self, dead_flags: &Vec<bool>) -> (r: Vec<u16>)
        requires
            old(self).wf(),
            dead_flags@.len() == old(self).infos().len(),
        ensures
            final(self).wf(),
            final(self).infos() =~= kept_entries(old(self).infos(), dead_flags@, 0),
            r@ =~= flagged_ports(old(self).infos(), dead_flags@, 0),
            forall|k: int| 0 <= k < r@.len() ==> has_port(old(self).infos(), r@[k])
                && !final(self).tunnels().contains_key(r@[k]),
            forall|p: u16| #[trigger] final(self).tunnels().contains_key(p)
                ==> old(self).tunnels().contains_key(p)
                && final(self).tunnels()[p] == old(self).tunnels()[p],
            forall|p: u16| #[trigger] old(self).tunnels().contains_key(p)
                ==> final(self).tunnels().contains_key(p) || r@.contains(p),
            forall|i: int, j: int| 0 <= i < j < r@.len() ==> r@[i] < r@[j],
    {
        let ghost s0 = self.infos();
        let ghost fl = dead_flags@;
        let m = dead_flags.len();
        let mut dead: Vec<u16> = Vec::new();
        let mut still: Vec<ActiveTunnel<P::Handle>> = Vec::new();
        let mut idx: usize = 0;
        let ghost mut k: int = 0;
        while self.active.len() > 0
            invariant
                fl == dead_flags@,
                fl.len() == s0.len(),
                m == fl.len(),
                idx <= m,
                ports_sorted(s0),
                0 <= k <= s0.len(),
                k == idx as int,
                k == s0.len() - self.active@.len(),
                self.infos() =~= s0.subrange(k, s0.len() as int),
                ports_sorted(infos_of(still@)),
                kept_entries(s0, fl, 0) =~= infos_of(still@) + kept_entries(s0, fl, k),
                flagged_ports(s0, fl, 0) =~= dead@ + flagged_ports(s0, fl, k),
                forall|j: int| 0 <= j < still@.len()
                    ==> exists|i: int| 0 <= i < k && s0[i] == #[trigger] infos_of(still@)[j],
                forall|i: int| 0 <= i < k ==> (has_port(infos_of(still@), s0[i].port)
                    && info_of(infos_of(still@), s0[i].port) == s0[i])
                    || dead@.contains(#[trigger] s0[i].port),
                forall|j: int| 0 <= j < dead@.len() ==> (exists|i: int|
                    0 <= i < k && s0[i].port == #[trigger] dead@[j])
                    && !has_port(infos_of(still@), dead@[j]),
                forall|i: int, j: int| 0 <= i < j < dead@.len() ==> dead@[i] < dead@[j],
            decreases self.active.len(),
        {
            let ghost pre = self.infos();
            let t = self.active.remove(0);
            proof {
                assert(t.info@ == pre[0]);
                assert(pre[0] == s0[k]);
                assert(self.infos() =~= pre.remove(0));
                assert(self.infos() =~= s0.subrange(k + 1, s0.len() as int));
                // every port already accounted for sits strictly below this one
                assert forall|i: int| 0 <= i < k implies s0[i].port < s0[k].port by {}
                assert forall|j: int| 0 <= j < still@.len()
                    implies #[trigger] infos_of(still@)[j].port < s0[k].port by {
                    let i = choose|i: int| 0 <= i < k && s0[i] == infos_of(still@)[j];
                }
                assert forall|j: int| 0 <= j < dead@.len()
                    implies #[trigger] dead@[j] < s0[k].port by {
                    let i = choose|i: int| 0 <= i < k && s0[i].port == dead@[j];
                }
            }
            let is_dead = dead_flags[idx];
            proof {
                assert(idx < m);
            }
            idx += 1;
            if is_dead {
                let ghost dead_pre = dead@;
                dead.push(t.info.port);
                proof {
                    assert(dead@ == dead_pre.push(s0[k].port));
                    assert forall|i: int| 0 <= i <= k implies (has_port(
                        infos_of(still@),
                        s0[i].port,
                    ) && info_of(infos_of(still@), s0[i].port) == s0[i])
                        || dead@.contains(#[trigger] s0[i].port) by {
                        if i == k {
                            assert(dead@[dead@.len() - 1] == s0[k].port);
                        } else {
                            if dead_pre.contains(s0[i].port) {
                                let j = choose|j: int|
                                    0 <= j < dead_pre.len() && dead_pre[j] == s0[i].port;
                                assert(dead@[j] == s0[i].port);
                            }
                        }
                    }
                    assert forall|j: int| 0 <= j < dead@.len() implies (exists|i: int|
                        0 <= i <= k && s0[i].port == #[trigger] dead@[j])
                        && !has_port(infos_of(still@), dead@[j]) by {
                        if j == dead@.len() - 1 {
                            assert(s0[k].port == dead@[j]);
                        }
                    }
                    assert(kept_entries(s0, fl, k) == kept_entries(s0, fl, k + 1));
                    assert(flagged_ports(s0, fl, k) == seq![s0[k].port] + flagged_ports(
                        s0,
                        fl,
                        k + 1,
                    ));
                    assert(dead_pre + (seq![s0[k].port] + flagged_ports(s0, fl, k + 1))
                        =~= dead@ + flagged_ports(s0, fl, k + 1));
                    k = k + 1;
                }
            } else {
                let ghost still_pre = still@;
                still.push(t);
                proof {
                    assert(infos_of(still@) =~= infos_of(still_pre).push(s0[k]));
                    let sv = infos_of(still@);
                    assert(sv[sv.len() - 1] == s0[k]);
                    assert forall|i: int| 0 <= i <= k implies (has_port(sv, s0[i].port)
                        && info_of(sv, s0[i].port) == s0[i])
                        || dead@.contains(#[trigger] s0[i].port) by {
                        if i == k {
                            lemma_port_at(sv, sv.len() - 1);
                        } else if has_port(infos_of(still_pre), s0[i].port) {
                            let j = port_index(infos_of(still_pre), s0[i].port);
                            assert(sv[j] == infos_of(still_pre)[j]);
                            lemma_port_at(sv, j);
                        }
                    }
                    assert forall|j: int| 0 <= j < dead@.len() implies (exists|i: int|
                        0 <= i <= k && s0[i].port == #[trigger] dead@[j])
                        && !has_port(sv, dead@[j]) by {
                        assert(!has_port(infos_of(still_pre), dead@[j]));
                        if has_port(sv, dead@[j]) {
                            let m = port_index(sv, dead@[j]);
                            if m < sv.len() - 1 {
                                assert(infos_of(still_pre)[m].port == dead@[j]);
                            }
                        }
                    }
                    assert(flagged_ports(s0, fl, k) == flagged_ports(s0, fl, k + 1));
                    assert(kept_entries(s0, fl, k) == seq![s0[k]] + kept_entries(
                        s0,
                        fl,
                        k + 1,
                    ));
                    assert(infos_of(still_pre) + (seq![s0[k]] + kept_entries(s0, fl, k + 1))
                        =~= sv + kept_entries(s0, fl, k + 1));
                    k = k + 1;
                }
            }
        }
        self.active = still;
        proof {
            assert(kept_entries(s0, fl, k) == Seq::<TunnelInfoV>::empty());
            assert(flagged_ports(s0, fl, k) == Seq::<u16>::empty());
            assert(infos_of(still@) + kept_entries(s0, fl, k) =~= infos_of(still@));
            assert(dead@ + flagged_ports(s0, fl, k) =~= dead@);
            let sv = self.infos();
            assert forall|p: u16| #[trigger] self.tunnels().contains_key(p)
                implies old(self).tunnels().contains_key(p)
                && self.tunnels()[p] == old(self).tunnels()[p] by {
                let j = port_index(sv, p);
                lemma_port_at(sv, j);
                let i = choose|i: int| 0 <= i < s0.len() && s0[i] == sv[j];
                lemma_port_at(s0, i);
            }
            assert forall|kk: int| 0 <= kk < dead@.len() implies has_port(s0, dead@[kk])
                && !self.tunnels().contains_key(dead@[kk]) by {
                let i = choose|i: int| 0 <= i < s0.len() && s0[i].port == dead@[kk];
            }
        }
        dead
    }

    /// Probe every active process without blocking; remove the entries
    /// whose process has exited (or whose probe failed, conservatively
    /// treated as dead) and return their ports, in ascending order. The
    /// returned ports are no longer in the registry when this returns: a
    /// destructive prune, not a peek. The probe verdicts are gathered by
    /// [`TunnelManager::probe_entries`] and handed as plain values to
    /// [`TunnelManager::prune_dead`], whose contract fixes the outcome
    /// for every vector of verdicts.
    pub fn take_dead_ports(&mut self) -> (r: Vec<u16>)
        requires
            old(self).wf(),
        ensures
            final(self).wf(),
            forall|k: int| 0 <= k < r@.len() ==> has_port(old(self).infos(), r@[k])
                && !final(self).tunnels().contains_key(r@[k]),
            forall|p: u16| #[trigger] final(self).tunnels().contains_key(p)
                ==> old(self).tunnels().contains_key(p)
                && final(self).tunnels()[p] == old(self).tunnels()[p],
            forall|p: u16| #[trigger] old(self).tunnels().contains_key(p)
                ==> final(self).tunnels().contains_key(p) || r@.contains(p),
            forall|i: int, j: int| 0 <= i < j < r@.len() ==> r@[i] < r@[j],
    {
        let flags = self.probe_entries();
        let ghost mid = *self;
        let r = self.prune_dead(&flags);
        proof {
            assert(mid.tunnels() == old(self).tunnels());
            assert forall|p: u16| #[trigger] old(self).tunnels().contains_key(p)
                implies self.tunnels().contains_key(p) || r@.contains(p) by {
                assert(mid.tunnels().contains_key(p));
            }
        }
        r
    }

    /// Snapshot of all active tunnels, in ascending port order.
    pub fn list(&self) -> (r: Vec<TunnelInfo>)
        requires
            self.wf(),
        ensures
            r@.len() == self.infos().len(),
            forall|i: int| 0 <= i < r@.len() ==> r@[i]@ == self.infos()[i],
            forall|i: int, j: int| 0 <= i < j < r@.len() ==> r@[i]@.port < r@[j]@.port,
    {
        let n = self.active.len();
        let mut r: Vec<TunnelInfo> = Vec::new();
        let mut i: usize = 0;
        while i < n
            invariant
                n == self.active.len(),
                i <= n,
                r@.len() == i,
                forall|k: int| 0 <= k < i ==> r@[k]@ == self.infos()[k],
            decreases n - i,
        {
            r.push(self.active[i].info.clone());
            i += 1;
        }
        proof {
            assert forall|a: int, b: int| 0 <= a < b < r@.len()
                implies r@[a]@.port < r@[b]@.port by {
                assert(self.infos()[a].port < self.infos()[b].port);
            }
        }
        r
    }
}

} // verus!
