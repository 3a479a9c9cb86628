//! Desired-state records: which ports the user wants tunneled, independent
//! of what is currently running. The in-memory rules (upsert by port,
//! remove by port, touch a timestamp) are verified here; durably writing
//! the records to disk is the caller's concern.

use vstd::prelude::*;

verus! {

/// Mathematical model of a [`DesiredTunnel`] record.
pub ghost struct DesiredTunnelV {
    pub port: u16,
    pub provider: Seq<char>,
    pub updated_at_ms: u64,
}

/// One persisted wish: "keep this port tunneled through this provider".
/// Independent of whether a tunnel is currently active; it is the source
/// of truth for restart-after-crash behaviour.
pub struct DesiredTunnel {
    pub port: u16,
    pub provider: String,
    pub updated_at_ms: u64,
}

impl View for DesiredTunnel {
    type V = DesiredTunnelV;

    open spec fn view(&self) -> DesiredTunnelV {
        DesiredTunnelV {
            port: self.port,
            provider: self.provider@,
            updated_at_ms: self.updated_at_ms,
        }
    }
}

impl Clone for DesiredTunnel {
    fn clone(&self) -> (r: Self)
        ensures
            r@ == self@,
    {
        DesiredTunnel {
            port: self.port,
            provider: self.provider.clone(),
            updated_at_ms: self.updated_at_ms,
        }
    }
}

/// The records as a whole, in their stored order.
pub struct StoreData {
    pub desired_tunnels: Vec<DesiredTunnel>,
}

/// The models behind a sequence of records.
pub open spec fn views_of(s: Seq<DesiredTunnel>) -> Seq<DesiredTunnelV> {
    s.map(|i: int, t: DesiredTunnel| t@)
}

/// Each port has at most one record.
pub open spec fn ports_unique(s: Seq<DesiredTunnelV>) -> bool {
    forall|i: int, j: int| 0 <= i < j < s.len() ==> s[i].port != s[j].port
}

/// Some record of `s` is for `port`.
pub open spec fn has_record(s: Seq<DesiredTunnelV>, port: u16) -> bool {
    exists|i: int| 0 <= i < s.len() && s[i].port == port
}

/// Index of the record for `port` (meaningful only when `has_record`
/// holds).
pub open spec fn record_index(s: Seq<DesiredTunnelV>, port: u16) -> int {
    choose|i: int| 0 <= i < s.len() && s[i].port == port
}

/// The record for `port` (meaningful only when `has_record` holds).
pub open spec fn record_of(s: Seq<DesiredTunnelV>, port: u16) -> DesiredTunnelV {
    s[record_index(s, port)]
}

/// Among unique-port records, the record at index `i` is the one and only
/// record for its port.
pub proof fn lemma_record_at(s: Seq<DesiredTunnelV>, i: int)
    requires
        ports_unique(s),
        0 <= i < s.len(),
    ensures
        has_record(s, s[i].port),
        record_index(s, s[i].port) == i,
        record_of(s, s[i].port) == s[i],
{
    assert(has_record(s, s[i].port));
    let j = record_index(s, s[i].port);
    if i < j {
        assert(s[i].port != s[j].port);
    } else if j < i {
        assert(s[j].port != s[i].port);
    }
}

/// The in-memory desired-state store. Mutations keep one record per port;
/// the caller persists [`Store::desired_tunnels`] after each mutation.
pub struct Store {
    data: StoreData,
}

impl Store {
    /// The records, in stored order.
    pub closed spec fn records(self) -> Seq<DesiredTunnelV> {
        views_of(self.data.desired_tunnels@)
    }

    /// One record per port: the structural invariant.
    pub open spec fn wf(self) -> bool {
        ports_unique(self.records())
    }

    /// An empty store.
    pub fn new() -> (r: Self)
        ensures
            r.wf(),
            r.records() =~= Seq::<DesiredTunnelV>::empty(),
    {
        Store { data: StoreData { desired_tunnels: Vec::new() } }
    }

    /// Rebuild a store from records read back from disk, keeping the first
    /// record for each port and dropping any later duplicates.
    pub fn from_records(records: Vec<DesiredTunnel>) -> (r: Self)
        ensures
            r.wf(),
            r.records() =~= dedup_first(views_of(records@), 0),
            keeps_only_first_occurrences(views_of(records@), r.records()),
            covers_all_ports(views_of(records@), r.records()),
    {
        let ghost rv = views_of(records@);
        let n = records.len();
        let mut out = Store::new();
        let mut i: usize = 0;
        while i < n
            invariant
                rv == views_of(records@),
                n == records@.len(),
                i <= n,
                out.wf(),
                forall|j: int| 0 <= j < out.records().len() ==> exists|k: int|
                    #[trigger] out.records()[j] == rv[k] && 0 <= k < i
                        && is_first_occurrence(rv, k),
                forall|k: int| 0 <= k < i ==> has_record(
                    out.records(),
                    #[trigger] rv[k].port,
                ),
                dedup_first(rv, 0) =~= out.records() + dedup_first(rv, i as int),
            decreases n - i,
        {
            let t = &records[i];
            if !out.contains_port(t.port) {
                let ghost pre = out.records();
                out.data.desired_tunnels.push(t.clone());
                proof {
                    assert(out.records() =~= pre.push(t@));
                    assert(t@ == rv[i as int]);
                    assert(is_first_occurrence(rv, i as int)) by {
                        if exists|m: int| 0 <= m < i && rv[m].port == rv[i as int].port {
                            let m = choose|m: int| 0 <= m < i && rv[m].port == rv[i as int].port;
                            assert(has_record(pre, rv[m].port));
                        }
                    }
                    assert forall|j: int| 0 <= j < out.records().len()
                        implies exists|k: int| #[trigger] out.records()[j] == rv[k]
                        && 0 <= k < i + 1 && is_first_occurrence(rv, k) by {
                        if j < pre.len() {
                            assert(out.records()[j] == pre[j]);
                            let k = choose|k: int|
                                pre[j] == rv[k] && 0 <= k < i && is_first_occurrence(rv, k);
                            assert(out.records()[j] == rv[k]);
                        } else {
                            assert(out.records()[j] == rv[i as int]);
                        }
                    }
                    assert forall|k: int| 0 <= k < i + 1 implies has_record(
                        out.records(),
                        #[trigger] rv[k].port,
                    ) by {
                        if k < i {
                            let w = record_index(pre, rv[k].port);
                            assert(out.records()[w] == pre[w]);
                        } else {
                            assert(out.records()[pre.len() as int].port == rv[k].port);
                        }
                    }
                    assert(dedup_first(rv, i as int) == seq![rv[i as int]] + dedup_first(
                        rv,
                        i + 1,
                    ));
                    assert(pre + (seq![rv[i as int]] + dedup_first(rv, i + 1))
                        =~= out.records() + dedup_first(rv, i + 1));
                }
            } else {
                proof {
                    assert(rv[i as int] == t@);
                    assert(!is_first_occurrence(rv, i as int)) by {
                        let j = record_index(out.records(), rv[i as int].port);
                        assert(0 <= j < out.records().len()
                            && out.records()[j].port == rv[i as int].port);
                        let k = choose|k: int|
                            out.records()[j] == rv[k] && 0 <= k < i
                                && is_first_occurrence(rv, k);
                        assert(rv[k].port == rv[i as int].port);
                    }
                    assert(dedup_first(rv, i as int) == dedup_first(rv, i + 1));
                }
            }
            i += 1;
        }
        proof {
            assert forall|j: int| 0 <= j < out.records().len()
                implies appears_as_first(rv, #[trigger] out.records()[j]) by {
                let k = choose|k: int|
                    out.records()[j] == rv[k] && 0 <= k < i && is_first_occurrence(rv, k);
                assert(is_first_occurrence(rv, k) && out.records()[j] == rv[k]);
            }
            assert(keeps_only_first_occurrences(rv, out.records()));
            assert(covers_all_ports(rv, out.records()));
            assert(dedup_first(rv, n as int) =~= Seq::<DesiredTunnelV>::empty());
            assert(out.records() + dedup_first(rv, n as int) =~= out.records());
        }
        out
    }

    /// Whether some record is for `port`.
    fn contains_port(&self, port: u16) -> (r: bool)
        ensures
            r == has_record(self.records(), port),
    {
        let n = self.data.desired_tunnels.len();
        let mut i: usize = 0;
        while i < n
            invariant
                n == self.records().len(),
                i <= n,
                forall|k: int| 0 <= k < i ==> self.records()[k].port != port,
            decreases n - i,
        {
            if self.data.desired_tunnels[i].port == port {
                assert(self.records()[i as int].port == port);
                return true;
            }
            assert(self.records()[i as int].port != port);
            i += 1;
        }
        assert(!has_record(self.records(), port));
        false
    }

    /// Copy of every record, in stored order.
    pub fn desired_tunnels(&self) -> (r: Vec<DesiredTunnel>)
        ensures
            r@.len() == self.records().len(),
            forall|i: int| 0 <= i < r@.len() ==> r@[i]@ == self.records()[i],
    {
        let n = self.data.desired_tunnels.len();
        let mut r: Vec<DesiredTunnel> = Vec::new();
        let mut i: usize = 0;
        while i < n
            invariant
                n == self.records().len(),
                i <= n,
                r@.len() == i,
                forall|k: int| 0 <= k < i ==> r@[k]@ == self.records()[k],
            decreases n - i,
        {
            r.push(self.data.desired_tunnels[i].clone());
            i += 1;
        }
        r
    }

    /// Upsert by port: any previous record for the port is dropped and the
    /// new one, stamped `now_ms`, is appended.
    pub fn enable_desired_tunnel(&mut self, t: DesiredTunnel, now_ms: u64)
        requires
            old(self).wf(),
        ensures
            final(self).wf(),
            final(self).records() =~= old(self).records().filter(
                |x: DesiredTunnelV| x.port != t@.port,
            ).push(DesiredTunnelV { port: t@.port, provider: t@.provider, updated_at_ms: now_ms }),
            has_record(final(self).records(), t@.port),
            record_of(final(self).records(), t@.port) == (DesiredTunnelV {
                port: t@.port,
                provider: t@.provider,
                updated_at_ms: now_ms,
            }),
            forall|p: u16| has_record(final(self).records(), p) ==> p == t@.port
                || has_record(old(self).records(), p),
    {
        let port = t.port;
        self.remove_records_for(port);
        let ghost mid = self.records();
        let mut stamped = t;
        stamped.updated_at_ms = now_ms;
        self.data.desired_tunnels.push(stamped);
        proof {
            assert(self.records() =~= mid.push(
                DesiredTunnelV { port: t@.port, provider: t@.provider, updated_at_ms: now_ms },
            ));
            lemma_record_at(self.records(), self.records().len() - 1);
            assert forall|p: u16| has_record(self.records(), p) implies p == t@.port
                || has_record(old(self).records(), p) by {
                if p != t@.port {
                    let j = record_index(self.records(), p);
                    assert(self.records()[j] == mid[j]);
                    assert(has_record(mid, p));
                }
            }
        }
    }

    /// Remove by port: the record for the port, if any, is dropped.
    pub fn disable_desired_tunnel(&mut self, port: u16)
        requires
            old(self).wf(),
        ensures
            final(self).wf(),
            final(self).records() =~= old(self).records().filter(
                |x: DesiredTunnelV| x.port != port,
            ),
            !has_record(final(self).records(), port),
            forall|p: u16| has_record(final(self).records(), p)
                ==> has_record(old(self).records(), p)
                    && record_of(final(self).records(), p)
                        == record_of(old(self).records(), p),
            forall|p: u16| p != port && has_record(old(self).records(), p)
                ==> has_record(final(self).records(), p),
    {
        self.remove_records_for(port);
    }

    /// Update the timestamp of the record for `port` to `now_ms`; a no-op
    /// when the port has no record.
    pub fn touch_desired_tunnel(&mut self, port: u16, now_ms: u64)
        requires
            old(self).wf(),
        ensures
            final(self).wf(),
            final(self).records().len() == old(self).records().len(),
            forall|i: int| 0 <= i < old(self).records().len()
                ==> #[trigger] final(self).records()[i] == if old(self).records()[i].port
                    == port {
                    DesiredTunnelV { updated_at_ms: now_ms, ..old(self).records()[i] }
                } else {
                    old(self).records()[i]
                },
    {
        let n = self.data.desired_tunnels.len();
        let mut out: Vec<DesiredTunnel> = Vec::new();
        let mut i: usize = 0;
        while i < n
            invariant
                n == old(self).records().len(),
                self.records() == old(self).records(),
                i <= n,
                out@.len() == i,
                forall|k: int| 0 <= k < i ==> #[trigger] views_of(out@)[k] == if old(self).records()[k].port == port {
                    DesiredTunnelV { updated_at_ms: now_ms, ..old(self).records()[k] }
                } else {
                    old(self).records()[k]
                },
            decreases n - i,
        {
            let ghost pre = out@;
            let mut t = self.data.desired_tunnels[i].clone();
            proof {
                assert(t@ == old(self).records()[i as int]);
            }
            if t.port == port {
                t.updated_at_ms = now_ms;
            }
            let ghost tv = t@;
            out.push(t);
            proof {
                assert(views_of(out@) =~= views_of(pre).push(tv));
            }
            i += 1;
        }
        self.data.desired_tunnels = out;
        proof {
            assert forall|i: int| 0 <= i < old(self).records().len()
                implies #[trigger] self.records()[i] == if old(self).records()[i].port
                == port {
                DesiredTunnelV { updated_at_ms: now_ms, ..old(self).records()[i] }
            } else {
                old(self).records()[i]
            } by {
                assert(self.records()[i] == views_of(out@)[i]);
            }
            assert forall|i: int, j: int| 0 <= i < j < self.records().len()
                implies self.records()[i].port != self.records()[j].port by {
                assert(old(self).records()[i].port != old(self).records()[j].port);
            }
        }
    }

    /// Drop every record for `port`, keeping the others in order.
    fn remove_records_for(&mut self, port: u16)
        requires
            old(self).wf(),
        ensures
            final(self).wf(),
            final(self).records() =~= old(self).records().filter(
                |x: DesiredTunnelV| x.port != port,
            ),
            !has_record(final(self).records(), port),
            forall|p: u16| has_record(final(self).records(), p)
                ==> has_record(old(self).records(), p)
                    && record_of(final(self).records(), p)
                        == record_of(old(self).records(), p),
            forall|p: u16| p != port && has_record(old(self).records(), p)
                ==> has_record(final(self).records(), p),
    {
        let n = self.data.desired_tunnels.len();
        let mut out: Vec<DesiredTunnel> = Vec::new();
        let mut i: usize = 0;
        while i < n
            invariant
                n == old(self).records().len(),
                ports_unique(old(self).records()),
                self.records() == old(self).records(),
                i <= n,
                views_of(out@) =~= old(self).records().subrange(
                    0,
                    i as int,
                ).filter(|x: DesiredTunnelV| x.port != port),
                forall|j: int| 0 <= j < out@.len() ==> exists|k: int|
                    0 <= k < i && #[trigger] views_of(out@)[j]
                        == old(self).records()[k],
                forall|j: int| 0 <= j < out@.len() ==> #[trigger] views_of(out@)[j].port != port,
                ports_unique(views_of(out@)),
            decreases n - i,
        {
            let ghost pre = views_of(out@);
            let t = &self.data.desired_tunnels[i];
            let keep = t.port != port;
            if keep {
                out.push(t.clone());
            }
            proof {
                let sub_next = old(self).records().subrange(0, i + 1);
                assert(sub_next.drop_last() =~= old(self).records().subrange(0, i as int));
                assert(sub_next.last() == old(self).records()[i as int]);
                reveal_with_fuel(Seq::filter, 2);
                assert(sub_next.filter(|x: DesiredTunnelV| x.port != port)
                    == if old(self).records()[i as int].port != port {
                        sub_next.drop_last().filter(|x: DesiredTunnelV| x.port != port).push(
                            old(self).records()[i as int],
                        )
                    } else {
                        sub_next.drop_last().filter(|x: DesiredTunnelV| x.port != port)
                    });
                if keep {
                    let now_v = views_of(out@);
                    assert(now_v =~= pre.push(old(self).records()[i as int]));
                    assert forall|a: int, b: int| 0 <= a < b < now_v.len()
                        implies now_v[a].port != now_v[b].port by {
                        if b == now_v.len() - 1 {
                            let k = choose|k: int|
                                0 <= k < i && pre[a] == old(self).records()[k];
                            assert(old(self).records()[k].port
                                != old(self).records()[i as int].port);
                        }
                    }
                }
            }
            i += 1;
        }
        proof {
            assert(old(self).records().subrange(0, n as int) =~= old(self).records());
        }
        self.data.desired_tunnels = out;
        proof {
            if has_record(self.records(), port) {
                let j = record_index(self.records(), port);
                assert(self.records()[j].port != port);
            }
            assert forall|p: u16| has_record(self.records(), p)
                implies has_record(old(self).records(), p)
                && record_of(self.records(), p) == record_of(old(self).records(), p) by {
                let j = record_index(self.records(), p);
                lemma_record_at(self.records(), j);
                let k = choose|k: int|
                    0 <= k < i && self.records()[j] == old(self).records()[k];
                lemma_record_at(old(self).records(), k);
            }
            assert forall|p: u16| p != port && has_record(old(self).records(), p)
                implies has_record(self.records(), p) by {
                let pred = |x: DesiredTunnelV| x.port != port;
                let k = choose|k: int|
                    0 <= k < old(self).records().len() && old(self).records()[k].port == p;
                old(self).records().lemma_filter_contains(pred, k);
                let f = old(self).records().filter(pred);
                assert(f.contains(old(self).records()[k]));
                assert(self.records() =~= f);
                let j = choose|j: int| 0 <= j < f.len() && f[j] == old(self).records()[k];
                assert(self.records()[j].port == p);
            }
        }
    }
}

/// Nothing before index `k` repeats the port of the record at `k`.
pub open spec fn is_first_occurrence(s: Seq<DesiredTunnelV>, k: int) -> bool {
    0 <= k < s.len() && forall|m: int| 0 <= m < k ==> s[m].port != s[k].port
}

/// `v` is a record of `input`, and the first one for its port.
pub open spec fn appears_as_first(input: Seq<DesiredTunnelV>, v: DesiredTunnelV) -> bool {
    exists|k: int| v == input[k] && #[trigger] is_first_occurrence(input, k)
}

/// Every record of `out` is a record of `input`, and always the first one
/// for its port.
pub open spec fn keeps_only_first_occurrences(
    input: Seq<DesiredTunnelV>,
    out: Seq<DesiredTunnelV>,
) -> bool {
    forall|j: int| 0 <= j < out.len() ==> appears_as_first(input, #[trigger] out[j])
}

/// The subsequence of `s` from index `i` on that keeps each record that
/// is the first occurrence of its port in the whole of `s`, in order.
pub open spec fn dedup_first(s: Seq<DesiredTunnelV>, i: int) -> Seq<DesiredTunnelV>
    decreases s.len() - i,
{
    if i < 0 || i >= s.len() {
        Seq::empty()
    } else {
        let rest = dedup_first(s, i + 1);
        if is_first_occurrence(s, i) {
            seq![s[i]] + rest
        } else {
            rest
        }
    }
}

/// Law: records whose ports are already unique round-trip unchanged —
/// rebuilding a store from them gives back exactly the same records in
/// the same order.
pub proof fn lemma_dedup_first_of_unique(s: Seq<DesiredTunnelV>)
    requires
        ports_unique(s),
    ensures
        dedup_first(s, 0) =~= s,
{
    lemma_dedup_first_suffix(s, 0);
    assert(s.subrange(0, s.len() as int) =~= s);
}

/// Among unique-port records, the kept subsequence from `i` on is the
/// whole suffix.
proof fn lemma_dedup_first_suffix(s: Seq<DesiredTunnelV>, i: int)
    requires
        ports_unique(s),
        0 <= i <= s.len(),
    ensures
        dedup_first(s, i) =~= s.subrange(i, s.len() as int),
    decreases s.len() - i,
{
    if i == s.len() {
        assert(s.subrange(i, s.len() as int) =~= Seq::<DesiredTunnelV>::empty());
    } else {
        assert(is_first_occurrence(s, i));
        lemma_dedup_first_suffix(s, i + 1);
        assert(seq![s[i]] + s.subrange(i + 1, s.len() as int)
            =~= s.subrange(i, s.len() as int));
    }
}

/// Every port that occurs in `input` has a record in `out`.
pub open spec fn covers_all_ports(
    input: Seq<DesiredTunnelV>,
    out: Seq<DesiredTunnelV>,
) -> bool {
    forall|k: int| 0 <= k < input.len() ==> has_record(out, #[trigger] input[k].port)
}

} // verus!
