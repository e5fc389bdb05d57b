//! The packet pipeline: one component that owns the flow table, the
//! expiration pool and the per-slot token buckets, and changes them only
//! together, so that the table's slots are always exactly the pool's
//! occupied slots.
use vstd::prelude::*;

use crate::bucket::Bucket;
use crate::flow_key::{flow_key, lemma_packet_key, packet_key, FlowKey};
use crate::headers::{parse_headers, OsNetPacket, TimeT};
use crate::pool::{
    first_free,
    lemma_count_bounded,
    lemma_count_update,
    none_older_than,
    occupied_count,
    oldest,
    OsPool,
};
use crate::table::OsMap;

verus! {

/// What a flow's rate is measured in.
#[derive(Clone, Copy, Debug, PartialEq, Eq, Structural)]
pub enum CostUnit {
    /// Each packet costs its length in bytes.
    Bytes,
    /// Each packet costs one token.
    Packets,
}

/// What becomes of a packet.
#[derive(Clone, Copy, Debug, PartialEq, Eq, Structural)]
pub enum Verdict {
    Forward,
    Drop,
}

/// Parameters fixed for the policer's lifetime.
#[derive(Clone, Copy, Debug, PartialEq, Eq, Structural)]
pub struct PolicerConfig {
    /// How many flows can be tracked at once.
    pub capacity: usize,
    /// Tokens added per unit of time.
    pub rate: u64,
    /// The most tokens a bucket holds.
    pub burst: u64,
    /// How long a flow may stay idle before its slot may be reclaimed.
    pub timeout: TimeT,
    pub cost_unit: CostUnit,
    /// Whether packets without a full Ethernet/IPv4/port header are forwarded
    /// (unpoliced) or dropped.
    pub forward_unclassified: bool,
}

impl PolicerConfig {
    pub open spec fn valid(self) -> bool {
        self.capacity > 0 && self.timeout >= 0
    }
}

/// `now - timeout`, saturated at the earliest representable time: a slot
/// stamped before it has been idle longer than `timeout`.
pub open spec fn deadline_of(now: TimeT, timeout: TimeT) -> TimeT {
    if now - timeout < i64::MIN {
        i64::MIN
    } else {
        (now - timeout) as TimeT
    }
}

fn deadline(now: TimeT, timeout: TimeT) -> (r: TimeT)
    requires
        timeout >= 0,
    ensures
        r == deadline_of(now, timeout),
{
    if now >= i64::MIN + timeout {
        now - timeout
    } else {
        i64::MIN
    }
}

/// What a packet costs under a configuration.
pub open spec fn cost_of(config: PolicerConfig, packet: OsNetPacket) -> u64 {
    match config.cost_unit {
        CostUnit::Bytes => packet.length as u64,
        CostUnit::Packets => 1,
    }
}

/// The verdict on a packet that has no flow key.
pub open spec fn unclassified_verdict(config: PolicerConfig) -> Verdict {
    if config.forward_unclassified {
        Verdict::Forward
    } else {
        Verdict::Drop
    }
}

proof fn lemma_first_free_unique(s: Seq<Option<TimeT>>, i: int, j: int)
    requires
        first_free(s, i),
        first_free(s, j),
    ensures
        i == j,
{
    if i < j {
        assert(s[i] is Some);
    }
    if j < i {
        assert(s[j] is Some);
    }
}

proof fn lemma_oldest_unique(s: Seq<Option<TimeT>>, i: int, j: int)
    requires
        oldest(s, i),
        oldest(s, j),
    ensures
        i == j,
{
    assert(s[i] is Some && s[j] is Some);
}

/// A per-flow token-bucket policer over a fixed number of flow slots.
pub struct Policer {
    config: PolicerConfig,
    table: OsMap,
    pool: OsPool,
    buckets: Vec<Bucket>,
    owners: Vec<FlowKey>,
}

impl Policer {
    pub closed spec fn config(&self) -> PolicerConfig {
        self.config
    }

    /// The live flows and their slots.
    pub closed spec fn flows(&self) -> Map<FlowKey, usize> {
        self.table@
    }

    /// For each slot, when it was last touched, or `None` if it is free.
    pub closed spec fn stamps(&self) -> Seq<Option<TimeT>> {
        self.pool@
    }

    /// The token bucket of each slot.
    pub closed spec fn buckets(&self) -> Seq<Bucket> {
        self.buckets@
    }

    /// For each occupied slot, the flow that holds it.
    pub closed spec fn owners(&self) -> Seq<FlowKey> {
        self.owners@
    }

    pub closed spec fn wf(&self) -> bool {
        let n = self.config.capacity as int;
        &&& self.config.valid()
        &&& self.table.wf()
        &&& self.table.capacity_spec() == n
        &&& self.pool@.len() == n
        &&& self.buckets@.len() == n
        &&& self.owners@.len() == n
        &&& forall|k: FlowKey| #[trigger]
            self.table@.contains_key(k) ==> self.table@[k] < n && self.pool@[self.table@[k] as int] is Some
                && self.owners@[self.table@[k] as int] == k
        &&& forall|i: int|
            0 <= i < n && #[trigger] self.pool@[i] is Some ==> self.table@.contains_key(self.owners@[i])
                && self.table@[self.owners@[i]] == i
        &&& self.table@.dom().len() == occupied_count(self.pool@)
        &&& forall|i: int| 0 <= i < n ==> #[trigger] self.buckets@[i].tokens <= self.config.burst
    }

    /// The slot that a packet of flow `key` at `now` is policed in: its own
    /// slot if the flow is live; else the first free slot; else the least
    /// recently touched slot if it has been idle longer than the timeout;
    /// else none, and the flow is not admitted.
    pub open spec fn slot_for(&self, key: FlowKey, now: TimeT) -> Option<int> {
        let s = self.stamps();
        if self.flows().contains_key(key) {
            Some(self.flows()[key] as int)
        } else if exists|j: int| first_free(s, j) {
            Some(choose|j: int| first_free(s, j))
        } else if exists|j: int|
            oldest(s, j) && s[j]->0 < deadline_of(now, self.config().timeout) {
            Some(choose|j: int| oldest(s, j))
        } else {
            None
        }
    }

    /// `new` holds the same flows, stamps, owners and buckets as `old`.
    pub open spec fn unchanged(old: Policer, new: Policer) -> bool {
        &&& new.config() == old.config()
        &&& new.flows() == old.flows()
        &&& new.stamps() == old.stamps()
        &&& new.buckets() == old.buckets()
        &&& new.owners() == old.owners()
    }

    /// `new` is `old` after policing a packet of flow `key` that costs `cost`
    /// at `now`, with verdict `r`.
    pub open spec fn step(
        old: Policer,
        new: Policer,
        key: FlowKey,
        cost: u64,
        now: TimeT,
        r: Verdict,
    ) -> bool {
        let c = old.config();
        &&& new.config() == c
        &&& match old.slot_for(key, now) {
            None => r == Verdict::Drop && Policer::unchanged(old, new),
            Some(i) => {
                let live = old.flows().contains_key(key);
                let start = if live {
                    old.buckets()[i]
                } else {
                    Bucket { tokens: c.burst, last_refill: now }
                };
                let (b, ok) = start.refilled(now, c.rate, c.burst).charged(cost);
                &&& new.flows() == (if live {
                    old.flows()
                } else if old.stamps()[i] is None {
                    old.flows().insert(key, i as usize)
                } else {
                    old.flows().remove(old.owners()[i]).insert(key, i as usize)
                })
                &&& new.stamps() == old.stamps().update(i, Some(now))
                &&& new.owners() == old.owners().update(i, key)
                &&& new.buckets() == old.buckets().update(i, b)
                &&& r == (if ok {
                    Verdict::Forward
                } else {
                    Verdict::Drop
                })
            },
        }
    }

    /// A policer with no live flows; `None` when the configuration is
    /// impossible (no capacity, or a negative timeout).
    pub fn new(config: PolicerConfig) -> (r: Option<Policer>)
        ensures
            r is Some <==> config.valid(),
            r matches Some(p) ==> {
                &&& p.wf()
                &&& p.config() == config
                &&& p.flows() == Map::<FlowKey, usize>::empty()
                &&& p.stamps().len() == config.capacity
                &&& forall|i: int| 0 <= i < config.capacity ==> #[trigger] p.stamps()[i] is None
            },
    {
        if config.capacity == 0 || config.timeout < 0 {
            return None;
        }
        let n = config.capacity;
        let pool = OsPool::new(n);
        let mut buckets: Vec<Bucket> = Vec::new();
        let mut owners: Vec<FlowKey> = Vec::new();
        let mut i: usize = 0;
        while i < n
            invariant
                i <= n,
                buckets@.len() == i,
                owners@.len() == i,
                forall|j: int| 0 <= j < i ==> #[trigger] buckets@[j].tokens <= config.burst,
            decreases n - i,
        {
            buckets.push(Bucket::full(config.burst, 0));
            owners.push(FlowKey { src_addr: 0, dst_addr: 0, src_port: 0, dst_port: 0 });
            i = i + 1;
        }
        let p = Policer { config, table: OsMap::new(n), pool, buckets, owners };
        assert(p.table@.dom() =~= Set::<FlowKey>::empty());
        Some(p)
    }

    /// Takes a slot for flow `key`, which is not live: the first free slot,
    /// or else the least recently touched one if it has been idle past the
    /// timeout, whose flow is then dropped from the table. The slot gets a
    /// full bucket stamped `now`.
    fn claim_slot(&mut self, key: FlowKey, now: TimeT) -> (r: Option<usize>)
        requires
            old(self).wf(),
            !old(self).flows().contains_key(key),
        ensures
            final(self).wf(),
            final(self).config() == old(self).config(),
            r is None ==> old(self).slot_for(key, now) is None,
            r is None ==> final(self).flows() == old(self).flows() && final(self).stamps()
                == old(self).stamps() && final(self).owners() == old(self).owners()
                && final(self).buckets() == old(self).buckets(),
            r matches Some(i) ==> {
                &&& old(self).slot_for(key, now) == Some(i as int)
                &&& final(self).flows() == (if old(self).stamps()[i as int] is None {
                    old(self).flows().insert(key, i)
                } else {
                    old(self).flows().remove(old(self).owners()[i as int]).insert(key, i)
                })
                &&& final(self).stamps() == old(self).stamps().update(i as int, Some(now))
                &&& final(self).owners() == old(self).owners().update(i as int, key)
                &&& final(self).buckets() == old(self).buckets().update(
                    i as int,
                    Bucket { tokens: old(self).config().burst, last_refill: now },
                )
            },
    {
        let ghost s0 = self.pool@;
        let ghost t0 = self.table@;
        let ghost n = self.config.capacity as int;
        proof {
            self.table.lemma_len_bounded();
        }
        let mut got = self.pool.allocate(now);
        let ghost mut victim_slot: int = -1;
        if got.is_none() {
            let dl = deadline(now, self.config.timeout);
            match self.pool.expire_if_older_than(dl) {
                None => {
                    assert(!exists|j: int| first_free(s0, j));
                    return None;
                },
                Some(o) => {
                    let victim = self.owners[o];
                    assert(s0[o as int] is Some);
                    assert(t0.contains_key(victim));
                    self.table.remove(&victim);
                    assert(self.table@.dom() =~= t0.dom().remove(victim));
                    proof {
                        lemma_count_bounded(s0);
                        assert(self.table.len_spec() < n);
                        victim_slot = o as int;
                        lemma_count_update(s0, o as int, None);
                        assert(!exists|j: int| first_free(s0, j));
                        assert(self.pool@[o as int] is None);
                    }
                    got = self.pool.allocate(now);
                    proof {
                        let i = got->0 as int;
                        assert(i == o) by {
                            if i != o {
                                assert(self.pool@[i] is None);
                            }
                        }
                        assert(self.pool@ =~= s0.update(o as int, Some(now)));
                        lemma_oldest_unique(s0, o as int, choose|j: int| oldest(s0, j));
                    }
                },
            }
        } else {
            proof {
                let i = got->0 as int;
                lemma_first_free_unique(s0, i, choose|j: int| first_free(s0, j));
                lemma_count_update(s0, i, Some(now));
                lemma_count_bounded(s0.update(i, Some(now)));
                assert(self.table.len_spec() < n);
            }
        }
        let i = got.unwrap();
        assert(!self.table@.contains_key(key));
        assert(self.table.len_spec() < n);
        let inserted = self.table.insert(key, i);
        assert(inserted);
        self.owners.set(i, key);
        self.buckets.set(i, Bucket::full(self.config.burst, now));
        proof {
            let vk = if victim_slot >= 0 { old(self).owners@[victim_slot] } else { key };
            assert forall|k: FlowKey| #[trigger]
                self.table@.contains_key(k) implies self.table@[k] < n && self.pool@[self.table@[k] as int] is Some
                    && self.owners@[self.table@[k] as int] == k by {
                if k != key {
                    assert(t0.contains_key(k));
                    assert(k != vk);
                }
            }
            assert forall|j: int|
                0 <= j < n && #[trigger] self.pool@[j] is Some implies self.table@.contains_key(self.owners@[j])
                    && self.table@[self.owners@[j]] == j by {
                if j != i {
                    assert(s0[j] is Some);
                    assert(t0.contains_key(old(self).owners@[j]));
                }
            }
            assert(self.pool@ == s0.update(i as int, Some(now)));
            lemma_count_update(s0, i as int, Some(now));
            assert(self.table@.dom().len() == occupied_count(self.pool@));
            assert(forall|j: int| 0 <= j < n ==> #[trigger] self.buckets@[j].tokens <= self.config.burst);
        }
        Some(i)
    }

    /// Polices one packet of flow `key` that costs `cost` tokens at `now`.
    pub fn process_flow(&mut self, key: FlowKey, cost: u64, now: TimeT) -> (r: Verdict)
        requires
            old(self).wf(),
        ensures
            final(self).wf(),
            Policer::step(*old(self), *final(self), key, cost, now, r),
    {
        let slot = match self.table.lookup(&key) {
            Some(i) => {
                proof {
                    lemma_count_update(self.pool@, i as int, Some(now));
                }
                self.pool.refresh(i, now);
                assert(self.owners@.update(i as int, key) =~= self.owners@);
                i
            },
            None => match self.claim_slot(key, now) {
                None => return Verdict::Drop,
                Some(i) => i,
            },
        };
        let ghost mid = self.buckets@;
        let mut b = self.buckets[slot];
        let ok = b.take(cost, now, self.config.rate, self.config.burst);
        self.buckets.set(slot, b);
        proof {
            let c = old(self).config;
            let start = if old(self).table@.contains_key(key) {
                old(self).buckets@[slot as int]
            } else {
                Bucket { tokens: c.burst, last_refill: now }
            };
            assert(mid[slot as int] == start);
            assert(self.buckets@ =~= old(self).buckets@.update(slot as int, b));
        }
        if ok {
            Verdict::Forward
        } else {
            Verdict::Drop
        }
    }

    /// Polices one packet at `now`. A packet without a flow key gets the
    /// configured verdict for unclassified packets and changes nothing.
    pub fn process_packet(&mut self, packet: &OsNetPacket, now: TimeT) -> (r: Verdict)
        requires
            old(self).wf(),
        ensures
            final(self).wf(),
            match packet_key(*packet) {
                None => r == unclassified_verdict(old(self).config()) && Policer::unchanged(
                    *old(self),
                    *final(self),
                ),
                Some(key) => Policer::step(
                    *old(self),
                    *final(self),
                    key,
                    cost_of(old(self).config(), *packet),
                    now,
                    r,
                ),
            },
    {
        let view = parse_headers(packet);
        proof {
            lemma_packet_key(*packet, view);
        }
        match flow_key(&view) {
            None => {
                if self.config.forward_unclassified {
                    Verdict::Forward
                } else {
                    Verdict::Drop
                }
            },
            Some(key) => {
                let cost: u64 = match self.config.cost_unit {
                    CostUnit::Bytes => packet.length as u64,
                    CostUnit::Packets => 1,
                };
                self.process_flow(key, cost, now)
            },
        }
    }

    /// Reclaims the least recently touched slot if it has been idle longer
    /// than the timeout at `now`, and drops its flow from the table. Returns
    /// that flow; with no such slot, returns `None` and changes nothing.
    pub fn expire_flow(&mut self, now: TimeT) -> (r: Option<FlowKey>)
        requires
            old(self).wf(),
        ensures
            final(self).wf(),
            r is None <==> none_older_than(
                old(self).stamps(),
                deadline_of(now, old(self).config().timeout),
            ),
            r is None ==> Policer::unchanged(*old(self), *final(self)),
            r matches Some(k) ==> {
                let i = old(self).flows()[k] as int;
                &&& old(self).flows().contains_key(k)
                &&& oldest(old(self).stamps(), i)
                &&& old(self).stamps()[i]->0 < deadline_of(now, old(self).config().timeout)
                &&& final(self).config() == old(self).config()
                &&& final(self).flows() == old(self).flows().remove(k)
                &&& final(self).stamps() == old(self).stamps().update(i, None)
                &&& final(self).owners() == old(self).owners()
                &&& final(self).buckets() == old(self).buckets()
            },
    {
        let ghost s0 = self.pool@;
        let ghost t0 = self.table@;
        let ghost n = self.config.capacity as int;
        proof {
            self.table.lemma_len_bounded();
        }
        let dl = deadline(now, self.config.timeout);
        match self.pool.expire_if_older_than(dl) {
            None => None,
            Some(o) => {
                let victim = self.owners[o];
                assert(s0[o as int] is Some);
                assert(t0.contains_key(victim));
                self.table.remove(&victim);
                proof {
                    assert(self.table@.dom() =~= t0.dom().remove(victim));
                    lemma_count_update(s0, o as int, None);
                    assert forall|k: FlowKey| #[trigger]
                        self.table@.contains_key(k) implies self.table@[k] < n
                            && self.pool@[self.table@[k] as int] is Some && self.owners@[self.table@[k] as int]
                            == k by {
                        assert(t0.contains_key(k));
                    }
                    assert forall|j: int|
                        0 <= j < n && #[trigger] self.pool@[j] is Some implies self.table@.contains_key(
                            self.owners@[j],
                        ) && self.table@[self.owners@[j]] == j by {
                        assert(s0[j] is Some);
                        assert(t0.contains_key(self.owners@[j]));
                    }
                }
                Some(victim)
            },
        }
    }

    /// Sweeps out every flow whose slot has been idle longer than the timeout
    /// at `now`, oldest first. Returns how many were reclaimed.
    pub fn expire_flows(&mut self, now: TimeT) -> (r: usize)
        requires
            old(self).wf(),
        ensures
            final(self).wf(),
            final(self).config() == old(self).config(),
            final(self).owners() == old(self).owners(),
            final(self).buckets() == old(self).buckets(),
            final(self).stamps().len() == old(self).stamps().len(),
            forall|i: int|
                0 <= i < old(self).stamps().len() ==> #[trigger] final(self).stamps()[i] == (if old(
                    self,
                ).stamps()[i] is Some && old(self).stamps()[i]->0 < deadline_of(
                    now,
                    old(self).config().timeout,
                ) {
                    None
                } else {
                    old(self).stamps()[i]
                }),
            forall|k: FlowKey| #[trigger]
                final(self).flows().contains_key(k) <==> old(self).flows().contains_key(k) && old(
                    self,
                ).stamps()[old(self).flows()[k] as int]->0 >= deadline_of(
                    now,
                    old(self).config().timeout,
                ),
            forall|k: FlowKey| #[trigger]
                final(self).flows().contains_key(k) ==> final(self).flows()[k] == old(
                    self,
                ).flows()[k],
            r + final(self).flows().dom().len() == old(self).flows().dom().len(),
            none_older_than(old(self).stamps(), deadline_of(now, old(self).config().timeout)) ==> r
                == 0 && Policer::unchanged(*old(self), *final(self)),
    {
        let ghost dl = deadline_of(now, old(self).config.timeout);
        let ghost n = old(self).config.capacity as int;
        let mut count: usize = 0;
        let mut done = false;
        proof {
            lemma_count_bounded(self.pool@);
        }
        while !done
            invariant
                self.wf(),
                n == old(self).config.capacity,
                dl == deadline_of(now, old(self).config.timeout),
                self.config == old(self).config,
                self.owners@ == old(self).owners@,
                self.buckets@ == old(self).buckets@,
                forall|i: int|
                    0 <= i < n ==> #[trigger] self.pool@[i] == old(self).pool@[i] || (
                    self.pool@[i] is None && old(self).pool@[i] is Some && old(self).pool@[i]->0
                        < dl),
                forall|k: FlowKey| #[trigger]
                    self.table@.contains_key(k) ==> old(self).table@.contains_key(k)
                        && self.table@[k] == old(self).table@[k],
                count + self.table@.dom().len() == old(self).table@.dom().len(),
                old(self).table@.dom().len() <= n,
                done ==> none_older_than(self.pool@, dl),
            decreases self.table@.dom().len() + if done {
                0int
            } else {
                1int
            },
        {
            let ghost before = *self;
            match self.expire_flow(now) {
                None => {
                    done = true;
                },
                Some(k) => {
                    proof {
                        before.table.lemma_len_bounded();
                        assert(before.table@.dom().contains(k));
                        assert(before.table@.dom().remove(k).len() == before.table@.dom().len() - 1);
                        assert(self.table@.dom() =~= before.table@.dom().remove(k));
                    }
                    count = count + 1;
                    proof {
                        let o = before.table@[k] as int;
                        assert(self.pool@ == before.pool@.update(o, None));
                        assert forall|i: int|
                            0 <= i < n implies #[trigger] self.pool@[i] == old(self).pool@[i] || (
                            self.pool@[i] is None && old(self).pool@[i] is Some
                                && old(self).pool@[i]->0 < dl) by {
                            if i == o {
                                assert(before.pool@[i] is Some);
                            } else {
                                assert(self.pool@[i] == before.pool@[i]);
                            }
                        }
                    }
                },
            }
        }
        proof {
            let s0 = old(self).pool@;
            assert forall|k: FlowKey|
                old(self).table@.contains_key(k) && s0[old(self).table@[k] as int]->0
                    >= dl implies #[trigger] self.table@.contains_key(k) by {
                let j = old(self).table@[k] as int;
                assert(self.pool@[j] == s0[j]);
            }
            assert forall|i: int| 0 <= i < n implies #[trigger] self.pool@[i] == (if s0[i] is Some
                && s0[i]->0 < dl {
                None
            } else {
                s0[i]
            }) by {
                if s0[i] is Some && s0[i]->0 < dl && self.pool@[i] is Some {
                    assert(self.pool@[i]->0 >= dl);
                }
            }
            if none_older_than(s0, dl) {
                assert(self.pool@ =~= s0);
                assert(self.table@ =~= old(self).table@);
            }
        }
        count
    }

    /// Every packet of a flow that leaves it live restamps its slot with the
    /// packet's time, and a live flow stays live on its next packet; so over
    /// packets of one flow at non-decreasing times, the slot's stamp never
    /// decreases.
    pub proof fn lemma_flow_stamp_monotonic(
        a: Policer,
        b: Policer,
        c: Policer,
        key: FlowKey,
        cost1: u64,
        cost2: u64,
        t1: TimeT,
        t2: TimeT,
        r1: Verdict,
        r2: Verdict,
    )
        requires
            a.wf(),
            b.wf(),
            Policer::step(a, b, key, cost1, t1, r1),
            Policer::step(b, c, key, cost2, t2, r2),
            b.flows().contains_key(key),
            t1 <= t2,
        ensures
            c.flows().contains_key(key),
            c.flows()[key] == b.flows()[key],
            b.stamps()[b.flows()[key] as int] == Some(t1),
            c.stamps()[c.flows()[key] as int] == Some(t2),
            b.stamps()[b.flows()[key] as int]->0 <= c.stamps()[c.flows()[key] as int]->0,
    {
    }

    /// Between packets the table's live flows are exactly as many as the
    /// pool's occupied slots, and never more than the capacity.
    pub proof fn lemma_live_flows_bounded(p: Policer)
        requires
            p.wf(),
        ensures
            p.flows().dom().len() == occupied_count(p.stamps()),
            p.flows().dom().len() <= p.config().capacity,
    {
        lemma_count_bounded(p.stamps());
    }

    /// Every slot's bucket holds between zero and the burst size in tokens.
    pub proof fn lemma_tokens_within_burst(p: Policer)
        requires
            p.wf(),
        ensures
            p.buckets().len() == p.config().capacity,
            forall|i: int|
                0 <= i < p.config().capacity ==> 0 <= #[trigger] p.buckets()[i].tokens
                    <= p.config().burst,
    {
    }

    pub fn config_ref(&self) -> (r: &PolicerConfig)
        ensures
            *r == self.config(),
    {
        &self.config
    }

    /// How many flows are live.
    pub fn live_flows(&self) -> (r: usize)
        requires
            self.wf(),
        ensures
            r == self.flows().dom().len(),
    {
        self.table.len()
    }

    /// The slot of flow `key`, if it is live.
    pub fn lookup(&self, key: &FlowKey) -> (r: Option<usize>)
        requires
            self.wf(),
        ensures
            r == (if self.flows().contains_key(*key) {
                Some(self.flows()[*key])
            } else {
                None
            }),
    {
        self.table.lookup(key)
    }

    /// When slot `index` was last touched, or `None` if it is free.
    pub fn stamp(&self, index: usize) -> (r: Option<TimeT>)
        requires
            self.wf(),
            index < self.config().capacity,
        ensures
            r == self.stamps()[index as int],
    {
        self.pool.stamp(index)
    }

    /// The token bucket of slot `index`.
    pub fn bucket(&self, index: usize) -> (r: Bucket)
        requires
            self.wf(),
            index < self.config().capacity,
        ensures
            r == self.buckets()[index as int],
    {
        self.buckets[index]
    }
}

} // verus!
