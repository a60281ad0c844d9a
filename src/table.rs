//! The association table: one entry per live flow, expiring after a period
//! without traffic.

use vstd::prelude::*;
use std::sync::Arc;
use lru_time_cache::LruCache;
use tokio::sync::mpsc;
use tokio::sync::oneshot;
use crate::address::SockAddr;
use crate::flow::{FlowKey, flow_key, cache_key};

verus! {

#[verifier::external_type_specification]
#[verifier::external_body]
#[verifier::reject_recursive_types(Key)]
#[verifier::reject_recursive_types(Value)]
pub struct ExLruCache<Key, Value>(LruCache<Key, Value>);

#[verifier::external_type_specification]
#[verifier::external_body]
#[verifier::reject_recursive_types(T)]
pub struct ExQueueSender<T>(mpsc::Sender<T>);

#[verifier::external_type_specification]
#[verifier::external_body]
#[verifier::reject_recursive_types(T)]
pub struct ExSignalSender<T>(oneshot::Sender<T>);

/// The relay context of one flow.
pub struct Association {
    /// Serial number of the association, unique within its table.
    pub id: u64,
    /// Sending side of the flow's egress queue; dropping the last one ends
    /// the egress task.
    pub tx: mpsc::Sender<Vec<u8>>,
    /// Shutdown signal of the reply task: it fires when the last holder
    /// drops it.
    pub watcher: Arc<oneshot::Sender<()>>,
}

/// Every entry of `small` stands in `big` with the same value.
pub open spec fn within(small: Map<FlowKey, u64>, big: Map<FlowKey, u64>) -> bool {
    forall|k: FlowKey| #[trigger]
        small.contains_key(k) ==> big.contains_key(k) && small[k] == big[k]
}

/// The cache behind the table.
pub type FlowCache = LruCache<FlowKey, Association>;

/// What the table holds: each flow key with the serial number of its
/// association.
pub uninterp spec fn cache_ids(c: FlowCache) -> Map<FlowKey, u64>;

/// The keys of the table from least to most recently used.
pub uninterp spec fn cache_order(c: FlowCache) -> Seq<FlowKey>;

/// How long, in milliseconds, an entry lives after its last use.
pub uninterp spec fn cache_ttl(c: FlowCache) -> u64;

/// `k` moved to the most recent end of `order`, if it is there.
pub open spec fn moved_last(order: Seq<FlowKey>, k: FlowKey) -> Seq<FlowKey> {
    if order.contains(k) {
        order.remove_value(k).push(k)
    } else {
        order
    }
}

/// `after` is `before` without some of its least recently used keys.
pub open spec fn expired_only(before: Seq<FlowKey>, after: Seq<FlowKey>) -> bool {
    exists|n: int| 0 <= n <= before.len() && after == #[trigger] before.skip(n)
}

/// `after` is `before` without some of its least recently used keys, then
/// with `k`, if still there, marked most recently used.
pub open spec fn used(before: Seq<FlowKey>, after: Seq<FlowKey>, k: FlowKey) -> bool {
    exists|n: int| 0 <= n <= before.len() && after == moved_last(#[trigger] before.skip(n), k)
}

/// `after` is `before` without some of its least recently used keys, then
/// with `k` placed as most recently used.
pub open spec fn inserted(before: Seq<FlowKey>, after: Seq<FlowKey>, k: FlowKey) -> bool {
    exists|n: int| 0 <= n <= before.len() && after == (#[trigger] before.skip(n)).remove_value(k).push(k)
}

/// Relies on `LruCache::with_expiry_duration`: an empty cache without a
/// size bound whose entries expire `ttl_ms` after they were last used.
#[verifier::external_body]
fn cache_new(ttl_ms: u64) -> (r: FlowCache)
    ensures
        cache_ids(r).is_empty(),
        cache_order(r) == Seq::<FlowKey>::empty(),
        cache_ttl(r) == ttl_ms,
{
    LruCache::with_expiry_duration(std::time::Duration::from_millis(ttl_ms))
}

/// Relies on `LruCache::get`: it drops the expired entries, which lead the
/// recency list, then finds `k` among the rest and moves it to the back.
#[verifier::external_body]
fn cache_get<'a>(c: &'a mut FlowCache, k: &FlowKey) -> (r: Option<&'a Association>)
    ensures
        within(cache_ids(*final(c)), cache_ids(*old(c))),
        used(cache_order(*old(c)), cache_order(*final(c)), *k),
        cache_ids(*final(c)).contains_key(*k) ==> cache_order(*final(c)).last() == *k,
        cache_ttl(*final(c)) == cache_ttl(*old(c)),
        r is Some == cache_ids(*final(c)).contains_key(*k),
        r matches Some(a) ==> a.id == cache_ids(*final(c))[*k],
{
    c.get(k)
}

/// Relies on `LruCache::insert`: it drops expired entries (and, at its size
/// bound, the least recently used ones), then maps `k` to `v` and moves `k`
/// to the back of the recency list.
#[verifier::external_body]
fn cache_insert(c: &mut FlowCache, k: FlowKey, v: Association)
    ensures
        cache_ids(*final(c)).contains_key(k),
        cache_ids(*final(c))[k] == v.id,
        within(cache_ids(*final(c)).remove(k), cache_ids(*old(c))),
        inserted(cache_order(*old(c)), cache_order(*final(c)), k),
        cache_order(*final(c)).last() == k,
        cache_ttl(*final(c)) == cache_ttl(*old(c)),
{
    let _ = c.insert(k, v);
}

/// Relies on `LruCache::iter`: making the iterator drops the expired
/// entries, which lead the recency list; an iterator never advanced touches
/// nothing else.
#[verifier::external_body]
fn cache_sweep(c: &mut FlowCache)
    ensures
        within(cache_ids(*final(c)), cache_ids(*old(c))),
        expired_only(cache_order(*old(c)), cache_order(*final(c))),
        cache_ttl(*final(c)) == cache_ttl(*old(c)),
{
    let _ = c.iter();
}

/// How a received datagram is handled.
#[derive(Clone, Copy, Debug)]
pub enum Route {
    /// An empty datagram: dropped, the table untouched.
    Discard,
    /// The flow has a live association, with this serial number.
    Hit(FlowKey, u64),
    /// The flow has none: one must be made and registered.
    Miss(FlowKey),
}

/// The route of a datagram of `len` bytes from `src` to `dst`, given the
/// live flows `ids`.
pub open spec fn route_of(ids: Map<FlowKey, u64>, src: SockAddr, dst: SockAddr, len: nat) -> Route {
    let k = flow_key(src, dst);
    if len == 0 {
        Route::Discard
    } else if ids.contains_key(k) {
        Route::Hit(k, ids[k])
    } else {
        Route::Miss(k)
    }
}

/// The live associations, indexed by flow key.
pub struct AssocTable {
    cache: FlowCache,
    next_id: u64,
}

impl View for AssocTable {
    type V = Map<FlowKey, u64>;

    closed spec fn view(&self) -> Map<FlowKey, u64> {
        cache_ids(self.cache)
    }
}

impl AssocTable {
    /// The serial number that the next association will get.
    pub closed spec fn next_serial(&self) -> u64 {
        self.next_id
    }

    /// The live flow keys from least to most recently used.
    pub closed spec fn recency(&self) -> Seq<FlowKey> {
        cache_order(self.cache)
    }

    /// How long, in milliseconds, an entry lives after its last use.
    pub closed spec fn ttl_ms(&self) -> u64 {
        cache_ttl(self.cache)
    }

    /// Every live association was numbered before the next one.
    pub closed spec fn wf(&self) -> bool {
        forall|k: FlowKey| #[trigger]
            cache_ids(self.cache).contains_key(k) ==> cache_ids(self.cache)[k] < self.next_id
    }

    /// An empty table whose entries expire `ttl_ms` milliseconds after
    /// their last use.
    pub fn new(ttl_ms: u64) -> (r: AssocTable)
        ensures
            r.wf(),
            r@ == Map::<FlowKey, u64>::empty(),
            r.recency() == Seq::<FlowKey>::empty(),
            r.ttl_ms() == ttl_ms,
            r.next_serial() == 0,
    {
        AssocTable { cache: cache_new(ttl_ms), next_id: 0 }
    }

    /// Decides what to do with a datagram of `len` bytes from `src` to
    /// `dst`; a nonempty one marks its flow used.
    pub fn route(&mut self, src: &SockAddr, dst: &SockAddr, len: usize) -> (r: Route)
        requires
            old(self).wf(),
        ensures
            final(self).wf(),
            final(self).next_serial() == old(self).next_serial(),
            final(self).ttl_ms() == old(self).ttl_ms(),
            within(final(self)@, old(self)@),
            len == 0 ==> *final(self) == *old(self),
            len > 0 ==> used(old(self).recency(), final(self).recency(), flow_key(*src, *dst)),
            r matches Route::Hit(k, _) ==> final(self).recency().last() == k,
            r == route_of(final(self)@, *src, *dst, len as nat),
    {
        if len == 0 {
            return Route::Discard;
        }
        let key = cache_key(src, dst);
        let r = match cache_get(&mut self.cache, &key) {
            Some(a) => Route::Hit(key, a.id),
            None => Route::Miss(key),
        };
        r
    }

    /// Adds the association made for `key`, giving it the next serial
    /// number; `None`, and the table untouched, once the numbers run out.
    pub fn register(
        &mut self,
        key: FlowKey,
        tx: mpsc::Sender<Vec<u8>>,
        watcher: Arc<oneshot::Sender<()>>,
    ) -> (r: Option<u64>)
        requires
            old(self).wf(),
        ensures
            final(self).wf(),
            final(self).ttl_ms() == old(self).ttl_ms(),
            old(self).next_serial() == u64::MAX ==> r is None && *final(self) == *old(self),
            old(self).next_serial() < u64::MAX ==> r == Some(old(self).next_serial())
                && inserted(old(self).recency(), final(self).recency(), key)
                && final(self).recency().last() == key
                && final(self).next_serial() == old(self).next_serial() + 1
                && final(self)@.contains_key(key)
                && final(self)@[key] == old(self).next_serial()
                && within(final(self)@.remove(key), old(self)@),
    {
        if self.next_id == u64::MAX {
            return None;
        }
        let ghost before = self@;
        let id = self.next_id;
        cache_insert(&mut self.cache, key, Association { id, tx, watcher });
        self.next_id = id + 1;
        assert forall|k: FlowKey| #[trigger]
            cache_ids(self.cache).contains_key(k) implies cache_ids(self.cache)[k] < self.next_id by {
            if k != key {
                assert(self@.remove(key).contains_key(k));
                assert(self@.remove(key)[k] == self@[k]);
                assert(before.contains_key(k));
            }
        }
        Some(id)
    }

    /// The association of `key`, if it is live; marks it used.
    pub fn handle(&mut self, key: &FlowKey) -> (r: Option<&Association>)
        requires
            old(self).wf(),
        ensures
            final(self).wf(),
            final(self).next_serial() == old(self).next_serial(),
            final(self).ttl_ms() == old(self).ttl_ms(),
            within(final(self)@, old(self)@),
            used(old(self).recency(), final(self).recency(), *key),
            final(self)@.contains_key(*key) ==> final(self).recency().last() == *key,
            r is Some == final(self)@.contains_key(*key),
            r matches Some(a) ==> a.id == final(self)@[*key],
    {
        let r = cache_get(&mut self.cache, key);
        r
    }

    /// Marks the flow `key` used, so that it does not expire while it has
    /// traffic.
    pub fn touch(&mut self, key: &FlowKey)
        requires
            old(self).wf(),
        ensures
            final(self).wf(),
            final(self).next_serial() == old(self).next_serial(),
            final(self).ttl_ms() == old(self).ttl_ms(),
            within(final(self)@, old(self)@),
            used(old(self).recency(), final(self).recency(), *key),
            final(self)@.contains_key(*key) ==> final(self).recency().last() == *key,
    {
        let _ = cache_get(&mut self.cache, key);
    }

    /// Drops the expired entries, which releases their associations.
    pub fn sweep(&mut self)
        requires
            old(self).wf(),
        ensures
            final(self).wf(),
            final(self).next_serial() == old(self).next_serial(),
            final(self).ttl_ms() == old(self).ttl_ms(),
            within(final(self)@, old(self)@),
            expired_only(old(self).recency(), final(self).recency()),
    {
        cache_sweep(&mut self.cache);
    }
}

/// An empty datagram never reaches a flow: it neither finds nor asks for an
/// association.
pub proof fn lemma_empty_datagram_discarded(ids: Map<FlowKey, u64>, src: SockAddr, dst: SockAddr)
    ensures
        route_of(ids, src, dst, 0) == Route::Discard,
{
}

/// Once an association is registered for a flow, every nonempty datagram of
/// that flow, while the entry lives, is routed to it: no second
/// association is asked for.
pub proof fn lemma_one_association_per_flow(
    ids: Map<FlowKey, u64>,
    id: u64,
    src: SockAddr,
    dst: SockAddr,
    len: nat,
)
    requires
        len > 0,
    ensures
        route_of(ids.insert(flow_key(src, dst), id), src, dst, len) == Route::Hit(
            flow_key(src, dst),
            id,
        ),
{
}

/// Over a run of datagrams of one flow, each table state `states[i + 1]`
/// kept from `states[i]` (`within`), while the flow's entry stays live
/// (each datagram comes within the idle window), every nonempty datagram
/// after the one that registered serial `id` is routed to that same
/// association: the flow asks for exactly one.
pub proof fn lemma_single_association_over_run(
    states: Seq<Map<FlowKey, u64>>,
    id: u64,
    src: SockAddr,
    dst: SockAddr,
    len: nat,
)
    requires
        len > 0,
        states.len() > 0,
        states[0].contains_key(flow_key(src, dst)),
        states[0][flow_key(src, dst)] == id,
        forall|i: int| 0 <= i < states.len() - 1 ==> within(#[trigger] states[i + 1], states[i]),
        forall|i: int| 0 <= i < states.len() ==> (#[trigger] states[i]).contains_key(flow_key(src, dst)),
    ensures
        forall|i: int|
            0 <= i < states.len() ==> route_of(#[trigger] states[i], src, dst, len) == Route::Hit(
                flow_key(src, dst),
                id,
            ),
{
    let k = flow_key(src, dst);
    assert forall|i: int| 0 <= i < states.len() implies route_of(
        #[trigger] states[i],
        src,
        dst,
        len,
    ) == Route::Hit(k, id) by {
        lemma_serial_kept(states, k, id, i);
    }
}

proof fn lemma_serial_kept(states: Seq<Map<FlowKey, u64>>, k: FlowKey, id: u64, j: int)
    requires
        0 <= j < states.len(),
        states[0].contains_key(k),
        states[0][k] == id,
        forall|i: int| 0 <= i < states.len() - 1 ==> within(#[trigger] states[i + 1], states[i]),
        forall|i: int| 0 <= i < states.len() ==> (#[trigger] states[i]).contains_key(k),
    ensures
        states[j][k] == id,
    decreases j,
{
    if j > 0 {
        lemma_serial_kept(states, k, id, j - 1);
        assert(within(states[j - 1 + 1], states[j - 1]));
        assert(states[j].contains_key(k));
    }
}

/// Once a flow's entry has expired, its next nonempty datagram asks for a
/// new association, and the serial number that registration gives it
/// differs from that of every association still live.
pub proof fn lemma_expired_flow_reassociates(t: AssocTable, src: SockAddr, dst: SockAddr, len: nat)
    requires
        t.wf(),
        len > 0,
        !t@.contains_key(flow_key(src, dst)),
    ensures
        route_of(t@, src, dst, len) == Route::Miss(flow_key(src, dst)),
        forall|k: FlowKey| #[trigger] t@.contains_key(k) ==> t@[k] != t.next_serial(),
{
}

} // verus!
