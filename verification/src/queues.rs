//! Request queues of the background workers: coalescing a backlog so that
//! only the latest request per key is served, with requests that have no key
//! kept in order as barriers.
use vstd::prelude::*;

use std::collections::VecDeque;
use std::sync::atomic::AtomicBool;
use std::sync::mpsc::{Receiver, Sender};
use std::sync::Arc;

use crate::channel::{send_ack, take_waiting, took_from_channel};
use crate::theme::AppType;

verus! {

/// A custom usage range, in seconds since the epoch.
#[derive(Debug, Clone, Copy, PartialEq, Eq, Structural)]
pub struct UsageCustomRange {
    pub start: i64,
    pub end: i64,
}

/// The period that usage and pricing data is loaded for.
#[derive(Debug, Clone, Copy, PartialEq, Eq, Structural)]
pub enum UsageRangePreset {
    Today,
    SevenDays,
    Custom(UsageCustomRange),
}

/// What a usage request is coalesced by, besides its app: its preset, or
/// "some custom range" (a newer custom range replaces an older one).
#[derive(Debug, Clone, Copy, PartialEq, Eq, Structural)]
pub enum UsagePricingReqRangeKey {
    Fixed(UsageRangePreset),
    Custom,
}

/// Which load of an app's data a request asks for.
#[derive(Debug, Clone, Copy, PartialEq, Eq, Structural)]
pub enum AppDataLoadKind {
    Initial,
    Snapshot,
    Full,
}

/// A request to the usage and pricing worker.
#[derive(Debug)]
pub enum UsagePricingReq {
    Load {
        request_id: u64,
        generation: u64,
        app_state_epoch: u64,
        app_type: AppType,
        range: UsageRangePreset,
    },
    /// Forget cached state; `ack` is answered once that is done.
    DropState { ack: Sender<()> },
}

/// A request to the app data worker.
#[derive(Debug)]
pub enum AppDataReq {
    InitialLoad {
        request_id: u64,
        generation: u64,
        app_state_epoch: u64,
        app_type: AppType,
        /// Further apps loaded along with it.
        extras: Vec<AppType>,
    },
    Load { request_id: u64, generation: u64, app_state_epoch: u64, app_type: AppType },
    FullLoad { request_id: u64, generation: u64, app_state_epoch: u64, app_type: AppType },
    /// Forget cached state; `ack` is answered once that is done.
    DropState { ack: Sender<()> },
}

pub open spec fn app_data_key(req: AppDataReq) -> Option<(AppType, AppDataLoadKind)> {
    match req {
        AppDataReq::InitialLoad { app_type, .. } => Some((app_type, AppDataLoadKind::Initial)),
        AppDataReq::Load { app_type, .. } => Some((app_type, AppDataLoadKind::Snapshot)),
        AppDataReq::FullLoad { app_type, .. } => Some((app_type, AppDataLoadKind::Full)),
        AppDataReq::DropState { .. } => None,
    }
}

/// The key an app data request is coalesced by; a drop request has none.
pub fn app_data_req_key(req: &AppDataReq) -> (k: Option<(AppType, AppDataLoadKind)>)
    ensures
        k == app_data_key(*req),
{
    match req {
        AppDataReq::InitialLoad { app_type, .. } => Some((*app_type, AppDataLoadKind::Initial)),
        AppDataReq::Load { app_type, .. } => Some((*app_type, AppDataLoadKind::Snapshot)),
        AppDataReq::FullLoad { app_type, .. } => Some((*app_type, AppDataLoadKind::Full)),
        AppDataReq::DropState { .. } => None,
    }
}

pub open spec fn range_key(range: UsageRangePreset) -> UsagePricingReqRangeKey {
    match range {
        UsageRangePreset::Custom(_) => UsagePricingReqRangeKey::Custom,
        _ => UsagePricingReqRangeKey::Fixed(range),
    }
}

pub open spec fn usage_pricing_key(req: UsagePricingReq) -> Option<(AppType, UsagePricingReqRangeKey)> {
    match req {
        UsagePricingReq::Load { app_type, range, .. } => Some((app_type, range_key(range))),
        UsagePricingReq::DropState { .. } => None,
    }
}

/// The key a usage request is coalesced by; a drop request has none.
pub fn usage_pricing_req_key(req: &UsagePricingReq) -> (k: Option<(AppType, UsagePricingReqRangeKey)>)
    ensures
        k == usage_pricing_key(*req),
{
    match req {
        UsagePricingReq::Load { app_type, range, .. } => {
            let range_key = match range {
                UsageRangePreset::Custom(_) => UsagePricingReqRangeKey::Custom,
                _ => UsagePricingReqRangeKey::Fixed(*range),
            };
            Some((*app_type, range_key))
        },
        UsagePricingReq::DropState { .. } => None,
    }
}

pub open spec fn is_custom_load(req: UsagePricingReq) -> bool {
    req matches UsagePricingReq::Load { range: UsageRangePreset::Custom(_), .. }
}

/// Whether a usage request loads a custom range.
pub fn usage_pricing_req_is_custom(req: &UsagePricingReq) -> (b: bool)
    ensures
        b == is_custom_load(*req),
{
    match req {
        UsagePricingReq::Load { range: UsageRangePreset::Custom(_), .. } => true,
        _ => false,
    }
}

pub open spec fn request_id_of(req: UsagePricingReq) -> Option<u64> {
    match req {
        UsagePricingReq::Load { request_id, .. } => Some(request_id),
        UsagePricingReq::DropState { .. } => None,
    }
}

/// The id of a usage load; a drop request has none.
pub fn usage_pricing_req_request_id(req: &UsagePricingReq) -> (id: Option<u64>)
    ensures
        id == request_id_of(*req),
{
    match req {
        UsagePricingReq::Load { request_id, .. } => Some(*request_id),
        UsagePricingReq::DropState { .. } => None,
    }
}

pub open spec fn loads_app(req: UsagePricingReq, app_type: AppType) -> bool {
    req matches UsagePricingReq::Load { app_type: a, .. } && a == app_type
}

/// Whether a usage request loads `app_type`'s data.
pub fn usage_pricing_req_matches_app(req: &UsagePricingReq, app_type: &AppType) -> (b: bool)
    ensures
        b == loads_app(*req, *app_type),
{
    match req {
        UsagePricingReq::Load { app_type: a, .. } => *a == *app_type,
        UsagePricingReq::DropState { .. } => false,
    }
}

/// A key that requests are coalesced by, compared as values.
pub trait CoalesceKey: Sized {
    fn same_key(&self, other: &Self) -> (b: bool)
        ensures
            b == (*self == *other),
    ;
}

impl CoalesceKey for (AppType, AppDataLoadKind) {
    fn same_key(&self, other: &Self) -> (b: bool) {
        self.0 == other.0 && self.1 == other.1
    }
}

impl CoalesceKey for (AppType, UsagePricingReqRangeKey) {
    fn same_key(&self, other: &Self) -> (b: bool) {
        self.0 == other.0 && self.1 == other.1
    }
}

/// No two entries share a key.
pub open spec fn keys_unique<K, T>(entries: Seq<(K, T)>) -> bool {
    forall|i: int, j: int| 0 <= i < j < entries.len() ==> entries[i].0 != entries[j].0
}

/// `entries` with `value` stored under `key`: in place of the entry with
/// that key, else appended.
pub open spec fn upsert<K, T>(entries: Seq<(K, T)>, key: K, value: T) -> Seq<(K, T)> {
    if exists|i: int| 0 <= i < entries.len() && entries[i].0 == key {
        let i = choose|i: int| 0 <= i < entries.len() && entries[i].0 == key;
        entries.update(i, (key, value))
    } else {
        entries.push((key, value))
    }
}

/// The backlog pass: each request with a key replaces the latest one of
/// that key; one without a key is deferred.
pub open spec fn absorb_backlog<K, T>(
    items: Seq<T>,
    keys: Seq<Option<K>>,
    latest: Seq<(K, T)>,
    deferred: Seq<T>,
) -> (Seq<(K, T)>, Seq<T>)
    decreases items.len(),
{
    if items.len() == 0 {
        (latest, deferred)
    } else {
        let (l, d) = absorb_backlog(items.drop_last(), keys.drop_last(), latest, deferred);
        match keys[items.len() - 1] {
            Some(k) => (upsert(l, k, items.last()), d),
            None => (l, d.push(items.last())),
        }
    }
}

/// The pass over newly received requests: as long as nothing is deferred,
/// a request with a key replaces the latest one of that key; from the first
/// request without a key on, everything is deferred in order.
pub open spec fn absorb_incoming<K, T>(
    items: Seq<T>,
    keys: Seq<Option<K>>,
    latest: Seq<(K, T)>,
    deferred: Seq<T>,
) -> (Seq<(K, T)>, Seq<T>)
    decreases items.len(),
{
    if items.len() == 0 {
        (latest, deferred)
    } else {
        let (l, d) = absorb_incoming(items.drop_last(), keys.drop_last(), latest, deferred);
        if d.len() == 0 && keys[items.len() - 1] is Some {
            (upsert(l, keys[items.len() - 1]->0, items.last()), d)
        } else {
            (l, d.push(items.last()))
        }
    }
}

pub open spec fn values_of<K, T>(entries: Seq<(K, T)>) -> Seq<T> {
    entries.map_values(|e: (K, T)| e.1)
}

/// `keys` are keys that `key` gives for `items`.
pub open spec fn keys_given<T, K, F: Fn(&T) -> Option<K>>(key: F, items: Seq<T>, keys: Seq<Option<K>>) -> bool {
    &&& keys.len() == items.len()
    &&& forall|i: int| 0 <= i < items.len() ==> call_ensures(key, (&items[i],), #[trigger] keys[i])
}

/// Coalescing `backlog` (with `deferred` already waiting) and then the
/// requests `incoming` leaves `backlog_out` and `deferred_out`.
pub open spec fn coalesced<T, K, F: Fn(&T) -> Option<K>>(
    key: F,
    backlog: Seq<T>,
    deferred: Seq<T>,
    incoming: Seq<T>,
    backlog_out: Seq<T>,
    deferred_out: Seq<T>,
) -> bool {
    exists|kb: Seq<Option<K>>, ki: Seq<Option<K>>|
        #![trigger keys_given(key, backlog, kb), keys_given(key, incoming, ki)]
        keys_given(key, backlog, kb) && keys_given(key, incoming, ki) && {
            let (l1, d1) = absorb_backlog(backlog, kb, Seq::empty(), deferred);
            let (l2, d2) = absorb_incoming(incoming, ki, l1, d1);
            backlog_out == values_of(l2) && deferred_out == d2
        }
}

proof fn lemma_upsert_unique<K, T>(entries: Seq<(K, T)>, key: K, value: T)
    requires
        keys_unique(entries),
    ensures
        keys_unique(upsert(entries, key, value)),
{
}

/// Stores `value` under `key` in `latest`.
fn upsert_latest<K: CoalesceKey, T>(latest: &mut Vec<(K, T)>, key: K, value: T)
    requires
        keys_unique(old(latest)@),
    ensures
        final(latest)@ == upsert(old(latest)@, key, value),
        keys_unique(final(latest)@),
{
    proof {
        lemma_upsert_unique(old(latest)@, key, value);
    }
    let mut i: usize = 0;
    while i < latest.len()
        invariant
            i <= latest@.len(),
            latest@ == old(latest)@,
            keys_unique(latest@),
            forall|j: int| 0 <= j < i ==> latest@[j].0 != key,
        decreases latest@.len() - i,
    {
        if latest[i].0.same_key(&key) {
            let ghost before = latest@;
            assert(before[i as int].0 == key);
            let _ = latest.remove(i);
            latest.insert(i, (key, value));
            assert(latest@ =~= before.update(i as int, (key, value)));
            return;
        }
        i += 1;
    }
    latest.push((key, value));
}

/// Coalesces `backlog` and then `incoming` (requests received after it):
/// afterwards `backlog` holds the latest request of each key, in the order
/// the keys first appeared, and `deferred` the requests without a key, in
/// order, followed by everything received after the first of them.
pub fn coalesce_by_key<T, K: CoalesceKey, F: Fn(&T) -> Option<K>>(
    backlog: &mut VecDeque<T>,
    deferred: &mut VecDeque<T>,
    incoming: Vec<T>,
    key: F,
)
    requires
        forall|t: T| call_requires(key, (&t,)),
    ensures
        coalesced(key, old(backlog)@, old(deferred)@, incoming@, final(backlog)@, final(deferred)@),
{
    let ghost backlog0 = backlog@;
    let ghost deferred0 = deferred@;
    let mut latest: Vec<(K, T)> = Vec::new();
    let ghost mut kb: Seq<Option<K>> = Seq::empty();
    while backlog.len() > 0
        invariant
            forall|t: T| call_requires(key, (&t,)),
            kb.len() + backlog@.len() == backlog0.len(),
            backlog@ == backlog0.skip(kb.len() as int),
            keys_given(key, backlog0.take(kb.len() as int), kb),
            keys_unique(latest@),
            (latest@, deferred@) == absorb_backlog(
                backlog0.take(kb.len() as int),
                kb,
                Seq::empty(),
                deferred0,
            ),
        decreases backlog@.len(),
    {
        let req = backlog.pop_front().unwrap();
        let k = key(&req);
        let ghost n = kb.len() as int;
        let ghost kb_old = kb;
        proof {
            kb = kb.push(k);
            assert(backlog0.take(n + 1).drop_last() =~= backlog0.take(n));
            assert(kb.drop_last() =~= kb_old);
            assert(backlog0.take(n + 1).last() == req);
            assert(backlog@ =~= backlog0.skip(n + 1));
        }
        match k {
            Some(k) => upsert_latest(&mut latest, k, req),
            None => deferred.push_back(req),
        }
        proof {
            assert(kb.drop_last() =~= kb.subrange(0, n));
            assert forall|i: int| 0 <= i < n + 1 implies call_ensures(
                key,
                (&backlog0.take(n + 1)[i],),
                #[trigger] kb[i],
            ) by {
                if i < n {
                    assert(backlog0.take(n + 1)[i] == backlog0.take(n)[i]);
                }
            }
        }
    }
    proof {
        assert(backlog0.take(kb.len() as int) =~= backlog0);
    }
    let ghost incoming0 = incoming@;
    let ghost l1 = latest@;
    let ghost d1 = deferred@;
    let mut rest = incoming;
    let ghost mut ki: Seq<Option<K>> = Seq::empty();
    while rest.len() > 0
        invariant
            forall|t: T| call_requires(key, (&t,)),
            ki.len() + rest@.len() == incoming0.len(),
            rest@ == incoming0.skip(ki.len() as int),
            keys_given(key, incoming0.take(ki.len() as int), ki),
            keys_unique(latest@),
            (latest@, deferred@) == absorb_incoming(incoming0.take(ki.len() as int), ki, l1, d1),
        decreases rest@.len(),
    {
        let req = rest.remove(0);
        let k = key(&req);
        let ghost n = ki.len() as int;
        let ghost ki_old = ki;
        proof {
            ki = ki.push(k);
            assert(incoming0.take(n + 1).drop_last() =~= incoming0.take(n));
            assert(ki.drop_last() =~= ki_old);
            assert(incoming0.take(n + 1).last() == req);
            assert(rest@ =~= incoming0.skip(n + 1));
        }
        if deferred.len() == 0 {
            match k {
                Some(k) => upsert_latest(&mut latest, k, req),
                None => deferred.push_back(req),
            }
        } else {
            deferred.push_back(req);
        }
        proof {
            assert(ki.drop_last() =~= ki.subrange(0, n));
            assert forall|i: int| 0 <= i < n + 1 implies call_ensures(
                key,
                (&incoming0.take(n + 1)[i],),
                #[trigger] ki[i],
            ) by {
                if i < n {
                    assert(incoming0.take(n + 1)[i] == incoming0.take(n)[i]);
                }
            }
        }
    }
    proof {
        assert(incoming0.take(ki.len() as int) =~= incoming0);
    }
    let ghost l2 = latest@;
    let ghost mut moved: nat = 0;
    while latest.len() > 0
        invariant
            moved + latest@.len() == l2.len(),
            latest@ == l2.skip(moved as int),
            backlog@ == values_of(l2.take(moved as int)),
        decreases latest@.len(),
    {
        let (_k, v) = latest.remove(0);
        proof {
            assert(values_of(l2.take(moved + 1int)) =~= values_of(l2.take(moved as int)).push(v));
            moved = moved + 1;
            assert(latest@ =~= l2.skip(moved as int));
        }
        backlog.push_back(v);
    }
    proof {
        assert(l2.take(moved as int) =~= l2);
        assert(keys_given(key, backlog0, kb) && keys_given(key, incoming0, ki));
    }
}

/// Coalesces `backlog` with the requests already waiting on `rx` (see
/// `coalesce_by_key`). Which requests were waiting depends on the senders;
/// whatever they were, the outcome is their coalescing.
pub fn drain_latest_by_key<T, K: CoalesceKey, F: Fn(&T) -> Option<K>>(
    backlog: &mut VecDeque<T>,
    deferred: &mut VecDeque<T>,
    rx: &Receiver<T>,
    key: F,
)
    requires
        forall|t: T| call_requires(key, (&t,)),
    ensures
        exists|incoming: Vec<T>|
            took_from_channel(rx, incoming) && coalesced(
                key,
                old(backlog)@,
                old(deferred)@,
                incoming@,
                final(backlog)@,
                final(deferred)@,
            ),
{
    let incoming = take_waiting(rx);
    let ghost received = incoming;
    coalesce_by_key(backlog, deferred, incoming, key);
    assert(coalesced(key, old(backlog)@, old(deferred)@, received@, backlog@, deferred@));
}

/// Every entry is stored under a key that `key` gives its request, and no
/// two entries share a key.
pub open spec fn entries_keyed<T, K, F: Fn(&T) -> Option<K>>(key: F, entries: Seq<(K, T)>) -> bool {
    &&& keys_unique(entries)
    &&& forall|i: int|
        0 <= i < entries.len() ==> call_ensures(key, (&entries[i].1,), Some(#[trigger] entries[i].0))
}

proof fn lemma_upsert_keyed<T, K, F: Fn(&T) -> Option<K>>(key: F, entries: Seq<(K, T)>, k: K, t: T)
    requires
        entries_keyed(key, entries),
        call_ensures(key, (&t,), Some(k)),
    ensures
        entries_keyed(key, upsert(entries, k, t)),
{
    let out = upsert(entries, k, t);
    assert forall|i: int| 0 <= i < out.len() implies call_ensures(key, (&out[i].1,), Some(#[trigger] out[i].0)) by {
        if i < entries.len() && out[i] == entries[i] {
        } else {
            assert(out[i] == (k, t));
        }
    }
}

proof fn lemma_keys_given_prefix<T, K, F: Fn(&T) -> Option<K>>(key: F, items: Seq<T>, keys: Seq<Option<K>>)
    requires
        keys_given(key, items, keys),
        items.len() > 0,
    ensures
        keys_given(key, items.drop_last(), keys.drop_last()),
        call_ensures(key, (&items.last(),), keys[items.len() - 1]),
{
    assert forall|i: int| 0 <= i < items.drop_last().len() implies call_ensures(
        key,
        (&items.drop_last()[i],),
        #[trigger] keys.drop_last()[i],
    ) by {
        assert(call_ensures(key, (&items[i],), keys[i]));
    }
    assert(call_ensures(key, (&items[items.len() - 1],), keys[items.len() - 1]));
}

proof fn lemma_absorb_backlog_keyed<T, K, F: Fn(&T) -> Option<K>>(
    key: F,
    items: Seq<T>,
    keys: Seq<Option<K>>,
    latest: Seq<(K, T)>,
    deferred: Seq<T>,
)
    requires
        keys_given(key, items, keys),
        entries_keyed(key, latest),
    ensures
        entries_keyed(key, absorb_backlog(items, keys, latest, deferred).0),
    decreases items.len(),
{
    if items.len() > 0 {
        lemma_keys_given_prefix(key, items, keys);
        lemma_absorb_backlog_keyed(key, items.drop_last(), keys.drop_last(), latest, deferred);
        let (l, d) = absorb_backlog(items.drop_last(), keys.drop_last(), latest, deferred);
        if let Some(k) = keys[items.len() - 1] {
            lemma_upsert_keyed(key, l, k, items.last());
        }
    }
}

proof fn lemma_absorb_incoming_keyed<T, K, F: Fn(&T) -> Option<K>>(
    key: F,
    items: Seq<T>,
    keys: Seq<Option<K>>,
    latest: Seq<(K, T)>,
    deferred: Seq<T>,
)
    requires
        keys_given(key, items, keys),
        entries_keyed(key, latest),
    ensures
        entries_keyed(key, absorb_incoming(items, keys, latest, deferred).0),
    decreases items.len(),
{
    if items.len() > 0 {
        lemma_keys_given_prefix(key, items, keys);
        lemma_absorb_incoming_keyed(key, items.drop_last(), keys.drop_last(), latest, deferred);
        let (l, d) = absorb_incoming(items.drop_last(), keys.drop_last(), latest, deferred);
        if d.len() == 0 && keys[items.len() - 1] is Some {
            lemma_upsert_keyed(key, l, keys[items.len() - 1]->0, items.last());
        }
    }
}

/// After coalescing, the backlog holds at most one request per key: each of
/// its requests has a key, as the key function gives it, and the keys are
/// distinct.
pub proof fn law_coalesced_backlog_one_per_key<T, K, F: Fn(&T) -> Option<K>>(
    key: F,
    backlog: Seq<T>,
    deferred: Seq<T>,
    incoming: Seq<T>,
    backlog_out: Seq<T>,
    deferred_out: Seq<T>,
)
    requires
        coalesced(key, backlog, deferred, incoming, backlog_out, deferred_out),
    ensures
        exists|keys: Seq<K>|
            #![trigger keys.len()]
            keys.len() == backlog_out.len() && (forall|i: int|
                0 <= i < backlog_out.len() ==> call_ensures(key, (&backlog_out[i],), Some(#[trigger] keys[i])))
                && forall|i: int, j: int| 0 <= i < j < keys.len() ==> keys[i] != keys[j],
{
    let (kb, ki) = choose|kb: Seq<Option<K>>, ki: Seq<Option<K>>|
        #![trigger keys_given(key, backlog, kb), keys_given(key, incoming, ki)]
        keys_given(key, backlog, kb) && keys_given(key, incoming, ki) && {
            let (l1, d1) = absorb_backlog(backlog, kb, Seq::empty(), deferred);
            let (l2, d2) = absorb_incoming(incoming, ki, l1, d1);
            backlog_out == values_of(l2) && deferred_out == d2
        };
    let empty: Seq<(K, T)> = Seq::empty();
    lemma_absorb_backlog_keyed(key, backlog, kb, empty, deferred);
    let (l1, d1) = absorb_backlog(backlog, kb, empty, deferred);
    lemma_absorb_incoming_keyed(key, incoming, ki, l1, d1);
    let (l2, d2) = absorb_incoming(incoming, ki, l1, d1);
    let keys = l2.map_values(|e: (K, T)| e.0);
    assert(keys.len() == backlog_out.len());
    assert forall|i: int| 0 <= i < backlog_out.len() implies call_ensures(
        key,
        (&backlog_out[i],),
        Some(#[trigger] keys[i]),
    ) by {
        assert(backlog_out[i] == l2[i].1);
    }
}

proof fn lemma_absorb_backlog_extends<K, T>(items: Seq<T>, keys: Seq<Option<K>>, latest: Seq<(K, T)>, deferred: Seq<T>)
    ensures
        absorb_backlog(items, keys, latest, deferred).1.len() >= deferred.len(),
        absorb_backlog(items, keys, latest, deferred).1.take(deferred.len() as int) == deferred,
    decreases items.len(),
{
    if items.len() > 0 {
        lemma_absorb_backlog_extends(items.drop_last(), keys.drop_last(), latest, deferred);
        let d = absorb_backlog(items.drop_last(), keys.drop_last(), latest, deferred).1;
        assert(d.push(items.last()).take(deferred.len() as int) =~= d.take(deferred.len() as int));
    }
}

proof fn lemma_absorb_incoming_extends<K, T>(items: Seq<T>, keys: Seq<Option<K>>, latest: Seq<(K, T)>, deferred: Seq<T>)
    ensures
        absorb_incoming(items, keys, latest, deferred).1.len() >= deferred.len(),
        absorb_incoming(items, keys, latest, deferred).1.take(deferred.len() as int) == deferred,
        deferred.len() > 0 ==> absorb_incoming(items, keys, latest, deferred).1 == deferred + items,
    decreases items.len(),
{
    if items.len() > 0 {
        lemma_absorb_incoming_extends(items.drop_last(), keys.drop_last(), latest, deferred);
        let d = absorb_incoming(items.drop_last(), keys.drop_last(), latest, deferred).1;
        assert(d.push(items.last()).take(deferred.len() as int) =~= d.take(deferred.len() as int));
        if deferred.len() > 0 {
            assert(deferred + items =~= (deferred + items.drop_last()).push(items.last()));
        }
    } else {
        assert(deferred + items =~= deferred);
    }
}

/// Coalescing never reorders or drops what was already deferred: it stays
/// at the front of the deferred queue. And while anything is deferred,
/// every request received is deferred behind it, in order, unmerged.
pub proof fn law_coalesce_keeps_deferred_order<T, K, F: Fn(&T) -> Option<K>>(
    key: F,
    backlog: Seq<T>,
    deferred: Seq<T>,
    incoming: Seq<T>,
    backlog_out: Seq<T>,
    deferred_out: Seq<T>,
)
    requires
        coalesced(key, backlog, deferred, incoming, backlog_out, deferred_out),
    ensures
        deferred_out.len() >= deferred.len(),
        deferred_out.take(deferred.len() as int) == deferred,
        deferred.len() > 0 ==> deferred_out.skip(deferred_out.len() - incoming.len()) == incoming,
{
    let (kb, ki) = choose|kb: Seq<Option<K>>, ki: Seq<Option<K>>|
        #![trigger keys_given(key, backlog, kb), keys_given(key, incoming, ki)]
        keys_given(key, backlog, kb) && keys_given(key, incoming, ki) && {
            let (l1, d1) = absorb_backlog(backlog, kb, Seq::empty(), deferred);
            let (l2, d2) = absorb_incoming(incoming, ki, l1, d1);
            backlog_out == values_of(l2) && deferred_out == d2
        };
    let empty: Seq<(K, T)> = Seq::empty();
    lemma_absorb_backlog_extends(backlog, kb, empty, deferred);
    let (l1, d1) = absorb_backlog(backlog, kb, empty, deferred);
    lemma_absorb_incoming_extends(incoming, ki, l1, d1);
    assert(d1.take(deferred.len() as int) == deferred);
    assert(deferred_out.take(deferred.len() as int) =~= d1.take(deferred.len() as int));
    if deferred.len() > 0 {
        assert(d1.len() > 0);
        assert(deferred_out == d1 + incoming);
        assert(deferred_out.skip(deferred_out.len() - incoming.len()) =~= incoming);
    }
}

#[verifier::external_type_specification]
#[verifier::external_body]
pub struct ExInterruptHandle(rusqlite::InterruptHandle);

/// Calls `rusqlite::InterruptHandle::interrupt`, which makes the query that
/// runs on the handle's connection fail with an interrupt error. Its effect
/// is on the database connection, so nothing is stated. (It panics only
/// when the handle's internal lock was poisoned by a panic elsewhere.)
#[verifier::external_body]
fn interrupt_query(handle: &rusqlite::InterruptHandle) {
    handle.interrupt();
}

/// Asks the running query's progress handler to stop.
fn raise_cancel(token: &Arc<AtomicBool>) {
    token.store(true, std::sync::atomic::Ordering::Relaxed);
}

/// The runner of custom-range usage loads: one load runs at a time; newer
/// requests wait, at most one per app, and a newer request cancels the
/// running one.
pub struct UsagePricingCustomState {
    running: bool,
    running_request_id: Option<u64>,
    running_interrupt: Option<rusqlite::InterruptHandle>,
    running_cancel: Option<Arc<AtomicBool>>,
    cancel_requested: bool,
    pending: Vec<UsagePricingReq>,
    drop_acks: Vec<Sender<()>>,
}

/// What `UsagePricingCustomState` holds.
pub struct CustomStateView {
    pub running: bool,
    pub running_request_id: Option<u64>,
    pub has_interrupt: bool,
    pub running_cancel: Option<Arc<AtomicBool>>,
    pub cancel_requested: bool,
    pub pending: Seq<UsagePricingReq>,
    pub drop_acks: Seq<Sender<()>>,
}

/// What a finished load hands back: the request to run next, and the
/// acknowledgements to send now that nothing runs for a dropped state.
pub struct UsagePricingCustomCompletion {
    pub next: Option<UsagePricingReq>,
    pub drop_acks: Vec<Sender<()>>,
}

/// `req` was issued after the running request (a load with no running id
/// counts as newer; a drop request never does).
pub open spec fn newer_than(req: UsagePricingReq, running_id: Option<u64>) -> bool {
    match (request_id_of(req), running_id) {
        (Some(r), Some(id)) => r > id,
        (Some(_), None) => true,
        _ => false,
    }
}

/// `req` is a load issued after request `id`.
pub open spec fn issued_after(req: UsagePricingReq, id: u64) -> bool {
    match request_id_of(req) {
        Some(r) => r > id,
        None => false,
    }
}

/// Some pending request was issued after the running one.
pub open spec fn pending_newer(pending: Seq<UsagePricingReq>, running_id: Option<u64>) -> bool {
    match running_id {
        None => pending.len() > 0,
        Some(running) => exists|i: int| 0 <= i < pending.len() && issued_after(#[trigger] pending[i], running),
    }
}

/// Keeps the requests that do not load `app`'s data.
pub open spec fn other_apps(app: AppType) -> spec_fn(UsagePricingReq) -> bool {
    |p: UsagePricingReq| !loads_app(p, app)
}

/// `pending` without the loads of `req`'s app (when `req` is a load).
pub open spec fn without_app_of(pending: Seq<UsagePricingReq>, req: UsagePricingReq) -> Seq<UsagePricingReq> {
    match req {
        UsagePricingReq::Load { app_type, .. } => pending.filter(other_apps(app_type)),
        UsagePricingReq::DropState { .. } => pending,
    }
}

/// How many of the `pending` requests load `app`'s data.
pub open spec fn app_loads(pending: Seq<UsagePricingReq>, app: AppType) -> nat
    decreases pending.len(),
{
    if pending.len() == 0 {
        0
    } else {
        app_loads(pending.drop_last(), app) + if loads_app(pending.last(), app) {
            1nat
        } else {
            0nat
        }
    }
}

/// No two pending loads are for the same app.
pub open spec fn one_load_per_app(pending: Seq<UsagePricingReq>) -> bool {
    forall|app: AppType| #[trigger] app_loads(pending, app) <= 1
}

proof fn lemma_app_loads_push(pending: Seq<UsagePricingReq>, req: UsagePricingReq, app: AppType)
    ensures
        app_loads(pending.push(req), app) == app_loads(pending, app) + if loads_app(req, app) {
            1nat
        } else {
            0nat
        },
{
    assert(pending.push(req).drop_last() =~= pending);
}

proof fn lemma_app_loads_filter(pending: Seq<UsagePricingReq>, drop: AppType, app: AppType)
    ensures
        app_loads(pending.filter(other_apps(drop)), app) <= app_loads(pending, app),
        app_loads(pending.filter(other_apps(drop)), drop) == 0,
    decreases pending.len(),
{
    reveal(Seq::filter);
    if pending.len() > 0 {
        lemma_app_loads_filter(pending.drop_last(), drop, app);
        let keep = other_apps(drop);
        let rest = pending.drop_last().filter(keep);
        if keep(pending.last()) {
            lemma_app_loads_push(rest, pending.last(), app);
            lemma_app_loads_push(rest, pending.last(), drop);
        }
    }
}

/// The ids of the pending loads, in order.
pub open spec fn pending_ids(pending: Seq<UsagePricingReq>) -> Seq<u64>
    decreases pending.len(),
{
    if pending.len() == 0 {
        Seq::empty()
    } else {
        let rest = pending_ids(pending.drop_last());
        match request_id_of(pending.last()) {
            Some(id) => rest.push(id),
            None => rest,
        }
    }
}

impl UsagePricingCustomState {
    pub closed spec fn view(&self) -> CustomStateView {
        CustomStateView {
            running: self.running,
            running_request_id: self.running_request_id,
            has_interrupt: self.running_interrupt is Some,
            running_cancel: self.running_cancel,
            cancel_requested: self.cancel_requested,
            pending: self.pending@,
            drop_acks: self.drop_acks@,
        }
    }

    /// Hands `req` back to run it now when nothing runs; else queues it
    /// (replacing a pending load of the same app) and, when it is newer
    /// than the running request, cancels that one.
    pub fn enqueue(&mut self, req: UsagePricingReq) -> (launch: Option<UsagePricingReq>)
        ensures
            !old(self).view().running ==> {
                &&& launch == Some(req)
                &&& final(self).view() == (CustomStateView {
                    running: true,
                    running_request_id: request_id_of(req),
                    cancel_requested: false,
                    ..old(self).view()
                })
            },
            old(self).view().running ==> {
                &&& launch is None
                &&& final(self).view() == (CustomStateView {
                    cancel_requested: old(self).view().cancel_requested || newer_than(
                        req,
                        old(self).view().running_request_id,
                    ),
                    pending: without_app_of(old(self).view().pending, req).push(req),
                    ..old(self).view()
                })
            },
            one_load_per_app(old(self).view().pending) ==> one_load_per_app(final(self).view().pending),
    {
        if !self.running {
            self.running = true;
            self.running_request_id = usage_pricing_req_request_id(&req);
            self.cancel_requested = false;
            return Some(req);
        }
        if self.req_is_newer_than_running(&req) {
            self.cancel_running();
        }
        let ghost before = self.pending@;
        match &req {
            UsagePricingReq::Load { app_type, .. } => {
                let app = *app_type;
                self.retain_other_apps(app);
            },
            UsagePricingReq::DropState { .. } => {},
        }
        let ghost mid = self.pending@;
        self.pending.push(req);
        proof {
            assert(mid == without_app_of(before, req));
            if one_load_per_app(before) {
                assert forall|a: AppType| #[trigger] app_loads(self.pending@, a) <= 1 by {
                    lemma_app_loads_push(mid, req, a);
                    match req {
                        UsagePricingReq::Load { app_type, .. } => {
                            lemma_app_loads_filter(before, app_type, a);
                            assert(app_loads(before, a) <= 1);
                        },
                        UsagePricingReq::DropState { .. } => {
                            assert(app_loads(before, a) <= 1);
                        },
                    }
                }
            }
        }
        None
    }

    /// Drops the pending loads of `app`.
    fn retain_other_apps(&mut self, app: AppType)
        ensures
            final(self).view() == (CustomStateView {
                pending: old(self).view().pending.filter(other_apps(app)),
                ..old(self).view()
            }),
    {
        let ghost orig = self.pending@;
        let ghost keep = other_apps(app);
        let mut old_pending: Vec<UsagePricingReq> = Vec::new();
        std::mem::swap(&mut old_pending, &mut self.pending);
        let mut kept: Vec<UsagePricingReq> = Vec::new();
        let ghost mut n: int = 0;
        while old_pending.len() > 0
            invariant
                0 <= n <= orig.len(),
                keep == other_apps(app),
                old_pending@ == orig.skip(n),
                kept@ == orig.take(n).filter(keep),
            decreases old_pending@.len(),
        {
            let p = old_pending.remove(0);
            let same_app = usage_pricing_req_matches_app(&p, &app);
            proof {
                assert(orig.take(n + 1).drop_last() =~= orig.take(n));
                assert(orig.take(n + 1).last() == p);
                reveal(Seq::filter);
                assert(keep(p) == !same_app);
                assert(orig.take(n + 1).filter(keep) == if keep(p) {
                    orig.take(n).filter(keep).push(p)
                } else {
                    orig.take(n).filter(keep)
                });
            }
            if !same_app {
                kept.push(p);
            }
            proof {
                n = n + 1;
                assert(old_pending@ =~= orig.skip(n));
            }
        }
        proof {
            assert(orig.take(n) =~= orig);
        }
        self.pending = kept;
    }

    /// Keeps `handle` to interrupt the running load; interrupts it at once
    /// when the load is already cancelled or superseded. Without a running
    /// load the handle is dropped.
    pub fn set_running_interrupt_handle(&mut self, handle: rusqlite::InterruptHandle)
        ensures
            !old(self).view().running ==> final(self).view() == old(self).view(),
            old(self).view().running ==> final(self).view() == (CustomStateView {
                has_interrupt: true,
                ..old(self).view()
            }),
    {
        if !self.running {
            return;
        }
        if self.cancel_requested || self.has_pending_newer_than_running() {
            interrupt_query(&handle);
        }
        self.running_interrupt = Some(handle);
    }

    /// Keeps `token` to cancel the running load; raises it at once when the
    /// load is already cancelled or superseded, or when nothing runs.
    pub fn set_running_cancel_token(&mut self, token: Arc<AtomicBool>)
        ensures
            !old(self).view().running ==> final(self).view() == old(self).view(),
            old(self).view().running ==> final(self).view() == (CustomStateView {
                running_cancel: Some(token),
                ..old(self).view()
            }),
    {
        if !self.running {
            raise_cancel(&token);
            return;
        }
        if self.cancel_requested || self.has_pending_newer_than_running() {
            raise_cancel(&token);
        }
        self.running_cancel = Some(token);
    }

    /// The running load finished: hands back the waiting acknowledgements
    /// and the latest pending request, which runs next; with none pending,
    /// nothing runs.
    pub fn complete(&mut self) -> (c: UsagePricingCustomCompletion)
        ensures
            c.drop_acks@ == old(self).view().drop_acks,
            final(self).view().drop_acks.len() == 0,
            !final(self).view().has_interrupt,
            final(self).view().running_cancel is None,
            !final(self).view().cancel_requested,
            old(self).view().pending.len() > 0 ==> {
                &&& c.next == Some(old(self).view().pending.last())
                &&& final(self).view().pending == old(self).view().pending.drop_last()
                &&& final(self).view().running == old(self).view().running
                &&& final(self).view().running_request_id == request_id_of(old(self).view().pending.last())
            },
            old(self).view().pending.len() == 0 ==> {
                &&& c.next is None
                &&& final(self).view().pending.len() == 0
                &&& !final(self).view().running
                &&& final(self).view().running_request_id is None
            },
            one_load_per_app(old(self).view().pending) ==> one_load_per_app(final(self).view().pending),
    {
        self.running_interrupt = None;
        self.running_cancel = None;
        let mut drop_acks: Vec<Sender<()>> = Vec::new();
        std::mem::swap(&mut drop_acks, &mut self.drop_acks);
        let ghost before = self.pending@;
        if let Some(next) = self.pending.pop() {
            proof {
                if one_load_per_app(before) {
                    assert forall|a: AppType| #[trigger] app_loads(self.pending@, a) <= 1 by {
                        assert(before.drop_last() =~= self.pending@);
                        assert(app_loads(before, a) <= 1);
                    }
                }
            }
            self.running_request_id = usage_pricing_req_request_id(&next);
            self.cancel_requested = false;
            return UsagePricingCustomCompletion { next: Some(next), drop_acks };
        }
        self.running = false;
        self.running_request_id = None;
        self.cancel_requested = false;
        UsagePricingCustomCompletion { next: None, drop_acks }
    }

    /// Nothing runs and nothing waits.
    pub fn is_idle(&self) -> (b: bool)
        ensures
            b == (!self.view().running && self.view().pending.len() == 0),
    {
        !self.running && self.pending.len() == 0
    }

    /// Drops the pending requests. When nothing runs, `ack` is answered at
    /// once; else the running load is cancelled and `ack` waits for it to
    /// complete.
    pub fn clear_pending_and_ack_when_idle(&mut self, ack: Sender<()>)
        ensures
            !old(self).view().running ==> final(self).view() == (CustomStateView {
                pending: Seq::empty(),
                ..old(self).view()
            }),
            old(self).view().running ==> final(self).view() == (CustomStateView {
                pending: Seq::empty(),
                cancel_requested: true,
                drop_acks: old(self).view().drop_acks.push(ack),
                ..old(self).view()
            }),
    {
        self.pending.clear();
        if self.is_idle() {
            send_ack(&ack);
        } else {
            self.cancel_running();
            self.drop_acks.push(ack);
        }
    }

    /// Marks the running load cancelled and signals its token and handle.
    pub fn cancel_running(&mut self)
        ensures
            final(self).view() == (CustomStateView { cancel_requested: true, ..old(self).view() }),
    {
        self.cancel_requested = true;
        if let Some(token) = &self.running_cancel {
            raise_cancel(token);
        }
        if let Some(handle) = &self.running_interrupt {
            interrupt_query(handle);
        }
    }

    /// Whether `req` was issued after the running request.
    pub fn req_is_newer_than_running(&self, req: &UsagePricingReq) -> (b: bool)
        ensures
            b == newer_than(*req, self.view().running_request_id),
    {
        match (usage_pricing_req_request_id(req), self.running_request_id) {
            (Some(req_id), Some(running_id)) => req_id > running_id,
            (Some(_), None) => true,
            _ => false,
        }
    }

    /// Whether a pending request was issued after the running one.
    pub fn has_pending_newer_than_running(&self) -> (b: bool)
        ensures
            b == pending_newer(self.view().pending, self.view().running_request_id),
    {
        let running_id = match self.running_request_id {
            None => {
                return self.pending.len() > 0;
            },
            Some(id) => id,
        };
        let mut i: usize = 0;
        while i < self.pending.len()
            invariant
                i <= self.pending@.len(),
                self.running_request_id == Some(running_id),
                forall|j: int| 0 <= j < i ==> !issued_after(#[trigger] self.pending@[j], running_id),
            decreases self.pending@.len() - i,
        {
            if let Some(id) = usage_pricing_req_request_id(&self.pending[i]) {
                if id > running_id {
                    assert(issued_after(self.pending@[i as int], running_id));
                    return true;
                }
            }
            i += 1;
        }
        false
    }
}

impl Default for UsagePricingCustomState {
    /// Nothing runs and nothing waits.
    fn default() -> (s: Self)
        ensures
            !s.view().running,
            s.view().running_request_id is None,
            !s.view().has_interrupt,
            s.view().running_cancel is None,
            !s.view().cancel_requested,
            s.view().pending.len() == 0,
            s.view().drop_acks.len() == 0,
    {
        UsagePricingCustomState {
            running: false,
            running_request_id: None,
            running_interrupt: None,
            running_cancel: None,
            cancel_requested: false,
            pending: Vec::new(),
            drop_acks: Vec::new(),
        }
    }
}

/// The state as `(running, running id, cancel requested, idle, pending ids)`.
pub fn usage_pricing_custom_state_snapshot(state: &UsagePricingCustomState) -> (snap: (
    bool,
    Option<u64>,
    bool,
    bool,
    Vec<u64>,
))
    ensures
        snap.0 == state.view().running,
        snap.1 == state.view().running_request_id,
        snap.2 == state.view().cancel_requested,
        snap.3 == (!state.view().running && state.view().pending.len() == 0),
        snap.4@ == pending_ids(state.view().pending),
{
    let mut ids: Vec<u64> = Vec::new();
    let mut i: usize = 0;
    while i < state.pending.len()
        invariant
            i <= state.pending@.len(),
            ids@ == pending_ids(state.pending@.take(i as int)),
        decreases state.pending@.len() - i,
    {
        proof {
            assert(state.pending@.take(i + 1).drop_last() =~= state.pending@.take(i as int));
        }
        if let Some(id) = usage_pricing_req_request_id(&state.pending[i]) {
            ids.push(id);
        }
        i += 1;
    }
    proof {
        assert(state.pending@.take(i as int) =~= state.pending@);
    }
    (state.running, state.running_request_id, state.cancel_requested, state.is_idle(), ids)
}

/// A request to the session worker.
#[derive(Debug, Clone, PartialEq, Eq)]
pub enum SessionReq {
    Refresh { request_id: u64, provider_id: String },
    LoadMessages { request_id: u64, key: String, provider_id: String, source_path: String },
    Delete {
        request_id: u64,
        key: String,
        provider_id: String,
        session_id: String,
        source_path: String,
    },
}

/// `next` supersedes `current`: both refresh the list, or both load messages.
pub open spec fn supersedes(current: SessionReq, next: SessionReq) -> bool {
    (current is Refresh && next is Refresh) || (current is LoadMessages && next is LoadMessages)
}

/// Serving `req` and then `incoming`: the requests served before the last
/// one, and the last one. A request superseded by the one right after it is
/// skipped.
pub open spec fn session_drain(req: SessionReq, incoming: Seq<SessionReq>) -> (Seq<SessionReq>, SessionReq)
    decreases incoming.len(),
{
    if incoming.len() == 0 {
        (Seq::empty(), req)
    } else {
        let (served, current) = session_drain(req, incoming.drop_last());
        if supersedes(current, incoming.last()) {
            (served, incoming.last())
        } else {
            (served.push(current), incoming.last())
        }
    }
}

pub open spec fn session_drained(req: SessionReq, incoming: Seq<SessionReq>) -> Seq<SessionReq> {
    session_drain(req, incoming).0.push(session_drain(req, incoming).1)
}

/// The requests to serve, in order, for `req` followed by `incoming`: runs
/// of refreshes, and of message loads, collapse to their last request.
pub fn coalesce_session_reqs(req: SessionReq, incoming: Vec<SessionReq>) -> (out: Vec<SessionReq>)
    ensures
        out@ == session_drained(req, incoming@),
{
    let ghost all = incoming@;
    let mut served: Vec<SessionReq> = Vec::new();
    let mut current = req;
    let mut rest = incoming;
    let ghost mut n: int = 0;
    while rest.len() > 0
        invariant
            0 <= n <= all.len(),
            rest@ == all.skip(n),
            (served@, current) == session_drain(req, all.take(n)),
        decreases rest@.len(),
    {
        let next = rest.remove(0);
        proof {
            assert(all.take(n + 1).drop_last() =~= all.take(n));
            assert(all.take(n + 1).last() == next);
        }
        let superseded = match (&current, &next) {
            (SessionReq::Refresh { .. }, SessionReq::Refresh { .. }) => true,
            (SessionReq::LoadMessages { .. }, SessionReq::LoadMessages { .. }) => true,
            _ => false,
        };
        if !superseded {
            served.push(current);
        }
        current = next;
        proof {
            n = n + 1;
            assert(rest@ =~= all.skip(n));
        }
    }
    proof {
        assert(all.take(n) =~= all);
    }
    served.push(current);
    served
}

/// Serves `req` together with the session requests already waiting on `rx`
/// (see `coalesce_session_reqs`). Which requests were waiting depends on
/// the senders; whatever they were, the outcome is their coalescing.
pub fn drain_session_reqs(req: SessionReq, rx: &Receiver<SessionReq>) -> (out: Vec<SessionReq>)
    ensures
        exists|incoming: Vec<SessionReq>|
            took_from_channel(rx, incoming) && out@ == session_drained(req, incoming@),
{
    let incoming = take_waiting(rx);
    let ghost received = incoming;
    let out = coalesce_session_reqs(req, incoming);
    assert(out@ == session_drained(req, received@));
    out
}

proof fn lemma_session_drain_keeps(req: SessionReq, incoming: Seq<SessionReq>, i: int)
    requires
        0 <= i <= incoming.len(),
        (seq![req] + incoming)[i] is Delete,
    ensures
        session_drained(req, incoming).contains((seq![req] + incoming)[i]),
    decreases incoming.len(),
{
    let all = seq![req] + incoming;
    let (served, current) = session_drain(req, incoming);
    if incoming.len() == 0 {
        assert(all[i] == req);
        assert(session_drained(req, incoming)[0] == req);
    } else if i == incoming.len() {
        assert(all[i] == incoming.last());
        assert(current == incoming.last());
        assert(session_drained(req, incoming)[served.len() as int] == current);
    } else {
        let prefix = incoming.drop_last();
        assert((seq![req] + prefix)[i] == all[i]);
        lemma_session_drain_keeps(req, prefix, i);
        let (s0, c0) = session_drain(req, prefix);
        let d0 = session_drained(req, prefix);
        let j = choose|j: int| 0 <= j < d0.len() && d0[j] == all[i];
        if j < s0.len() {
            assert(session_drained(req, incoming)[j] == all[i]);
        } else {
            assert(c0 == all[i]);
            assert(!supersedes(c0, incoming.last()));
            assert(session_drained(req, incoming)[s0.len() as int] == c0);
        }
    }
}

/// No delete request is ever dropped: each one, in `req` or `incoming`,
/// is served.
pub proof fn law_session_drain_keeps_deletes(req: SessionReq, incoming: Seq<SessionReq>)
    ensures
        forall|i: int|
            0 <= i <= incoming.len() && (#[trigger] (seq![req] + incoming)[i]) is Delete
                ==> session_drained(req, incoming).contains((seq![req] + incoming)[i]),
{
    assert forall|i: int|
        0 <= i <= incoming.len() && (#[trigger] (seq![req] + incoming)[i]) is Delete
            implies session_drained(req, incoming).contains((seq![req] + incoming)[i]) by {
        lemma_session_drain_keeps(req, incoming, i);
    }
}

proof fn lemma_session_drain_current(req: SessionReq, incoming: Seq<SessionReq>)
    ensures
        session_drain(req, incoming).1 == (seq![req] + incoming).last(),
{
    if incoming.len() > 0 {
        assert((seq![req] + incoming).last() == incoming.last());
    }
}

proof fn lemma_session_drain_serves(req: SessionReq, incoming: Seq<SessionReq>, i: int)
    requires
        0 <= i < incoming.len(),
        !supersedes((seq![req] + incoming)[i], (seq![req] + incoming)[i + 1]),
    ensures
        session_drain(req, incoming).0.contains((seq![req] + incoming)[i]),
    decreases incoming.len(),
{
    let all = seq![req] + incoming;
    let prefix = incoming.drop_last();
    let pall = seq![req] + prefix;
    let (s0, c0) = session_drain(req, prefix);
    lemma_session_drain_current(req, prefix);
    assert(pall.len() == incoming.len());
    if i < prefix.len() {
        assert(pall[i] == all[i]);
        assert(pall[i + 1] == all[i + 1]);
        lemma_session_drain_serves(req, prefix, i);
        let j = choose|j: int| 0 <= j < s0.len() && s0[j] == all[i];
        let served = session_drain(req, incoming).0;
        assert(served[j] == all[i]);
    } else {
        assert(c0 == pall[i]);
        assert(pall[i] == all[i]);
        assert(all[i + 1] == incoming.last());
        let served = session_drain(req, incoming).0;
        assert(served == s0.push(c0));
        assert(served[s0.len() as int] == all[i]);
    }
}

/// Nothing taken in is lost without a reason: each request, `req` or one
/// taken from the channel, is served unless the request right after it
/// supersedes it (a refresh followed by a refresh, a message load followed
/// by a message load). The newest request is always served last.
pub proof fn law_session_drain_serves_or_supersedes(req: SessionReq, incoming: Seq<SessionReq>)
    ensures
        forall|i: int|
            0 <= i <= incoming.len() ==> (i < incoming.len() && supersedes(
                #[trigger] (seq![req] + incoming)[i],
                (seq![req] + incoming)[i + 1],
            )) || session_drained(req, incoming).contains((seq![req] + incoming)[i]),
        session_drained(req, incoming).last() == (seq![req] + incoming).last(),
{
    let all = seq![req] + incoming;
    let (served, current) = session_drain(req, incoming);
    lemma_session_drain_current(req, incoming);
    let out = session_drained(req, incoming);
    assert forall|i: int|
        0 <= i <= incoming.len() implies (i < incoming.len() && supersedes(
            #[trigger] all[i],
            all[i + 1],
        )) || out.contains(all[i]) by {
        if i == incoming.len() {
            assert(out[served.len() as int] == all[i]);
        } else if !supersedes(all[i], all[i + 1]) {
            lemma_session_drain_serves(req, incoming, i);
            let j = choose|j: int| 0 <= j < served.len() && served[j] == all[i];
            assert(out[j] == all[i]);
        }
    }
}

proof fn lemma_session_drain_from_input(req: SessionReq, incoming: Seq<SessionReq>)
    ensures
        forall|j: int|
            0 <= j < session_drain(req, incoming).0.len() ==> (seq![req] + incoming).contains(
                #[trigger] session_drain(req, incoming).0[j],
            ),
    decreases incoming.len(),
{
    if incoming.len() > 0 {
        let prefix = incoming.drop_last();
        lemma_session_drain_from_input(req, prefix);
        lemma_session_drain_current(req, prefix);
        let all = seq![req] + incoming;
        let pall = seq![req] + prefix;
        let (s0, c0) = session_drain(req, prefix);
        let served = session_drain(req, incoming).0;
        assert forall|j: int| 0 <= j < served.len() implies all.contains(#[trigger] served[j]) by {
            if j < s0.len() {
                assert(served[j] == s0[j]);
                let k = choose|k: int| 0 <= k < pall.len() && pall[k] == s0[j];
                assert(all[k] == pall[k]);
            } else {
                assert(served[j] == c0);
                assert(all[pall.len() - 1] == pall[pall.len() - 1]);
            }
        }
    }
}

/// Draining invents nothing: every request served is `req` or one taken
/// from the channel.
pub proof fn law_session_drain_serves_only_input(req: SessionReq, incoming: Seq<SessionReq>)
    ensures
        forall|j: int|
            0 <= j < session_drained(req, incoming).len() ==> (seq![req] + incoming).contains(
                #[trigger] session_drained(req, incoming)[j],
            ),
{
    lemma_session_drain_from_input(req, incoming);
    lemma_session_drain_current(req, incoming);
    let all = seq![req] + incoming;
    let (served, current) = session_drain(req, incoming);
    let out = session_drained(req, incoming);
    assert forall|j: int| 0 <= j < out.len() implies all.contains(#[trigger] out[j]) by {
        if j < served.len() {
            assert(out[j] == served[j]);
        } else {
            assert(out[j] == current);
            assert(all[all.len() - 1] == current);
        }
    }
}

} // verus!
