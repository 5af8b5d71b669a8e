//! Replication scheduler.
//!
//! Outgoing state changes are gathered into ordered batches, one per
//! remote peer per producing tick. Despawns and component removals are
//! gathered every step — the underlying removal notifications are only
//! observable for one step — while spawn, component-update and
//! resource-update records are buffered only on send-interval steps.
//! Records are strictly ordered: despawns and removals come first, and no
//! update record ever references an entity removed earlier in the same
//! batch. Component updates are diff-compressed against the last value
//! the peer acknowledged; the first-ever update to a peer carries the
//! full value.

use crate::diff::{spec_apply, spec_diff, ComponentValue, Delta};
use vstd::prelude::*;

verus! {

/// One record of a replication batch.
#[derive(Debug, Clone, Copy, PartialEq, Eq, Structural)]
pub enum ReplicationRecord {
    EntitySpawn { entity: u64 },
    EntityDespawn { entity: u64 },
    ComponentRemove { entity: u64, component: u64 },
    ComponentUpdate { entity: u64, component: u64, payload: Delta },
    ResourceUpdate { resource: u64, payload: Delta },
}

/// Whether `r` removes entity `e` or one of its components.
pub open spec fn spec_removes_entity(r: ReplicationRecord, e: u64) -> bool {
    match r {
        ReplicationRecord::EntityDespawn { entity } => entity == e,
        ReplicationRecord::ComponentRemove { entity, .. } => entity == e,
        _ => false,
    }
}

/// Whether `r` spawns or updates entity `e`.
pub open spec fn spec_updates_entity(r: ReplicationRecord, e: u64) -> bool {
    match r {
        ReplicationRecord::EntitySpawn { entity } => entity == e,
        ReplicationRecord::ComponentUpdate { entity, .. } => entity == e,
        _ => false,
    }
}

/// The batch ordering contract: a despawn or removal record never
/// references an entity that an update record later in the same batch
/// also references.
pub open spec fn spec_batch_ordered(s: Seq<ReplicationRecord>) -> bool {
    forall|i: int, j: int, e: u64|
        #![trigger spec_removes_entity(s[i], e), spec_updates_entity(s[j], e)]
        0 <= i < j < s.len() && spec_removes_entity(s[i], e) ==> !spec_updates_entity(s[j], e)
}

/// A component removal gathered from the simulation.
#[derive(Debug, Clone, Copy, PartialEq, Eq, Structural)]
pub struct ComponentRemoval {
    pub entity: u64,
    pub component: u64,
}

/// A pending component update gathered from the simulation.
#[derive(Debug, Clone, Copy, PartialEq, Eq, Structural)]
pub struct ComponentChange {
    pub entity: u64,
    pub component: u64,
    pub value: ComponentValue,
}

/// A pending resource update gathered from the simulation.
#[derive(Debug, Clone, Copy, PartialEq, Eq, Structural)]
pub struct ResourceChange {
    pub resource: u64,
    pub value: ComponentValue,
}

/// An entity is blocked from receiving updates in a batch that also
/// removes it or one of its components.
pub open spec fn spec_blocked(
    despawns: Seq<u64>,
    removals: Seq<ComponentRemoval>,
    e: u64,
) -> bool {
    despawns.contains(e) || exists|i: int| 0 <= i < removals.len() && removals[i].entity == e
}

/// The key of a per-peer acknowledgment: which peer, entity and
/// component a value was acknowledged for.
#[derive(Debug, Clone, Copy, PartialEq, Eq, Structural)]
pub struct AckKey {
    pub peer: u64,
    pub entity: u64,
    pub component: u64,
}

/// One acknowledged value.
#[derive(Debug, Clone, Copy, PartialEq, Eq, Structural)]
pub struct AckEntry {
    pub key: AckKey,
    pub value: ComponentValue,
}

/// The first value stored under key `k`.
pub open spec fn spec_find_acked(s: Seq<AckEntry>, k: AckKey) -> Option<ComponentValue>
    decreases s.len(),
{
    if s.len() == 0 {
        None
    } else if s[0].key == k {
        Some(s[0].value)
    } else {
        spec_find_acked(s.skip(1), k)
    }
}

/// The payload of a diff-compressed update: a delta against the last
/// acknowledged value, or the full value when the peer never
/// acknowledged one.
pub open spec fn spec_compress(acked: Option<ComponentValue>, value: ComponentValue) -> Delta {
    match acked {
        Some(a) => spec_diff(a, value),
        None => Delta::Full { value },
    }
}

/// A compressed update reconstructs the sent value on the receiving
/// side: applied to the last acknowledged value — or to any base at all
/// for a full payload — the payload yields the sent value exactly.
pub proof fn lemma_compress_roundtrip(
    acked: Option<ComponentValue>,
    value: ComponentValue,
    base: ComponentValue,
)
    requires
        value.valid(),
        acked matches Some(a) ==> a.valid(),
    ensures
        ({
            let d = spec_compress(acked, value);
            match acked {
                Some(a) => spec_apply(a, d) == value,
                None => spec_apply(base, d) == value,
            }
        }),
{
    match acked {
        Some(a) => {
            crate::diff::lemma_diff_roundtrip(a, value);
        },
        None => {},
    }
}

/// The last value each peer acknowledged, per entity and component.
#[derive(Debug, Clone)]
pub struct AckLedger {
    entries: Vec<AckEntry>,
}

impl View for AckLedger {
    type V = Seq<AckEntry>;

    closed spec fn view(&self) -> Seq<AckEntry> {
        self.entries@
    }
}

/// Looking a key up after storing under another key is unchanged; under
/// the stored key, the first match wins.
proof fn lemma_find_push(s: Seq<AckEntry>, e: AckEntry, k: AckKey)
    ensures
        spec_find_acked(s.push(e), k) == if spec_find_acked(s, k) is Some {
            spec_find_acked(s, k)
        } else if e.key == k {
            Some(e.value)
        } else {
            None
        },
    decreases s.len(),
{
    if s.len() == 0 {
        assert(s.push(e).skip(1) =~= s);
    } else {
        assert(s.push(e).skip(1) =~= s.skip(1).push(e));
        lemma_find_push(s.skip(1), e, k);
    }
}

/// Overwriting the entry at the first index holding `e.key` updates what
/// is found under that key and nothing else.
proof fn lemma_find_update(s: Seq<AckEntry>, i: int, e: AckEntry, k: AckKey)
    requires
        0 <= i < s.len(),
        s[i].key == e.key,
        forall|j: int| 0 <= j < i ==> (#[trigger] s[j]).key != e.key,
    ensures
        spec_find_acked(s.update(i, e), e.key) == Some(e.value),
        k != e.key ==> spec_find_acked(s.update(i, e), k) == spec_find_acked(s, k),
    decreases i,
{
    if i == 0 {
        assert(s.update(0, e)[0] == e);
        if k != e.key {
            assert(s.update(0, e).skip(1) =~= s.skip(1));
        }
    } else {
        assert(s.update(i, e)[0] == s[0]);
        assert(s.update(i, e).skip(1) =~= s.skip(1).update(i - 1, e));
        assert forall|j: int| 0 <= j < i - 1 implies (#[trigger] s.skip(1)[j]).key != e.key by {
            assert(s.skip(1)[j] == s[j + 1]);
        }
        assert(s.skip(1)[i - 1] == s[i]);
        lemma_find_update(s.skip(1), i - 1, e, k);
    }
}

impl AckLedger {
    pub fn new() -> (r: AckLedger)
        ensures
            r@ == Seq::<AckEntry>::empty(),
    {
        let r = AckLedger { entries: Vec::new() };
        proof {
            assert(r@ =~= Seq::<AckEntry>::empty());
        }
        r
    }

    /// The last value `k.peer` acknowledged for `k.entity`'s
    /// `k.component`, if any.
    pub fn last_acked(&self, k: AckKey) -> (r: Option<ComponentValue>)
        ensures
            r == spec_find_acked(self@, k),
    {
        let n = self.entries.len();
        let mut i: usize = 0;
        proof {
            assert(self@.skip(0) =~= self@);
        }
        while i < n
            invariant
                n == self@.len(),
                i <= n,
                spec_find_acked(self@, k) == spec_find_acked(self@.skip(i as int), k),
            decreases n - i,
        {
            proof {
                assert(self@.skip(i as int)[0] == self@[i as int]);
                assert(self@.skip(i as int).skip(1) =~= self@.skip(i + 1));
            }
            if self.entries[i].key.peer == k.peer && self.entries[i].key.entity == k.entity
                && self.entries[i].key.component == k.component {
                proof {
                    assert(self@[i as int].key == k);
                }
                return Some(self.entries[i].value);
            }
            i = i + 1;
        }
        proof {
            assert(self@.skip(n as int) =~= Seq::<AckEntry>::empty());
        }
        None
    }

    /// Record that `k.peer` acknowledged `value`: later updates for the
    /// same key are diff-compressed against it. Other keys are
    /// unaffected.
    pub fn acknowledge(&mut self, k: AckKey, value: ComponentValue)
        ensures
            spec_find_acked(final(self)@, k) == Some(value),
            forall|k2: AckKey|
                k2 != k ==> #[trigger] spec_find_acked(final(self)@, k2) == spec_find_acked(
                    old(self)@,
                    k2,
                ),
    {
        let n = self.entries.len();
        let mut i: usize = 0;
        while i < n
            invariant
                n == self@.len(),
                i <= n,
                self@ == old(self)@,
                forall|j: int| 0 <= j < i ==> (#[trigger] self@[j]).key != k,
            decreases n - i,
        {
            if self.entries[i].key.peer == k.peer && self.entries[i].key.entity == k.entity
                && self.entries[i].key.component == k.component {
                let e = AckEntry { key: k, value };
                proof {
                    assert(self@[i as int].key == k);
                    assert forall|k2: AckKey| k2 != k implies #[trigger] spec_find_acked(
                        self@.update(i as int, e),
                        k2,
                    ) == spec_find_acked(self@, k2) by {
                        lemma_find_update(self@, i as int, e, k2);
                    }
                    lemma_find_update(self@, i as int, e, k);
                }
                self.entries.set(i, e);
                return ;
            }
            i = i + 1;
        }
        let e = AckEntry { key: k, value };
        proof {
            lemma_lookup_none_when_no_key(self@, k);
            assert forall|k2: AckKey| k2 != k implies #[trigger] spec_find_acked(
                self@.push(e),
                k2,
            ) == spec_find_acked(self@, k2) by {
                lemma_find_push(self@, e, k2);
            }
            lemma_find_push(self@, e, k);
        }
        self.entries.push(e);
    }

    /// The diff-compressed payload for sending `value` under key `k`.
    pub fn compress_update(&self, k: AckKey, value: ComponentValue) -> (r: Delta)
        requires
            value.valid(),
            forall|i: int| 0 <= i < self@.len() ==> (#[trigger] self@[i]).value.valid(),
        ensures
            r == spec_compress(spec_find_acked(self@, k), value),
    {
        match self.last_acked(k) {
            Some(a) => {
                proof {
                    lemma_find_result_is_element(self@, k);
                    let i = choose|i: int| 0 <= i < self@.len() && self@[i].value == a;
                    assert(self@[i].value.valid());
                }
                a.diff(&value)
            },
            None => Delta::Full { value },
        }
    }
}

/// When no entry carries key `k`, nothing is found under it.
proof fn lemma_lookup_none_when_no_key(s: Seq<AckEntry>, k: AckKey)
    requires
        forall|j: int| 0 <= j < s.len() ==> (#[trigger] s[j]).key != k,
    ensures
        spec_find_acked(s, k) is None,
    decreases s.len(),
{
    if s.len() > 0 {
        assert forall|j: int| 0 <= j < s.skip(1).len() implies (#[trigger] s.skip(1)[j]).key
            != k by {
            assert(s.skip(1)[j] == s[j + 1]);
        }
        lemma_lookup_none_when_no_key(s.skip(1), k);
    }
}

/// What the ledger finds is one of its stored values.
proof fn lemma_find_result_is_element(s: Seq<AckEntry>, k: AckKey)
    ensures
        spec_find_acked(s, k) matches Some(v) ==> exists|i: int|
            0 <= i < s.len() && s[i].value == v,
    decreases s.len(),
{
    if s.len() > 0 && s[0].key != k {
        lemma_find_result_is_element(s.skip(1), k);
        match spec_find_acked(s, k) {
            Some(v) => {
                let i = choose|i: int| 0 <= i < s.skip(1).len() && s.skip(1)[i].value == v;
                assert(s[i + 1].value == v);
            },
            None => {},
        }
    }
}

/// Whether a tick falls on the send cadence: updates are buffered only
/// once per `send_interval` ticks.
pub fn is_send_step(tick: u64, send_interval: u64) -> (r: bool)
    requires
        send_interval >= 1,
    ensures
        r == (tick % send_interval == 0),
{
    tick % send_interval == 0
}

/// An ordered set of records destined for one remote peer, tagged with
/// the producing tick.
#[derive(Debug, Clone)]
pub struct ReplicationBatch {
    pub tick: u64,
    pub records: Vec<ReplicationRecord>,
}

/// The despawn records of a batch, in gathering order.
pub open spec fn spec_despawn_records(d: Seq<u64>) -> Seq<ReplicationRecord>
    decreases d.len(),
{
    if d.len() == 0 {
        Seq::empty()
    } else {
        spec_despawn_records(d.drop_last()).push(
            ReplicationRecord::EntityDespawn { entity: d.last() },
        )
    }
}

/// The component-removal records of a batch, in gathering order.
pub open spec fn spec_removal_records(rm: Seq<ComponentRemoval>) -> Seq<ReplicationRecord>
    decreases rm.len(),
{
    if rm.len() == 0 {
        Seq::empty()
    } else {
        spec_removal_records(rm.drop_last()).push(
            ReplicationRecord::ComponentRemove {
                entity: rm.last().entity,
                component: rm.last().component,
            },
        )
    }
}

/// The spawn records of a batch: one per gathered spawn whose entity the
/// same batch does not also remove.
pub open spec fn spec_spawn_records(
    sp: Seq<u64>,
    despawns: Seq<u64>,
    removals: Seq<ComponentRemoval>,
) -> Seq<ReplicationRecord>
    decreases sp.len(),
{
    if sp.len() == 0 {
        Seq::empty()
    } else {
        let rest = spec_spawn_records(sp.drop_last(), despawns, removals);
        if spec_blocked(despawns, removals, sp.last()) {
            rest
        } else {
            rest.push(ReplicationRecord::EntitySpawn { entity: sp.last() })
        }
    }
}

/// The component-update records of a batch: one per gathered change
/// whose entity the same batch does not also remove, diff-compressed
/// against the last value the peer acknowledged.
pub open spec fn spec_update_records(
    us: Seq<ComponentChange>,
    despawns: Seq<u64>,
    removals: Seq<ComponentRemoval>,
    ledger: Seq<AckEntry>,
    peer: u64,
) -> Seq<ReplicationRecord>
    decreases us.len(),
{
    if us.len() == 0 {
        Seq::empty()
    } else {
        let rest = spec_update_records(us.drop_last(), despawns, removals, ledger, peer);
        let c = us.last();
        if spec_blocked(despawns, removals, c.entity) {
            rest
        } else {
            rest.push(
                ReplicationRecord::ComponentUpdate {
                    entity: c.entity,
                    component: c.component,
                    payload: spec_compress(
                        spec_find_acked(
                            ledger,
                            AckKey { peer, entity: c.entity, component: c.component },
                        ),
                        c.value,
                    ),
                },
            )
        }
    }
}

/// The resource-update records of a batch, carrying full values.
pub open spec fn spec_resource_records(rs: Seq<ResourceChange>) -> Seq<ReplicationRecord>
    decreases rs.len(),
{
    if rs.len() == 0 {
        Seq::empty()
    } else {
        spec_resource_records(rs.drop_last()).push(
            ReplicationRecord::ResourceUpdate {
                resource: rs.last().resource,
                payload: Delta::Full { value: rs.last().value },
            },
        )
    }
}

/// The full record sequence of one batch: despawns, then removals (every
/// step), then — on send-interval steps only — spawns, component
/// updates and resource updates.
pub open spec fn spec_batch_records(
    despawns: Seq<u64>,
    removals: Seq<ComponentRemoval>,
    spawns: Seq<u64>,
    updates: Seq<ComponentChange>,
    resources: Seq<ResourceChange>,
    ledger: Seq<AckEntry>,
    peer: u64,
    send: bool,
) -> Seq<ReplicationRecord> {
    spec_despawn_records(despawns) + spec_removal_records(removals) + if send {
        spec_spawn_records(spawns, despawns, removals) + spec_update_records(
            updates,
            despawns,
            removals,
            ledger,
            peer,
        ) + spec_resource_records(resources)
    } else {
        Seq::empty()
    }
}

proof fn lemma_despawn_records_shape(d: Seq<u64>)
    ensures
        spec_despawn_records(d).len() == d.len(),
        forall|i: int|
            0 <= i < d.len() ==> #[trigger] spec_despawn_records(d)[i]
                == (ReplicationRecord::EntityDespawn { entity: d[i] }),
    decreases d.len(),
{
    if d.len() > 0 {
        lemma_despawn_records_shape(d.drop_last());
    }
}

proof fn lemma_removal_records_shape(rm: Seq<ComponentRemoval>)
    ensures
        spec_removal_records(rm).len() == rm.len(),
        forall|i: int|
            0 <= i < rm.len() ==> #[trigger] spec_removal_records(rm)[i]
                == (ReplicationRecord::ComponentRemove {
                entity: rm[i].entity,
                component: rm[i].component,
            }),
    decreases rm.len(),
{
    if rm.len() > 0 {
        lemma_removal_records_shape(rm.drop_last());
    }
}

proof fn lemma_spawn_records_unblocked(
    sp: Seq<u64>,
    despawns: Seq<u64>,
    removals: Seq<ComponentRemoval>,
)
    ensures
        forall|i: int|
            0 <= i < spec_spawn_records(sp, despawns, removals).len() ==> {
                let rec = #[trigger] spec_spawn_records(sp, despawns, removals)[i];
                rec matches ReplicationRecord::EntitySpawn { entity } && !spec_blocked(
                    despawns,
                    removals,
                    entity,
                )
            },
    decreases sp.len(),
{
    if sp.len() > 0 {
        lemma_spawn_records_unblocked(sp.drop_last(), despawns, removals);
    }
}

proof fn lemma_update_records_unblocked(
    us: Seq<ComponentChange>,
    despawns: Seq<u64>,
    removals: Seq<ComponentRemoval>,
    ledger: Seq<AckEntry>,
    peer: u64,
)
    ensures
        forall|i: int|
            0 <= i < spec_update_records(us, despawns, removals, ledger, peer).len() ==> {
                let rec = #[trigger] spec_update_records(us, despawns, removals, ledger, peer)[i];
                rec matches ReplicationRecord::ComponentUpdate { entity, .. } && !spec_blocked(
                    despawns,
                    removals,
                    entity,
                )
            },
    decreases us.len(),
{
    if us.len() > 0 {
        lemma_update_records_unblocked(us.drop_last(), despawns, removals, ledger, peer);
    }
}

proof fn lemma_resource_records_shape(rs: Seq<ResourceChange>)
    ensures
        forall|i: int|
            0 <= i < spec_resource_records(rs).len() ==> (#[trigger] spec_resource_records(
                rs,
            )[i]) is ResourceUpdate,
    decreases rs.len(),
{
    if rs.len() > 0 {
        lemma_resource_records_shape(rs.drop_last());
    }
}

/// Replication ordering: in a batch built by `build_batch`, a despawn or
/// component-removal record never references an entity that an update or
/// spawn record later in the same batch references.
pub proof fn lemma_batch_ordered(
    despawns: Seq<u64>,
    removals: Seq<ComponentRemoval>,
    spawns: Seq<u64>,
    updates: Seq<ComponentChange>,
    resources: Seq<ResourceChange>,
    ledger: Seq<AckEntry>,
    peer: u64,
    send: bool,
)
    ensures
        spec_batch_ordered(
            spec_batch_records(
                despawns,
                removals,
                spawns,
                updates,
                resources,
                ledger,
                peer,
                send,
            ),
        ),
{
    let s = spec_batch_records(despawns, removals, spawns, updates, resources, ledger, peer, send);
    let d = spec_despawn_records(despawns);
    let rm = spec_removal_records(removals);
    let sp = spec_spawn_records(spawns, despawns, removals);
    let us = spec_update_records(updates, despawns, removals, ledger, peer);
    let rs = spec_resource_records(resources);
    lemma_despawn_records_shape(despawns);
    lemma_removal_records_shape(removals);
    lemma_spawn_records_unblocked(spawns, despawns, removals);
    lemma_update_records_unblocked(updates, despawns, removals, ledger, peer);
    lemma_resource_records_shape(resources);
    assert forall|i: int, e: u64|
        0 <= i < s.len() && spec_removes_entity(s[i], e) implies spec_blocked(
        despawns,
        removals,
        e,
    ) by {
        if i < d.len() {
            assert(s[i] == d[i]);
            assert(despawns.contains(e)) by {
                assert(despawns[i] == e);
            }
        } else if i < d.len() + rm.len() {
            assert(s[i] == rm[i - d.len()]);
            assert(removals[i - d.len()].entity == e);
        } else if send {
            let k = i - d.len() - rm.len();
            if k < sp.len() {
                assert(s[i] == (sp + us + rs)[k]);
                assert(s[i] == sp[k]);
            } else if k < sp.len() + us.len() {
                assert(s[i] == (sp + us + rs)[k]);
                assert(s[i] == us[k - sp.len()]);
            } else {
                assert(s[i] == (sp + us + rs)[k]);
                assert(s[i] == rs[k - sp.len() - us.len()]);
            }
        }
    }
    assert forall|j: int, e: u64|
        0 <= j < s.len() && spec_updates_entity(s[j], e) implies !spec_blocked(
        despawns,
        removals,
        e,
    ) by {
        if j < d.len() {
            assert(s[j] == d[j]);
        } else if j < d.len() + rm.len() {
            assert(s[j] == rm[j - d.len()]);
        } else if send {
            let k = j - d.len() - rm.len();
            if k < sp.len() {
                assert(s[j] == (sp + us + rs)[k]);
                assert(s[j] == sp[k]);
            } else if k < sp.len() + us.len() {
                assert(s[j] == (sp + us + rs)[k]);
                assert(s[j] == us[k - sp.len()]);
            } else {
                assert(s[j] == (sp + us + rs)[k]);
                assert(s[j] == rs[k - sp.len() - us.len()]);
            }
        }
    }
}

/// Whether the batch under construction must suppress records for `e`
/// because the same batch removes it.
fn is_blocked(despawns: &Vec<u64>, removals: &Vec<ComponentRemoval>, e: u64) -> (r: bool)
    ensures
        r == spec_blocked(despawns@, removals@, e),
{
    let n = despawns.len();
    let mut i: usize = 0;
    while i < n
        invariant
            n == despawns@.len(),
            i <= n,
            forall|j: int| 0 <= j < i ==> despawns@[j] != e,
        decreases n - i,
    {
        if despawns[i] == e {
            proof {
                assert(despawns@.contains(e)) by {
                    assert(despawns@[i as int] == e);
                }
            }
            return true;
        }
        i = i + 1;
    }
    let m = removals.len();
    let mut j: usize = 0;
    while j < m
        invariant
            m == removals@.len(),
            j <= m,
            forall|k: int| 0 <= k < j ==> (#[trigger] removals@[k]).entity != e,
        decreases m - j,
    {
        if removals[j].entity == e {
            return true;
        }
        j = j + 1;
    }
    false
}

/// Assemble the ordered batch for one peer at one tick. Despawns and
/// removals are always gathered; spawn, component-update and
/// resource-update records only when `send_step` holds. Component
/// updates are diff-compressed against the peer's last acknowledged
/// values, and no record updates an entity that the batch also removes.
pub fn build_batch(
    tick: u64,
    send_step: bool,
    despawns: &Vec<u64>,
    removals: &Vec<ComponentRemoval>,
    spawns: &Vec<u64>,
    updates: &Vec<ComponentChange>,
    resources: &Vec<ResourceChange>,
    ledger: &AckLedger,
    peer: u64,
) -> (r: ReplicationBatch)
    requires
        forall|i: int| 0 <= i < updates@.len() ==> (#[trigger] updates@[i]).value.valid(),
        forall|i: int| 0 <= i < ledger@.len() ==> (#[trigger] ledger@[i]).value.valid(),
    ensures
        r.tick == tick,
        r.records@ == spec_batch_records(
            despawns@,
            removals@,
            spawns@,
            updates@,
            resources@,
            ledger@,
            peer,
            send_step,
        ),
        spec_batch_ordered(r.records@),
{
    let ghost gd = despawns@;
    let ghost grm = removals@;
    let mut records: Vec<ReplicationRecord> = Vec::new();
    let n1 = despawns.len();
    let mut i: usize = 0;
    proof {
        assert(gd.subrange(0, 0) =~= Seq::<u64>::empty());
        assert(records@ =~= spec_despawn_records(gd.subrange(0, 0)));
    }
    while i < n1
        invariant
            n1 == gd.len(),
            gd == despawns@,
            i <= n1,
            records@ == spec_despawn_records(gd.subrange(0, i as int)),
        decreases n1 - i,
    {
        proof {
            assert(gd.subrange(0, i + 1).drop_last() =~= gd.subrange(0, i as int));
            assert(gd.subrange(0, i + 1).last() == gd[i as int]);
        }
        records.push(ReplicationRecord::EntityDespawn { entity: despawns[i] });
        i = i + 1;
    }
    proof {
        assert(gd.subrange(0, n1 as int) =~= gd);
    }
    let ghost seg1 = spec_despawn_records(gd);
    let n2 = removals.len();
    let mut i2: usize = 0;
    proof {
        assert(grm.subrange(0, 0) =~= Seq::<ComponentRemoval>::empty());
        assert(records@ =~= seg1 + spec_removal_records(grm.subrange(0, 0)));
    }
    while i2 < n2
        invariant
            n2 == grm.len(),
            grm == removals@,
            gd == despawns@,
            i2 <= n2,
            seg1 == spec_despawn_records(gd),
            records@ == seg1 + spec_removal_records(grm.subrange(0, i2 as int)),
        decreases n2 - i2,
    {
        proof {
            assert(grm.subrange(0, i2 + 1).drop_last() =~= grm.subrange(0, i2 as int));
            assert(grm.subrange(0, i2 + 1).last() == grm[i2 as int]);
            let e = ReplicationRecord::ComponentRemove {
                entity: grm[i2 as int].entity,
                component: grm[i2 as int].component,
            };
            assert(seg1 + spec_removal_records(grm.subrange(0, i2 + 1)) =~= (seg1
                + spec_removal_records(grm.subrange(0, i2 as int))).push(e));
        }
        records.push(
            ReplicationRecord::ComponentRemove {
                entity: removals[i2].entity,
                component: removals[i2].component,
            },
        );
        i2 = i2 + 1;
    }
    proof {
        assert(grm.subrange(0, n2 as int) =~= grm);
    }
    let ghost seg2 = seg1 + spec_removal_records(grm);
    if !send_step {
        proof {
            assert(records@ =~= spec_batch_records(
                despawns@,
                removals@,
                spawns@,
                updates@,
                resources@,
                ledger@,
                peer,
                false,
            ));
            lemma_batch_ordered(
                despawns@,
                removals@,
                spawns@,
                updates@,
                resources@,
                ledger@,
                peer,
                false,
            );
        }
        return ReplicationBatch { tick, records };
    }
    let ghost gsp = spawns@;
    let n3 = spawns.len();
    let mut i3: usize = 0;
    proof {
        assert(gsp.subrange(0, 0) =~= Seq::<u64>::empty());
        assert(records@ =~= seg2 + spec_spawn_records(gsp.subrange(0, 0), gd, grm));
    }
    while i3 < n3
        invariant
            n3 == gsp.len(),
            gsp == spawns@,
            gd == despawns@,
            grm == removals@,
            i3 <= n3,
            seg2 == spec_despawn_records(gd) + spec_removal_records(grm),
            records@ == seg2 + spec_spawn_records(gsp.subrange(0, i3 as int), gd, grm),
        decreases n3 - i3,
    {
        let e = spawns[i3];
        let blocked = is_blocked(despawns, removals, e);
        proof {
            assert(gsp.subrange(0, i3 + 1).drop_last() =~= gsp.subrange(0, i3 as int));
            assert(gsp.subrange(0, i3 + 1).last() == gsp[i3 as int]);
            if !spec_blocked(gd, grm, e) {
                let rec = ReplicationRecord::EntitySpawn { entity: e };
                assert(seg2 + spec_spawn_records(gsp.subrange(0, i3 + 1), gd, grm) =~= (seg2
                    + spec_spawn_records(gsp.subrange(0, i3 as int), gd, grm)).push(rec));
            }
        }
        if !blocked {
            records.push(ReplicationRecord::EntitySpawn { entity: e });
        }
        i3 = i3 + 1;
    }
    proof {
        assert(gsp.subrange(0, n3 as int) =~= gsp);
    }
    let ghost seg3 = seg2 + spec_spawn_records(gsp, gd, grm);
    let ghost gus = updates@;
    let ghost gled = ledger@;
    let n4 = updates.len();
    let mut i4: usize = 0;
    proof {
        assert(gus.subrange(0, 0) =~= Seq::<ComponentChange>::empty());
        assert(records@ =~= seg3 + spec_update_records(gus.subrange(0, 0), gd, grm, gled, peer));
    }
    while i4 < n4
        invariant
            n4 == gus.len(),
            gus == updates@,
            gd == despawns@,
            grm == removals@,
            gled == ledger@,
            i4 <= n4,
            seg3 == spec_despawn_records(gd) + spec_removal_records(grm) + spec_spawn_records(
                gsp,
                gd,
                grm,
            ),
            gsp == spawns@,
            forall|x: int| 0 <= x < gus.len() ==> (#[trigger] gus[x]).value.valid(),
            forall|x: int| 0 <= x < gled.len() ==> (#[trigger] gled[x]).value.valid(),
            records@ == seg3 + spec_update_records(gus.subrange(0, i4 as int), gd, grm, gled, peer),
        decreases n4 - i4,
    {
        let c = updates[i4];
        let blocked = is_blocked(despawns, removals, c.entity);
        proof {
            assert(gus[i4 as int].value.valid());
            assert(gus.subrange(0, i4 + 1).drop_last() =~= gus.subrange(0, i4 as int));
            assert(gus.subrange(0, i4 + 1).last() == gus[i4 as int]);
        }
        if !blocked {
            let key = AckKey { peer, entity: c.entity, component: c.component };
            let payload = ledger.compress_update(key, c.value);
            proof {
                let rec = ReplicationRecord::ComponentUpdate {
                    entity: c.entity,
                    component: c.component,
                    payload: spec_compress(spec_find_acked(gled, key), c.value),
                };
                assert(seg3 + spec_update_records(gus.subrange(0, i4 + 1), gd, grm, gled, peer)
                    =~= (seg3 + spec_update_records(
                    gus.subrange(0, i4 as int),
                    gd,
                    grm,
                    gled,
                    peer,
                )).push(rec));
            }
            records.push(
                ReplicationRecord::ComponentUpdate {
                    entity: c.entity,
                    component: c.component,
                    payload,
                },
            );
        }
        i4 = i4 + 1;
    }
    proof {
        assert(gus.subrange(0, n4 as int) =~= gus);
    }
    let ghost seg4 = seg3 + spec_update_records(gus, gd, grm, gled, peer);
    let ghost grs = resources@;
    let n5 = resources.len();
    let mut i5: usize = 0;
    proof {
        assert(grs.subrange(0, 0) =~= Seq::<ResourceChange>::empty());
        assert(records@ =~= seg4 + spec_resource_records(grs.subrange(0, 0)));
    }
    while i5 < n5
        invariant
            n5 == grs.len(),
            grs == resources@,
            i5 <= n5,
            seg4 == spec_despawn_records(gd) + spec_removal_records(grm) + spec_spawn_records(
                gsp,
                gd,
                grm,
            ) + spec_update_records(gus, gd, grm, gled, peer),
            gd == despawns@,
            grm == removals@,
            gsp == spawns@,
            gus == updates@,
            gled == ledger@,
            records@ == seg4 + spec_resource_records(grs.subrange(0, i5 as int)),
        decreases n5 - i5,
    {
        proof {
            assert(grs.subrange(0, i5 + 1).drop_last() =~= grs.subrange(0, i5 as int));
            assert(grs.subrange(0, i5 + 1).last() == grs[i5 as int]);
            let rec = ReplicationRecord::ResourceUpdate {
                resource: grs[i5 as int].resource,
                payload: Delta::Full { value: grs[i5 as int].value },
            };
            assert(seg4 + spec_resource_records(grs.subrange(0, i5 + 1)) =~= (seg4
                + spec_resource_records(grs.subrange(0, i5 as int))).push(rec));
        }
        records.push(
            ReplicationRecord::ResourceUpdate {
                resource: resources[i5].resource,
                payload: Delta::Full { value: resources[i5].value },
            },
        );
        i5 = i5 + 1;
    }
    proof {
        assert(grs.subrange(0, n5 as int) =~= grs);
        assert(records@ =~= spec_batch_records(
            despawns@,
            removals@,
            spawns@,
            updates@,
            resources@,
            ledger@,
            peer,
            true,
        ));
        lemma_batch_ordered(
            despawns@,
            removals@,
            spawns@,
            updates@,
            resources@,
            ledger@,
            peer,
            true,
        );
    }
    ReplicationBatch { tick, records }
}

} // verus!
