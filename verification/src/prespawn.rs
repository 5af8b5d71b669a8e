//! Pre-spawn reconciler.
//!
//! A client may create an entity speculatively (a projectile, say) before
//! the server confirms it. The entity's spawn-time component values are
//! hashed, before any simulation step of that tick mutates them, and the
//! hash serves as a matching key: when the authoritative spawn arrives
//! carrying the same hash, it is merged into the existing local entity
//! instead of spawning a duplicate. Matching is best-effort: hash
//! collisions among unconfirmed local spawns are resolved by pairing in
//! creation order, and speculative spawns that outlive a timeout are
//! treated as rejected and removed.

use crate::errors::SyncError;
use vstd::prelude::*;

verus! {

/// A locally pre-spawned entity awaiting its authoritative counterpart.
#[derive(Debug, Clone, Copy, PartialEq, Eq, Structural)]
pub struct PendingSpawn {
    pub hash: u64,
    pub entity: u64,
    pub spawn_tick: u64,
}

/// Whether some pending spawn carries hash `h`.
pub open spec fn has_hash(s: Seq<PendingSpawn>, h: u64) -> bool {
    exists|i: int| 0 <= i < s.len() && s[i].hash == h
}

/// The index of the first pending spawn carrying hash `h` (creation
/// order), or `-1` when there is none.
pub open spec fn spec_first_match(s: Seq<PendingSpawn>, h: u64) -> int
    decreases s.len(),
{
    if s.len() == 0 {
        -1
    } else if s[0].hash == h {
        0
    } else {
        let rest = spec_first_match(s.skip(1), h);
        if rest < 0 {
            -1
        } else {
            rest + 1
        }
    }
}

/// When nothing before index `i` carries hash `h` and index `i` does, the
/// first match is exactly `i`.
proof fn lemma_first_match_at(s: Seq<PendingSpawn>, h: u64, i: int)
    requires
        0 <= i < s.len(),
        s[i].hash == h,
        forall|j: int| 0 <= j < i ==> #[trigger] s[j].hash != h,
    ensures
        spec_first_match(s, h) == i,
    decreases i,
{
    if i > 0 {
        assert(s.skip(1)[i - 1] == s[i]);
        assert forall|j: int| 0 <= j < i - 1 implies #[trigger] s.skip(1)[j].hash != h by {
            assert(s.skip(1)[j] == s[j + 1]);
        }
        lemma_first_match_at(s.skip(1), h, i - 1);
    }
}

/// The mapping from hash to locally pre-spawned entities, in creation
/// order.
#[derive(Debug, Clone)]
pub struct PreSpawnRegistry {
    pending: Vec<PendingSpawn>,
}

impl View for PreSpawnRegistry {
    type V = Seq<PendingSpawn>;

    closed spec fn view(&self) -> Seq<PendingSpawn> {
        self.pending@
    }
}

impl PreSpawnRegistry {
    pub fn new() -> (r: PreSpawnRegistry)
        ensures
            r@ == Seq::<PendingSpawn>::empty(),
    {
        let r = PreSpawnRegistry { pending: Vec::new() };
        proof {
            assert(r@ =~= Seq::<PendingSpawn>::empty());
        }
        r
    }

    pub fn len(&self) -> (r: usize)
        ensures
            r == self@.len(),
    {
        self.pending.len()
    }

    /// Whether some unconfirmed local spawn carries `hash`.
    pub fn contains_hash(&self, hash: u64) -> (r: bool)
        ensures
            r == has_hash(self@, hash),
    {
        let n = self.pending.len();
        let mut i: usize = 0;
        while i < n
            invariant
                n == self@.len(),
                i <= n,
                forall|j: int| 0 <= j < i ==> #[trigger] self@[j].hash != hash,
            decreases n - i,
        {
            if self.pending[i].hash == hash {
                return true;
            }
            i = i + 1;
        }
        false
    }

    /// Register a speculative local spawn under its pre-spawn hash. A
    /// hash collision among the unconfirmed spawns is reported as
    /// ambiguous — it will be resolved by creation order — but the spawn
    /// is still recorded.
    pub fn register(&mut self, hash: u64, entity: u64, spawn_tick: u64) -> (r: Result<
        (),
        SyncError,
    >)
        ensures
            final(self)@ == old(self)@.push(PendingSpawn { hash, entity, spawn_tick }),
            r is Ok <==> !has_hash(old(self)@, hash),
            r matches Err(e) ==> e == SyncError::AmbiguousPreSpawn,
    {
        let collision = self.contains_hash(hash);
        self.pending.push(PendingSpawn { hash, entity, spawn_tick });
        if collision {
            Err(SyncError::AmbiguousPreSpawn)
        } else {
            Ok(())
        }
    }

    /// Match an incoming authoritative spawn against the pending local
    /// spawns: the first (oldest) pending spawn with the same hash is
    /// taken, removed from the registry, and its entity returned for the
    /// incoming state to be merged into.
    pub fn match_incoming(&mut self, hash: u64) -> (r: Option<u64>)
        ensures
            !has_hash(old(self)@, hash) ==> r is None && final(self)@ == old(self)@,
            has_hash(old(self)@, hash) ==> {
                let i = spec_first_match(old(self)@, hash);
                &&& 0 <= i < old(self)@.len()
                &&& r == Some(old(self)@[i].entity)
                &&& final(self)@ == old(self)@.remove(i)
            },
    {
        let n = self.pending.len();
        let mut i: usize = 0;
        while i < n
            invariant
                n == self@.len(),
                i <= n,
                self@ == old(self)@,
                forall|j: int| 0 <= j < i ==> #[trigger] self@[j].hash != hash,
            decreases n - i,
        {
            if self.pending[i].hash == hash {
                let entity = self.pending[i].entity;
                proof {
                    lemma_first_match_at(self@, hash, i as int);
                }
                self.pending.remove(i);
                return Some(entity);
            }
            i = i + 1;
        }
        None
    }

    /// An incoming authoritative spawn: on a hash match the existing
    /// local entity is reused (merged, not duplicated); otherwise the
    /// caller-allocated `new_entity` is spawned. The flag says whether a
    /// new entity was created.
    pub fn incoming_spawn(&mut self, hash: u64, new_entity: u64) -> (r: (u64, bool))
        ensures
            !has_hash(old(self)@, hash) ==> r == (new_entity, true) && final(self)@ == old(
                self,
            )@,
            has_hash(old(self)@, hash) ==> {
                let i = spec_first_match(old(self)@, hash);
                &&& 0 <= i < old(self)@.len()
                &&& r == (old(self)@[i].entity, false)
                &&& final(self)@ == old(self)@.remove(i)
            },
    {
        match self.match_incoming(hash) {
            Some(entity) => (entity, false),
            None => (new_entity, true),
        }
    }

    /// Drop every speculative spawn whose timeout has passed: such a
    /// spawn is treated as rejected and its entity orphaned.
    pub fn expire(&mut self, now: u64, timeout: u64)
        ensures
            final(self)@ == old(self)@.filter(unexpired_pred(now, timeout)),
    {
        let ghost pred = unexpired_pred(now, timeout);
        let n = self.pending.len();
        let mut kept: Vec<PendingSpawn> = Vec::new();
        let mut i: usize = 0;
        proof {
            reveal_with_fuel(Seq::<PendingSpawn>::filter, 2);
            assert(self@.subrange(0, 0) =~= Seq::<PendingSpawn>::empty());
            assert(kept@ =~= self@.subrange(0, 0).filter(pred));
        }
        while i < n
            invariant
                n == self@.len(),
                i <= n,
                self@ == old(self)@,
                pred == unexpired_pred(now, timeout),
                kept@ == self@.subrange(0, i as int).filter(pred),
            decreases n - i,
        {
            let p = self.pending[i];
            proof {
                reveal_with_fuel(Seq::<PendingSpawn>::filter, 2);
                let prefix = self@.subrange(0, i + 1);
                assert(prefix.drop_last() =~= self@.subrange(0, i as int));
                assert(prefix.last() == self@[i as int]);
            }
            let unexpired = if p.spawn_tick > u64::MAX - timeout {
                true
            } else {
                p.spawn_tick + timeout > now
            };
            if unexpired {
                kept.push(p);
            }
            i = i + 1;
        }
        proof {
            assert(self@.subrange(0, n as int) =~= self@);
        }
        self.pending = kept;
    }
}

/// The predicate a pending spawn must satisfy to survive expiry: its
/// timeout, counted from its spawn tick, has not yet passed.
pub open spec fn unexpired_pred(now: u64, timeout: u64) -> spec_fn(PendingSpawn) -> bool {
    |p: PendingSpawn| p.spawn_tick + timeout > now
}

/// Pre-spawn matching yields exactly one entity: when no unconfirmed
/// local spawn carries hash `h`, a local spawn registered under `h`
/// followed by an incoming authoritative spawn computing the same `h`
/// matches precisely that local entity — the incoming spawn is merged
/// into it, none is created — and the pending set returns to its prior
/// state.
pub proof fn lemma_prespawn_unique_match(s: Seq<PendingSpawn>, h: u64, entity: u64, tick: u64)
    requires
        !has_hash(s, h),
    ensures
        ({
            let grown = s.push(PendingSpawn { hash: h, entity, spawn_tick: tick });
            &&& has_hash(grown, h)
            &&& spec_first_match(grown, h) == s.len()
            &&& grown[spec_first_match(grown, h)].entity == entity
            &&& grown.remove(spec_first_match(grown, h)) == s
        }),
{
    let grown = s.push(PendingSpawn { hash: h, entity, spawn_tick: tick });
    assert(grown[s.len() as int].hash == h);
    assert forall|j: int| 0 <= j < s.len() implies #[trigger] grown[j].hash != h by {
        assert(grown[j] == s[j]);
    }
    lemma_first_match_at(grown, h, s.len() as int);
    assert(grown.remove(s.len() as int) =~= s);
}

} // verus!
