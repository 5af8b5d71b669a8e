//! Bounded, tick-ordered snapshot buffer.
//!
//! A history buffer keeps `(tick, value)` snapshots for one component of one
//! entity, ordered by strictly increasing tick. It is bounded: pushing onto
//! a full buffer evicts the oldest snapshot. Ticks must arrive in increasing
//! order per buffer; a push at or before the newest stored tick is rejected.

use crate::errors::SyncError;
use vstd::prelude::*;

verus! {

/// One snapshot: the value a component had at a tick.
#[derive(Debug, Clone, Copy, PartialEq, Eq)]
pub struct HistoryEntry<V> {
    pub tick: u64,
    pub value: V,
}

/// Ticks in `s` are strictly increasing: no duplicates, oldest first.
pub open spec fn ticks_sorted<V>(s: Seq<HistoryEntry<V>>) -> bool {
    forall|i: int, j: int|
        #![trigger s[i].tick, s[j].tick]
        0 <= i < j < s.len() ==> s[i].tick < s[j].tick
}

/// The value stored at exactly `tick`, scanning from the newest entry.
pub open spec fn spec_lookup<V>(s: Seq<HistoryEntry<V>>, tick: u64) -> Option<V>
    decreases s.len(),
{
    if s.len() == 0 {
        None
    } else if s.last().tick == tick {
        Some(s.last().value)
    } else {
        spec_lookup(s.drop_last(), tick)
    }
}

/// Whether some entry in `s` carries exactly `tick`.
pub open spec fn has_tick<V>(s: Seq<HistoryEntry<V>>, tick: u64) -> bool {
    exists|i: int| 0 <= i < s.len() && s[i].tick == tick
}

/// The newest `cap` entries of `s` (all of them when `s` is short enough):
/// what remains of `s` in a buffer of capacity `cap` after eviction.
pub open spec fn keep_newest<V>(s: Seq<HistoryEntry<V>>, cap: int) -> Seq<HistoryEntry<V>> {
    if s.len() <= cap {
        s
    } else {
        s.subrange(s.len() - cap, s.len() as int)
    }
}

/// `s` without its trailing entries whose tick is strictly greater than
/// `tick`.
pub open spec fn spec_truncate_after<V>(s: Seq<HistoryEntry<V>>, tick: u64) -> Seq<HistoryEntry<V>>
    decreases s.len(),
{
    if s.len() == 0 {
        s
    } else if s.last().tick > tick {
        spec_truncate_after(s.drop_last(), tick)
    } else {
        s
    }
}

/// `s` without its trailing entries whose tick is at least `tick`.
pub open spec fn spec_drop_from<V>(s: Seq<HistoryEntry<V>>, tick: u64) -> Seq<HistoryEntry<V>>
    decreases s.len(),
{
    if s.len() == 0 {
        s
    } else if s.last().tick >= tick {
        spec_drop_from(s.drop_last(), tick)
    } else {
        s
    }
}

/// The last entry of `s` whose tick is at most `tick`: under `ticks_sorted`
/// this is the entry with the greatest such tick.
pub open spec fn spec_floor_entry<V>(s: Seq<HistoryEntry<V>>, tick: u64) -> Option<
    HistoryEntry<V>,
>
    decreases s.len(),
{
    if s.len() == 0 {
        None
    } else if s.last().tick <= tick {
        Some(s.last())
    } else {
        spec_floor_entry(s.drop_last(), tick)
    }
}

/// The first entry of `s` whose tick is at least `tick`: under
/// `ticks_sorted` this is the entry with the smallest such tick.
pub open spec fn spec_ceil_entry<V>(s: Seq<HistoryEntry<V>>, tick: u64) -> Option<HistoryEntry<V>>
    decreases s.len(),
{
    if s.len() == 0 {
        None
    } else if s[0].tick >= tick {
        Some(s[0])
    } else {
        spec_ceil_entry(s.skip(1), tick)
    }
}

/// Bounded per-entity, per-component ring of `(tick, value)` snapshots.
#[derive(Debug, Clone)]
pub struct HistoryBuffer<V> {
    entries: Vec<HistoryEntry<V>>,
    capacity: usize,
}

impl<V> View for HistoryBuffer<V> {
    type V = Seq<HistoryEntry<V>>;

    closed spec fn view(&self) -> Seq<HistoryEntry<V>> {
        self.entries@
    }
}

impl<V: Copy> HistoryBuffer<V> {
    /// Well-formedness: ticks strictly increase and the buffer never holds
    /// more than its capacity.
    pub open spec fn wf(self) -> bool {
        &&& ticks_sorted(self@)
        &&& self@.len() <= self.spec_capacity()
        &&& self.spec_capacity() >= 1
    }

    pub closed spec fn spec_capacity(self) -> usize {
        self.capacity
    }

    pub fn new(capacity: usize) -> (r: HistoryBuffer<V>)
        requires
            capacity >= 1,
        ensures
            r.wf(),
            r@ == Seq::<HistoryEntry<V>>::empty(),
            r.spec_capacity() == capacity,
    {
        let r = HistoryBuffer { entries: Vec::new(), capacity };
        proof {
            assert(r@ =~= Seq::<HistoryEntry<V>>::empty());
        }
        r
    }

    pub fn len(&self) -> (r: usize)
        ensures
            r == self@.len(),
    {
        self.entries.len()
    }

    pub fn capacity(&self) -> (r: usize)
        ensures
            r == self.spec_capacity(),
    {
        self.capacity
    }

    /// The tick of the newest stored snapshot.
    pub fn newest_tick(&self) -> (r: Option<u64>)
        ensures
            self@.len() == 0 ==> r is None,
            self@.len() > 0 ==> r == Some(self@.last().tick),
    {
        if self.entries.len() == 0 {
            None
        } else {
            Some(self.entries[self.entries.len() - 1].tick)
        }
    }

    /// The newest stored snapshot.
    pub fn newest(&self) -> (r: Option<HistoryEntry<V>>)
        ensures
            self@.len() == 0 ==> r is None,
            self@.len() > 0 ==> r == Some(self@.last()),
    {
        if self.entries.len() == 0 {
            None
        } else {
            Some(self.entries[self.entries.len() - 1])
        }
    }

    /// The tick of the oldest retained snapshot.
    pub fn oldest_tick(&self) -> (r: Option<u64>)
        ensures
            self@.len() == 0 ==> r is None,
            self@.len() > 0 ==> r == Some(self@[0].tick),
    {
        if self.entries.len() == 0 {
            None
        } else {
            Some(self.entries[0].tick)
        }
    }

    /// Append a snapshot, evicting the oldest entry if the capacity is
    /// exceeded. A tick at or before the newest stored tick is rejected:
    /// ticks must arrive in increasing order per buffer.
    pub fn push(&mut self, tick: u64, value: V) -> (r: Result<(), SyncError>)
        requires
            old(self).wf(),
        ensures
            final(self).wf(),
            final(self).spec_capacity() == old(self).spec_capacity(),
            ({
                let e = HistoryEntry { tick, value };
                match r {
                    Ok(()) => {
                        &&& (old(self)@.len() == 0 || old(self)@.last().tick < tick)
                        &&& final(self)@ == keep_newest(
                            old(self)@.push(e),
                            old(self).spec_capacity() as int,
                        )
                    },
                    Err(err) => {
                        &&& err == SyncError::OutOfOrderTick
                        &&& old(self)@.len() > 0
                        &&& old(self)@.last().tick >= tick
                        &&& final(self)@ == old(self)@
                    },
                }
            }),
    {
        let n = self.entries.len();
        if n > 0 && self.entries[n - 1].tick >= tick {
            return Err(SyncError::OutOfOrderTick);
        }
        let ghost pushed = self@.push(HistoryEntry { tick, value });
        if n == self.capacity {
            self.entries.remove(0);
        }
        self.entries.push(HistoryEntry { tick, value });
        proof {
            if n == self.capacity {
                assert(self@ =~= keep_newest(pushed, self.capacity as int));
            } else {
                assert(self@ =~= keep_newest(pushed, self.capacity as int));
            }
        }
        Ok(())
    }

    /// Exact lookup of the value stored at `tick`.
    pub fn get(&self, tick: u64) -> (r: Option<V>)
        ensures
            r == spec_lookup(self@, tick),
    {
        let mut j = self.entries.len();
        proof {
            assert(self@.subrange(0, j as int) =~= self@);
        }
        while j > 0
            invariant
                j <= self@.len(),
                spec_lookup(self@, tick) == spec_lookup(self@.subrange(0, j as int), tick),
            decreases j,
        {
            let e = self.entries[j - 1];
            proof {
                assert(self@.subrange(0, j as int).drop_last() =~= self@.subrange(0, j - 1));
                assert(self@.subrange(0, j as int).last() == self@[j - 1]);
            }
            if e.tick == tick {
                return Some(e.value);
            }
            j = j - 1;
        }
        proof {
            assert(self@.subrange(0, 0) =~= Seq::<HistoryEntry<V>>::empty());
        }
        None
    }

    /// Drop every snapshot strictly after `tick`; used when rewriting
    /// history during rollback.
    pub fn truncate_after(&mut self, tick: u64)
        requires
            old(self).wf(),
        ensures
            final(self).wf(),
            final(self).spec_capacity() == old(self).spec_capacity(),
            final(self)@ == spec_truncate_after(old(self)@, tick),
    {
        loop
            invariant
                self.wf(),
                self.spec_capacity() == old(self).spec_capacity(),
                spec_truncate_after(old(self)@, tick) == spec_truncate_after(self@, tick),
            ensures
                final(self)@ == spec_truncate_after(old(self)@, tick),
            decreases self@.len(),
        {
            let n = self.entries.len();
            if n == 0 {
                return ;
            }
            if self.entries[n - 1].tick <= tick {
                return ;
            }
            self.entries.pop();
            proof {
                assert(ticks_sorted(self@));
            }
        }
    }

    /// Drop every stored snapshot.
    pub fn clear(&mut self)
        requires
            old(self).wf(),
        ensures
            final(self).wf(),
            final(self).spec_capacity() == old(self).spec_capacity(),
            final(self)@ == Seq::<HistoryEntry<V>>::empty(),
    {
        self.entries.clear();
        proof {
            assert(self@ =~= Seq::<HistoryEntry<V>>::empty());
        }
    }

    /// The newest snapshot taken at or before `tick`: the start of an
    /// interpolation bracket.
    pub fn latest_before_or_at(&self, tick: u64) -> (r: Option<HistoryEntry<V>>)
        ensures
            r == spec_floor_entry(self@, tick),
    {
        let mut j = self.entries.len();
        proof {
            assert(self@.subrange(0, j as int) =~= self@);
        }
        while j > 0
            invariant
                j <= self@.len(),
                spec_floor_entry(self@, tick) == spec_floor_entry(
                    self@.subrange(0, j as int),
                    tick,
                ),
            decreases j,
        {
            let e = self.entries[j - 1];
            proof {
                assert(self@.subrange(0, j as int).drop_last() =~= self@.subrange(0, j - 1));
                assert(self@.subrange(0, j as int).last() == self@[j - 1]);
            }
            if e.tick <= tick {
                return Some(e);
            }
            j = j - 1;
        }
        proof {
            assert(self@.subrange(0, 0) =~= Seq::<HistoryEntry<V>>::empty());
        }
        None
    }

    /// The oldest snapshot taken at or after `tick`: the end of an
    /// interpolation bracket.
    pub fn earliest_after_or_at(&self, tick: u64) -> (r: Option<HistoryEntry<V>>)
        ensures
            r == spec_ceil_entry(self@, tick),
    {
        let n = self.entries.len();
        let mut i: usize = 0;
        proof {
            assert(self@.skip(0) =~= self@);
        }
        while i < n
            invariant
                n == self@.len(),
                i <= n,
                spec_ceil_entry(self@, tick) == spec_ceil_entry(self@.skip(i as int), tick),
            decreases n - i,
        {
            let e = self.entries[i];
            proof {
                assert(self@.skip(i as int)[0] == self@[i as int]);
                assert(self@.skip(i as int).skip(1) =~= self@.skip(i + 1));
            }
            if e.tick >= tick {
                return Some(e);
            }
            i = i + 1;
        }
        proof {
            assert(self@.skip(n as int) =~= Seq::<HistoryEntry<V>>::empty());
        }
        None
    }
}

/// `s` without the leading snapshots that interpolation has consumed:
/// while at least two entries remain and the second one is not after
/// `tick`, the first can no longer start a bracket around `tick` and is
/// dropped.
pub open spec fn spec_drain<V>(s: Seq<HistoryEntry<V>>, tick: u64) -> Seq<HistoryEntry<V>>
    decreases s.len(),
{
    if s.len() >= 2 && s[1].tick <= tick {
        spec_drain(s.skip(1), tick)
    } else {
        s
    }
}

impl<V: Copy> HistoryBuffer<V> {
    /// Drop the snapshots that interpolation at `tick` has consumed,
    /// always keeping the latest snapshot at or before `tick` and
    /// everything after it.
    pub fn drain_consumed(&mut self, tick: u64)
        requires
            old(self).wf(),
        ensures
            final(self).wf(),
            final(self).spec_capacity() == old(self).spec_capacity(),
            final(self)@ == spec_drain(old(self)@, tick),
            final(self)@.len() >= 1 || old(self)@.len() == 0,
    {
        loop
            invariant
                self.wf(),
                self.spec_capacity() == old(self).spec_capacity(),
                spec_drain(old(self)@, tick) == spec_drain(self@, tick),
                self@.len() >= 1 || old(self)@.len() == 0,
            ensures
                final(self)@ == spec_drain(old(self)@, tick),
                final(self)@.len() >= 1 || old(self)@.len() == 0,
            decreases self@.len(),
        {
            let n = self.entries.len();
            if n < 2 {
                return ;
            }
            if self.entries[1].tick > tick {
                return ;
            }
            let ghost before = self@;
            self.entries.remove(0);
            proof {
                assert(self@ =~= before.skip(1));
                assert(ticks_sorted(self@));
            }
        }
    }
}

/// Eviction composes: evicting after appending to an already-evicted
/// sequence leaves the same newest entries as evicting once at the end.
pub proof fn lemma_keep_newest_push<V>(s: Seq<HistoryEntry<V>>, e: HistoryEntry<V>, cap: int)
    requires
        cap >= 1,
    ensures
        keep_newest(keep_newest(s, cap).push(e), cap) == keep_newest(s.push(e), cap),
{
    if s.len() < cap {
    } else {
        assert(keep_newest(keep_newest(s, cap).push(e), cap) =~= keep_newest(s.push(e), cap));
    }
}

/// Under sorted ticks, `spec_lookup` returns exactly the value stored at
/// the index carrying `tick`.
pub proof fn lemma_lookup_at_index<V>(s: Seq<HistoryEntry<V>>, i: int, tick: u64)
    requires
        ticks_sorted(s),
        0 <= i < s.len(),
        s[i].tick == tick,
    ensures
        spec_lookup(s, tick) == Some(s[i].value),
    decreases s.len(),
{
    if i == s.len() - 1 {
    } else {
        assert(s.last().tick != tick);
        lemma_lookup_at_index(s.drop_last(), i, tick);
    }
}

} // verus!
