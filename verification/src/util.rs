//! Collecting repeated trace items so the console is not spammed: counts by
//! item, printed in batches.
//!
//! Time comes in as an argument — the clock belongs to the driver — so the
//! decision when to print is a pure function of what was logged and when.
use vstd::prelude::*;

verus! {

/// At this many logs a batch is printed whatever the clock says.
pub const MAX_LOGS: u32 = 10000;

/// After this many milliseconds since the last log a batch is printed.
pub const MAX_MILLIS: u64 = 1000;

/// The count recorded for `item`.
pub open spec fn count_of(items: Seq<(u64, u64)>, item: u64) -> Option<u64>
    decreases items.len(),
{
    if items.len() == 0 {
        None
    } else if items[0].0 == item {
        Some(items[0].1)
    } else {
        count_of(items.skip(1), item)
    }
}

/// Collects identical trace items and releases them in batches.
pub struct DeferredTracer {
    pub items: Vec<(u64, u64)>,
    pub last_ms: u64,
    pub last_cnt: u32,
}

impl DeferredTracer {
    /// An empty tracer, started at the given clock reading.
    pub fn new(now_ms: u64) -> (r: DeferredTracer)
        ensures
            r.items@.len() == 0,
            r.last_ms == now_ms,
            r.last_cnt == 0,
    {
        DeferredTracer { items: Vec::new(), last_ms: now_ms, last_cnt: 0 }
    }

    /// Record one occurrence of `item` at the given clock reading.
    pub fn log(&mut self, item: u64, now_ms: u64)
        requires
            old(self).last_cnt < u32::MAX,
        ensures
            final(self).last_ms == now_ms,
            final(self).last_cnt == old(self).last_cnt + 1,
            count_of(final(self).items@, item) == match count_of(old(self).items@, item) {
                Some(c) => if c < u64::MAX {
                    Some((c + 1) as u64)
                } else {
                    Some(u64::MAX)
                },
                None => Some(1u64),
            },
            forall|other: u64|
                other != item ==> count_of(final(self).items@, other) == count_of(
                    old(self).items@,
                    other,
                ),
    {
        let ghost items0 = self.items@;
        let found = self.find_item(item);
        match found {
            Some(i) => {
                let c = self.items[i].1;
                let bumped: u64 = if c < u64::MAX {
                    c + 1
                } else {
                    u64::MAX
                };
                self.items[i] = (item, bumped);
                proof {
                    lemma_count_after_update(items0, self.items@, i as int, item, bumped);
                }
            },
            None => {
                proof {
                    lemma_count_none_keys(items0, item);
                }
                self.items.push((item, 1));
                proof {
                    lemma_count_after_push(items0, self.items@, item);
                }
            },
        }
        self.last_ms = now_ms;
        self.last_cnt = self.last_cnt + 1;
    }

    /// Index of `item`'s entry, mirroring `count_of`.
    fn find_item(&self, item: u64) -> (r: Option<usize>)
        ensures
            match r {
                Some(i) => i < self.items@.len() && self.items@[i as int].0 == item && (forall|
                    j: int,
                |
                    0 <= j < i ==> (#[trigger] self.items@[j]).0 != item) && count_of(
                    self.items@,
                    item,
                ) == Some(self.items@[i as int].1),
                None => count_of(self.items@, item) is None,
            },
    {
        let mut i: usize = 0;
        proof {
            assert(self.items@.skip(0) =~= self.items@);
        }
        while i < self.items.len()
            invariant
                i <= self.items@.len(),
                forall|j: int| 0 <= j < i ==> (#[trigger] self.items@[j]).0 != item,
                count_of(self.items@, item) == count_of(self.items@.skip(i as int), item),
            decreases self.items@.len() - i,
        {
            proof {
                assert(self.items@.skip(i as int)[0] == self.items@[i as int]);
                assert(self.items@.skip(i as int).skip(1) =~= self.items@.skip(i + 1));
            }
            if self.items[i].0 == item {
                return Some(i);
            }
            i = i + 1;
        }
        proof {
            assert(self.items@.skip(i as int).len() == 0);
        }
        None
    }

    /// Release the batch when it is due — too many logs, or long enough
    /// since the last one — and start over; otherwise keep collecting.
    pub fn print(&mut self, now_ms: u64) -> (r: Option<Vec<(u64, u64)>>)
        requires
            now_ms >= old(self).last_ms,
        ensures
            (old(self).last_cnt > MAX_LOGS || now_ms - old(self).last_ms >= MAX_MILLIS) ==> (r
                matches Some(batch) && batch@ == old(self).items@) && final(self).items@.len() == 0
                && final(self).last_cnt == 0,
            !(old(self).last_cnt > MAX_LOGS || now_ms - old(self).last_ms >= MAX_MILLIS) ==> r
                is None && *final(self) == *old(self),
    {
        if self.last_cnt > MAX_LOGS || now_ms - self.last_ms >= MAX_MILLIS {
            self.last_cnt = 0;
            let mut batch: Vec<(u64, u64)> = Vec::new();
            core::mem::swap(&mut self.items, &mut batch);
            Some(batch)
        } else {
            None
        }
    }
}

/// An item with no count has no entry.
pub proof fn lemma_count_none_keys(entries: Seq<(u64, u64)>, item: u64)
    requires
        count_of(entries, item) is None,
    ensures
        forall|j: int| 0 <= j < entries.len() ==> (#[trigger] entries[j]).0 != item,
    decreases entries.len(),
{
    if entries.len() != 0 {
        lemma_count_none_keys(entries.skip(1), item);
        assert forall|j: int| 0 <= j < entries.len() implies (#[trigger] entries[j]).0
            != item by {
            if j > 0 {
                assert(entries[j] == entries.skip(1)[j - 1]);
            }
        }
    }
}

/// Appending a first entry for `item` records count one and leaves other
/// items alone.
pub proof fn lemma_count_after_push(before: Seq<(u64, u64)>, after: Seq<(u64, u64)>, item: u64)
    requires
        after.len() == before.len() + 1,
        forall|j: int| 0 <= j < before.len() ==> #[trigger] after[j] == before[j],
        forall|j: int| 0 <= j < before.len() ==> (#[trigger] before[j]).0 != item,
        after.last() == (item, 1u64),
    ensures
        count_of(after, item) == Some(1u64),
        forall|other: u64| other != item ==> count_of(after, other) == count_of(before, other),
    decreases before.len(),
{
    if before.len() == 0 {
        assert forall|other: u64| other != item implies count_of(after, other) == count_of(
            before,
            other,
        ) by {
            assert(after[0] == (item, 1u64));
            assert(after.skip(1) =~= Seq::<(u64, u64)>::empty());
            assert(count_of(Seq::<(u64, u64)>::empty(), other) is None);
        }
    } else {
        assert(after[0] == before[0]);
        assert(forall|j: int|
            0 <= j < before.skip(1).len() ==> #[trigger] after.skip(1)[j] == before.skip(1)[j]);
        assert(forall|j: int|
            0 <= j < before.skip(1).len() ==> (#[trigger] before.skip(1)[j]).0 != item);
        assert(after.skip(1).last() == after.last());
        assert(after.skip(1).len() == before.skip(1).len() + 1);
        lemma_count_after_push(before.skip(1), after.skip(1), item);
        assert(before[0].0 != item);
        assert(count_of(after, item) == Some(1u64));
        assert forall|other: u64| other != item implies count_of(after, other) == count_of(
            before,
            other,
        ) by {
            assert(count_of(after.skip(1), other) == count_of(before.skip(1), other));
        }
    }
}

/// Updating `item`'s sole entry leaves other items alone.
pub proof fn lemma_count_after_update(
    before: Seq<(u64, u64)>,
    after: Seq<(u64, u64)>,
    i: int,
    item: u64,
    c: u64,
)
    requires
        0 <= i < before.len(),
        after.len() == before.len(),
        forall|j: int| 0 <= j < before.len() && j != i ==> #[trigger] after[j] == before[j],
        forall|j: int| 0 <= j < i ==> (#[trigger] before[j]).0 != item,
        before[i].0 == item,
        after[i] == (item, c),
    ensures
        count_of(after, item) == Some(c),
        forall|other: u64| other != item ==> count_of(after, other) == count_of(before, other),
    decreases i,
{
    if i == 0 {
        assert forall|other: u64| other != item implies count_of(after, other) == count_of(
            before,
            other,
        ) by {
            assert(after.skip(1) =~= before.skip(1));
        }
    } else {
        assert(forall|j: int|
            0 <= j < before.skip(1).len() && j != i - 1 ==> #[trigger] after.skip(1)[j]
                == before.skip(1)[j]);
        assert(forall|j: int|
            0 <= j < i - 1 ==> (#[trigger] before.skip(1)[j]).0 != item);
        assert(before.skip(1)[i - 1] == before[i]);
        assert(after.skip(1)[i - 1] == after[i]);
        lemma_count_after_update(before.skip(1), after.skip(1), i - 1, item, c);
        assert(after[0] == before[0]);
        assert(before[0].0 != item);
        assert(count_of(after, item) == Some(c));
        assert forall|other: u64| other != item implies count_of(after, other) == count_of(
            before,
            other,
        ) by {
            assert(count_of(after.skip(1), other) == count_of(before.skip(1), other));
        }
    }
}

} // verus!
