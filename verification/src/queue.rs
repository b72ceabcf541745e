//! The ageing priority queue: jobs ordered by effective priority, ties broken
//! by submission order, with an advisory soft capacity.
//!
//! The structure here is the sequential core. An embedding program shares it
//! between senders and worker threads behind a lock, so every call holds
//! exclusive access; the contracts below then describe each linearized
//! enqueue, dequeue and count read.

use vstd::prelude::*;

use crate::priority::effective_priority;
use crate::priority::lemma_ageing_dominance;
use crate::priority::waited;
use crate::priority::Priority;
use crate::priority::AGEING_TICKS_PER_LEVEL;
use crate::priority::TOP_LEVEL;

verus! {

/// One queued job together with the bookkeeping that drives ageing and
/// fairness: the priority it was submitted at, the instant it was stamped
/// with, and a submission sequence number.
pub struct QueueEntry<T> {
    pub priority: Priority,
    pub enqueue_tick: u64,
    pub seq: u64,
    pub item: T,
}

/// `a` goes out before `b` at instant `now`: strictly higher effective
/// priority, or the same effective priority and an earlier submission.
pub open spec fn entry_beats<T>(a: QueueEntry<T>, b: QueueEntry<T>, now: u64) -> bool {
    let ea = effective_priority(a.priority, a.enqueue_tick, now);
    let eb = effective_priority(b.priority, b.enqueue_tick, now);
    ea > eb || (ea == eb && a.seq < b.seq)
}

/// Index of the entry `recv` removes at instant `now`: scanning the entries
/// in submission order, a later entry displaces the candidate only by
/// strictly beating it.
pub open spec fn selected_index<T>(entries: Seq<QueueEntry<T>>, now: u64) -> int
    decreases entries.len(),
{
    if entries.len() <= 1 {
        0
    } else {
        let prev = selected_index(entries.drop_last(), now);
        let last = entries.len() - 1;
        if entry_beats(entries[last], entries[prev], now) {
            last
        } else {
            prev
        }
    }
}

/// Entries stand in submission order: sequence numbers strictly increase
/// along the sequence.
pub open spec fn entries_ordered<T>(entries: Seq<QueueEntry<T>>) -> bool {
    forall|i: int, j: int|
        #![trigger entries[i], entries[j]]
        0 <= i < j < entries.len() ==> entries[i].seq < entries[j].seq
}

/// A multi-priority job queue with ageing and an advisory capacity.
///
/// Entries are held in submission order; dequeue picks the entry whose
/// effective priority — base level plus one level per `AGEING_TICKS_PER_LEVEL`
/// ticks waited — is highest, the oldest one among equals. The soft capacity
/// only feeds the `is_full` signal: no send is ever rejected or delayed.
pub struct AgeingPriorityQueue<T> {
    entries: Vec<QueueEntry<T>>,
    soft_capacity: usize,
    next_seq: u64,
}

impl<T> AgeingPriorityQueue<T> {
    /// The queued entries, in submission order.
    pub closed spec fn entries_seq(&self) -> Seq<QueueEntry<T>> {
        self.entries@
    }

    /// The advisory capacity the queue was constructed with.
    pub closed spec fn soft_cap(&self) -> int {
        self.soft_capacity as int
    }

    /// The sequence number the next submission will be stamped with.
    pub closed spec fn next_seq_of(&self) -> int {
        self.next_seq as int
    }

    /// Well-formed: entries stand in submission order and every stamped
    /// sequence number is below the counter that mints the next one.
    pub open spec fn wf(&self) -> bool {
        &&& entries_ordered(self.entries_seq())
        &&& forall|i: int|
            #![trigger self.entries_seq()[i]]
            0 <= i < self.entries_seq().len() ==> self.entries_seq()[i].seq < self.next_seq_of()
    }

    /// An empty queue whose advisory capacity is `soft_capacity`.
    pub fn soft_bounded(soft_capacity: usize) -> (queue: Self)
        ensures
            queue.wf(),
            queue.entries_seq().len() == 0,
            queue.soft_cap() == soft_capacity,
            queue.next_seq_of() == 0,
    {
        AgeingPriorityQueue { entries: Vec::new(), soft_capacity, next_seq: 0 }
    }

    /// Number of entries awaiting dequeue.
    pub fn queued_count(&self) -> (count: usize)
        ensures
            count == self.entries_seq().len(),
    {
        self.entries.len()
    }

    /// Total number of submissions the queue has accepted so far; also the
    /// sequence number the next one will be stamped with. `send` asks its
    /// caller for headroom here, so an embedding can test this first.
    pub fn total_submitted(&self) -> (total: u64)
        ensures
            total == self.next_seq_of(),
    {
        self.next_seq
    }

    /// Advisory backpressure signal: true exactly when the queued count has
    /// reached the soft capacity. Purely observational — no send is ever
    /// rejected or delayed on its account.
    pub fn is_full(&self) -> (full: bool)
        ensures
            full == (self.entries_seq().len() >= self.soft_cap()),
    {
        self.entries.len() >= self.soft_capacity
    }

    /// Enqueue `item` at `priority`, stamped with the instant `now`.
    /// Unconditional: the queue accepts the entry whether or not it is over
    /// its soft capacity.
    pub fn send(&mut self, priority: Priority, item: T, now: u64)
        requires
            old(self).wf(),
            old(self).next_seq_of() < u64::MAX,
        ensures
            final(self).wf(),
            final(self).entries_seq().len() == old(self).entries_seq().len() + 1,
            final(self).entries_seq().drop_last() == old(self).entries_seq(),
            final(self).entries_seq().last().priority == priority,
            final(self).entries_seq().last().enqueue_tick == now,
            final(self).entries_seq().last().item == item,
            final(self).entries_seq().last().seq == old(self).next_seq_of(),
            final(self).soft_cap() == old(self).soft_cap(),
            final(self).next_seq_of() == old(self).next_seq_of() + 1,
    {
        let seq = self.next_seq;
        self.next_seq = self.next_seq + 1;
        self.entries.push(QueueEntry { priority, enqueue_tick: now, seq, item });
        proof {
            assert(self.entries@.drop_last() =~= old(self).entries@);
        }
    }

    /// Remove and return the entry with the highest effective priority at
    /// instant `now`, the earliest-submitted one among equals; `None` on an
    /// empty queue, which is left unchanged.
    pub fn recv(&mut self, now: u64) -> (received: Option<T>)
        requires
            old(self).wf(),
        ensures
            final(self).wf(),
            final(self).soft_cap() == old(self).soft_cap(),
            final(self).next_seq_of() == old(self).next_seq_of(),
            old(self).entries_seq().len() == 0 ==> received is None && final(self).entries_seq()
                == old(self).entries_seq(),
            old(self).entries_seq().len() > 0 ==> 0 <= selected_index(
                old(self).entries_seq(),
                now,
            ) < old(self).entries_seq().len(),
            old(self).entries_seq().len() > 0 ==> final(self).entries_seq().len() == old(
                self,
            ).entries_seq().len() - 1,
            old(self).entries_seq().len() > 0 ==> received == Some(
                old(self).entries_seq()[selected_index(old(self).entries_seq(), now)].item,
            ) && final(self).entries_seq() == old(self).entries_seq().remove(
                selected_index(old(self).entries_seq(), now),
            ),
    {
        let ghost entries = self.entries@;
        let count = self.entries.len();
        if count == 0 {
            return None;
        }
        let mut best: usize = 0;
        let mut i: usize = 1;
        while i < count
            invariant
                1 <= i <= count,
                best < i,
                count == entries.len(),
                self.entries@ == entries,
                best == selected_index(entries.take(i as int), now),
            decreases count - i,
        {
            let displaces = beats(&self.entries[i], &self.entries[best], now);
            proof {
                assert(entries.take(i + 1).drop_last() =~= entries.take(i as int));
            }
            if displaces {
                best = i;
            }
            i = i + 1;
        }
        proof {
            assert(entries.take(count as int) =~= entries);
            lemma_ordered_remove(entries, best as int);
        }
        let entry = self.entries.remove(best);
        Some(entry.item)
    }
}

/// Does `a` go out before `b` at instant `now`?
fn beats<T>(a: &QueueEntry<T>, b: &QueueEntry<T>, now: u64) -> (first: bool)
    ensures
        first == entry_beats(*a, *b, now),
{
    let ea = crate::priority::effective_level(&a.priority, a.enqueue_tick, now);
    let eb = crate::priority::effective_level(&b.priority, b.enqueue_tick, now);
    ea > eb || (ea == eb && a.seq < b.seq)
}

/// The dequeue order is transitive.
proof fn lemma_beats_transitive<T>(
    a: QueueEntry<T>,
    b: QueueEntry<T>,
    c: QueueEntry<T>,
    now: u64,
)
    requires
        entry_beats(a, b, now),
        entry_beats(b, c, now),
    ensures
        entry_beats(a, c, now),
{
}

/// Selection correctness: the entry `recv` removes beats every other entry
/// present — no entry has a higher effective priority, and none with the same
/// effective priority was submitted earlier.
pub proof fn lemma_selected_beats_all<T>(entries: Seq<QueueEntry<T>>, now: u64)
    requires
        entries.len() > 0,
        entries_ordered(entries),
    ensures
        0 <= selected_index(entries, now) < entries.len(),
        forall|j: int|
            0 <= j < entries.len() && j != selected_index(entries, now) ==> entry_beats(
                entries[selected_index(entries, now)],
                #[trigger] entries[j],
                now,
            ),
    decreases entries.len(),
{
    if entries.len() > 1 {
        let shorter = entries.drop_last();
        let last = entries.len() - 1;
        assert(entries_ordered(shorter)) by {
            assert forall|i: int, j: int|
                #![trigger shorter[i], shorter[j]]
                0 <= i < j < shorter.len() implies shorter[i].seq < shorter[j].seq by {
                assert(shorter[i] == entries[i]);
                assert(shorter[j] == entries[j]);
            }
        }
        lemma_selected_beats_all(shorter, now);
        let prev = selected_index(shorter, now);
        assert(shorter[prev] == entries[prev]);
        let sel = selected_index(entries, now);
        if entry_beats(entries[last], entries[prev], now) {
            assert(sel == last);
            assert forall|j: int| 0 <= j < entries.len() && j != last implies entry_beats(
                entries[sel],
                #[trigger] entries[j],
                now,
            ) by {
                if j != prev {
                    assert(shorter[j] == entries[j]);
                    lemma_beats_transitive(entries[last], entries[prev], entries[j], now);
                }
            }
        } else {
            assert(sel == prev);
            // Sequence numbers are distinct, so an entry that does not beat
            // the candidate is itself beaten by it.
            assert(entries[prev].seq < entries[last].seq);
            assert(entry_beats(entries[prev], entries[last], now));
            assert forall|j: int| 0 <= j < entries.len() && j != sel implies entry_beats(
                entries[sel],
                #[trigger] entries[j],
                now,
            ) by {
                if j != last {
                    assert(shorter[j] == entries[j]);
                }
            }
        }
    }
}

/// Starvation bound: once the oldest entry has waited `AGEING_TICKS_PER_LEVEL`
/// ticks for each level between its own and the top, it is the entry `recv`
/// removes next, whatever priorities the younger entries carry. Together with
/// the monotonicity of ageing this bounds every entry's wait: each dequeue
/// behind which it stands removes some other entry, and from the instant above
/// it is first in line.
pub proof fn lemma_aged_oldest_selected<T>(entries: Seq<QueueEntry<T>>, now: u64)
    requires
        entries.len() > 0,
        entries_ordered(entries),
        waited(entries[0].enqueue_tick, now) >= (TOP_LEVEL - entries[0].priority.level()) * (
        AGEING_TICKS_PER_LEVEL as int),
    ensures
        selected_index(entries, now) == 0,
{
    lemma_selected_beats_all(entries, now);
    lemma_aged_entry_not_overtaken(entries, 0, now);
}

/// Starvation bound, general form: a fully aged entry is never overtaken.
/// Once the entry at position `aged` has waited `AGEING_TICKS_PER_LEVEL`
/// ticks for each level between its own and the top, `recv` removes it or an
/// older entry — never a younger one. Each dequeue therefore shrinks the set
/// of entries standing before it, so it leaves within as many dequeues as it
/// has older neighbours.
pub proof fn lemma_aged_entry_not_overtaken<T>(entries: Seq<QueueEntry<T>>, aged: int, now: u64)
    requires
        entries_ordered(entries),
        0 <= aged < entries.len(),
        waited(entries[aged].enqueue_tick, now) >= (TOP_LEVEL - entries[aged].priority.level()) * (
        AGEING_TICKS_PER_LEVEL as int),
    ensures
        selected_index(entries, now) <= aged,
{
    lemma_selected_beats_all(entries, now);
    let sel = selected_index(entries, now);
    if sel > aged {
        lemma_ageing_dominance(
            entries[aged].priority,
            entries[aged].enqueue_tick,
            entries[sel].priority,
            entries[sel].enqueue_tick,
            now,
        );
        assert(entries[aged].seq < entries[sel].seq);
        assert(!entry_beats(entries[sel], entries[aged], now));
    }
}

/// Removing an entry keeps the rest in submission order.
proof fn lemma_ordered_remove<T>(entries: Seq<QueueEntry<T>>, at: int)
    requires
        entries_ordered(entries),
        0 <= at < entries.len(),
    ensures
        entries_ordered(entries.remove(at)),
{
    let removed = entries.remove(at);
    assert forall|i: int, j: int|
        #![trigger removed[i], removed[j]]
        0 <= i < j < removed.len() implies removed[i].seq < removed[j].seq by {
        assert(removed[i] == if i < at {
            entries[i]
        } else {
            entries[i + 1]
        });
        assert(removed[j] == if j < at {
            entries[j]
        } else {
            entries[j + 1]
        });
    }
}

} // verus!
