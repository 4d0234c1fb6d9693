//! Fixed-capacity sliding-window percentile tracker.
//!
//! [`PercentileTracker`] holds up to `N` samples in a ring of atomics, with a
//! wait-free append and nearest-rank quantile reads. Samples are the bit
//! patterns of `f64` values (`f64::to_bits`).
//!
//! # Concurrency contract
//!
//! - `record` is wait-free: one relaxed `fetch_add` on the cache-line-padded
//!   write index claims a unique ticket, one `Release` store lands the sample
//!   in the ticket's slot. It never blocks, locks or allocates.
//! - A read (`sorted_window`, `quantile` and the `p50`/`p99`/`p999`/`max`
//!   helpers) `Acquire`-loads the write index, then every slot, and keeps the
//!   window's tickets in ticket order, without the empty-slot sentinel. The
//!   percentile reads return, as a ghost value, the window they read, and
//!   their result is the nearest rank of exactly that window.
//! - When two concurrent appends race for one slot, either may survive that
//!   round: the window is a sampler.
//!
//! The std atomics come with no specification of what they hold, so the
//! contracts state what holds of every value a read could observe: the window is the sorted live
//! samples of *some* slot contents and write index. That a quiescent read is
//! exact (with a single writer, the `N` most recent accepted samples) is
//! proved over the model of the protocol only, not of a tracker value:
//! see [`law_single_writer_read`] and `ring::law_live_window_is_most_recent`.
use vstd::prelude::*;
use std::sync::atomic::AtomicU64;
use std::sync::atomic::AtomicUsize;
use std::sync::atomic::Ordering;
use crate::padding::CachePadded;
use crate::quantile::{nearest_rank, nearest_rank_spec};
use crate::ring::{
    accepted, law_live_window_is_most_recent, law_window_is_most_recent, live_window,
    live_window_samples, ring_after, slot_index, window_begin, window_count, window_size,
};
use crate::sample_bits::{is_nan, is_nan_bits, NAN_BITS};
use crate::sorting::{lemma_total_order_sort, sorted_by_total_order, sorted_samples, total_order_sort};

verus! {

/// The window a read sees, given the slot contents it loaded and the write
/// index `end` it loaded first: the live samples of the tickets before
/// `end`, sorted in the IEEE-754 total order.
pub open spec fn read_window(slots: Seq<u64>, end: nat) -> Seq<u64> {
    total_order_sort(live_window(slots, end))
}

/// The sorted window of a read that loaded `slots` and the write index
/// `end`.
pub fn sorted_read(slots: &[u64], end: usize) -> (window: Vec<u64>)
    ensures
        window@ == read_window(slots@, end as nat),
{
    let live = live_window_samples(slots, end);
    sorted_samples(live.as_slice())
}

/// The nearest-rank quantile `num / den` of a read that loaded `slots` and
/// the write index `end`.
pub fn quantile_of_read(slots: &[u64], end: usize, num: u64, den: u64) -> (sample: Option<u64>)
    ensures
        sample == nearest_rank_spec(read_window(slots@, end as nat), num as nat, den as nat),
{
    let window = sorted_read(slots, end);
    proof {
        lemma_total_order_sort(live_window(slots@, end as nat));
    }
    nearest_rank(window.as_slice(), num, den)
}

/// `window` is what a read of a tracker with `capacity` slots returns: the
/// sorted live samples of some slot contents and some write index.
pub open spec fn is_tracker_read(window: Seq<u64>, capacity: nat) -> bool {
    exists|slots: Seq<u64>, end: nat|
        slots.len() == capacity && window == #[trigger] read_window(slots, end)
}

/// A read window has at most one sample per slot.
pub proof fn lemma_read_window_len(slots: Seq<u64>, end: nat)
    ensures
        read_window(slots, end).len() <= slots.len(),
        sorted_by_total_order(read_window(slots, end)),
{
    crate::ring::lemma_live_window_len(slots, end);
    lemma_total_order_sort(live_window(slots, end));
}

/// What a read gives back of the writes: when a single writer has recorded
/// `inputs` (NaN values among them rejected) into a fresh tracker of
/// `capacity > 0` slots, the read window is the last
/// `min(accepted, capacity)` accepted samples, sorted, and its size is the
/// tracker's count.
pub proof fn law_single_writer_read(inputs: Seq<u64>, capacity: nat)
    requires
        capacity > 0,
    ensures
        ({
            let history = accepted(inputs);
            let recent = history.subrange(
                window_begin(history.len(), capacity) as int,
                history.len() as int,
            );
            &&& read_window(ring_after(history, capacity), history.len()) == total_order_sort(recent)
            &&& read_window(ring_after(history, capacity), history.len()).to_multiset()
                == recent.to_multiset()
            &&& history.len() > 0 ==> read_window(ring_after(history, capacity), history.len()).contains(
                history.last(),
            )
            &&& read_window(ring_after(history, capacity), history.len()).len() == window_size(
                history.len(),
                capacity,
            )
        }),
{
    let history = accepted(inputs);
    law_live_window_is_most_recent(inputs, capacity);
    law_window_is_most_recent(history, capacity);
    let recent = history.subrange(
        window_begin(history.len(), capacity) as int,
        history.len() as int,
    );
    lemma_total_order_sort(recent);
    if history.len() > 0 {
        let w = read_window(ring_after(history, capacity), history.len());
        assert(recent[recent.len() - 1] == history.last());
        assert(recent.contains(history.last()));
        vstd::seq_lib::to_multiset_contains(recent, history.last());
        vstd::seq_lib::to_multiset_contains(w, history.last());
    }
}

/// The slots after applying `writes` (slot, sample) in order to a ring of
/// `capacity` sentinel slots.
pub open spec fn apply_writes(writes: Seq<(nat, u64)>, capacity: nat) -> Seq<u64>
    decreases writes.len(),
{
    if writes.len() == 0 {
        Seq::new(capacity, |i: int| NAN_BITS)
    } else {
        apply_writes(writes.drop_last(), capacity).update(
            writes.last().0 as int,
            writes.last().1,
        )
    }
}

/// The writes `record` reports for a single writer build the ring of the
/// protocol: when the `i`-th accepted sample `history[i]` was stored at
/// ticket `i` in slot `i % capacity` (what `record` returns), the slots are
/// `ring_after(history, capacity)`; so a read at write index
/// `history.len()` is the newest `min(len, capacity)` samples.
pub proof fn law_recorded_writes_build_the_ring(
    history: Seq<u64>,
    writes: Seq<(nat, u64)>,
    capacity: nat,
)
    requires
        capacity > 0,
        writes.len() == history.len(),
        forall|i: int|
            0 <= i < writes.len() ==> #[trigger] writes[i] == (
                (i % (capacity as int)) as nat,
                history[i],
            ),
    ensures
        apply_writes(writes, capacity) == ring_after(history, capacity),
    decreases history.len(),
{
    if history.len() > 0 {
        let w = writes.drop_last();
        let h = history.drop_last();
        assert forall|i: int| 0 <= i < w.len() implies #[trigger] w[i] == (
            (i % (capacity as int)) as nat,
            h[i],
        ) by {
            assert(w[i] == writes[i]);
        }
        law_recorded_writes_build_the_ring(h, w, capacity);
        assert(writes.last() == writes[writes.len() - 1]);
    }
}

/// Fixed-capacity sliding window of samples with nearest-rank percentile
/// reads.
///
/// The ring starts filled with the NaN sentinel; `record` claims a
/// monotonically increasing ticket and overwrites the ticket's slot, so once
/// `N` samples have been recorded the oldest ones are overwritten: these are
/// window semantics, not a histogram. NaN samples are rejected at append.
#[derive(Debug)]
pub struct PercentileTracker<const N: usize> {
    write_idx: CachePadded<AtomicUsize>,
    slots: Vec<AtomicU64>,
}

/// A ring of `capacity` slots, each holding the empty-slot sentinel.
fn sentinel_slots(capacity: usize) -> (slots: Vec<AtomicU64>)
    ensures
        slots.len() == capacity,
{
    let mut slots: Vec<AtomicU64> = Vec::with_capacity(capacity);
    let mut i: usize = 0;
    while i < capacity
        invariant
            i <= capacity,
            slots.len() == i,
        decreases capacity - i,
    {
        slots.push(AtomicU64::new(NAN_BITS));
        i = i + 1;
    }
    slots
}

impl<const N: usize> PercentileTracker<N> {
    /// Every tracker has exactly `N` slots.
    #[verifier::type_invariant]
    spec fn has_capacity_slots(self) -> bool {
        self.slots.len() == N
    }

    /// The number of slots of the ring.
    pub closed spec fn capacity(&self) -> nat {
        self.slots.len() as nat
    }

    /// Creates an empty tracker with capacity `N`: a write index and `N`
    /// slots, each holding the empty-slot sentinel. (The atomics' contents
    /// are not part of the contract; the slot count is.)
    pub fn new() -> (tracker: Self)
        ensures
            tracker.capacity() == N,
    {
        PercentileTracker { write_idx: CachePadded::new(AtomicUsize::new(0)), slots: sentinel_slots(N) }
    }

    /// Claims the next ticket.
    fn claim_ticket(&self) -> usize {
        self.write_idx.get().fetch_add(1, Ordering::Relaxed)
    }

    /// Publishes `bits` in slot `slot`.
    fn publish(&self, slot: usize, bits: u64) -> (stored: usize)
        requires
            slot < N,
        ensures
            stored == slot,
    {
        proof {
            use_type_invariant(self);
        }
        self.slots[slot].store(bits, Ordering::Release);
        slot
    }

    /// The write index as a reader sees it, before it reads the slots.
    fn acquire_end(&self) -> usize {
        self.write_idx.get().load(Ordering::Acquire)
    }

    /// The write index, with no ordering against the slots.
    fn relaxed_end(&self) -> usize {
        self.write_idx.get().load(Ordering::Relaxed)
    }

    /// A copy of every slot, in slot order.
    fn acquire_slots(&self) -> (copy: Vec<u64>)
        ensures
            copy.len() == N,
    {
        proof {
            use_type_invariant(self);
        }
        let mut copy: Vec<u64> = Vec::with_capacity(N);
        let mut i: usize = 0;
        while i < self.slots.len()
            invariant
                i <= self.slots.len(),
                self.slots.len() == N,
                copy.len() == i,
            decreases self.slots.len() - i,
        {
            copy.push(self.slots[i].load(Ordering::Acquire));
            i = i + 1;
        }
        copy
    }

    /// Records one sample, given as the bits of an `f64`.
    ///
    /// NaN samples are rejected (a no-op). Otherwise one relaxed `fetch_add`
    /// claims ticket `t` and one `Release` store lands the sample in slot
    /// `t % N`; once the ring is full, the oldest sample is overwritten.
    ///
    /// Returns the write it made: `None` for a rejected NaN, else the claimed
    /// ticket and the slot the sample was stored in.
    pub fn record(&self, bits: u64) -> (write: Option<(usize, usize)>)
        requires
            N > 0,
        ensures
            write is None <==> is_nan(bits),
            write matches Some((ticket, slot)) ==> slot == ticket % N && slot < N,
    {
        if is_nan_bits(bits) {
            return None;
        }
        let ticket: usize = self.claim_ticket();
        let slot: usize = slot_index(ticket, N);
        let stored: usize = self.publish(slot, bits);
        Some((ticket, stored))
    }

    /// Number of samples in the window: `min(total records, N)`.
    ///
    /// Exact once writers quiesce; under concurrent appends it is a lower
    /// bound on the records issued.
    pub fn count(&self) -> (count: usize)
        ensures
            count <= N,
    {
        window_count(self.relaxed_end(), N)
    }

    /// A snapshot of the window: its samples sorted in the IEEE-754 total
    /// order (that of `f64::total_cmp`), empty slots dropped.
    pub fn sorted_window(&self) -> (window: Vec<u64>)
        ensures
            is_tracker_read(window@, N as nat),
            sorted_by_total_order(window@),
            window@.len() <= N,
    {
        let end: usize = self.acquire_end();
        let slots = self.acquire_slots();
        let window = sorted_read(slots.as_slice(), end);
        proof {
            lemma_read_window_len(slots@, end as nat);
            assert(window@ == read_window(slots@, end as nat));
        }
        window
    }

    /// Nearest-rank quantile `num / den` of the current window.
    ///
    /// Returns `None` for an empty window or for a quantile outside `0..=1`
    /// (`den == 0` or `num > den`). Returns the sample with the window it
    /// was read from (a ghost value).
    pub fn quantile(&self, num: u64, den: u64) -> (read: (Option<u64>, Ghost<Seq<u64>>))
        ensures
            read.0 == nearest_rank_spec(read.1@, num as nat, den as nat),
            is_tracker_read(read.1@, N as nat),
            sorted_by_total_order(read.1@),
            read.1@.len() <= N,
    {
        let end: usize = self.acquire_end();
        let slots = self.acquire_slots();
        let sample = quantile_of_read(slots.as_slice(), end, num, den);
        proof {
            lemma_read_window_len(slots@, end as nat);
            assert(is_tracker_read(read_window(slots@, end as nat), N as nat));
        }
        (sample, Ghost(read_window(slots@, end as nat)))
    }

    /// 50th percentile (median) of the window: nearest rank at 1/2.
    ///
    /// Returns the sample with the window it was read from (a ghost value).
    pub fn p50(&self) -> (read: (Option<u64>, Ghost<Seq<u64>>))
        ensures
            read.0 == nearest_rank_spec(read.1@, 1, 2),
            is_tracker_read(read.1@, N as nat),
            sorted_by_total_order(read.1@),
            read.1@.len() <= N,
    {
        self.quantile(1, 2)
    }

    /// 99th percentile of the window: nearest rank at 99/100.
    ///
    /// Returns the sample with the window it was read from (a ghost value).
    pub fn p99(&self) -> (read: (Option<u64>, Ghost<Seq<u64>>))
        ensures
            read.0 == nearest_rank_spec(read.1@, 99, 100),
            is_tracker_read(read.1@, N as nat),
            sorted_by_total_order(read.1@),
            read.1@.len() <= N,
    {
        self.quantile(99, 100)
    }

    /// 99.9th percentile of the window: nearest rank at 999/1000.
    ///
    /// Returns the sample with the window it was read from (a ghost value).
    pub fn p999(&self) -> (read: (Option<u64>, Ghost<Seq<u64>>))
        ensures
            read.0 == nearest_rank_spec(read.1@, 999, 1000),
            is_tracker_read(read.1@, N as nat),
            sorted_by_total_order(read.1@),
            read.1@.len() <= N,
    {
        self.quantile(999, 1000)
    }

    /// Maximum sample of the window: nearest rank at 1.
    ///
    /// Returns the sample with the window it was read from (a ghost value).
    pub fn max(&self) -> (read: (Option<u64>, Ghost<Seq<u64>>))
        ensures
            read.0 == nearest_rank_spec(read.1@, 1, 1),
            is_tracker_read(read.1@, N as nat),
            sorted_by_total_order(read.1@),
            read.1@.len() <= N,
    {
        self.quantile(1, 1)
    }
}

impl<const N: usize> Default for PercentileTracker<N> {
    fn default() -> (tracker: Self)
        ensures
            tracker.capacity() == N,
    {
        Self::new()
    }
}

} // verus!
