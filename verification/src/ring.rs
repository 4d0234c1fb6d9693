//! The sliding-window protocol of the tracker.
//!
//! A tracker of capacity `n` owns `n` slots, all holding the NaN sentinel
//! at first, and a write index. Recording a sample claims the next ticket
//! `t` (the old write index) and stores the sample in slot `t % n`. A read
//! takes the write index `end` and reads the tickets `end - n .. end`
//! (clipped at 0) in ticket order, dropping sentinel slots.
//!
//! This module holds each step of that protocol as a function with an exact
//! contract, the protocol's model ([`ring_after`]), and the laws that make
//! it a sliding window: a single writer's read is exactly the `n` most
//! recent accepted samples.
use vstd::prelude::*;
use crate::sample_bits::{is_nan, NAN_BITS};

verus! {

/// First ticket of the window that ends before ticket `end` in a ring of
/// `capacity` slots: `end - capacity`, clipped at 0.
pub open spec fn window_begin(end: nat, capacity: nat) -> nat {
    if end > capacity {
        (end - capacity) as nat
    } else {
        0
    }
}

/// The slots of the tickets `window_begin(end, n) .. end`, read in ticket
/// order, where `n` is the number of slots.
pub open spec fn window_read(slots: Seq<u64>, end: nat) -> Seq<u64> {
    let start: nat = window_begin(end, slots.len());
    Seq::new((end - start) as nat, |i: int| slots[(start + i) % (slots.len() as int)])
}

/// Whether a slot holds a sample rather than the empty-slot sentinel.
pub open spec fn live_pred() -> spec_fn(u64) -> bool {
    |bits: u64| bits != NAN_BITS
}

/// The samples of a read: its slots without the sentinel.
pub open spec fn live_window(slots: Seq<u64>, end: nat) -> Seq<u64> {
    window_read(slots, end).filter(live_pred())
}

/// Number of samples a ring of `capacity` slots holds after `end`
/// accepted records: `min(end, capacity)`.
pub open spec fn window_size(end: nat, capacity: nat) -> nat {
    if end < capacity {
        end
    } else {
        capacity
    }
}

/// The slots of a ring of `capacity` slots after the samples of `history`
/// have been recorded into it one after another, starting from all
/// sentinels: sample `t` lands in slot `t % capacity`.
pub open spec fn ring_after(history: Seq<u64>, capacity: nat) -> Seq<u64>
    decreases history.len(),
{
    if history.len() == 0 {
        Seq::new(capacity, |i: int| NAN_BITS)
    } else {
        let last: int = (history.len() - 1) as int;
        ring_after(history.drop_last(), capacity).update(last % (capacity as int), history.last())
    }
}

/// What is left of a stream of recorded values once NaN samples are
/// rejected.
pub open spec fn accepted(inputs: Seq<u64>) -> Seq<u64> {
    inputs.filter(|bits: u64| !is_nan(bits))
}

/// The slot of ticket `ticket` in a ring of `capacity` slots.
pub fn slot_index(ticket: usize, capacity: usize) -> (slot: usize)
    requires
        capacity > 0,
    ensures
        slot == ticket % capacity,
        slot < capacity,
{
    ticket % capacity
}

/// First ticket of the window ending before `end`
/// (`end.saturating_sub(capacity)`).
pub fn window_start(end: usize, capacity: usize) -> (start: usize)
    ensures
        start == window_begin(end as nat, capacity as nat),
{
    if end > capacity {
        end - capacity
    } else {
        0
    }
}

/// Number of samples in the window after `write_index` claimed tickets:
/// `min(write_index, capacity)`.
pub fn window_count(write_index: usize, capacity: usize) -> (count: usize)
    ensures
        count == window_size(write_index as nat, capacity as nat),
{
    if write_index < capacity {
        write_index
    } else {
        capacity
    }
}

/// The samples of the window that ends before ticket `end`, read from a
/// copy of the slots in ticket order, with sentinel slots dropped.
pub fn live_window_samples(slots: &[u64], end: usize) -> (samples: Vec<u64>)
    ensures
        samples@ == live_window(slots@, end as nat),
{
    let capacity: usize = slots.len();
    let start: usize = window_start(end, capacity);
    let ghost read = window_read(slots@, end as nat);
    let mut samples: Vec<u64> = Vec::new();
    let mut ticket: usize = start;
    while ticket < end
        invariant
            start == window_begin(end as nat, capacity as nat),
            start <= ticket <= end,
            capacity == slots@.len(),
            read == window_read(slots@, end as nat),
            samples@ == read.take(ticket - start).filter(live_pred()),
        decreases end - ticket,
    {
        let slot: usize = slot_index(ticket, capacity);
        let bits: u64 = slots[slot];
        proof {
            let k: int = ticket - start;
            assert(read[k as int] == bits);
            assert(read.take(k + 1) =~= read.take(k as int).push(bits));
            read.take(k as int).lemma_filter_push(bits, live_pred());
        }
        if bits != NAN_BITS {
            samples.push(bits);
        }
        ticket = ticket + 1;
    }
    proof {
        assert(read.take(end - start) =~= read);
    }
    samples
}

/// A read holds at most `min(end, n)` samples.
pub proof fn lemma_live_window_len(slots: Seq<u64>, end: nat)
    ensures
        live_window(slots, end).len() <= window_read(slots, end).len(),
        window_read(slots, end).len() == window_size(end, slots.len()),
{
    window_read(slots, end).lemma_filter_len(live_pred());
}

/// The model ring always has `capacity` slots.
pub proof fn lemma_ring_len(history: Seq<u64>, capacity: nat)
    requires
        capacity > 0,
    ensures
        ring_after(history, capacity).len() == capacity,
    decreases history.len(),
{
    if history.len() > 0 {
        lemma_ring_len(history.drop_last(), capacity);
    }
}

/// Slot `t % capacity` of the model ring holds sample `t` of the history
/// for every ticket `t` among the last `capacity` ones.
pub proof fn lemma_ring_holds_recent(history: Seq<u64>, capacity: nat, t: int)
    requires
        capacity > 0,
        0 <= t < history.len(),
        history.len() <= t + capacity,
    ensures
        ring_after(history, capacity)[t % (capacity as int)] == history[t],
    decreases history.len(),
{
    let last: int = history.len() - 1;
    let prev = history.drop_last();
    lemma_ring_len(prev, capacity);
    if t < last {
        lemma_ring_holds_recent(prev, capacity, t);
        let c: int = capacity as int;
        assert(t % c != last % c) by {
            vstd::arithmetic::div_mod::lemma_fundamental_div_mod(t, c);
            vstd::arithmetic::div_mod::lemma_fundamental_div_mod(last, c);
            let qt: int = t / c;
            let ql: int = last / c;
            if t % c == last % c {
                assert(last - t == (ql - qt) * c) by (nonlinear_arith)
                    requires
                        t == c * qt + t % c,
                        last == c * ql + last % c,
                        t % c == last % c,
                ;
                assert(false) by (nonlinear_arith)
                    requires
                        last - t == (ql - qt) * c,
                        0 < last - t < c,
                        c > 0,
                ;
            }
        }
    }
}

/// A single writer's ring is a sliding window: reading it after the
/// samples of `history` were recorded gives exactly the last
/// `min(history.len(), capacity)` of them, oldest first.
pub proof fn law_window_is_most_recent(history: Seq<u64>, capacity: nat)
    requires
        capacity > 0,
    ensures
        window_read(ring_after(history, capacity), history.len()) == history.subrange(
            window_begin(history.len(), capacity) as int,
            history.len() as int,
        ),
        window_read(ring_after(history, capacity), history.len()).len() == window_size(
            history.len(),
            capacity,
        ),
{
    let slots = ring_after(history, capacity);
    lemma_ring_len(history, capacity);
    let start: nat = window_begin(history.len(), capacity);
    let read = window_read(slots, history.len());
    let recent = history.subrange(start as int, history.len() as int);
    assert forall|i: int| 0 <= i < read.len() implies read[i] == recent[i] by {
        lemma_ring_holds_recent(history, capacity, start + i);
    }
    assert(read =~= recent);
}

/// Filtering keeps a sequence none of whose elements it rejects.
proof fn lemma_filter_keeps_all(s: Seq<u64>, pred: spec_fn(u64) -> bool)
    requires
        forall|i: int| 0 <= i < s.len() ==> pred(#[trigger] s[i]),
    ensures
        s.filter(pred) == s,
    decreases s.len(),
{
    if s.len() > 0 {
        let prev = s.drop_last();
        lemma_filter_keeps_all(prev, pred);
        prev.lemma_filter_push(s.last(), pred);
        assert(prev.push(s.last()) =~= s);
    }
}

/// The read of a single writer's ring, sentinels dropped, is exactly the
/// last `min(len, capacity)` accepted samples: no accepted sample is NaN,
/// so none is mistaken for an empty slot.
pub proof fn law_live_window_is_most_recent(inputs: Seq<u64>, capacity: nat)
    requires
        capacity > 0,
    ensures
        live_window(ring_after(accepted(inputs), capacity), accepted(inputs).len())
            == accepted(inputs).subrange(
            window_begin(accepted(inputs).len(), capacity) as int,
            accepted(inputs).len() as int,
        ),
{
    let history = accepted(inputs);
    let pred = |bits: u64| !is_nan(bits);
    law_window_is_most_recent(history, capacity);
    let start: nat = window_begin(history.len(), capacity);
    let recent = history.subrange(start as int, history.len() as int);
    assert forall|i: int| 0 <= i < recent.len() implies live_pred()(#[trigger] recent[i]) by {
        inputs.lemma_filter_pred(pred, start + i);
        assert(!is_nan(history[start + i]));
    }
    lemma_filter_keeps_all(recent, live_pred());
}

/// Recording a NaN is a no-op: it adds nothing to the accepted history,
/// while any other value is appended to it.
pub proof fn law_nan_is_rejected(inputs: Seq<u64>, bits: u64)
    ensures
        is_nan(bits) ==> accepted(inputs.push(bits)) == accepted(inputs),
        !is_nan(bits) ==> accepted(inputs.push(bits)) == accepted(inputs).push(bits),
{
    inputs.lemma_filter_push(bits, |b: u64| !is_nan(b));
}

/// The window's size never exceeds the capacity and never shrinks as
/// records accumulate: `min(end, capacity)` is capped and monotone in `end`.
pub proof fn law_count_is_capped_and_monotone(earlier: nat, later: nat, capacity: nat)
    requires
        earlier <= later,
    ensures
        window_size(later, capacity) <= capacity,
        window_size(earlier, capacity) <= window_size(later, capacity),
        later <= capacity ==> window_size(later, capacity) == later,
{
}

/// The empty-slot sentinel can never be mistaken for a sample: it is a NaN,
/// and NaN values are never accepted.
pub proof fn law_sentinel_is_never_accepted(inputs: Seq<u64>)
    ensures
        is_nan(NAN_BITS),
        !accepted(inputs).contains(NAN_BITS),
{
    let pred = |bits: u64| !is_nan(bits);
    if accepted(inputs).contains(NAN_BITS) {
        let i: int = choose|i: int| 0 <= i < accepted(inputs).len() && accepted(inputs)[i] == NAN_BITS;
        inputs.lemma_filter_pred(pred, i);
    }
}

} // verus!
