//! A counter of CPU time that is spent by a varying number of threads.

use vstd::prelude::*;

verus! {

/// What a counter holds: the CPU time up to the last update, the time of that update (zero before
/// the first), and the number of threads that are running since.
pub ghost struct CounterView {
    pub aggregate: nat,
    pub last: nat,
    pub threads: nat,
}

/// A counter that was never updated.
pub open spec fn fresh_counter() -> CounterView {
    CounterView { aggregate: 0, last: 0, threads: 0 }
}

impl CounterView {
    /// The CPU time at the given time: before the first update nothing accrues, afterwards each
    /// running thread adds the time since the last update.
    pub open spec fn time_at(self, timestamp: nat) -> int {
        if self.last > 0 {
            self.aggregate + (timestamp - self.last) * self.threads
        } else {
            self.aggregate as int
        }
    }

    /// The counter after an update at the given time.
    pub open spec fn updated(self, timestamp: nat) -> CounterView {
        CounterView { aggregate: self.time_at(timestamp) as nat, last: timestamp, ..self }
    }

    /// The counter with that many threads more.
    pub open spec fn with_more(self, threads: int) -> CounterView {
        CounterView { threads: (self.threads + threads) as nat, ..self }
    }

    /// Whether the fields fit the machine integers that hold them.
    pub open spec fn fits(self) -> bool {
        self.aggregate <= u64::MAX && self.last <= u64::MAX && self.threads <= u32::MAX
    }
}

/// CPU time counter for tracking aggregate CPU time and thread counts.
#[derive(Debug, Clone)]
pub struct CpuTimeCounter {
    pub aggregate_cpu_time: u64,
    pub last_update_timestamp: u64,
    pub current_thread_count: u32,
}

impl View for CpuTimeCounter {
    type V = CounterView;

    open spec fn view(&self) -> CounterView {
        CounterView {
            aggregate: self.aggregate_cpu_time as nat,
            last: self.last_update_timestamp as nat,
            threads: self.current_thread_count as nat,
        }
    }
}

impl CpuTimeCounter {
    /// Creates a counter without threads that was never updated.
    pub fn new() -> (r: CpuTimeCounter)
        ensures
            r@ == fresh_counter(),
    {
        CpuTimeCounter {
            aggregate_cpu_time: 0,
            last_update_timestamp: 0,
            current_thread_count: 0,
        }
    }

    /// Increments the current thread count.
    pub fn increase(&mut self)
        requires
            old(self).current_thread_count < u32::MAX,
        ensures
            final(self)@ == old(self)@.with_more(1),
    {
        self.current_thread_count = self.current_thread_count + 1;
    }

    /// Decrements the current thread count.
    pub fn decrease(&mut self)
        requires
            old(self).current_thread_count > 0,
        ensures
            final(self)@ == old(self)@.with_more(-1),
    {
        self.current_thread_count = self.current_thread_count - 1;
    }

    /// Adds the CPU time since the last update. The time must not run backwards, and the sum must
    /// fit.
    pub fn update(&mut self, timestamp: u64)
        requires
            old(self)@.last <= timestamp,
            old(self)@.time_at(timestamp as nat) <= u64::MAX,
        ensures
            final(self)@ == old(self)@.updated(timestamp as nat),
    {
        if self.last_update_timestamp > 0 {
            let elapsed_time: u64 = timestamp - self.last_update_timestamp;
            let threads: u64 = self.current_thread_count as u64;
            proof {
                vstd::arithmetic::mul::lemma_mul_nonnegative(elapsed_time as int, threads as int);
            }
            self.aggregate_cpu_time = self.aggregate_cpu_time + elapsed_time * threads;
        }
        self.last_update_timestamp = timestamp;
    }

    /// The CPU time that an update at the given time would show.
    pub fn ns_at(&self, timestamp: u64) -> (r: u128)
        requires
            self@.last <= timestamp,
        ensures
            r == self@.time_at(timestamp as nat),
    {
        if self.last_update_timestamp == 0 {
            return self.aggregate_cpu_time as u128;
        }
        let elapsed_time: u128 = (timestamp - self.last_update_timestamp) as u128;
        let threads: u128 = self.current_thread_count as u128;
        proof {
            assert(elapsed_time * threads <= 0xffff_ffff_ffff_ffff * 0xffff_ffff)
                by (nonlinear_arith)
                requires
                    elapsed_time <= 0xffff_ffff_ffff_ffff,
                    threads <= 0xffff_ffff,
            ;
            vstd::arithmetic::mul::lemma_mul_nonnegative(elapsed_time as int, threads as int);
        }
        self.aggregate_cpu_time as u128 + elapsed_time * threads
    }

    /// The aggregate CPU time in nanoseconds.
    pub fn get_ns(&self) -> (r: u64)
        ensures
            r == self@.aggregate,
    {
        self.aggregate_cpu_time
    }
}

/// CPU time never decreases as time goes on.
pub proof fn law_update_is_monotone(c: CounterView, timestamp: nat)
    requires
        c.last <= timestamp,
    ensures
        c.updated(timestamp).aggregate >= c.aggregate,
        c.updated(timestamp).aggregate == c.time_at(timestamp),
{
    vstd::arithmetic::mul::lemma_mul_nonnegative(timestamp - c.last, c.threads as int);
}

/// A second update at the same time changes nothing.
pub proof fn law_update_is_idempotent(c: CounterView, timestamp: nat)
    requires
        c.last <= timestamp,
    ensures
        c.updated(timestamp).updated(timestamp) == c.updated(timestamp),
{
    law_update_is_monotone(c, timestamp);
    assert((timestamp - timestamp) * c.threads == 0) by (nonlinear_arith);
}

/// An update in between changes nothing: what a counter shows depends on the last update alone.
pub proof fn law_updates_compose(c: CounterView, between: nat, timestamp: nat)
    requires
        c.last <= between <= timestamp,
        c.last > 0,
    ensures
        c.updated(between).updated(timestamp) == c.updated(timestamp),
{
    law_update_is_monotone(c, between);
    law_update_is_monotone(c, timestamp);
    law_update_is_monotone(c.updated(between), timestamp);
    assert((timestamp - c.last) * c.threads == (between - c.last) * c.threads + (timestamp - between)
        * c.threads) by (nonlinear_arith);
}

}
