//! The timer peripheral: a free-running 64-bit counter read as two 32-bit
//! halves, and one 32-bit comparator per alarm line.
//!
//! The block is modelled in memory so that the driver's logic can run and be
//! checked against it. Time may pass during each register read: the block
//! holds the ticks that elapse during each of its reads, by read number, so a
//! read can see any later counter value, a carry between the reads of the
//! two halves included. Once those run out, no time passes during reads.

use vstd::prelude::*;
use vstd::arithmetic::div_mod::{lemma_div_is_ordered, lemma_fundamental_div_mod};

verus! {

/// Number of hardware alarm lines, and so of comparators.
pub const ALARM_COUNT: usize = 4;

/// 2^32: the weight of the high half of the counter.
pub open spec fn half_base() -> int {
    0x1_0000_0000
}

/// The high 32 bits of a counter value.
pub open spec fn high_half(t: u64) -> u32 {
    (t as int / half_base()) as u32
}

/// The low 32 bits of a counter value.
pub open spec fn low_half(t: u64) -> u32 {
    (t as int % half_base()) as u32
}

/// The counter `d` ticks after `t`; it stops at the largest value.
pub open spec fn advance(t: u64, d: u64) -> u64 {
    if t as int + d as int > u64::MAX as int {
        u64::MAX
    } else {
        (t + d) as u64
    }
}

/// What is left of `s` after its first `i` entries.
pub open spec fn tail(s: Seq<u64>, i: nat) -> Seq<u64> {
    if i <= s.len() {
        s.subrange(i as int, s.len() as int)
    } else {
        Seq::empty()
    }
}

/// What the register block holds.
pub ghost struct RegsView {
    /// Current value of the free-running counter.
    pub counter: u64,
    /// The ticks that elapse during each of the coming register reads, in
    /// order; once they run out, no time passes during reads.
    pub drift: Seq<u64>,
    /// Comparator value of each line.
    pub alarm: Seq<u32>,
    /// Whether each comparator is armed.
    pub armed: Seq<bool>,
    /// Whether each line has an interrupt pending.
    pub pending: Seq<bool>,
    /// Whether each line's interrupt is enabled.
    pub enabled: Seq<bool>,
}

impl RegsView {
    /// Each per-line register holds one entry per alarm line.
    pub open spec fn wf(self) -> bool {
        &&& self.alarm.len() == ALARM_COUNT
        &&& self.armed.len() == ALARM_COUNT
        &&& self.pending.len() == ALARM_COUNT
        &&& self.enabled.len() == ALARM_COUNT
    }

    /// The ticks that elapse during the `i`-th coming read, counting from 0.
    pub open spec fn drift_of(self, i: nat) -> u64 {
        if i < self.drift.len() {
            self.drift[i as int]
        } else {
            0
        }
    }

    /// The counter after `k` more register reads.
    pub open spec fn later(self, k: nat) -> u64
        decreases k,
    {
        if k == 0 {
            self.counter
        } else {
            advance(self.later((k - 1) as nat), self.drift_of((k - 1) as nat))
        }
    }

    /// The block after one more register read.
    pub open spec fn read_once(self) -> RegsView {
        RegsView { counter: self.later(1), drift: tail(self.drift, 1), ..self }
    }

    /// `after` differs from `self` at most in the counter and the drift.
    pub open spec fn only_time_passed(self, after: RegsView) -> bool {
        &&& after.alarm == self.alarm
        &&& after.armed == self.armed
        &&& after.pending == self.pending
        &&& after.enabled == self.enabled
    }

    /// A tear-free read of the clock, going from `self` to `after`, returned
    /// `t`. The reads come in rounds of three: high, low, high. `t` is what
    /// the counter held at the low read of the first round whose two high
    /// reads agree, `k` reads in. Each earlier round saw the high half move
    /// on, so with at most one carry during the call at most six reads are
    /// made.
    pub open spec fn reads_now(self, after: RegsView, t: u64) -> bool {
        &&& self.only_time_passed(after)
        &&& exists|k: nat|
            {
                &&& t == #[trigger] self.later(k)
                &&& after.counter == self.later(k + 2)
                &&& after.drift == tail(self.drift, k + 2)
                &&& k % 3 == 1
                &&& high_half(self.later((k - 1) as nat)) == high_half(self.later(k + 1))
                &&& forall|j: nat|
                    3 * j + 1 < k ==> high_half(#[trigger] self.later(3 * j)) != high_half(self.later(3 * j + 2))
                &&& k + 2 <= 3 * (high_half(after.counter) - high_half(self.counter) + 1)
            }
    }
}

/// The timer peripheral.
pub struct TimerRegs {
    counter: u64,
    drift: Vec<u64>,
    next: usize,
    alarm: Vec<u32>,
    armed: Vec<bool>,
    pending: Vec<bool>,
    enabled: Vec<bool>,
}

impl View for TimerRegs {
    type V = RegsView;

    closed spec fn view(&self) -> RegsView {
        RegsView {
            counter: self.counter,
            drift: tail(self.drift@, self.next as nat),
            alarm: self.alarm@,
            armed: self.armed@,
            pending: self.pending@,
            enabled: self.enabled@,
        }
    }
}

proof fn lemma_high_half_ordered(a: u64, b: u64)
    requires
        a <= b,
    ensures
        high_half(a) <= high_half(b),
{
    lemma_div_is_ordered(a as int, b as int, half_base());
}

proof fn lemma_later_grows(v: RegsView, i: nat, j: nat)
    requires
        i <= j,
    ensures
        v.later(i) <= v.later(j),
    decreases j,
{
    if i < j {
        lemma_later_grows(v, i, (j - 1) as nat);
    }
}

proof fn lemma_read_after(v: RegsView, m: nat)
    ensures
        (RegsView { counter: v.later(m), drift: tail(v.drift, m), ..v }).read_once() == (RegsView {
            counter: v.later(m + 1),
            drift: tail(v.drift, m + 1),
            ..v
        }),
{
    let w = RegsView { counter: v.later(m), drift: tail(v.drift, m), ..v };
    assert(w.later(0) == v.later(m));
    assert(w.drift_of(0) == v.drift_of(m));
    assert(tail(w.drift, 1) =~= tail(v.drift, m + 1));
}

/// Reads of the clock never go back: a read that follows another returns
/// at least as much.
pub proof fn lemma_now_monotone(a: RegsView, b: RegsView, c: RegsView, r1: u64, r2: u64)
    requires
        a.reads_now(b, r1),
        b.reads_now(c, r2),
    ensures
        r1 <= r2,
{
    let k1 = choose|k: nat|
        {
            &&& r1 == #[trigger] a.later(k)
            &&& b.counter == a.later(k + 2)
            &&& b.drift == tail(a.drift, k + 2)
            &&& k % 3 == 1
            &&& high_half(a.later((k - 1) as nat)) == high_half(a.later(k + 1))
            &&& forall|j: nat|
                3 * j + 1 < k ==> high_half(#[trigger] a.later(3 * j)) != high_half(a.later(3 * j + 2))
            &&& k + 2 <= 3 * (high_half(b.counter) - high_half(a.counter) + 1)
        };
    let k2 = choose|k: nat|
        {
            &&& r2 == #[trigger] b.later(k)
            &&& c.counter == b.later(k + 2)
            &&& c.drift == tail(b.drift, k + 2)
            &&& k % 3 == 1
            &&& high_half(b.later((k - 1) as nat)) == high_half(b.later(k + 1))
            &&& forall|j: nat|
                3 * j + 1 < k ==> high_half(#[trigger] b.later(3 * j)) != high_half(b.later(3 * j + 2))
            &&& k + 2 <= 3 * (high_half(c.counter) - high_half(b.counter) + 1)
        };
    lemma_later_grows(a, k1, k1 + 2);
    lemma_later_grows(b, 0, k2);
}

/// Joins the two halves of a counter value.
pub fn join_halves(hi: u32, lo: u32) -> (r: u64)
    ensures
        r as int == hi as int * half_base() + lo as int,
        high_half(r) == hi,
        low_half(r) == lo,
{
    let r: u64 = (hi as u64) << 32 | (lo as u64);
    assert(r == (hi as u64) * 0x1_0000_0000u64 + (lo as u64)) by (bit_vector)
        requires
            r == (hi as u64) << 32 | (lo as u64),
    ;
    assert(hi as int * half_base() + lo as int <= u64::MAX as int) by (nonlinear_arith)
        requires
            hi <= u32::MAX,
            lo <= u32::MAX,
    ;
    assert(r as int == hi as int * half_base() + lo as int);
    assert(high_half(r) == hi && low_half(r) == lo) by (nonlinear_arith)
        requires
            r as int == hi as int * 0x1_0000_0000 + lo as int,
            lo < 0x1_0000_0000,
            high_half(r) == (r as int / 0x1_0000_0000) as u32,
            low_half(r) == (r as int % 0x1_0000_0000) as u32,
            hi <= u32::MAX,
    ;
    r
}

/// The low half of `t`, which is what a comparator holds of a deadline.
pub fn low_bits(t: u64) -> (r: u32)
    ensures
        r == low_half(t),
{
    assert((t & 0xFFFF_FFFFu64) == t % 0x1_0000_0000u64) by (bit_vector);
    (t & 0xFFFF_FFFFu64) as u32
}

impl TimerRegs {
    /// A register block whose counter starts at `start`, with `drift[i]`
    /// ticks elapsing during read number `i`; every comparator is disarmed,
    /// with nothing pending and every line disabled.
    pub fn new(start: u64, drift: Vec<u64>) -> (r: TimerRegs)
        ensures
            r@.wf(),
            r@.counter == start,
            r@.drift == drift@,
            r@.alarm == Seq::new(ALARM_COUNT as nat, |i: int| 0u32),
            r@.armed == Seq::new(ALARM_COUNT as nat, |i: int| false),
            r@.pending == Seq::new(ALARM_COUNT as nat, |i: int| false),
            r@.enabled == Seq::new(ALARM_COUNT as nat, |i: int| false),
    {
        let r = TimerRegs {
            counter: start,
            drift,
            next: 0,
            alarm: vec![0u32; ALARM_COUNT],
            armed: vec![false; ALARM_COUNT],
            pending: vec![false; ALARM_COUNT],
            enabled: vec![false; ALARM_COUNT],
        };
        assert(r@.alarm =~= Seq::new(ALARM_COUNT as nat, |i: int| 0u32));
        assert(r@.armed =~= Seq::new(ALARM_COUNT as nat, |i: int| false));
        assert(r@.pending =~= Seq::new(ALARM_COUNT as nat, |i: int| false));
        assert(r@.enabled =~= Seq::new(ALARM_COUNT as nat, |i: int| false));
        assert(r@.drift =~= drift@);
        r
    }

    fn tick(&mut self)
        ensures
            final(self)@ == old(self)@.read_once(),
    {
        let ghost before = self@;
        assert(before.later(1) == advance(before.counter, before.drift_of(0))) by {
            reveal_with_fuel(RegsView::later, 2);
        }
        if self.next < self.drift.len() {
            assert(before.drift_of(0) == self.drift@[self.next as int]);
            self.counter = self.counter.saturating_add(self.drift[self.next]);
            self.next = self.next + 1;
            assert(tail(self.drift@, self.next as nat) =~= tail(old(self)@.drift, 1));
        } else {
            assert(tail(old(self)@.drift, 1) =~= old(self)@.drift);
        }
    }

    /// Reads the high half of the counter.
    fn read_high(&mut self) -> (r: u32)
        ensures
            r == high_half(old(self)@.counter),
            final(self)@ == old(self)@.read_once(),
    {
        let r = (self.counter >> 32) as u32;
        assert(r == high_half(self.counter)) by {
            let c = self.counter;
            assert((c >> 32) == c / 0x1_0000_0000u64) by (bit_vector);
        }
        self.tick();
        r
    }

    /// Reads the low half of the counter.
    fn read_low(&mut self) -> (r: u32)
        ensures
            r == low_half(old(self)@.counter),
            final(self)@ == old(self)@.read_once(),
    {
        let r = low_bits(self.counter);
        self.tick();
        r
    }

    /// The current tick count, without a torn read: reads high, low and high
    /// again, and starts over until both reads of the high half agree.
    pub fn now(&mut self) -> (r: u64)
        requires
            old(self)@.wf(),
        ensures
            final(self)@.wf(),
            old(self)@.reads_now(final(self)@, r),
    {
        let ghost start = self@;
        let ghost mut rounds: nat = 0;
        assert(tail(start.drift, 0) =~= start.drift);
        assert(start.later(0) == start.counter);
        loop
            invariant
                self@.wf(),
                start == old(self)@,
                start.only_time_passed(self@),
                self@ == (RegsView { counter: start.later(3 * rounds), drift: tail(start.drift, 3 * rounds), ..start }),
                rounds + high_half(start.counter) <= high_half(self@.counter),
                forall|j: nat| j < rounds ==> high_half(#[trigger] start.later(3 * j)) != high_half(start.later(3 * j + 2)),
            decreases half_base() - high_half(self@.counter),
        {
            let ghost m = 3 * rounds;
            proof {
                lemma_read_after(start, m);
                lemma_read_after(start, m + 1);
                lemma_read_after(start, m + 2);
            }
            let hi = self.read_high();
            let lo = self.read_low();
            let hi2 = self.read_high();
            let ghost c0 = start.later(m);
            let ghost c1 = start.later(m + 1);
            let ghost c2 = start.later(m + 2);
            proof {
                lemma_later_grows(start, m, m + 1);
                lemma_later_grows(start, m + 1, m + 2);
                lemma_later_grows(start, m + 2, m + 3);
                lemma_high_half_ordered(c0, c1);
                lemma_high_half_ordered(c1, c2);
                lemma_high_half_ordered(c2, self@.counter);
            }
            if hi == hi2 {
                let r = join_halves(hi, lo);
                proof {
                    lemma_fundamental_div_mod(c1 as int, half_base());
                    assert(r == c1);
                    assert(start.later(m + 1) == r);
                    assert(((m + 1) - 1) as nat == m);
                    assert forall|j: nat| 3 * j + 1 < m + 1 implies high_half(#[trigger] start.later(3 * j))
                        != high_half(start.later(3 * j + 2)) by {
                        assert(j < rounds);
                    }
                }
                return r;
            }
            proof {
                assert(hi == high_half(start.later(3 * rounds)));
                assert(hi2 == high_half(start.later(3 * rounds + 2)));
                rounds = rounds + 1;
            }
        }
    }

    /// Lets time pass until the counter reads `t`.
    pub fn advance_to(&mut self, t: u64)
        requires
            old(self)@.counter <= t,
        ensures
            final(self)@ == (RegsView { counter: t, ..old(self)@ }),
    {
        self.counter = t;
    }

    /// Writes comparator `n`, which arms it.
    pub fn write_alarm(&mut self, n: usize, value: u32)
        requires
            old(self)@.wf(),
            n < ALARM_COUNT,
        ensures
            final(self)@ == (RegsView {
                alarm: old(self)@.alarm.update(n as int, value),
                armed: old(self)@.armed.update(n as int, true),
                ..old(self)@
            }),
    {
        self.alarm.set(n, value);
        self.armed.set(n, true);
    }

    /// Disarms comparator `n`; its value is kept.
    pub fn disarm(&mut self, n: usize)
        requires
            old(self)@.wf(),
            n < ALARM_COUNT,
        ensures
            final(self)@ == (RegsView { armed: old(self)@.armed.update(n as int, false), ..old(self)@ }),
    {
        self.armed.set(n, false);
    }

    /// Raises line `n`'s interrupt, as a comparator match does.
    pub fn raise(&mut self, n: usize)
        requires
            old(self)@.wf(),
            n < ALARM_COUNT,
        ensures
            final(self)@ == (RegsView { pending: old(self)@.pending.update(n as int, true), ..old(self)@ }),
    {
        self.pending.set(n, true);
    }

    /// Clears line `n`'s pending interrupt.
    pub fn acknowledge(&mut self, n: usize)
        requires
            old(self)@.wf(),
            n < ALARM_COUNT,
        ensures
            final(self)@ == (RegsView { pending: old(self)@.pending.update(n as int, false), ..old(self)@ }),
    {
        self.pending.set(n, false);
    }

    /// Enables line `n`'s interrupt.
    pub fn enable(&mut self, n: usize)
        requires
            old(self)@.wf(),
            n < ALARM_COUNT,
        ensures
            final(self)@ == (RegsView { enabled: old(self)@.enabled.update(n as int, true), ..old(self)@ }),
    {
        self.enabled.set(n, true);
    }

    /// The counter's value, as seen from outside the clock reader.
    pub fn counter(&self) -> (r: u64)
        ensures
            r == self@.counter,
    {
        self.counter
    }

    /// Comparator `n`'s value.
    pub fn alarm(&self, n: usize) -> (r: u32)
        requires
            self@.wf(),
            n < ALARM_COUNT,
        ensures
            r == self@.alarm[n as int],
    {
        self.alarm[n]
    }

    /// Whether comparator `n` is armed.
    pub fn is_armed(&self, n: usize) -> (r: bool)
        requires
            self@.wf(),
            n < ALARM_COUNT,
        ensures
            r == self@.armed[n as int],
    {
        self.armed[n]
    }

    /// Whether line `n` has an interrupt pending.
    pub fn is_pending(&self, n: usize) -> (r: bool)
        requires
            self@.wf(),
            n < ALARM_COUNT,
        ensures
            r == self@.pending[n as int],
    {
        self.pending[n]
    }

    /// Whether line `n`'s interrupt is enabled.
    pub fn is_enabled(&self, n: usize) -> (r: bool)
        requires
            self@.wf(),
            n < ALARM_COUNT,
        ensures
            r == self@.enabled[n as int],
    {
        self.enabled[n]
    }
}

} // verus!
