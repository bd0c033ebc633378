//! The time driver: a monotonic clock and a fixed pool of one-shot alarms
//! multiplexed onto the peripheral's comparators.
//!
//! Every operation takes the driver by `&mut`, so each slot's
//! read-modify-write runs with exclusive access, as it would with interrupts
//! masked. Firing an alarm hands its callback back to the caller, who runs it
//! once the operation has returned; the slot is already reset by then, so the
//! callback may arm the same alarm again. An interrupt service is
//! `check_alarm`, then the callback, then `acknowledge`.

use vstd::prelude::*;
use crate::regs::{ALARM_COUNT, RegsView, TimerRegs, low_bits, low_half};

verus! {

/// The deadline of a slot with no alarm pending.
pub const NO_ALARM: u64 = u64::MAX;

/// Identifies one alarm slot; only `allocate_alarm` makes one.
#[derive(Clone, Copy, Debug, PartialEq, Eq)]
pub struct AlarmHandle {
    id: u8,
}

impl View for AlarmHandle {
    type V = nat;

    closed spec fn view(&self) -> nat {
        self.id as nat
    }
}

impl AlarmHandle {
    /// The index of the slot this handle stands for.
    pub fn id(&self) -> (r: u8)
        ensures
            r as nat == self@,
    {
        self.id
    }
}

/// What the driver holds.
pub ghost struct DriverView<C> {
    /// The peripheral.
    pub regs: RegsView,
    /// Each slot's deadline, `NO_ALARM` when nothing is pending.
    pub deadlines: Seq<u64>,
    /// Each slot's callback, if one is registered.
    pub callbacks: Seq<Option<C>>,
    /// How many handles have been issued.
    pub next_alarm: nat,
}

impl<C> DriverView<C> {
    pub open spec fn wf(self) -> bool {
        &&& self.regs.wf()
        &&& self.deadlines.len() == ALARM_COUNT
        &&& self.callbacks.len() == ALARM_COUNT
        &&& self.next_alarm <= ALARM_COUNT
    }

    /// `h` was issued by this driver.
    pub open spec fn issued(self, h: AlarmHandle) -> bool {
        h@ < self.next_alarm
    }

    /// Slot `n` fired, going from `self` to `after`: its comparator was
    /// disarmed, its deadline reset, and its callback, `r`, is to be run.
    pub open spec fn fired(self, after: DriverView<C>, n: int, r: Option<C>) -> bool {
        &&& after.regs.armed == self.regs.armed.update(n, false)
        &&& after.deadlines == self.deadlines.update(n, NO_ALARM)
        &&& r == self.callbacks[n]
    }

    /// Line `n`'s interrupt was acknowledged, and nothing else changed.
    pub open spec fn acknowledged(self, after: DriverView<C>, n: int) -> bool {
        after == DriverView::<C> {
            regs: RegsView { pending: self.regs.pending.update(n, false), ..self.regs },
            ..self
        }
    }

    /// The result of `allocate_alarm`.
    pub open spec fn allocated(self, after: DriverView<C>, r: Option<AlarmHandle>) -> bool {
        if self.next_alarm < ALARM_COUNT {
            &&& r is Some
            &&& r.unwrap()@ == self.next_alarm
            &&& after == DriverView::<C> { next_alarm: self.next_alarm + 1, ..self }
        } else {
            &&& r is None
            &&& after == self
        }
    }

    /// The result of `set_alarm(h, timestamp)`, where `t` is the time it read.
    ///
    /// The deadline is stored and the comparator written with its low half,
    /// which arms it; then the clock is read. A deadline not after `t` has
    /// already passed, so the slot fires at once; otherwise it stays armed
    /// and nothing is handed back.
    pub open spec fn armed_at(
        self,
        after: DriverView<C>,
        h: AlarmHandle,
        timestamp: u64,
        t: u64,
        r: Option<C>,
    ) -> bool {
        let n = h@ as int;
        let written = RegsView {
            alarm: self.regs.alarm.update(n, low_half(timestamp)),
            armed: self.regs.armed.update(n, true),
            ..self.regs
        };
        &&& written.reads_now(RegsView { armed: written.armed, ..after.regs }, t)
        &&& after.callbacks == self.callbacks
        &&& after.next_alarm == self.next_alarm
        &&& if timestamp <= t {
            DriverView::<C> { regs: written, deadlines: self.deadlines.update(n, timestamp), ..self }.fired(
                after,
                n,
                r,
            )
        } else {
            &&& after.regs.armed == written.armed
            &&& after.deadlines == self.deadlines.update(n, timestamp)
            &&& r is None
        }
    }

    /// The result of the interrupt service for line `n`, where `t` is the
    /// time it read.
    ///
    /// A deadline not after `t` fires the slot. A later one means that the
    /// comparator matched on the low half alone, ahead of time: it is armed
    /// again with the same low half and the deadline kept. The line's
    /// interrupt is left pending: it is acknowledged once any callback has
    /// returned.
    pub open spec fn serviced_at(self, after: DriverView<C>, n: int, t: u64, r: Option<C>) -> bool {
        let deadline = self.deadlines[n];
        &&& after.callbacks == self.callbacks
        &&& after.next_alarm == self.next_alarm
        &&& if deadline <= t {
            &&& self.regs.reads_now(RegsView { armed: self.regs.armed, ..after.regs }, t)
            &&& self.fired(after, n, r)
        } else {
            &&& self.regs.reads_now(
                RegsView { alarm: self.regs.alarm, armed: self.regs.armed, ..after.regs },
                t,
            )
            &&& after.regs.alarm == self.regs.alarm.update(n, low_half(deadline))
            &&& after.regs.armed == self.regs.armed.update(n, true)
            &&& after.deadlines == self.deadlines
            &&& r is None
        }
    }
}

/// The time driver over a timer peripheral; `C` is what a callback is, a
/// function together with its context.
pub struct TimerDriver<C> {
    regs: TimerRegs,
    deadlines: Vec<u64>,
    callbacks: Vec<Option<C>>,
    next_alarm: u8,
}

impl<C> View for TimerDriver<C> {
    type V = DriverView<C>;

    closed spec fn view(&self) -> DriverView<C> {
        DriverView {
            regs: self.regs@,
            deadlines: self.deadlines@,
            callbacks: self.callbacks@,
            next_alarm: self.next_alarm as nat,
        }
    }
}

/// Brings the driver up: every slot reads as having no alarm pending and no
/// callback before any alarm line's interrupt is enabled; then all lines are
/// enabled.
pub fn init<C>(regs: TimerRegs) -> (r: TimerDriver<C>)
    requires
        regs@.wf(),
    ensures
        r@.wf(),
        r@.regs == (RegsView { enabled: Seq::new(ALARM_COUNT as nat, |i: int| true), ..regs@ }),
        r@.deadlines == Seq::new(ALARM_COUNT as nat, |i: int| NO_ALARM),
        r@.callbacks == Seq::new(ALARM_COUNT as nat, |i: int| None::<C>),
        r@.next_alarm == 0,
{
    let mut deadlines: Vec<u64> = Vec::new();
    let mut callbacks: Vec<Option<C>> = Vec::new();
    let mut i: usize = 0;
    while i < ALARM_COUNT
        invariant
            i <= ALARM_COUNT,
            deadlines@ == Seq::new(i as nat, |j: int| NO_ALARM),
            callbacks@ == Seq::new(i as nat, |j: int| None::<C>),
        decreases ALARM_COUNT - i,
    {
        deadlines.push(NO_ALARM);
        callbacks.push(None);
        i = i + 1;
        assert(deadlines@ =~= Seq::new(i as nat, |j: int| NO_ALARM));
        assert(callbacks@ =~= Seq::new(i as nat, |j: int| None::<C>));
    }
    let ghost start = regs@;
    let mut regs = regs;
    let mut n: usize = 0;
    assert(start.enabled =~= Seq::new(ALARM_COUNT as nat, |j: int| j < 0 || start.enabled[j]));
    while n < ALARM_COUNT
        invariant
            n <= ALARM_COUNT,
            regs@.wf(),
            regs@ == (RegsView {
                enabled: Seq::new(ALARM_COUNT as nat, |j: int| j < n || start.enabled[j]),
                ..start
            }),
        decreases ALARM_COUNT - n,
    {
        regs.enable(n);
        n = n + 1;
        assert(regs@.enabled =~= Seq::new(ALARM_COUNT as nat, |j: int| j < n || start.enabled[j]));
    }
    assert(regs@.enabled =~= Seq::new(ALARM_COUNT as nat, |i: int| true));
    TimerDriver { regs, deadlines, callbacks, next_alarm: 0 }
}

impl<C: Copy> TimerDriver<C> {
    /// The current tick count.
    pub fn now(&mut self) -> (r: u64)
        requires
            old(self)@.wf(),
        ensures
            final(self)@ == (DriverView { regs: final(self)@.regs, ..old(self)@ }),
            old(self)@.regs.reads_now(final(self)@.regs, r),
    {
        self.regs.now()
    }

    /// Issues the next free slot, in increasing order, or `None` once all
    /// `ALARM_COUNT` slots have been issued.
    pub fn allocate_alarm(&mut self) -> (r: Option<AlarmHandle>)
        requires
            old(self)@.wf(),
        ensures
            final(self)@.wf(),
            old(self)@.allocated(final(self)@, r),
    {
        if (self.next_alarm as usize) < ALARM_COUNT {
            let id = self.next_alarm;
            self.next_alarm = id + 1;
            Some(AlarmHandle { id })
        } else {
            None
        }
    }

    /// Registers the callback of `alarm`'s slot; nothing is armed.
    pub fn set_alarm_callback(&mut self, alarm: AlarmHandle, callback: C)
        requires
            old(self)@.wf(),
            old(self)@.issued(alarm),
        ensures
            final(self)@ == (DriverView {
                callbacks: old(self)@.callbacks.update(alarm@ as int, Some(callback)),
                ..old(self)@
            }),
    {
        let n = alarm.id as usize;
        self.callbacks.set(n, Some(callback));
    }

    /// Disarms slot `n`, resets its deadline, and hands back its callback.
    fn trigger_alarm(&mut self, n: usize) -> (r: Option<C>)
        requires
            old(self)@.wf(),
            n < ALARM_COUNT,
        ensures
            old(self)@.fired(final(self)@, n as int, r),
            final(self)@.regs == (RegsView { armed: final(self)@.regs.armed, ..old(self)@.regs }),
            final(self)@.callbacks == old(self)@.callbacks,
            final(self)@.next_alarm == old(self)@.next_alarm,
    {
        self.regs.disarm(n);
        self.deadlines.set(n, NO_ALARM);
        self.callbacks[n]
    }

    /// Sets `alarm`'s deadline and arms its comparator with the low half of
    /// it. When the deadline is not after the time read just afterwards, the
    /// alarm fires at once: its callback is handed back, to be run now.
    pub fn set_alarm(&mut self, alarm: AlarmHandle, timestamp: u64) -> (r: Option<C>)
        requires
            old(self)@.wf(),
            old(self)@.issued(alarm),
        ensures
            final(self)@.wf(),
            exists|t: u64| old(self)@.armed_at(final(self)@, alarm, timestamp, t, r),
    {
        let ghost start = self@;
        let n = alarm.id as usize;
        self.deadlines.set(n, timestamp);
        self.regs.write_alarm(n, low_bits(timestamp));
        let now = self.regs.now();
        let r = if timestamp <= now {
            self.trigger_alarm(n)
        } else {
            None
        };
        assert(start.armed_at(self@, alarm, timestamp, now, r));
        r
    }

    /// The interrupt service for line `n`: fires the slot if its deadline
    /// has passed, else re-arms the comparator with the same deadline (the
    /// comparator sees only its low half, so it may match early). The
    /// caller runs the callback handed back, if any, and then acknowledges
    /// the line with `acknowledge`, so that the callback may arm the alarm
    /// again before the line is cleared.
    pub fn check_alarm(&mut self, n: usize) -> (r: Option<C>)
        requires
            old(self)@.wf(),
            n < ALARM_COUNT,
        ensures
            final(self)@.wf(),
            exists|t: u64| old(self)@.serviced_at(final(self)@, n as int, t, r),
    {
        let ghost start = self@;
        let timestamp = self.deadlines[n];
        let now = self.regs.now();
        let r = if timestamp <= now {
            self.trigger_alarm(n)
        } else {
            self.regs.write_alarm(n, low_bits(timestamp));
            None
        };
        assert(start.serviced_at(self@, n as int, now, r));
        r
    }
    /// Acknowledges line `n`'s interrupt, the last step of its service.
    pub fn acknowledge(&mut self, n: usize)
        requires
            old(self)@.wf(),
            n < ALARM_COUNT,
        ensures
            old(self)@.acknowledged(final(self)@, n as int),
    {
        self.regs.acknowledge(n);
    }

    /// Slot `n`'s deadline.
    pub fn deadline(&self, n: usize) -> (r: u64)
        requires
            self@.wf(),
            n < ALARM_COUNT,
        ensures
            r == self@.deadlines[n as int],
    {
        self.deadlines[n]
    }

    /// Slot `n`'s callback.
    pub fn callback(&self, n: usize) -> (r: Option<C>)
        requires
            self@.wf(),
            n < ALARM_COUNT,
        ensures
            r == self@.callbacks[n as int],
    {
        self.callbacks[n]
    }

    /// How many handles have been issued.
    pub fn issued_count(&self) -> (r: u8)
        ensures
            r as nat == self@.next_alarm,
    {
        self.next_alarm
    }

    /// The peripheral.
    pub fn regs(&self) -> (r: &TimerRegs)
        ensures
            r@ == self@.regs,
    {
        &self.regs
    }

    /// Lets time pass until the counter reads `t`.
    pub fn advance_to(&mut self, t: u64)
        requires
            old(self)@.regs.counter <= t,
        ensures
            final(self)@ == (DriverView {
                regs: RegsView { counter: t, ..old(self)@.regs },
                ..old(self)@
            }),
    {
        self.regs.advance_to(t);
    }

    /// Raises line `n`'s interrupt, as a comparator match does.
    pub fn raise(&mut self, n: usize)
        requires
            old(self)@.wf(),
            n < ALARM_COUNT,
        ensures
            final(self)@ == (DriverView {
                regs: RegsView { pending: old(self)@.regs.pending.update(n as int, true), ..old(self)@.regs },
                ..old(self)@
            }),
    {
        self.regs.raise(n);
    }
}

proof fn lemma_issued_count<C>(states: Seq<DriverView<C>>, results: Seq<Option<AlarmHandle>>, k: int)
    requires
        states.len() == results.len() + 1,
        states[0].next_alarm == 0,
        forall|i: int| 0 <= i < results.len() ==> #[trigger] states[i].allocated(states[i + 1], results[i]),
        0 <= k < states.len(),
    ensures
        states[k].next_alarm == if k <= ALARM_COUNT { k as nat } else { ALARM_COUNT as nat },
    decreases k,
{
    if k > 0 {
        lemma_issued_count(states, results, k - 1);
        assert(states[k - 1].allocated(states[(k - 1) + 1], results[k - 1]));
    }
}

/// Any run of allocations from a fresh driver issues the slots `0, 1, ...`
/// in that order, each at most once, and `None` from the
/// `ALARM_COUNT + 1`-th call on.
pub proof fn lemma_allocation_unique<C>(states: Seq<DriverView<C>>, results: Seq<Option<AlarmHandle>>)
    requires
        states.len() == results.len() + 1,
        states[0].next_alarm == 0,
        forall|i: int| 0 <= i < results.len() ==> #[trigger] states[i].allocated(states[i + 1], results[i]),
    ensures
        forall|i: int|
            0 <= i < results.len() && i < ALARM_COUNT ==> (#[trigger] results[i]) is Some && results[i].unwrap()@
                == i,
        forall|i: int| ALARM_COUNT <= i < results.len() ==> (#[trigger] results[i]) is None,
        forall|i: int, j: int|
            0 <= i < j < results.len() && (#[trigger] results[i]) is Some && (#[trigger] results[j]) is Some
                ==> results[i].unwrap()@ < results[j].unwrap()@,
{
    assert forall|i: int| 0 <= i < results.len() implies {
        &&& i < ALARM_COUNT ==> (#[trigger] results[i]) is Some && results[i].unwrap()@ == i
        &&& i >= ALARM_COUNT ==> results[i] is None
    } by {
        lemma_issued_count(states, results, i);
        assert(states[i].allocated(states[i + 1], results[i]));
    }
}

/// A callback run for a slot that fired from `set_alarm` finds the slot
/// reset to no alarm pending, and arming the same alarm again from it
/// schedules the new deadline (or fires again if that has passed), leaving
/// the other slots as they were.
pub proof fn lemma_rearm_from_callback<C>(
    d0: DriverView<C>,
    d1: DriverView<C>,
    d2: DriverView<C>,
    h: AlarmHandle,
    first: u64,
    t1: u64,
    r1: Option<C>,
    second: u64,
    t2: u64,
    r2: Option<C>,
)
    requires
        d0.wf(),
        d0.issued(h),
        d0.armed_at(d1, h, first, t1, r1),
        first <= t1,
        d1.armed_at(d2, h, second, t2, r2),
    ensures
        d1.deadlines[h@ as int] == NO_ALARM,
        !d1.regs.armed[h@ as int],
        r1 == d0.callbacks[h@ as int],
        second > t2 ==> {
            &&& d2.deadlines[h@ as int] == second
            &&& d2.regs.armed[h@ as int]
            &&& d2.regs.alarm[h@ as int] == low_half(second)
            &&& r2 is None
        },
        second <= t2 ==> d2.deadlines[h@ as int] == NO_ALARM && r2 == d0.callbacks[h@ as int],
        forall|j: int| 0 <= j < ALARM_COUNT && j != h@ ==> d2.deadlines[j] == d0.deadlines[j],
{
}

/// A callback run for a slot that fired from its interrupt service finds
/// the slot disarmed and reset to no alarm pending; arming the same alarm
/// for a later time from it schedules that deadline, and the
/// acknowledgement that follows leaves it in place and clears the line.
pub proof fn lemma_rearm_during_service<C>(
    d0: DriverView<C>,
    d1: DriverView<C>,
    d2: DriverView<C>,
    d3: DriverView<C>,
    h: AlarmHandle,
    t1: u64,
    r1: Option<C>,
    deadline: u64,
    t2: u64,
    r2: Option<C>,
)
    requires
        d0.wf(),
        d0.issued(h),
        d0.serviced_at(d1, h@ as int, t1, r1),
        d0.deadlines[h@ as int] <= t1,
        d1.armed_at(d2, h, deadline, t2, r2),
        deadline > t2,
        d2.acknowledged(d3, h@ as int),
    ensures
        d1.deadlines[h@ as int] == NO_ALARM,
        !d1.regs.armed[h@ as int],
        r1 == d0.callbacks[h@ as int],
        r2 is None,
        d3.deadlines[h@ as int] == deadline,
        d3.regs.armed[h@ as int],
        d3.regs.alarm[h@ as int] == low_half(deadline),
        !d3.regs.pending[h@ as int],
        forall|j: int| 0 <= j < ALARM_COUNT && j != h@ ==> d3.deadlines[j] == d0.deadlines[j],
{
}

/// Firing a slot with no callback registered hands back nothing to run;
/// it only disarms the comparator and resets the deadline.
pub proof fn lemma_fire_without_callback<C>(d0: DriverView<C>, d1: DriverView<C>, n: int, t: u64, r: Option<C>)
    requires
        d0.wf(),
        0 <= n < ALARM_COUNT,
        d0.callbacks[n] is None,
        d0.serviced_at(d1, n, t, r),
        d0.deadlines[n] <= t,
    ensures
        r is None,
        !d1.regs.armed[n],
        d1.deadlines[n] == NO_ALARM,
        d1.callbacks == d0.callbacks,
{
}

} // verus!
