use rp_timer::driver::{init, AlarmHandle, TimerDriver, NO_ALARM};
use rp_timer::regs::{join_halves, low_bits, TimerRegs, ALARM_COUNT};

fn driver_at(start: u64) -> TimerDriver<u32> {
    init(TimerRegs::new(start, Vec::new()))
}

#[test]
fn halves_join_into_one_value() {
    assert_eq!(join_halves(0, 0), 0);
    assert_eq!(join_halves(1, 2), 0x1_0000_0002);
    assert_eq!(join_halves(0xFFFF_FFFF, 0xFFFF_FFFF), u64::MAX);
    assert_eq!(low_bits(0x1234_5678_9ABC_DEF0), 0x9ABC_DEF0);
}

#[test]
fn now_reads_a_still_counter() {
    let mut regs = TimerRegs::new(100, Vec::new());
    assert_eq!(regs.now(), 100);
    assert_eq!(regs.now(), 100);
    assert_eq!(regs.counter(), 100);
}

#[test]
fn now_is_not_torn_by_a_carry() {
    // The low half overflows between the two reads of the high half.
    let mut regs = TimerRegs::new(0xFFFF_FFFE, vec![1; 6]);
    let t = regs.now();
    assert_eq!(t, 0x1_0000_0002);
    assert_eq!(regs.counter(), 0x1_0000_0004);
}

#[test]
fn now_never_decreases() {
    let mut regs = TimerRegs::new(0xFFFF_F000, vec![0x700; 200]);
    let mut last = 0u64;
    for _ in 0..20 {
        let t = regs.now();
        assert!(t >= last);
        assert!(t <= regs.counter());
        last = t;
    }
}

#[test]
fn now_stops_at_the_largest_value() {
    let mut regs = TimerRegs::new(u64::MAX - 1, vec![5; 3]);
    assert_eq!(regs.now(), u64::MAX);
}

#[test]
fn init_resets_slots_and_enables_lines() {
    let d = driver_at(0);
    for n in 0..ALARM_COUNT {
        assert_eq!(d.deadline(n), NO_ALARM);
        assert_eq!(d.callback(n), None);
        assert!(d.regs().is_enabled(n));
        assert!(!d.regs().is_armed(n));
    }
    assert_eq!(d.issued_count(), 0);
}

#[test]
fn allocation_issues_each_slot_once_in_order() {
    let mut d = driver_at(0);
    let mut ids = Vec::new();
    for _ in 0..ALARM_COUNT {
        let h = d.allocate_alarm().unwrap();
        ids.push(h.id());
    }
    assert_eq!(ids, vec![0, 1, 2, 3]);
    assert_eq!(d.allocate_alarm(), None);
    assert_eq!(d.allocate_alarm(), None);
    assert_eq!(d.issued_count(), 4);
}

fn armed_driver(start: u64) -> (TimerDriver<u32>, AlarmHandle) {
    let mut d = driver_at(start);
    let h = d.allocate_alarm().unwrap();
    d.set_alarm_callback(h, 7);
    (d, h)
}

#[test]
fn callback_registration_arms_nothing() {
    let (d, h) = armed_driver(100);
    let n = h.id() as usize;
    assert_eq!(d.callback(n), Some(7));
    assert_eq!(d.deadline(n), NO_ALARM);
    assert!(!d.regs().is_armed(n));
}

#[test]
fn arm_in_the_past_fires_immediately() {
    let (mut d, h) = armed_driver(100);
    assert_eq!(d.set_alarm(h, 50), Some(7));
    assert_eq!(d.deadline(0), NO_ALARM);
    assert!(!d.regs().is_armed(0));
    assert_eq!(d.regs().alarm(0), 50);
}

#[test]
fn arm_at_now_fires_immediately() {
    let (mut d, h) = armed_driver(100);
    assert_eq!(d.set_alarm(h, 100), Some(7));
    assert_eq!(d.deadline(0), NO_ALARM);
}

#[test]
fn arm_in_the_future_defers() {
    let (mut d, h) = armed_driver(100);
    assert_eq!(d.set_alarm(h, 200), None);
    assert_eq!(d.deadline(0), 200);
    assert!(d.regs().is_armed(0));
    assert_eq!(d.regs().alarm(0), 200);

    d.advance_to(150);
    d.raise(0);
    assert_eq!(d.check_alarm(0), None);
    assert_eq!(d.deadline(0), 200);

    d.advance_to(200);
    d.raise(0);
    assert_eq!(d.check_alarm(0), Some(7));
    assert_eq!(d.deadline(0), NO_ALARM);
    assert!(!d.regs().is_armed(0));
    assert!(d.regs().is_pending(0));
    d.acknowledge(0);
    assert!(!d.regs().is_pending(0));
}

#[test]
fn early_interrupt_is_absorbed() {
    let (mut d, h) = armed_driver(100);
    let deadline = 0x1_0000_0000u64 + 100;
    assert_eq!(d.set_alarm(h, deadline), None);
    assert_eq!(d.regs().alarm(0), 100);
    // The comparator matches on the low half alone, 2^32 ticks early.
    d.raise(0);
    assert_eq!(d.check_alarm(0), None);
    assert_eq!(d.deadline(0), deadline);
    assert!(d.regs().is_armed(0));
    assert_eq!(d.regs().alarm(0), 100);
    assert!(d.regs().is_pending(0));
    d.acknowledge(0);
    assert!(!d.regs().is_pending(0));

    d.advance_to(deadline);
    d.raise(0);
    assert_eq!(d.check_alarm(0), Some(7));
    assert_eq!(d.deadline(0), NO_ALARM);
}

#[test]
fn callback_can_rearm_its_own_alarm() {
    let (mut d, h) = armed_driver(100);
    let fired = d.set_alarm(h, 90);
    assert_eq!(fired, Some(7));
    // What the callback sees while it runs, and what it does.
    assert_eq!(d.deadline(0), NO_ALARM);
    assert_eq!(d.set_alarm(h, 300), None);
    assert_eq!(d.deadline(0), 300);
    assert!(d.regs().is_armed(0));
    assert_eq!(d.regs().alarm(0), 300);
}

#[test]
fn firing_without_callback_only_disarms() {
    let mut d = driver_at(100);
    let h = d.allocate_alarm().unwrap();
    assert_eq!(d.set_alarm(h, 150), None);
    d.advance_to(150);
    d.raise(0);
    assert_eq!(d.check_alarm(0), None);
    assert_eq!(d.deadline(0), NO_ALARM);
    assert!(!d.regs().is_armed(0));
    assert_eq!(d.set_alarm(h, 10), None);
    assert_eq!(d.deadline(0), NO_ALARM);
}

#[test]
fn slots_are_independent() {
    let mut d = driver_at(100);
    let a = d.allocate_alarm().unwrap();
    let b = d.allocate_alarm().unwrap();
    d.set_alarm_callback(a, 1);
    d.set_alarm_callback(b, 2);
    assert_eq!(d.set_alarm(a, 500), None);
    assert_eq!(d.set_alarm(b, 50), Some(2));
    assert_eq!(d.deadline(0), 500);
    assert_eq!(d.deadline(1), NO_ALARM);
    assert!(d.regs().is_armed(0));
    assert!(!d.regs().is_armed(1));
}

#[test]
fn interrupt_on_an_idle_slot_rearms_at_the_sentinel() {
    let mut d = driver_at(100);
    d.raise(2);
    assert_eq!(d.check_alarm(2), None);
    assert_eq!(d.deadline(2), NO_ALARM);
    assert_eq!(d.regs().alarm(2), 0xFFFF_FFFF);
    d.acknowledge(2);
    assert!(!d.regs().is_pending(2));
}

fn bump(ctx: usize) -> usize {
    ctx + 1
}

#[test]
fn fired_callback_runs_with_its_context() {
    let mut d: TimerDriver<(fn(usize) -> usize, usize)> = init(TimerRegs::new(1000, Vec::new()));
    let h = d.allocate_alarm().unwrap();
    d.set_alarm_callback(h, (bump, 41));
    let (f, ctx) = d.set_alarm(h, 1).unwrap();
    assert_eq!(f(ctx), 42);
}

#[test]
fn reading_time_through_the_driver_advances_it() {
    let mut d: TimerDriver<u32> = init(TimerRegs::new(10, vec![3; 6]));
    assert_eq!(d.now(), 13);
    assert_eq!(d.regs().counter(), 19);
    assert_eq!(d.now(), 22);
}

#[test]
fn now_retries_once_after_a_carry() {
    // Reads see high 5, low 2, high 6, then high 6, low 3, high 6.
    let mut regs = TimerRegs::new(0x5_0000_0001, vec![1, 0xFFFF_FFFE, 1, 2, 0]);
    let t = regs.now();
    assert_eq!(t, 0x6_0000_0003);
    assert_ne!(t, 0x5_0000_0002);
}

#[test]
fn successive_reads_around_a_carry() {
    // First call: high 5, low 0xFFFF_FFFE, high 5.
    // Second call: high 5, low 1, high 6, then high 6, low 2, high 6.
    let mut regs = TimerRegs::new(0x5_FFFF_FFFD, vec![1, 0, 0, 3, 0, 1, 0, 0]);
    let first = regs.now();
    let second = regs.now();
    assert_eq!(first, 0x5_FFFF_FFFE);
    assert_eq!(second, 0x6_0000_0002);
    assert!(second >= first);
    assert_ne!(second, 0x5_0000_0001);
}

#[test]
fn callback_rearms_during_service_before_acknowledgement() {
    let (mut d, h) = armed_driver(100);
    assert_eq!(d.set_alarm(h, 150), None);
    d.advance_to(150);
    d.raise(0);
    let fired = d.check_alarm(0);
    assert_eq!(fired, Some(7));
    // The callback runs now: it sees a reset slot and arms again.
    assert_eq!(d.deadline(0), NO_ALARM);
    assert!(!d.regs().is_armed(0));
    assert!(d.regs().is_pending(0));
    assert_eq!(d.set_alarm(h, 400), None);
    d.acknowledge(0);
    assert_eq!(d.deadline(0), 400);
    assert!(d.regs().is_armed(0));
    assert_eq!(d.regs().alarm(0), 400);
    assert!(!d.regs().is_pending(0));
}
