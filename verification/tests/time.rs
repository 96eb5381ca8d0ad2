use evkrnl::interrupts::{PicEnd, PicInterrupt};
use evkrnl::time::{DeadlinePoller, Time};

fn tick(time: &mut Time) {
    time.tick_step(PicEnd::new(PicInterrupt::Timer));
}

#[test]
fn pit_ticks() {
    // After 1000 ticks of the PIT step the clock reads between one tick
    // short of a second and a full second.
    let mut time = Time::new();
    time.set_ps_tick_step(999_847_619);
    for _ in 0..1000 {
        tick(&mut time);
    }
    assert!(time.boot_time_ns() >= 999_847_619);
    assert!(time.boot_time_ns() <= 1_000_000_000);
    assert_eq!(time.boot_time_ns(), 999_847_619);
}

#[test]
fn elapsed_matches_formula() {
    // After N ticks the nanoseconds equal
    // N * (step / 1000) + (N * (step % 1000)) / 1000.
    let step: u64 = 999_847_619;
    let n: u64 = 12345;
    let mut time = Time::new();
    time.set_ps_tick_step(step);
    for _ in 0..n {
        tick(&mut time);
    }
    let expected = n * (step / 1000) + (n * (step % 1000)) / 1000;
    assert_eq!(time.boot_time_ns(), expected);
}

#[test]
fn monotonic_across_million_reads() {
    let mut time = Time::new();
    time.set_ps_tick_step(999_847_619);
    let mut last = time.boot_time_ns();
    for i in 0..1_000_000u64 {
        if i % 97 == 0 {
            tick(&mut time);
        }
        let now = time.boot_time_ns();
        assert!(now >= last);
        last = now;
    }
}

#[test]
fn sub_nanosecond_carry() {
    // A step below one nanosecond only advances the clock through carries.
    let mut time = Time::new();
    time.set_ps_tick_step(600);
    tick(&mut time);
    assert_eq!(time.boot_time_ns(), 0);
    tick(&mut time);
    assert_eq!(time.boot_time_ns(), 1);
    tick(&mut time);
    assert_eq!(time.boot_time_ns(), 1);
    tick(&mut time);
    assert_eq!(time.boot_time_ns(), 2);
}

#[test]
fn timeout_poll_hits_deadline() {
    let mut time = Time::new();
    let mut poller = DeadlinePoller { ready_at_ns: 500 };
    assert!(time.timeout_poll_ns(1000, &mut poller));
    let mut time = Time::new();
    let mut never = DeadlinePoller { ready_at_ns: u64::MAX };
    assert!(!time.timeout_poll_ns(1000, &mut never));
    assert!(time.boot_time_ns() > 1000);
}

#[test]
fn timeout_poll_unit_conversions() {
    let mut time = Time::new();
    let mut poller = DeadlinePoller { ready_at_ns: 1 };
    assert!(time.timeout_poll_us(5, &mut poller));
    let mut poller = DeadlinePoller { ready_at_ns: 1 };
    assert!(time.timeout_poll_ms(5, &mut poller));
    let mut poller = DeadlinePoller { ready_at_ns: 1 };
    assert!(time.timeout_poll_s(5, &mut poller));
}
