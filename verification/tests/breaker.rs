use ai_bridge::breaker::{Breaker, Config, State};
use ai_bridge::clock::TestClock;

const SEC: i64 = 1_000_000_000;

fn breaker() -> Breaker {
    Breaker::new(Config { threshold: 3, cooldown: 30 * SEC as u64 })
}

#[test]
fn allows_when_never_failed() {
    let mut b = Breaker::new(Config::default_config());
    assert!(b.allow("erp").is_ok());
}

#[test]
fn opens_after_threshold_consecutive_failures() {
    let clock = TestClock::epoch();
    let mut b = breaker();
    for _ in 0..2 {
        b.failure_at("erp", "503", clock.read());
    }
    assert!(b.allow_at("erp", clock.read()).is_ok());
    b.failure_at("erp", "503", clock.read());
    let err = b.allow_at("erp", clock.read()).unwrap_err();
    assert_eq!(err.failures, 3);
}

#[test]
fn success_resets_the_circuit() {
    let clock = TestClock::epoch();
    let mut b = breaker();
    b.failure_at("erp", "503", clock.read());
    b.failure_at("erp", "503", clock.read());
    b.success("erp");
    b.failure_at("erp", "503", clock.read());
    assert!(b.allow_at("erp", clock.read()).is_ok());
}

#[test]
fn open_transitions_to_half_open_after_cooldown() {
    let mut clock = TestClock::epoch();
    let mut b = breaker();
    for _ in 0..3 {
        b.failure_at("erp", "503", clock.read());
    }
    assert!(b.allow_at("erp", clock.read()).is_err());
    clock.advance(31 * SEC);
    assert!(b.allow_at("erp", clock.read()).is_ok());
    assert_eq!(b.statuses_at(clock.read())[0].state, State::HalfOpen);
}

#[test]
fn half_open_success_closes_the_circuit() {
    let mut clock = TestClock::epoch();
    let mut b = breaker();
    for _ in 0..3 {
        b.failure_at("erp", "503", clock.read());
    }
    clock.advance(31 * SEC);
    b.allow_at("erp", clock.read()).unwrap();
    b.success("erp");
    assert_eq!(b.statuses_at(clock.read())[0].state, State::Closed);
}

#[test]
fn half_open_failure_reopens_immediately_regardless_of_count() {
    let mut clock = TestClock::epoch();
    let mut b = breaker();
    for _ in 0..3 {
        b.failure_at("erp", "503", clock.read());
    }
    clock.advance(31 * SEC);
    b.allow_at("erp", clock.read()).unwrap();
    b.failure_at("erp", "still down", clock.read());
    assert!(b.allow_at("erp", clock.read()).is_err());
    assert_eq!(b.statuses_at(clock.read())[0].state, State::Open);
}

#[test]
fn retry_in_shrinks_as_cooldown_elapses() {
    let mut clock = TestClock::epoch();
    let mut b = breaker();
    for _ in 0..3 {
        b.failure_at("erp", "503", clock.read());
    }
    let first = b.allow_at("erp", clock.read()).unwrap_err().retry_in;
    clock.advance(10 * SEC);
    let second = b.allow_at("erp", clock.read()).unwrap_err().retry_in;
    assert!(second < first);
    assert_eq!(first, 30 * SEC as u64);
    assert_eq!(second, 20 * SEC as u64);
}

#[test]
fn circuits_are_per_system() {
    let clock = TestClock::epoch();
    let mut b = breaker();
    for _ in 0..3 {
        b.failure_at("erp", "503", clock.read());
    }
    assert!(b.allow_at("erp", clock.read()).is_err());
    assert!(b.allow_at("crm", clock.read()).is_ok());
}

#[test]
fn statuses_are_sorted_and_report_last_failure() {
    let clock = TestClock::epoch();
    let mut b = breaker();
    b.failure_at("erp", "boom", clock.read());
    b.failure_at("crm", "bang", clock.read());
    let st = b.statuses_at(clock.read());
    assert_eq!(st[0].key, "crm");
    assert_eq!(st[1].key, "erp");
    assert_eq!(st[1].last_failure, "boom");
}

#[test]
fn config_defaults_fill_in_nonpositive_values() {
    let c = Config { threshold: 0, cooldown: 0 }.normalized();
    assert_eq!(c, Config::default_config());
    assert_eq!(c.threshold, 5);
    assert_eq!(State::HalfOpen.as_str(), "half-open");
}

#[test]
fn statuses_at_the_wall_clock_list_every_circuit() {
    let mut b = breaker();
    b.failure("erp", "503");
    let st = b.statuses();
    assert_eq!(st.len(), 1);
    assert_eq!(st[0].key, "erp");
    assert_eq!(st[0].failures, 1);
}
