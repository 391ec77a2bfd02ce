use pew::Clock;
use pew::State;

// A little real work whose result is observed, so the optimizer cannot drop
// it and some CPU time is genuinely consumed while the timer runs.
fn spin(rounds: u64) -> u64 {
    let mut acc: u64 = 1;
    for i in 0..rounds {
        acc = acc.wrapping_mul(6364136223846793005).wrapping_add(i);
    }
    acc
}

#[test]
fn clock_starts_running_and_steps_through_states() {
    let mut clock = Clock::new();
    assert!(!clock.is_paused());
    clock.pause();
    assert!(clock.is_paused());
    clock.resume();
    assert!(!clock.is_paused());
    let _total = clock.stop();
}

#[test]
fn clock_excludes_paused_interval_from_total() {
    let mut measuring = Clock::new();
    let a = spin(4_000_000);
    let with_work = measuring.stop();

    let mut pausing = Clock::new();
    pausing.pause();
    let b = spin(4_000_000);
    pausing.resume();
    let without_work = pausing.stop();

    assert!(a != 0 && b != 0);
    assert!(without_work < with_work);
}

#[test]
fn measured_work_accumulates_time() {
    let mut state = State::new(0u64);
    let acc = spin(2_000_000);
    let elapsed = state.finish();
    assert!(acc != 0);
    assert!(elapsed > 0);
}

#[test]
fn pause_resume_brackets_work() {
    let mut state = State::new(0u64);
    state.pause();
    assert!(state.is_paused());
    state.resume();
    assert!(!state.is_paused());
    let _ = state.finish();
}

#[test]
fn get_input_returns_original_input() {
    let mut state = State::new(5u64);
    assert_eq!(state.get_input(), 5);
}

#[test]
fn second_get_input_returns_default() {
    let mut state = State::new(5u64);
    assert_eq!(state.get_input(), 5);
    assert_eq!(state.get_input(), 0);
}

#[test]
fn second_get_input_returns_default_vec() {
    let mut state = State::new(vec![1u64, 2, 3]);
    assert_eq!(state.get_input(), vec![1u64, 2, 3]);
    assert_eq!(state.get_input(), Vec::<u64>::new());
}

#[test]
fn get_input_keeps_clock_running() {
    let mut state = State::new(7u64);
    let _ = state.get_input();
    assert!(!state.is_paused());
    let _ = state.finish();
}

#[test]
fn paused_time_is_excluded() {
    // Work done while paused must not be measured: the total of a run that
    // pauses around heavy work stays far below the total of a run that
    // measures the same work.
    let mut measured = State::new(0u64);
    let a = spin(4_000_000);
    let with_work = measured.finish();

    let mut excluded = State::new(0u64);
    excluded.pause();
    let b = spin(4_000_000);
    excluded.resume();
    let without_work = excluded.finish();

    assert!(a != 0 && b != 0);
    assert!(without_work < with_work);
}
