use pew::Bench;
use pew::BenchError;
use pew::Benchmark;
use pew::Config;
use pew::Filter;
use pew::Report;
use pew::State;
use pew::generator::RangeGenerator;
use std::cell::Cell;
use std::rc::Rc;

// A sub-microsecond benchmark body that counts how often it ran.
struct Counting(Rc<Cell<u64>>);

impl Bench<u64> for Counting {
    fn call(&self, state: &mut State<u64>) {
        self.0.set(self.0.get() + 1);
        let _ = state.get_input();
    }
}

// A body that does almost nothing.
struct Trivial;

impl Bench<u64> for Trivial {
    fn call(&self, _state: &mut State<u64>) {}
}

// A body that misuses the state by handing it back paused.
enum MixedBench {
    Fine,
    LeavesPaused,
}

impl Bench<u64> for MixedBench {
    fn call(&self, state: &mut State<u64>) {
        match self {
            MixedBench::Fine => {}
            MixedBench::LeavesPaused => state.pause(),
        }
    }
}

fn quick_config(filter: Filter) -> Config {
    // Two repetitions, no minimum duration: the loop stops immediately.
    Config::new(filter, 0, 2)
}

#[test]
fn empty_benchmark_set_is_a_configuration_error() {
    let mut report = Report::new();
    let cfg = quick_config(Filter::match_all());
    let r = Benchmark::<u64, RangeGenerator, Trivial>::with_name("empty").run(&cfg, &mut report);
    assert_eq!(r, Err(BenchError::Configuration));
    assert_eq!(report.lines().len(), 0);
}

#[test]
fn row_name_is_set_function_size() {
    let mut report = Report::new();
    let cfg = quick_config(Filter::match_all());
    let r = Benchmark::with_name("example")
        .with_range(1024, 1024, 2)
        .with_bench(("bm_vector_range", Trivial))
        .run(&cfg, &mut report);
    assert_eq!(r, Ok(()));
    assert_eq!(report.lines().len(), 2);
    assert_eq!(report.lines()[0], "Name,Time (ns)");
    assert!(report.lines()[1].starts_with("example/bm_vector_range/1024,"));
}

#[test]
fn matching_filter_retains_row() {
    let mut report = Report::new();
    let cfg = quick_config(Filter::new("bm_vector_range".to_owned()));
    let r = Benchmark::with_name("example")
        .with_range(1024, 1024, 2)
        .with_bench(("bm_vector_range", Trivial))
        .run(&cfg, &mut report);
    assert_eq!(r, Ok(()));
    assert_eq!(report.lines().len(), 2);
    assert!(report.lines()[1].starts_with("example/bm_vector_range/1024,"));
}

#[test]
fn nonmatching_filter_suppresses_rows_and_header() {
    let mut report = Report::new();
    let cfg = quick_config(Filter::new("nonexistent".to_owned()));
    let r = Benchmark::with_name("example")
        .with_range(1024, 1024, 2)
        .with_bench(("bm_vector_range", Trivial))
        .run(&cfg, &mut report);
    assert_eq!(r, Ok(()));
    assert_eq!(report.lines().len(), 0);
}

#[test]
fn one_row_per_range_value_and_function() {
    let mut report = Report::new();
    let cfg = quick_config(Filter::match_all());
    let r = Benchmark::with_name("set")
        .with_range(16, 64, 2)
        .with_bench(("a", Trivial))
        .with_bench(("b", Trivial))
        .run(&cfg, &mut report);
    assert_eq!(r, Ok(()));
    // Header plus one row per (size, function) pair: sizes 16, 32, 64.
    assert_eq!(report.lines().len(), 1 + 3 * 2);
    assert!(report.lines()[1].starts_with("set/a/16,"));
    assert!(report.lines()[2].starts_with("set/b/16,"));
    assert!(report.lines()[3].starts_with("set/a/32,"));
    assert!(report.lines()[4].starts_with("set/b/32,"));
    assert!(report.lines()[5].starts_with("set/a/64,"));
    assert!(report.lines()[6].starts_with("set/b/64,"));
}

#[test]
fn header_appears_once_across_benchmark_sets() {
    let mut report = Report::new();
    let cfg = quick_config(Filter::match_all());
    let r1 = Benchmark::with_name("first")
        .with_range(1, 1, 2)
        .with_bench(("f", Trivial))
        .run(&cfg, &mut report);
    let r2 = Benchmark::with_name("second")
        .with_range(1, 1, 2)
        .with_bench(("g", Trivial))
        .run(&cfg, &mut report);
    assert_eq!(r1, Ok(()));
    assert_eq!(r2, Ok(()));
    let headers = report.lines().iter().filter(|l| l.as_str() == "Name,Time (ns)").count();
    assert_eq!(headers, 1);
    assert_eq!(report.lines().len(), 3);
    assert!(report.lines()[1].starts_with("first/f/1,"));
    assert!(report.lines()[2].starts_with("second/g/1,"));
}

// A body that records the input it was handed.
struct Observing(Rc<Cell<u64>>);

impl Bench<u64> for Observing {
    fn call(&self, state: &mut State<u64>) {
        self.0.set(state.get_input());
    }
}

#[test]
fn generator_output_reaches_the_body() {
    let seen = Rc::new(Cell::new(0u64));
    let seen_in_body = seen.clone();
    let mut report = Report::new();
    let cfg = quick_config(Filter::match_all());
    let r = Benchmark::<u64, RangeGenerator, Trivial>::with_name("gen")
        .with_range(8, 8, 2)
        .with_generator(|i: u64| i * 3)
        .with_bench(("observe", Observing(seen_in_body)))
        .run(&cfg, &mut report);
    assert_eq!(r, Ok(()));
    assert_eq!(seen.get(), 24);
}

#[test]
fn stability_needs_min_runs_and_min_duration() {
    let count = Rc::new(Cell::new(0u64));
    let cfg = Config::new(Filter::match_all(), 1, 8);
    let mut report = Report::new();
    let started = std::time::Instant::now();
    let r = Benchmark::with_name("stable")
        .with_range(1, 1, 2)
        .with_bench(("count", Counting(count.clone())))
        .run(&cfg, &mut report);
    let wall = started.elapsed();
    assert_eq!(r, Ok(()));
    // At least the configured eight repetitions ran, and the repetitions went
    // on until a full second of measured time had accumulated: the wall time
    // of the run can only exceed the measured time.
    assert!(count.get() >= 8);
    assert!(wall.as_millis() >= 900);
}

#[test]
fn body_leaving_state_paused_fails_the_run() {
    let mut report = Report::new();
    let cfg = quick_config(Filter::match_all());
    let r = Benchmark::with_name("mixed")
        .with_range(4, 4, 2)
        .with_bench(("fine", MixedBench::Fine))
        .with_bench(("pauses", MixedBench::LeavesPaused))
        .run(&cfg, &mut report);
    assert_eq!(r, Err(BenchError::InvalidState));
    // The row already emitted for the well-behaved body is kept.
    assert_eq!(report.lines().len(), 2);
    assert_eq!(report.lines()[0], "Name,Time (ns)");
    assert!(report.lines()[1].starts_with("mixed/fine/4,"));
}

#[test]
fn crossed_range_emits_nothing() {
    let mut report = Report::new();
    let cfg = quick_config(Filter::match_all());
    let r = Benchmark::with_name("void")
        .with_range(2, 1, 2)
        .with_bench(("f", Trivial))
        .run(&cfg, &mut report);
    assert_eq!(r, Ok(()));
    assert_eq!(report.lines().len(), 0);
}

#[test]
fn header_waits_for_the_first_emitted_row() {
    let mut report = Report::new();
    let suppress_all = quick_config(Filter::new("nonexistent".to_owned()));
    let r1 = Benchmark::with_name("quiet")
        .with_range(1, 1, 2)
        .with_bench(("f", Trivial))
        .run(&suppress_all, &mut report);
    assert_eq!(r1, Ok(()));
    assert_eq!(report.lines().len(), 0);

    let keep_all = quick_config(Filter::match_all());
    let r2 = Benchmark::with_name("loud")
        .with_range(1, 1, 2)
        .with_bench(("g", Trivial))
        .run(&keep_all, &mut report);
    assert_eq!(r2, Ok(()));
    assert_eq!(report.lines().len(), 2);
    assert_eq!(report.lines()[0], "Name,Time (ns)");
    assert!(report.lines()[1].starts_with("loud/g/1,"));
}

#[test]
fn error_descriptions_are_stable() {
    assert_eq!(BenchError::Configuration.describe(), "cannot run an empty benchmark set");
    assert_eq!(BenchError::InvalidState.describe(), "benchmark function left its timer paused");
}
