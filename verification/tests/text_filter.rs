use pew::Config;
use pew::Filter;
use pew::config::should_run_bm;
use pew::text::compose_name;
use pew::text::compose_row;
use pew::text::to_decimal;

#[test]
fn decimal_rendering_is_exact() {
    assert_eq!(to_decimal(0), "0");
    assert_eq!(to_decimal(7), "7");
    assert_eq!(to_decimal(10), "10");
    assert_eq!(to_decimal(1024), "1024");
    assert_eq!(to_decimal(u64::MAX), "18446744073709551615");
}

#[test]
fn name_composition_is_slash_separated() {
    assert_eq!(compose_name("example", "bm_vector_range", 1024), "example/bm_vector_range/1024");
    assert_eq!(compose_name("a", "b", 0), "a/b/0");
}

#[test]
fn row_composition_is_comma_separated() {
    assert_eq!(compose_row("example/bm/16".to_owned(), 103674), "example/bm/16,103674");
}

#[test]
fn empty_pattern_matches_everything() {
    let filter = Filter::match_all();
    assert!(filter.is_valid());
    assert!(should_run_bm(&filter, &"example/bm_vector_range/1024".to_owned()));
    assert!(should_run_bm(&filter, &"".to_owned()));
}

#[test]
fn substring_pattern_filters_names() {
    let filter = Filter::new("bm_vector_range".to_owned());
    assert!(filter.is_valid());
    assert!(should_run_bm(&filter, &"example/bm_vector_range/1024".to_owned()));
    assert!(!should_run_bm(&filter, &"example/bm_other/1024".to_owned()));
}

#[test]
fn regex_pattern_filters_names() {
    let filter = Filter::new("^example/.*/1024$".to_owned());
    assert!(filter.is_valid());
    assert!(should_run_bm(&filter, &"example/bm_vector_range/1024".to_owned()));
    assert!(!should_run_bm(&filter, &"example/bm_vector_range/512".to_owned()));
}

#[test]
fn malformed_pattern_matches_everything() {
    let filter = Filter::new("(unclosed".to_owned());
    assert!(!filter.is_valid());
    assert!(should_run_bm(&filter, &"anything/at/1".to_owned()));
}

#[test]
fn config_converts_seconds_and_clamps_runs() {
    let cfg = Config::new(Filter::match_all(), 2, 0);
    assert_eq!(cfg.min_duration, 2_000_000_000);
    assert_eq!(cfg.min_runs, 2);
    let cfg = Config::new(Filter::match_all(), 1, 8);
    assert_eq!(cfg.min_duration, 1_000_000_000);
    assert_eq!(cfg.min_runs, 8);
}
