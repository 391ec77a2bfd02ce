//! Resolved run configuration: the name filter and the stability thresholds.

use vstd::prelude::*;

verus! {

/// Whether `pattern` is a well-formed regular expression, as
/// `regex::Regex::new` decides it.
pub uninterp spec fn regex_valid(pattern: Seq<char>) -> bool;

/// Whether the regular expression `pattern` matches anywhere in `text`, as
/// `regex::Regex::is_match` decides it.
pub uninterp spec fn regex_match(pattern: Seq<char>, text: Seq<char>) -> bool;

/// Relies on `regex::Regex::new` and `regex::Regex::is_match`: whether a
/// pattern compiles, and whether the compiled pattern matches anywhere in a
/// text, are functions of the pattern and the text alone; compilation of an
/// invalid pattern fails; and the empty pattern is valid and matches every
/// text (it matches at any position, including in the empty text).
#[verifier::external_body]
fn regex_match_str(pattern: &str, text: &str) -> (r: Option<bool>)
    ensures
        r is Some <==> regex_valid(pattern@),
        r matches Some(m) ==> m == regex_match(pattern@, text@),
        pattern@.len() == 0 ==> r == Some(true),
{
    match regex::Regex::new(pattern) {
        Ok(re) => Some(re.is_match(text)),
        Err(_) => None,
    }
}

/// A pattern matched against fully qualified benchmark names to decide
/// whether a configuration runs. A malformed pattern degrades to matching
/// everything rather than aborting the run.
pub struct Filter {
    pattern: String,
}

impl Filter {
    /// The pattern's characters.
    pub closed spec fn spec_pattern(self) -> Seq<char> {
        self.pattern@
    }

    /// Whether this filter lets a name through: a well-formed pattern must
    /// match somewhere in the name, and a malformed one lets everything
    /// through.
    pub open spec fn accepts(self, text: Seq<char>) -> bool {
        if regex_valid(self.spec_pattern()) {
            regex_match(self.spec_pattern(), text)
        } else {
            true
        }
    }

    /// A filter over the given pattern.
    pub fn new(pattern: String) -> (f: Filter)
        ensures
            f.spec_pattern() == pattern@,
    {
        Filter { pattern }
    }

    /// The filter with the empty pattern, which lets every name through.
    pub fn match_all() -> (f: Filter)
        ensures
            f.spec_pattern().len() == 0,
    {
        Filter { pattern: String::new() }
    }

    /// Whether the pattern is a well-formed regular expression. A caller may
    /// warn on a malformed pattern before running: the run itself degrades to
    /// matching everything.
    pub fn is_valid(&self) -> (r: bool)
        ensures
            r == regex_valid(self.spec_pattern()),
    {
        match regex_match_str(self.pattern.as_str(), "") {
            Some(_) => true,
            None => false,
        }
    }
}

/// Whether the benchmark configuration named `bm_name` should run under
/// `filter`. An empty pattern lets every name through.
pub fn should_run_bm(filter: &Filter, bm_name: &String) -> (r: bool)
    ensures
        r == filter.accepts(bm_name@),
        filter.spec_pattern().len() == 0 ==> r,
{
    match regex_match_str(filter.pattern.as_str(), bm_name.as_str()) {
        Some(m) => m,
        None => true,
    }
}

/// The resolved configuration one run consumes: the name filter, the minimum
/// accumulated measured duration in nanoseconds, and the minimum repetition
/// count.
pub struct Config {
    /// Decides which benchmark configurations run at all.
    pub filter: Filter,
    /// Repeat until at least this much measured time, in nanoseconds, has
    /// accumulated.
    pub min_duration: u64,
    /// Repeat at least this many times; at least two, so that an average over
    /// the repetitions is meaningful.
    pub min_runs: u8,
}

impl Config {
    /// The floor every configuration keeps under `min_runs`.
    pub open spec fn wf(self) -> bool {
        self.min_runs >= 2
    }

    /// Resolves a configuration from the values an interface hands in: the
    /// duration is given in whole seconds, and the repetition count is raised
    /// to at least two.
    pub fn new(filter: Filter, min_duration_secs: u64, min_runs: u8) -> (c: Config)
        requires
            min_duration_secs <= u64::MAX / 1_000_000_000,
        ensures
            c.filter == filter,
            c.min_duration == min_duration_secs * 1_000_000_000,
            c.min_runs == if min_runs < 2 { 2u8 } else { min_runs },
            c.wf(),
    {
        Config {
            filter,
            min_duration: min_duration_secs * 1_000_000_000,
            min_runs: if min_runs < 2 { 2 } else { min_runs },
        }
    }
}

} // verus!
