//! Benchmark sets: registration of named benchmark bodies over a range, and
//! the repetition-until-stable measurement loop.

use crate::config::Config;
use crate::config::Filter;
use crate::config::should_run_bm;
use crate::generator::ComposedGen;
use crate::generator::Generator;
use crate::generator::RangeGenerator;
use crate::generator::compose;
use crate::report::Report;
use crate::report::emitted_lines;
use crate::state::State;
use crate::text::compose_name;
use crate::text::full_name;
use crate::text::row_text;
use core::marker::PhantomData;
use vstd::prelude::*;

verus! {

/// Why a run refused to proceed or was cut short.
#[derive(Clone, Copy, Debug, PartialEq, Eq, Structural)]
pub enum BenchError {
    /// No benchmark function was registered before the run.
    Configuration,
    /// A benchmark body handed its state back paused, where the harness
    /// needs the timer running to stop it.
    InvalidState,
}

impl BenchError {
    /// A short description, for an interface to print.
    pub fn describe(&self) -> (r: &'static str)
        ensures
            *self == BenchError::Configuration ==> r@ == "cannot run an empty benchmark set"@,
            *self == BenchError::InvalidState ==> r@ == "benchmark function left its timer paused"@,
    {
        match self {
            BenchError::Configuration => "cannot run an empty benchmark set",
            BenchError::InvalidState => "benchmark function left its timer paused",
        }
    }
}

/// One benchmark body. The harness hands `call` a fresh state whose timer is
/// running; the body may pause and resume the timer and take the input out of
/// the state, and what it leaves behind is measured by the caller.
pub trait Bench<T> {
    /// Runs the measured body once against a fresh running state.
    fn call(&self, state: &mut State<T>)
        requires
            !old(state).spec_paused(),
    ;
}

/// The range values `lb, lb*mul, lb*mul*mul, ...` up to and including `ub`.
/// The sequence stops where the next value would pass `ub` (or the largest
/// representable value).
pub open spec fn range_seq(lb: u64, ub: u64, mul: u64) -> Seq<u64>
    decreases ub - lb,
        when 1 <= lb && 2 <= mul via check_range_seq_decreases
{
    if lb > ub {
        Seq::empty()
    } else if lb * mul > ub {
        seq![lb]
    } else {
        seq![lb] + range_seq((lb * mul) as u64, ub, mul)
    }
}

#[via_fn]
proof fn check_range_seq_decreases(lb: u64, ub: u64, mul: u64) {
    lemma_step_grows(lb, mul);
}

/// Multiplying a positive value by a step of at least two at least doubles
/// it.
proof fn lemma_step_grows(lb: u64, mul: u64)
    requires
        1 <= lb,
        2 <= mul,
    ensures
        lb * mul >= 2 * lb,
{
    assert(lb * mul >= 2 * lb) by (nonlinear_arith)
        requires
            1 <= lb,
            2 <= mul,
    ;
}

/// For a positive step the comparison by division agrees with the comparison
/// by multiplication.
proof fn lemma_mul_div_bound(lb: u64, ub: u64, mul: u64)
    requires
        1 <= mul,
    ensures
        lb > ub / mul <==> lb * mul > ub,
{
    assert(lb > ub / mul <==> lb * mul > ub) by (nonlinear_arith)
        requires
            1 <= mul,
    ;
}

/// Enumerates the range values `lb, lb*mul, ...` up to and including `ub`.
pub fn range_values(lb: u64, ub: u64, mul: u64) -> (r: Vec<u64>)
    requires
        1 <= lb,
        2 <= mul,
    ensures
        r@ == range_seq(lb, ub, mul),
    decreases ub - lb,
{
    if lb > ub {
        Vec::new()
    } else {
        proof {
            lemma_mul_div_bound(lb, ub, mul);
        }
        let mut v = Vec::new();
        v.push(lb);
        if lb > ub / mul {
            proof {
                assert(v@ =~= range_seq(lb, ub, mul));
            }
            v
        } else {
            proof {
                lemma_step_grows(lb, mul);
            }
            let mut rest = range_values(lb * mul, ub, mul);
            v.append(&mut rest);
            proof {
                assert(v@ =~= range_seq(lb, ub, mul));
            }
            v
        }
    }
}

/// The registered function names, in registration order.
pub open spec fn fn_names<B>(fns: Seq<(&'static str, B)>) -> Seq<Seq<char>> {
    fns.map_values(|t: (&'static str, B)| t.0@)
}

/// The fully qualified names, among `set/name/size` for the given function
/// names at one range value, that the filter lets through, in order.
pub open spec fn passing_for_size(
    set: Seq<char>,
    names: Seq<Seq<char>>,
    size: u64,
    filter: Filter,
) -> Seq<Seq<char>>
    decreases names.len(),
{
    if names.len() == 0 {
        Seq::empty()
    } else {
        (if filter.accepts(full_name(set, names[0], size)) {
            seq![full_name(set, names[0], size)]
        } else {
            Seq::empty()
        }) + passing_for_size(set, names.skip(1), size, filter)
    }
}

/// The fully qualified names the filter lets through over a whole run: range
/// values outermost, function names innermost, both in order.
pub open spec fn passing_all(
    set: Seq<char>,
    names: Seq<Seq<char>>,
    sizes: Seq<u64>,
    filter: Filter,
) -> Seq<Seq<char>>
    decreases sizes.len(),
{
    if sizes.len() == 0 {
        Seq::empty()
    } else {
        passing_for_size(set, names, sizes[0], filter) + passing_all(
            set,
            names,
            sizes.skip(1),
            filter,
        )
    }
}

/// The reported average: the truncated mean of the accumulated total over
/// the repetition count.
pub open spec fn avg_of(total: u64, runs: u64) -> u64 {
    total / runs
}

/// Whether `avg` can be the reported average of a configuration measured
/// under `cfg`: the truncated mean of some repetition count and accumulated
/// total that met the stability threshold — at least the configured minimum
/// number of repetitions, and repeated until the configured minimum duration
/// had accumulated (or the repetition counter could not be advanced further).
pub open spec fn valid_avg(cfg: Config, avg: u64) -> bool {
    exists|runs: u64, total: u64|
        {
            &&& runs >= cfg.min_runs
            &&& runs >= 2
            &&& total >= cfg.min_duration || runs == u64::MAX
            &&& avg == #[trigger] avg_of(total, runs)
        }
}

/// The CSV rows for the given names and averages, in order.
pub open spec fn rows_of(names: Seq<Seq<char>>, avgs: Seq<u64>) -> Seq<Seq<char>> {
    Seq::new(names.len(), |k: int| row_text(names[k], avgs[k]))
}

/// What one run appends to a report's lines: nothing where no row passed the
/// filter; otherwise the rows, preceded by the header where the report had
/// not emitted it yet.
pub open spec fn emitted_block(header_done: bool, rows: Seq<Seq<char>>) -> Seq<Seq<char>> {
    if rows.len() == 0 {
        Seq::empty()
    } else if header_done {
        rows
    } else {
        seq![crate::report::header_text()] + rows
    }
}

/// Whether one run took the report from `pre` to `post` by emitting exactly
/// one row for each name in `names`, in order, with the averages `avgs`,
/// each of which met the stability threshold of `cfg`.
pub open spec fn emitted_ok(
    pre: Report,
    post: Report,
    names: Seq<Seq<char>>,
    avgs: Seq<u64>,
    cfg: Config,
) -> bool {
    &&& avgs.len() == names.len()
    &&& (forall|k: int| 0 <= k < avgs.len() ==> valid_avg(cfg, #[trigger] avgs[k]))
    &&& post.lines_view() == pre.lines_view() + emitted_block(
        pre.header_done(),
        rows_of(names, avgs),
    )
    &&& post.header_done() == (pre.header_done() || names.len() > 0)
}

/// Whether one run took the report from `pre` to `post` by emitting exactly
/// one row for each name in `names`, in order, each with an average that met
/// the stability threshold of `cfg`.
pub open spec fn run_emits(pre: Report, post: Report, names: Seq<Seq<char>>, cfg: Config) -> bool {
    exists|avgs: Seq<u64>| #[trigger] emitted_ok(pre, post, names, avgs, cfg)
}

/// Appending one function name extends the passing names for one range value
/// by that name's fully qualified form exactly where the filter lets it
/// through.
proof fn lemma_pfs_snoc(
    set: Seq<char>,
    names: Seq<Seq<char>>,
    n: Seq<char>,
    size: u64,
    filter: Filter,
)
    ensures
        passing_for_size(set, names.push(n), size, filter) == passing_for_size(
            set,
            names,
            size,
            filter,
        ) + (if filter.accepts(full_name(set, n, size)) {
            seq![full_name(set, n, size)]
        } else {
            Seq::<Seq<char>>::empty()
        }),
    decreases names.len(),
{
    reveal_with_fuel(passing_for_size, 3);
    let block = if filter.accepts(full_name(set, n, size)) {
        seq![full_name(set, n, size)]
    } else {
        Seq::<Seq<char>>::empty()
    };
    if names.len() == 0 {
        assert(names.push(n)[0] == n);
        assert(names.push(n).skip(1) =~= Seq::<Seq<char>>::empty());
        assert(passing_for_size(set, names.push(n), size, filter) =~= passing_for_size(
            set,
            names,
            size,
            filter,
        ) + block);
    } else {
        let head = if filter.accepts(full_name(set, names[0], size)) {
            seq![full_name(set, names[0], size)]
        } else {
            Seq::<Seq<char>>::empty()
        };
        assert(names.push(n)[0] == names[0]);
        assert(names.push(n).skip(1) =~= names.skip(1).push(n));
        lemma_pfs_snoc(set, names.skip(1), n, size, filter);
        assert(passing_for_size(set, names.push(n), size, filter) == head + passing_for_size(
            set,
            names.skip(1).push(n),
            size,
            filter,
        ));
        assert(head + (passing_for_size(set, names.skip(1), size, filter) + block) =~= (head
            + passing_for_size(set, names.skip(1), size, filter)) + block);
        assert(passing_for_size(set, names.push(n), size, filter) =~= passing_for_size(
            set,
            names,
            size,
            filter,
        ) + block);
    }
}

/// Appending one range value extends the passing names of a run by the
/// passing names for that value.
proof fn lemma_pall_snoc(
    set: Seq<char>,
    names: Seq<Seq<char>>,
    sizes: Seq<u64>,
    s: u64,
    filter: Filter,
)
    ensures
        passing_all(set, names, sizes.push(s), filter) == passing_all(set, names, sizes, filter)
            + passing_for_size(set, names, s, filter),
    decreases sizes.len(),
{
    reveal_with_fuel(passing_all, 3);
    reveal_with_fuel(passing_for_size, 2);
    if sizes.len() == 0 {
        assert(sizes.push(s)[0] == s);
        assert(sizes.push(s).skip(1) =~= Seq::<u64>::empty());
        assert(passing_all(set, names, sizes.push(s), filter) =~= passing_all(
            set,
            names,
            sizes,
            filter,
        ) + passing_for_size(set, names, s, filter));
    } else {
        let head = passing_for_size(set, names, sizes[0], filter);
        let tail = passing_for_size(set, names, s, filter);
        assert(sizes.push(s)[0] == sizes[0]);
        assert(sizes.push(s).skip(1) =~= sizes.skip(1).push(s));
        lemma_pall_snoc(set, names, sizes.skip(1), s, filter);
        assert(passing_all(set, names, sizes.push(s), filter) == head + passing_all(
            set,
            names,
            sizes.skip(1).push(s),
            filter,
        ));
        assert(head + (passing_all(set, names, sizes.skip(1), filter) + tail) =~= (head
            + passing_all(set, names, sizes.skip(1), filter)) + tail);
        assert(passing_all(set, names, sizes.push(s), filter) =~= passing_all(
            set,
            names,
            sizes,
            filter,
        ) + tail);
    }
}

/// The passing names for one range value split at any point of the name
/// list.
proof fn lemma_pfs_take_split(
    set: Seq<char>,
    names: Seq<Seq<char>>,
    size: u64,
    filter: Filter,
    j: int,
)
    requires
        0 <= j <= names.len(),
    ensures
        passing_for_size(set, names, size, filter) == passing_for_size(
            set,
            names.take(j),
            size,
            filter,
        ) + passing_for_size(set, names.skip(j), size, filter),
    decreases j,
{
    if j == 0 {
        assert(names.take(0) =~= Seq::<Seq<char>>::empty());
        assert(names.skip(0) =~= names);
        assert(passing_for_size(set, names, size, filter) =~= passing_for_size(
            set,
            names.take(0),
            size,
            filter,
        ) + passing_for_size(set, names.skip(0), size, filter));
    } else {
        lemma_pfs_take_split(set, names.skip(1), size, filter, j - 1);
        assert(names.take(j)[0] == names[0]);
        assert(names.take(j).skip(1) =~= names.skip(1).take(j - 1));
        assert(names.skip(j) =~= names.skip(1).skip(j - 1));
        assert(passing_for_size(set, names, size, filter) =~= passing_for_size(
            set,
            names.take(j),
            size,
            filter,
        ) + passing_for_size(set, names.skip(j), size, filter));
    }
}

/// The passing names of a run split at any point of the range.
proof fn lemma_pall_take_split(
    set: Seq<char>,
    names: Seq<Seq<char>>,
    sizes: Seq<u64>,
    filter: Filter,
    k: int,
)
    requires
        0 <= k <= sizes.len(),
    ensures
        passing_all(set, names, sizes, filter) == passing_all(set, names, sizes.take(k), filter)
            + passing_all(set, names, sizes.skip(k), filter),
    decreases k,
{
    if k == 0 {
        assert(sizes.take(0) =~= Seq::<u64>::empty());
        assert(sizes.skip(0) =~= sizes);
        assert(passing_all(set, names, sizes, filter) =~= passing_all(
            set,
            names,
            sizes.take(0),
            filter,
        ) + passing_all(set, names, sizes.skip(0), filter));
    } else {
        lemma_pall_take_split(set, names, sizes.skip(1), filter, k - 1);
        assert(sizes.take(k)[0] == sizes[0]);
        assert(sizes.take(k).skip(1) =~= sizes.skip(1).take(k - 1));
        assert(sizes.skip(k) =~= sizes.skip(1).skip(k - 1));
        assert(passing_all(set, names, sizes, filter) =~= passing_all(
            set,
            names,
            sizes.take(k),
            filter,
        ) + passing_all(set, names, sizes.skip(k), filter));
    }
}

/// Emitting one further row appends exactly that row — preceded by the
/// header where nothing had been emitted yet.
proof fn lemma_block_snoc(
    done0: bool,
    names: Seq<Seq<char>>,
    avgs: Seq<u64>,
    n: Seq<char>,
    a: u64,
)
    requires
        avgs.len() == names.len(),
    ensures
        emitted_block(done0, rows_of(names.push(n), avgs.push(a))) == emitted_block(
            done0,
            rows_of(names, avgs),
        ) + emitted_lines(done0 || names.len() > 0, n, a),
{
    assert(rows_of(names.push(n), avgs.push(a)) =~= rows_of(names, avgs).push(row_text(n, a)));
    if names.len() == 0 {
        assert(emitted_block(done0, rows_of(names.push(n), avgs.push(a))) =~= emitted_block(
            done0,
            rows_of(names, avgs),
        ) + emitted_lines(done0, n, a));
    } else {
        assert(emitted_block(done0, rows_of(names.push(n), avgs.push(a))) =~= emitted_block(
            done0,
            rows_of(names, avgs),
        ) + emitted_lines(true, n, a));
    }
}

/// Measures one configuration: repeatedly runs the body against a fresh
/// state holding a clone of `input`, accumulating measured nanoseconds,
/// until both at least `min_runs` repetitions have run and at least
/// `min_duration` nanoseconds have accumulated (the accumulated total
/// saturates at the largest representable value, and the repetition counter
/// stops advancing there too). Fails only where the body hands its state
/// back paused.
fn measure_one<T: Clone, B: Bench<T>>(bench: &B, input: &T, min_runs: u8, min_duration: u64) -> (r:
    Result<(u64, u64), BenchError>)
    requires
        min_runs >= 2,
    ensures
        r matches Ok(p) ==> p.0 >= min_runs && p.0 >= 2 && (p.1 >= min_duration || p.0
            == u64::MAX),
        r is Err ==> r == Err::<(u64, u64), BenchError>(BenchError::InvalidState),
{
    let mut runs: u64 = 0;
    let mut total: u64 = 0;
    while runs < min_runs as u64 || (total < min_duration && runs < u64::MAX)
        invariant
            min_runs >= 2,
        decreases u64::MAX - runs,
    {
        let mut state = State::new(input.clone());
        bench.call(&mut state);
        if state.is_paused() {
            return Err(BenchError::InvalidState);
        }
        let elapsed = state.finish();
        total = total.saturating_add(elapsed);
        runs = runs + 1;
    }
    Ok((runs, total))
}

/// One benchmark set: a name, registered benchmark bodies, an exponential
/// range of input sizes, and the generator chain deriving one typed input
/// per range value.
///
/// A set is configured builder-style: each `with_` call hands back the
/// updated set. Registering a further generator changes the input type, so
/// it discards the benchmark bodies registered so far; register all
/// generators before the bodies.
#[verifier::reject_recursive_types(T)]
pub struct Benchmark<T: Clone, G: Generator<Output = T>, B: Bench<T>> {
    name: &'static str,
    fns: Vec<(&'static str, B)>,
    range: (u64, u64, u64),
    generator: G,
    _input: PhantomData<T>,
}

impl<B: Bench<u64>> Benchmark<u64, RangeGenerator, B> {
    /// A benchmark set with the given name, no benchmark bodies, the default
    /// range — lower bound 1, upper bound 2^20, step factor 2 — and the
    /// identity generator.
    pub fn with_name(name: &'static str) -> (b: Self)
        ensures
            b.spec_name() == name@,
            b.spec_fns().len() == 0,
            b.spec_range() == (1u64, (1u64 << 20u64), 2u64),
            b.spec_generator() == RangeGenerator,
    {
        Benchmark {
            name,
            fns: Vec::new(),
            range: (1, 1 << 20, 2),
            generator: RangeGenerator,
            _input: PhantomData,
        }
    }
}

impl<T: Clone, G: Generator<Output = T>, B: Bench<T>> Benchmark<T, G, B> {

    /// The set's name, prefixed to every reported row.
    pub closed spec fn spec_name(self) -> Seq<char> {
        self.name@
    }

    /// The registered benchmark bodies with their names, in order.
    pub closed spec fn spec_fns(self) -> Seq<(&'static str, B)> {
        self.fns@
    }

    /// The range as (lower bound, upper bound, step factor).
    pub closed spec fn spec_range(self) -> (u64, u64, u64) {
        self.range
    }

    /// The generator chain.
    pub closed spec fn spec_generator(self) -> G {
        self.generator
    }

    /// The registered function names, in order.
    pub open spec fn spec_fn_names(self) -> Seq<Seq<char>> {
        fn_names(self.spec_fns())
    }

    /// The range values the run visits, in order.
    pub open spec fn spec_sizes(self) -> Seq<u64> {
        range_seq(self.spec_range().0, self.spec_range().1, self.spec_range().2)
    }

    /// The fully qualified configuration names that `filter` lets through,
    /// in the order the run emits them.
    pub open spec fn passing(self, filter: Filter) -> Seq<Seq<char>> {
        passing_all(self.spec_name(), self.spec_fn_names(), self.spec_sizes(), filter)
    }

    /// Sets the range's lower bound.
    pub fn with_lower_bound(self, lb: u64) -> (b: Self)
        ensures
            b.spec_name() == self.spec_name(),
            b.spec_fns() == self.spec_fns(),
            b.spec_generator() == self.spec_generator(),
            b.spec_range() == (lb, self.spec_range().1, self.spec_range().2),
    {
        let Benchmark { name, fns, range, generator, _input } = self;
        Benchmark { name, fns, range: (lb, range.1, range.2), generator, _input }
    }

    /// Sets the range's upper bound.
    pub fn with_upper_bound(self, ub: u64) -> (b: Self)
        ensures
            b.spec_name() == self.spec_name(),
            b.spec_fns() == self.spec_fns(),
            b.spec_generator() == self.spec_generator(),
            b.spec_range() == (self.spec_range().0, ub, self.spec_range().2),
    {
        let Benchmark { name, fns, range, generator, _input } = self;
        Benchmark { name, fns, range: (range.0, ub, range.2), generator, _input }
    }

    /// Sets the range's step factor. A factor of at least two is a
    /// precondition of `run`: below that the range would never advance.
    pub fn with_mul(self, mul: u64) -> (b: Self)
        ensures
            b.spec_name() == self.spec_name(),
            b.spec_fns() == self.spec_fns(),
            b.spec_generator() == self.spec_generator(),
            b.spec_range() == (self.spec_range().0, self.spec_range().1, mul),
    {
        let Benchmark { name, fns, range, generator, _input } = self;
        Benchmark { name, fns, range: (range.0, range.1, mul), generator, _input }
    }

    /// Sets the whole range.
    pub fn with_range(self, lb: u64, ub: u64, mul: u64) -> (b: Self)
        ensures
            b.spec_name() == self.spec_name(),
            b.spec_fns() == self.spec_fns(),
            b.spec_generator() == self.spec_generator(),
            b.spec_range() == (lb, ub, mul),
    {
        let Benchmark { name, fns, range: _, generator, _input } = self;
        Benchmark { name, fns, range: (lb, ub, mul), generator, _input }
    }

    /// Chains one further generator onto the set. The chain composes
    /// left-to-right in registration order: the new transform wraps the
    /// chain built so far. The benchmark bodies registered so far work over
    /// the old input type, so they are discarded; call this before
    /// `with_bench`.
    pub fn with_generator<U: Clone, F: Fn(T) -> U, B2: Bench<U>>(self, gen: F) -> (b: Benchmark<
        U,
        ComposedGen<G, F>,
        B2,
    >)
        ensures
            b.spec_name() == self.spec_name(),
            b.spec_range() == self.spec_range(),
            b.spec_fns().len() == 0,
            b.spec_generator().inner == self.spec_generator(),
            b.spec_generator().f == gen,
    {
        let Benchmark { name, fns: _, range, generator, _input } = self;
        Benchmark {
            name,
            fns: Vec::new(),
            range,
            generator: compose(generator, gen),
            _input: PhantomData,
        }
    }

    /// Registers one named benchmark body. At least one must be registered
    /// before `run`.
    pub fn with_bench(self, t: (&'static str, B)) -> (b: Self)
        ensures
            b.spec_name() == self.spec_name(),
            b.spec_generator() == self.spec_generator(),
            b.spec_range() == self.spec_range(),
            b.spec_fns() == self.spec_fns().push(t),
    {
        let Benchmark { name, mut fns, range, generator, _input } = self;
        fns.push(t);
        Benchmark { name, fns, range, generator, _input }
    }

    /// Runs the benchmark set.
    ///
    /// For each range value, the generator chain derives one input, shared
    /// by all bodies at that value; for each registered body whose fully
    /// qualified name `set/function/value` the filter lets through, the body
    /// is repeated — against a fresh state holding a fresh clone of the
    /// input each time — until the stability threshold of `cfg` is met, and
    /// one CSV row `name,average` is emitted to `out`, after the one-shot
    /// header.
    ///
    /// Fails with a configuration error, emitting nothing, exactly when no
    /// body is registered. Succeeds whenever the filter passes no
    /// configuration at all (no body is then invoked). Fails in an invalid
    /// state only where a body hands its state back paused; the rows emitted
    /// before that — strictly fewer than the filter passes, since the
    /// failing configuration's own row is never emitted — are kept.
    pub fn run(self, cfg: &Config, out: &mut Report) -> (r: Result<(), BenchError>)
        requires
            cfg.wf(),
            old(out).wf(),
            1 <= self.spec_range().0,
            2 <= self.spec_range().2,
            forall|k: int|
                0 <= k < self.spec_sizes().len() ==> self.spec_generator().pre(
                    #[trigger] self.spec_sizes()[k],
                ),
        ensures
            final(out).wf(),
            self.spec_fns().len() == 0 ==> r == Err::<(), BenchError>(BenchError::Configuration)
                && *final(out) == *old(out),
            self.spec_fns().len() > 0 ==> r != Err::<(), BenchError>(BenchError::Configuration),
            self.spec_fns().len() > 0 && self.passing(cfg.filter).len() == 0 ==> r == Ok::<
                (),
                BenchError,
            >(()),
            r == Ok::<(), BenchError>(()) ==> run_emits(
                *old(out),
                *final(out),
                self.passing(cfg.filter),
                *cfg,
            ),
            r == Err::<(), BenchError>(BenchError::InvalidState) ==> self.passing(
                cfg.filter,
            ).len() > 0 && exists|n: int|
                0 <= n < self.passing(cfg.filter).len() && run_emits(
                    *old(out),
                    *final(out),
                    #[trigger] self.passing(cfg.filter).take(n),
                    *cfg,
                ),
    {
        if self.fns.len() == 0 {
            return Err(BenchError::Configuration);
        }
        let (lb, ub, mul) = self.range;
        let sizes = range_values(lb, ub, mul);
        let ghost set = self.spec_name();
        let ghost gnames = self.spec_fn_names();
        let ghost gsizes = self.spec_sizes();
        let ghost filt = cfg.filter;
        let ghost pre_out = *out;
        let ghost mut gavgs: Seq<u64> = Seq::empty();
        let mut k: usize = 0;
        proof {
            assert(gsizes.take(0) =~= Seq::<u64>::empty());
        }
        while k < sizes.len()
            invariant
                cfg.wf(),
                out.wf(),
                k <= sizes@.len(),
                sizes@ == gsizes,
                gsizes == self.spec_sizes(),
                gnames == self.spec_fn_names(),
                set == self.spec_name(),
                filt == cfg.filter,
                pre_out == *old(out),
                forall|x: int|
                    0 <= x < gsizes.len() ==> self.spec_generator().pre(#[trigger] gsizes[x]),
                emitted_ok(
                    pre_out,
                    *out,
                    passing_all(set, gnames, gsizes.take(k as int), filt),
                    gavgs,
                    *cfg,
                ),
            decreases sizes@.len() - k,
        {
            let size = sizes[k];
            let input = self.generator.generate(size);
            let ghost done_k = passing_all(set, gnames, gsizes.take(k as int), filt);
            let mut j: usize = 0;
            proof {
                assert(gnames.take(0) =~= Seq::<Seq<char>>::empty());
                assert(done_k + passing_for_size(set, gnames.take(0), size, filt) =~= done_k);
            }
            while j < self.fns.len()
                invariant
                    cfg.wf(),
                    out.wf(),
                    k < sizes@.len(),
                    j <= self.spec_fns().len(),
                    sizes@ == gsizes,
                    gsizes == self.spec_sizes(),
                    gnames == self.spec_fn_names(),
                    set == self.spec_name(),
                    filt == cfg.filter,
                    pre_out == *old(out),
                    size == gsizes[k as int],
                    done_k == passing_all(set, gnames, gsizes.take(k as int), filt),
                    emitted_ok(
                        pre_out,
                        *out,
                        done_k + passing_for_size(set, gnames.take(j as int), size, filt),
                        gavgs,
                        *cfg,
                    ),
                decreases self.spec_fns().len() - j,
            {
                let entry = &self.fns[j];
                let fname: &'static str = entry.0;
                let bm_name = compose_name(self.name, fname, size);
                let ghost bmv = bm_name@;
                let ghost done_kj = done_k + passing_for_size(
                    set,
                    gnames.take(j as int),
                    size,
                    filt,
                );
                proof {
                    assert(gnames[j as int] == self.spec_fns()[j as int].0@);
                    assert(bmv == full_name(set, gnames[j as int], size));
                    assert(gnames.take(j + 1) =~= gnames.take(j as int).push(gnames[j as int]));
                    lemma_pfs_snoc(set, gnames.take(j as int), gnames[j as int], size, filt);
                }
                if should_run_bm(&cfg.filter, &bm_name) {
                    match measure_one(&entry.1, &input, cfg.min_runs, cfg.min_duration) {
                        Ok(rt) => {
                            let avg = rt.1 / rt.0;
                            proof {
                                assert(avg == avg_of(rt.1, rt.0));
                                assert(valid_avg(*cfg, avg));
                                lemma_block_snoc(
                                    pre_out.header_done(),
                                    done_kj,
                                    gavgs,
                                    bmv,
                                    avg,
                                );
                            }
                            out.emit_row(bm_name, avg);
                            proof {
                                gavgs = gavgs.push(avg);
                                assert(done_k + passing_for_size(
                                    set,
                                    gnames.take(j + 1),
                                    size,
                                    filt,
                                ) =~= done_kj.push(bmv));
                                assert(out.lines_view() =~= pre_out.lines_view() + emitted_block(
                                    pre_out.header_done(),
                                    rows_of(done_kj.push(bmv), gavgs),
                                ));
                            }
                        },
                        Err(e) => {
                            proof {
                                lemma_pall_take_split(set, gnames, gsizes, filt, k as int);
                                assert(gsizes.skip(k as int)[0] == gsizes[k as int]);
                                assert(gsizes.skip(k as int).skip(1) =~= gsizes.skip(k + 1));
                                lemma_pfs_take_split(set, gnames, size, filt, j as int);
                                let rest = (passing_for_size(
                                    set,
                                    gnames.skip(j as int),
                                    size,
                                    filt,
                                ) + passing_all(set, gnames, gsizes.skip(k + 1), filt));
                                assert(self.passing(filt) =~= done_kj + rest);
                                // The failing configuration itself passed the
                                // filter, so the passing list goes on past
                                // the rows emitted so far.
                                assert(gnames.skip(j as int)[0] == gnames[j as int]);
                                assert(filt.accepts(full_name(set, gnames[j as int], size)));
                                assert(passing_for_size(set, gnames.skip(j as int), size, filt)
                                    .len() >= 1);
                                assert(done_kj.len() < self.passing(filt).len());
                                assert(self.passing(cfg.filter).take(done_kj.len() as int)
                                    =~= done_kj);
                                assert(emitted_ok(
                                    *old(out),
                                    *out,
                                    self.passing(cfg.filter).take(done_kj.len() as int),
                                    gavgs,
                                    *cfg,
                                ));
                                assert(run_emits(
                                    *old(out),
                                    *out,
                                    self.passing(cfg.filter).take(done_kj.len() as int),
                                    *cfg,
                                ));
                            }
                            return Err(e);
                        },
                    }
                } else {
                    proof {
                        assert(done_k + passing_for_size(set, gnames.take(j + 1), size, filt)
                            =~= done_kj);
                    }
                }
                j = j + 1;
            }
            proof {
                assert(gnames.take(gnames.len() as int) =~= gnames);
                assert(gsizes.take(k + 1) =~= gsizes.take(k as int).push(gsizes[k as int]));
                lemma_pall_snoc(set, gnames, gsizes.take(k as int), gsizes[k as int], filt);
            }
            k = k + 1;
        }
        proof {
            assert(gsizes.take(gsizes.len() as int) =~= gsizes);
            assert(emitted_ok(pre_out, *out, self.passing(filt), gavgs, *cfg));
        }
        Ok(())
    }
}

} // verus!
