//! Derivation of typed benchmark inputs from a numeric range index.

use vstd::prelude::*;

verus! {

/// A pure derivation of one benchmark input from a range index.
///
/// `pre` says on which indices the generator may be asked for an input, and
/// `post` says which results it may hand back; `generate` is the derivation
/// itself. The chain starts from [`RangeGenerator`], which hands the index
/// through unchanged, and grows by [`compose`], which wraps the chain so far
/// in one further transform.
pub trait Generator: Sized {
    /// The type of the derived input.
    type Output;

    /// On which range indices an input may be requested.
    spec fn pre(&self, i: u64) -> bool;

    /// Which results the generator may hand back for the index `i`.
    spec fn post(&self, i: u64, t: Self::Output) -> bool;

    /// Derives the input for the range index `i`.
    fn generate(&self, i: u64) -> (r: Self::Output)
        requires
            self.pre(i),
        ensures
            self.post(i, r),
    ;
}

/// The identity generator: the benchmark input is the range index itself.
pub struct RangeGenerator;

impl Generator for RangeGenerator {
    type Output = u64;

    open spec fn pre(&self, i: u64) -> bool {
        true
    }

    open spec fn post(&self, i: u64, t: u64) -> bool {
        t == i
    }

    fn generate(&self, i: u64) -> (r: u64) {
        i
    }
}

/// A generator chain extended by one transform: the inner chain derives an
/// intermediate value from the index, and the transform maps it onward.
pub struct ComposedGen<G, F> {
    /// The chain composed so far.
    pub inner: G,
    /// The transform applied to the inner chain's result.
    pub f: F,
}

impl<U, G: Generator, F: Fn(G::Output) -> U> Generator for ComposedGen<G, F> {
    type Output = U;

    open spec fn pre(&self, i: u64) -> bool {
        &&& self.inner.pre(i)
        &&& forall|t: G::Output| self.inner.post(i, t) ==> call_requires(self.f, (t,))
    }

    open spec fn post(&self, i: u64, u: U) -> bool {
        exists|t: G::Output| self.inner.post(i, t) && call_ensures(self.f, (t,), u)
    }

    fn generate(&self, i: u64) -> (r: U) {
        let t = self.inner.generate(i);
        let ghost gt = t;
        let r = (self.f)(t);
        proof {
            assert(self.inner.post(i, gt) && call_ensures(self.f, (gt,), r));
        }
        r
    }
}

/// Chains one further transform onto a generator: the result derives its
/// value by applying `f` to what `g` derives. Composition is left-to-right in
/// registration order: each new transform wraps, and does not replace, the
/// chain built so far.
pub fn compose<U, G: Generator, F: Fn(G::Output) -> U>(g: G, f: F) -> (c: ComposedGen<G, F>)
    ensures
        c.inner == g,
        c.f == f,
{
    ComposedGen { inner: g, f }
}

/// For a chain extended by one transform whose parts are deterministic — the
/// inner chain's admissible results for `i` are exactly `s1(i)`, and the
/// transform's admissible results for an argument `t` are exactly `s2(t)` —
/// the chain's admissible results for `i` are exactly the composition
/// `s2(s1(i))`: what a chain of `g1` then `g2` derives for `i` is
/// `g2(g1(i))`.
pub proof fn lemma_chain_composes<U, G: Generator, F: Fn(G::Output) -> U>(
    c: ComposedGen<G, F>,
    i: u64,
    u: U,
    s1: spec_fn(u64) -> G::Output,
    s2: spec_fn(G::Output) -> U,
)
    requires
        c.post(i, u),
        forall|t: G::Output| c.inner.post(i, t) ==> t == s1(i),
        forall|t: G::Output, r: U| call_ensures(c.f, (t,), r) ==> r == s2(t),
    ensures
        u == s2(s1(i)),
{
    let t = choose|t: G::Output| c.inner.post(i, t) && call_ensures(c.f, (t,), u);
    assert(t == s1(i));
    assert(u == s2(t));
}

} // verus!
