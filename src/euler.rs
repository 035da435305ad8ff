//! The integrator: a fixed-step forward Euler march over `n` steps.
//!
//! The scalar type is generic. The numeric work of a step is handed in as
//! function values (the time advance `t + h`, the Euler update
//! `y + h * f(t, y)`, the exact solution and the pointwise distance), so the
//! march and its bookkeeping are proved for every choice of them.
use vstd::prelude::*;

verus! {

/// One time-indexed record of the run.
#[derive(Clone, Copy, Debug, PartialEq)]
pub struct Sample<N> {
    pub t: N,
    pub approx_y: N,
    pub exact_y: N,
    pub error: N,
}

/// Why a run was refused before integration began.
#[derive(Clone, Copy, Debug, PartialEq, Eq)]
pub enum RunError {
    /// A run needs at least one step.
    NoSteps,
    /// The end time does not lie after the start time.
    EmptySpan,
}

/// Checks the parameters of a run before it begins: at least one step, and
/// an end time after the start time (`span_positive` tells whether `b > a`).
/// A missing step is reported first.
pub fn validate_run(n: usize, span_positive: bool) -> (r: Result<(), RunError>)
    ensures
        r is Ok <==> n >= 1 && span_positive,
        r == Err::<(), RunError>(RunError::NoSteps) <==> n == 0,
        r == Err::<(), RunError>(RunError::EmptySpan) <==> n >= 1 && !span_positive,
{
    if n == 0 {
        Err(RunError::NoSteps)
    } else if !span_positive {
        Err(RunError::EmptySpan)
    } else {
        Ok(())
    }
}

/// The sample at time `t` with Euler state `y`: its exact value is what
/// `exact` gives at `t`, its error what `dist` gives for that value and `y`.
pub open spec fn is_sample_at<N, E, D>(exact: E, dist: D, t: N, y: N, s: Sample<N>) -> bool where
    E: Fn(N) -> N,
    D: Fn(N, N) -> N,
{
    &&& s.t == t
    &&& s.approx_y == y
    &&& exact.ensures((t,), s.exact_y)
    &&& dist.ensures((s.exact_y, y), s.error)
}

/// `s` is the sample sequence of the run from `(a, y0)` over `n` steps:
/// `n + 1` samples, the first at `(a, y0)`, each next one advanced by one
/// Euler step from the one before.
pub open spec fn is_run<N, T, S, E, D>(
    a: N,
    n: nat,
    y0: N,
    tick: T,
    step: S,
    exact: E,
    dist: D,
    s: Seq<Sample<N>>,
) -> bool where
    T: Fn(N) -> N,
    S: Fn(N, N) -> N,
    E: Fn(N) -> N,
    D: Fn(N, N) -> N,
{
    &&& s.len() == n + 1
    &&& s[0].t == a
    &&& s[0].approx_y == y0
    &&& forall|i: int| 0 <= i < s.len() ==> is_sample_at(exact, dist, #[trigger] s[i].t, s[i].approx_y, s[i])
    &&& forall|i: int|
        0 <= i < n ==> tick.ensures((#[trigger] s[i].t,), s[i + 1].t) && step.ensures(
            (s[i].t, s[i].approx_y),
            s[i + 1].approx_y,
        )
}

/// A function value that gives one result for each argument.
pub open spec fn functional1<N, F: Fn(N) -> N>(f: F) -> bool {
    forall|x: N, r1: N, r2: N| f.ensures((x,), r1) && f.ensures((x,), r2) ==> r1 == r2
}

/// A two-argument function value that gives one result for each pair.
pub open spec fn functional2<N, F: Fn(N, N) -> N>(f: F) -> bool {
    forall|x: N, y: N, r1: N, r2: N|
        f.ensures((x, y), r1) && f.ensures((x, y), r2) ==> r1 == r2
}

/// Integrates from `(a, y0)` over `n` fixed steps.
///
/// `tick` advances the time by the step size, `step` is the Euler update
/// `y + h * f(t, y)`, `exact` the closed-form solution and `dist` the
/// distance `|exact_y - y|`. The result holds `n + 1` samples; a run with no
/// step is refused.
pub fn integrate<N, T, S, E, D>(
    a: N,
    n: usize,
    y0: N,
    tick: T,
    step: S,
    exact: E,
    dist: D,
) -> (r: Result<Vec<Sample<N>>, RunError>) where
    N: Copy,
    T: Fn(N) -> N,
    S: Fn(N, N) -> N,
    E: Fn(N) -> N,
    D: Fn(N, N) -> N,

    requires
        n < usize::MAX,
        forall|t: N| tick.requires((t,)),
        forall|t: N, y: N| step.requires((t, y)),
        forall|t: N| exact.requires((t,)),
        forall|e: N, y: N| dist.requires((e, y)),
    ensures
        r is Err <==> n == 0,
        r matches Err(e) ==> e == RunError::NoSteps,
        r matches Ok(s) ==> is_run(a, n as nat, y0, tick, step, exact, dist, s@),
{
    if n == 0 {
        return Err(RunError::NoSteps);
    }
    let mut out: Vec<Sample<N>> = Vec::new();
    let mut t = a;
    let mut y = y0;
    let ye = exact(t);
    let e = dist(ye, y);
    out.push(Sample { t, approx_y: y, exact_y: ye, error: e });
    let mut i: usize = 0;
    while i < n
        invariant
            i <= n,
            n < usize::MAX,
            forall|t: N| tick.requires((t,)),
            forall|t: N, y: N| step.requires((t, y)),
            forall|t: N| exact.requires((t,)),
            forall|e: N, y: N| dist.requires((e, y)),
            out.len() == i + 1,
            out[0].t == a,
            out[0].approx_y == y0,
            out[i as int].t == t,
            out[i as int].approx_y == y,
            forall|j: int|
                0 <= j < out.len() ==> is_sample_at(exact, dist, #[trigger] out[j].t, out[j].approx_y, out[j]),
            forall|j: int|
                0 <= j < i ==> tick.ensures((#[trigger] out[j].t,), out[j + 1].t) && step.ensures(
                    (out[j].t, out[j].approx_y),
                    out[j + 1].approx_y,
                ),
        decreases n - i,
    {
        let ny = step(t, y);
        let nt = tick(t);
        let ye = exact(nt);
        let e = dist(ye, ny);
        proof {
            assert(tick.ensures((out[i as int].t,), nt));
        }
        out.push(Sample { t: nt, approx_y: ny, exact_y: ye, error: e });
        t = nt;
        y = ny;
        i = i + 1;
    }
    Ok(out)
}

/// A run of `n` steps holds `n + 1` samples whose times start at `a` and
/// advance by one tick from each sample to the next.
pub proof fn lemma_run_times<N, T, S, E, D>(
    a: N,
    n: nat,
    y0: N,
    tick: T,
    step: S,
    exact: E,
    dist: D,
    s: Seq<Sample<N>>,
) where
    T: Fn(N) -> N,
    S: Fn(N, N) -> N,
    E: Fn(N) -> N,
    D: Fn(N, N) -> N,

    requires
        is_run(a, n, y0, tick, step, exact, dist, s),
    ensures
        s.len() == n + 1,
        s[0].t == a,
        forall|i: int| 0 <= i < n ==> tick.ensures((#[trigger] s[i].t,), s[i + 1].t),
{
}

/// A run starts at `(a, y0)`, and where it has a step the first update is
/// the Euler step taken at `(a, y0)`.
pub proof fn lemma_run_start<N, T, S, E, D>(
    a: N,
    n: nat,
    y0: N,
    tick: T,
    step: S,
    exact: E,
    dist: D,
    s: Seq<Sample<N>>,
) where
    T: Fn(N) -> N,
    S: Fn(N, N) -> N,
    E: Fn(N) -> N,
    D: Fn(N, N) -> N,

    requires
        is_run(a, n, y0, tick, step, exact, dist, s),
    ensures
        s[0].t == a,
        s[0].approx_y == y0,
        n >= 1 ==> step.ensures((a, y0), s[1].approx_y),
{
    if n >= 1 {
        assert(step.ensures((s[0].t, s[0].approx_y), s[1].approx_y));
    }
}

/// The error of every sample is the distance between its exact value, taken
/// at its time, and its Euler value.
pub proof fn lemma_run_errors<N, T, S, E, D>(
    a: N,
    n: nat,
    y0: N,
    tick: T,
    step: S,
    exact: E,
    dist: D,
    s: Seq<Sample<N>>,
) where
    T: Fn(N) -> N,
    S: Fn(N, N) -> N,
    E: Fn(N) -> N,
    D: Fn(N, N) -> N,

    requires
        is_run(a, n, y0, tick, step, exact, dist, s),
    ensures
        forall|i: int|
            0 <= i <= n ==> exact.ensures((s[i].t,), s[i].exact_y) && dist.ensures(
                (s[i].exact_y, s[i].approx_y),
                #[trigger] s[i].error,
            ),
{
    assert forall|i: int| 0 <= i <= n implies exact.ensures((s[i].t,), s[i].exact_y) && dist.ensures(
        (s[i].exact_y, s[i].approx_y),
        #[trigger] s[i].error,
    ) by {
        assert(is_sample_at(exact, dist, s[i].t, s[i].approx_y, s[i]));
    }
}

/// Each Euler value after the first is the Euler step taken from the sample
/// before it.
pub proof fn lemma_run_steps<N, T, S, E, D>(
    a: N,
    n: nat,
    y0: N,
    tick: T,
    step: S,
    exact: E,
    dist: D,
    s: Seq<Sample<N>>,
) where
    T: Fn(N) -> N,
    S: Fn(N, N) -> N,
    E: Fn(N) -> N,
    D: Fn(N, N) -> N,

    requires
        is_run(a, n, y0, tick, step, exact, dist, s),
    ensures
        forall|i: int|
            0 <= i < n ==> step.ensures((s[i].t, s[i].approx_y), #[trigger] s[i + 1].approx_y),
{
    assert forall|i: int| 0 <= i < n implies step.ensures(
        (s[i].t, s[i].approx_y),
        #[trigger] s[i + 1].approx_y,
    ) by {
        assert(tick.ensures((s[i].t,), s[i + 1].t));
    }
}

/// Two runs from the same start with the same function values, each giving
/// one result per argument, hold the same samples: a run is a function of
/// its inputs.
pub proof fn lemma_run_deterministic<N, T, S, E, D>(
    a: N,
    n: nat,
    y0: N,
    tick: T,
    step: S,
    exact: E,
    dist: D,
    s1: Seq<Sample<N>>,
    s2: Seq<Sample<N>>,
) where
    T: Fn(N) -> N,
    S: Fn(N, N) -> N,
    E: Fn(N) -> N,
    D: Fn(N, N) -> N,

    requires
        functional1(tick),
        functional2(step),
        functional1(exact),
        functional2(dist),
        is_run(a, n, y0, tick, step, exact, dist, s1),
        is_run(a, n, y0, tick, step, exact, dist, s2),
    ensures
        s1 == s2,
{
    assert forall|k: int| 0 <= k < s1.len() implies s1[k] == s2[k] by {
        lemma_runs_agree_upto(a, n, y0, tick, step, exact, dist, s1, s2, k);
    }
    assert(s1 =~= s2);
}

proof fn lemma_runs_agree_upto<N, T, S, E, D>(
    a: N,
    n: nat,
    y0: N,
    tick: T,
    step: S,
    exact: E,
    dist: D,
    s1: Seq<Sample<N>>,
    s2: Seq<Sample<N>>,
    k: int,
) where
    T: Fn(N) -> N,
    S: Fn(N, N) -> N,
    E: Fn(N) -> N,
    D: Fn(N, N) -> N,

    requires
        functional1(tick),
        functional2(step),
        functional1(exact),
        functional2(dist),
        is_run(a, n, y0, tick, step, exact, dist, s1),
        is_run(a, n, y0, tick, step, exact, dist, s2),
        0 <= k < s1.len(),
    ensures
        s1[k] == s2[k],
    decreases k,
{
    if k > 0 {
        lemma_runs_agree_upto(a, n, y0, tick, step, exact, dist, s1, s2, k - 1);
        assert(tick.ensures((s1[k - 1].t,), s1[k].t));
        assert(tick.ensures((s2[k - 1].t,), s2[k].t));
        assert(step.ensures((s1[k - 1].t, s1[k - 1].approx_y), s1[k].approx_y));
        assert(step.ensures((s2[k - 1].t, s2[k - 1].approx_y), s2[k].approx_y));
    }
    assert(is_sample_at(exact, dist, s1[k].t, s1[k].approx_y, s1[k]));
    assert(is_sample_at(exact, dist, s2[k].t, s2[k].approx_y, s2[k]));
}

/// A one-step run holds two samples: the start `(a, y0)` and the sample one
/// step later, at the time `tick` gives for `a`.
pub proof fn lemma_one_step_run<N, T, S, E, D>(
    a: N,
    y0: N,
    tick: T,
    step: S,
    exact: E,
    dist: D,
    s: Seq<Sample<N>>,
) where
    T: Fn(N) -> N,
    S: Fn(N, N) -> N,
    E: Fn(N) -> N,
    D: Fn(N, N) -> N,

    requires
        is_run(a, 1, y0, tick, step, exact, dist, s),
    ensures
        s.len() == 2,
        s[0].t == a,
        s[0].approx_y == y0,
        tick.ensures((a,), s[1].t),
        step.ensures((a, y0), s[1].approx_y),
{
    assert(tick.ensures((s[0].t,), s[1].t));
}

} // verus!
