//! The Monte Carlo simulator.
//!
//! Each trial threads one shared `remaining` accumulator through every
//! project in ID order: a project's recorded outcome is the running total
//! including all projects before it, modelling one delivery capacity
//! working through the projects sequentially.  Per backlog estimate one
//! velocity sample is drawn (estimate is divided by it), the project's
//! adjusted task hours are multiplied by one drawn buffer sample, and the
//! product is added to `remaining`.
//!
//! Randomness comes from `rand`'s thread-local generator behind a trusted
//! wrapper whose only promise is that the drawn index is in range; every
//! outcome-shaping computation after a draw is verified for all possible
//! draws.

use crate::fixed::{div_ratio, div_ratio_spec, mul_ratio, mul_ratio_spec, SCALE};
use vstd::prelude::*;

verus! {

/// The `rand` thread-local generator, opaque to verification.
#[verifier::external_type_specification]
#[verifier::external_body]
pub struct ExThreadRng(rand::rngs::ThreadRng);

/// Relies on rand's `Rng::gen_range` over `0..len`: the result is an
/// index strictly below `len` (uniformly distributed, with replacement;
/// nothing further can be promised of a random draw).
#[verifier::external_body]
fn rand_index(rng: &mut rand::rngs::ThreadRng, len: usize) -> (i: usize)
    requires
        len > 0,
    ensures
        i < len,
{
    rand::Rng::gen_range(rng, 0..len)
}

/// Why a simulation stopped.
#[derive(Clone, Copy, Debug, PartialEq, Eq, Structural)]
pub enum SimError {
    /// Fewer trials requested than percentile ranks to extract.
    TooFewTrials,
    /// A simulated outcome does not fit in `u64`.
    Overflow,
}

/// `draws` indexes a velocity distribution of length `len`, one draw per
/// backlog estimate.
pub open spec fn valid_draws(draws: Seq<usize>, n: int, len: int) -> bool {
    draws.len() == n && forall|i: int| 0 <= i < draws.len() ==> #[trigger] draws[i] < len
}

/// Total adjusted task hours of a backlog: each estimate divided by its
/// drawn velocity sample, summed.
pub open spec fn task_hours_spec(backlog: Seq<u64>, vel: Seq<u64>, draws: Seq<usize>) -> int
    decreases backlog.len(),
{
    if backlog.len() == 0 {
        0
    } else {
        task_hours_spec(backlog.drop_last(), vel, draws.drop_last()) + div_ratio_spec(
            backlog.last() as int,
            vel[draws.last() as int] as int,
        )
    }
}

/// One project's recorded outcome for one trial: the running total from
/// earlier projects plus this project's task hours scaled by the drawn
/// buffer sample.
pub open spec fn trial_total_spec(
    prev: int,
    backlog: Seq<u64>,
    vel: Seq<u64>,
    draws: Seq<usize>,
    b: int,
) -> int {
    prev + mul_ratio_spec(task_hours_spec(backlog, vel, draws), b)
}

/// `val` is a possible outcome for this project and trial: some in-range
/// choice of velocity draws and buffer sample produces it exactly.
pub open spec fn outcome_ok(
    prev: int,
    backlog: Seq<u64>,
    vel: Seq<u64>,
    buf: Seq<u64>,
    val: int,
) -> bool {
    exists|draws: Seq<usize>, bi: int|
        valid_draws(draws, backlog.len() as int, vel.len() as int) && 0 <= bi < buf.len() && val
            == #[trigger] trial_total_spec(prev, backlog, vel, draws, buf[bi] as int)
}

/// The outcome of project `p`'s predecessor in trial `t` (zero for the
/// first project): the `remaining` capacity carried into `p`.
pub open spec fn prev_of(runs: Seq<Vec<u64>>, t: int, p: int) -> int {
    if p == 0 {
        0
    } else {
        runs[p - 1]@[t] as int
    }
}

/// Everything the simulator promises of a finished run matrix, for every
/// trial and project: each outcome arises from in-range draws; outcomes
/// never shrink along the project order; and a project with no backlog
/// records exactly the running total it inherited.
pub open spec fn sim_ok(
    runs: Seq<Vec<u64>>,
    backlogs: Seq<Vec<u64>>,
    vel: Seq<u64>,
    buf: Seq<u64>,
    trials: int,
) -> bool {
    &&& runs.len() == backlogs.len()
    &&& forall|p: int| 0 <= p < runs.len() ==> (#[trigger] runs[p])@.len() == trials
    &&& forall|t: int, p: int|
        0 <= t < trials && 0 <= p < runs.len() ==> outcome_ok(
            prev_of(runs, t, p),
            backlogs[p]@,
            vel,
            buf,
            (#[trigger] runs[p]@[t]) as int,
        )
    &&& forall|t: int, p: int|
        0 <= t < trials && 0 <= p < runs.len() ==> (#[trigger] runs[p]@[t]) as int >= prev_of(
            runs,
            t,
            p,
        )
    &&& forall|t: int, p: int|
        0 <= t < trials && 0 <= p < runs.len() && backlogs[p]@.len() == 0 ==> (#[trigger]
        runs[p]@[t]) as int == prev_of(runs, t, p)
}

/// `runs` holds, project by project, a permutation of the raw trial
/// outcomes in `raw`.
pub open spec fn runs_permutation(raw: Seq<Vec<u64>>, runs: Seq<Vec<u64>>) -> bool {
    &&& raw.len() == runs.len()
    &&& forall|p: int|
        0 <= p < raw.len() ==> (#[trigger] runs[p])@.to_multiset() == raw[p]@.to_multiset()
}

/// Smallest element of `s`, zero when `s` is empty.
pub open spec fn seq_min(s: Seq<u64>) -> int
    decreases s.len(),
{
    if s.len() == 0 {
        0
    } else if s.len() == 1 {
        s[0] as int
    } else {
        let m = seq_min(s.drop_last());
        if (s.last() as int) < m {
            s.last() as int
        } else {
            m
        }
    }
}

/// Largest element of `s`, zero when `s` is empty.
pub open spec fn seq_max(s: Seq<u64>) -> int
    decreases s.len(),
{
    if s.len() == 0 {
        0
    } else if s.len() == 1 {
        s[0] as int
    } else {
        let m = seq_max(s.drop_last());
        if (s.last() as int) > m {
            s.last() as int
        } else {
            m
        }
    }
}

/// One project's largest possible task-hour total: every estimate divided
/// by the smallest velocity sample `vmin`.
pub open spec fn worst_hours(backlog: Seq<u64>, vmin: int) -> int
    decreases backlog.len(),
{
    if backlog.len() == 0 {
        0
    } else {
        worst_hours(backlog.drop_last(), vmin) + div_ratio_spec(backlog.last() as int, vmin)
    }
}

/// The largest trial total any choice of draws can reach: each project's
/// worst task hours scaled by the largest buffer sample, summed over all
/// projects.  When this fits `u64`, no draw can overflow and a simulation
/// is guaranteed to succeed.
pub open spec fn worst_total(backlogs: Seq<Vec<u64>>, vel: Seq<u64>, buf: Seq<u64>) -> int
    decreases backlogs.len(),
{
    if backlogs.len() == 0 {
        0
    } else {
        worst_total(backlogs.drop_last(), vel, buf) + mul_ratio_spec(
            worst_hours(backlogs.last()@, seq_min(vel)),
            seq_max(buf),
        )
    }
}

/// The minimum bounds every element from below; with positive elements it
/// is itself positive.
proof fn lemma_seq_min_le(s: Seq<u64>, i: int)
    requires
        0 <= i < s.len(),
    ensures
        seq_min(s) <= s[i],
        (forall|k: int| 0 <= k < s.len() ==> #[trigger] s[k] > 0) ==> seq_min(s) >= 1,
    decreases s.len(),
{
    if s.len() > 1 {
        if i < s.len() - 1 {
            lemma_seq_min_le(s.drop_last(), i);
        } else {
            lemma_seq_min_le(s.drop_last(), 0);
        }
        assert forall|k: int| 0 <= k < s.len() - 1 implies s.drop_last()[k] == s[k] by {}
    }
}

/// The maximum bounds every element from above, and is never negative on
/// unsigned elements.
proof fn lemma_seq_max_ge(s: Seq<u64>, i: int)
    requires
        0 <= i < s.len(),
    ensures
        s[i] <= seq_max(s),
        seq_max(s) >= 0,
    decreases s.len(),
{
    if s.len() > 1 {
        if i < s.len() - 1 {
            lemma_seq_max_ge(s.drop_last(), i);
        } else {
            lemma_seq_max_ge(s.drop_last(), 0);
        }
        assert forall|k: int| 0 <= k < s.len() - 1 implies s.drop_last()[k] == s[k] by {}
    }
}

/// With a positive `vmin` the worst task-hour total is non-negative.
proof fn lemma_worst_hours_nonneg(backlog: Seq<u64>, vmin: int)
    requires
        vmin >= 1,
    ensures
        worst_hours(backlog, vmin) >= 0,
    decreases backlog.len(),
{
    if backlog.len() > 0 {
        lemma_worst_hours_nonneg(backlog.drop_last(), vmin);
        vstd::arithmetic::div_mod::lemma_div_pos_is_pos(
            (backlog.last() as int) * (SCALE as int),
            vmin,
        );
    }
}

/// Scaling a larger task-hour total by a larger buffer never shrinks the
/// overhead.
proof fn lemma_mul_ratio_mono(t1: int, t2: int, b1: int, b2: int)
    requires
        0 <= t1 <= t2,
        0 <= b1 <= b2,
    ensures
        mul_ratio_spec(t1, b1) <= mul_ratio_spec(t2, b2),
        mul_ratio_spec(t1, b1) >= 0,
{
    assert(t1 * b1 <= t2 * b1) by {
        vstd::arithmetic::mul::lemma_mul_inequality(t1, t2, b1);
    }
    assert(t2 * b1 <= t2 * b2) by {
        vstd::arithmetic::mul::lemma_mul_inequality(b1, b2, t2);
        vstd::arithmetic::mul::lemma_mul_is_commutative(b1, t2);
        vstd::arithmetic::mul::lemma_mul_is_commutative(b2, t2);
    }
    vstd::arithmetic::mul::lemma_mul_nonnegative(t1, b1);
    vstd::arithmetic::div_mod::lemma_div_is_ordered(t1 * b1, t2 * b2, SCALE as int);
    vstd::arithmetic::div_mod::lemma_div_pos_is_pos(t1 * b1, SCALE as int);
}

/// No choice of in-range draws exceeds the worst task-hour total.
proof fn lemma_task_hours_le_worst(backlog: Seq<u64>, vel: Seq<u64>, draws: Seq<usize>)
    requires
        valid_draws(draws, backlog.len() as int, vel.len() as int),
        forall|k: int| 0 <= k < vel.len() ==> #[trigger] vel[k] > 0,
    ensures
        task_hours_spec(backlog, vel, draws) <= worst_hours(backlog, seq_min(vel)),
    decreases backlog.len(),
{
    if backlog.len() > 0 {
        assert(valid_draws(
            draws.drop_last(),
            backlog.drop_last().len() as int,
            vel.len() as int,
        ));
        lemma_task_hours_le_worst(backlog.drop_last(), vel, draws.drop_last());
        let d = draws.last() as int;
        lemma_seq_min_le(vel, d);
        vstd::arithmetic::div_mod::lemma_div_is_ordered_by_denominator(
            (backlog.last() as int) * (SCALE as int),
            seq_min(vel),
            vel[d] as int,
        );
    }
}

/// A prefix of the worst total never exceeds the whole, as long as every
/// non-empty backlog has a velocity sample to draw.
proof fn lemma_worst_total_mono(backlogs: Seq<Vec<u64>>, i: int, vel: Seq<u64>, buf: Seq<u64>)
    requires
        0 <= i <= backlogs.len(),
        forall|k: int| 0 <= k < vel.len() ==> #[trigger] vel[k] > 0,
        (exists|q: int| 0 <= q < backlogs.len() && (#[trigger] backlogs[q])@.len() > 0)
            ==> vel.len() > 0,
    ensures
        worst_total(backlogs.take(i), vel, buf) <= worst_total(backlogs, vel, buf),
    decreases backlogs.len() - i,
{
    if i == backlogs.len() {
        assert(backlogs.take(i) =~= backlogs);
    } else {
        assert(backlogs.take(i + 1).drop_last() =~= backlogs.take(i));
        assert(backlogs.take(i + 1).last() == backlogs[i]);
        if backlogs[i]@.len() == 0 {
            assert(worst_hours(backlogs[i]@, seq_min(vel)) == 0);
            assert(mul_ratio_spec(0, seq_max(buf)) >= 0) by {
                if buf.len() > 0 {
                    lemma_seq_max_ge(buf, 0);
                }
                lemma_mul_ratio_mono(0, 0, seq_max(buf), seq_max(buf));
            }
        } else {
            assert(backlogs[i]@.len() > 0);
            assert(vel.len() > 0);
            lemma_seq_min_le(vel, 0);
            lemma_worst_hours_nonneg(backlogs[i]@, seq_min(vel));
            if buf.len() > 0 {
                lemma_seq_max_ge(buf, 0);
            }
            lemma_mul_ratio_mono(
                worst_hours(backlogs[i]@, seq_min(vel)),
                worst_hours(backlogs[i]@, seq_min(vel)),
                seq_max(buf),
                seq_max(buf),
            );
        }
        lemma_worst_total_mono(backlogs, i + 1, vel, buf);
    }
}

/// Draws one in-range velocity index per backlog estimate.
fn draw_indices(rng: &mut rand::rngs::ThreadRng, n: usize, len: usize) -> (d: Vec<usize>)
    requires
        n > 0 ==> len > 0,
    ensures
        valid_draws(d@, n as int, len as int),
{
    let mut d: Vec<usize> = Vec::new();
    let mut i: usize = 0;
    while i < n
        invariant
            n > 0 ==> len > 0,
            i <= n,
            d@.len() == i,
            forall|k: int| 0 <= k < d@.len() ==> #[trigger] d@[k] < len,
        decreases n - i,
    {
        let ix = rand_index(rng, len);
        d.push(ix);
        i += 1;
    }
    d
}

/// Prefixes of the task-hour sum never exceed the whole sum.
proof fn lemma_task_hours_prefix(backlog: Seq<u64>, vel: Seq<u64>, draws: Seq<usize>, i: int)
    requires
        valid_draws(draws, backlog.len() as int, vel.len() as int),
        forall|k: int| 0 <= k < vel.len() ==> #[trigger] vel[k] > 0,
        0 <= i <= backlog.len(),
    ensures
        task_hours_spec(backlog.take(i), vel, draws.take(i)) <= task_hours_spec(
            backlog,
            vel,
            draws,
        ),
        task_hours_spec(backlog.take(i), vel, draws.take(i)) >= 0,
    decreases backlog.len() - i,
{
    if i == backlog.len() {
        assert(backlog.take(i) =~= backlog);
        assert(draws.take(i) =~= draws);
        lemma_task_hours_nonneg(backlog, vel, draws);
    } else {
        assert(backlog.take(i + 1).drop_last() =~= backlog.take(i));
        assert(draws.take(i + 1).drop_last() =~= draws.take(i));
        assert(backlog.take(i + 1).last() == backlog[i]);
        assert(draws.take(i + 1).last() == draws[i]);
        vstd::arithmetic::div_mod::lemma_div_pos_is_pos(
            (backlog[i] as int) * (SCALE as int),
            vel[draws[i] as int] as int,
        );
        lemma_task_hours_prefix(backlog, vel, draws, i + 1);
        lemma_task_hours_nonneg(backlog.take(i), vel, draws.take(i));
    }
}

/// Each adjusted estimate is non-negative, so the sum is.
proof fn lemma_task_hours_nonneg(backlog: Seq<u64>, vel: Seq<u64>, draws: Seq<usize>)
    requires
        valid_draws(draws, backlog.len() as int, vel.len() as int),
        forall|k: int| 0 <= k < vel.len() ==> #[trigger] vel[k] > 0,
    ensures
        task_hours_spec(backlog, vel, draws) >= 0,
    decreases backlog.len(),
{
    if backlog.len() > 0 {
        assert(valid_draws(
            draws.drop_last(),
            backlog.drop_last().len() as int,
            vel.len() as int,
        ));
        lemma_task_hours_nonneg(backlog.drop_last(), vel, draws.drop_last());
        vstd::arithmetic::div_mod::lemma_div_pos_is_pos(
            (backlog.last() as int) * (SCALE as int),
            vel[draws.last() as int] as int,
        );
    }
}

/// Scaling by a buffer of at least `1.0` never shrinks the task hours.
proof fn lemma_mul_ratio_grows(t: int, b: int)
    requires
        t >= 0,
        b >= SCALE,
    ensures
        mul_ratio_spec(t, b) >= t,
        mul_ratio_spec(t, b) >= 0,
{
    assert(t * (SCALE as int) <= t * b) by {
        vstd::arithmetic::mul::lemma_mul_inequality(SCALE as int, b, t);
        vstd::arithmetic::mul::lemma_mul_is_commutative(SCALE as int, t);
        vstd::arithmetic::mul::lemma_mul_is_commutative(b, t);
    }
    vstd::arithmetic::div_mod::lemma_div_is_ordered(t * (SCALE as int), t * b, SCALE as int);
    vstd::arithmetic::div_mod::lemma_div_multiples_vanish(t, SCALE as int);
    assert((SCALE as int) * t == t * (SCALE as int)) by {
        vstd::arithmetic::mul::lemma_mul_is_commutative(SCALE as int, t);
    }
}

/// Computes one project's outcome for one trial from already-made draws:
/// exactly `trial_total_spec`, or `None` exactly when that total leaves
/// `u64`.  Verified for every possible value of the draws.
pub fn outcome_from_draws(
    backlog: &Vec<u64>,
    velocity: &Vec<u64>,
    draws: &Vec<usize>,
    bval: u64,
    prev: u64,
) -> (r: Option<u64>)
    requires
        valid_draws(draws@, backlog@.len() as int, velocity@.len() as int),
        forall|k: int| 0 <= k < velocity@.len() ==> #[trigger] velocity@[k] > 0,
        bval >= SCALE,
    ensures
        r is Some <==> trial_total_spec(prev as int, backlog@, velocity@, draws@, bval as int)
            <= u64::MAX,
        r is Some ==> r->Some_0 == trial_total_spec(
            prev as int,
            backlog@,
            velocity@,
            draws@,
            bval as int,
        ),
{
    let ghost full_hours = task_hours_spec(backlog@, velocity@, draws@);
    let mut hours: u64 = 0;
    let mut i: usize = 0;
    while i < backlog.len()
        invariant
            valid_draws(draws@, backlog@.len() as int, velocity@.len() as int),
            forall|k: int| 0 <= k < velocity@.len() ==> #[trigger] velocity@[k] > 0,
            bval >= SCALE,
            full_hours == task_hours_spec(backlog@, velocity@, draws@),
            i <= backlog@.len(),
            hours == task_hours_spec(backlog@.take(i as int), velocity@, draws@.take(i as int)),
        decreases backlog@.len() - i,
    {
        proof {
            assert(backlog@.take(i as int + 1).drop_last() =~= backlog@.take(i as int));
            assert(draws@.take(i as int + 1).drop_last() =~= draws@.take(i as int));
        }
        let d = draws[i];
        let adjusted = match div_ratio(backlog[i], velocity[d]) {
            Option::Some(v) => v,
            Option::None => {
                proof {
                    lemma_overflow_implies_total_overflow(
                        backlog@,
                        velocity@,
                        draws@,
                        i as int,
                        bval,
                        prev,
                    );
                }
                return None;
            },
        };
        let next_hours = match hours.checked_add(adjusted) {
            Option::Some(v) => v,
            Option::None => {
                proof {
                    lemma_overflow_implies_total_overflow(
                        backlog@,
                        velocity@,
                        draws@,
                        i as int,
                        bval,
                        prev,
                    );
                }
                return None;
            },
        };
        hours = next_hours;
        i += 1;
    }
    proof {
        assert(backlog@.take(backlog@.len() as int) =~= backlog@);
        assert(draws@.take(backlog@.len() as int) =~= draws@);
    }
    let overhead = match mul_ratio(hours, bval) {
        Option::Some(v) => v,
        Option::None => {
            proof {
                lemma_task_hours_nonneg(backlog@, velocity@, draws@);
            }
            return None;
        },
    };
    match prev.checked_add(overhead) {
        Option::Some(total) => Some(total),
        Option::None => None,
    }
}

/// Runs `trials` independent Monte Carlo trials over every project.
///
/// Per trial, projects are visited in ID order with one shared running
/// total; see the module description.  On success the run matrix satisfies
/// `sim_ok`: one outcome per project per trial, each produced by in-range
/// draws, never below the inherited total, and exactly the inherited total
/// for a project without backlog.  Success is guaranteed whenever
/// `worst_total` fits `u64`, since then no draw can overflow; past that
/// bound `Err(Overflow)` can arise, depending on the random draws.
pub fn simulate(
    velocity: &Vec<u64>,
    buffer: &Vec<u64>,
    backlogs: &Vec<Vec<u64>>,
    trials: usize,
    rng: &mut rand::rngs::ThreadRng,
) -> (res: Result<Vec<Vec<u64>>, SimError>)
    requires
        forall|k: int| 0 <= k < velocity@.len() ==> #[trigger] velocity@[k] > 0,
        forall|k: int| 0 <= k < buffer@.len() ==> #[trigger] buffer@[k] >= SCALE,
        backlogs@.len() > 0 ==> buffer@.len() > 0,
        (exists|p: int| 0 <= p < backlogs@.len() && (#[trigger] backlogs@[p])@.len() > 0)
            ==> velocity@.len() > 0,
    ensures
        res is Ok ==> sim_ok(res->Ok_0@, backlogs@, velocity@, buffer@, trials as int),
        res is Err ==> res == Err::<Vec<Vec<u64>>, SimError>(SimError::Overflow),
        worst_total(backlogs@, velocity@, buffer@) <= u64::MAX ==> res is Ok,
{
    let mut runs: Vec<Vec<u64>> = Vec::new();
    let mut p0: usize = 0;
    while p0 < backlogs.len()
        invariant
            p0 <= backlogs@.len(),
            runs@.len() == p0,
            forall|q: int| 0 <= q < p0 ==> (#[trigger] runs@[q])@.len() == 0,
        decreases backlogs@.len() - p0,
    {
        runs.push(Vec::new());
        p0 += 1;
    }
    let mut t: usize = 0;
    while t < trials
        invariant
            forall|k: int| 0 <= k < velocity@.len() ==> #[trigger] velocity@[k] > 0,
            forall|k: int| 0 <= k < buffer@.len() ==> #[trigger] buffer@[k] >= SCALE,
            backlogs@.len() > 0 ==> buffer@.len() > 0,
            (exists|p: int| 0 <= p < backlogs@.len() && (#[trigger] backlogs@[p])@.len() > 0)
                ==> velocity@.len() > 0,
            t <= trials,
            runs@.len() == backlogs@.len(),
            forall|q: int| 0 <= q < runs@.len() ==> (#[trigger] runs@[q])@.len() == t,
            forall|t2: int, q: int|
                0 <= t2 < t && 0 <= q < runs@.len() ==> outcome_ok(
                    prev_of(runs@, t2, q),
                    backlogs@[q]@,
                    velocity@,
                    buffer@,
                    (#[trigger] runs@[q]@[t2]) as int,
                ),
            forall|t2: int, q: int|
                0 <= t2 < t && 0 <= q < runs@.len() ==> (#[trigger] runs@[q]@[t2]) as int
                    >= prev_of(runs@, t2, q),
            forall|t2: int, q: int|
                0 <= t2 < t && 0 <= q < runs@.len() && backlogs@[q]@.len() == 0 ==> (#[trigger]
                runs@[q]@[t2]) as int == prev_of(runs@, t2, q),
        decreases trials - t,
    {
        let mut remaining: u64 = 0;
        let mut p: usize = 0;
        proof {
            assert(backlogs@.take(0) =~= Seq::<Vec<u64>>::empty());
        }
        while p < backlogs.len()
            invariant
                remaining as int <= worst_total(backlogs@.take(p as int), velocity@, buffer@),
                forall|k: int| 0 <= k < velocity@.len() ==> #[trigger] velocity@[k] > 0,
                forall|k: int| 0 <= k < buffer@.len() ==> #[trigger] buffer@[k] >= SCALE,
                backlogs@.len() > 0 ==> buffer@.len() > 0,
                (exists|q: int| 0 <= q < backlogs@.len() && (#[trigger] backlogs@[q])@.len() > 0)
                    ==> velocity@.len() > 0,
                t < trials,
                p <= backlogs@.len(),
                runs@.len() == backlogs@.len(),
                forall|q: int| 0 <= q < p ==> (#[trigger] runs@[q])@.len() == t + 1,
                forall|q: int| p <= q < runs@.len() ==> (#[trigger] runs@[q])@.len() == t,
                remaining as int == prev_of(runs@, t as int, p as int),
                forall|t2: int, q: int|
                    0 <= t2 < t && 0 <= q < runs@.len() ==> outcome_ok(
                        prev_of(runs@, t2, q),
                        backlogs@[q]@,
                        velocity@,
                        buffer@,
                        (#[trigger] runs@[q]@[t2]) as int,
                    ),
                forall|t2: int, q: int|
                    0 <= t2 < t && 0 <= q < runs@.len() ==> (#[trigger] runs@[q]@[t2]) as int
                        >= prev_of(runs@, t2, q),
                forall|t2: int, q: int|
                    0 <= t2 < t && 0 <= q < runs@.len() && backlogs@[q]@.len() == 0 ==> (
                    #[trigger] runs@[q]@[t2]) as int == prev_of(runs@, t2, q),
                forall|q: int|
                    0 <= q < p ==> outcome_ok(
                        prev_of(runs@, t as int, q),
                        backlogs@[q]@,
                        velocity@,
                        buffer@,
                        (#[trigger] runs@[q]@[t as int]) as int,
                    ),
                forall|q: int|
                    0 <= q < p ==> (#[trigger] runs@[q]@[t as int]) as int >= prev_of(
                        runs@,
                        t as int,
                        q,
                    ),
                forall|q: int|
                    0 <= q < p && backlogs@[q]@.len() == 0 ==> (#[trigger] runs@[q]@[t as int])
                        as int == prev_of(runs@, t as int, q),
            decreases backlogs@.len() - p,
        {
            let n = backlogs[p].len();
            proof {
                if n > 0 {
                    assert((backlogs@[p as int])@.len() > 0);
                    assert(velocity@.len() > 0);
                }
            }
            let draws = draw_indices(rng, n, velocity.len());
            let bidx = rand_index(rng, buffer.len());
            let bval = buffer[bidx];
            let ghost old_runs = runs@;
            proof {
                assert(backlogs@.take(p as int + 1).drop_last() =~= backlogs@.take(p as int));
                assert(backlogs@.take(p as int + 1).last() == backlogs@[p as int]);
                lemma_task_hours_nonneg(backlogs@[p as int]@, velocity@, draws@);
                lemma_task_hours_le_worst(backlogs@[p as int]@, velocity@, draws@);
                lemma_seq_max_ge(buffer@, bidx as int);
                lemma_mul_ratio_mono(
                    task_hours_spec(backlogs@[p as int]@, velocity@, draws@),
                    worst_hours(backlogs@[p as int]@, seq_min(velocity@)),
                    bval as int,
                    seq_max(buffer@),
                );
                assert(trial_total_spec(
                    remaining as int,
                    backlogs@[p as int]@,
                    velocity@,
                    draws@,
                    bval as int,
                ) <= worst_total(backlogs@.take(p as int + 1), velocity@, buffer@));
            }
            match outcome_from_draws(&backlogs[p], velocity, &draws, bval, remaining) {
                Option::Some(v) => {
                    let rp = vstd::std_specs::vec::vec_index_mut(&mut runs, p);
                    rp.push(v);
                    proof {
                        assert(runs@.len() == old_runs.len());
                        assert(forall|q: int|
                            0 <= q < old_runs.len() && q != p ==> #[trigger] runs@[q]
                                == old_runs[q]);
                        assert(runs@[p as int]@ == old_runs[p as int]@.push(v));
                        lemma_task_hours_nonneg(backlogs@[p as int]@, velocity@, draws@);
                        lemma_mul_ratio_grows(
                            task_hours_spec(backlogs@[p as int]@, velocity@, draws@),
                            bval as int,
                        );
                        assert(v as int == trial_total_spec(
                            remaining as int,
                            backlogs@[p as int]@,
                            velocity@,
                            draws@,
                            buffer@[bidx as int] as int,
                        ));
                        assert(outcome_ok(
                            remaining as int,
                            backlogs@[p as int]@,
                            velocity@,
                            buffer@,
                            v as int,
                        ));
                        if backlogs@[p as int]@.len() == 0 {
                            assert(task_hours_spec(backlogs@[p as int]@, velocity@, draws@) == 0);
                            assert(mul_ratio_spec(0, bval as int) == 0);
                            assert(v == remaining);
                        }
                        assert(prev_of(runs@, t as int, p as int) == remaining as int);
                    }
                    remaining = v;
                },
                Option::None => {
                    proof {
                        lemma_worst_total_mono(backlogs@, p as int + 1, velocity@, buffer@);
                        assert(worst_total(backlogs@, velocity@, buffer@) > u64::MAX);
                    }
                    return Err(SimError::Overflow);
                },
            }
            p += 1;
        }
        t += 1;
    }
    Ok(runs)
}

/// If the running task-hour prefix at step `i` already leaves `u64`, so
/// does the whole trial total.
proof fn lemma_overflow_implies_total_overflow(
    backlog: Seq<u64>,
    vel: Seq<u64>,
    draws: Seq<usize>,
    i: int,
    bval: u64,
    prev: u64,
)
    requires
        valid_draws(draws, backlog.len() as int, vel.len() as int),
        forall|k: int| 0 <= k < vel.len() ==> #[trigger] vel[k] > 0,
        0 <= i < backlog.len(),
        bval >= SCALE,
        task_hours_spec(backlog.take(i + 1), vel, draws.take(i + 1)) > u64::MAX,
    ensures
        trial_total_spec(prev as int, backlog, vel, draws, bval as int) > u64::MAX,
{
    lemma_task_hours_prefix(backlog, vel, draws, i + 1);
    let full = task_hours_spec(backlog, vel, draws);
    assert(full > u64::MAX);
    lemma_mul_ratio_grows(full, bval as int);
}

} // verus!
