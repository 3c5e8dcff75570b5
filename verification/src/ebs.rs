//! The evidence-based-scheduling context: loaded distributions, per-project
//! backlogs, and the Monte Carlo entry point.
//!
//! `new_from_records` runs the loader and the distribution builder over an
//! already-parsed record sequence; `montecarlo` runs the requested number
//! of trials and reduces each project's outcomes to one hundred percentile
//! ranks, mirroring the pipeline order loader, builder, simulator, sampler.

use crate::dists::{
    buf_fits, buffer_ratio_list, build, lemma_ratios_match, vel_fits, velocity_ratios_u64,
};
use crate::fixed::{ratio_floor_spec, SCALE};
use crate::loader::{load, LoadError};
use crate::percentile::{extract, extraction_of};
use crate::records::{
    backlog_of, buffer_den, buffer_num, loadable, model_of, no_degenerate, project_names,
    sums_fit, velocity_pairs, Rec, TaskRecord,
};
use crate::sim::{prev_of, runs_permutation, sim_ok, simulate, worst_total, SimError};
use crate::sort::{lemma_sorted_same_multiset_equal, sort_u64, sorted};
use vstd::prelude::*;

verus! {

/// Trials run when the caller does not pick a count.
pub const DEFAULT_COUNT: usize = 1_000_000;

/// Percentile ranks extracted per project.
pub const RANK_COUNT: usize = 100;

/// A ready-to-simulate scheduling context.
pub struct EBS {
    /// Project names; the index is the project's ID.
    pub projects: Vec<String>,
    /// Sorted pooled buffer distribution.
    pub buffer: Vec<u64>,
    /// Per-project outstanding estimates, indexed by project ID.
    pub todos: Vec<Vec<u64>>,
    /// Sorted pooled velocity distribution.
    pub velocity: Vec<u64>,
    /// Per-project outcome sequences of the last simulation, each sorted
    /// ascending once the run completes.
    pub simulation_runs: Vec<Vec<u64>>,
}

/// Every derived ratio of the model fits `u64`.
pub open spec fn ratios_fit(rs: Seq<Rec>) -> bool {
    &&& vel_fits(velocity_pairs(rs))
    &&& forall|k: int|
        0 <= k < project_names(rs).len() ==> (buffer_den(rs, #[trigger] project_names(rs)[k]) > 0
            ==> ratio_floor_spec(
            buffer_num(rs, project_names(rs)[k]),
            buffer_den(rs, project_names(rs)[k]),
        ) <= u64::MAX)
}

/// The number of trials a `montecarlo` call will run.
pub open spec fn eff_trials(count: Option<usize>) -> int {
    if count is Some {
        count->Some_0 as int
    } else {
        DEFAULT_COUNT as int
    }
}

impl EBS {
    /// Distributions sorted with usable entries, and one backlog per
    /// project.
    pub open spec fn wf(self) -> bool {
        &&& sorted(self.velocity@)
        &&& sorted(self.buffer@)
        &&& forall|i: int| 0 <= i < self.velocity@.len() ==> #[trigger] self.velocity@[i] > 0
        &&& forall|i: int| 0 <= i < self.buffer@.len() ==> #[trigger] self.buffer@[i] >= SCALE
        &&& self.todos@.len() == self.projects@.len()
    }

    /// The emptiness conditions under which every draw is possible: a
    /// project to forecast needs a buffer sample, and a backlog estimate
    /// needs a velocity sample.
    pub open spec fn can_simulate(self) -> bool {
        &&& self.todos@.len() > 0 ==> self.buffer@.len() > 0
        &&& (exists|p: int| 0 <= p < self.todos@.len() && (#[trigger] self.todos@[p])@.len() > 0)
            ==> self.velocity@.len() > 0
    }

    /// The context is exactly the model of `rs`: names and backlogs in
    /// first-seen project order, and each distribution the sorted
    /// permutation of its ratio list.
    pub open spec fn models(self, rs: Seq<Rec>) -> bool {
        &&& self.projects@.len() == project_names(rs).len()
        &&& forall|j: int|
            0 <= j < project_names(rs).len() ==> (#[trigger] self.projects@[j])@ == project_names(
                rs,
            )[j]
        &&& self.todos@.len() == project_names(rs).len()
        &&& forall|j: int|
            0 <= j < project_names(rs).len() ==> (#[trigger] self.todos@[j])@ == backlog_of(
                rs,
                project_names(rs)[j],
            )
        &&& sorted(self.velocity@)
        &&& self.velocity@.len() == velocity_pairs(rs).len()
        &&& self.velocity@.to_multiset() == velocity_ratios_u64(velocity_pairs(rs)).to_multiset()
        &&& sorted(self.buffer@)
        &&& self.buffer@.len() == buffer_ratio_list(rs).len()
        &&& self.buffer@.to_multiset() == buffer_ratio_list(rs).to_multiset()
    }

    /// Decides executably whether every draw of a simulation would be
    /// possible, so that callers can test [`Self::can_simulate`] before
    /// calling [`Self::montecarlo`].
    pub fn can_draw(&self) -> (b: bool)
        ensures
            b == self.can_simulate(),
    {
        if self.todos.len() > 0 && self.buffer.len() == 0 {
            return false;
        }
        let mut any_backlog = false;
        let mut p: usize = 0;
        while p < self.todos.len()
            invariant
                p <= self.todos@.len(),
                any_backlog == (exists|q: int|
                    0 <= q < p && (#[trigger] self.todos@[q])@.len() > 0),
            decreases self.todos@.len() - p,
        {
            if self.todos[p].len() > 0 {
                proof {
                    assert((self.todos@[p as int])@.len() > 0);
                }
                any_backlog = true;
            }
            p += 1;
        }
        !any_backlog || self.velocity.len() > 0
    }

    /// Loads and classifies `records`, then builds both distributions.
    ///
    /// Succeeds exactly when the dataset is loadable and every derived
    /// ratio fits `u64`; the context is then precisely the model of the
    /// records, with no simulation run yet.
    pub fn new_from_records(records: &Vec<TaskRecord>) -> (res: Result<EBS, LoadError>)
        ensures
            res is Ok <==> loadable(model_of(records@)) && ratios_fit(model_of(records@)),
            res is Ok ==> {
                let e = res->Ok_0;
                &&& e.models(model_of(records@))
                &&& e.wf()
                &&& e.simulation_runs@.len() == 0
            },
            res == Err::<EBS, LoadError>(LoadError::ZeroEffort) ==> !no_degenerate(
                model_of(records@),
            ),
            res == Err::<EBS, LoadError>(LoadError::Overflow) ==> !sums_fit(model_of(records@))
                || !ratios_fit(model_of(records@)),
    {
        let ghost m = model_of(records@);
        let hist = match load(records) {
            Result::Ok(h) => h,
            Result::Err(e) => {
                return Err(e);
            },
        };
        proof {
            lemma_ratios_match(hist.projects@, project_names(m), m);
            assert(buf_fits(hist.projects@) <==> (forall|k: int|
                0 <= k < project_names(m).len() ==> (buffer_den(
                    m,
                    #[trigger] project_names(m)[k],
                ) > 0 ==> ratio_floor_spec(
                    buffer_num(m, project_names(m)[k]),
                    buffer_den(m, project_names(m)[k]),
                ) <= u64::MAX))) by {
                if buf_fits(hist.projects@) {
                    assert forall|k: int|
                        0 <= k < project_names(m).len() && buffer_den(
                            m,
                            #[trigger] project_names(m)[k],
                        ) > 0 implies ratio_floor_spec(
                        buffer_num(m, project_names(m)[k]),
                        buffer_den(m, project_names(m)[k]),
                    ) <= u64::MAX by {
                        assert(hist.projects@[k].buffer_den == buffer_den(
                            m,
                            project_names(m)[k],
                        ));
                    }
                }
                if forall|k: int|
                    0 <= k < project_names(m).len() ==> (buffer_den(
                        m,
                        #[trigger] project_names(m)[k],
                    ) > 0 ==> ratio_floor_spec(
                        buffer_num(m, project_names(m)[k]),
                        buffer_den(m, project_names(m)[k]),
                    ) <= u64::MAX) {
                    assert forall|j: int|
                        0 <= j < hist.projects@.len() && (#[trigger] hist.projects@[j]).buffer_den
                            > 0 implies ratio_floor_spec(
                        hist.projects@[j].buffer_num as int,
                        hist.projects@[j].buffer_den as int,
                    ) <= u64::MAX by {
                        assert(hist.projects@[j].buffer_den == buffer_den(
                            m,
                            project_names(m)[j],
                        ));
                    }
                }
            }
        }
        let d = match build(&hist) {
            Result::Ok(d) => d,
            Result::Err(e) => {
                return Err(e);
            },
        };
        let ghost orig = hist.projects@;
        let mut hp = hist.projects;
        let mut names: Vec<String> = Vec::new();
        let mut todos: Vec<Vec<u64>> = Vec::new();
        while hp.len() > 0
            invariant
                names@.len() == todos@.len(),
                names@.len() + hp@.len() == orig.len(),
                hp@ == orig.skip(names@.len() as int),
                forall|j: int|
                    0 <= j < names@.len() ==> (#[trigger] names@[j]) == orig[j].name,
                forall|j: int|
                    0 <= j < todos@.len() ==> (#[trigger] todos@[j]) == orig[j].backlog,
            decreases hp@.len(),
        {
            let ghost k = names@.len() as int;
            let acc = hp.remove(0);
            proof {
                assert(acc == orig.skip(k)[0]);
                assert(orig.skip(k)[0] == orig[k]);
                assert(hp@ =~= orig.skip(k + 1));
            }
            names.push(acc.name);
            todos.push(acc.backlog);
        }
        proof {
            assert(names@.len() == orig.len());
        }
        Ok(
            EBS {
                projects: names,
                buffer: d.buffer,
                todos,
                velocity: d.velocity,
                simulation_runs: Vec::new(),
            },
        )
    }

    /// Runs `count` trials (default [`DEFAULT_COUNT`]), stores each
    /// project's outcome sequence sorted ascending, and returns each
    /// project's hundred percentile ranks.
    ///
    /// Rejects a count below [`RANK_COUNT`] outright.  Success is
    /// guaranteed whenever the worst-case trial total fits `u64`;
    /// otherwise `Err(Overflow)` can arise, depending on the random
    /// draws, and the context is then unchanged.
    pub fn montecarlo(
        &mut self,
        count: Option<usize>,
        rng: &mut rand::rngs::ThreadRng,
    ) -> (res: Result<Vec<Vec<u64>>, SimError>)
        requires
            old(self).wf(),
            old(self).can_simulate(),
            old(self).simulation_runs@.len() == 0,
        ensures
            final(self).projects == old(self).projects,
            final(self).velocity == old(self).velocity,
            final(self).buffer == old(self).buffer,
            final(self).todos == old(self).todos,
            res is Err ==> *final(self) == *old(self),
            res == Err::<Vec<Vec<u64>>, SimError>(SimError::TooFewTrials) <==> eff_trials(count)
                < RANK_COUNT,
            eff_trials(count) >= RANK_COUNT && worst_total(
                old(self).todos@,
                old(self).velocity@,
                old(self).buffer@,
            ) <= u64::MAX ==> res is Ok,
            res is Ok ==> {
                let fc = res->Ok_0;
                &&& final(self).simulation_runs@.len() == old(self).todos@.len()
                &&& forall|p: int|
                    0 <= p < old(self).todos@.len()
                        ==> (#[trigger] final(self).simulation_runs@[p])@.len() == eff_trials(
                        count,
                    )
                &&& forall|p: int|
                    0 <= p < old(self).todos@.len() ==> sorted(
                        (#[trigger] final(self).simulation_runs@[p])@,
                    )
                &&& exists|raw: Seq<Vec<u64>>|
                    #[trigger] sim_ok(
                        raw,
                        old(self).todos@,
                        old(self).velocity@,
                        old(self).buffer@,
                        eff_trials(count),
                    ) && runs_permutation(raw, final(self).simulation_runs@)
                &&& forall|t: int, p: int|
                    0 <= t < eff_trials(count) && 0 <= p < old(self).todos@.len()
                        && old(self).todos@[p]@.len() == 0
                        ==> ((#[trigger] final(self).simulation_runs@[p]@[t]) as int) == prev_of(
                        final(self).simulation_runs@,
                        t,
                        p,
                    )
                &&& fc@.len() == old(self).todos@.len()
                &&& forall|p: int|
                    0 <= p < fc@.len() ==> extraction_of(
                        final(self).simulation_runs@[p]@,
                        RANK_COUNT as int,
                        (#[trigger] fc@[p])@,
                    )
                &&& forall|p: int| 0 <= p < fc@.len() ==> (#[trigger] fc@[p])@.len() == RANK_COUNT
            },
    {
        let eff: usize = match count {
            Option::Some(c) => c,
            Option::None => DEFAULT_COUNT,
        };
        if eff < RANK_COUNT {
            return Err(SimError::TooFewTrials);
        }
        let runs = match simulate(&self.velocity, &self.buffer, &self.todos, eff, rng) {
            Result::Ok(r) => r,
            Result::Err(e) => {
                return Err(e);
            },
        };
        self.simulation_runs = runs;
        let ghost raw: Seq<Vec<u64>> = self.simulation_runs@;
        let mut s: usize = 0;
        while s < self.simulation_runs.len()
            invariant
                self.projects == old(self).projects,
                self.velocity == old(self).velocity,
                self.buffer == old(self).buffer,
                self.todos == old(self).todos,
                eff as int == eff_trials(count),
                sim_ok(raw, old(self).todos@, old(self).velocity@, old(self).buffer@, eff as int),
                raw.len() == self.todos@.len(),
                self.simulation_runs@.len() == raw.len(),
                s <= raw.len(),
                forall|q: int|
                    s <= q < raw.len() ==> #[trigger] self.simulation_runs@[q] == raw[q],
                forall|q: int|
                    0 <= q < s ==> sorted((#[trigger] self.simulation_runs@[q])@),
                forall|q: int|
                    0 <= q < s ==> (#[trigger] self.simulation_runs@[q])@.to_multiset()
                        == raw[q]@.to_multiset(),
                forall|q: int|
                    0 <= q < s ==> (#[trigger] self.simulation_runs@[q])@.len() == eff,
            decreases raw.len() - s,
        {
            let ghost pre = self.simulation_runs@;
            let rp = vstd::std_specs::vec::vec_index_mut(&mut self.simulation_runs, s);
            sort_u64(rp);
            proof {
                assert(forall|q: int|
                    0 <= q < raw.len() && q != s ==> #[trigger] self.simulation_runs@[q]
                        == pre[q]);
                assert(self.simulation_runs@[s as int]@.to_multiset() == raw[s as int]@.to_multiset());
            }
            s += 1;
        }
        let mut fc: Vec<Vec<u64>> = Vec::new();
        let mut p: usize = 0;
        while p < self.todos.len()
            invariant
                self.projects == old(self).projects,
                self.velocity == old(self).velocity,
                self.buffer == old(self).buffer,
                self.todos == old(self).todos,
                eff as int == eff_trials(count),
                eff >= RANK_COUNT,
                sim_ok(raw, old(self).todos@, old(self).velocity@, old(self).buffer@, eff as int),
                raw.len() == self.todos@.len(),
                self.simulation_runs@.len() == raw.len(),
                forall|q: int|
                    0 <= q < raw.len() ==> sorted((#[trigger] self.simulation_runs@[q])@),
                forall|q: int|
                    0 <= q < raw.len() ==> (#[trigger] self.simulation_runs@[q])@.to_multiset()
                        == raw[q]@.to_multiset(),
                forall|q: int|
                    0 <= q < raw.len() ==> (#[trigger] self.simulation_runs@[q])@.len() == eff,
                p <= self.todos@.len(),
                fc@.len() == p,
                forall|q: int|
                    0 <= q < p ==> extraction_of(
                        self.simulation_runs@[q]@,
                        RANK_COUNT as int,
                        (#[trigger] fc@[q])@,
                    ),
                forall|q: int| 0 <= q < p ==> (#[trigger] fc@[q])@.len() == RANK_COUNT,
            decreases self.todos@.len() - p,
        {
            let out = match extract(&self.simulation_runs[p], RANK_COUNT) {
                Result::Ok(v) => v,
                Result::Err(_) => {
                    return Err(SimError::TooFewTrials);
                },
            };
            fc.push(out);
            p += 1;
        }
        proof {
            assert(runs_permutation(raw, self.simulation_runs@));
            assert forall|t: int, q: int|
                0 <= t < eff && 0 <= q < raw.len() && old(self).todos@[q]@.len() == 0 implies ((
            #[trigger] self.simulation_runs@[q]@[t]) as int) == prev_of(
                self.simulation_runs@,
                t,
                q,
            ) by {
                if q == 0 {
                    assert forall|t2: int| 0 <= t2 < eff implies (#[trigger] raw[0]@[t2]) as int
                        == 0 by {
                        assert(prev_of(raw, t2, 0) == 0);
                    }
                    assert(sorted(raw[0]@)) by {
                        assert forall|i: int, j: int|
                            0 <= i <= j < raw[0]@.len() implies raw[0]@[i] <= raw[0]@[j] by {
                            assert(raw[0]@[i] == 0 && raw[0]@[j] == 0);
                        }
                    }
                    crate::sort::lemma_sorted_same_multiset_equal(
                        self.simulation_runs@[0]@,
                        raw[0]@,
                    );
                } else {
                    assert(raw[q]@ =~= raw[q - 1]@) by {
                        assert forall|t2: int| 0 <= t2 < eff implies (#[trigger] raw[q]@[t2])
                            == raw[q - 1]@[t2] by {
                            assert(prev_of(raw, t2, q) == raw[q - 1]@[t2] as int);
                        }
                    }
                    crate::sort::lemma_sorted_same_multiset_equal(
                        self.simulation_runs@[q]@,
                        self.simulation_runs@[q - 1]@,
                    );
                }
            }
        }
        Ok(fc)
    }
}

} // verus!
