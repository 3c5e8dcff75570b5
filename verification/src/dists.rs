//! The distribution builder: derives the pooled velocity and buffer
//! distributions from a loaded history.
//!
//! Velocity is `estimate / actual` per completed observation, pooled across
//! all projects; buffer is, per project, the ratio of all actual effort to
//! the actual effort on estimated work.  A project with no completed
//! observation has a zero denominator and is excluded from the buffer
//! distribution rather than contributing an undefined value.  Both
//! distributions are sorted ascending.

use crate::fixed::{ratio_ceil, ratio_ceil_spec, ratio_floor, ratio_floor_spec, SCALE};
use crate::loader::{accums_match, History, LoadError, ProjectAccum};
use crate::records::{buffer_den, buffer_num, has_completed, is_completed, project_names, Rec};
use crate::sort::{sort_u64, sorted};
use vstd::prelude::*;

verus! {

/// The two pooled, ascending distributions the simulator samples from.
pub struct Dists {
    /// One `estimate / actual` ratio per completed observation.
    pub velocity: Vec<u64>,
    /// One overhead ratio per project with a completed observation.
    pub buffer: Vec<u64>,
}

/// The velocity ratio of one completed observation, rounded up so that a
/// positive pair always yields a positive ratio.
pub open spec fn velocity_ratio_of(pr: (u64, u64)) -> int {
    ratio_ceil_spec(pr.0 as int, pr.1 as int)
}

/// The velocity ratios of all observations, in observation order.
pub open spec fn velocity_ratios_u64(pairs: Seq<(u64, u64)>) -> Seq<u64> {
    pairs.map_values(|pr: (u64, u64)| velocity_ratio_of(pr) as u64)
}

/// Every velocity ratio fits the machine word.
pub open spec fn vel_fits(pairs: Seq<(u64, u64)>) -> bool {
    forall|i: int| 0 <= i < pairs.len() ==> velocity_ratio_of(#[trigger] pairs[i]) <= u64::MAX
}

/// The buffer ratios of the projects of `rs` named by `names`, keeping
/// only projects whose denominator is positive, in name order.
pub open spec fn ratios_over_names(rs: Seq<Rec>, names: Seq<Seq<char>>) -> Seq<u64>
    decreases names.len(),
{
    if names.len() == 0 {
        Seq::empty()
    } else {
        let prev = ratios_over_names(rs, names.drop_last());
        let p = names.last();
        if buffer_den(rs, p) > 0 {
            prev.push(ratio_floor_spec(buffer_num(rs, p), buffer_den(rs, p)) as u64)
        } else {
            prev
        }
    }
}

/// The pooled buffer distribution of a record sequence, before sorting.
pub open spec fn buffer_ratio_list(rs: Seq<Rec>) -> Seq<u64> {
    ratios_over_names(rs, project_names(rs))
}

/// Same ratios computed from the loader's accumulators.
pub open spec fn buffer_ratios_u64(projects: Seq<ProjectAccum>) -> Seq<u64>
    decreases projects.len(),
{
    if projects.len() == 0 {
        Seq::empty()
    } else {
        let prev = buffer_ratios_u64(projects.drop_last());
        let p = projects.last();
        if p.buffer_den > 0 {
            prev.push(ratio_floor_spec(p.buffer_num as int, p.buffer_den as int) as u64)
        } else {
            prev
        }
    }
}

/// Every buffer ratio of an included project fits the machine word.
pub open spec fn buf_fits(projects: Seq<ProjectAccum>) -> bool {
    forall|j: int|
        0 <= j < projects.len() ==> ((#[trigger] projects[j]).buffer_den > 0
            ==> ratio_floor_spec(
            projects[j].buffer_num as int,
            projects[j].buffer_den as int,
        ) <= u64::MAX)
}

impl Dists {
    /// Both distributions sorted ascending; every velocity strictly
    /// positive, every buffer at least `1.0` (all effort is at least the
    /// estimated effort).
    pub open spec fn wf(self) -> bool {
        &&& sorted(self.velocity@)
        &&& sorted(self.buffer@)
        &&& forall|i: int| 0 <= i < self.velocity@.len() ==> #[trigger] self.velocity@[i] > 0
        &&& forall|i: int| 0 <= i < self.buffer@.len() ==> #[trigger] self.buffer@[i] >= SCALE
    }
}

/// Number of names in `names` whose project has at least one completed
/// observation in `rs`.
pub open spec fn count_completed(rs: Seq<Rec>, names: Seq<Seq<char>>) -> int
    decreases names.len(),
{
    if names.len() == 0 {
        0
    } else {
        count_completed(rs, names.drop_last()) + if has_completed(rs, names.last()) {
            1int
        } else {
            0int
        }
    }
}

/// In a dataset without degenerate observations, a project's buffer
/// denominator is positive exactly when it has a completed observation.
pub proof fn lemma_den_pos_iff_completed(rs: Seq<Rec>, p: Seq<char>)
    requires
        crate::records::no_degenerate(rs),
    ensures
        buffer_den(rs, p) > 0 <==> has_completed(rs, p),
    decreases rs.len(),
{
    crate::loader::lemma_den_le_num(rs, p);
    if rs.len() == 0 {
        assert(!has_completed(rs, p));
    } else {
        let prev = rs.drop_last();
        assert(crate::records::no_degenerate(prev)) by {
            assert forall|i: int| 0 <= i < prev.len() implies !crate::records::is_degenerate(
                #[trigger] prev[i],
            ) by {
                assert(prev[i] == rs[i]);
            }
        }
        lemma_den_pos_iff_completed(prev, p);
        crate::loader::lemma_den_le_num(prev, p);
        let last = rs.last();
        if buffer_den(rs, p) > 0 {
            if crate::records::den_contrib(last, p) > 0 {
                assert(is_completed(last) && last.project == Option::Some(p));
                assert(has_completed(rs, p)) by {
                    assert(is_completed(rs[rs.len() - 1]) && rs[rs.len() - 1].project
                        == Option::Some(p));
                }
            } else {
                assert(buffer_den(prev, p) > 0);
                let i = choose|i: int|
                    0 <= i < prev.len() && is_completed(#[trigger] prev[i]) && prev[i].project
                        == Option::Some(p);
                assert(is_completed(rs[i]) && rs[i].project == Option::Some(p));
            }
        }
        if has_completed(rs, p) {
            let i = choose|i: int|
                0 <= i < rs.len() && is_completed(#[trigger] rs[i]) && rs[i].project
                    == Option::Some(p);
            assert(!crate::records::is_degenerate(rs[i]));
            assert(rs[i].actual->Some_0 > 0);
            if i == rs.len() - 1 {
                assert(crate::records::den_contrib(last, p) > 0);
            } else {
                assert(is_completed(prev[i]) && prev[i].project == Option::Some(p));
                assert(has_completed(prev, p));
                assert(buffer_den(prev, p) > 0);
                assert(crate::records::den_contrib(last, p) >= 0);
            }
        }
    }
}

/// The buffer distribution has exactly one entry per project with at
/// least one completed observation, over any dataset free of degenerate
/// observations.
pub proof fn lemma_buffer_ratio_count(rs: Seq<Rec>, names: Seq<Seq<char>>)
    requires
        crate::records::no_degenerate(rs),
    ensures
        ratios_over_names(rs, names).len() == count_completed(rs, names),
        count_completed(rs, names) >= 0,
    decreases names.len(),
{
    if names.len() > 0 {
        lemma_buffer_ratio_count(rs, names.drop_last());
        lemma_den_pos_iff_completed(rs, names.last());
    }
}

/// The pooled buffer distribution of a dataset free of degenerate
/// observations has exactly one entry per project with at least one
/// completed observation.
pub proof fn lemma_buffer_distribution_count(rs: Seq<Rec>)
    requires
        crate::records::no_degenerate(rs),
    ensures
        buffer_ratio_list(rs).len() == count_completed(rs, project_names(rs)),
{
    lemma_buffer_ratio_count(rs, project_names(rs));
}

/// Accumulators that agree with the model produce the model's ratios.
pub proof fn lemma_ratios_match(projects: Seq<ProjectAccum>, names: Seq<Seq<char>>, rs: Seq<Rec>)
    requires
        accums_match(projects, names, rs),
    ensures
        buffer_ratios_u64(projects) == ratios_over_names(rs, names),
    decreases projects.len(),
{
    if projects.len() > 0 {
        assert(accums_match(projects.drop_last(), names.drop_last(), rs));
        lemma_ratios_match(projects.drop_last(), names.drop_last(), rs);
        assert(projects.last() == projects[projects.len() - 1]);
        assert(names.last() == names[names.len() - 1]);
    }
}

/// A lower bound on every element survives a permutation.
proof fn lemma_multiset_lower_bound(a: Seq<u64>, b: Seq<u64>, bound: u64)
    requires
        a.to_multiset() == b.to_multiset(),
        forall|i: int| 0 <= i < a.len() ==> #[trigger] a[i] >= bound,
    ensures
        forall|i: int| 0 <= i < b.len() ==> #[trigger] b[i] >= bound,
{
    broadcast use vstd::seq_lib::group_to_multiset_ensures;

    assert forall|i: int| 0 <= i < b.len() implies #[trigger] b[i] >= bound by {
        assert(b.to_multiset().count(b[i]) > 0);
        assert(a.contains(b[i]));
        let k = choose|k: int| 0 <= k < a.len() && a[k] == b[i];
        assert(a[k] >= bound);
    }
}

/// Builds the two sorted distributions from a loaded history.
///
/// Succeeds exactly when every derived ratio fits `u64`; each distribution
/// is then the sorted permutation of its ratio list.
pub fn build(h: &History) -> (res: Result<Dists, LoadError>)
    requires
        h.wf(),
    ensures
        res is Ok <==> vel_fits(h.velocity_pairs@) && buf_fits(h.projects@),
        res is Ok ==> {
            let d = res->Ok_0;
            &&& sorted(d.velocity@)
            &&& d.velocity@.to_multiset() == velocity_ratios_u64(h.velocity_pairs@).to_multiset()
            &&& d.velocity@.len() == h.velocity_pairs@.len()
            &&& sorted(d.buffer@)
            &&& d.buffer@.to_multiset() == buffer_ratios_u64(h.projects@).to_multiset()
            &&& d.buffer@.len() == buffer_ratios_u64(h.projects@).len()
            &&& d.wf()
        },
        res is Err ==> res == Err::<Dists, LoadError>(LoadError::Overflow),
{
    proof {
        broadcast use vstd::seq_lib::group_to_multiset_ensures;
    }
    let pairs = &h.velocity_pairs;
    let mut vel: Vec<u64> = Vec::new();
    let mut i: usize = 0;
    while i < pairs.len()
        invariant
            h.wf(),
            pairs == h.velocity_pairs,
            i <= pairs@.len(),
            vel@.len() == i,
            forall|k: int|
                0 <= k < i ==> #[trigger] vel@[k] == velocity_ratio_of(pairs@[k])
                    && velocity_ratio_of(pairs@[k]) <= u64::MAX,
            forall|k: int| 0 <= k < i ==> #[trigger] vel@[k] > 0,
        decreases pairs@.len() - i,
    {
        let (e, a) = (pairs[i].0, pairs[i].1);
        match ratio_ceil(e, a) {
            Option::Some(v) => {
                proof {
                    assert(e >= 1 && a >= 1);
                    assert((e as int) * (SCALE as int) >= 1 * (SCALE as int)) by {
                        vstd::arithmetic::mul::lemma_mul_inequality(1, e as int, SCALE as int);
                    }
                    assert(ratio_ceil_spec(e as int, a as int) >= 1) by {
                        vstd::arithmetic::div_mod::lemma_div_is_ordered(
                            a as int,
                            (e as int) * (SCALE as int) + a - 1,
                            a as int,
                        );
                        vstd::arithmetic::div_mod::lemma_div_by_self(a as int);
                    }
                }
                let ghost vel_pre = vel@;
                vel.push(v);
                proof {
                    assert(vel@ == vel_pre.push(v));
                    assert(vel@[i as int] == velocity_ratio_of(pairs@[i as int]));
                    assert(velocity_ratio_of(pairs@[i as int]) <= u64::MAX);
                    assert forall|k: int| 0 <= k < i implies #[trigger] vel@[k] == vel_pre[k] by {}
                }
            },
            Option::None => {
                return Err(LoadError::Overflow);
            },
        }
        i += 1;
    }
    proof {
        assert(vel@ =~= velocity_ratios_u64(pairs@));
        assert(vel_fits(pairs@)) by {
            assert forall|k: int| 0 <= k < pairs@.len() implies velocity_ratio_of(
                #[trigger] pairs@[k],
            ) <= u64::MAX by {
                assert(vel@[k] == velocity_ratio_of(pairs@[k]));
            }
        }
    }
    let mut buf: Vec<u64> = Vec::new();
    let mut j: usize = 0;
    while j < h.projects.len()
        invariant
            h.wf(),
            j <= h.projects@.len(),
            buf@ == buffer_ratios_u64(h.projects@.take(j as int)),
            forall|k: int|
                0 <= k < j ==> ((#[trigger] h.projects@[k]).buffer_den > 0 ==> ratio_floor_spec(
                    h.projects@[k].buffer_num as int,
                    h.projects@[k].buffer_den as int,
                ) <= u64::MAX),
            forall|k: int| 0 <= k < buf@.len() ==> #[trigger] buf@[k] >= SCALE,
        decreases h.projects@.len() - j,
    {
        let ghost prefix = h.projects@.take(j as int);
        proof {
            assert(h.projects@.take(j as int + 1).drop_last() =~= prefix);
            assert(h.projects@.take(j as int + 1).last() == h.projects@[j as int]);
        }
        let den = h.projects[j].buffer_den;
        if den > 0 {
            let num = h.projects[j].buffer_num;
            match ratio_floor(num, den) {
                Option::Some(v) => {
                    proof {
                        assert((den as int) * (SCALE as int) <= (num as int) * (SCALE as int)) by {
                            vstd::arithmetic::mul::lemma_mul_inequality(
                                den as int,
                                num as int,
                                SCALE as int,
                            );
                        }
                        assert(ratio_floor_spec(num as int, den as int) >= SCALE) by {
                            vstd::arithmetic::div_mod::lemma_div_is_ordered(
                                (den as int) * (SCALE as int),
                                (num as int) * (SCALE as int),
                                den as int,
                            );
                            vstd::arithmetic::div_mod::lemma_div_multiples_vanish(
                                SCALE as int,
                                den as int,
                            );
                            assert((den as int) * (SCALE as int) == (den as int) * (SCALE as int));
                        }
                    }
                    buf.push(v);
                },
                Option::None => {
                    return Err(LoadError::Overflow);
                },
            }
        }
        j += 1;
    }
    proof {
        assert(h.projects@.take(h.projects@.len() as int) =~= h.projects@);
    }
    let ghost raw_vel = vel@;
    let ghost raw_buf = buf@;
    sort_u64(&mut vel);
    sort_u64(&mut buf);
    proof {
        lemma_multiset_lower_bound(raw_vel, vel@, 1);
        lemma_multiset_lower_bound(raw_buf, buf@, SCALE);
    }
    Ok(Dists { velocity: vel, buffer: buf })
}

} // verus!
