//! Task records and their mathematical model.
//!
//! A record names a project (optionally), an estimate and an actual effort
//! (each optionally, in the fixed-point unit of [`crate::fixed::SCALE`]).
//! The model classifies each record exactly as the loader does: a record
//! with both efforts present is a completed observation, one with only an
//! estimate is backlog, one with only an actual is unestimated finished
//! work, and a record without a project carries no usable information.

use vstd::prelude::*;

verus! {

/// One row of historical input, already parsed into plain values.
pub struct TaskRecord {
    /// Project the task belongs to; a record without one is discarded.
    pub project: Option<String>,
    /// Estimated effort, in thousandths of an hour.
    pub estimate: Option<u64>,
    /// Actual effort spent, in thousandths of an hour.
    pub actual: Option<u64>,
}

/// The mathematical content of a task record.
pub ghost struct Rec {
    pub project: Option<Seq<char>>,
    pub estimate: Option<u64>,
    pub actual: Option<u64>,
}

impl View for TaskRecord {
    type V = Rec;

    open spec fn view(&self) -> Rec {
        Rec {
            project: match self.project {
                Option::Some(s) => Option::Some(s@),
                Option::None => Option::None,
            },
            estimate: self.estimate,
            actual: self.actual,
        }
    }
}

/// The models of a sequence of records.
pub open spec fn model_of(ts: Seq<TaskRecord>) -> Seq<Rec> {
    ts.map_values(|t: TaskRecord| t@)
}

/// Both efforts observed: the record feeds the velocity distribution and
/// both buffer accumulators of its project.
pub open spec fn is_completed(r: Rec) -> bool {
    r.project is Some && r.estimate is Some && r.actual is Some
}

/// Only an estimate: outstanding work, appended to the project's backlog.
pub open spec fn is_backlog(r: Rec) -> bool {
    r.project is Some && r.estimate is Some && r.actual is None
}

/// Only an actual: finished but never estimated, counted only in the
/// buffer numerator of its project.
pub open spec fn is_unestimated(r: Rec) -> bool {
    r.project is Some && r.estimate is None && r.actual is Some
}

/// A completed observation with a zero effort on either side.  Its ratio
/// would be zero or undefined, so loading rejects it outright rather than
/// let a degenerate value reach a distribution.
pub open spec fn is_degenerate(r: Rec) -> bool {
    is_completed(r) && (r.estimate->Some_0 == 0 || r.actual->Some_0 == 0)
}

/// Distinct project names in first-seen order.
pub open spec fn project_names(rs: Seq<Rec>) -> Seq<Seq<char>>
    decreases rs.len(),
{
    if rs.len() == 0 {
        Seq::empty()
    } else {
        let prev = project_names(rs.drop_last());
        match rs.last().project {
            Option::Some(p) => if prev.contains(p) {
                prev
            } else {
                prev.push(p)
            },
            Option::None => prev,
        }
    }
}

/// The `(estimate, actual)` pairs of completed observations, pooled across
/// all projects in record order.
pub open spec fn velocity_pairs(rs: Seq<Rec>) -> Seq<(u64, u64)>
    decreases rs.len(),
{
    if rs.len() == 0 {
        Seq::empty()
    } else {
        let prev = velocity_pairs(rs.drop_last());
        let r = rs.last();
        if is_completed(r) {
            prev.push((r.estimate->Some_0, r.actual->Some_0))
        } else {
            prev
        }
    }
}

/// What one record adds to the buffer numerator of project `p`: its actual
/// effort, whenever it belongs to `p` and an actual was observed.
pub open spec fn num_contrib(r: Rec, p: Seq<char>) -> int {
    if r.project == Option::Some(p) && r.actual is Some {
        r.actual->Some_0 as int
    } else {
        0
    }
}

/// What one record adds to the buffer denominator of project `p`: its
/// actual effort, only for completed observations of `p`.
pub open spec fn den_contrib(r: Rec, p: Seq<char>) -> int {
    if r.project == Option::Some(p) && is_completed(r) {
        r.actual->Some_0 as int
    } else {
        0
    }
}

/// Buffer numerator of project `p`: total actual effort over all of `p`'s
/// records with an actual value.
pub open spec fn buffer_num(rs: Seq<Rec>, p: Seq<char>) -> int
    decreases rs.len(),
{
    if rs.len() == 0 {
        0
    } else {
        buffer_num(rs.drop_last(), p) + num_contrib(rs.last(), p)
    }
}

/// Buffer denominator of project `p`: total actual effort over `p`'s
/// completed observations.
pub open spec fn buffer_den(rs: Seq<Rec>, p: Seq<char>) -> int
    decreases rs.len(),
{
    if rs.len() == 0 {
        0
    } else {
        buffer_den(rs.drop_last(), p) + den_contrib(rs.last(), p)
    }
}

/// The outstanding estimates of project `p`, in record order.
pub open spec fn backlog_of(rs: Seq<Rec>, p: Seq<char>) -> Seq<u64>
    decreases rs.len(),
{
    if rs.len() == 0 {
        Seq::empty()
    } else {
        let prev = backlog_of(rs.drop_last(), p);
        let r = rs.last();
        if is_backlog(r) && r.project == Option::Some(p) {
            prev.push(r.estimate->Some_0)
        } else {
            prev
        }
    }
}

/// Number of completed observations, pooled across projects.
pub open spec fn completed_count(rs: Seq<Rec>) -> int
    decreases rs.len(),
{
    if rs.len() == 0 {
        0
    } else {
        completed_count(rs.drop_last()) + if is_completed(rs.last()) {
            1int
        } else {
            0int
        }
    }
}

/// Whether project `p` has at least one completed observation.
pub open spec fn has_completed(rs: Seq<Rec>, p: Seq<char>) -> bool {
    exists|i: int|
        0 <= i < rs.len() && is_completed(#[trigger] rs[i]) && rs[i].project == Option::Some(p)
}

/// No record mixes a zero effort into a completed observation.
pub open spec fn no_degenerate(rs: Seq<Rec>) -> bool {
    forall|i: int| 0 <= i < rs.len() ==> !is_degenerate(#[trigger] rs[i])
}

/// Every project's buffer numerator stays within `u64`.
pub open spec fn sums_fit(rs: Seq<Rec>) -> bool {
    forall|k: int|
        0 <= k < project_names(rs).len() ==> buffer_num(
            rs,
            #[trigger] project_names(rs)[k],
        ) <= u64::MAX
}

/// A dataset loads successfully exactly when it is free of degenerate
/// completed observations and its accumulated sums fit the machine word.
pub open spec fn loadable(rs: Seq<Rec>) -> bool {
    no_degenerate(rs) && sums_fit(rs)
}

/// The velocity distribution has exactly one entry per completed
/// observation: one ratio for every record with both an estimate and an
/// actual, over any dataset.
pub proof fn lemma_velocity_pairs_count(rs: Seq<Rec>)
    ensures
        velocity_pairs(rs).len() == completed_count(rs),
        completed_count(rs) >= 0,
    decreases rs.len(),
{
    if rs.len() > 0 {
        lemma_velocity_pairs_count(rs.drop_last());
    }
}

} // verus!
