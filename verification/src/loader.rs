//! The historical loader: classifies task records into per-project
//! accumulators and the pooled velocity observations.
//!
//! Projects are identified by a dense integer ID assigned in first-seen
//! order of project name; the ID is the index into the accumulator vector.
//! Records without a project are discarded.  A completed observation with a
//! zero effort on either side is rejected, so that no degenerate ratio can
//! reach a distribution; an accumulator that would leave `u64` is an error
//! rather than a silent wrap.

use crate::records::{
    backlog_of, buffer_den, buffer_num, completed_count, den_contrib, is_backlog, is_completed,
    is_degenerate, loadable, model_of, no_degenerate, num_contrib, project_names, sums_fit,
    velocity_pairs, Rec, TaskRecord,
};
use vstd::prelude::*;

verus! {

/// Per-project accumulators produced by loading, addressed by project ID.
pub struct ProjectAccum {
    /// The project's name, unique across the accumulator vector.
    pub name: String,
    /// Total actual effort over the project's records with an actual value.
    pub buffer_num: u64,
    /// Total actual effort over the project's completed observations.
    pub buffer_den: u64,
    /// Outstanding estimates, in record order.
    pub backlog: Vec<u64>,
}

/// Loader output: one accumulator per project plus the pooled
/// `(estimate, actual)` observations in record order.
pub struct History {
    pub projects: Vec<ProjectAccum>,
    pub velocity_pairs: Vec<(u64, u64)>,
}

/// Why a dataset was refused.
#[derive(Clone, Copy, Debug, PartialEq, Eq, Structural)]
pub enum LoadError {
    /// A completed observation carries a zero estimate or zero actual.
    ZeroEffort,
    /// An accumulated sum or a derived ratio does not fit in `u64`.
    Overflow,
}

/// The accumulators agree with the model of `rs` under the name list
/// `names` (which may run one discovery ahead of the classified records).
pub open spec fn accums_match(
    projects: Seq<ProjectAccum>,
    names: Seq<Seq<char>>,
    rs: Seq<Rec>,
) -> bool {
    &&& projects.len() == names.len()
    &&& forall|j: int|
        0 <= j < names.len() ==> {
            &&& (#[trigger] projects[j]).name@ == names[j]
            &&& projects[j].buffer_num == buffer_num(rs, names[j])
            &&& projects[j].buffer_den == buffer_den(rs, names[j])
            &&& projects[j].backlog@ == backlog_of(rs, names[j])
        }
}

impl History {
    /// The history is exactly the model of the record sequence `rs`.
    pub open spec fn matches(self, rs: Seq<Rec>) -> bool {
        &&& accums_match(self.projects@, project_names(rs), rs)
        &&& self.velocity_pairs@ == velocity_pairs(rs)
    }

    /// Structural facts every loaded history satisfies: velocity
    /// observations are strictly positive on both sides, and no project's
    /// denominator exceeds its numerator.
    pub open spec fn wf(self) -> bool {
        &&& forall|i: int|
            0 <= i < self.velocity_pairs@.len() ==> (#[trigger] self.velocity_pairs@[i]).0 > 0
                && self.velocity_pairs@[i].1 > 0
        &&& forall|j: int|
            0 <= j < self.projects@.len() ==> (#[trigger] self.projects@[j]).buffer_den
                <= self.projects@[j].buffer_num
    }
}

/// How every model function changes when one more record is taken.
proof fn lemma_model_step(rs: Seq<Rec>, i: int)
    requires
        0 <= i < rs.len(),
    ensures
        project_names(rs.take(i + 1)) == (match rs[i].project {
            Option::Some(p) => if project_names(rs.take(i)).contains(p) {
                project_names(rs.take(i))
            } else {
                project_names(rs.take(i)).push(p)
            },
            Option::None => project_names(rs.take(i)),
        }),
        velocity_pairs(rs.take(i + 1)) == (if is_completed(rs[i]) {
            velocity_pairs(rs.take(i)).push((rs[i].estimate->Some_0, rs[i].actual->Some_0))
        } else {
            velocity_pairs(rs.take(i))
        }),
        forall|p: Seq<char>| #[trigger]
            buffer_num(rs.take(i + 1), p) == buffer_num(rs.take(i), p) + num_contrib(rs[i], p),
        forall|p: Seq<char>| #[trigger]
            buffer_den(rs.take(i + 1), p) == buffer_den(rs.take(i), p) + den_contrib(rs[i], p),
        forall|p: Seq<char>| #[trigger]
            backlog_of(rs.take(i + 1), p) == (if is_backlog(rs[i]) && rs[i].project
                == Option::Some(p) {
                backlog_of(rs.take(i), p).push(rs[i].estimate->Some_0)
            } else {
                backlog_of(rs.take(i), p)
            }),
        completed_count(rs.take(i + 1)) == completed_count(rs.take(i)) + (if is_completed(
            rs[i],
        ) {
            1int
        } else {
            0int
        }),
{
    let a = rs.take(i + 1);
    assert(a.drop_last() =~= rs.take(i));
    assert(a.last() == rs[i]);
}

/// Distinct project names stay distinct.
proof fn lemma_names_distinct(rs: Seq<Rec>)
    ensures
        forall|k: int, l: int|
            0 <= k < l < project_names(rs).len() ==> project_names(rs)[k] != project_names(
                rs,
            )[l],
    decreases rs.len(),
{
    if rs.len() > 0 {
        lemma_names_distinct(rs.drop_last());
        let prev = project_names(rs.drop_last());
        match rs.last().project {
            Option::Some(p) => {
                if !prev.contains(p) {
                    let cur = prev.push(p);
                    assert forall|k: int, l: int| 0 <= k < l < cur.len() implies cur[k]
                        != cur[l] by {
                        if l == prev.len() {
                            if cur[k] == p {
                                assert(prev[k] == p);
                                assert(prev.contains(p));
                            }
                        }
                    }
                }
            },
            Option::None => {},
        }
    }
}

/// A project that never appears in `rs` has empty accumulators.
proof fn lemma_unseen_project(rs: Seq<Rec>, p: Seq<char>)
    requires
        !project_names(rs).contains(p),
    ensures
        buffer_num(rs, p) == 0,
        buffer_den(rs, p) == 0,
        backlog_of(rs, p) == Seq::<u64>::empty(),
    decreases rs.len(),
{
    if rs.len() > 0 {
        let prev = project_names(rs.drop_last());
        assert(!prev.contains(p)) by {
            if prev.contains(p) {
                let k = choose|k: int| 0 <= k < prev.len() && prev[k] == p;
                match rs.last().project {
                    Option::Some(q) => {
                        if prev.contains(q) {
                            assert(project_names(rs)[k] == p);
                            assert(project_names(rs).contains(p));
                        } else {
                            assert(project_names(rs)[k] == p);
                            assert(project_names(rs).contains(p));
                        }
                    },
                    Option::None => {
                        assert(project_names(rs).contains(p));
                    },
                }
            }
        }
        lemma_unseen_project(rs.drop_last(), p);
        assert(rs.last().project != Option::Some(p)) by {
            if rs.last().project == Option::Some(p) {
                if prev.contains(p) {
                } else {
                    assert(project_names(rs) == prev.push(p));
                    assert(project_names(rs)[prev.len() as int] == p);
                    assert(project_names(rs).contains(p));
                }
            }
        }
    }
}

/// Buffer sums only grow as more records are taken.
proof fn lemma_buffer_num_mono(rs: Seq<Rec>, i: int, p: Seq<char>)
    requires
        0 <= i <= rs.len(),
    ensures
        buffer_num(rs.take(i), p) <= buffer_num(rs, p),
    decreases rs.len() - i,
{
    if i == rs.len() {
        assert(rs.take(i) =~= rs);
    } else {
        assert(rs.take(i + 1).drop_last() =~= rs.take(i));
        assert(rs.take(i + 1).last() == rs[i]);
        lemma_buffer_num_mono(rs, i + 1, p);
    }
}

/// The names seen in a prefix open the full name list.
proof fn lemma_names_prefix(rs: Seq<Rec>, i: int)
    requires
        0 <= i <= rs.len(),
    ensures
        project_names(rs.take(i)).len() <= project_names(rs).len(),
        forall|k: int|
            0 <= k < project_names(rs.take(i)).len() ==> #[trigger] project_names(rs)[k]
                == project_names(rs.take(i))[k],
    decreases rs.len() - i,
{
    if i == rs.len() {
        assert(rs.take(i) =~= rs);
    } else {
        assert(rs.take(i + 1).drop_last() =~= rs.take(i));
        assert(rs.take(i + 1).last() == rs[i]);
        lemma_names_prefix(rs, i + 1);
    }
}

/// Denominator never exceeds numerator: completed observations feed both.
pub proof fn lemma_den_le_num(rs: Seq<Rec>, p: Seq<char>)
    ensures
        0 <= buffer_den(rs, p) <= buffer_num(rs, p),
        0 <= buffer_num(rs, p),
    decreases rs.len(),
{
    if rs.len() > 0 {
        lemma_den_le_num(rs.drop_last(), p);
    }
}

/// Index of the project named `name`, if it was seen before.
fn find_project(projects: &Vec<ProjectAccum>, name: &String) -> (r: Option<usize>)
    ensures
        r is Some ==> r->Some_0 < projects@.len() && projects@[r->Some_0 as int].name@ == name@,
        r is None ==> forall|j: int| 0 <= j < projects@.len() ==> projects@[j].name@ != name@,
{
    let mut j: usize = 0;
    while j < projects.len()
        invariant
            j <= projects@.len(),
            forall|k: int| 0 <= k < j ==> projects@[k].name@ != name@,
        decreases projects@.len() - j,
    {
        if projects[j].name == *name {
            return Some(j);
        }
        j += 1;
    }
    None
}

/// Adds `a` to project `j`'s buffer numerator, and to its denominator when
/// `with_den` holds; reports `false` (leaving everything unchanged) when
/// the numerator would leave `u64`.
fn add_actual(projects: &mut Vec<ProjectAccum>, j: usize, a: u64, with_den: bool) -> (ok: bool)
    requires
        j < old(projects)@.len(),
        old(projects)@[j as int].buffer_den <= old(projects)@[j as int].buffer_num,
    ensures
        ok <==> old(projects)@[j as int].buffer_num + a <= u64::MAX,
        !ok ==> final(projects)@ == old(projects)@,
        ok ==> {
            &&& final(projects)@.len() == old(projects)@.len()
            &&& forall|k: int|
                0 <= k < old(projects)@.len() && k != j ==> final(projects)@[k] == old(
                    projects,
                )@[k]
            &&& final(projects)@[j as int].name == old(projects)@[j as int].name
            &&& final(projects)@[j as int].backlog == old(projects)@[j as int].backlog
            &&& final(projects)@[j as int].buffer_num == old(projects)@[j as int].buffer_num + a
            &&& final(projects)@[j as int].buffer_den == old(projects)@[j as int].buffer_den + (
            if with_den {
                a as int
            } else {
                0
            })
        },
{
    let pr = vstd::std_specs::vec::vec_index_mut(projects, j);
    match pr.buffer_num.checked_add(a) {
        None => false,
        Some(n) => {
            pr.buffer_num = n;
            if with_den {
                pr.buffer_den = pr.buffer_den + a;
            }
            proof {
                assert(final(projects)@ =~= old(projects)@.update(j as int, *final(pr)));
            }
            true
        },
    }
}

/// Appends estimate `e` to project `j`'s backlog.
fn push_backlog(projects: &mut Vec<ProjectAccum>, j: usize, e: u64)
    requires
        j < old(projects)@.len(),
    ensures
        final(projects)@.len() == old(projects)@.len(),
        forall|k: int|
            0 <= k < old(projects)@.len() && k != j ==> final(projects)@[k] == old(projects)@[k],
        final(projects)@[j as int].name == old(projects)@[j as int].name,
        final(projects)@[j as int].buffer_num == old(projects)@[j as int].buffer_num,
        final(projects)@[j as int].buffer_den == old(projects)@[j as int].buffer_den,
        final(projects)@[j as int].backlog@ == old(projects)@[j as int].backlog@.push(e),
{
    let pr = vstd::std_specs::vec::vec_index_mut(projects, j);
    pr.backlog.push(e);
}

/// Classifies every record, in order, into per-project accumulators and
/// pooled velocity observations.
///
/// Succeeds exactly on `loadable` datasets: no completed observation with
/// a zero effort, and no buffer sum past `u64`.  On success the returned
/// history is precisely the model of the input.
pub fn load(records: &Vec<TaskRecord>) -> (res: Result<History, LoadError>)
    ensures
        res is Ok <==> loadable(model_of(records@)),
        res is Ok ==> (res->Ok_0).matches(model_of(records@)),
        res is Ok ==> (res->Ok_0).wf(),
        res == Err::<History, LoadError>(LoadError::ZeroEffort) ==> !no_degenerate(
            model_of(records@),
        ),
        res == Err::<History, LoadError>(LoadError::Overflow) ==> !sums_fit(model_of(records@)),
{
    let ghost m = model_of(records@);
    let mut projects: Vec<ProjectAccum> = Vec::new();
    let mut vel: Vec<(u64, u64)> = Vec::new();
    let mut idx: usize = 0;
    proof {
        assert(m.take(0) =~= Seq::<Rec>::empty());
    }
    while idx < records.len()
        invariant
            m == model_of(records@),
            idx <= records@.len(),
            accums_match(projects@, project_names(m.take(idx as int)), m.take(idx as int)),
            vel@ == velocity_pairs(m.take(idx as int)),
            no_degenerate(m.take(idx as int)),
            forall|i: int| 0 <= i < vel@.len() ==> (#[trigger] vel@[i]).0 > 0 && vel@[i].1 > 0,
            forall|j: int|
                0 <= j < projects@.len() ==> (#[trigger] projects@[j]).buffer_den
                    <= projects@[j].buffer_num,
        decreases records@.len() - idx,
    {
        let ghost pre = m.take(idx as int);
        let ghost nxt = m.take(idx as int + 1);
        let ghost r_spec = m[idx as int];
        proof {
            lemma_model_step(m, idx as int);
            lemma_names_distinct(nxt);
        }
        let r = &records[idx];
        proof {
            assert(r@ == r_spec);
        }
        match &r.project {
            Option::None => {
                proof {
                    assert(project_names(nxt) == project_names(pre));
                    assert(accums_match(projects@, project_names(nxt), nxt)) by {
                        assert forall|p: Seq<char>| #[trigger]
                            num_contrib(r_spec, p) == 0 && den_contrib(r_spec, p) == 0
                            && !(is_backlog(r_spec) && r_spec.project == Option::Some(p)) by {}
                    }
                }
            },
            Option::Some(name) => {
                proof {
                    assert(r_spec.project == Option::Some(name@));
                }
                let j: usize;
                match find_project(&projects, name) {
                    Option::Some(j0) => {
                        j = j0;
                        proof {
                            assert(project_names(pre).contains(name@)) by {
                                assert(project_names(pre)[j0 as int] == name@);
                            }
                            assert(project_names(nxt) == project_names(pre));
                        }
                    },
                    Option::None => {
                        j = projects.len();
                        proof {
                            assert(!project_names(pre).contains(name@)) by {
                                if project_names(pre).contains(name@) {
                                    let k = choose|k: int|
                                        0 <= k < project_names(pre).len() && project_names(
                                            pre,
                                        )[k] == name@;
                                    assert(projects@[k].name@ == name@);
                                }
                            }
                            lemma_unseen_project(pre, name@);
                            assert(project_names(nxt) == project_names(pre).push(name@));
                        }
                        projects.push(
                            ProjectAccum {
                                name: name.clone(),
                                buffer_num: 0,
                                buffer_den: 0,
                                backlog: Vec::new(),
                            },
                        );
                    },
                }
                proof {
                    assert(accums_match(projects@, project_names(nxt), pre));
                    assert(project_names(nxt)[j as int] == name@);
                }
                let ghost names1 = project_names(nxt);
                match (r.estimate, r.actual) {
                    (Option::Some(e), Option::Some(a)) => {
                        if e == 0 || a == 0 {
                            proof {
                                assert(is_degenerate(m[idx as int]));
                            }
                            return Err(LoadError::ZeroEffort);
                        }
                        vel.push((e, a));
                        proof {
                            lemma_den_le_num(pre, name@);
                        }
                        let ok = add_actual(&mut projects, j, a, true);
                        if !ok {
                            proof {
                                assert(num_contrib(r_spec, name@) == a);
                                assert(buffer_num(nxt, name@) > u64::MAX);
                                lemma_buffer_num_mono(m, idx as int + 1, name@);
                                lemma_names_prefix(m, idx as int + 1);
                                assert(project_names(m)[j as int] == name@);
                                assert(buffer_num(m, project_names(m)[j as int]) > u64::MAX);
                            }
                            return Err(LoadError::Overflow);
                        }
                        proof {
                            assert(accums_match(projects@, names1, nxt)) by {
                                assert forall|k: int|
                                    0 <= k < names1.len() && k != j implies num_contrib(
                                    r_spec,
                                    names1[k],
                                ) == 0 && den_contrib(r_spec, names1[k]) == 0 && !(is_backlog(
                                    r_spec,
                                ) && r_spec.project == Option::Some(names1[k])) by {
                                    assert(names1[k] != name@);
                                }
                            }
                            assert(vel@ == velocity_pairs(nxt));
                        }
                    },
                    (Option::Some(e), Option::None) => {
                        push_backlog(&mut projects, j, e);
                        proof {
                            assert(is_backlog(r_spec));
                            assert(accums_match(projects@, names1, nxt)) by {
                                assert forall|k: int|
                                    0 <= k < names1.len() && k != j implies num_contrib(
                                    r_spec,
                                    names1[k],
                                ) == 0 && den_contrib(r_spec, names1[k]) == 0 && !(is_backlog(
                                    r_spec,
                                ) && r_spec.project == Option::Some(names1[k])) by {
                                    assert(names1[k] != name@);
                                }
                            }
                        }
                    },
                    (Option::None, Option::Some(a)) => {
                        proof {
                            lemma_den_le_num(pre, name@);
                        }
                        let ok = add_actual(&mut projects, j, a, false);
                        if !ok {
                            proof {
                                assert(num_contrib(r_spec, name@) == a);
                                assert(buffer_num(nxt, name@) > u64::MAX);
                                lemma_buffer_num_mono(m, idx as int + 1, name@);
                                lemma_names_prefix(m, idx as int + 1);
                                assert(project_names(m)[j as int] == name@);
                                assert(buffer_num(m, project_names(m)[j as int]) > u64::MAX);
                            }
                            return Err(LoadError::Overflow);
                        }
                        proof {
                            assert(accums_match(projects@, names1, nxt)) by {
                                assert forall|k: int|
                                    0 <= k < names1.len() && k != j implies num_contrib(
                                    r_spec,
                                    names1[k],
                                ) == 0 && den_contrib(r_spec, names1[k]) == 0 && !(is_backlog(
                                    r_spec,
                                ) && r_spec.project == Option::Some(names1[k])) by {
                                    assert(names1[k] != name@);
                                }
                            }
                        }
                    },
                    (Option::None, Option::None) => {
                        proof {
                            assert(accums_match(projects@, names1, nxt)) by {
                                assert forall|k: int| 0 <= k < names1.len() implies num_contrib(
                                    r_spec,
                                    names1[k],
                                ) == 0 && den_contrib(r_spec, names1[k]) == 0 && !(is_backlog(
                                    r_spec,
                                ) && r_spec.project == Option::Some(names1[k])) by {}
                            }
                        }
                    },
                }
            },
        }
        idx += 1;
    }
    proof {
        assert(m.take(records@.len() as int) =~= m);
        assert(sums_fit(m)) by {
            assert forall|k: int| 0 <= k < project_names(m).len() implies buffer_num(
                m,
                #[trigger] project_names(m)[k],
            ) <= u64::MAX by {
                assert(projects@[k].buffer_num == buffer_num(m, project_names(m)[k]));
            }
        }
    }
    Ok(History { projects, velocity_pairs: vel })
}

} // verus!
