use ebs::calendar::{dev_days_as_days, project_date, Day};
use ebs::ebs::EBS;
use ebs::loader::LoadError;
use ebs::percentile::{extract, RankError};
use ebs::records::TaskRecord;
use ebs::sim::{simulate, SimError};
use ebs::sort::sort_u64;

fn rec(project: Option<&str>, estimate: Option<u64>, actual: Option<u64>) -> TaskRecord {
    TaskRecord { project: project.map(|s| s.to_string()), estimate, actual }
}

// Dataset with one project "A", two completed records (10h, 10h) and
// (5h, 10h), and one backlog record of 8h: velocity [0.5, 1.0] sorted,
// buffer numerator 20h over denominator 20h giving [1.0].
#[test]
fn single_project_distributions() {
    let records = vec![
        rec(Some("A"), Some(10_000), Some(10_000)),
        rec(Some("A"), Some(5_000), Some(10_000)),
        rec(Some("A"), Some(8_000), None),
    ];
    let e = EBS::new_from_records(&records).unwrap();
    assert_eq!(e.projects, vec!["A".to_string()]);
    assert_eq!(e.velocity, vec![500, 1_000]);
    assert_eq!(e.buffer, vec![1_000]);
    assert_eq!(e.todos, vec![vec![8_000]]);
}

// The velocity distribution has one entry per completed record, pooled
// across projects; records without a project are discarded.
#[test]
fn velocity_length_counts_completed_records() {
    let records = vec![
        rec(Some("A"), Some(1_000), Some(2_000)),
        rec(Some("B"), Some(3_000), Some(1_000)),
        rec(Some("B"), Some(2_000), None),
        rec(Some("A"), None, Some(4_000)),
        rec(None, Some(9_000), Some(9_000)),
        rec(Some("C"), Some(7_000), Some(7_000)),
    ];
    let e = EBS::new_from_records(&records).unwrap();
    assert_eq!(e.velocity.len(), 3);
}

// The buffer distribution has one entry per project with at least one
// completed record: a backlog-only project contributes none.
#[test]
fn buffer_length_counts_projects_with_completed_records() {
    let records = vec![
        rec(Some("A"), Some(1_000), Some(2_000)),
        rec(Some("B"), Some(2_000), None),
        rec(Some("C"), None, Some(4_000)),
    ];
    let e = EBS::new_from_records(&records).unwrap();
    assert_eq!(e.projects.len(), 3);
    assert_eq!(e.buffer.len(), 1);
}

// A completed record with a zero effort is rejected as degenerate.
#[test]
fn zero_effort_record_is_rejected() {
    let records = vec![rec(Some("A"), Some(0), Some(5_000))];
    assert_eq!(load_error(&records), LoadError::ZeroEffort);
    let records = vec![rec(Some("A"), Some(5_000), Some(0))];
    assert_eq!(load_error(&records), LoadError::ZeroEffort);
}

fn load_error(records: &Vec<TaskRecord>) -> LoadError {
    match EBS::new_from_records(records) {
        Ok(_) => panic!("expected a load error"),
        Err(e) => e,
    }
}

// A buffer numerator that would leave u64 is an overflow error.
#[test]
fn accumulator_overflow_is_rejected() {
    let records = vec![
        rec(Some("A"), None, Some(u64::MAX)),
        rec(Some("A"), None, Some(1)),
        rec(Some("A"), Some(1_000), Some(1_000)),
    ];
    assert_eq!(load_error(&records), LoadError::Overflow);
}

// A velocity ratio that would leave u64 is an overflow error.
#[test]
fn ratio_overflow_is_rejected() {
    let records = vec![rec(Some("A"), Some(u64::MAX), Some(1))];
    assert_eq!(load_error(&records), LoadError::Overflow);
}

// With trialCount 100, a single 8h backlog estimate, velocity [1.0] and
// buffer [1.0], every trial outcome is exactly 8h, and the median rank
// (index 49 of 100) is 8h.
#[test]
fn deterministic_simulation_hits_eight_hours() {
    let mut e = EBS {
        projects: vec!["A".to_string()],
        buffer: vec![1_000],
        todos: vec![vec![8_000]],
        velocity: vec![1_000],
        simulation_runs: Vec::new(),
    };
    let mut rng = rand::thread_rng();
    let fc = e.montecarlo(Some(100), &mut rng).unwrap();
    assert_eq!(fc.len(), 1);
    assert_eq!(fc[0].len(), 100);
    assert_eq!(fc[0][49], 8_000);
    assert_eq!(fc[0][94], 8_000);
    assert!(e.simulation_runs[0].iter().all(|&v| v == 8_000));
}

// A project with no backlog records, for every trial, exactly the running
// total inherited from the projects before it in ID order.
#[test]
fn empty_backlog_inherits_running_total() {
    let velocity = vec![1_000];
    let buffer = vec![1_000];
    let backlogs = vec![vec![8_000], vec![]];
    let mut rng = rand::thread_rng();
    let runs = simulate(&velocity, &buffer, &backlogs, 5, &mut rng).unwrap();
    assert_eq!(runs.len(), 2);
    for t in 0..5 {
        assert_eq!(runs[0][t], 8_000);
        assert_eq!(runs[1][t], runs[0][t]);
    }
}

// After a run the stored per-project outcome sequences are sorted
// ascending, ready for percentile extraction.
#[test]
fn stored_runs_are_sorted() {
    let mut e = EBS {
        projects: vec!["A".to_string()],
        buffer: vec![1_000],
        todos: vec![vec![8_000]],
        velocity: vec![500, 1_000],
        simulation_runs: Vec::new(),
    };
    let mut rng = rand::thread_rng();
    let fc = e.montecarlo(Some(200), &mut rng).unwrap();
    assert_eq!(e.simulation_runs[0].len(), 200);
    assert!(e.simulation_runs[0].windows(2).all(|w| w[0] <= w[1]));
    assert!(e.simulation_runs[0].iter().all(|&v| v == 8_000 || v == 16_000));
    assert_eq!(fc[0].len(), 100);
}

// Projects with no backlog at all simulate to zero outcomes: nothing can
// overflow, so the run always succeeds.
#[test]
fn empty_backlogs_simulate_to_zero() {
    let mut e = EBS {
        projects: vec!["A".to_string(), "B".to_string()],
        buffer: vec![1_000],
        todos: vec![vec![], vec![]],
        velocity: Vec::new(),
        simulation_runs: Vec::new(),
    };
    let mut rng = rand::thread_rng();
    let fc = e.montecarlo(Some(100), &mut rng).unwrap();
    assert_eq!(fc.len(), 2);
    assert!(fc[0].iter().all(|&v| v == 0));
    assert!(fc[1].iter().all(|&v| v == 0));
}

// Fewer trials than percentile ranks is rejected outright.
#[test]
fn too_few_trials_is_rejected() {
    let mut e = EBS {
        projects: vec!["A".to_string()],
        buffer: vec![1_000],
        todos: vec![vec![8_000]],
        velocity: vec![1_000],
        simulation_runs: Vec::new(),
    };
    let mut rng = rand::thread_rng();
    assert_eq!(e.montecarlo(Some(50), &mut rng), Err(SimError::TooFewTrials));
}

// A trial total past u64 is reported as overflow: the smallest velocity
// sample (0.001) multiplies a huge estimate a thousandfold.
#[test]
fn simulation_overflow_is_reported() {
    let mut e = EBS {
        projects: vec!["A".to_string()],
        buffer: vec![1_000],
        todos: vec![vec![u64::MAX / 2]],
        velocity: vec![1],
        simulation_runs: Vec::new(),
    };
    let mut rng = rand::thread_rng();
    assert_eq!(e.montecarlo(Some(100), &mut rng), Err(SimError::Overflow));
}

// Percentile extraction returns exactly rank_count values: the sorted
// outcomes sampled every len/rank_count positions.
#[test]
fn extraction_takes_exact_rank_count() {
    let outcomes = vec![9, 1, 8, 2, 7, 3, 6, 4, 5, 10];
    let out = extract(&outcomes, 3).unwrap();
    // sorted: [1..=10], step 3, positions 2, 5, 8
    assert_eq!(out, vec![3, 6, 9]);
    let all = extract(&outcomes, 10).unwrap();
    assert_eq!(all, vec![1, 2, 3, 4, 5, 6, 7, 8, 9, 10]);
}

// Zero ranks and more ranks than outcomes are distinct configuration
// errors.
#[test]
fn bad_rank_counts_are_rejected() {
    let outcomes = vec![1, 2];
    assert_eq!(extract(&outcomes, 0), Err(RankError::ZeroRanks));
    assert_eq!(extract(&outcomes, 3), Err(RankError::TooFewOutcomes));
}

// Simulation is possible exactly when each needed distribution has a
// sample to draw: a buffer per project, a velocity per backlog estimate.
#[test]
fn can_draw_reflects_distribution_emptiness() {
    let no_buffer = EBS {
        projects: vec!["A".to_string()],
        buffer: Vec::new(),
        todos: vec![vec![]],
        velocity: Vec::new(),
        simulation_runs: Vec::new(),
    };
    assert!(!no_buffer.can_draw());
    let no_velocity = EBS {
        projects: vec!["A".to_string()],
        buffer: vec![1_000],
        todos: vec![vec![8_000]],
        velocity: Vec::new(),
        simulation_runs: Vec::new(),
    };
    assert!(!no_velocity.can_draw());
    let empty_backlog = EBS {
        projects: vec!["A".to_string()],
        buffer: vec![1_000],
        todos: vec![vec![]],
        velocity: Vec::new(),
        simulation_runs: Vec::new(),
    };
    assert!(empty_backlog.can_draw());
    let no_projects = EBS {
        projects: Vec::new(),
        buffer: Vec::new(),
        todos: Vec::new(),
        velocity: Vec::new(),
        simulation_runs: Vec::new(),
    };
    assert!(no_projects.can_draw());
}

// Re-sorting an already-sorted sequence leaves it unchanged.
#[test]
fn sorting_is_idempotent() {
    let mut v = vec![5, 3, 9, 1, 3];
    sort_u64(&mut v);
    assert_eq!(v, vec![1, 3, 3, 5, 9]);
    let once = v.clone();
    sort_u64(&mut v);
    assert_eq!(v, once);
}

// Eight hours of work starting on a Friday complete the following Monday:
// the weekend contributes nothing and the Friday itself is already spent.
// Epoch day 8 (1970-01-09) was a Friday; day 11 the following Monday.
#[test]
fn friday_plus_one_day_is_monday() {
    let friday = Day { num: 8 };
    let (date, days) = project_date(8_000, friday).unwrap();
    assert_eq!(days, 1);
    assert_eq!(date, Day { num: 11 });
}

// The projected date is never a weekend, even for zero required hours
// from a weekend start.
#[test]
fn projection_never_lands_on_weekend() {
    for start in 0..14u64 {
        for hours in [0u64, 1, 7_999, 8_000, 8_001, 40_000] {
            let (date, _) = project_date(hours, Day { num: start }).unwrap();
            let weekday = (date.num + 3) % 7;
            assert!(weekday < 5, "start {start} hours {hours} landed on {weekday}");
        }
    }
}

// Advancing whole business days skips weekends one step at a time.
#[test]
fn business_day_walk_skips_weekends() {
    // day 4 = Monday 1970-01-05
    let monday = Day { num: 4 };
    assert_eq!(dev_days_as_days(1, monday).unwrap(), Day { num: 5 });
    assert_eq!(dev_days_as_days(4, monday).unwrap(), Day { num: 8 });
    // the fifth business day after Monday is the next Monday
    assert_eq!(dev_days_as_days(5, monday).unwrap(), Day { num: 11 });
    // zero days still advances to the next business day
    assert_eq!(dev_days_as_days(0, monday).unwrap(), Day { num: 5 });
}

// A projection that would leave the representable day range is refused.
#[test]
fn date_overflow_is_refused() {
    assert_eq!(dev_days_as_days(1, Day { num: u64::MAX }), None);
    assert_eq!(project_date(8_000, Day { num: u64::MAX }), None);
}

// Sixteen hours buy two business days.
#[test]
fn two_business_days_for_sixteen_hours() {
    let monday = Day { num: 4 };
    let (date, days) = project_date(16_000, monday).unwrap();
    assert_eq!(days, 2);
    assert_eq!(date, Day { num: 6 });
}

// Backlogs of several projects accumulate in ID order with independent
// velocity draws; with singleton distributions the totals are exact.
#[test]
fn shared_capacity_accumulates_across_projects() {
    let records = vec![
        rec(Some("A"), Some(10_000), Some(10_000)),
        rec(Some("A"), Some(4_000), None),
        rec(Some("B"), Some(10_000), Some(10_000)),
        rec(Some("B"), Some(6_000), None),
    ];
    let mut e = EBS::new_from_records(&records).unwrap();
    assert_eq!(e.velocity, vec![1_000, 1_000]);
    assert_eq!(e.buffer, vec![1_000, 1_000]);
    let mut rng = rand::thread_rng();
    let fc = e.montecarlo(Some(100), &mut rng).unwrap();
    assert_eq!(fc[0][49], 4_000);
    assert_eq!(fc[1][49], 10_000);
}
