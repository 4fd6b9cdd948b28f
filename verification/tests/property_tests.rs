//! Scenario tests for the engine's stated properties: tardiness flooring,
//! build counts, stable baseline ordering, dispatch fallback, violation
//! emission, and trace monotonicity.

use aps_engine::alg::baseline::solve_edd;
use aps_engine::alg::hybrid::solve_hybrid;
use aps_engine::alg::sa::solve_sa;
use aps_engine::eval::{build_full_process_schedule, build_schedule, build_violations};
use aps_engine::model::{Job, Limits, SolveInput, SolveParams, Weights};
use aps_engine::solve;
use aps_engine::util::time::shift_id;

fn milli(x: f64) -> u64 {
    (x * 1000.0).round() as u64
}

fn micro(cost: u128) -> f64 {
    cost as f64 / 1_000_000.0
}

fn simple_job(vin: &str, due_epoch_ms: i64, assemble_minutes: i32) -> Job {
    Job {
        vin: vin.to_string(),
        due_epoch_ms,
        stamping_minutes: 0,
        welding_minutes: 0,
        painting_minutes: 0,
        assemble_minutes,
        mold_code: String::new(),
        welding_fixture: String::new(),
        color: "RED".to_string(),
        config: "BASE".to_string(),
        energy_score: milli(10.0),
        emission_score: milli(5.0),
    }
}

#[test]
fn test_tardiness_floors_partial_minutes() {
    // ninety seconds late counts as one whole minute
    let base = 1704106800000_i64;
    let mut job = simple_job("FLOOR01", base + 30 * 60_000 - 90_000, 30);
    job.due_epoch_ms = base + 30 * 60_000 - 90_000;
    let jobs = vec![job];
    let schedule = build_schedule(&jobs, base);
    assert_eq!(schedule[0].tardiness_min, 1);
}

#[test]
fn test_edd_puts_earlier_due_first() {
    let t = 1704106800000_i64;
    let input = SolveInput {
        request_id: "edd-order".to_string(),
        plan_start_epoch_ms: t,
        jobs: vec![
            simple_job("LATER", t + 3600000, 30),
            simple_job("SOONER", t + 1200000, 30),
        ],
        params: SolveParams {
            algorithm: "baseline".to_string(),
            time_budget_sec: 1,
            seed: 0,
            weights: Weights::default(),
            limits: Limits::default(),
        },
    };
    let output = solve_edd(&input);
    assert_eq!(output.order, vec!["SOONER".to_string(), "LATER".to_string()]);
}

#[test]
fn test_edd_stable_on_equal_due() {
    let t = 1704106800000_i64;
    let input = SolveInput {
        request_id: "edd-stable".to_string(),
        plan_start_epoch_ms: t,
        jobs: vec![
            simple_job("FIRST", t + 3600000, 30),
            simple_job("SECOND", t + 3600000, 30),
            simple_job("THIRD", t + 3600000, 30),
        ],
        params: SolveParams {
            algorithm: "baseline".to_string(),
            time_budget_sec: 1,
            seed: 0,
            weights: Weights::default(),
            limits: Limits::default(),
        },
    };
    let output = solve_edd(&input);
    assert_eq!(
        output.order,
        vec!["FIRST".to_string(), "SECOND".to_string(), "THIRD".to_string()]
    );
}

#[test]
fn test_single_stage_build_omits_zero_durations() {
    let t = 1704106800000_i64;
    let mut j1 = simple_job("HAS", t + 3600000, 45);
    j1.stamping_minutes = 5;
    let j2 = simple_job("NONE", t + 3600000, 0);
    let mut j3 = simple_job("ALSO", t + 3600000, 15);
    j3.painting_minutes = 7;
    let jobs = vec![j1, j2, j3];
    let schedule = build_schedule(&jobs, t);
    assert_eq!(schedule.len(), 2);
    assert_eq!(schedule[0].vin, "HAS");
    assert_eq!(schedule[1].vin, "ALSO");
}

#[test]
fn test_full_build_counts_nonzero_stages() {
    let t = 1704106800000_i64;
    let mut j1 = simple_job("TWO", t + 3600000, 45);
    j1.welding_minutes = 10;
    let mut j2 = simple_job("THREE", t + 7200000, 30);
    j2.stamping_minutes = 5;
    j2.painting_minutes = 8;
    let jobs = vec![j1, j2];
    let schedule = build_full_process_schedule(&jobs, t);
    assert_eq!(schedule.len(), 5);
    let first: Vec<i32> = schedule.iter().filter(|i| i.vin == "TWO").map(|i| i.process_type).collect();
    assert_eq!(first, vec![2, 4]);
    let second: Vec<i32> =
        schedule.iter().filter(|i| i.vin == "THREE").map(|i| i.process_type).collect();
    assert_eq!(second, vec![1, 3, 4]);
    // fully serial: each item starts where the previous one ends
    for i in 1..schedule.len() {
        assert_eq!(schedule[i].start_epoch_ms, schedule[i - 1].end_epoch_ms);
    }
}

#[test]
fn test_violations_both_dimensions() {
    let t = 1704106800000_i64;
    let mut job = simple_job("BOTH01", t + 3600000, 30);
    job.energy_score = milli(2000.0);
    job.emission_score = milli(900.0);
    let jobs = vec![job];
    let schedule = build_schedule(&jobs, t);
    let limits = Limits {
        max_energy_per_shift: milli(1500.0),
        max_emission_per_shift: milli(800.0),
    };
    let violations = build_violations(&schedule, &limits, &jobs);
    assert_eq!(violations.len(), 2);
    assert_eq!(violations[0].vtype, "ENERGY");
    assert_eq!(violations[0].excess, milli(500.0));
    assert_eq!(violations[1].vtype, "EMISSION");
    assert_eq!(violations[1].excess, milli(100.0));
}

#[test]
fn test_shift_label_crosses_month() {
    // 03:00 on February 1st still belongs to January 31st's night shift
    let t = chrono::NaiveDate::from_ymd_opt(2024, 2, 1)
        .unwrap()
        .and_hms_opt(3, 0, 0)
        .unwrap()
        .and_utc()
        .timestamp_millis();
    assert_eq!(shift_id(t), "2024-01-31_NIGHT");
}

#[test]
fn test_dispatch_picks_and_falls_back() {
    let t = 1704106800000_i64;
    let jobs = vec![
        simple_job("D1", t + 3600000, 30),
        simple_job("D2", t + 1200000, 45),
        simple_job("D3", t + 7200000, 20),
    ];
    let mk = |algo: &str| SolveInput {
        request_id: format!("dispatch-{}", algo),
        plan_start_epoch_ms: t,
        jobs: jobs.iter().cloned().collect(),
        params: SolveParams {
            algorithm: algo.to_string(),
            time_budget_sec: 1,
            seed: 7,
            weights: Weights {
                tardiness: milli(2.0),
                ..Default::default()
            },
            limits: Limits::default(),
        },
    };

    let direct_edd = solve_edd(&mk("baseline"));
    let via_solve = solve(&mk("baseline"));
    assert_eq!(via_solve.order, direct_edd.order);
    assert_eq!(via_solve.summary.cost, direct_edd.summary.cost);

    let fallback = solve(&mk("does-not-exist"));
    assert_eq!(fallback.order, direct_edd.order);
    assert_eq!(fallback.summary.cost, direct_edd.summary.cost);

    let direct_sa = solve_sa(&mk("sa"));
    let via_sa = solve(&mk("sa"));
    assert_eq!(via_sa.order, direct_sa.order);
    assert_eq!(via_sa.summary.cost, direct_sa.summary.cost);
}

#[test]
fn test_hybrid_trace_monotone_and_not_worse_than_baseline() {
    let t = 1704106800000_i64;
    let jobs: Vec<Job> = (0..8)
        .map(|i| {
            let mut j = simple_job(&format!("M{:02}", i), t + (8 - i as i64) * 1800000, 30 + i);
            j.color = if i % 2 == 0 { "RED".to_string() } else { "BLUE".to_string() };
            j
        })
        .collect();
    let input = SolveInput {
        request_id: "trace-mono".to_string(),
        plan_start_epoch_ms: t,
        jobs,
        params: SolveParams {
            algorithm: "hybrid".to_string(),
            time_budget_sec: 4,
            seed: 99,
            weights: Weights {
                tardiness: milli(5.0),
                color_change: milli(25.0),
                ..Default::default()
            },
            limits: Limits::default(),
        },
    };
    let output = solve_hybrid(&input);
    assert!(output.convergence.len() >= 4);
    assert_eq!(output.convergence[0].t_ms, 0);
    assert_eq!(output.convergence[0].best_cost, output.baseline_summary.cost);
    for i in 1..output.convergence.len() {
        assert!(output.convergence[i].t_ms >= output.convergence[i - 1].t_ms);
        assert!(output.convergence[i].best_cost <= output.convergence[i - 1].best_cost);
        if output.convergence[i].best_cost == output.convergence[i - 1].best_cost {
            assert_eq!(output.convergence[i].best_cost, output.summary.cost);
        }
    }
    assert!(micro(output.summary.cost) <= micro(output.baseline_summary.cost));
    assert_eq!(
        output.convergence.last().unwrap().best_cost,
        output.summary.cost
    );
}

#[test]
fn test_zero_jobs_complete_cleanly() {
    let t = 1704106800000_i64;
    let input = SolveInput {
        request_id: "empty".to_string(),
        plan_start_epoch_ms: t,
        jobs: vec![],
        params: SolveParams {
            algorithm: "sa".to_string(),
            time_budget_sec: 1,
            seed: 1,
            weights: Weights::default(),
            limits: Limits::default(),
        },
    };
    let output = solve_sa(&input);
    assert_eq!(output.order.len(), 0);
    assert_eq!(output.schedule.len(), 0);
    assert_eq!(output.summary.cost, 0);
    assert_eq!(output.violations.len(), 0);
}
