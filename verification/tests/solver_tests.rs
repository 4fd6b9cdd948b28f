//! Tests of the three solvers: baseline, annealing, and multi-start.

use aps_engine::alg::baseline::solve_edd;
use aps_engine::alg::hybrid::solve_hybrid;
use aps_engine::alg::sa::solve_sa;
use aps_engine::model::{Job, Limits, SolveInput, SolveParams, Weights};

/// Scores in thousandths.
fn milli(x: f64) -> u64 {
    (x * 1000.0).round() as u64
}

/// A cost in millionths, read back as a real.
fn micro(cost: u128) -> f64 {
    cost as f64 / 1_000_000.0
}

fn job(
    vin: &str,
    due_epoch_ms: i64,
    assemble_minutes: i32,
    color: &str,
    config: &str,
    energy: f64,
    emission: f64,
) -> Job {
    Job {
        vin: vin.to_string(),
        due_epoch_ms,
        stamping_minutes: 0,
        welding_minutes: 0,
        painting_minutes: 0,
        assemble_minutes,
        mold_code: String::new(),
        welding_fixture: String::new(),
        color: color.to_string(),
        config: config.to_string(),
        energy_score: milli(energy),
        emission_score: milli(emission),
    }
}

#[test]
fn test_solve_edd_with_constraints() {
    let input = SolveInput {
        request_id: "test-001".to_string(),
        plan_start_epoch_ms: 1704106800000,
        jobs: vec![
            job("VIN001", 1704110400000, 60, "RED", "BASE", 150.0, 75.0),
            job("VIN002", 1704114000000, 30, "BLUE", "PREMIUM", 80.0, 40.0),
        ],
        params: SolveParams {
            algorithm: "baseline".to_string(),
            time_budget_sec: 1,
            seed: 42,
            weights: Weights::default(),
            limits: Limits {
                max_energy_per_shift: milli(200.0),
                max_emission_per_shift: milli(100.0),
            },
        },
    };

    let output = solve_edd(&input);

    assert!(!output.violations.is_empty());
    assert!(output.summary.energy_excess > 0);
    assert!(output.summary.emission_excess > 0);
}

#[test]
fn test_sa_improvement() {
    let input = SolveInput {
        request_id: "sa-test-001".to_string(),
        plan_start_epoch_ms: 1704106800000,
        jobs: vec![
            job("VIN001", 1704110400000, 60, "RED", "BASE", 100.0, 50.0),
            job("VIN002", 1704114000000, 30, "BLUE", "PREMIUM", 80.0, 40.0),
            job("VIN003", 1704117600000, 45, "RED", "BASE", 90.0, 45.0),
        ],
        params: SolveParams {
            algorithm: "sa".to_string(),
            time_budget_sec: 5,
            seed: 42,
            weights: Weights::default(),
            limits: Limits::default(),
        },
    };

    let output = solve_sa(&input);

    assert!(output.convergence.len() >= 1);

    assert!(micro(output.summary.cost) >= 0.0);
    assert!(output.baseline_summary.cost >= output.summary.cost);
    assert!(output.convergence.len() >= 1);
}

#[test]
fn test_sa_reproducible() {
    let input = SolveInput {
        request_id: "sa-repro-001".to_string(),
        plan_start_epoch_ms: 1704106800000,
        jobs: vec![
            job("VIN001", 1704110400000, 60, "RED", "BASE", 100.0, 50.0),
            job("VIN002", 1704114000000, 30, "BLUE", "PREMIUM", 80.0, 40.0),
        ],
        params: SolveParams {
            algorithm: "sa".to_string(),
            time_budget_sec: 1,
            seed: 12345,
            weights: Weights::default(),
            limits: Limits::default(),
        },
    };

    let output1 = solve_sa(&input);
    let output2 = solve_sa(&input);

    assert_eq!(output1.order, output2.order);
}

#[test]
fn test_hybrid_basic() {
    let input = SolveInput {
        request_id: "hybrid-test-001".to_string(),
        plan_start_epoch_ms: 1704106800000,
        jobs: vec![
            job("VIN001", 1704110400000, 60, "RED", "BASE", 100.0, 50.0),
            job("VIN002", 1704114000000, 30, "BLUE", "PREMIUM", 80.0, 40.0),
            job("VIN003", 1704117600000, 45, "RED", "BASE", 90.0, 45.0),
        ],
        params: SolveParams {
            algorithm: "hybrid".to_string(),
            time_budget_sec: 3,
            seed: 42,
            weights: Weights {
                tardiness: milli(10.0),
                color_change: milli(50.0),
                config_change: milli(30.0),
                energy_excess: milli(2.0),
                emission_excess: milli(3.0),
                material_shortage: 0,
            },
            limits: Limits::default(),
        },
    };

    let output = solve_hybrid(&input);

    assert!(
        output.convergence.len() >= 3,
        "Expected at least 3 convergence points, got {}",
        output.convergence.len()
    );
    assert!(micro(output.summary.cost) >= 0.0);
    assert_eq!(output.order.len(), 3);
    assert_eq!(output.schedule.len(), 3);

    assert!(
        micro(output.summary.cost) <= micro(output.baseline_summary.cost) * 1.01,
        "Multi-Start SA should not be worse than baseline (allow 1% error)"
    );

    println!("Baseline: {:.2}", micro(output.baseline_summary.cost));
    println!("Multi-Start SA: {:.2}", micro(output.summary.cost));
    if output.baseline_summary.cost > 0 {
        println!(
            "Improvement: {:.2}%",
            (micro(output.baseline_summary.cost) - micro(output.summary.cost))
                / micro(output.baseline_summary.cost) * 100.0
        );
    }
}

#[test]
fn test_hybrid_multi_runs() {
    let jobs: Vec<Job> = (0..10)
        .map(|i| {
            job(
                &format!("VIN{:03}", i),
                1704106800000 + (i as i64 * 3600_000),
                60,
                if i % 3 == 0 {
                    "RED"
                } else if i % 3 == 1 {
                    "BLUE"
                } else {
                    "WHITE"
                },
                if i % 2 == 0 { "BASE" } else { "PREMIUM" },
                100.0,
                50.0,
            )
        })
        .collect();

    let input = SolveInput {
        request_id: "hybrid-multi-test".to_string(),
        plan_start_epoch_ms: 1704106800000,
        jobs,
        params: SolveParams {
            algorithm: "hybrid".to_string(),
            time_budget_sec: 9,
            seed: 12345,
            weights: Weights {
                tardiness: milli(10.0),
                color_change: milli(50.0),
                config_change: milli(30.0),
                energy_excess: milli(2.0),
                emission_excess: milli(3.0),
                material_shortage: 0,
            },
            limits: Limits::default(),
        },
    };

    let output = solve_hybrid(&input);

    assert!(
        output.convergence.len() >= 3,
        "Expected at least 3 convergence points, got {}",
        output.convergence.len()
    );

    assert!(
        output.summary.cost <= output.baseline_summary.cost,
        "Multi-Start SA should not be worse than baseline"
    );

    println!("Convergence points: {}", output.convergence.len());
    println!("Baseline: {:.2}", micro(output.baseline_summary.cost));
    println!("Multi-Start SA: {:.2}", micro(output.summary.cost));
    println!(
        "Improvement: {:.2}%",
        (micro(output.baseline_summary.cost) - micro(output.summary.cost))
            / micro(output.baseline_summary.cost) * 100.0
    );
}

#[test]
fn test_hybrid_single_run_mode() {
    let jobs: Vec<Job> = (0..5)
        .map(|i| {
            job(
                &format!("V{}", i),
                1704106800000 + (i as i64 * 3600_000),
                60,
                "RED",
                "BASE",
                100.0,
                50.0,
            )
        })
        .collect();

    let input = SolveInput {
        request_id: "hybrid-single-run-test".to_string(),
        plan_start_epoch_ms: 1704106800000,
        jobs,
        params: SolveParams {
            algorithm: "hybrid".to_string(),
            time_budget_sec: 3,
            seed: 999,
            weights: Weights {
                tardiness: milli(10.0),
                color_change: milli(50.0),
                config_change: milli(30.0),
                energy_excess: milli(2.0),
                emission_excess: milli(3.0),
                material_shortage: 0,
            },
            limits: Limits::default(),
        },
    };

    let output = solve_hybrid(&input);

    assert!(output.convergence.len() >= 3);
    assert_eq!(output.order.len(), 5);

    println!("Elapsed: {}ms", output.summary.elapsed_ms);
    println!("Cost: {:.2}", micro(output.summary.cost));
}
