//! Scenario tests over realistic job sets: all three solvers on one batch,
//! boundary conditions, reproducibility, and sensitivity to weights and
//! limits.

use aps_engine::alg::baseline::solve_edd;
use aps_engine::alg::hybrid::solve_hybrid;
use aps_engine::alg::sa::solve_sa;
use aps_engine::model::{Job, Limits, SolveInput, SolveOutput, SolveParams, Weights};
use aps_engine::solve;
use rand::rngs::StdRng;
use rand::{Rng, SeedableRng};

/// Scores in thousandths.
fn milli(x: f64) -> u64 {
    (x * 1000.0).round() as u64
}

/// A cost in millionths, read back as a real.
fn micro(cost: u128) -> f64 {
    cost as f64 / 1_000_000.0
}

fn generate_realistic_jobs(count: usize, seed: u64) -> Vec<Job> {
    let mut rng = StdRng::seed_from_u64(seed);
    let mut jobs = Vec::new();

    let base_time = 1704106800000_i64;

    let colors = vec![("RED", 0.5), ("BLUE", 0.3), ("WHITE", 0.2)];
    let configs = vec![("BASE", 0.6), ("PREMIUM", 0.4)];

    for i in 0..count {
        let color = if rng.gen_bool(colors[0].1) {
            colors[0].0
        } else if rng.gen_bool(colors[1].1 / (1.0 - colors[0].1)) {
            colors[1].0
        } else {
            colors[2].0
        };

        let config = if rng.gen_bool(configs[0].1) {
            configs[0].0
        } else {
            configs[1].0
        };

        let assemble_minutes = if config == "BASE" {
            rng.gen_range(45..=75)
        } else {
            rng.gen_range(60..=90)
        };

        let stamping_minutes = rng.gen_range(8..=15);
        let welding_minutes = rng.gen_range(20..=35);
        let painting_minutes = rng.gen_range(40..=60);

        let due_offset_hours = rng.gen_range(1..=3);
        let due_epoch_ms = base_time + ((i as i64 + 1) * due_offset_hours * 3600 * 1000);

        let total_minutes = stamping_minutes + welding_minutes + painting_minutes + assemble_minutes;
        let energy_score = (total_minutes as f64 * 1.8) + rng.gen_range(-10.0..10.0);
        let emission_score = (total_minutes as f64 * 0.9) + rng.gen_range(-5.0..5.0);

        jobs.push(Job {
            vin: format!("VIN{:04}", i + 1),
            due_epoch_ms,
            stamping_minutes,
            welding_minutes,
            painting_minutes,
            assemble_minutes,
            mold_code: format!("MOLD_{}", rng.gen_range(1..=5)),
            welding_fixture: format!("FIX_{}", rng.gen_range(1..=3)),
            color: color.to_string(),
            config: config.to_string(),
            energy_score: milli(energy_score),
            emission_score: milli(emission_score),
        });
    }

    jobs
}

fn clone_jobs(jobs: &[Job]) -> Vec<Job> {
    jobs.iter().cloned().collect()
}

#[test]
fn test_realistic_scenario_50_jobs() {
    let jobs = generate_realistic_jobs(50, 12345);

    let plan_start = 1704106800000_i64;
    let weights = Weights {
        tardiness: milli(10.0),
        color_change: milli(50.0),
        config_change: milli(30.0),
        energy_excess: milli(2.0),
        emission_excess: milli(3.0),
        material_shortage: 0,
    };
    let limits = Limits {
        max_energy_per_shift: milli(5000.0),
        max_emission_per_shift: milli(2500.0),
    };

    let test_cases = vec![
        ("Baseline (EDD)", "baseline", 1, solve_edd as fn(&SolveInput) -> SolveOutput),
        ("Simulated Annealing", "sa", 5, solve_sa as fn(&SolveInput) -> SolveOutput),
        ("Multi-Start SA", "hybrid", 8, solve_hybrid as fn(&SolveInput) -> SolveOutput),
    ];

    let mut results = Vec::new();

    for (name, algo, time_budget, solver) in test_cases {
        let input = SolveInput {
            request_id: format!("test-{}", algo),
            plan_start_epoch_ms: plan_start,
            jobs: clone_jobs(&jobs),
            params: SolveParams {
                algorithm: algo.to_string(),
                time_budget_sec: time_budget,
                seed: 42,
                weights,
                limits,
            },
        };

        let output = solver(&input);
        results.push((name.to_string(), output));
    }

    for (name, output) in &results {
        let schedule = &output.schedule;

        assert_eq!(schedule.len(), jobs.len(), "{}: unexpected schedule size", name);

        let mut starts: Vec<(i64, i64)> = schedule
            .iter()
            .map(|item| (item.start_epoch_ms, item.end_epoch_ms))
            .collect();
        starts.sort();
        for i in 1..starts.len() {
            assert!(
                starts[i].0 >= starts[i - 1].1,
                "{}: overlapping items in the schedule",
                name
            );
        }

        for item in schedule {
            let expected_tardiness = ((item.end_epoch_ms - item.due_epoch_ms) / 60_000).max(0);
            assert_eq!(
                item.tardiness_min, expected_tardiness,
                "{}: wrong tardiness for {}",
                name, item.vin
            );
        }

        println!(
            "{}: cost {:.2}, tardiness {} min, elapsed {} ms",
            name,
            micro(output.summary.cost),
            output.summary.total_tardiness_min,
            output.summary.elapsed_ms
        );
    }
}

#[test]
fn test_small_scale_10_jobs() {
    let jobs = generate_realistic_jobs(10, 54321);
    let plan_start = 1704106800000_i64;

    let input = SolveInput {
        request_id: "test-small".to_string(),
        plan_start_epoch_ms: plan_start,
        jobs: clone_jobs(&jobs),
        params: SolveParams {
            algorithm: "hybrid".to_string(),
            time_budget_sec: 3,
            seed: 42,
            weights: Weights {
                tardiness: milli(10.0),
                color_change: milli(50.0),
                config_change: milli(30.0),
                energy_excess: milli(2.0),
                emission_excess: milli(3.0),
                material_shortage: 0,
            },
            limits: Limits {
                max_energy_per_shift: milli(2000.0),
                max_emission_per_shift: milli(1000.0),
            },
        },
    };

    let output = solve_hybrid(&input);

    assert_eq!(output.schedule.len(), jobs.len());
    assert!(micro(output.summary.cost) >= 0.0);
}

#[test]
fn test_stress_100_jobs() {
    let jobs = generate_realistic_jobs(100, 99999);
    let plan_start = 1704106800000_i64;

    let test_cases = vec![("Baseline", "baseline", 1), ("SA", "sa", 10), ("Hybrid", "hybrid", 15)];

    for (name, algo, time_budget) in test_cases {
        let input = SolveInput {
            request_id: format!("stress-{}", algo),
            plan_start_epoch_ms: plan_start,
            jobs: clone_jobs(&jobs),
            params: SolveParams {
                algorithm: algo.to_string(),
                time_budget_sec: time_budget,
                seed: 42,
                weights: Weights {
                    tardiness: milli(10.0),
                    color_change: milli(50.0),
                    config_change: milli(30.0),
                    energy_excess: milli(2.0),
                    emission_excess: milli(3.0),
                    material_shortage: 0,
                },
                limits: Limits {
                    max_energy_per_shift: milli(10000.0),
                    max_emission_per_shift: milli(5000.0),
                },
            },
        };

        let output = match algo {
            "baseline" => solve_edd(&input),
            "sa" => solve_sa(&input),
            "hybrid" => solve_hybrid(&input),
            _ => unreachable!(),
        };

        assert_eq!(output.schedule.len(), jobs.len(), "{}: unexpected schedule size", name);
        assert!(micro(output.summary.cost) >= 0.0, "{}: negative cost", name);
    }
}

#[test]
fn test_edge_cases() {
    let plan_start = 1704106800000_i64;

    // one job alone
    let single_job = vec![Job {
        vin: "SINGLE001".to_string(),
        due_epoch_ms: plan_start + 3600_000,
        stamping_minutes: 10,
        welding_minutes: 20,
        painting_minutes: 30,
        assemble_minutes: 40,
        mold_code: "M001".to_string(),
        welding_fixture: "F001".to_string(),
        color: "RED".to_string(),
        config: "BASE".to_string(),
        energy_score: milli(100.0),
        emission_score: milli(50.0),
    }];

    let input = SolveInput {
        request_id: "edge-single".to_string(),
        plan_start_epoch_ms: plan_start,
        jobs: single_job,
        params: SolveParams {
            algorithm: "hybrid".to_string(),
            time_budget_sec: 2,
            seed: 42,
            weights: Weights::default(),
            limits: Limits::default(),
        },
    };

    let output = solve_hybrid(&input);
    assert_eq!(output.schedule.len(), 1);
    assert_eq!(output.summary.color_changes, 0);
    assert_eq!(output.summary.config_changes, 0);

    // every job the same color and configuration
    let same_jobs: Vec<Job> = (0..5)
        .map(|i| Job {
            vin: format!("SAME{:03}", i),
            due_epoch_ms: plan_start + ((i + 1) as i64 * 3600_000),
            stamping_minutes: 10,
            welding_minutes: 20,
            painting_minutes: 30,
            assemble_minutes: 60,
            mold_code: "M001".to_string(),
            welding_fixture: "F001".to_string(),
            color: "RED".to_string(),
            config: "BASE".to_string(),
            energy_score: milli(100.0),
            emission_score: milli(50.0),
        })
        .collect();

    let input = SolveInput {
        request_id: "edge-same".to_string(),
        plan_start_epoch_ms: plan_start,
        jobs: same_jobs,
        params: SolveParams {
            algorithm: "ga".to_string(),
            time_budget_sec: 3,
            seed: 42,
            weights: Weights::default(),
            limits: Limits::default(),
        },
    };

    let output = solve(&input);
    assert_eq!(output.schedule.len(), 5);
    assert_eq!(output.summary.color_changes, 0, "same colors must not count a change");
    assert_eq!(output.summary.config_changes, 0, "same configurations must not count a change");

    // every job already overdue
    let overdue_jobs: Vec<Job> = (0..5)
        .map(|i| Job {
            vin: format!("OVER{:03}", i),
            due_epoch_ms: plan_start - (3600_000 * (i + 1) as i64),
            stamping_minutes: 10,
            welding_minutes: 20,
            painting_minutes: 30,
            assemble_minutes: 60,
            mold_code: "M001".to_string(),
            welding_fixture: "F001".to_string(),
            color: "BLUE".to_string(),
            config: "PREMIUM".to_string(),
            energy_score: milli(80.0),
            emission_score: milli(40.0),
        })
        .collect();

    let input = SolveInput {
        request_id: "edge-overdue".to_string(),
        plan_start_epoch_ms: plan_start,
        jobs: overdue_jobs,
        params: SolveParams {
            algorithm: "sa".to_string(),
            time_budget_sec: 3,
            seed: 42,
            weights: Weights {
                tardiness: milli(100.0),
                ..Default::default()
            },
            limits: Limits::default(),
        },
    };

    let output = solve_sa(&input);
    assert_eq!(output.schedule.len(), 5);
    assert!(output.summary.total_tardiness_min > 0, "overdue jobs must report tardiness");

    // stages with zero duration
    let zero_time_jobs = vec![
        Job {
            vin: "ZERO001".to_string(),
            due_epoch_ms: plan_start + 7200_000,
            stamping_minutes: 0,
            welding_minutes: 0,
            painting_minutes: 0,
            assemble_minutes: 60,
            mold_code: String::new(),
            welding_fixture: String::new(),
            color: "RED".to_string(),
            config: "BASE".to_string(),
            energy_score: milli(50.0),
            emission_score: milli(25.0),
        },
        Job {
            vin: "ZERO002".to_string(),
            due_epoch_ms: plan_start + 10800_000,
            stamping_minutes: 10,
            welding_minutes: 20,
            painting_minutes: 30,
            assemble_minutes: 40,
            mold_code: "M001".to_string(),
            welding_fixture: "F001".to_string(),
            color: "BLUE".to_string(),
            config: "PREMIUM".to_string(),
            energy_score: milli(100.0),
            emission_score: milli(50.0),
        },
    ];

    let input = SolveInput {
        request_id: "edge-zero".to_string(),
        plan_start_epoch_ms: plan_start,
        jobs: zero_time_jobs,
        params: SolveParams::default(),
    };

    let output = solve_edd(&input);
    assert_eq!(output.schedule.len(), 2);
}

#[test]
fn test_algorithm_reproducibility() {
    let jobs = generate_realistic_jobs(20, 88888);
    let plan_start = 1704106800000_i64;

    let algorithms = vec![
        ("SA", "sa", solve_sa as fn(&SolveInput) -> SolveOutput),
        ("Hybrid", "hybrid", solve_hybrid as fn(&SolveInput) -> SolveOutput),
    ];

    for (name, algo, solver) in algorithms {
        let mut results = Vec::new();

        for run in 1..=3 {
            let input = SolveInput {
                request_id: format!("repro-{}-{}", algo, run),
                plan_start_epoch_ms: plan_start,
                jobs: clone_jobs(&jobs),
                params: SolveParams {
                    algorithm: algo.to_string(),
                    time_budget_sec: 3,
                    seed: 12345,
                    weights: Weights::default(),
                    limits: Limits::default(),
                },
            };

            let output = solver(&input);
            results.push(output);
        }

        let first_cost = results[0].summary.cost;
        let first_order = &results[0].order;

        for (i, result) in results.iter().enumerate().skip(1) {
            assert_eq!(
                result.order, *first_order,
                "{}: run {} ordered the jobs differently",
                name,
                i + 1
            );
            assert!(
                (micro(result.summary.cost) - micro(first_cost)).abs() < 1e-6,
                "{}: run {} reported a different cost",
                name,
                i + 1
            );
        }
    }
}

#[test]
fn test_weight_sensitivity() {
    let jobs = generate_realistic_jobs(30, 77777);
    let plan_start = 1704106800000_i64;

    let weight_scenarios = vec![
        (
            "tardiness-heavy",
            Weights {
                tardiness: milli(1000.0),
                color_change: milli(1.0),
                config_change: milli(1.0),
                energy_excess: milli(1.0),
                emission_excess: milli(1.0),
                material_shortage: 0,
            },
        ),
        (
            "changeover-heavy",
            Weights {
                tardiness: milli(1.0),
                color_change: milli(500.0),
                config_change: milli(500.0),
                energy_excess: milli(1.0),
                emission_excess: milli(1.0),
                material_shortage: 0,
            },
        ),
        (
            "balanced",
            Weights {
                tardiness: milli(10.0),
                color_change: milli(50.0),
                config_change: milli(30.0),
                energy_excess: milli(2.0),
                emission_excess: milli(3.0),
                material_shortage: 0,
            },
        ),
    ];

    for (scenario_name, weights) in weight_scenarios {
        let input = SolveInput {
            request_id: format!("weight-{}", scenario_name),
            plan_start_epoch_ms: plan_start,
            jobs: clone_jobs(&jobs),
            params: SolveParams {
                algorithm: "hybrid".to_string(),
                time_budget_sec: 5,
                seed: 42,
                weights,
                limits: Limits::default(),
            },
        };

        let output = solve_hybrid(&input);

        println!(
            "{}: cost {:.2}, tardiness {} min, color changes {}, config changes {}",
            scenario_name,
            micro(output.summary.cost),
            output.summary.total_tardiness_min,
            output.summary.color_changes,
            output.summary.config_changes
        );
    }
}

#[test]
fn test_capacity_limits() {
    let jobs = generate_realistic_jobs(40, 66666);
    let plan_start = 1704106800000_i64;

    let limit_scenarios = vec![
        (
            "loose",
            Limits {
                max_energy_per_shift: milli(10000.0),
                max_emission_per_shift: milli(5000.0),
            },
        ),
        (
            "normal",
            Limits {
                max_energy_per_shift: milli(5000.0),
                max_emission_per_shift: milli(2500.0),
            },
        ),
        (
            "strict",
            Limits {
                max_energy_per_shift: milli(2000.0),
                max_emission_per_shift: milli(1000.0),
            },
        ),
    ];

    for (scenario_name, limits) in limit_scenarios {
        let input = SolveInput {
            request_id: format!("limit-{}", scenario_name),
            plan_start_epoch_ms: plan_start,
            jobs: clone_jobs(&jobs),
            params: SolveParams {
                algorithm: "sa".to_string(),
                time_budget_sec: 5,
                seed: 42,
                weights: Weights {
                    energy_excess: milli(100.0),
                    emission_excess: milli(100.0),
                    ..Default::default()
                },
                limits,
            },
        };

        let output = solve_sa(&input);

        if scenario_name == "loose" {
            assert_eq!(output.violations.len(), 0, "loose limits must not produce violations");
        } else if scenario_name == "strict" {
            assert!(
                output.violations.len() > 0 || output.summary.energy_excess > 0
                    || output.summary.emission_excess > 0,
                "strict limits must show constraint pressure"
            );
        }
    }
}
