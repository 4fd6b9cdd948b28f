//! Tests of the evaluator: schedule builders, aggregation, cost, and
//! violations.

use aps_engine::eval::{
    build_full_process_schedule, build_kpi_summary, build_schedule, build_schedule_for_process,
    build_violations, calc_cost, calculate_shift_metrics, summarize,
};
use aps_engine::model::{Job, KpiSummary, Limits, ProcessType, Weights};
use std::collections::HashSet;

/// Scores in thousandths.
fn milli(x: f64) -> u64 {
    (x * 1000.0).round() as u64
}

/// A cost in millionths, read back as a real.
fn micro(cost: u128) -> f64 {
    cost as f64 / 1_000_000.0
}

fn create_test_job(vin: &str, assembly_minutes: i32, due_offset_hours: i64) -> Job {
    let base_time = 1704106800000_i64;
    Job {
        vin: vin.to_string(),
        due_epoch_ms: base_time + (due_offset_hours * 3600 * 1000),
        stamping_minutes: 0,
        welding_minutes: 0,
        painting_minutes: 0,
        assemble_minutes: assembly_minutes,
        mold_code: String::new(),
        welding_fixture: String::new(),
        color: "RED".to_string(),
        config: "BASE".to_string(),
        energy_score: milli(100.0),
        emission_score: milli(50.0),
    }
}

#[test]
fn test_multi_job_full_process() {
    let job1 = create_test_job("VIN001", 60, 5);

    let mut job2 = create_test_job("VIN002", 40, 8);
    job2.stamping_minutes = 20;

    let jobs = vec![job1, job2];
    let plan_start = 1704106800000_i64;

    let schedule = build_full_process_schedule(&jobs, plan_start);

    let job1_items: Vec<_> = schedule.iter().filter(|item| item.vin == "VIN001").collect();
    assert_eq!(job1_items.len(), 1);
    assert_eq!(job1_items[0].process_type, 4);

    let job2_items: Vec<_> = schedule.iter().filter(|item| item.vin == "VIN002").collect();
    assert_eq!(job2_items.len(), 2);
    assert_eq!(job2_items[0].process_type, 1);
    assert_eq!(job2_items[1].process_type, 4);

    assert_eq!(job2_items[0].start_epoch_ms, job1_items[0].end_epoch_ms);

    let job1_total = job1_items[0].end_epoch_ms - job1_items[0].start_epoch_ms;
    assert_eq!(job1_total, 60 * 60_000);

    let job2_total = job2_items[1].end_epoch_ms - job2_items[0].start_epoch_ms;
    assert_eq!(job2_total, 60 * 60_000);
}

#[test]
fn test_full_process_serial() {
    let mut job = create_test_job("VIN_FULL", 40, 10);
    job.stamping_minutes = 10;
    job.welding_minutes = 20;
    job.painting_minutes = 30;
    job.assemble_minutes = 40;

    let jobs = vec![job];
    let plan_start = 1704106800000_i64;

    let schedule = build_full_process_schedule(&jobs, plan_start);

    assert_eq!(schedule.len(), 4);

    assert_eq!(schedule[0].process_type, 1);
    assert_eq!(schedule[1].process_type, 2);
    assert_eq!(schedule[2].process_type, 3);
    assert_eq!(schedule[3].process_type, 4);

    assert_eq!(schedule[1].start_epoch_ms, schedule[0].end_epoch_ms);
    assert_eq!(schedule[2].start_epoch_ms, schedule[1].end_epoch_ms);
    assert_eq!(schedule[3].start_epoch_ms, schedule[2].end_epoch_ms);

    assert_eq!(schedule[0].end_epoch_ms - schedule[0].start_epoch_ms, 10 * 60_000);
    assert_eq!(schedule[1].end_epoch_ms - schedule[1].start_epoch_ms, 20 * 60_000);
    assert_eq!(schedule[2].end_epoch_ms - schedule[2].start_epoch_ms, 30 * 60_000);
    assert_eq!(schedule[3].end_epoch_ms - schedule[3].start_epoch_ms, 40 * 60_000);

    let total_time = schedule[3].end_epoch_ms - schedule[0].start_epoch_ms;
    assert_eq!(total_time, 100 * 60_000);
}

#[test]
fn test_build_schedule_basic() {
    let jobs = vec![create_test_job("VIN001", 60, 2), create_test_job("VIN002", 30, 4)];

    let plan_start = 1704106800000_i64;
    let schedule = build_schedule(&jobs, plan_start);

    assert_eq!(schedule.len(), 2);
    assert_eq!(schedule[0].vin, "VIN001");
    assert_eq!(schedule[0].process_type, 4);
    assert_eq!(schedule[0].line_id, 0);

    assert_eq!(schedule[0].end_epoch_ms - schedule[0].start_epoch_ms, 60 * 60_000);

    assert_eq!(schedule[1].start_epoch_ms, schedule[0].end_epoch_ms);
}

#[test]
fn test_build_schedule_skip_zero_time() {
    let mut job = create_test_job("VIN003", 0, 2);
    job.stamping_minutes = 10;

    let jobs = vec![job];
    let plan_start = 1704106800000_i64;

    let schedule = build_schedule(&jobs, plan_start);
    assert_eq!(schedule.len(), 0);

    let schedule_stamping = build_schedule_for_process(&jobs, plan_start, ProcessType::Stamping, 0);
    assert_eq!(schedule_stamping.len(), 1);
    assert_eq!(schedule_stamping[0].process_type, 1);
}

#[test]
fn test_summarize() {
    let jobs = vec![create_test_job("VIN001", 60, 2), create_test_job("VIN002", 30, 4)];

    let schedule = build_schedule(&jobs, 1704106800000);
    let (total_tardiness, max_tardiness, color_changes, config_changes) = summarize(&schedule);

    assert!(total_tardiness >= 0);
    assert!(max_tardiness >= 0);
    assert_eq!(color_changes, 0);
    assert_eq!(config_changes, 0);
}

#[test]
fn test_color_changes() {
    let mut jobs = vec![
        create_test_job("VIN001", 60, 2),
        create_test_job("VIN002", 30, 4),
        create_test_job("VIN003", 45, 6),
    ];

    jobs[1].color = "BLUE".to_string();

    let schedule = build_schedule(&jobs, 1704106800000);
    let (_, _, color_changes, _) = summarize(&schedule);

    assert_eq!(color_changes, 2);
}

#[test]
fn test_config_changes() {
    let mut jobs = vec![
        create_test_job("VIN001", 60, 2),
        create_test_job("VIN002", 30, 4),
        create_test_job("VIN003", 45, 6),
    ];

    jobs[1].config = "PREMIUM".to_string();

    let schedule = build_schedule(&jobs, 1704106800000);
    let (_, _, _, config_changes) = summarize(&schedule);

    assert_eq!(config_changes, 2);
}

#[test]
fn test_no_changes_when_same() {
    let jobs = vec![
        create_test_job("VIN001", 60, 2),
        create_test_job("VIN002", 30, 4),
        create_test_job("VIN003", 45, 6),
    ];

    let schedule = build_schedule(&jobs, 1704106800000);
    let (_, _, color_changes, config_changes) = summarize(&schedule);

    assert_eq!(color_changes, 0);
    assert_eq!(config_changes, 0);
}

#[test]
fn test_single_change_each() {
    let mut jobs = vec![create_test_job("VIN001", 60, 2), create_test_job("VIN002", 30, 4)];

    jobs[1].color = "BLUE".to_string();
    jobs[1].config = "PREMIUM".to_string();

    let schedule = build_schedule(&jobs, 1704106800000);
    let (_, _, color_changes, config_changes) = summarize(&schedule);

    assert_eq!(color_changes, 1);
    assert_eq!(config_changes, 1);
}

#[test]
fn test_shift_metrics() {
    let jobs = vec![create_test_job("VIN001", 60, 2), create_test_job("VIN002", 30, 4)];

    let schedule = build_schedule(&jobs, 1704106800000);

    let metrics = calculate_shift_metrics(&schedule, &jobs);

    assert!(!metrics.is_empty());

    let total_energy: f64 = metrics.iter().map(|m| m.energy as f64 / 1000.0).sum();
    assert_eq!(total_energy, 200.0);
}

#[test]
fn test_shift_metrics_count_job_once_per_shift() {
    // one job, two stages in the same shift: its scores count once
    let mut job = create_test_job("MULTI01", 40, 5);
    job.stamping_minutes = 20;
    let jobs = vec![job];

    let schedule = build_full_process_schedule(&jobs, 1704106800000);
    assert_eq!(schedule.len(), 2);
    assert_eq!(schedule[0].shift_id, schedule[1].shift_id);

    let metrics = calculate_shift_metrics(&schedule, &jobs);
    assert_eq!(metrics.len(), 1);
    assert_eq!(metrics[0].energy, milli(100.0));
    assert_eq!(metrics[0].emission, milli(50.0));
}

#[test]
fn test_shift_metrics_count_job_in_every_shift_it_spans() {
    // stages falling in different shifts each carry the job's full scores
    let mut job = create_test_job("SPAN01", 0, 20);
    job.stamping_minutes = 550;
    job.welding_minutes = 30;
    let jobs = vec![job];

    let schedule = build_full_process_schedule(&jobs, 1704106800000);
    assert_eq!(schedule.len(), 2);
    assert_ne!(schedule[0].shift_id, schedule[1].shift_id);

    let metrics = calculate_shift_metrics(&schedule, &jobs);
    assert_eq!(metrics.len(), 2);
    assert_eq!(metrics[0].energy, milli(100.0));
    assert_eq!(metrics[1].energy, milli(100.0));
}

#[test]
fn test_build_kpi_summary() {
    let jobs = vec![create_test_job("VIN001", 60, 2), create_test_job("VIN002", 30, 4)];

    let schedule = build_schedule(&jobs, 1704106800000);

    let weights = Weights {
        tardiness: milli(2.0),
        color_change: milli(1.0),
        config_change: milli(1.5),
        energy_excess: milli(0.8),
        emission_excess: milli(0.6),
        material_shortage: milli(2.0),
    };

    let limits = Limits {
        max_energy_per_shift: milli(1500.0),
        max_emission_per_shift: milli(800.0),
    };

    let summary = build_kpi_summary(&schedule, &weights, &limits, &jobs, 1000);

    assert!(micro(summary.cost) >= 0.0);
    assert_eq!(summary.elapsed_ms, 1000);
    assert_eq!(summary.color_changes, 0);
    assert_eq!(summary.config_changes, 0);
}

#[test]
fn test_build_violations() {
    let mut jobs = vec![create_test_job("VIN001", 60, 2)];
    jobs[0].energy_score = milli(2000.0);

    let schedule = build_schedule(&jobs, 1704106800000);

    let limits = Limits {
        max_energy_per_shift: milli(1500.0),
        max_emission_per_shift: milli(800.0),
    };

    let violations = build_violations(&schedule, &limits, &jobs);

    assert_eq!(violations.len(), 1);
    assert_eq!(violations[0].vtype, "ENERGY");
    assert_eq!(violations[0].excess as f64 / 1000.0, 500.0);
}

#[test]
fn test_seq_in_shift_increments() {
    let jobs = vec![
        create_test_job("VIN001", 30, 1),
        create_test_job("VIN002", 30, 2),
        create_test_job("VIN003", 30, 3),
    ];

    let schedule = build_schedule(&jobs, 1704106800000);

    assert_eq!(schedule[0].seq_in_shift, 1);
    assert_eq!(schedule[1].seq_in_shift, 2);
    assert_eq!(schedule[2].seq_in_shift, 3);

    assert!(!schedule[0].shift_id.is_empty());
}

#[test]
fn test_multi_process_scheduling() {
    let mut job = create_test_job("VIN004", 40, 2);
    job.stamping_minutes = 10;
    job.welding_minutes = 20;
    job.painting_minutes = 30;
    job.mold_code = "MOLD_A".to_string();

    let jobs = vec![job];
    let plan_start = 1704106800000_i64;

    let stamping_schedule = build_schedule_for_process(&jobs, plan_start, ProcessType::Stamping, 101);
    assert_eq!(stamping_schedule.len(), 1);
    assert_eq!(stamping_schedule[0].process_type, 1);
    assert_eq!(stamping_schedule[0].line_id, 101);
    assert_eq!(
        stamping_schedule[0].end_epoch_ms - stamping_schedule[0].start_epoch_ms,
        10 * 60_000
    );

    let welding_schedule = build_schedule_for_process(&jobs, plan_start, ProcessType::Welding, 102);
    assert_eq!(welding_schedule.len(), 1);
    assert_eq!(welding_schedule[0].process_type, 2);
    assert_eq!(welding_schedule[0].line_id, 102);

    let painting_schedule = build_schedule_for_process(&jobs, plan_start, ProcessType::Painting, 103);
    assert_eq!(painting_schedule.len(), 1);
    assert_eq!(painting_schedule[0].process_type, 3);

    let assembly_schedule = build_schedule_for_process(&jobs, plan_start, ProcessType::Assembly, 104);
    assert_eq!(assembly_schedule.len(), 1);
    assert_eq!(assembly_schedule[0].process_type, 4);
}

#[test]
fn test_tardiness_calculation() {
    let base_time = 1704106800000_i64;
    let mut job = create_test_job("VIN005", 120, 1);
    job.due_epoch_ms = base_time + (1 * 3600 * 1000);

    let jobs = vec![job];
    let schedule = build_schedule(&jobs, base_time);

    assert_eq!(schedule[0].tardiness_min, 60);
}

#[test]
fn test_no_tardiness() {
    let base_time = 1704106800000_i64;
    let mut job = create_test_job("VIN006", 30, 2);
    job.due_epoch_ms = base_time + (2 * 3600 * 1000);

    let jobs = vec![job];
    let schedule = build_schedule(&jobs, base_time);

    assert_eq!(schedule[0].tardiness_min, 0);
}

#[test]
fn test_empty_jobs() {
    let jobs: Vec<Job> = vec![];
    let schedule = build_schedule(&jobs, 1704106800000);

    assert_eq!(schedule.len(), 0);

    let (total_tardiness, max_tardiness, color_changes, config_changes) = summarize(&schedule);
    assert_eq!(total_tardiness, 0);
    assert_eq!(max_tardiness, 0);
    assert_eq!(color_changes, 0);
    assert_eq!(config_changes, 0);
}

#[test]
fn test_single_job() {
    let jobs = vec![create_test_job("VIN007", 45, 3)];
    let schedule = build_schedule(&jobs, 1704106800000);

    assert_eq!(schedule.len(), 1);

    let (_, _, color_changes, config_changes) = summarize(&schedule);
    assert_eq!(color_changes, 0);
    assert_eq!(config_changes, 0);
}

#[test]
fn test_calc_cost_formula() {
    let summary = KpiSummary {
        cost: 0,
        total_tardiness_min: 100,
        max_tardiness_min: 50,
        color_changes: 5,
        config_changes: 3,
        energy_excess: milli(200.0),
        emission_excess: milli(100.0),
        material_shortage: milli(10.0),
        elapsed_ms: 5000,
    };

    let weights = Weights {
        tardiness: milli(2.0),
        color_change: milli(10.0),
        config_change: milli(15.0),
        energy_excess: milli(0.5),
        emission_excess: milli(0.8),
        material_shortage: milli(50.0),
    };

    let cost = calc_cost(&summary, &weights);

    // (2.0 * 100) + (10.0 * 5) + (15.0 * 3) + (0.5 * 200) + (0.8 * 100) + (50.0 * 10)
    // = 200 + 50 + 45 + 100 + 80 + 500 = 975
    assert_eq!(micro(cost), 975.0);
}

#[test]
fn test_shift_change_detection() {
    let base_time = 1704106800000_i64;
    let jobs = vec![
        create_test_job("VIN008", 60, 1),
        create_test_job("VIN009", 60, 2),
        create_test_job("VIN010", 720, 3),
        create_test_job("VIN011", 60, 4),
    ];

    let schedule = build_schedule(&jobs, base_time);

    let unique_shifts: HashSet<_> = schedule.iter().map(|item| item.shift_id.clone()).collect();

    assert!(unique_shifts.len() >= 1);

    for i in 1..schedule.len() {
        if schedule[i].shift_id != schedule[i - 1].shift_id {
            assert_eq!(schedule[i].seq_in_shift, 1);
        }
    }
}

#[test]
fn test_job_get_process_minutes() {
    let mut job = create_test_job("VIN012", 40, 2);
    job.stamping_minutes = 10;
    job.welding_minutes = 20;
    job.painting_minutes = 30;

    assert_eq!(job.get_process_minutes(ProcessType::Stamping), 10);
    assert_eq!(job.get_process_minutes(ProcessType::Welding), 20);
    assert_eq!(job.get_process_minutes(ProcessType::Painting), 30);
    assert_eq!(job.get_process_minutes(ProcessType::Assembly), 40);
}

#[test]
fn test_violations_multiple_shifts() {
    let mut job1 = create_test_job("VIN013", 60, 1);
    job1.energy_score = milli(1000.0);

    let mut job2 = create_test_job("VIN014", 60, 2);
    job2.energy_score = milli(800.0);

    let jobs = vec![job1, job2];
    let schedule = build_schedule(&jobs, 1704106800000);

    let limits = Limits {
        max_energy_per_shift: milli(1500.0),
        max_emission_per_shift: milli(800.0),
    };

    let violations = build_violations(&schedule, &limits, &jobs);

    assert!(violations.len() <= 1);
}

#[test]
fn test_kpi_summary_with_zero_limits() {
    let jobs = vec![create_test_job("VIN015", 30, 1)];
    let schedule = build_schedule(&jobs, 1704106800000);

    let weights = Weights::default();
    let limits = Limits {
        max_energy_per_shift: 0,
        max_emission_per_shift: 0,
    };

    let summary = build_kpi_summary(&schedule, &weights, &limits, &jobs, 0);

    assert!(summary.energy_excess > 0);
    assert!(summary.emission_excess > 0);
}
