//! Tests of the data model: process stages and job accessors.

use aps_engine::model::{Job, ProcessType};

/// Scores in thousandths.
fn milli(x: f64) -> u64 {
    (x * 1000.0).round() as u64
}

#[test]
fn test_process_type() {
    assert_eq!(ProcessType::Stamping.as_i32(), 1);
    assert_eq!(ProcessType::Assembly.as_i32(), 4);
    assert_eq!(ProcessType::from_i32(3), Some(ProcessType::Painting));
    assert_eq!(ProcessType::Painting.name(), "涂装");
}

#[test]
fn test_job_methods() {
    let job = Job {
        vin: "VIN002".to_string(),
        due_epoch_ms: 1704110400000,
        stamping_minutes: 10,
        welding_minutes: 20,
        painting_minutes: 30,
        assemble_minutes: 40,
        mold_code: "MOLD_A".to_string(),
        welding_fixture: "FIX_B".to_string(),
        color: "BLUE".to_string(),
        config: "PREMIUM".to_string(),
        energy_score: milli(80.0),
        emission_score: milli(40.0),
    };

    assert_eq!(job.get_process_minutes(ProcessType::Stamping), 10);
    assert_eq!(job.get_setup_key(ProcessType::Painting), "BLUE");
    assert_eq!(job.total_minutes(), 100);
}
