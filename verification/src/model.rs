//! Data model: jobs, solver parameters, schedule items, KPI summaries,
//! and the bounds under which the engine's arithmetic is exact.

use vstd::prelude::*;

verus! {

/// Longest accepted duration of one process stage, in minutes.
pub const DUR_MAX: i32 = 50_000;

/// Largest accepted magnitude of an absolute timestamp, in epoch milliseconds.
pub const TS_MAX: i64 = 100_000_000_000_000;

/// Largest accepted energy or emission score, in thousandths.
pub const SCORE_MAX: u64 = 1_000_000_000;

/// Largest accepted cost weight, in thousandths.
pub const WEIGHT_MAX: u64 = 1_000_000_000;

/// Largest accepted number of jobs in one request.
pub const JOBS_MAX: usize = 50_000;

/// Largest number of items a schedule over an accepted job set can hold.
pub const ITEMS_MAX: usize = 200_000;

/// Upper bound on one item's tardiness under the bounds above, in minutes.
pub const TARD_CAP: i64 = 20_000_000_000;

/// Upper bound on any cost the engine computes, in millionths.
pub const COST_CAP: u128 = 0xFFFF_FFFF_FFFF_FFFF_FFFF_FFFF;

// ========== Process stages ==========

#[derive(Debug, Clone, Copy, PartialEq, Eq, Hash, Structural)]
pub enum ProcessType {
    Stamping,
    Welding,
    Painting,
    Assembly,
}

impl ProcessType {
    pub fn all() -> (r: [ProcessType; 4])
        ensures
            r[0] == ProcessType::Stamping,
            r[1] == ProcessType::Welding,
            r[2] == ProcessType::Painting,
            r[3] == ProcessType::Assembly,
    {
        [Self::Stamping, Self::Welding, Self::Painting, Self::Assembly]
    }

    /// The stage's wire tag, in stage order starting at 1.
    pub open spec fn tag(self) -> int {
        match self {
            ProcessType::Stamping => 1,
            ProcessType::Welding => 2,
            ProcessType::Painting => 3,
            ProcessType::Assembly => 4,
        }
    }

    pub fn as_i32(&self) -> (r: i32)
        ensures
            r == self.tag(),
    {
        match self {
            Self::Stamping => 1,
            Self::Welding => 2,
            Self::Painting => 3,
            Self::Assembly => 4,
        }
    }

    pub fn from_i32(value: i32) -> (r: Option<Self>)
        ensures
            1 <= value <= 4 ==> (r matches Some(p) && p.tag() == value),
            !(1 <= value <= 4) ==> r is None,
    {
        match value {
            1 => Some(Self::Stamping),
            2 => Some(Self::Welding),
            3 => Some(Self::Painting),
            4 => Some(Self::Assembly),
            _ => None,
        }
    }

    pub fn name(&self) -> (r: &'static str)
        ensures
            self == ProcessType::Stamping ==> r@ == "冲压"@,
            self == ProcessType::Welding ==> r@ == "焊装"@,
            self == ProcessType::Painting ==> r@ == "涂装"@,
            self == ProcessType::Assembly ==> r@ == "总装"@,
    {
        match self {
            Self::Stamping => "冲压",
            Self::Welding => "焊装",
            Self::Painting => "涂装",
            Self::Assembly => "总装",
        }
    }
}

// ========== Jobs ==========

/// One manufacturing job. Scores are in thousandths.
#[derive(Debug)]
pub struct Job {
    pub vin: String,
    pub due_epoch_ms: i64,
    pub stamping_minutes: i32,
    pub welding_minutes: i32,
    pub painting_minutes: i32,
    pub assemble_minutes: i32,
    pub mold_code: String,
    pub welding_fixture: String,
    pub color: String,
    pub config: String,
    pub energy_score: u64,
    pub emission_score: u64,
}

impl Clone for Job {
    fn clone(&self) -> (r: Self)
        ensures
            r == *self,
    {
        Job {
            vin: self.vin.clone(),
            due_epoch_ms: self.due_epoch_ms,
            stamping_minutes: self.stamping_minutes,
            welding_minutes: self.welding_minutes,
            painting_minutes: self.painting_minutes,
            assemble_minutes: self.assemble_minutes,
            mold_code: self.mold_code.clone(),
            welding_fixture: self.welding_fixture.clone(),
            color: self.color.clone(),
            config: self.config.clone(),
            energy_score: self.energy_score,
            emission_score: self.emission_score,
        }
    }
}

impl Job {
    /// The stage's duration, as the contracts speak of it.
    pub open spec fn minutes(self, process: ProcessType) -> int {
        match process {
            ProcessType::Stamping => self.stamping_minutes as int,
            ProcessType::Welding => self.welding_minutes as int,
            ProcessType::Painting => self.painting_minutes as int,
            ProcessType::Assembly => self.assemble_minutes as int,
        }
    }

    pub fn get_process_minutes(&self, process: ProcessType) -> (r: i32)
        ensures
            r == self.minutes(process),
    {
        match process {
            ProcessType::Stamping => self.stamping_minutes,
            ProcessType::Welding => self.welding_minutes,
            ProcessType::Painting => self.painting_minutes,
            ProcessType::Assembly => self.assemble_minutes,
        }
    }

    /// The attribute whose change between consecutive items costs a setup.
    pub open spec fn setup_key(self, process: ProcessType) -> Seq<char> {
        match process {
            ProcessType::Stamping => self.mold_code@,
            ProcessType::Welding => self.welding_fixture@,
            ProcessType::Painting => self.color@,
            ProcessType::Assembly => self.config@,
        }
    }

    pub fn get_setup_key(&self, process: ProcessType) -> (r: &str)
        ensures
            r@ == self.setup_key(process),
    {
        match process {
            ProcessType::Stamping => self.mold_code.as_str(),
            ProcessType::Welding => self.welding_fixture.as_str(),
            ProcessType::Painting => self.color.as_str(),
            ProcessType::Assembly => self.assemble_key(),
        }
    }

    fn assemble_key(&self) -> (r: &str)
        ensures
            r@ == self.config@,
    {
        self.config.as_str()
    }

    pub fn total_minutes(&self) -> (r: i32)
        requires
            self.valid(),
        ensures
            r == self.stamping_minutes + self.welding_minutes + self.painting_minutes
                + self.assemble_minutes,
    {
        self.stamping_minutes + self.welding_minutes + self.painting_minutes
            + self.assemble_minutes
    }

    /// The bounds under which the engine's arithmetic is exact.
    pub open spec fn valid(self) -> bool {
        &&& 0 <= self.stamping_minutes <= DUR_MAX
        &&& 0 <= self.welding_minutes <= DUR_MAX
        &&& 0 <= self.painting_minutes <= DUR_MAX
        &&& 0 <= self.assemble_minutes <= DUR_MAX
        &&& -TS_MAX <= self.due_epoch_ms <= TS_MAX
        &&& self.energy_score <= SCORE_MAX
        &&& self.emission_score <= SCORE_MAX
    }
}

pub open spec fn valid_jobs(jobs: Seq<Job>) -> bool {
    &&& jobs.len() <= JOBS_MAX
    &&& forall|i: int| 0 <= i < jobs.len() ==> (#[trigger] jobs[i]).valid()
}

// ========== Weights and limits ==========

/// Cost weights, in thousandths.
#[derive(Debug, Clone, Copy, PartialEq, Eq, Structural)]
pub struct Weights {
    pub tardiness: u64,
    pub color_change: u64,
    pub config_change: u64,
    pub energy_excess: u64,
    pub emission_excess: u64,
    pub material_shortage: u64,
}

impl Weights {
    pub open spec fn valid(self) -> bool {
        &&& self.tardiness <= WEIGHT_MAX
        &&& self.color_change <= WEIGHT_MAX
        &&& self.config_change <= WEIGHT_MAX
        &&& self.energy_excess <= WEIGHT_MAX
        &&& self.emission_excess <= WEIGHT_MAX
        &&& self.material_shortage <= WEIGHT_MAX
    }
}

impl Default for Weights {
    fn default() -> (r: Self)
        ensures
            r == (Weights {
                tardiness: 0u64,
                color_change: 0u64,
                config_change: 0u64,
                energy_excess: 0u64,
                emission_excess: 0u64,
                material_shortage: 0u64,
            }),
    {
        Weights {
            tardiness: 0,
            color_change: 0,
            config_change: 0,
            energy_excess: 0,
            emission_excess: 0,
            material_shortage: 0,
        }
    }
}

/// Per-shift ceilings, in thousandths.
#[derive(Debug, Clone, Copy, PartialEq, Eq, Structural)]
pub struct Limits {
    pub max_energy_per_shift: u64,
    pub max_emission_per_shift: u64,
}

impl Default for Limits {
    fn default() -> (r: Self)
        ensures
            r == (Limits { max_energy_per_shift: 0u64, max_emission_per_shift: 0u64 }),
    {
        Limits { max_energy_per_shift: 0, max_emission_per_shift: 0 }
    }
}

/// Solver parameters. The time budget is expected already sanitized by the
/// caller to a positive, bounded range.
#[derive(Debug)]
pub struct SolveParams {
    pub algorithm: String,
    pub time_budget_sec: i32,
    pub seed: i64,
    pub weights: Weights,
    pub limits: Limits,
}

impl Default for SolveParams {
    fn default() -> (r: Self)
        ensures
            r.algorithm@ == Seq::<char>::empty(),
            r.time_budget_sec == 0,
            r.seed == 0,
            r.weights == (Weights {
                tardiness: 0u64,
                color_change: 0u64,
                config_change: 0u64,
                energy_excess: 0u64,
                emission_excess: 0u64,
                material_shortage: 0u64,
            }),
            r.limits == (Limits { max_energy_per_shift: 0u64, max_emission_per_shift: 0u64 }),
    {
        SolveParams {
            algorithm: String::new(),
            time_budget_sec: 0,
            seed: 0,
            weights: Weights::default(),
            limits: Limits::default(),
        }
    }
}

impl SolveParams {
    pub open spec fn valid(self) -> bool {
        &&& 1 <= self.time_budget_sec <= 3600
        &&& self.weights.valid()
    }
}

// ========== Violations ==========

#[derive(Debug)]
pub struct ShiftViolation {
    pub shift_id: String,
    pub vtype: String,
    pub excess: u64,
}

/// The mathematical content of a violation record.
pub ghost struct ViolationView {
    pub shift_id: Seq<char>,
    pub vtype: Seq<char>,
    pub excess: int,
}

impl View for ShiftViolation {
    type V = ViolationView;

    open spec fn view(&self) -> ViolationView {
        ViolationView { shift_id: self.shift_id@, vtype: self.vtype@, excess: self.excess as int }
    }
}

// ========== KPI summary ==========

/// Aggregate scoring of one schedule. The cost is in millionths; excesses
/// and the material shortage in thousandths.
#[derive(Debug, Clone, Copy, PartialEq, Eq, Structural)]
pub struct KpiSummary {
    pub cost: u128,
    pub total_tardiness_min: i64,
    pub max_tardiness_min: i64,
    pub color_changes: i32,
    pub config_changes: i32,
    pub energy_excess: u64,
    pub emission_excess: u64,
    pub material_shortage: u64,
    pub elapsed_ms: i64,
}

// ========== Schedule items ==========

/// One scheduled (job, stage) pair.
#[derive(Debug)]
pub struct ScheduleItem {
    pub seq: i32,
    pub vin: String,
    pub process_type: i32,
    pub line_id: i64,
    pub start_epoch_ms: i64,
    pub end_epoch_ms: i64,
    pub due_epoch_ms: i64,
    pub tardiness_min: i64,
    pub color: String,
    pub config: String,
    pub shift_id: String,
    pub seq_in_shift: i32,
}

/// The mathematical content of a schedule item.
#[verifier::ext_equal]
pub ghost struct ItemView {
    pub seq: int,
    pub vin: Seq<char>,
    pub process_type: int,
    pub line_id: int,
    pub start: int,
    pub end: int,
    pub due: int,
    pub tardiness: int,
    pub color: Seq<char>,
    pub config: Seq<char>,
    pub shift_id: Seq<char>,
    pub seq_in_shift: int,
}

impl View for ScheduleItem {
    type V = ItemView;

    open spec fn view(&self) -> ItemView {
        ItemView {
            seq: self.seq as int,
            vin: self.vin@,
            process_type: self.process_type as int,
            line_id: self.line_id as int,
            start: self.start_epoch_ms as int,
            end: self.end_epoch_ms as int,
            due: self.due_epoch_ms as int,
            tardiness: self.tardiness_min as int,
            color: self.color@,
            config: self.config@,
            shift_id: self.shift_id@,
            seq_in_shift: self.seq_in_shift as int,
        }
    }
}

/// The views of a schedule's items, in order.
pub open spec fn schedule_view(s: Seq<ScheduleItem>) -> Seq<ItemView> {
    s.map_values(|it: ScheduleItem| it@)
}

/// Bounds that every schedule handed to the aggregators must meet;
/// the builders establish them.
pub open spec fn wf_schedule(s: Seq<ItemView>) -> bool {
    &&& s.len() <= ITEMS_MAX
    &&& forall|i: int| 0 <= i < s.len() ==> 0 <= (#[trigger] s[i]).tardiness <= TARD_CAP
}

// ========== Convergence trace ==========

/// One point of the search's best-cost-so-far curve. The cost is in
/// millionths.
#[derive(Debug, Clone, Copy, PartialEq, Eq, Structural)]
pub struct ConvergencePoint {
    pub t_ms: i64,
    pub best_cost: u128,
}

// ========== Input and output ==========

#[derive(Debug)]
pub struct SolveInput {
    pub request_id: String,
    pub plan_start_epoch_ms: i64,
    pub jobs: Vec<Job>,
    pub params: SolveParams,
}

impl SolveInput {
    pub open spec fn valid(self) -> bool {
        &&& valid_jobs(self.jobs@)
        &&& -TS_MAX <= self.plan_start_epoch_ms <= TS_MAX
        &&& self.params.valid()
    }
}

#[derive(Debug)]
pub struct SolveOutput {
    pub request_id: String,
    pub summary: KpiSummary,
    pub baseline_summary: KpiSummary,
    pub order: Vec<String>,
    pub schedule: Vec<ScheduleItem>,
    pub detailed_schedule: Vec<ScheduleItem>,
    pub violations: Vec<ShiftViolation>,
    pub convergence: Vec<ConvergencePoint>,
}

} // verus!
