//! Earliest-due-date baseline solver: a deterministic, non-iterative
//! reference ordering, also embedded in every other solver's output for
//! comparison.

use vstd::prelude::*;
use crate::eval::{
    build_full_process_schedule, build_kpi_summary, build_schedule, build_violations,
    color_changes, config_changes, cost_of, emission_excess_of, energy_excess_of, sched1_spec,
    sched4_spec, shift_metrics_spec, total_tardiness, max_tardiness, violations_of,
    violations_view,
};
use crate::model::{
    ConvergencePoint, Job, KpiSummary, ProcessType, SolveInput, SolveOutput, TS_MAX, Weights,
    Limits, schedule_view, valid_jobs,
};
use crate::sort::{SortKey, lemma_sort_perm_props, perm_jobs, range_seq, reorder, sort_indices,
    sort_perm};
use crate::util::time::now_epoch_ms;

verus! {

/// The earliest-due-date permutation of a job set: positions sorted by due
/// timestamp, the position itself breaking ties (a stable sort).
pub open spec fn edd_perm(jobs: Seq<Job>) -> Seq<int> {
    sort_perm(jobs, SortKey::Due, jobs.len() as int)
}

/// The job set in earliest-due-date order.
pub open spec fn edd_jobs(jobs: Seq<Job>) -> Seq<Job> {
    perm_jobs(jobs, edd_perm(jobs))
}

/// The identifiers of a job sequence, in order.
pub open spec fn vins_of(jobs: Seq<Job>) -> Seq<Seq<char>> {
    jobs.map_values(|j: Job| j.vin@)
}

/// Earliest-due-date order is a stable sort by due timestamp: the
/// positions it yields are a permutation of all positions, due timestamps
/// never decrease along it, and positions with equal due timestamps keep
/// their original relative order.
pub proof fn lemma_edd_order(jobs: Seq<Job>)
    ensures
        ({
            let p = edd_perm(jobs);
            &&& p.len() == jobs.len()
            &&& p.to_multiset() == range_seq(jobs.len() as int).to_multiset()
            &&& forall|k: int| 0 <= k < p.len() ==> 0 <= #[trigger] p[k] < jobs.len()
            &&& forall|k: int, l: int|
                0 <= k < l < p.len() ==> jobs[#[trigger] p[k]].due_epoch_ms <= jobs[#[trigger] p[l]].due_epoch_ms
            &&& forall|k: int, l: int|
                (0 <= k < l < p.len() && jobs[#[trigger] p[k]].due_epoch_ms == jobs[#[trigger] p[l]].due_epoch_ms)
                    ==> p[k] < p[l]
        }),
{
    lemma_sort_perm_props(jobs, SortKey::Due, jobs.len() as int);
}

/// The synthetic convergence trace of a non-iterative solver: ten equally
/// spaced points at the final cost if any time elapsed, else one point at
/// the origin.
pub open spec fn baseline_trace(cost: u128, elapsed: int) -> Seq<ConvergencePoint> {
    if elapsed > 0 {
        Seq::new(10, |i: int| ConvergencePoint { t_ms: (i * (elapsed / 10)) as i64, best_cost: cost })
    } else {
        seq![ConvergencePoint { t_ms: 0, best_cost: cost }]
    }
}

/// What every KPI summary of a given schedule must hold, beside its
/// elapsed time.
pub open spec fn kpi_match(
    k: KpiSummary,
    s: Seq<crate::model::ItemView>,
    jobs: Seq<Job>,
    w: Weights,
    lim: Limits,
) -> bool {
    let bs = shift_metrics_spec(s, jobs);
    &&& k.total_tardiness_min == total_tardiness(s)
    &&& k.max_tardiness_min == max_tardiness(s)
    &&& k.color_changes == color_changes(s)
    &&& k.config_changes == config_changes(s)
    &&& k.energy_excess == energy_excess_of(bs, lim.max_energy_per_shift as int)
    &&& k.emission_excess == emission_excess_of(bs, lim.max_emission_per_shift as int)
    &&& k.material_shortage == 0
    &&& k.cost == cost_of(
        w,
        total_tardiness(s),
        color_changes(s),
        config_changes(s),
        energy_excess_of(bs, lim.max_energy_per_shift as int),
        emission_excess_of(bs, lim.max_emission_per_shift as int),
        0,
    )
    &&& k.cost <= crate::model::COST_CAP
}

/// The jobs a valid permutation picks out are themselves a valid job set.
pub proof fn lemma_perm_jobs_valid(jobs: Seq<Job>, perm: Seq<int>)
    requires
        valid_jobs(jobs),
        perm.len() <= jobs.len(),
        forall|k: int| 0 <= k < perm.len() ==> 0 <= #[trigger] perm[k] < jobs.len(),
    ensures
        valid_jobs(perm_jobs(jobs, perm)),
{
    assert forall|i: int| 0 <= i < perm_jobs(jobs, perm).len() implies (#[trigger] perm_jobs(
        jobs,
        perm,
    )[i]).valid() by {
        assert(perm_jobs(jobs, perm)[i] == jobs[perm[i]]);
    }
}

/// Milliseconds from one clock reading to a later one, floored at zero.
pub(crate) fn elapsed_between(t_start: i64, t_end: i64) -> (r: i64)
    ensures
        r >= 0,
{
    match t_end.checked_sub(t_start) {
        Some(d) => if d < 0 {
            0
        } else {
            d
        },
        None => 0,
    }
}

/// The identifiers of the jobs, in their order.
pub(crate) fn collect_vins(jobs: &Vec<Job>) -> (r: Vec<String>)
    ensures
        r@.len() == jobs@.len(),
        r@.map_values(|v: String| v@) == vins_of(jobs@),
{
    let mut order: Vec<String> = Vec::new();
    let mut i: usize = 0;
    while i < jobs.len()
        invariant
            0 <= i <= jobs@.len(),
            order@.len() == i,
            forall|k: int| 0 <= k < i ==> (#[trigger] order@[k])@ == jobs@[k].vin@,
        decreases jobs@.len() - i,
    {
        order.push(jobs[i].vin.clone());
        i = i + 1;
    }
    proof {
        assert(order@.map_values(|v: String| v@) =~= vins_of(jobs@));
    }
    order
}

/// Solves by the earliest-due-date rule: sort by due timestamp (stable on
/// ties), build both schedule views, score them, and fabricate the
/// synthetic convergence trace.
pub fn solve_edd(input: &SolveInput) -> (r: SolveOutput)
    requires
        input.valid(),
    ensures
        ({
            let sj = edd_jobs(input.jobs@);
            let start = input.plan_start_epoch_ms as int;
            let s1 = sched1_spec(sj, start, ProcessType::Assembly, 0);
            &&& r.request_id@ == input.request_id@
            &&& r.order@.map_values(|v: String| v@) == vins_of(sj)
            &&& schedule_view(r.schedule@) == s1
            &&& schedule_view(r.detailed_schedule@) == sched4_spec(sj, start)
            &&& violations_view(r.violations@) == violations_of(
                shift_metrics_spec(s1, sj),
                input.params.limits,
            )
            &&& kpi_match(r.summary, s1, sj, input.params.weights, input.params.limits)
            &&& r.baseline_summary == r.summary
            &&& r.summary.elapsed_ms >= 0
            &&& r.convergence@ == baseline_trace(r.summary.cost, r.summary.elapsed_ms as int)
        }),
{
    let t_start = now_epoch_ms();
    let perm = sort_indices(&input.jobs, SortKey::Due);
    let sorted_jobs = reorder(&input.jobs, &perm);
    proof {
        lemma_sort_perm_props(input.jobs@, SortKey::Due, input.jobs@.len() as int);
        lemma_perm_jobs_valid(input.jobs@, edd_perm(input.jobs@));
    }
    let schedule = build_schedule(&sorted_jobs, input.plan_start_epoch_ms);
    let detailed_schedule = build_full_process_schedule(&sorted_jobs, input.plan_start_epoch_ms);
    let order = collect_vins(&sorted_jobs);
    let t_end = now_epoch_ms();
    let elapsed_ms = elapsed_between(t_start, t_end);
    let summary = build_kpi_summary(
        &schedule,
        &input.params.weights,
        &input.params.limits,
        &sorted_jobs,
        elapsed_ms,
    );
    let violations = build_violations(&schedule, &input.params.limits, &sorted_jobs);
    let baseline_summary = summary;
    let mut convergence: Vec<ConvergencePoint> = Vec::new();
    if elapsed_ms > 0 {
        let step = elapsed_ms / 10;
        let mut i: i64 = 0;
        while i < 10
            invariant
                0 <= i <= 10,
                step == elapsed_ms as int / 10,
                elapsed_ms > 0,
                convergence@.len() == i,
                forall|k: int|
                    0 <= k < i ==> #[trigger] convergence@[k] == (ConvergencePoint {
                        t_ms: (k * (elapsed_ms as int / 10)) as i64,
                        best_cost: summary.cost,
                    }),
            decreases 10 - i,
        {
            proof {
                assert(0 <= i * step && i * step <= elapsed_ms) by (nonlinear_arith)
                    requires
                        0 <= i <= 9,
                        step == elapsed_ms as int / 10,
                        elapsed_ms > 0,
                ;
            }
            convergence.push(ConvergencePoint { t_ms: i * step, best_cost: summary.cost });
            i = i + 1;
        }
        proof {
            assert(convergence@ =~= baseline_trace(summary.cost, elapsed_ms as int));
        }
    } else {
        convergence.push(ConvergencePoint { t_ms: 0, best_cost: summary.cost });
        proof {
            assert(convergence@ =~= baseline_trace(summary.cost, elapsed_ms as int));
        }
    }
    SolveOutput {
        request_id: input.request_id.clone(),
        summary,
        baseline_summary,
        order,
        schedule,
        detailed_schedule,
        violations,
        convergence,
    }
}

/// The earliest-due-date KPI summary alone, as other solvers embed it for
/// comparison; its elapsed time is zero.
pub(crate) fn edd_summary(
    jobs: &Vec<Job>,
    plan_start_epoch_ms: i64,
    weights: &Weights,
    limits: &Limits,
) -> (r: KpiSummary)
    requires
        valid_jobs(jobs@),
        -TS_MAX <= plan_start_epoch_ms <= TS_MAX,
        weights.valid(),
    ensures
        kpi_match(
            r,
            sched1_spec(edd_jobs(jobs@), plan_start_epoch_ms as int, ProcessType::Assembly, 0),
            edd_jobs(jobs@),
            *weights,
            *limits,
        ),
        r.elapsed_ms == 0,
{
    let perm = sort_indices(jobs, SortKey::Due);
    let sorted_jobs = reorder(jobs, &perm);
    proof {
        lemma_sort_perm_props(jobs@, SortKey::Due, jobs@.len() as int);
        lemma_perm_jobs_valid(jobs@, edd_perm(jobs@));
    }
    let schedule = build_schedule(&sorted_jobs, plan_start_epoch_ms);
    build_kpi_summary(&schedule, weights, limits, &sorted_jobs, 0)
}

} // verus!
