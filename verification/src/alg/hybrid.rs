//! Multi-start annealing combiner: several annealing runs with derived
//! seeds, the best kept, their convergence traces merged into one
//! monotonic best-cost-so-far curve. Trace times are virtual (the runs'
//! iteration clocks laid end to end), so the merge is deterministic.

use vstd::prelude::*;
use crate::alg::baseline::{edd_jobs, kpi_match, solve_edd, vins_of, elapsed_between};
use crate::alg::sa::{MS_PER_ITER, sa_result, solve_sa};
use crate::eval::{
    color_changes, config_changes, cost_of, emission_excess_of, energy_excess_of, sched1_spec,
    sched4_spec, shift_metrics_spec, total_tardiness, violations_of, violations_view,
};
use crate::model::{
    COST_CAP, ConvergencePoint, Job, Limits, ProcessType, SolveInput, SolveOutput, SolveParams,
    Weights, schedule_view,
};
use crate::sort::perm_jobs;
use crate::util::time::now_epoch_ms;

verus! {

/// How many runs the time budget pays for.
pub open spec fn hybrid_runs(budget_sec: int) -> int {
    if budget_sec >= 9 {
        4
    } else if budget_sec >= 6 {
        3
    } else if budget_sec >= 3 {
        2
    } else {
        1
    }
}

/// Each run's time budget: an even split, at least one second.
pub open spec fn hybrid_per_run(budget_sec: int) -> int {
    if budget_sec / hybrid_runs(budget_sec) < 1 {
        1
    } else {
        budget_sec / hybrid_runs(budget_sec)
    }
}

/// The seed handed to run `i`: the base seed advanced by a fixed stride,
/// then narrowed to 32 bits.
pub open spec fn run_seed(seed: i64, i: int) -> i64 {
    (vstd::wrapping::u64_specs::wrapping_add(seed as u64, (i * 12345) as u64) as u32) as i64
}

/// The cost of the earliest-due-date solution, as the baseline reports it.
pub open spec fn edd_cost(jobs: Seq<Job>, start: int, w: Weights, lim: Limits) -> int {
    let sj = edd_jobs(jobs);
    let s1 = sched1_spec(sj, start, ProcessType::Assembly, 0);
    let bs = shift_metrics_spec(s1, sj);
    cost_of(
        w,
        total_tardiness(s1),
        color_changes(s1),
        config_changes(s1),
        energy_excess_of(bs, lim.max_energy_per_shift as int),
        emission_excess_of(bs, lim.max_emission_per_shift as int),
        0,
    )
}

/// What the combiner holds after `i` runs: the best cost seen and the
/// ordering it came from — the baseline's (nothing) until a run beats it.
pub open spec fn hybrid_pick(
    jobs: Seq<Job>,
    start: int,
    w: Weights,
    lim: Limits,
    algo: Seq<char>,
    seed: i64,
    budget_sec: int,
    i: int,
) -> (int, Option<Seq<int>>)
    decreases i,
{
    if i <= 0 {
        (edd_cost(jobs, start, w, lim), None::<Seq<int>>)
    } else {
        let prev = hybrid_pick(jobs, start, w, lim, algo, seed, budget_sec, i - 1);
        let run = sa_result(
            jobs,
            start,
            w,
            lim,
            algo,
            run_seed(seed, i - 1) as u64,
            hybrid_per_run(budget_sec),
        );
        if run.best_cost < prev.0 {
            (run.best_cost, Some(run.best))
        } else {
            prev
        }
    }
}

/// The ordering a choice stands for.
pub open spec fn chosen_jobs(jobs: Seq<Job>, choice: Option<Seq<int>>) -> Seq<Job> {
    match choice {
        Option::None => edd_jobs(jobs),
        Option::Some(p) => perm_jobs(jobs, p),
    }
}

/// The job list the choice's per-shift metrics were looked up in.
pub open spec fn metric_jobs(jobs: Seq<Job>, choice: Option<Seq<int>>) -> Seq<Job> {
    match choice {
        Option::None => edd_jobs(jobs),
        Option::Some(p) => jobs,
    }
}

/// A solver output that reports exactly the choice's ordering: its order,
/// both schedule views, violations and KPI summary all derive from it.
pub open spec fn solution_ok(
    out: SolveOutput,
    jobs: Seq<Job>,
    start: int,
    w: Weights,
    lim: Limits,
    choice: Option<Seq<int>>,
) -> bool {
    let cj = chosen_jobs(jobs, choice);
    let mj = metric_jobs(jobs, choice);
    let s1 = sched1_spec(cj, start, ProcessType::Assembly, 0);
    &&& out.order@.map_values(|v: String| v@) == vins_of(cj)
    &&& schedule_view(out.schedule@) == s1
    &&& schedule_view(out.detailed_schedule@) == sched4_spec(cj, start)
    &&& violations_view(out.violations@) == violations_of(shift_metrics_spec(s1, mj), lim)
    &&& kpi_match(out.summary, s1, mj, w, lim)
}

/// Whether the point occurs in the list.
pub open spec fn point_among(ps: Seq<ConvergencePoint>, x: ConvergencePoint) -> bool {
    exists|l: int| 0 <= l < ps.len() && x == #[trigger] ps[l]
}

/// A fresh copy of the job list.
fn clone_jobs(jobs: &Vec<Job>) -> (r: Vec<Job>)
    ensures
        r@ == jobs@,
{
    let mut out: Vec<Job> = Vec::new();
    let mut i: usize = 0;
    while i < jobs.len()
        invariant
            0 <= i <= jobs@.len(),
            out@.len() == i,
            forall|k: int| 0 <= k < i ==> #[trigger] out@[k] == jobs@[k],
        decreases jobs@.len() - i,
    {
        out.push(jobs[i].clone());
        i = i + 1;
    }
    proof {
        assert(out@ =~= jobs@);
    }
    out
}

/// The points sorted by time, stably: scanning from the right, an element
/// is inserted after every strictly earlier one.
fn sort_points(points: Vec<ConvergencePoint>) -> (r: Vec<ConvergencePoint>)
    ensures
        r@.len() == points@.len(),
        forall|k: int, l: int|
            0 <= k < l < r@.len() ==> (#[trigger] r@[k]).t_ms <= (#[trigger] r@[l]).t_ms,
        forall|k: int| 0 <= k < r@.len() ==> #[trigger] point_among(points@, r@[k]),
        (points@.len() > 0 && (forall|k: int|
            0 <= k < points@.len() ==> points@[0].t_ms <= (#[trigger] points@[k]).t_ms)) ==> r@[0]
            == points@[0],
{
    let mut out: Vec<ConvergencePoint> = Vec::new();
    let mut i: usize = 0;
    while i < points.len()
        invariant
            0 <= i <= points@.len(),
            out@.len() == i,
            forall|k: int, l: int|
                0 <= k < l < out@.len() ==> (#[trigger] out@[k]).t_ms <= (#[trigger] out@[l]).t_ms,
            forall|k: int| 0 <= k < out@.len() ==> #[trigger] point_among(points@, out@[k]),
            (i >= 1 && (forall|k: int|
                0 <= k < points@.len() ==> points@[0].t_ms <= (#[trigger] points@[k]).t_ms))
                ==> out@[0] == points@[0],
        decreases points@.len() - i,
    {
        let x = points[i];
        let mut p: usize = out.len();
        while p > 0 && out[p - 1].t_ms > x.t_ms
            invariant
                0 <= p <= out@.len(),
                out@.len() == i < points@.len(),
                forall|k: int, l: int|
                    0 <= k < l < out@.len() ==> (#[trigger] out@[k]).t_ms <= (
                    #[trigger] out@[l]).t_ms,
                forall|q: int| p <= q < out@.len() ==> (#[trigger] out@[q]).t_ms > x.t_ms,
            decreases p,
        {
            p = p - 1;
        }
        let ghost old_out = out@;
        out.insert(p, x);
        proof {
            assert forall|k: int, l: int| 0 <= k < l < out@.len() implies (
            #[trigger] out@[k]).t_ms <= (#[trigger] out@[l]).t_ms by {
                if k < p {
                    assert(out@[k] == old_out[k]);
                } else if k == p {
                    assert(out@[k] == x);
                } else {
                    assert(out@[k] == old_out[k - 1]);
                }
                if l < p {
                    assert(out@[l] == old_out[l]);
                } else if l == p {
                    assert(out@[l] == x);
                    assert(k < p);
                    assert(old_out[p - 1].t_ms <= x.t_ms || p == 0);
                } else {
                    assert(out@[l] == old_out[l - 1]);
                }
            }
            if forall|k: int|
                0 <= k < points@.len() ==> points@[0].t_ms <= (#[trigger] points@[k]).t_ms {
                if i == 0 {
                    assert(out@[0] == x);
                } else {
                    assert(p >= 1) by {
                        if p == 0 {
                            assert(old_out[0].t_ms > x.t_ms);
                            assert(old_out[0] == points@[0]);
                            assert(points@[0].t_ms <= points@[i as int].t_ms);
                            assert(false);
                        }
                    }
                    assert(out@[0] == old_out[0]);
                }
            }
            assert forall|k: int| 0 <= k < out@.len() implies #[trigger] point_among(
                points@,
                out@[k],
            ) by {
                if k < p {
                    assert(out@[k] == old_out[k]);
                    assert(point_among(points@, old_out[k]));
                } else if k == p {
                    assert(out@[k] == points@[i as int]);
                } else {
                    assert(out@[k] == old_out[k - 1]);
                    assert(point_among(points@, old_out[k - 1]));
                }
            }
        }
        i = i + 1;
    }
    out
}

/// Solves by multi-start annealing: several seeded runs, the cheapest
/// result kept (never worse than the earliest-due-date baseline), and one
/// merged, monotonic convergence curve.
#[verifier::rlimit(100)]
pub fn solve_hybrid(input: &SolveInput) -> (r: SolveOutput)
    requires
        input.valid(),
    ensures
        ({
            let jobs = input.jobs@;
            let start = input.plan_start_epoch_ms as int;
            let w = input.params.weights;
            let lim = input.params.limits;
            let pick = hybrid_pick(
                jobs,
                start,
                w,
                lim,
                input.params.algorithm@,
                input.params.seed,
                input.params.time_budget_sec as int,
                hybrid_runs(input.params.time_budget_sec as int),
            );
            &&& r.request_id@ == input.request_id@
            &&& solution_ok(r, jobs, start, w, lim, pick.1)
            &&& r.summary.cost == pick.0
            &&& r.summary.cost <= edd_cost(jobs, start, w, lim)
            &&& kpi_match(
                r.baseline_summary,
                sched1_spec(edd_jobs(jobs), start, ProcessType::Assembly, 0),
                edd_jobs(jobs),
                w,
                lim,
            )
            &&& r.convergence@.len() >= 4
            &&& r.convergence@[0].t_ms == 0
            &&& r.convergence@[0].best_cost as int == edd_cost(jobs, start, w, lim)
            &&& forall|k: int, l: int|
                0 <= k < l < r.convergence@.len() ==> (#[trigger] r.convergence@[k]).t_ms <= (
                #[trigger] r.convergence@[l]).t_ms
            &&& forall|k: int, l: int|
                0 <= k < l < r.convergence@.len() ==> (#[trigger] r.convergence@[k]).best_cost >= (
                #[trigger] r.convergence@[l]).best_cost
            &&& forall|k: int, l: int|
                (0 <= k < l < r.convergence@.len() && (#[trigger] r.convergence@[k]).best_cost == (
                #[trigger] r.convergence@[l]).best_cost) ==> r.convergence@[l].best_cost
                    == r.summary.cost
            &&& r.convergence@.last().best_cost == r.summary.cost
            &&& r.convergence@.last().t_ms == hybrid_runs(input.params.time_budget_sec as int)
                * hybrid_per_run(input.params.time_budget_sec as int) * 1000 + MS_PER_ITER
            &&& r.summary.elapsed_ms >= 0
        }),
{
    let ghost jobs_v = input.jobs@;
    let ghost start_v = input.plan_start_epoch_ms as int;
    let ghost w_v = input.params.weights;
    let ghost lim_v = input.params.limits;
    let ghost algo_v = input.params.algorithm@;
    let ghost budget_v = input.params.time_budget_sec as int;
    let t_start = now_epoch_ms();
    let total_budget = input.params.time_budget_sec;
    let num_runs: i32 = if total_budget >= 9 {
        4
    } else if total_budget >= 6 {
        3
    } else {
        if total_budget >= 3 {
            2
        } else {
            1
        }
    };
    let per_run_budget: i32 = {
        let q = total_budget / num_runs;
        if q < 1 {
            1
        } else {
            q
        }
    };
    proof {
        assert(num_runs == hybrid_runs(budget_v));
        assert(per_run_budget == hybrid_per_run(budget_v));
    }

    let mut best_output = solve_edd(input);
    let baseline_u: u128 = best_output.summary.cost;
    let mut all_convergence: Vec<ConvergencePoint> = Vec::new();
    all_convergence.push(ConvergencePoint { t_ms: 0, best_cost: baseline_u });
    let ghost baseline_cost = baseline_u as int;

    let mut i: i32 = 0;
    let mut choice_g: Ghost<Option<Seq<int>>> = Ghost(Option::None);
    while i < num_runs
        invariant
            input.jobs@ == jobs_v,
            input.valid(),
            start_v == input.plan_start_epoch_ms as int,
            w_v == input.params.weights,
            lim_v == input.params.limits,
            algo_v == input.params.algorithm@,
            budget_v == input.params.time_budget_sec as int,
            num_runs == hybrid_runs(budget_v),
            per_run_budget == hybrid_per_run(budget_v),
            1 <= per_run_budget <= 3600,
            1 <= num_runs <= 4,
            0 <= i <= num_runs,
            best_output.request_id@ == input.request_id@,
            solution_ok(best_output, jobs_v, start_v, w_v, lim_v, choice_g@),
            best_output.summary.cost as int == hybrid_pick(
                jobs_v,
                start_v,
                w_v,
                lim_v,
                algo_v,
                input.params.seed,
                budget_v,
                i as int,
            ).0,
            choice_g@ == hybrid_pick(
                jobs_v,
                start_v,
                w_v,
                lim_v,
                algo_v,
                input.params.seed,
                budget_v,
                i as int,
            ).1,
            best_output.summary.cost as int <= baseline_cost,
            baseline_cost == edd_cost(jobs_v, start_v, w_v, lim_v),
            kpi_match(
                best_output.baseline_summary,
                sched1_spec(edd_jobs(jobs_v), start_v, ProcessType::Assembly, 0),
                edd_jobs(jobs_v),
                w_v,
                lim_v,
            ),
            best_output.summary.cost <= COST_CAP,
            baseline_u as int == baseline_cost,
            baseline_u <= COST_CAP,
            all_convergence@.len() >= 1,
            all_convergence@[0] == (ConvergencePoint { t_ms: 0, best_cost: baseline_u }),
            forall|k: int|
                0 <= k < all_convergence@.len() ==> (#[trigger] all_convergence@[k]).best_cost
                    >= best_output.summary.cost,
            forall|k: int|
                0 <= k < all_convergence@.len() ==> 0 <= (#[trigger] all_convergence@[k]).t_ms
                    <= (num_runs as int) * (per_run_budget as int) * 1000 + MS_PER_ITER,
        decreases num_runs - i,
    {
        let run_jobs = clone_jobs(&input.jobs);
        let seed_u = (input.params.seed as u64).wrapping_add((i as u64) * 12345);
        let run_seed_i: i64 = (seed_u as u32) as i64;
        let run_input = SolveInput {
            request_id: input.request_id.clone(),
            plan_start_epoch_ms: input.plan_start_epoch_ms,
            jobs: run_jobs,
            params: SolveParams {
                algorithm: input.params.algorithm.clone(),
                time_budget_sec: per_run_budget,
                seed: run_seed_i,
                weights: input.params.weights,
                limits: input.params.limits,
            },
        };
        proof {
            assert(run_input.valid());
            assert(run_seed_i == run_seed(input.params.seed, i as int));
        }
        let output = solve_sa(&run_input);
        let ghost run_st = sa_result(
            jobs_v,
            start_v,
            w_v,
            lim_v,
            algo_v,
            run_seed_i as u64,
            per_run_budget as int,
        );
        proof {
            assert(0 <= (per_run_budget as int) * (i as int) * 1000 <= (num_runs as int) * (
            per_run_budget as int) * 1000 - (per_run_budget as int) * 1000) by (nonlinear_arith)
                requires
                    0 <= i < num_runs <= 4,
                    1 <= per_run_budget <= 3600,
            ;
        }
        let time_offset: i64 = (per_run_budget as i64) * (i as i64) * 1000;
        let ghost base_len = all_convergence@.len();
        let mut j: usize = 0;
        while j < output.convergence.len()
            invariant
                0 <= j <= output.convergence@.len(),
                forall|k: int|
                    0 <= k < output.convergence@.len() ==> {
                        &&& 0 <= (#[trigger] output.convergence@[k]).t_ms
                            <= (per_run_budget as int) * 1000 + MS_PER_ITER
                        &&& output.convergence@[k].best_cost >= output.summary.cost
                    },
                0 <= time_offset <= (num_runs as int) * (per_run_budget as int) * 1000 - (
                per_run_budget as int) * 1000,
                1 <= per_run_budget <= 3600,
                1 <= num_runs <= 4,
                all_convergence@.len() == base_len + j,
                base_len >= 1,
                all_convergence@[0] == (ConvergencePoint { t_ms: 0, best_cost: baseline_u }),
                forall|k: int|
                    0 <= k < base_len ==> (#[trigger] all_convergence@[k]).best_cost
                        >= best_output.summary.cost,
                forall|k: int|
                    base_len <= k < all_convergence@.len() ==> (
                    #[trigger] all_convergence@[k]).best_cost >= output.summary.cost,
                forall|k: int|
                    0 <= k < all_convergence@.len() ==> 0 <= (
                    #[trigger] all_convergence@[k]).t_ms <= (num_runs as int) * (per_run_budget
                        as int) * 1000 + MS_PER_ITER,
            decreases output.convergence@.len() - j,
        {
            let pt = output.convergence[j];
            proof {
                assert(0 <= output.convergence@[j as int].t_ms <= (per_run_budget as int) * 1000
                    + MS_PER_ITER);
                assert((per_run_budget as int) * 1000 <= 3_600_000 && (num_runs as int) * (
                per_run_budget as int) * 1000 <= 14_400_000) by (nonlinear_arith)
                    requires
                        1 <= per_run_budget <= 3600,
                        1 <= num_runs <= 4,
                ;
            }
            all_convergence.push(
                ConvergencePoint { t_ms: pt.t_ms + time_offset, best_cost: pt.best_cost },
            );
            j = j + 1;
        }
        if output.summary.cost < best_output.summary.cost {
            best_output = output;
            choice_g = Ghost(Option::Some(run_st.best));
        }
        i = i + 1;
    }

    // merge: sort by time, keep the strictly improving prefix
    proof {
        assert(1000 <= (num_runs as int) * (per_run_budget as int) * 1000 + MS_PER_ITER
            <= 14_400_003) by (nonlinear_arith)
            requires
                1 <= num_runs <= 4,
                1 <= per_run_budget <= 3600,
        ;
    }
    let horizon: i64 = (num_runs as i64) * (per_run_budget as i64) * 1000 + MS_PER_ITER;
    let ghost all_v = all_convergence@;
    let sorted = sort_points(all_convergence);
    let final_best: u128 = best_output.summary.cost;
    proof {
        assert forall|a: int| 0 <= a < sorted@.len() implies ((#[trigger] sorted@[a]).best_cost
            >= final_best && 0 <= sorted@[a].t_ms <= horizon) by {
            assert(point_among(all_v, sorted@[a]));
            let l = choose|l: int| 0 <= l < all_v.len() && sorted@[a] == #[trigger] all_v[l];
        }
        // the origin point has the least time, so the stable sort keeps it first
        assert(forall|a: int| 0 <= a < all_v.len() ==> all_v[0].t_ms <= (#[trigger] all_v[a]).t_ms);
        assert(sorted@[0] == (ConvergencePoint { t_ms: 0, best_cost: baseline_u }));
    }
    let mut final_convergence: Vec<ConvergencePoint> = Vec::new();
    let mut best_so_far: u128 = u128::MAX;
    let mut k: usize = 0;
    while k < sorted.len()
        invariant
            0 <= k <= sorted@.len(),
            forall|a: int, b: int|
                0 <= a < b < sorted@.len() ==> (#[trigger] sorted@[a]).t_ms <= (
                #[trigger] sorted@[b]).t_ms,
            forall|a: int|
                0 <= a < sorted@.len() ==> (#[trigger] sorted@[a]).best_cost >= final_best && 0
                    <= sorted@[a].t_ms <= horizon,
            forall|a: int, b: int|
                0 <= a < b < final_convergence@.len() ==> (
                #[trigger] final_convergence@[a]).t_ms <= (#[trigger] final_convergence@[b]).t_ms,
            forall|a: int, b: int|
                0 <= a < b < final_convergence@.len() ==> (
                #[trigger] final_convergence@[a]).best_cost > (
                #[trigger] final_convergence@[b]).best_cost,
            forall|a: int|
                0 <= a < final_convergence@.len() ==> (#[trigger] final_convergence@[a]).best_cost
                    >= final_best && 0 <= final_convergence@[a].t_ms <= horizon,
            final_convergence@.len() > 0 ==> final_convergence@.last().best_cost == best_so_far,
            final_convergence@.len() > 0 ==> final_convergence@.last().t_ms <= (if k
                < sorted@.len() {
                sorted@[k as int].t_ms as int
            } else {
                horizon as int
            }),
            final_convergence@.len() == 0 ==> best_so_far == u128::MAX,
            sorted@.len() >= 1,
            sorted@[0] == (ConvergencePoint { t_ms: 0, best_cost: baseline_u }),
            baseline_u <= COST_CAP,
            k >= 1 ==> final_convergence@.len() >= 1 && final_convergence@[0] == sorted@[0],
            k == 0 ==> final_convergence@.len() == 0,
        decreases sorted@.len() - k,
    {
        let pt = sorted[k];
        if pt.best_cost < best_so_far {
            best_so_far = pt.best_cost;
            final_convergence.push(pt);
        }
        proof {
            if k == 0 {
                assert(pt == sorted@[0]);
                assert(pt.best_cost <= COST_CAP);
                assert(final_convergence@.len() >= 1 && final_convergence@[0] == sorted@[0]);
            }
        }
        k = k + 1;
    }

    // at least three points, then the closing point at the horizon
    proof {
        assert(final_convergence@.len() >= 1);
    }
    while final_convergence.len() < 3
        invariant
            forall|a: int, b: int|
                0 <= a < b < final_convergence@.len() ==> (
                #[trigger] final_convergence@[a]).t_ms <= (#[trigger] final_convergence@[b]).t_ms,
            forall|a: int, b: int|
                0 <= a < b < final_convergence@.len() ==> (
                #[trigger] final_convergence@[a]).best_cost >= (
                #[trigger] final_convergence@[b]).best_cost,
            forall|a: int, b: int|
                0 <= a < b < final_convergence@.len() ==> ((
                #[trigger] final_convergence@[a]).best_cost > (
                #[trigger] final_convergence@[b]).best_cost || final_convergence@[b].best_cost
                    == final_best),
            forall|a: int|
                0 <= a < final_convergence@.len() ==> (#[trigger] final_convergence@[a]).best_cost
                    >= final_best && 0 <= final_convergence@[a].t_ms <= horizon,
            final_convergence@.len() >= 1,
            final_convergence@[0] == (ConvergencePoint { t_ms: 0, best_cost: baseline_u }),
            1000 <= horizon <= 14_400_003,
        decreases 3 - final_convergence.len(),
    {
        let flen = final_convergence.len();
        proof {
            assert(0 <= horizon * (flen as int) / 3 <= horizon) by (nonlinear_arith)
                requires
                    0 <= flen <= 2,
                    1000 <= horizon <= 14_400_003,
            ;
        }
        let ft: i64 = horizon * (flen as i64) / 3;
        let t: i64 = if flen > 0 && final_convergence[flen - 1].t_ms > ft {
            final_convergence[flen - 1].t_ms
        } else {
            ft
        };
        final_convergence.push(ConvergencePoint { t_ms: t, best_cost: final_best });
    }
    final_convergence.push(ConvergencePoint { t_ms: horizon, best_cost: final_best });

    let t_end = now_epoch_ms();
    let total_elapsed = elapsed_between(t_start, t_end);
    best_output.convergence = final_convergence;
    best_output.summary.elapsed_ms = total_elapsed;
    best_output
}

} // verus!
