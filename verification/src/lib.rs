//! Production sequencing engine for manufacturing jobs.
//!
//! The library lays a batch of jobs out over up to four serial production
//! stages, scores the resulting schedule by a weighted cost (tardiness,
//! changeovers, per-shift energy and emission excess), and searches for a
//! low-cost ordering with an earliest-due-date baseline, simulated
//! annealing, and a multi-start annealing combiner.
//!
//! Fractional quantities (scores, weights, limits, costs) are held in fixed
//! point: scores, weights and limits in thousandths, costs in millionths.

pub mod alg;
pub mod eval;
pub mod fixed;
pub mod model;
pub mod observability;
pub mod rng;
pub mod sort;
pub mod util;

pub use model::{
    ProcessType, Job, SolveInput, SolveOutput, SolveParams, Weights, Limits, KpiSummary,
    ScheduleItem,
};
pub use alg::{baseline::solve_edd, sa::solve_sa, hybrid::solve_hybrid};

use vstd::prelude::*;
use crate::alg::baseline::{baseline_trace, edd_jobs};
use crate::alg::hybrid::{edd_cost, hybrid_pick, hybrid_runs, solution_ok};
use crate::alg::sa::sa_result;

verus! {

/// Whether two strings hold the same characters.
fn str_eq(a: &str, b: &str) -> (r: bool)
    ensures
        r == (a@ == b@),
{
    let n = a.unicode_len();
    if !(n == b.unicode_len()) {
        proof {
            assert(a@ != b@);
        }
        return false;
    }
    let mut i: usize = 0;
    while i < n
        invariant
            0 <= i <= n,
            n == a@.len() == b@.len(),
            forall|k: int| 0 <= k < i ==> a@[k] == b@[k],
        decreases n - i,
    {
        if !(a.get_char(i) == b.get_char(i)) {
            return false;
        }
        i = i + 1;
    }
    proof {
        assert(a@ =~= b@);
    }
    true
}

/// Solves a request with the solver its algorithm name picks: the
/// earliest-due-date baseline, simulated annealing, or multi-start
/// annealing. An unrecognized name falls back to the baseline — a policy
/// choice, not a failure.
pub fn solve(input: &SolveInput) -> (r: SolveOutput)
    requires
        input.valid(),
    ensures
        ({
            let algo = input.params.algorithm@;
            let jobs = input.jobs@;
            let start = input.plan_start_epoch_ms as int;
            let w = input.params.weights;
            let lim = input.params.limits;
            &&& r.request_id@ == input.request_id@
            &&& (algo == "sa"@ ==> {
                let f = sa_result(
                    jobs,
                    start,
                    w,
                    lim,
                    algo,
                    input.params.seed as u64,
                    input.params.time_budget_sec as int,
                );
                &&& solution_ok(r, jobs, start, w, lim, Some(f.best))
                &&& r.summary.cost == f.best_cost
            })
            &&& (algo == "hybrid"@ ==> {
                let pick = hybrid_pick(
                    jobs,
                    start,
                    w,
                    lim,
                    algo,
                    input.params.seed,
                    input.params.time_budget_sec as int,
                    hybrid_runs(input.params.time_budget_sec as int),
                );
                &&& solution_ok(r, jobs, start, w, lim, pick.1)
                &&& r.summary.cost == pick.0
                &&& r.summary.cost <= edd_cost(jobs, start, w, lim)
            })
            &&& (!(algo == "sa"@) && !(algo == "hybrid"@) ==> {
                &&& solution_ok(r, jobs, start, w, lim, None::<Seq<int>>)
                &&& r.baseline_summary == r.summary
                &&& r.convergence@ == baseline_trace(r.summary.cost, r.summary.elapsed_ms as int)
            })
        }),
{
    proof {
        reveal_strlit("sa");
        reveal_strlit("hybrid");
    }
    let algorithm = input.params.algorithm.as_str();
    if str_eq(algorithm, "sa") {
        let out = solve_sa(input);
        proof {
            let f = sa_result(
                input.jobs@,
                input.plan_start_epoch_ms as int,
                input.params.weights,
                input.params.limits,
                input.params.algorithm@,
                input.params.seed as u64,
                input.params.time_budget_sec as int,
            );
            assert(solution_ok(
                out,
                input.jobs@,
                input.plan_start_epoch_ms as int,
                input.params.weights,
                input.params.limits,
                Some(f.best),
            ));
        }
        out
    } else if str_eq(algorithm, "hybrid") {
        solve_hybrid(input)
    } else {
        let out = solve_edd(input);
        proof {
            assert(solution_ok(
                out,
                input.jobs@,
                input.plan_start_epoch_ms as int,
                input.params.weights,
                input.params.limits,
                None::<Seq<int>>,
            ));
        }
        out
    }
}

} // verus!
