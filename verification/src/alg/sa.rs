//! Simulated annealing solver: a stochastic local search over job
//! orderings, driven by a seeded deterministic random stream and an
//! explicit iteration budget derived from the time budget (three
//! milliseconds per estimated iteration — the same estimate the cooling
//! schedule uses), so the whole search is a pure function of its input.

use vstd::prelude::*;
use crate::alg::baseline::{
    collect_vins, edd_jobs, edd_summary, elapsed_between, kpi_match, lemma_perm_jobs_valid,
    vins_of,
};
use crate::eval::{
    build_full_process_schedule, build_kpi_summary, build_schedule, build_violations, sched1_spec,
    sched4_spec, shift_metrics_spec, violations_of, violations_view,
};
use crate::fixed::{EXP_CUTOFF, ONE_Q32, exp_neg, exp_neg_exec, ln_q32, ln_q32_exec};
use crate::model::{
    COST_CAP, ConvergencePoint, JOBS_MAX, Job, Limits, ProcessType, SolveInput, SolveOutput,
    TS_MAX, Weights, schedule_view, valid_jobs,
};
use crate::rng::{Rng, mix, next_state};
use crate::sort::{SortKey, lemma_sort_perm_props, perm_jobs, range_seq, reorder, sort_indices,
    sort_perm};
use crate::util::time::now_epoch_ms;

verus! {

/// Floor temperature, in millionths.
pub const TEMP_FLOOR: u128 = 100_000;

/// Least initial temperature, in millionths.
pub const TEMP_INIT_MIN: u128 = 1_000_000_000;

/// The search stops after this many proposals without improvement.
pub const NO_IMPROVE_LIMIT: u64 = 1000;

/// The budget's estimate of one iteration's duration, in milliseconds.
pub const MS_PER_ITER: i64 = 3;

/// Least spacing of recorded convergence points, in milliseconds.
pub const RECORD_INTERVAL_MS: i64 = 200;

// ========== Scoring an ordering ==========

/// The cost of laying the picked jobs out on the assembly stage, scored
/// against the whole job set's scores.
#[verifier::opaque]
pub open spec fn order_cost(
    jobs: Seq<Job>,
    start: int,
    w: Weights,
    lim: Limits,
    perm: Seq<int>,
) -> int {
    let s = sched1_spec(perm_jobs(jobs, perm), start, ProcessType::Assembly, 0);
    let bs = shift_metrics_spec(s, jobs);
    crate::eval::cost_of(
        w,
        crate::eval::total_tardiness(s),
        crate::eval::color_changes(s),
        crate::eval::config_changes(s),
        crate::eval::energy_excess_of(bs, lim.max_energy_per_shift as int),
        crate::eval::emission_excess_of(bs, lim.max_emission_per_shift as int),
        0,
    )
}

fn eval_order(jobs: &Vec<Job>, start: i64, w: &Weights, lim: &Limits, perm: &Vec<usize>) -> (c:
    u128)
    requires
        valid_jobs(jobs@),
        -TS_MAX <= start <= TS_MAX,
        w.valid(),
        perm@.len() <= jobs@.len(),
        forall|k: int| 0 <= k < perm@.len() ==> (#[trigger] perm@[k]) < jobs@.len(),
    ensures
        c == order_cost(jobs@, start as int, *w, *lim, perm@.map_values(|u: usize| u as int)),
        c <= COST_CAP,
{
    proof {
        reveal(order_cost);
    }
    let ordered = reorder(jobs, perm);
    proof {
        lemma_perm_jobs_valid(jobs@, perm@.map_values(|u: usize| u as int));
    }
    let schedule = build_schedule(&ordered, start);
    let k = build_kpi_summary(&schedule, w, lim, jobs, 0);
    k.cost
}

// ========== Neighborhood moves ==========

/// The ordering with one contiguous segment reversed.
pub open spec fn seg_reversed(s: Seq<int>, start: int, len: int) -> Seq<int> {
    s.take(start) + s.subrange(start, start + len).reverse() + s.skip(start + len)
}

/// One random neighborhood move: 70% swap two positions, 20% reverse a
/// segment, 10% move one element; a no-op below two jobs. Returns the new
/// ordering and the random state after the draws the branch consumed.
pub open spec fn apply_move(perm: Seq<int>, rng0: u64) -> (Seq<int>, u64) {
    let n = perm.len() as int;
    if n <= 1 {
        (perm, rng0)
    } else {
        let r1 = next_state(rng0);
        let op = mix(r1) as int % 100;
        if op < 70 {
            let r2 = next_state(r1);
            let i = mix(r2) as int % n;
            let r3 = next_state(r2);
            let j = mix(r3) as int % n;
            (perm.update(i, perm[j]).update(j, perm[i]), r3)
        } else if op < 90 {
            let r2 = next_state(r1);
            let maxlen = if n / 4 >= 2 {
                n / 4
            } else {
                2
            };
            let len = 2 + mix(r2) as int % (maxlen - 1);
            let r3 = next_state(r2);
            let st = mix(r3) as int % (n - len + 1);
            (seg_reversed(perm, st, len), r3)
        } else {
            let r2 = next_state(r1);
            let from = mix(r2) as int % n;
            let r3 = next_state(r2);
            let to = mix(r3) as int % n;
            if from != to {
                (perm.remove(from).insert(to, perm[from]), r3)
            } else {
                (perm, r3)
            }
        }
    }
}

fn copy_perm(perm: &Vec<usize>) -> (np: Vec<usize>)
    ensures
        np@ == perm@,
{
    let mut np: Vec<usize> = Vec::new();
    let mut k: usize = 0;
    while k < perm.len()
        invariant
            0 <= k <= perm@.len(),
            np@.len() == k,
            forall|q: int| 0 <= q < k ==> #[trigger] np@[q] == perm@[q],
        decreases perm@.len() - k,
    {
        np.push(perm[k]);
        k = k + 1;
    }
    proof {
        assert(np@ =~= perm@);
    }
    np
}

#[verifier::rlimit(100)]
fn propose(perm: &Vec<usize>, rng: &mut Rng, Ghost(limit): Ghost<int>) -> (np: Vec<usize>)
    requires
        perm@.len() <= JOBS_MAX,
        forall|k: int| 0 <= k < perm@.len() ==> (#[trigger] perm@[k]) < limit,
    ensures
        ({
            let mv = apply_move(perm@.map_values(|u: usize| u as int), old(rng).state);
            &&& np@.map_values(|u: usize| u as int) == mv.0
            &&& final(rng).state == mv.1
            &&& np@.len() == perm@.len()
            &&& forall|k: int| 0 <= k < np@.len() ==> (#[trigger] np@[k]) < limit
        }),
{
    let ghost pv = perm@.map_values(|u: usize| u as int);
    let n = perm.len();
    if n <= 1 {
        let np = copy_perm(perm);
        proof {
            assert(np@.map_values(|u: usize| u as int) =~= pv);
        }
        return np;
    }
    let op = rng.next_below(100);
    if op < 70 {
        let i = rng.next_below(n as u64) as usize;
        let j = rng.next_below(n as u64) as usize;
        let mut np = copy_perm(perm);
        let pi = np[i];
        let pj = np[j];
        np[i] = pj;
        np[j] = pi;
        proof {
            assert(np@.map_values(|u: usize| u as int) =~= pv.update(i as int, pv[j as int]).update(
                j as int,
                pv[i as int],
            ));
        }
        np
    } else if op < 90 {
        let maxlen: usize = if n / 4 >= 2 {
            n / 4
        } else {
            2
        };
        let len: usize = 2 + (rng.next_below((maxlen - 1) as u64) as usize);
        let st: usize = rng.next_below((n - len + 1) as u64) as usize;
        let mut np: Vec<usize> = Vec::new();
        let mut k: usize = 0;
        while k < st
            invariant
                0 <= k <= st,
                st + len <= n == perm@.len(),
                np@.len() == k,
                forall|q: int| 0 <= q < k ==> #[trigger] np@[q] == perm@[q],
            decreases st - k,
        {
            np.push(perm[k]);
            k = k + 1;
        }
        let mut t: usize = 0;
        while t < len
            invariant
                0 <= t <= len,
                st + len <= n == perm@.len(),
                np@.len() == st + t,
                forall|q: int| 0 <= q < st ==> #[trigger] np@[q] == perm@[q],
                forall|q: int|
                    st <= q < st + t ==> #[trigger] np@[q] == perm@[st + len - 1 - (q - st)],
            decreases len - t,
        {
            np.push(perm[st + len - 1 - t]);
            t = t + 1;
        }
        let mut k: usize = st + len;
        while k < n
            invariant
                st + len <= k <= n,
                n == perm@.len(),
                np@.len() == k,
                forall|q: int| 0 <= q < st ==> #[trigger] np@[q] == perm@[q],
                forall|q: int|
                    st <= q < st + len ==> #[trigger] np@[q] == perm@[st + len - 1 - (q - st)],
                forall|q: int| st + len <= q < k ==> #[trigger] np@[q] == perm@[q],
            decreases n - k,
        {
            np.push(perm[k]);
            k = k + 1;
        }
        proof {
            assert(np@.map_values(|u: usize| u as int) =~= seg_reversed(
                pv,
                st as int,
                len as int,
            ));
            assert forall|q: int| 0 <= q < np@.len() implies (#[trigger] np@[q]) < limit by {
                if st <= q < st + len {
                    assert(np@[q] == perm@[st + len - 1 - (q - st)]);
                }
            }
        }
        np
    } else {
        let from = rng.next_below(n as u64) as usize;
        let to = rng.next_below(n as u64) as usize;
        let mut np = copy_perm(perm);
        if from != to {
            let x = np.remove(from);
            np.insert(to, x);
            proof {
                assert(np@.map_values(|u: usize| u as int) =~= pv.remove(from as int).insert(
                    to as int,
                    pv[from as int],
                ));
                assert forall|k: int| 0 <= k < np@.len() implies (#[trigger] np@[k]) < limit by {
                    if k < to {
                        assert(np@[k] == perm@.remove(from as int)[k]);
                    } else if k > to {
                        assert(np@[k] == perm@.remove(from as int)[k - 1]);
                    }
                }
            }
        } else {
            proof {
                assert(np@.map_values(|u: usize| u as int) =~= pv);
            }
        }
        np
    }
}

// ========== Acceptance and cooling ==========

/// The Q32 acceptance threshold for a non-improving move: `e^(-delta/temp)`
/// against a uniform 32-bit draw, zero beyond the cutoff ratio.
pub open spec fn accept_threshold(delta: int, temp: int) -> int {
    let hi = delta / temp;
    if hi >= EXP_CUTOFF {
        0
    } else {
        exp_neg(hi * (ONE_Q32 as int) + ((delta % temp) * (ONE_Q32 as int)) / temp)
    }
}

fn accept_threshold_exec(delta: u128, temp: u128) -> (r: u64)
    requires
        TEMP_FLOOR <= temp <= COST_CAP,
        delta <= COST_CAP,
    ensures
        r == accept_threshold(delta as int, temp as int),
        r <= ONE_Q32,
{
    let hi = delta / temp;
    if hi >= EXP_CUTOFF as u128 {
        0
    } else {
        let rem = delta % temp;
        proof {
            assert(rem < temp <= COST_CAP);
            assert(rem * (ONE_Q32 as int) < temp * (ONE_Q32 as int)
                && temp * (ONE_Q32 as int) <= COST_CAP * (ONE_Q32 as int)) by (nonlinear_arith)
                requires
                    0 <= rem < temp <= COST_CAP,
            ;
            vstd::arithmetic::div_mod::lemma_multiply_divide_lt(
                rem * (ONE_Q32 as int),
                temp as int,
                ONE_Q32 as int,
            );
            assert(hi * (ONE_Q32 as int) <= 49 * (ONE_Q32 as int)) by (nonlinear_arith)
                requires
                    0 <= hi < EXP_CUTOFF,
            ;
        }
        let q: u128 = hi * (ONE_Q32 as u128) + (rem * (ONE_Q32 as u128)) / temp;
        exp_neg_exec(q as u64)
    }
}

/// The temperature after one iteration: every hundredth proposal adapts
/// the pace to the window's acceptance rate, the others apply the base
/// geometric rate; never below the floor.
pub open spec fn cooled(temp: int, rate: int, accepted: int, rejected: int) -> int {
    let t = if (accepted + rejected) % 100 == 0 {
        if 100 * accepted < 2 * (accepted + rejected) {
            (temp * 95) / 100
        } else if 10 * accepted > 3 * (accepted + rejected) {
            (temp * 99) / 100
        } else {
            (temp * rate) / (ONE_Q32 as int)
        }
    } else {
        (temp * rate) / (ONE_Q32 as int)
    };
    if t < TEMP_FLOOR {
        TEMP_FLOOR as int
    } else {
        t
    }
}

fn cooled_exec(temp: u128, rate: u64, accepted: u64, rejected: u64) -> (r: u128)
    requires
        TEMP_FLOOR <= temp <= COST_CAP,
        rate <= ONE_Q32,
        1 <= accepted + rejected <= 1_000_000,
    ensures
        r == cooled(temp as int, rate as int, accepted as int, rejected as int),
        TEMP_FLOOR <= r <= temp,
{
    proof {
        assert(temp * 95 <= COST_CAP * 100 && temp * 99 <= COST_CAP * 100 && temp * rate <= COST_CAP
            * (ONE_Q32 as int) && temp * rate <= temp * (ONE_Q32 as int)) by (nonlinear_arith)
            requires
                0 <= temp <= COST_CAP,
                0 <= rate <= ONE_Q32,
        ;
        vstd::arithmetic::div_mod::lemma_multiply_divide_le(
            temp * 95,
            100,
            temp as int,
        );
        assert(temp * 95 <= 100 * (temp as int) && temp * 99 <= 100 * (temp as int))
            by (nonlinear_arith)
            requires
                temp >= 0,
        ;
        vstd::arithmetic::div_mod::lemma_multiply_divide_le(temp * 99, 100, temp as int);
        vstd::arithmetic::div_mod::lemma_multiply_divide_le(
            temp * rate,
            ONE_Q32 as int,
            temp as int,
        );
    }
    let t: u128 = if (accepted + rejected) % 100 == 0 {
        if 100 * accepted < 2 * (accepted + rejected) {
            (temp * 95) / 100
        } else if 10 * accepted > 3 * (accepted + rejected) {
            (temp * 99) / 100
        } else {
            (temp * (rate as u128)) / (ONE_Q32 as u128)
        }
    } else {
        (temp * (rate as u128)) / (ONE_Q32 as u128)
    };
    if t < TEMP_FLOOR {
        TEMP_FLOOR
    } else {
        t
    }
}

// ========== The search state machine ==========

/// Everything one run's iterations depend on besides the evolving state.
#[verifier::ext_equal]
pub ghost struct SaCtx {
    pub jobs: Seq<Job>,
    pub start: int,
    pub weights: Weights,
    pub limits: Limits,
    pub budget_ms: int,
    pub rate: int,
}

/// One run's evolving state.
#[verifier::ext_equal]
pub ghost struct SaState {
    pub iter: int,
    pub perm: Seq<int>,
    pub cur_cost: int,
    pub best: Seq<int>,
    pub best_cost: int,
    pub temp: int,
    pub accepted: int,
    pub rejected: int,
    pub no_improve: int,
    pub rng: u64,
    pub trace: Seq<ConvergencePoint>,
    pub last_rec: int,
}

/// The search stops when the iteration budget runs out or proposals stop
/// improving — whichever comes first.
pub open spec fn sa_stop(ctx: SaCtx, st: SaState) -> bool {
    ||| (MS_PER_ITER as int) * st.iter >= ctx.budget_ms
    ||| st.no_improve > NO_IMPROVE_LIMIT
}

/// One iteration: propose a neighbor, score it, accept it outright if it
/// improves or with the threshold probability otherwise, track the best,
/// cool, and sample the convergence trace.
#[verifier::opaque]
pub open spec fn sa_step(ctx: SaCtx, st: SaState) -> SaState {
    let elapsed = (MS_PER_ITER as int) * st.iter;
    let mv = apply_move(st.perm, st.rng);
    let cand = mv.0;
    let rng1 = mv.1;
    let new_cost = order_cost(ctx.jobs, ctx.start, ctx.weights, ctx.limits, cand);
    let acc = if new_cost < st.cur_cost {
        (true, rng1)
    } else {
        let r2 = next_state(rng1);
        let u = mix(r2) >> 32;
        ((u as int) < accept_threshold(new_cost - st.cur_cost, st.temp), r2)
    };
    let accept = acc.0;
    let rng2 = acc.1;
    let perm2 = if accept {
        cand
    } else {
        st.perm
    };
    let cur2 = if accept {
        new_cost
    } else {
        st.cur_cost
    };
    let improves = accept && cur2 < st.best_cost;
    let best2 = if improves {
        perm2
    } else {
        st.best
    };
    let bc2 = if improves {
        cur2
    } else {
        st.best_cost
    };
    let ni2 = if improves {
        0
    } else {
        st.no_improve + 1
    };
    let acc2 = if accept {
        st.accepted + 1
    } else {
        st.accepted
    };
    let rej2 = if accept {
        st.rejected
    } else {
        st.rejected + 1
    };
    let temp2 = cooled(st.temp, ctx.rate, acc2, rej2);
    let window_done = (acc2 + rej2) % 100 == 0;
    let acc3 = if window_done {
        0
    } else {
        acc2
    };
    let rej3 = if window_done {
        0
    } else {
        rej2
    };
    let record = elapsed - st.last_rec >= RECORD_INTERVAL_MS;
    let trace2 = if record {
        st.trace.push(ConvergencePoint { t_ms: elapsed as i64, best_cost: bc2 as u128 })
    } else {
        st.trace
    };
    let lr2 = if record {
        elapsed
    } else {
        st.last_rec
    };
    SaState {
        iter: st.iter + 1,
        perm: perm2,
        cur_cost: cur2,
        best: best2,
        best_cost: bc2,
        temp: temp2,
        accepted: acc3,
        rejected: rej3,
        no_improve: ni2,
        rng: rng2,
        trace: trace2,
        last_rec: lr2,
    }
}

/// The state the search ends in.
pub open spec fn sa_run(ctx: SaCtx, st: SaState) -> SaState
    decreases ctx.budget_ms + MS_PER_ITER - (MS_PER_ITER as int) * st.iter,
    via sa_run_decreases
{
    if sa_stop(ctx, st) {
        st
    } else {
        sa_run(ctx, sa_step(ctx, st))
    }
}

#[via_fn]
proof fn sa_run_decreases(ctx: SaCtx, st: SaState) {
    reveal(sa_step);
}

/// The starting ordering: grouped by color, configuration and due date,
/// unless the algorithm name carries the combiner's pre-seeding marker, in
/// which case the given order stands.
pub open spec fn sa_init_perm(jobs: Seq<Job>, algo: Seq<char>) -> Seq<int> {
    if !"hybrid_"@.is_prefix_of(algo) {
        sort_perm(jobs, SortKey::Grouped, jobs.len() as int)
    } else {
        range_seq(jobs.len() as int)
    }
}

/// The initial temperature: the initial cost, floored at the fixed least
/// initial temperature.
pub open spec fn sa_temp0(c0: int) -> int {
    if c0 > TEMP_INIT_MIN {
        c0
    } else {
        TEMP_INIT_MIN as int
    }
}

/// The geometric cooling rate, in Q32: decay from the initial temperature
/// to the floor over the estimated iteration budget.
pub open spec fn sa_rate(t0: int, budget_ms: int) -> int {
    let l0 = ln_q32(t0);
    let lf = ln_q32(TEMP_FLOOR as int);
    let l = if l0 > lf {
        l0 - lf
    } else {
        0
    };
    exp_neg(l / (budget_ms / 3))
}

pub open spec fn sa_budget_ms(budget_sec: int) -> int {
    if budget_sec * 1000 < 1000 {
        1000
    } else {
        budget_sec * 1000
    }
}

pub open spec fn sa_init(jobs: Seq<Job>, start: int, w: Weights, lim: Limits, algo: Seq<char>, seed: u64) -> SaState {
    let p0 = sa_init_perm(jobs, algo);
    let c0 = order_cost(jobs, start, w, lim, p0);
    SaState {
        iter: 0,
        perm: p0,
        cur_cost: c0,
        best: p0,
        best_cost: c0,
        temp: sa_temp0(c0),
        accepted: 0,
        rejected: 0,
        no_improve: 0,
        rng: seed,
        trace: seq![ConvergencePoint { t_ms: 0, best_cost: c0 as u128 }],
        last_rec: 0,
    }
}

pub open spec fn sa_ctx(jobs: Seq<Job>, start: int, w: Weights, lim: Limits, algo: Seq<char>, budget_sec: int) -> SaCtx {
    let p0 = sa_init_perm(jobs, algo);
    let c0 = order_cost(jobs, start, w, lim, p0);
    let budget_ms = sa_budget_ms(budget_sec);
    SaCtx {
        jobs: jobs,
        start: start,
        weights: w,
        limits: lim,
        budget_ms: budget_ms,
        rate: sa_rate(sa_temp0(c0), budget_ms),
    }
}

/// The state the whole search ends in, as a function of the input alone:
/// two runs on the same input end in the same state.
pub open spec fn sa_result(jobs: Seq<Job>, start: int, w: Weights, lim: Limits, algo: Seq<char>, seed: u64, budget_sec: int) -> SaState {
    sa_run(
        sa_ctx(jobs, start, w, lim, algo, budget_sec),
        sa_init(jobs, start, w, lim, algo, seed),
    )
}

/// The returned convergence trace: the run's samples, with one trailing
/// point at the final virtual time if fewer than three were recorded.
pub open spec fn sa_trace(ctx: SaCtx, f: SaState) -> Seq<ConvergencePoint> {
    if f.trace.len() < 3 {
        f.trace.push(
            ConvergencePoint {
                t_ms: ((MS_PER_ITER as int) * f.iter) as i64,
                best_cost: f.best_cost as u128,
            },
        )
    } else {
        f.trace
    }
}

// ========== Prefix test ==========

/// Whether the string starts with the prefix.
fn str_starts_with(s: &str, prefix: &str) -> (r: bool)
    ensures
        r == prefix@.is_prefix_of(s@),
{
    let n = prefix.unicode_len();
    let sn = s.unicode_len();
    if sn < n {
        proof {
            assert(!prefix@.is_prefix_of(s@));
        }
        return false;
    }
    let mut i: usize = 0;
    while i < n
        invariant
            0 <= i <= n,
            n == prefix@.len() <= s@.len() == sn,
            forall|k: int| 0 <= k < i ==> prefix@[k] == s@[k],
        decreases n - i,
    {
        if !(prefix.get_char(i) == s.get_char(i)) {
            proof {
                assert(prefix@[i as int] != s@.subrange(0, n as int)[i as int]);
                assert(!prefix@.is_prefix_of(s@));
            }
            return false;
        }
        i = i + 1;
    }
    proof {
        assert(prefix@ =~= s@.subrange(0, n as int));
    }
    true
}


// ========== One iteration, executably ==========

/// The solver's in-flight state.
struct SearchState {
    rng: Rng,
    cur_perm: Vec<usize>,
    cur_cost: u128,
    best_perm: Vec<usize>,
    best_cost: u128,
    temp: u128,
    accepted: u64,
    rejected: u64,
    no_improve: u64,
    trace: Vec<ConvergencePoint>,
    last_rec: i64,
    iter: i64,
}

impl SearchState {
    /// The mathematical state this stands for.
    spec fn model(self) -> SaState {
        SaState {
            iter: self.iter as int,
            perm: self.cur_perm@.map_values(|u: usize| u as int),
            cur_cost: self.cur_cost as int,
            best: self.best_perm@.map_values(|u: usize| u as int),
            best_cost: self.best_cost as int,
            temp: self.temp as int,
            accepted: self.accepted as int,
            rejected: self.rejected as int,
            no_improve: self.no_improve as int,
            rng: self.rng.state,
            trace: self.trace@,
            last_rec: self.last_rec as int,
        }
    }
}

/// The context a run works under.
spec fn ctx_wf(ctx: SaCtx) -> bool {
    &&& valid_jobs(ctx.jobs)
    &&& -TS_MAX <= ctx.start <= TS_MAX
    &&& ctx.weights.valid()
    &&& 1000 <= ctx.budget_ms <= 3_600_000
    &&& 0 <= ctx.rate <= ONE_Q32
}

/// What holds of the in-flight state at every iteration boundary.
spec fn st_wf(ctx: SaCtx, s: SearchState) -> bool {
    &&& s.cur_perm@.len() == ctx.jobs.len()
    &&& forall|k: int| 0 <= k < s.cur_perm@.len() ==> (#[trigger] s.cur_perm@[k]) < ctx.jobs.len()
    &&& s.best_perm@.len() == ctx.jobs.len()
    &&& forall|k: int|
        0 <= k < s.best_perm@.len() ==> (#[trigger] s.best_perm@[k]) < ctx.jobs.len()
    &&& s.cur_cost <= COST_CAP
    &&& s.best_cost <= COST_CAP
    &&& s.cur_cost as int == order_cost(
        ctx.jobs,
        ctx.start,
        ctx.weights,
        ctx.limits,
        s.cur_perm@.map_values(|u: usize| u as int),
    )
    &&& s.best_cost as int == order_cost(
        ctx.jobs,
        ctx.start,
        ctx.weights,
        ctx.limits,
        s.best_perm@.map_values(|u: usize| u as int),
    )
    &&& TEMP_FLOOR <= s.temp <= COST_CAP
    &&& s.accepted + s.rejected <= 99
    &&& s.no_improve <= NO_IMPROVE_LIMIT + 1
    &&& 0 <= s.iter
    &&& MS_PER_ITER * s.iter <= ctx.budget_ms + MS_PER_ITER
    &&& 0 <= s.last_rec <= MS_PER_ITER * s.iter
    &&& s.last_rec < ctx.budget_ms
    &&& s.trace@.len() >= 1
    &&& s.trace@[0].t_ms == 0
    &&& forall|k: int|
        0 <= k < s.trace@.len() ==> 0 <= (#[trigger] s.trace@[k]).t_ms <= s.last_rec
    &&& forall|k: int, l: int|
        0 <= k < l < s.trace@.len() ==> (#[trigger] s.trace@[k]).t_ms <= (
        #[trigger] s.trace@[l]).t_ms
    &&& forall|k: int, l: int|
        0 <= k < l < s.trace@.len() ==> (#[trigger] s.trace@[k]).best_cost >= (
        #[trigger] s.trace@[l]).best_cost
    &&& forall|k: int|
        0 <= k < s.trace@.len() ==> (#[trigger] s.trace@[k]).best_cost >= s.best_cost
}

/// One iteration of the search: exactly the step the model takes.
#[verifier::rlimit(100)]
fn sa_iterate(
    s: &mut SearchState,
    jobs: &Vec<Job>,
    plan_start: i64,
    weights: &Weights,
    limits: &Limits,
    rate: u64,
    budget_ms: i64,
    Ghost(ctx): Ghost<SaCtx>,
)
    requires
        ctx == (SaCtx {
            jobs: jobs@,
            start: plan_start as int,
            weights: *weights,
            limits: *limits,
            budget_ms: budget_ms as int,
            rate: rate as int,
        }),
        ctx_wf(ctx),
        -TS_MAX <= plan_start <= TS_MAX,
        rate <= ONE_Q32,
        st_wf(ctx, *old(s)),
        !sa_stop(ctx, old(s).model()),
    ensures
        final(s).model() == sa_step(ctx, old(s).model()),
        st_wf(ctx, *final(s)),
        final(s).iter == old(s).iter + 1,
        final(s).best_cost <= old(s).best_cost,
{
    let ghost st = old(s).model();
    let elapsed: i64 = MS_PER_ITER * s.iter;
    let mut r = s.rng;
    let cand = propose(&s.cur_perm, &mut r, Ghost(jobs@.len() as int));
    s.rng = r;
    let new_cost = eval_order(jobs, plan_start, weights, limits, &cand);
    let accept: bool = if new_cost < s.cur_cost {
        true
    } else {
        let th = accept_threshold_exec(new_cost - s.cur_cost, s.temp);
        let mut r2 = s.rng;
        let u = r2.next_u64() >> 32;
        s.rng = r2;
        u < th as u64
    };
    if accept {
        s.cur_perm = cand;
        s.cur_cost = new_cost;
        s.accepted = s.accepted + 1;
        if s.cur_cost < s.best_cost {
            s.best_perm = copy_perm(&s.cur_perm);
            s.best_cost = s.cur_cost;
            s.no_improve = 0;
        } else {
            s.no_improve = s.no_improve + 1;
        }
    } else {
        s.rejected = s.rejected + 1;
        s.no_improve = s.no_improve + 1;
    }
    s.temp = cooled_exec(s.temp, rate, s.accepted, s.rejected);
    if (s.accepted + s.rejected) % 100 == 0 {
        s.accepted = 0;
        s.rejected = 0;
    }
    if elapsed - s.last_rec >= RECORD_INTERVAL_MS {
        s.trace.push(ConvergencePoint { t_ms: elapsed, best_cost: s.best_cost });
        s.last_rec = elapsed;
    }
    s.iter = s.iter + 1;
    proof {
        reveal(sa_step);
        assert(s.model() =~= sa_step(ctx, st));
    }
}

// ========== The solver ==========

/// Properties every recorded trace keeps: it starts at the origin, its
/// times never decrease, and its costs never increase and never fall
/// under the final best cost.
pub open spec fn trace_wf(tr: Seq<ConvergencePoint>, best_cost: int, horizon: int) -> bool {
    &&& tr.len() >= 1
    &&& tr[0].t_ms == 0
    &&& forall|k: int| 0 <= k < tr.len() ==> 0 <= (#[trigger] tr[k]).t_ms <= horizon
    &&& forall|k: int, l: int| 0 <= k < l < tr.len() ==> (#[trigger] tr[k]).t_ms <= (#[trigger] tr[l]).t_ms
    &&& forall|k: int, l: int|
        0 <= k < l < tr.len() ==> (#[trigger] tr[k]).best_cost >= (#[trigger] tr[l]).best_cost
    &&& forall|k: int| 0 <= k < tr.len() ==> (#[trigger] tr[k]).best_cost >= best_cost
}

/// Runs one annealing search. Everything in the result except the elapsed
/// milliseconds is a pure function of the input — the reproducibility the
/// seeded stream promises.
#[verifier::rlimit(100)]
pub fn solve_sa(input: &SolveInput) -> (r: SolveOutput)
    requires
        input.valid(),
    ensures
        ({
            let f = sa_result(
                input.jobs@,
                input.plan_start_epoch_ms as int,
                input.params.weights,
                input.params.limits,
                input.params.algorithm@,
                input.params.seed as u64,
                input.params.time_budget_sec as int,
            );
            let ctx = sa_ctx(
                input.jobs@,
                input.plan_start_epoch_ms as int,
                input.params.weights,
                input.params.limits,
                input.params.algorithm@,
                input.params.time_budget_sec as int,
            );
            let bj = perm_jobs(input.jobs@, f.best);
            let s1 = sched1_spec(bj, input.plan_start_epoch_ms as int, ProcessType::Assembly, 0);
            &&& r.request_id@ == input.request_id@
            &&& r.order@.map_values(|v: String| v@) == vins_of(bj)
            &&& schedule_view(r.schedule@) == s1
            &&& schedule_view(r.detailed_schedule@) == sched4_spec(
                bj,
                input.plan_start_epoch_ms as int,
            )
            &&& violations_view(r.violations@) == violations_of(
                shift_metrics_spec(s1, input.jobs@),
                input.params.limits,
            )
            &&& kpi_match(r.summary, s1, input.jobs@, input.params.weights, input.params.limits)
            &&& r.summary.cost == f.best_cost
            &&& r.summary.cost <= sa_init(
                input.jobs@,
                input.plan_start_epoch_ms as int,
                input.params.weights,
                input.params.limits,
                input.params.algorithm@,
                input.params.seed as u64,
            ).best_cost
            &&& kpi_match(
                r.baseline_summary,
                sched1_spec(
                    edd_jobs(input.jobs@),
                    input.plan_start_epoch_ms as int,
                    ProcessType::Assembly,
                    0,
                ),
                edd_jobs(input.jobs@),
                input.params.weights,
                input.params.limits,
            )
            &&& r.baseline_summary.elapsed_ms == 0
            &&& r.convergence@ == sa_trace(ctx, f)
            &&& trace_wf(r.convergence@, r.summary.cost as int, ctx.budget_ms + MS_PER_ITER)
            &&& r.summary.elapsed_ms >= 0
        }),
{
    let ghost jobs_v = input.jobs@;
    let ghost start_v = input.plan_start_epoch_ms as int;
    let ghost w_v = input.params.weights;
    let ghost lim_v = input.params.limits;
    let ghost algo_v = input.params.algorithm@;
    let t_start = now_epoch_ms();

    // initial ordering
    let hybrid_seeded = str_starts_with(input.params.algorithm.as_str(), "hybrid_");
    let perm0: Vec<usize> = if !hybrid_seeded {
        sort_indices(&input.jobs, SortKey::Grouped)
    } else {
        let mut idp: Vec<usize> = Vec::new();
        let mut k: usize = 0;
        while k < input.jobs.len()
            invariant
                0 <= k <= input.jobs@.len(),
                idp@.len() == k,
                forall|q: int| 0 <= q < k ==> #[trigger] idp@[q] == q,
            decreases input.jobs@.len() - k,
        {
            idp.push(k);
            k = k + 1;
        }
        idp
    };
    proof {
        lemma_sort_perm_props(jobs_v, SortKey::Grouped, jobs_v.len() as int);
        assert(perm0@.map_values(|u: usize| u as int) =~= sa_init_perm(jobs_v, algo_v));
    }

    // initial evaluation and temperature schedule
    let c0 = eval_order(
        &input.jobs,
        input.plan_start_epoch_ms,
        &input.params.weights,
        &input.params.limits,
        &perm0,
    );
    let budget_ms: i64 = {
        let b = (input.params.time_budget_sec as i64) * 1000;
        if b < 1000 {
            1000
        } else {
            b
        }
    };
    let t0: u128 = if c0 > TEMP_INIT_MIN {
        c0
    } else {
        TEMP_INIT_MIN
    };
    let l0 = ln_q32_exec(t0);
    let lf = ln_q32_exec(TEMP_FLOOR);
    let l = if l0 > lf {
        l0 - lf
    } else {
        0
    };
    let est_iters = (budget_ms / 3) as u64;
    let rate = exp_neg_exec(l / est_iters);
    let ghost ctx = sa_ctx(jobs_v, start_v, w_v, lim_v, algo_v, input.params.time_budget_sec as int);
    proof {
        assert(ctx.budget_ms == budget_ms as int);
        assert(ctx.rate == rate as int);
    }

    // mutable search state
    let best0 = copy_perm(&perm0);
    let mut trace0: Vec<ConvergencePoint> = Vec::new();
    trace0.push(ConvergencePoint { t_ms: 0, best_cost: c0 });
    let mut s = SearchState {
        rng: Rng::new(input.params.seed as u64),
        cur_perm: perm0,
        cur_cost: c0,
        best_perm: best0,
        best_cost: c0,
        temp: t0,
        accepted: 0,
        rejected: 0,
        no_improve: 0,
        trace: trace0,
        last_rec: 0,
        iter: 0,
    };
    let ghost init_st = sa_init(jobs_v, start_v, w_v, lim_v, algo_v, input.params.seed as u64);
    proof {
        assert(s.model().trace =~= init_st.trace);
        assert(s.model() =~= init_st);
        assert(st_wf(ctx, s));
    }

    while (MS_PER_ITER * s.iter) < budget_ms && s.no_improve <= NO_IMPROVE_LIMIT
        invariant
            input.jobs@ == jobs_v,
            -TS_MAX <= input.plan_start_epoch_ms <= TS_MAX,
            start_v == input.plan_start_epoch_ms as int,
            w_v == input.params.weights,
            lim_v == input.params.limits,
            1000 <= budget_ms <= 3_600_000,
            ctx == (SaCtx {
                jobs: jobs_v,
                start: start_v,
                weights: w_v,
                limits: lim_v,
                budget_ms: budget_ms as int,
                rate: rate as int,
            }),
            ctx_wf(ctx),
            rate <= ONE_Q32,
            st_wf(ctx, s),
            s.best_cost <= init_st.best_cost,
            sa_run(ctx, init_st) == sa_run(ctx, s.model()),
        decreases budget_ms + MS_PER_ITER - MS_PER_ITER * s.iter,
    {
        proof {
            assert(!sa_stop(ctx, s.model()));
        }
        let ghost pre = s.model();
        sa_iterate(
            &mut s,
            &input.jobs,
            input.plan_start_epoch_ms,
            &input.params.weights,
            &input.params.limits,
            rate,
            budget_ms,
            Ghost(ctx),
        );
        proof {
            assert(sa_run(ctx, pre) == sa_run(ctx, s.model()));
        }
    }

    let ghost final_st = s.model();
    proof {
        assert(sa_stop(ctx, final_st));
        assert(sa_run(ctx, final_st) == final_st);
        assert(final_st == sa_result(
            jobs_v,
            start_v,
            w_v,
            lim_v,
            algo_v,
            input.params.seed as u64,
            input.params.time_budget_sec as int,
        ));
    }
    let SearchState {
        rng: _,
        cur_perm: _,
        cur_cost: _,
        best_perm,
        best_cost,
        temp: _,
        accepted: _,
        rejected: _,
        no_improve: _,
        mut trace,
        last_rec: _,
        iter,
    } = s;

    // trailing convergence point if the run recorded fewer than three
    if trace.len() < 3 {
        trace.push(ConvergencePoint { t_ms: MS_PER_ITER * iter, best_cost: best_cost });
    }
    proof {
        assert(trace@ == sa_trace(ctx, final_st));
    }

    // assemble the output from the best ordering found
    let best_jobs = reorder(&input.jobs, &best_perm);
    proof {
        lemma_perm_jobs_valid(jobs_v, best_perm@.map_values(|u: usize| u as int));
    }
    let best_schedule = build_schedule(&best_jobs, input.plan_start_epoch_ms);
    let detailed_schedule = build_full_process_schedule(&best_jobs, input.plan_start_epoch_ms);
    let order = collect_vins(&best_jobs);
    let violations = build_violations(&best_schedule, &input.params.limits, &input.jobs);
    let t_end = now_epoch_ms();
    let elapsed_ms = elapsed_between(t_start, t_end);
    let final_summary = build_kpi_summary(
        &best_schedule,
        &input.params.weights,
        &input.params.limits,
        &input.jobs,
        elapsed_ms,
    );
    proof {
        reveal(order_cost);
        assert(final_summary.cost == best_cost);
    }
    let baseline_summary = edd_summary(
        &input.jobs,
        input.plan_start_epoch_ms,
        &input.params.weights,
        &input.params.limits,
    );
    SolveOutput {
        request_id: input.request_id.clone(),
        summary: final_summary,
        baseline_summary,
        order,
        schedule: best_schedule,
        detailed_schedule,
        violations,
        convergence: trace,
    }
}

} // verus!
