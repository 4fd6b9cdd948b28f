//! Evaluator: builds concrete schedules from a job ordering and aggregates
//! them into KPI metrics, costs, and violation records.

use vstd::prelude::*;
use crate::model::{
    DUR_MAX, ITEMS_MAX, JOBS_MAX, SCORE_MAX, TARD_CAP, TS_MAX,
    ItemView, Job, ProcessType, ScheduleItem, schedule_view, valid_jobs, wf_schedule,
};
use crate::util::time::{shift_id, shift_label};

verus! {

/// Milliseconds in one minute.
pub const MS_PER_MIN: i64 = 60_000;

/// Tardiness of an item in whole minutes: how far its end runs past its
/// due time, floored at zero.
pub open spec fn tardiness_of(end: int, due: int) -> int {
    if end >= due {
        (end - due) / (MS_PER_MIN as int)
    } else {
        0
    }
}

fn tardiness_calc(end: i64, due: i64) -> (r: i64)
    requires
        -8 * TS_MAX <= end <= 8 * TS_MAX,
        -TS_MAX <= due <= TS_MAX,
    ensures
        r == tardiness_of(end as int, due as int),
        0 <= r <= TARD_CAP,
{
    if end >= due {
        proof {
            vstd::arithmetic::div_mod::lemma_div_is_ordered(
                end - due,
                9 * TS_MAX,
                MS_PER_MIN as int,
            );
        }
        (((end - due) as u64) / (MS_PER_MIN as u64)) as i64
    } else {
        0
    }
}

// ========== The schedule builders' running state ==========

/// State threaded through a schedule build: the next free instant on the
/// resource, and the shift the previous item fell in with its counter.
pub ghost struct BuildState {
    pub t: int,
    pub last_shift: Seq<char>,
    pub sis: int,
}

pub open spec fn init_state(start: int) -> BuildState {
    BuildState { t: start, last_shift: Seq::empty(), sis: 0 }
}

/// The item created when `job` (at zero-based position `pos`) runs its
/// `process` stage starting at `st.t`.
pub open spec fn item_of(
    job: Job,
    pos: int,
    process: ProcessType,
    line: int,
    st: BuildState,
) -> ItemView {
    let end = st.t + job.minutes(process) * (MS_PER_MIN as int);
    let shift = shift_label(st.t);
    ItemView {
        seq: pos + 1,
        vin: job.vin@,
        process_type: process.tag(),
        line_id: line,
        start: st.t,
        end: end,
        due: job.due_epoch_ms as int,
        tardiness: tardiness_of(end, job.due_epoch_ms as int),
        color: job.color@,
        config: job.config@,
        shift_id: shift,
        seq_in_shift: if shift == st.last_shift {
            st.sis + 1
        } else {
            1
        },
    }
}

/// The state after that item.
pub open spec fn step_state(job: Job, process: ProcessType, st: BuildState) -> BuildState {
    let it = item_of(job, 0, process, 0, st);
    BuildState { t: it.end, last_shift: it.shift_id, sis: it.seq_in_shift }
}

// ========== Single-stage build ==========

/// The items laid out for `jobs[i..]` on one stage, starting from `st`:
/// jobs whose duration for the stage is zero are omitted entirely.
pub open spec fn sched1_from(
    jobs: Seq<Job>,
    i: int,
    process: ProcessType,
    line: int,
    st: BuildState,
) -> Seq<ItemView>
    decreases jobs.len() - i,
{
    if i < 0 || i >= jobs.len() {
        Seq::empty()
    } else if jobs[i].minutes(process) == 0 {
        sched1_from(jobs, i + 1, process, line, st)
    } else {
        seq![item_of(jobs[i], i, process, line, st)] + sched1_from(
            jobs,
            i + 1,
            process,
            line,
            step_state(jobs[i], process, st),
        )
    }
}

/// The single-stage schedule of an ordering: one item per job that needs
/// the stage, laid out back to back from the plan start.
pub open spec fn sched1_spec(
    jobs: Seq<Job>,
    start: int,
    process: ProcessType,
    line: int,
) -> Seq<ItemView> {
    sched1_from(jobs, 0, process, line, init_state(start))
}

/// How many of the jobs need the stage at all.
pub open spec fn count_scheduled(jobs: Seq<Job>, process: ProcessType) -> int {
    jobs.filter(|j: Job| j.minutes(process) != 0).len() as int
}

/// Within one shift the position counter increases by one per item, and
/// resets to one the first time an item's shift identifier differs from
/// the previous item's; the first item continues the counter the build
/// state carries.
pub open spec fn shift_counting(s: Seq<ItemView>, st: BuildState) -> bool {
    &&& (s.len() > 0 ==> s[0].seq_in_shift == (if s[0].shift_id == st.last_shift {
        st.sis + 1
    } else {
        1
    }))
    &&& forall|k: int|
        1 <= k < s.len() ==> (#[trigger] s[k]).seq_in_shift == (if s[k].shift_id == s[k
            - 1].shift_id {
            s[k - 1].seq_in_shift + 1
        } else {
            1
        })
}

/// No shift label is the empty string: every label carries a day or
/// night tag.
proof fn lemma_shift_label_nonempty()
    ensures
        forall|t: int| (#[trigger] shift_label(t)).len() > 0,
{
    reveal_strlit("_DAY");
    reveal_strlit("_NIGHT");
}

/// A serial schedule: each item starts exactly where the previous one
/// ends, its span is its stage duration, and its tardiness follows the
/// floored-minutes rule.
pub open spec fn serial_from(s: Seq<ItemView>, t0: int) -> bool {
    &&& (s.len() > 0 ==> s[0].start == t0)
    &&& forall|k: int| 1 <= k < s.len() ==> (#[trigger] s[k]).start == s[k - 1].end
    &&& forall|k: int|
        0 <= k < s.len() ==> {
            &&& (#[trigger] s[k]).end >= s[k].start
            &&& s[k].tardiness == tardiness_of(s[k].end, s[k].due)
            &&& s[k].tardiness >= 0
        }
}

proof fn lemma_sched1_props(
    jobs: Seq<Job>,
    i: int,
    process: ProcessType,
    line: int,
    st: BuildState,
)
    requires
        valid_jobs(jobs),
        0 <= i <= jobs.len(),
        -TS_MAX <= st.t <= TS_MAX + i * (DUR_MAX * MS_PER_MIN),
    ensures
        ({
            let s = sched1_from(jobs, i, process, line, st);
            &&& s.len() == count_scheduled(jobs.skip(i), process)
            &&& serial_from(s, st.t)
            &&& shift_counting(s, st)
            &&& forall|k: int|
                0 <= k < s.len() ==> {
                    &&& -TS_MAX <= (#[trigger] s[k]).start
                    &&& s[k].end <= TS_MAX + jobs.len() * (DUR_MAX * MS_PER_MIN)
                    &&& 0 <= s[k].tardiness <= TARD_CAP
                    &&& s[k].shift_id == shift_label(s[k].start)
                }
        }),
    decreases jobs.len() - i,
{
    reveal_with_fuel(Seq::filter, 2);
    if i == jobs.len() {
        assert(jobs.skip(i) =~= Seq::<Job>::empty());
    } else {
        assert(jobs.skip(i) =~= seq![jobs[i]] + jobs.skip(i + 1));
        assert(seq![jobs[i]].add(jobs.skip(i + 1)).drop_first() =~= jobs.skip(i + 1));
        assert(i * (DUR_MAX * MS_PER_MIN) <= (i + 1) * (DUR_MAX * MS_PER_MIN)) by (nonlinear_arith)
            requires
                i >= 0,
        ;
        if jobs[i].minutes(process) == 0 {
            lemma_sched1_props(jobs, i + 1, process, line, st);
        } else {
            let st2 = step_state(jobs[i], process, st);
            assert(st2.t <= TS_MAX + (i + 1) * (DUR_MAX * MS_PER_MIN)) by (nonlinear_arith)
                requires
                    st2.t == st.t + jobs[i].minutes(process) * (MS_PER_MIN as int),
                    st.t <= TS_MAX + i * (DUR_MAX * MS_PER_MIN),
                    0 <= jobs[i].minutes(process) <= DUR_MAX,
            ;
            lemma_sched1_props(jobs, i + 1, process, line, st2);
            let it = item_of(jobs[i], i, process, line, st);
            assert(it.end <= TS_MAX + jobs.len() * (DUR_MAX * MS_PER_MIN)) by (nonlinear_arith)
                requires
                    it.end == st.t + jobs[i].minutes(process) * (MS_PER_MIN as int),
                    st.t <= TS_MAX + i * (DUR_MAX * MS_PER_MIN),
                    0 <= jobs[i].minutes(process) <= DUR_MAX,
                    i < jobs.len() <= JOBS_MAX,
            ;
            assert(it.tardiness <= TARD_CAP) by {
                assert(jobs.len() * (DUR_MAX * MS_PER_MIN) <= JOBS_MAX * (DUR_MAX
                    * MS_PER_MIN)) by (nonlinear_arith)
                    requires
                        jobs.len() <= JOBS_MAX,
                ;
                if it.end >= it.due {
                    vstd::arithmetic::div_mod::lemma_div_is_ordered(
                        it.end - it.due,
                        (TS_MAX + JOBS_MAX * (DUR_MAX * MS_PER_MIN)) + TS_MAX,
                        MS_PER_MIN as int,
                    );
                }
            }
        }
    }
}

/// Builds the schedule of one stage over the ordering: items back to back
/// from the plan start, jobs that skip the stage omitted.
pub fn build_schedule_for_process(
    order: &Vec<Job>,
    plan_start_epoch_ms: i64,
    process: ProcessType,
    line_id: i64,
) -> (r: Vec<ScheduleItem>)
    requires
        valid_jobs(order@),
        -TS_MAX <= plan_start_epoch_ms <= TS_MAX,
    ensures
        schedule_view(r@) == sched1_spec(order@, plan_start_epoch_ms as int, process, line_id as int),
        r@.len() == count_scheduled(order@, process),
        serial_from(schedule_view(r@), plan_start_epoch_ms as int),
        shift_counting(schedule_view(r@), init_state(plan_start_epoch_ms as int)),
        r@.len() > 0 ==> schedule_view(r@)[0].seq_in_shift == 1,
        wf_schedule(schedule_view(r@)),
{
    let ghost init = init_state(plan_start_epoch_ms as int);
    let mut schedule: Vec<ScheduleItem> = Vec::new();
    let mut current_time: i64 = plan_start_epoch_ms;
    let mut seq_in_shift: i32 = 0;
    let mut last_shift_id: String = String::new();
    let mut idx: usize = 0;
    proof {
        lemma_sched1_props(order@, 0, process, line_id as int, init);
    }
    while idx < order.len()
        invariant
            valid_jobs(order@),
            -TS_MAX <= plan_start_epoch_ms <= TS_MAX,
            0 <= idx <= order@.len(),
            -TS_MAX <= current_time <= TS_MAX + idx * (DUR_MAX * MS_PER_MIN),
            schedule@.len() <= idx,
            0 <= seq_in_shift <= schedule@.len(),
            schedule_view(schedule@) + sched1_from(
                order@,
                idx as int,
                process,
                line_id as int,
                BuildState { t: current_time as int, last_shift: last_shift_id@, sis: seq_in_shift as int },
            ) =~= sched1_spec(order@, plan_start_epoch_ms as int, process, line_id as int),
        decreases order@.len() - idx,
    {
        let ghost st = BuildState {
            t: current_time as int,
            last_shift: last_shift_id@,
            sis: seq_in_shift as int,
        };
        let job = &order[idx];
        let work_minutes = job.get_process_minutes(process);
        if work_minutes != 0 {
            assert(order@[idx as int].valid());
            assert(current_time + work_minutes * MS_PER_MIN <= TS_MAX + (idx + 1) * (DUR_MAX
                * MS_PER_MIN) <= TS_MAX + JOBS_MAX * (DUR_MAX * MS_PER_MIN)
                && current_time + work_minutes * MS_PER_MIN >= -TS_MAX) by (nonlinear_arith)
                requires
                    0 <= work_minutes <= DUR_MAX,
                    -TS_MAX <= current_time <= TS_MAX + idx * (DUR_MAX * MS_PER_MIN),
                    idx < order@.len() <= JOBS_MAX,
            ;
            let start_epoch_ms = current_time;
            let end_epoch_ms = start_epoch_ms + (work_minutes as i64) * MS_PER_MIN;
            let tardiness_min = tardiness_calc(end_epoch_ms, job.due_epoch_ms);
            let shift = shift_id(start_epoch_ms);
            if !(shift == last_shift_id) {
                seq_in_shift = 0;
                last_shift_id = shift.clone();
            }
            seq_in_shift = seq_in_shift + 1;
            let item = ScheduleItem {
                seq: (idx + 1) as i32,
                vin: job.vin.clone(),
                process_type: process.as_i32(),
                line_id,
                start_epoch_ms,
                end_epoch_ms,
                due_epoch_ms: job.due_epoch_ms,
                tardiness_min,
                color: job.color.clone(),
                config: job.config.clone(),
                shift_id: shift,
                seq_in_shift,
            };
            assert(item@ =~= item_of(order@[idx as int], idx as int, process, line_id as int, st));
            schedule.push(item);
            current_time = end_epoch_ms;
            proof {
                let st2 = BuildState {
                    t: current_time as int,
                    last_shift: last_shift_id@,
                    sis: seq_in_shift as int,
                };
                assert(st2 =~= step_state(order@[idx as int], process, st));
                assert(schedule_view(schedule@) =~= schedule_view(schedule@.drop_last()) + seq![
                    item@,
                ]);
            }
        }
        assert(idx * (DUR_MAX * MS_PER_MIN) <= (idx + 1) * (DUR_MAX * MS_PER_MIN))
            by (nonlinear_arith)
            requires
                idx >= 0,
        ;
        idx = idx + 1;
    }
    proof {
        assert(sched1_from(
            order@,
            order@.len() as int,
            process,
            line_id as int,
            BuildState {
                t: current_time as int,
                last_shift: last_shift_id@,
                sis: seq_in_shift as int,
            },
        ) =~= Seq::<ItemView>::empty());
        assert(schedule_view(schedule@) =~= sched1_spec(
            order@,
            plan_start_epoch_ms as int,
            process,
            line_id as int,
        ));
        lemma_sched1_props(order@, 0, process, line_id as int, init);
        assert(order@.skip(0) =~= order@);
        lemma_shift_label_nonempty();
        if schedule_view(schedule@).len() > 0 {
            assert(schedule_view(schedule@)[0].shift_id != init.last_shift);
        }
    }
    schedule
}

// ========== Full four-stage build ==========

/// One stage of one job: an item if the job needs the stage, else nothing.
pub open spec fn stage_step(
    job: Job,
    pos: int,
    process: ProcessType,
    st: BuildState,
) -> (Seq<ItemView>, BuildState) {
    if job.minutes(process) > 0 {
        (seq![item_of(job, pos, process, 0, st)], step_state(job, process, st))
    } else {
        (Seq::empty(), st)
    }
}

/// All four stages of one job, chained back to back in stage order.
pub open spec fn job_items(job: Job, pos: int, st: BuildState) -> (Seq<ItemView>, BuildState) {
    let r1 = stage_step(job, pos, ProcessType::Stamping, st);
    let r2 = stage_step(job, pos, ProcessType::Welding, r1.1);
    let r3 = stage_step(job, pos, ProcessType::Painting, r2.1);
    let r4 = stage_step(job, pos, ProcessType::Assembly, r3.1);
    (r1.0 + r2.0 + r3.0 + r4.0, r4.1)
}

/// The four-stage schedule of `jobs[i..]`: a job's next stage begins when
/// its previous stage ends, and the next job begins only after the previous
/// job's last scheduled stage ends.
pub open spec fn sched4_from(jobs: Seq<Job>, i: int, st: BuildState) -> Seq<ItemView>
    decreases jobs.len() - i,
{
    if i < 0 || i >= jobs.len() {
        Seq::empty()
    } else {
        job_items(jobs[i], i, st).0 + sched4_from(jobs, i + 1, job_items(jobs[i], i, st).1)
    }
}

pub open spec fn sched4_spec(jobs: Seq<Job>, start: int) -> Seq<ItemView> {
    sched4_from(jobs, 0, init_state(start))
}

/// How many stages of the job have nonzero duration.
pub open spec fn num_stages(job: Job) -> int {
    (if job.stamping_minutes > 0 {
        1int
    } else {
        0
    }) + (if job.welding_minutes > 0 {
        1int
    } else {
        0
    }) + (if job.painting_minutes > 0 {
        1int
    } else {
        0
    }) + (if job.assemble_minutes > 0 {
        1int
    } else {
        0
    })
}

pub open spec fn total_stages_from(jobs: Seq<Job>, i: int) -> int
    decreases jobs.len() - i,
{
    if i < 0 || i >= jobs.len() {
        0
    } else {
        num_stages(jobs[i]) + total_stages_from(jobs, i + 1)
    }
}

proof fn lemma_counting_concat(a: Seq<ItemView>, b: Seq<ItemView>, st: BuildState, st2: BuildState)
    requires
        shift_counting(a, st),
        shift_counting(b, st2),
        a.len() > 0 ==> st2.last_shift == a.last().shift_id && st2.sis == a.last().seq_in_shift,
        a.len() == 0 ==> st2 == st,
    ensures
        shift_counting(a + b, st),
{
    let s = a + b;
    assert forall|k: int| 1 <= k < s.len() implies (#[trigger] s[k]).seq_in_shift == (if s[k].shift_id
        == s[k - 1].shift_id {
        s[k - 1].seq_in_shift + 1
    } else {
        1
    }) by {
        if k < a.len() {
        } else if k == a.len() {
            assert(b.len() > 0 && s[k] == b[0]);
            if a.len() > 0 {
                assert(s[k - 1] == a.last());
            }
        } else {
            assert(s[k] == b[k - a.len()] && s[k - 1] == b[k - a.len() - 1]);
        }
    }
}

proof fn lemma_serial_concat(a: Seq<ItemView>, b: Seq<ItemView>, t0: int, t1: int)
    requires
        serial_from(a, t0),
        serial_from(b, t1),
        a.len() > 0 ==> t1 == a.last().end,
        a.len() == 0 ==> t1 == t0,
    ensures
        serial_from(a + b, t0),
{
    let s = a + b;
    assert forall|k: int| 1 <= k < s.len() implies (#[trigger] s[k]).start == s[k - 1].end by {
        if k < a.len() {
        } else if k == a.len() {
            assert(b.len() > 0 && s[k] == b[0]);
        } else {
            assert(s[k] == b[k - a.len()] && s[k - 1] == b[k - a.len() - 1]);
        }
    }
}

/// What one job's segment looks like: one item per nonzero stage, in stage
/// order, chained from `st.t`, with the final state at the last end.
proof fn lemma_job_items(job: Job, pos: int, st: BuildState)
    requires
        job.valid(),
    ensures
        ({
            let r = job_items(job, pos, st);
            &&& r.0.len() == num_stages(job)
            &&& serial_from(r.0, st.t)
            &&& st.t <= r.1.t <= st.t + 4 * (DUR_MAX * MS_PER_MIN)
            &&& (r.0.len() > 0 ==> r.1.t == r.0.last().end)
            &&& (r.0.len() > 0 ==> r.1.last_shift == r.0.last().shift_id && r.1.sis
                == r.0.last().seq_in_shift)
            &&& (r.0.len() == 0 ==> r.1 == st)
            &&& shift_counting(r.0, st)
            &&& forall|k: int| 0 <= k < r.0.len() ==> (#[trigger] r.0[k]).seq == pos + 1
            &&& forall|k: int|
                1 <= k < r.0.len() ==> (#[trigger] r.0[k]).process_type > r.0[k - 1].process_type
            &&& forall|k: int|
                0 <= k < r.0.len() ==> st.t <= (#[trigger] r.0[k]).start && r.0[k].end <= r.1.t
                    && r.0[k].shift_id == shift_label(r.0[k].start)
        }),
{
    assert(job.stamping_minutes * (MS_PER_MIN as int) <= DUR_MAX * MS_PER_MIN
        && job.welding_minutes * (MS_PER_MIN as int) <= DUR_MAX * MS_PER_MIN
        && job.painting_minutes * (MS_PER_MIN as int) <= DUR_MAX * MS_PER_MIN
        && job.assemble_minutes * (MS_PER_MIN as int) <= DUR_MAX * MS_PER_MIN
        && job.stamping_minutes * (MS_PER_MIN as int) >= 0
        && job.welding_minutes * (MS_PER_MIN as int) >= 0
        && job.painting_minutes * (MS_PER_MIN as int) >= 0
        && job.assemble_minutes * (MS_PER_MIN as int) >= 0) by (nonlinear_arith)
        requires
            job.valid(),
    ;
}

#[verifier::rlimit(100)]
proof fn lemma_sched4_props(jobs: Seq<Job>, i: int, st: BuildState)
    requires
        valid_jobs(jobs),
        0 <= i <= jobs.len(),
        -TS_MAX <= st.t <= TS_MAX + i * (4 * (DUR_MAX * MS_PER_MIN)),
    ensures
        ({
            let s = sched4_from(jobs, i, st);
            &&& s.len() == total_stages_from(jobs, i)
            &&& serial_from(s, st.t)
            &&& shift_counting(s, st)
            &&& forall|k: int|
                0 <= k < s.len() ==> {
                    &&& i + 1 <= (#[trigger] s[k]).seq <= jobs.len()
                    &&& -TS_MAX <= s[k].start
                    &&& s[k].end <= TS_MAX + jobs.len() * (4 * (DUR_MAX * MS_PER_MIN))
                    &&& 0 <= s[k].tardiness <= TARD_CAP
                    &&& s[k].shift_id == shift_label(s[k].start)
                }
            &&& forall|k: int|
                1 <= k < s.len() ==> {
                    &&& (#[trigger] s[k]).seq >= s[k - 1].seq
                    &&& (s[k].seq == s[k - 1].seq ==> s[k].process_type > s[k - 1].process_type)
                }
        }),
    decreases jobs.len() - i,
{
    if i < jobs.len() {
        let r = job_items(jobs[i], i, st);
        lemma_job_items(jobs[i], i, st);
        assert(st.t + 4 * (DUR_MAX * MS_PER_MIN) <= TS_MAX + (i + 1) * (4 * (DUR_MAX
            * MS_PER_MIN))) by (nonlinear_arith)
            requires
                st.t <= TS_MAX + i * (4 * (DUR_MAX * MS_PER_MIN)),
                i >= 0,
        ;
        lemma_sched4_props(jobs, i + 1, r.1);
        lemma_serial_concat(r.0, sched4_from(jobs, i + 1, r.1), st.t, r.1.t);
        lemma_counting_concat(r.0, sched4_from(jobs, i + 1, r.1), st, r.1);
        let s = sched4_from(jobs, i, st);
        assert((i + 1) * (4 * (DUR_MAX * MS_PER_MIN)) <= jobs.len() * (4 * (DUR_MAX * MS_PER_MIN))
            && jobs.len() * (4 * (DUR_MAX * MS_PER_MIN)) <= JOBS_MAX * (4 * (DUR_MAX
            * MS_PER_MIN))) by (nonlinear_arith)
            requires
                i + 1 <= jobs.len() <= JOBS_MAX,
        ;
        assert forall|k: int| 0 <= k < s.len() implies 0 <= (#[trigger] s[k]).tardiness
            <= TARD_CAP by {
            if k < r.0.len() {
                assert(s[k] == r.0[k]);
                assert(s[k].tardiness == tardiness_of(s[k].end, s[k].due));
                if s[k].end >= s[k].due {
                    vstd::arithmetic::div_mod::lemma_div_is_ordered(
                        s[k].end - s[k].due,
                        9 * TS_MAX,
                        MS_PER_MIN as int,
                    );
                    vstd::arithmetic::div_mod::lemma_div_pos_is_pos(
                        s[k].end - s[k].due,
                        MS_PER_MIN as int,
                    );
                }
            } else {
                assert(s[k] == sched4_from(jobs, i + 1, r.1)[k - r.0.len()]);
            }
        }
    }
}

proof fn lemma_filter_all(s: Seq<ItemView>, pred: spec_fn(ItemView) -> bool)
    requires
        forall|k: int| 0 <= k < s.len() ==> pred(#[trigger] s[k]),
    ensures
        s.filter(pred) =~= s,
    decreases s.len(),
{
    reveal(Seq::filter);
    if s.len() > 0 {
        lemma_filter_all(s.drop_last(), pred);
    }
}

proof fn lemma_filter_none(s: Seq<ItemView>, pred: spec_fn(ItemView) -> bool)
    requires
        forall|k: int| 0 <= k < s.len() ==> !pred(#[trigger] s[k]),
    ensures
        s.filter(pred) =~= Seq::<ItemView>::empty(),
    decreases s.len(),
{
    reveal(Seq::filter);
    if s.len() > 0 {
        lemma_filter_none(s.drop_last(), pred);
    }
}

/// Restricted to any one job, the four-stage schedule holds exactly that
/// job's nonzero stages.
proof fn lemma_sched4_count(jobs: Seq<Job>, i: int, st: BuildState, jv: int)
    requires
        valid_jobs(jobs),
        0 <= i <= jobs.len(),
        i <= jv < jobs.len(),
    ensures
        sched4_from(jobs, i, st).filter(|it: ItemView| it.seq == jv + 1).len() == num_stages(
            jobs[jv],
        ),
    decreases jobs.len() - i,
{
    let pred = |it: ItemView| it.seq == jv + 1;
    let r = job_items(jobs[i], i, st);
    let rest = sched4_from(jobs, i + 1, r.1);
    lemma_job_items(jobs[i], i, st);
    Seq::filter_distributes_over_add(r.0, rest, pred);
    if jv == i {
        lemma_filter_all(r.0, pred);
        lemma_filter_none_rest(jobs, i + 1, r.1, jv);
    } else {
        lemma_filter_none(r.0, pred);
        lemma_sched4_count(jobs, i + 1, r.1, jv);
    }
}

/// Items of jobs before position `i` never occur in the tail schedule.
proof fn lemma_filter_none_rest(jobs: Seq<Job>, i: int, st: BuildState, jv: int)
    requires
        valid_jobs(jobs),
        0 <= i <= jobs.len(),
        jv < i,
    ensures
        sched4_from(jobs, i, st).filter(|it: ItemView| it.seq == jv + 1).len() == 0,
    decreases jobs.len() - i,
{
    let pred = |it: ItemView| it.seq == jv + 1;
    if i >= jobs.len() {
        lemma_filter_none(sched4_from(jobs, i, st), pred);
    } else {
        let r = job_items(jobs[i], i, st);
        lemma_job_items(jobs[i], i, st);
        Seq::filter_distributes_over_add(r.0, sched4_from(jobs, i + 1, r.1), pred);
        lemma_filter_none(r.0, pred);
        lemma_filter_none_rest(jobs, i + 1, r.1, jv);
    }
}

/// Creates the item of one (job, stage) pair and advances the shift
/// bookkeeping the builders thread along.
fn create_schedule_item(
    seq: usize,
    job: &Job,
    process: ProcessType,
    start_epoch_ms: i64,
    duration_ms: i64,
    last_shift_id: &mut String,
    seq_in_shift: &mut i32,
) -> (r: ScheduleItem)
    requires
        job.valid(),
        duration_ms == job.minutes(process) * (MS_PER_MIN as int),
        -TS_MAX <= start_epoch_ms,
        start_epoch_ms + duration_ms <= 8 * TS_MAX,
        seq < JOBS_MAX,
        0 <= *old(seq_in_shift) < ITEMS_MAX as i32,
    ensures
        ({
            let st = BuildState {
                t: start_epoch_ms as int,
                last_shift: old(last_shift_id)@,
                sis: *old(seq_in_shift) as int,
            };
            &&& r@ == item_of(*job, seq as int, process, 0, st)
            &&& final(last_shift_id)@ == r@.shift_id
            &&& *final(seq_in_shift) == r@.seq_in_shift
        }),
{
    let end_epoch_ms = start_epoch_ms + duration_ms;
    let tardiness_min = tardiness_calc(end_epoch_ms, job.due_epoch_ms);
    let shift = shift_id(start_epoch_ms);
    if !(shift == *last_shift_id) {
        *seq_in_shift = 0;
        *last_shift_id = shift.clone();
    }
    *seq_in_shift = *seq_in_shift + 1;
    let r = ScheduleItem {
        seq: (seq + 1) as i32,
        vin: job.vin.clone(),
        process_type: process.as_i32(),
        line_id: 0,
        start_epoch_ms,
        end_epoch_ms,
        due_epoch_ms: job.due_epoch_ms,
        tardiness_min,
        color: job.color.clone(),
        config: job.config.clone(),
        shift_id: shift,
        seq_in_shift: *seq_in_shift,
    };
    proof {
        let st = BuildState {
            t: start_epoch_ms as int,
            last_shift: old(last_shift_id)@,
            sis: *old(seq_in_shift) as int,
        };
        assert(r@ =~= item_of(*job, seq as int, process, 0, st));
    }
    r
}

/// Builds the full four-stage schedule: for each job in order its nonzero
/// stages back to back, and the next job only after the previous job's
/// last scheduled stage ends — one shared serial resource.
#[verifier::rlimit(100)]
pub fn build_full_process_schedule(order: &Vec<Job>, plan_start_epoch_ms: i64) -> (r: Vec<
    ScheduleItem,
>)
    requires
        valid_jobs(order@),
        -TS_MAX <= plan_start_epoch_ms <= TS_MAX,
    ensures
        schedule_view(r@) == sched4_spec(order@, plan_start_epoch_ms as int),
        serial_from(schedule_view(r@), plan_start_epoch_ms as int),
        shift_counting(schedule_view(r@), init_state(plan_start_epoch_ms as int)),
        r@.len() > 0 ==> schedule_view(r@)[0].seq_in_shift == 1,
        wf_schedule(schedule_view(r@)),
        r@.len() == total_stages_from(order@, 0),
        forall|i: int|
            0 <= i < order@.len() ==> schedule_view(r@).filter(
                |it: ItemView| it.seq == i + 1,
            ).len() == num_stages(order@[i]),
        forall|k: int|
            1 <= k < r@.len() ==> {
                &&& (#[trigger] schedule_view(r@)[k]).seq >= schedule_view(r@)[k - 1].seq
                &&& (schedule_view(r@)[k].seq == schedule_view(r@)[k - 1].seq ==> schedule_view(
                    r@,
                )[k].process_type > schedule_view(r@)[k - 1].process_type)
            },
{
    let ghost init = init_state(plan_start_epoch_ms as int);
    let mut all_items: Vec<ScheduleItem> = Vec::new();
    let mut current_time: i64 = plan_start_epoch_ms;
    let mut last_shift_id: String = String::new();
    let mut seq_in_shift: i32 = 0;
    let mut idx: usize = 0;
    while idx < order.len()
        invariant
            valid_jobs(order@),
            -TS_MAX <= plan_start_epoch_ms <= TS_MAX,
            0 <= idx <= order@.len(),
            -TS_MAX <= current_time <= TS_MAX + idx * (4 * (DUR_MAX * MS_PER_MIN)),
            all_items@.len() <= 4 * idx,
            0 <= seq_in_shift <= all_items@.len(),
            schedule_view(all_items@) + sched4_from(
                order@,
                idx as int,
                BuildState {
                    t: current_time as int,
                    last_shift: last_shift_id@,
                    sis: seq_in_shift as int,
                },
            ) =~= sched4_spec(order@, plan_start_epoch_ms as int),
        decreases order@.len() - idx,
    {
        let ghost st0 = BuildState {
            t: current_time as int,
            last_shift: last_shift_id@,
            sis: seq_in_shift as int,
        };
        let job = &order[idx];
        assert(current_time + 4 * (DUR_MAX * MS_PER_MIN) <= TS_MAX + (idx + 1) * (4 * (DUR_MAX
            * MS_PER_MIN)) <= TS_MAX + JOBS_MAX * (4 * (DUR_MAX * MS_PER_MIN))
            && job.stamping_minutes * MS_PER_MIN <= DUR_MAX * MS_PER_MIN
            && job.welding_minutes * MS_PER_MIN <= DUR_MAX * MS_PER_MIN
            && job.painting_minutes * MS_PER_MIN <= DUR_MAX * MS_PER_MIN
            && job.assemble_minutes * MS_PER_MIN <= DUR_MAX * MS_PER_MIN) by (nonlinear_arith)
            requires
                -TS_MAX <= current_time <= TS_MAX + idx * (4 * (DUR_MAX * MS_PER_MIN)),
                idx < order@.len() <= JOBS_MAX,
                job == order@[idx as int],
                job.valid(),
        ;
        let ghost seg = job_items(order@[idx as int], idx as int, st0).0;
        let ghost st_end = job_items(order@[idx as int], idx as int, st0).1;
        let mut process_start = current_time;

        let ghost st1 = stage_step(order@[idx as int], idx as int, ProcessType::Stamping, st0).1;
        if job.stamping_minutes > 0 {
            let duration = (job.stamping_minutes as i64) * MS_PER_MIN;
            let item = create_schedule_item(
                idx,
                job,
                ProcessType::Stamping,
                process_start,
                duration,
                &mut last_shift_id,
                &mut seq_in_shift,
            );
            all_items.push(item);
            process_start = process_start + duration;
        }
        assert(process_start as int == st1.t && last_shift_id@ == st1.last_shift && seq_in_shift
            as int == st1.sis);

        let ghost st2 = stage_step(order@[idx as int], idx as int, ProcessType::Welding, st1).1;
        if job.welding_minutes > 0 {
            let duration = (job.welding_minutes as i64) * MS_PER_MIN;
            let item = create_schedule_item(
                idx,
                job,
                ProcessType::Welding,
                process_start,
                duration,
                &mut last_shift_id,
                &mut seq_in_shift,
            );
            all_items.push(item);
            process_start = process_start + duration;
        }
        assert(process_start as int == st2.t && last_shift_id@ == st2.last_shift && seq_in_shift
            as int == st2.sis);

        let ghost st3 = stage_step(order@[idx as int], idx as int, ProcessType::Painting, st2).1;
        if job.painting_minutes > 0 {
            let duration = (job.painting_minutes as i64) * MS_PER_MIN;
            let item = create_schedule_item(
                idx,
                job,
                ProcessType::Painting,
                process_start,
                duration,
                &mut last_shift_id,
                &mut seq_in_shift,
            );
            all_items.push(item);
            process_start = process_start + duration;
        }
        assert(process_start as int == st3.t && last_shift_id@ == st3.last_shift && seq_in_shift
            as int == st3.sis);

        let ghost st4 = stage_step(order@[idx as int], idx as int, ProcessType::Assembly, st3).1;
        if job.assemble_minutes > 0 {
            let duration = (job.assemble_minutes as i64) * MS_PER_MIN;
            let item = create_schedule_item(
                idx,
                job,
                ProcessType::Assembly,
                process_start,
                duration,
                &mut last_shift_id,
                &mut seq_in_shift,
            );
            all_items.push(item);
            process_start = process_start + duration;
        }
        assert(process_start as int == st4.t && last_shift_id@ == st4.last_shift && seq_in_shift
            as int == st4.sis);
        assert(st4 == st_end);

        current_time = process_start;
        idx = idx + 1;
    }
    proof {
        assert(sched4_from(
            order@,
            order@.len() as int,
            BuildState {
                t: current_time as int,
                last_shift: last_shift_id@,
                sis: seq_in_shift as int,
            },
        ) =~= Seq::<ItemView>::empty());
        assert(schedule_view(all_items@) =~= sched4_spec(order@, plan_start_epoch_ms as int));
        lemma_sched4_props(order@, 0, init);
        lemma_shift_label_nonempty();
        if schedule_view(all_items@).len() > 0 {
            assert(schedule_view(all_items@)[0].shift_id != init.last_shift);
        }
        assert forall|i: int| 0 <= i < order@.len() implies schedule_view(all_items@).filter(
            |it: ItemView| it.seq == i + 1,
        ).len() == num_stages(order@[i]) by {
            lemma_sched4_count(order@, 0, init, i);
        }
    }
    all_items
}

/// Builds the legacy single-stage schedule: the final-assembly stage on an
/// unassigned line.
pub fn build_schedule(order: &Vec<Job>, plan_start_epoch_ms: i64) -> (r: Vec<ScheduleItem>)
    requires
        valid_jobs(order@),
        -TS_MAX <= plan_start_epoch_ms <= TS_MAX,
    ensures
        schedule_view(r@) == sched1_spec(
            order@,
            plan_start_epoch_ms as int,
            ProcessType::Assembly,
            0,
        ),
        r@.len() == count_scheduled(order@, ProcessType::Assembly),
        serial_from(schedule_view(r@), plan_start_epoch_ms as int),
        shift_counting(schedule_view(r@), init_state(plan_start_epoch_ms as int)),
        r@.len() > 0 ==> schedule_view(r@)[0].seq_in_shift == 1,
        wf_schedule(schedule_view(r@)),
{
    build_schedule_for_process(order, plan_start_epoch_ms, ProcessType::Assembly, 0)
}

// ========== Aggregate metrics ==========

/// Sum of all items' tardiness, in minutes.
pub open spec fn total_tardiness(s: Seq<ItemView>) -> int
    decreases s.len(),
{
    if s.len() == 0 {
        0
    } else {
        total_tardiness(s.drop_last()) + s.last().tardiness
    }
}

/// Largest single item tardiness, zero for an empty schedule.
pub open spec fn max_tardiness(s: Seq<ItemView>) -> int
    decreases s.len(),
{
    if s.len() == 0 {
        0
    } else if s.last().tardiness >= max_tardiness(s.drop_last()) {
        s.last().tardiness
    } else {
        max_tardiness(s.drop_last())
    }
}

/// How many adjacent pairs of items differ in color.
pub open spec fn color_changes(s: Seq<ItemView>) -> int
    decreases s.len(),
{
    if s.len() <= 1 {
        0
    } else {
        color_changes(s.drop_last()) + if s.last().color != s[s.len() - 2].color {
            1int
        } else {
            0
        }
    }
}

/// How many adjacent pairs of items differ in configuration.
pub open spec fn config_changes(s: Seq<ItemView>) -> int
    decreases s.len(),
{
    if s.len() <= 1 {
        0
    } else {
        config_changes(s.drop_last()) + if s.last().config != s[s.len() - 2].config {
            1int
        } else {
            0
        }
    }
}

/// Aggregates a schedule: total and maximum tardiness, and the counts of
/// color and configuration changes between adjacent items.
pub fn summarize(schedule: &Vec<ScheduleItem>) -> (r: (i64, i64, i32, i32))
    requires
        wf_schedule(schedule_view(schedule@)),
    ensures
        ({
            let s = schedule_view(schedule@);
            &&& r.0 == total_tardiness(s)
            &&& r.1 == max_tardiness(s)
            &&& r.2 == color_changes(s)
            &&& r.3 == config_changes(s)
            &&& 0 <= r.0 <= ITEMS_MAX * TARD_CAP
            &&& 0 <= r.1 <= TARD_CAP
            &&& 0 <= r.2 <= ITEMS_MAX
            &&& 0 <= r.3 <= ITEMS_MAX
        }),
{
    let ghost s = schedule_view(schedule@);
    let mut total: i64 = 0;
    let mut max_t: i64 = 0;
    let mut colors: i32 = 0;
    let mut configs: i32 = 0;
    let mut i: usize = 0;
    while i < schedule.len()
        invariant
            wf_schedule(schedule_view(schedule@)),
            s == schedule_view(schedule@),
            0 <= i <= s.len(),
            total == total_tardiness(s.take(i as int)),
            max_t == max_tardiness(s.take(i as int)),
            colors == color_changes(s.take(i as int)),
            configs == config_changes(s.take(i as int)),
            0 <= total <= i * TARD_CAP,
            0 <= max_t <= TARD_CAP,
            0 <= colors <= i,
            0 <= configs <= i,
        decreases s.len() - i,
    {
        proof {
            assert(s.take(i + 1).drop_last() =~= s.take(i as int));
            assert(s.take(i + 1).last() == s[i as int]);
            assert((i + 1) * TARD_CAP == i * TARD_CAP + TARD_CAP) by (nonlinear_arith);
        }
        let item = &schedule[i];
        total = total + item.tardiness_min;
        if item.tardiness_min > max_t {
            max_t = item.tardiness_min;
        }
        if i >= 1 {
            let prev = &schedule[i - 1];
            assert(prev@ == s.take(i + 1)[i - 1]);
            if !(item.color == prev.color) {
                colors = colors + 1;
            }
            if !(item.config == prev.config) {
                configs = configs + 1;
            }
        }
        i = i + 1;
    }
    proof {
        assert(s.take(s.len() as int) =~= s);
    }
    (total, max_t, colors, configs)
}

// ========== Cost ==========

/// The weighted cost, in millionths: weights are in thousandths, the
/// tardiness and change counts are plain, the excesses and the shortage in
/// thousandths.
pub open spec fn cost_of(
    w: crate::model::Weights,
    total_tardiness_min: int,
    color_changes: int,
    config_changes: int,
    energy_excess: int,
    emission_excess: int,
    material_shortage: int,
) -> int {
    1000 * (w.tardiness * total_tardiness_min + w.color_change * color_changes + w.config_change
        * config_changes) + w.energy_excess * energy_excess + w.emission_excess * emission_excess
        + w.material_shortage * material_shortage
}

/// The cost a summary's components amount to under the given weights.
pub fn calc_cost(summary: &crate::model::KpiSummary, weights: &crate::model::Weights) -> (r: u128)
    requires
        weights.valid(),
        summary.total_tardiness_min >= 0,
        summary.color_changes >= 0,
        summary.config_changes >= 0,
    ensures
        r == cost_of(
            *weights,
            summary.total_tardiness_min as int,
            summary.color_changes as int,
            summary.config_changes as int,
            summary.energy_excess as int,
            summary.emission_excess as int,
            summary.material_shortage as int,
        ),
{
    proof {
        let w = *weights;
        assert(w.tardiness * summary.total_tardiness_min < 0x800000000000000000000000
            && w.color_change * summary.color_changes < 0x800000000000000000000000
            && w.config_change * summary.config_changes < 0x800000000000000000000000
            && w.energy_excess * summary.energy_excess < 0x800000000000000000000000
            && w.emission_excess * summary.emission_excess < 0x800000000000000000000000
            && w.material_shortage * summary.material_shortage < 0x800000000000000000000000
            && w.tardiness * summary.total_tardiness_min >= 0
            && w.color_change * summary.color_changes >= 0
            && w.config_change * summary.config_changes >= 0
            && w.energy_excess * summary.energy_excess >= 0
            && w.emission_excess * summary.emission_excess >= 0
            && w.material_shortage * summary.material_shortage >= 0) by (nonlinear_arith)
            requires
                w.valid(),
                summary.total_tardiness_min >= 0,
                summary.color_changes >= 0,
                summary.config_changes >= 0,
        ;
    }
    1000 * ((weights.tardiness as u128) * (summary.total_tardiness_min as u128)
        + (weights.color_change as u128) * (summary.color_changes as u128)
        + (weights.config_change as u128) * (summary.config_changes as u128)) + (
    weights.energy_excess as u128) * (summary.energy_excess as u128) + (weights.emission_excess
        as u128) * (summary.emission_excess as u128) + (weights.material_shortage as u128) * (
    summary.material_shortage as u128)
}

// ========== Per-shift metrics ==========

/// One shift's aggregated energy and emission, in thousandths.
#[derive(Debug)]
pub struct ShiftMetric {
    pub shift_id: String,
    pub energy: u64,
    pub emission: u64,
}

/// The mathematical content of a shift's aggregate.
#[verifier::ext_equal]
pub ghost struct MetricView {
    pub shift_id: Seq<char>,
    pub energy: int,
    pub emission: int,
}

impl View for ShiftMetric {
    type V = MetricView;

    open spec fn view(&self) -> MetricView {
        MetricView {
            shift_id: self.shift_id@,
            energy: self.energy as int,
            emission: self.emission as int,
        }
    }
}

pub open spec fn metrics_view(v: Seq<ShiftMetric>) -> Seq<MetricView> {
    v.map_values(|m: ShiftMetric| m@)
}

/// Index of the first job with the given identifier, or -1.
pub open spec fn find_job_idx(jobs: Seq<Job>, vin: Seq<char>, i: int) -> int
    decreases jobs.len() - i,
{
    if i < 0 || i >= jobs.len() {
        -1
    } else if jobs[i].vin@ == vin {
        i
    } else {
        find_job_idx(jobs, vin, i + 1)
    }
}

/// Index of the bucket of the given shift, or -1.
pub open spec fn bucket_idx(bs: Seq<MetricView>, key: Seq<char>, i: int) -> int
    decreases bs.len() - i,
{
    if i < 0 || i >= bs.len() {
        -1
    } else if bs[i].shift_id == key {
        i
    } else {
        bucket_idx(bs, key, i + 1)
    }
}

/// Adds one item's scores to its shift's bucket, opening the bucket if the
/// shift has none yet.
pub open spec fn add_scores(bs: Seq<MetricView>, key: Seq<char>, energy: int, emission: int) -> Seq<
    MetricView,
> {
    let k = bucket_idx(bs, key, 0);
    if k < 0 {
        bs.push(MetricView { shift_id: key, energy: energy, emission: emission })
    } else {
        bs.update(
            k,
            MetricView {
                shift_id: bs[k].shift_id,
                energy: bs[k].energy + energy,
                emission: bs[k].emission + emission,
            },
        )
    }
}

/// Whether the item at position `i` is its job's first appearance in its
/// shift: no earlier item carries the same identifier and the same shift.
pub open spec fn first_in_shift(items: Seq<ItemView>, i: int) -> bool {
    forall|j: int|
        0 <= j < i ==> !((#[trigger] items[j]).vin == items[i].vin && items[j].shift_id
            == items[i].shift_id)
}

/// Buckets after folding in the items from position `i` on: a job's scores
/// go to the bucket of every shift an item of it falls in, once per shift —
/// further items of the same job in the same shift add nothing, and items
/// whose identifier matches no job add nothing.
#[verifier::opaque]
pub open spec fn metrics_from(
    items: Seq<ItemView>,
    jobs: Seq<Job>,
    i: int,
    bs: Seq<MetricView>,
) -> Seq<MetricView>
    decreases items.len() - i,
{
    if i < 0 || i >= items.len() {
        bs
    } else {
        let k = find_job_idx(jobs, items[i].vin, 0);
        let bs2 = if k < 0 || !first_in_shift(items, i) {
            bs
        } else {
            add_scores(bs, items[i].shift_id, jobs[k].energy_score as int, jobs[k].emission_score as int)
        };
        metrics_from(items, jobs, i + 1, bs2)
    }
}

pub open spec fn shift_metrics_spec(items: Seq<ItemView>, jobs: Seq<Job>) -> Seq<MetricView> {
    metrics_from(items, jobs, 0, Seq::empty())
}

/// Total energy over all buckets, in thousandths.
pub open spec fn sum_energy(bs: Seq<MetricView>) -> int
    decreases bs.len(),
{
    if bs.len() == 0 {
        0
    } else {
        sum_energy(bs.drop_last()) + bs.last().energy
    }
}

pub open spec fn sum_emission(bs: Seq<MetricView>) -> int
    decreases bs.len(),
{
    if bs.len() == 0 {
        0
    } else {
        sum_emission(bs.drop_last()) + bs.last().emission
    }
}

/// Buckets an aggregation can produce: scores are non-negative and the
/// totals are bounded by what the items can contribute.
pub open spec fn wf_metrics(bs: Seq<MetricView>, contributions: int) -> bool {
    &&& bs.len() <= contributions
    &&& sum_energy(bs) <= contributions * SCORE_MAX
    &&& sum_emission(bs) <= contributions * SCORE_MAX
    &&& forall|k: int|
        0 <= k < bs.len() ==> (#[trigger] bs[k]).energy >= 0 && bs[k].emission >= 0
}

proof fn lemma_add_scores_wf(bs: Seq<MetricView>, key: Seq<char>, e: int, m: int, c: int)
    requires
        wf_metrics(bs, c),
        0 <= e <= SCORE_MAX,
        0 <= m <= SCORE_MAX,
        c >= 0,
    ensures
        wf_metrics(add_scores(bs, key, e, m), c + 1),
{
    let k = bucket_idx(bs, key, 0);
    let bs2 = add_scores(bs, key, e, m);
    assert((c + 1) * SCORE_MAX == c * SCORE_MAX + SCORE_MAX) by (nonlinear_arith);
    if k < 0 {
        assert(bs2.drop_last() =~= bs);
    } else {
        lemma_bucket_idx_in_range(bs, key, 0);
        lemma_sum_update(bs, k, e, m);
    }
}

proof fn lemma_bucket_idx_in_range(bs: Seq<MetricView>, key: Seq<char>, i: int)
    requires
        0 <= i <= bs.len(),
    ensures
        ({
            let k = bucket_idx(bs, key, i);
            k == -1 || (i <= k < bs.len() && bs[k].shift_id == key)
        }),
    decreases bs.len() - i,
{
    if i < bs.len() && !(bs[i].shift_id == key) {
        lemma_bucket_idx_in_range(bs, key, i + 1);
    }
}

proof fn lemma_find_job_in_range(jobs: Seq<Job>, vin: Seq<char>, i: int)
    requires
        0 <= i <= jobs.len(),
    ensures
        ({
            let k = find_job_idx(jobs, vin, i);
            k == -1 || (i <= k < jobs.len() && jobs[k].vin@ == vin)
        }),
    decreases jobs.len() - i,
{
    if i < jobs.len() && !(jobs[i].vin@ == vin) {
        lemma_find_job_in_range(jobs, vin, i + 1);
    }
}

/// Updating one bucket adds exactly its deltas to the totals.
proof fn lemma_sum_update(bs: Seq<MetricView>, k: int, e: int, m: int)
    requires
        0 <= k < bs.len(),
    ensures
        ({
            let nb = MetricView {
                shift_id: bs[k].shift_id,
                energy: bs[k].energy + e,
                emission: bs[k].emission + m,
            };
            &&& sum_energy(bs.update(k, nb)) == sum_energy(bs) + e
            &&& sum_emission(bs.update(k, nb)) == sum_emission(bs) + m
        }),
    decreases bs.len(),
{
    let nb = MetricView {
        shift_id: bs[k].shift_id,
        energy: bs[k].energy + e,
        emission: bs[k].emission + m,
    };
    if k == bs.len() - 1 {
        assert(bs.update(k, nb).drop_last() =~= bs.drop_last());
    } else {
        assert(bs.update(k, nb).drop_last() =~= bs.drop_last().update(k, nb));
        assert(bs.drop_last()[k] == bs[k]);
        lemma_sum_update(bs.drop_last(), k, e, m);
    }
}

/// Aggregates, per shift identifier, the energy and emission scores of the
/// jobs whose items fall in that shift — each job counted once per shift
/// it appears in, however many of its stages the shift holds.
pub fn calculate_shift_metrics(schedule: &Vec<ScheduleItem>, jobs: &Vec<Job>) -> (r: Vec<
    ShiftMetric,
>)
    requires
        valid_jobs(jobs@),
        schedule@.len() <= ITEMS_MAX,
    ensures
        metrics_view(r@) == shift_metrics_spec(schedule_view(schedule@), jobs@),
        wf_metrics(metrics_view(r@), schedule@.len() as int),
{
    let ghost items = schedule_view(schedule@);
    let mut buckets: Vec<ShiftMetric> = Vec::new();
    proof {
        reveal(metrics_from);
        assert(metrics_view(buckets@) =~= Seq::<MetricView>::empty());
    }
    let mut i: usize = 0;
    while i < schedule.len()
        invariant
            valid_jobs(jobs@),
            schedule@.len() <= ITEMS_MAX,
            items == schedule_view(schedule@),
            0 <= i <= items.len(),
            metrics_from(items, jobs@, i as int, metrics_view(buckets@)) == shift_metrics_spec(
                items,
                jobs@,
            ),
            wf_metrics(metrics_view(buckets@), i as int),
        decreases items.len() - i,
    {
        let ghost bs = metrics_view(buckets@);
        let item = &schedule[i];
        // has this job already contributed to this shift?
        let mut dup = false;
        let mut d: usize = 0;
        while !dup && d < i
            invariant
                0 <= d <= i < schedule@.len(),
                items == schedule_view(schedule@),
                item == &schedule@[i as int],
                !dup ==> forall|q: int|
                    0 <= q < d ==> !((#[trigger] items[q]).vin == items[i as int].vin
                        && items[q].shift_id == items[i as int].shift_id),
                dup ==> !first_in_shift(items, i as int),
            decreases i - d + (if dup {
                0int
            } else {
                1
            }),
        {
            proof {
                assert(items[d as int] == schedule@[d as int]@);
                assert(items[i as int] == schedule@[i as int]@);
            }
            if schedule[d].vin == item.vin && schedule[d].shift_id == item.shift_id {
                dup = true;
            } else {
                d = d + 1;
            }
        }
        proof {
            if !dup {
                assert(first_in_shift(items, i as int));
            }
        }
        // find the item's job, first match by identifier
        let mut j: usize = 0;
        let mut job_at: usize = jobs.len();
        while job_at == jobs.len() && j < jobs.len()
            invariant
                0 <= j <= jobs@.len(),
                item == &schedule@[i as int],
                job_at == jobs@.len() ==> find_job_idx(jobs@, item.vin@, 0) == find_job_idx(
                    jobs@,
                    item.vin@,
                    j as int,
                ),
                job_at < jobs@.len() ==> find_job_idx(jobs@, item.vin@, 0) == job_at as int,
                job_at <= jobs@.len(),
            decreases jobs@.len() - j + (if job_at == jobs@.len() {
                1int
            } else {
                0
            }),
        {
            if jobs[j].vin == item.vin {
                job_at = j;
            } else {
                j = j + 1;
            }
        }
        let ghost fk = find_job_idx(jobs@, item.vin@, 0);
        if job_at < jobs.len() && !dup {
            assert(fk == job_at as int);
            let energy = jobs[job_at].energy_score;
            let emission = jobs[job_at].emission_score;
            // find the shift's bucket
            let mut b: usize = 0;
            let mut bucket_at: usize = buckets.len();
            while bucket_at == buckets.len() && b < buckets.len()
                invariant
                    0 <= b <= buckets@.len(),
                    bs == metrics_view(buckets@),
                    item == &schedule@[i as int],
                    bucket_at == buckets@.len() ==> bucket_idx(bs, item.shift_id@, 0)
                        == bucket_idx(bs, item.shift_id@, b as int),
                    bucket_at < buckets@.len() ==> bucket_idx(bs, item.shift_id@, 0) == bucket_at
                        as int,
                    bucket_at <= buckets@.len(),
                decreases buckets@.len() - b + (if bucket_at == buckets@.len() {
                    1int
                } else {
                    0
                }),
            {
                if buckets[b].shift_id == item.shift_id {
                    bucket_at = b;
                } else {
                    b = b + 1;
                }
            }
            proof {
                lemma_add_scores_wf(bs, item.shift_id@, energy as int, emission as int, i as int);
                lemma_bucket_idx_in_range(bs, item.shift_id@, 0);
            }
            if bucket_at < buckets.len() {
                assert(bucket_idx(bs, item.shift_id@, 0) == bucket_at as int);
                let e0 = buckets[bucket_at].energy;
                let m0 = buckets[bucket_at].emission;
                proof {
                    lemma_sum_prefix_bound(bs, bucket_at as int);
                    assert(i * SCORE_MAX <= ITEMS_MAX * SCORE_MAX) by (nonlinear_arith)
                        requires
                            0 <= i <= ITEMS_MAX,
                    ;
                }
                buckets[bucket_at].energy = e0 + energy;
                buckets[bucket_at].emission = m0 + emission;
                assert(metrics_view(buckets@) =~= add_scores(
                    bs,
                    schedule@[i as int].shift_id@,
                    energy as int,
                    emission as int,
                ));
            } else {
                assert(bucket_idx(bs, item.shift_id@, 0) == -1);
                buckets.push(
                    ShiftMetric { shift_id: item.shift_id.clone(), energy, emission },
                );
                assert(metrics_view(buckets@) =~= add_scores(
                    bs,
                    schedule@[i as int].shift_id@,
                    energy as int,
                    emission as int,
                ));
            }
        } else {
            proof {
                if job_at == jobs@.len() {
                    assert(j == jobs@.len());
                    assert(fk == -1);
                } else {
                    assert(!first_in_shift(items, i as int));
                }
            }
        }
        proof {
            reveal(metrics_from);
            let bs2 = metrics_view(buckets@);
            assert(metrics_from(items, jobs@, i as int, bs) == metrics_from(
                items,
                jobs@,
                i + 1,
                bs2,
            ));
            assert(i * SCORE_MAX <= (i + 1) * SCORE_MAX) by (nonlinear_arith)
                requires
                    i >= 0,
            ;
        }
        i = i + 1;
    }
    buckets
}

/// Every bucket's own total is at most the sum over all buckets.
proof fn lemma_sum_prefix_bound(bs: Seq<MetricView>, k: int)
    requires
        0 <= k < bs.len(),
        forall|j: int| 0 <= j < bs.len() ==> (#[trigger] bs[j]).energy >= 0 && bs[j].emission >= 0,
    ensures
        bs[k].energy <= sum_energy(bs),
        bs[k].emission <= sum_emission(bs),
    decreases bs.len(),
{
    if k == bs.len() - 1 {
        lemma_sum_nonneg(bs.drop_last());
    } else {
        assert(bs.drop_last()[k] == bs[k]);
        lemma_sum_prefix_bound(bs.drop_last(), k);
    }
}

proof fn lemma_sum_nonneg(bs: Seq<MetricView>)
    requires
        forall|j: int| 0 <= j < bs.len() ==> (#[trigger] bs[j]).energy >= 0 && bs[j].emission >= 0,
    ensures
        sum_energy(bs) >= 0,
        sum_emission(bs) >= 0,
    decreases bs.len(),
{
    if bs.len() > 0 {
        lemma_sum_nonneg(bs.drop_last());
    }
}

// ========== Excesses, KPI build, violations ==========

/// Sum over shifts of how far aggregated energy exceeds the limit;
/// shifts within the limit contribute nothing. In thousandths.
pub open spec fn energy_excess_of(bs: Seq<MetricView>, limit: int) -> int
    decreases bs.len(),
{
    if bs.len() == 0 {
        0
    } else {
        energy_excess_of(bs.drop_last(), limit) + if bs.last().energy > limit {
            bs.last().energy - limit
        } else {
            0
        }
    }
}

pub open spec fn emission_excess_of(bs: Seq<MetricView>, limit: int) -> int
    decreases bs.len(),
{
    if bs.len() == 0 {
        0
    } else {
        emission_excess_of(bs.drop_last(), limit) + if bs.last().emission > limit {
            bs.last().emission - limit
        } else {
            0
        }
    }
}

proof fn lemma_excess_bounds(bs: Seq<MetricView>, limits: crate::model::Limits)
    requires
        forall|k: int|
            0 <= k < bs.len() ==> (#[trigger] bs[k]).energy >= 0 && bs[k].emission >= 0,
    ensures
        0 <= energy_excess_of(bs, limits.max_energy_per_shift as int) <= sum_energy(bs),
        0 <= emission_excess_of(bs, limits.max_emission_per_shift as int) <= sum_emission(bs),
    decreases bs.len(),
{
    if bs.len() > 0 {
        lemma_excess_bounds(bs.drop_last(), limits);
    }
}

/// Computes both excesses of a bucket list against the limits.
fn excesses(buckets: &Vec<ShiftMetric>, limits: &crate::model::Limits) -> (r: (u64, u64))
    requires
        wf_metrics(metrics_view(buckets@), ITEMS_MAX as int),
    ensures
        r.0 == energy_excess_of(metrics_view(buckets@), limits.max_energy_per_shift as int),
        r.1 == emission_excess_of(metrics_view(buckets@), limits.max_emission_per_shift as int),
{
    let ghost bs = metrics_view(buckets@);
    let mut energy_excess: u64 = 0;
    let mut emission_excess: u64 = 0;
    let mut b: usize = 0;
    proof {
        lemma_excess_bounds(bs, *limits);
    }
    while b < buckets.len()
        invariant
            wf_metrics(bs, ITEMS_MAX as int),
            bs == metrics_view(buckets@),
            0 <= b <= bs.len(),
            energy_excess == energy_excess_of(bs.take(b as int), limits.max_energy_per_shift as int),
            emission_excess == emission_excess_of(
                bs.take(b as int),
                limits.max_emission_per_shift as int,
            ),
            energy_excess <= sum_energy(bs.take(b as int)),
            emission_excess <= sum_emission(bs.take(b as int)),
            sum_energy(bs.take(b as int)) <= sum_energy(bs),
            sum_emission(bs.take(b as int)) <= sum_emission(bs),
        decreases bs.len() - b,
    {
        proof {
            assert(bs.take(b + 1).drop_last() =~= bs.take(b as int));
            assert(bs.take(b + 1).last() == bs[b as int]);
            lemma_sum_take_next(bs, b as int);
            lemma_excess_bounds(bs.take(b + 1), *limits);
            assert(forall|k: int|
                0 <= k < bs.take(b + 1).len() ==> (#[trigger] bs.take(b + 1)[k]).energy >= 0
                    && bs.take(b + 1)[k].emission >= 0);
            assert(ITEMS_MAX * SCORE_MAX < 0x10000000000000000u128) by (nonlinear_arith);
        }
        let bucket = &buckets[b];
        if bucket.energy > limits.max_energy_per_shift {
            energy_excess = energy_excess + (bucket.energy - limits.max_energy_per_shift);
        }
        if bucket.emission > limits.max_emission_per_shift {
            emission_excess = emission_excess + (bucket.emission - limits.max_emission_per_shift);
        }
        b = b + 1;
    }
    proof {
        assert(bs.take(bs.len() as int) =~= bs);
    }
    (energy_excess, emission_excess)
}

/// Appending the next bucket adds its totals to the prefix sums, and the
/// prefix sums never exceed the whole.
proof fn lemma_sum_take_next(bs: Seq<MetricView>, b: int)
    requires
        0 <= b < bs.len(),
        forall|k: int|
            0 <= k < bs.len() ==> (#[trigger] bs[k]).energy >= 0 && bs[k].emission >= 0,
    ensures
        sum_energy(bs.take(b + 1)) == sum_energy(bs.take(b)) + bs[b].energy,
        sum_emission(bs.take(b + 1)) == sum_emission(bs.take(b)) + bs[b].emission,
        sum_energy(bs.take(b + 1)) <= sum_energy(bs),
        sum_emission(bs.take(b + 1)) <= sum_emission(bs),
    decreases bs.len(),
{
    assert(bs.take(b + 1).drop_last() =~= bs.take(b));
    if b + 1 == bs.len() {
        assert(bs.take(b + 1) =~= bs);
    } else {
        assert(bs.drop_last().take(b + 1) =~= bs.take(b + 1));
        lemma_sum_take_next(bs.drop_last(), b);
        assert(bs.drop_last()[b] == bs[b]);
        lemma_sum_nonneg_tail(bs, b + 1);
    }
}

/// What the buckets beyond a prefix still add is non-negative.
proof fn lemma_sum_nonneg_tail(bs: Seq<MetricView>, b: int)
    requires
        0 <= b <= bs.len(),
        forall|k: int|
            0 <= k < bs.len() ==> (#[trigger] bs[k]).energy >= 0 && bs[k].emission >= 0,
    ensures
        sum_energy(bs.take(b)) <= sum_energy(bs),
        sum_emission(bs.take(b)) <= sum_emission(bs),
    decreases bs.len() - b,
{
    if b < bs.len() {
        lemma_sum_take_next_weak(bs, b);
        lemma_sum_nonneg_tail(bs, b + 1);
    } else {
        assert(bs.take(b) =~= bs);
    }
}

proof fn lemma_sum_take_next_weak(bs: Seq<MetricView>, b: int)
    requires
        0 <= b < bs.len(),
    ensures
        sum_energy(bs.take(b + 1)) == sum_energy(bs.take(b)) + bs[b].energy,
        sum_emission(bs.take(b + 1)) == sum_emission(bs.take(b)) + bs[b].emission,
{
    assert(bs.take(b + 1).drop_last() =~= bs.take(b));
    assert(bs.take(b + 1).last() == bs[b]);
}

/// Builds the KPI summary of a schedule: aggregate metrics, per-shift
/// excesses against the limits, and the weighted cost.
pub fn build_kpi_summary(
    schedule: &Vec<ScheduleItem>,
    weights: &crate::model::Weights,
    limits: &crate::model::Limits,
    jobs: &Vec<Job>,
    elapsed_ms: i64,
) -> (r: crate::model::KpiSummary)
    requires
        valid_jobs(jobs@),
        wf_schedule(schedule_view(schedule@)),
        weights.valid(),
    ensures
        ({
            let s = schedule_view(schedule@);
            let bs = shift_metrics_spec(s, jobs@);
            &&& r.total_tardiness_min == total_tardiness(s)
            &&& r.max_tardiness_min == max_tardiness(s)
            &&& r.color_changes == color_changes(s)
            &&& r.config_changes == config_changes(s)
            &&& r.energy_excess == energy_excess_of(bs, limits.max_energy_per_shift as int)
            &&& r.emission_excess == emission_excess_of(bs, limits.max_emission_per_shift as int)
            &&& r.material_shortage == 0
            &&& r.elapsed_ms == elapsed_ms
            &&& r.cost == cost_of(
                *weights,
                total_tardiness(s),
                color_changes(s),
                config_changes(s),
                energy_excess_of(bs, limits.max_energy_per_shift as int),
                emission_excess_of(bs, limits.max_emission_per_shift as int),
                0,
            )
            &&& r.cost <= crate::model::COST_CAP
            &&& r.total_tardiness_min >= 0
            &&& r.color_changes >= 0
            &&& r.config_changes >= 0
        }),
{
    let (total_tardiness_min, max_tardiness_min, color_changes, config_changes) = summarize(
        schedule,
    );
    let shift_metrics = calculate_shift_metrics(schedule, jobs);
    proof {
        lemma_wf_metrics_widen(
            metrics_view(shift_metrics@),
            schedule@.len() as int,
            ITEMS_MAX as int,
        );
    }
    let (energy_excess, emission_excess) = excesses(&shift_metrics, limits);
    let mut summary = crate::model::KpiSummary {
        cost: 0,
        total_tardiness_min,
        max_tardiness_min,
        color_changes,
        config_changes,
        energy_excess,
        emission_excess,
        material_shortage: 0,
        elapsed_ms,
    };
    summary.cost = calc_cost(&summary, weights);
    proof {
        let bs = shift_metrics_spec(schedule_view(schedule@), jobs@);
        lemma_excess_bounds(bs, *limits);
        assert(summary.cost <= crate::model::COST_CAP) by (nonlinear_arith)
            requires
                summary.cost == cost_of(
                    *weights,
                    summary.total_tardiness_min as int,
                    summary.color_changes as int,
                    summary.config_changes as int,
                    summary.energy_excess as int,
                    summary.emission_excess as int,
                    0,
                ),
                weights.valid(),
                0 <= summary.total_tardiness_min <= ITEMS_MAX * TARD_CAP,
                0 <= summary.color_changes <= ITEMS_MAX,
                0 <= summary.config_changes <= ITEMS_MAX,
                0 <= summary.energy_excess <= ITEMS_MAX * SCORE_MAX,
                0 <= summary.emission_excess <= ITEMS_MAX * SCORE_MAX,
        ;
    }
    summary
}

proof fn lemma_wf_metrics_widen(bs: Seq<MetricView>, c1: int, c2: int)
    requires
        wf_metrics(bs, c1),
        0 <= c1 <= c2,
    ensures
        wf_metrics(bs, c2),
{
    assert(c1 * SCORE_MAX <= c2 * SCORE_MAX) by (nonlinear_arith)
        requires
            0 <= c1 <= c2,
    ;
}

// ========== Violations ==========

/// The violation records of a bucket list, in bucket order: for each shift
/// whose energy or emission exceeds its limit, one record per exceeded
/// dimension; shifts within limits produce none.
pub open spec fn violations_from(
    bs: Seq<MetricView>,
    limits: crate::model::Limits,
    b: int,
) -> Seq<crate::model::ViolationView>
    decreases bs.len() - b,
{
    if b < 0 || b >= bs.len() {
        Seq::empty()
    } else {
        (if bs[b].energy > limits.max_energy_per_shift {
            seq![
                crate::model::ViolationView {
                    shift_id: bs[b].shift_id,
                    vtype: "ENERGY"@,
                    excess: bs[b].energy - limits.max_energy_per_shift,
                },
            ]
        } else {
            Seq::empty()
        }) + (if bs[b].emission > limits.max_emission_per_shift {
            seq![
                crate::model::ViolationView {
                    shift_id: bs[b].shift_id,
                    vtype: "EMISSION"@,
                    excess: bs[b].emission - limits.max_emission_per_shift,
                },
            ]
        } else {
            Seq::empty()
        }) + violations_from(bs, limits, b + 1)
    }
}

pub open spec fn violations_of(
    bs: Seq<MetricView>,
    limits: crate::model::Limits,
) -> Seq<crate::model::ViolationView> {
    violations_from(bs, limits, 0)
}

pub open spec fn violations_view(v: Seq<crate::model::ShiftViolation>) -> Seq<
    crate::model::ViolationView,
> {
    v.map_values(|x: crate::model::ShiftViolation| x@)
}

/// Emits one violation record per (shift, exceeded dimension) pair.
pub fn build_violations(
    schedule: &Vec<ScheduleItem>,
    limits: &crate::model::Limits,
    jobs: &Vec<Job>,
) -> (r: Vec<crate::model::ShiftViolation>)
    requires
        valid_jobs(jobs@),
        schedule@.len() <= ITEMS_MAX,
    ensures
        violations_view(r@) == violations_of(
            shift_metrics_spec(schedule_view(schedule@), jobs@),
            *limits,
        ),
        forall|k: int| 0 <= k < r@.len() ==> (#[trigger] r@[k])@.excess > 0,
{
    let shift_metrics = calculate_shift_metrics(schedule, jobs);
    let ghost bs = metrics_view(shift_metrics@);
    let mut violations: Vec<crate::model::ShiftViolation> = Vec::new();
    proof {
        assert(violations_view(violations@) =~= Seq::<crate::model::ViolationView>::empty());
    }
    let mut b: usize = 0;
    while b < shift_metrics.len()
        invariant
            bs == metrics_view(shift_metrics@),
            0 <= b <= bs.len(),
            violations_view(violations@) + violations_from(bs, *limits, b as int)
                =~= violations_of(bs, *limits),
            forall|k: int| 0 <= k < violations@.len() ==> (#[trigger] violations@[k])@.excess > 0,
        decreases bs.len() - b,
    {
        let bucket = &shift_metrics[b];
        if bucket.energy > limits.max_energy_per_shift {
            violations.push(
                crate::model::ShiftViolation {
                    shift_id: bucket.shift_id.clone(),
                    vtype: "ENERGY".to_owned(),
                    excess: bucket.energy - limits.max_energy_per_shift,
                },
            );
        }
        if bucket.emission > limits.max_emission_per_shift {
            violations.push(
                crate::model::ShiftViolation {
                    shift_id: bucket.shift_id.clone(),
                    vtype: "EMISSION".to_owned(),
                    excess: bucket.emission - limits.max_emission_per_shift,
                },
            );
        }
        b = b + 1;
    }
    violations
}

} // verus!
