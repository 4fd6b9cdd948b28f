//! Deterministic orderings of a job set: earliest due date (stable on
//! ties), and grouping by changeover attributes before due date.
//!
//! Both are index sorts: the result is a permutation of the job positions,
//! ordered by a key with the original position as the final tie breaker,
//! which makes each ordering total, unique, and stable.

use vstd::prelude::*;
use vstd::multiset::Multiset;
use crate::model::Job;

verus! {

/// Lexicographic order on character sequences, by code point, from
/// position `i` on.
pub open spec fn str_lt_from(a: Seq<char>, b: Seq<char>, i: int) -> bool
    decreases b.len() - i,
{
    if i < 0 || i >= b.len() {
        false
    } else if i >= a.len() {
        true
    } else if (a[i] as u32) < (b[i] as u32) {
        true
    } else if (a[i] as u32) > (b[i] as u32) {
        false
    } else {
        str_lt_from(a, b, i + 1)
    }
}

pub open spec fn str_lt(a: Seq<char>, b: Seq<char>) -> bool {
    str_lt_from(a, b, 0)
}

/// Two strings equal from position `i` on under neither-less are equal.
proof fn lemma_str_trichotomy_from(a: Seq<char>, b: Seq<char>, i: int)
    requires
        0 <= i <= a.len(),
        0 <= i <= b.len(),
        !str_lt_from(a, b, i),
        !str_lt_from(b, a, i),
    ensures
        a.skip(i) =~= b.skip(i),
    decreases a.len() - i,
{
    if i < a.len() && i < b.len() {
        if (a[i] as u32) == (b[i] as u32) {
            vstd::utf8::char_u32_cast(a[i], a[i] as u32);
            vstd::utf8::char_u32_cast(b[i], b[i] as u32);
            assert(a[i] == b[i]);
            lemma_str_trichotomy_from(a, b, i + 1);
            assert(a.skip(i) =~= seq![a[i]] + a.skip(i + 1));
            assert(b.skip(i) =~= seq![b[i]] + b.skip(i + 1));
        } else {
            assert(false);
        }
    }
}

/// Of two distinct strings, one is lexicographically less.
pub proof fn lemma_str_trichotomy(a: Seq<char>, b: Seq<char>)
    ensures
        str_lt(a, b) || str_lt(b, a) || a =~= b,
{
    if !str_lt(a, b) && !str_lt(b, a) {
        lemma_str_trichotomy_from(a, b, 0);
        assert(a.skip(0) =~= a);
        assert(b.skip(0) =~= b);
    }
}

/// Whether `a` comes lexicographically before `b`.
fn str_less(a: &str, b: &str) -> (r: bool)
    ensures
        r == str_lt(a@, b@),
{
    let alen = a.unicode_len();
    let blen = b.unicode_len();
    let mut i: usize = 0;
    while i < alen && i < blen
        invariant
            0 <= i <= alen,
            0 <= i <= blen,
            alen == a@.len(),
            blen == b@.len(),
            str_lt(a@, b@) == str_lt_from(a@, b@, i as int),
        decreases alen - i,
    {
        let ca = a.get_char(i);
        let cb = b.get_char(i);
        if (ca as u32) < (cb as u32) {
            return true;
        }
        if (ca as u32) > (cb as u32) {
            return false;
        }
        i = i + 1;
    }
    alen < blen
}

// ========== Sort keys ==========

/// Which key an ordering sorts by.
#[derive(Debug, Clone, Copy, PartialEq, Eq, Structural)]
pub enum SortKey {
    /// Due timestamp ascending; ties keep the original order.
    Due,
    /// Color, then configuration, then due timestamp; ties keep the
    /// original order.
    Grouped,
}

/// The strict total order an ordering sorts job positions by: the chosen
/// key, with the position itself as the final tie breaker.
pub open spec fn key_lt(jobs: Seq<Job>, mode: SortKey, x: int, y: int) -> bool {
    match mode {
        SortKey::Due => {
            ||| jobs[x].due_epoch_ms < jobs[y].due_epoch_ms
            ||| (jobs[x].due_epoch_ms == jobs[y].due_epoch_ms && x < y)
        },
        SortKey::Grouped => {
            ||| str_lt(jobs[x].color@, jobs[y].color@)
            ||| (jobs[x].color@ == jobs[y].color@ && {
                ||| str_lt(jobs[x].config@, jobs[y].config@)
                ||| (jobs[x].config@ == jobs[y].config@ && {
                    ||| jobs[x].due_epoch_ms < jobs[y].due_epoch_ms
                    ||| (jobs[x].due_epoch_ms == jobs[y].due_epoch_ms && x < y)
                })
            })
        },
    }
}

/// Distinct positions always compare one way or the other.
proof fn lemma_key_total(jobs: Seq<Job>, mode: SortKey, x: int, y: int)
    requires
        x != y,
    ensures
        key_lt(jobs, mode, x, y) || key_lt(jobs, mode, y, x),
{
    lemma_str_trichotomy(jobs[x].color@, jobs[y].color@);
    lemma_str_trichotomy(jobs[x].config@, jobs[y].config@);
}

fn key_less(jobs: &Vec<Job>, mode: SortKey, x: usize, y: usize) -> (r: bool)
    requires
        x < jobs@.len(),
        y < jobs@.len(),
    ensures
        r == key_lt(jobs@, mode, x as int, y as int),
{
    match mode {
        SortKey::Due => {
            jobs[x].due_epoch_ms < jobs[y].due_epoch_ms || (jobs[x].due_epoch_ms
                == jobs[y].due_epoch_ms && x < y)
        },
        SortKey::Grouped => {
            if str_less(jobs[x].color.as_str(), jobs[y].color.as_str()) {
                true
            } else if str_less(jobs[y].color.as_str(), jobs[x].color.as_str()) {
                false
            } else {
                proof {
                    lemma_str_trichotomy(jobs@[x as int].color@, jobs@[y as int].color@);
                }
                if str_less(jobs[x].config.as_str(), jobs[y].config.as_str()) {
                    true
                } else if str_less(jobs[y].config.as_str(), jobs[x].config.as_str()) {
                    false
                } else {
                    proof {
                        lemma_str_trichotomy(jobs@[x as int].config@, jobs@[y as int].config@);
                    }
                    jobs[x].due_epoch_ms < jobs[y].due_epoch_ms || (jobs[x].due_epoch_ms
                        == jobs[y].due_epoch_ms && x < y)
                }
            }
        },
    }
}

// ========== Insertion sort over positions ==========

/// Where insertion places a position: after every element less than it,
/// before the rest.
pub open spec fn insert_pos(jobs: Seq<Job>, mode: SortKey, sorted: Seq<int>, x: int) -> Seq<int>
    decreases sorted.len(),
{
    if sorted.len() == 0 {
        seq![x]
    } else if key_lt(jobs, mode, sorted.last(), x) {
        sorted.push(x)
    } else {
        insert_pos(jobs, mode, sorted.drop_last(), x).push(sorted.last())
    }
}

/// The sorted permutation of positions `0..i`.
pub open spec fn sort_perm(jobs: Seq<Job>, mode: SortKey, i: int) -> Seq<int>
    decreases i,
{
    if i <= 0 {
        Seq::empty()
    } else {
        insert_pos(jobs, mode, sort_perm(jobs, mode, i - 1), i - 1)
    }
}

pub open spec fn sorted_by_key(jobs: Seq<Job>, mode: SortKey, s: Seq<int>) -> bool {
    forall|k: int, l: int| 0 <= k < l < s.len() ==> key_lt(jobs, mode, #[trigger] s[k], #[trigger] s[l])
}

pub open spec fn range_seq(n: int) -> Seq<int> {
    Seq::new(n as nat, |i: int| i)
}

proof fn lemma_insert_props(jobs: Seq<Job>, mode: SortKey, sorted: Seq<int>, x: int)
    requires
        sorted_by_key(jobs, mode, sorted),
        forall|k: int| 0 <= k < sorted.len() ==> #[trigger] sorted[k] != x,
    ensures
        ({
            let r = insert_pos(jobs, mode, sorted, x);
            &&& sorted_by_key(jobs, mode, r)
            &&& r.to_multiset() == sorted.to_multiset().insert(x)
            &&& r.len() == sorted.len() + 1
            &&& forall|k: int| 0 <= k < r.len() ==> #[trigger] r[k] == x || sorted.contains(r[k])
        }),
    decreases sorted.len(),
{
    broadcast use vstd::seq_lib::group_to_multiset_ensures;

    let r = insert_pos(jobs, mode, sorted, x);
    if sorted.len() == 0 {
        assert(r =~= Seq::empty().push(x));
        assert(Seq::<int>::empty().to_multiset() =~= Multiset::<int>::empty());
    } else if key_lt(jobs, mode, sorted.last(), x) {
        assert(forall|k: int|
            0 <= k < sorted.len() ==> key_lt(jobs, mode, #[trigger] sorted[k], x) || sorted[k]
                == sorted.last() || key_lt(jobs, mode, sorted[k], sorted.last()));
        assert forall|k: int, l: int| 0 <= k < l < r.len() implies key_lt(
            jobs,
            mode,
            #[trigger] r[k],
            #[trigger] r[l],
        ) by {
            if l == r.len() - 1 {
                if k < sorted.len() - 1 {
                    assert(key_lt(jobs, mode, sorted[k], sorted.last()));
                    lemma_key_transitive(jobs, mode, sorted[k], sorted.last(), x);
                }
            }
        }
        assert(forall|k: int| 0 <= k < sorted.len() ==> #[trigger] sorted.contains(sorted[k]));
    } else {
        let pre = sorted.drop_last();
        assert(forall|k: int| 0 <= k < pre.len() ==> #[trigger] pre[k] == sorted[k]);
        lemma_insert_props(jobs, mode, pre, x);
        let ri = insert_pos(jobs, mode, pre, x);
        lemma_key_total(jobs, mode, sorted.last(), x);
        assert forall|k: int, l: int| 0 <= k < l < r.len() implies key_lt(
            jobs,
            mode,
            #[trigger] r[k],
            #[trigger] r[l],
        ) by {
            if l == r.len() - 1 {
                assert(r[l] == sorted.last());
                assert(r[k] == ri[k]);
                if ri[k] == x {
                    assert(key_lt(jobs, mode, x, sorted.last()));
                } else {
                    assert(pre.contains(ri[k]));
                    let m = choose|m: int| 0 <= m < pre.len() && pre[m] == ri[k];
                    assert(sorted[m] == pre[m]);
                    assert(sorted.last() == sorted[sorted.len() - 1]);
                    assert(key_lt(jobs, mode, sorted[m], sorted[sorted.len() - 1]));
                }
            }
        }
        assert(sorted =~= pre.push(sorted.last()));
        assert(pre.push(sorted.last()).to_multiset() =~= pre.to_multiset().insert(sorted.last()));
        assert(r =~= ri.push(sorted.last()));
        assert(ri.push(sorted.last()).to_multiset() =~= ri.to_multiset().insert(sorted.last()));
        assert(r.to_multiset() =~= sorted.to_multiset().insert(x)) by {
            assert(ri.to_multiset() =~= pre.to_multiset().insert(x));
            assert(pre.to_multiset().insert(x).insert(sorted.last()) =~= pre.to_multiset().insert(
                sorted.last(),
            ).insert(x));
        }
    }
}

/// The sort key is transitive.
proof fn lemma_key_transitive(jobs: Seq<Job>, mode: SortKey, x: int, y: int, z: int)
    requires
        key_lt(jobs, mode, x, y),
        key_lt(jobs, mode, y, z),
    ensures
        key_lt(jobs, mode, x, z),
{
    match mode {
        SortKey::Due => {
        },
        SortKey::Grouped => {
            let cx = jobs[x].color@;
            let cy = jobs[y].color@;
            let cz = jobs[z].color@;
            if str_lt(cx, cy) && str_lt(cy, cz) {
                lemma_str_lt_transitive(cx, cy, cz);
            }
            let fx = jobs[x].config@;
            let fy = jobs[y].config@;
            let fz = jobs[z].config@;
            if str_lt(fx, fy) && str_lt(fy, fz) {
                lemma_str_lt_transitive(fx, fy, fz);
            }
        },
    }
}

proof fn lemma_str_lt_from_transitive(a: Seq<char>, b: Seq<char>, c: Seq<char>, i: int)
    requires
        0 <= i,
        str_lt_from(a, b, i),
        str_lt_from(b, c, i),
    ensures
        str_lt_from(a, c, i),
    decreases c.len() - i,
{
    if i < c.len() && i < b.len() && i < a.len() {
        if (a[i] as u32) == (b[i] as u32) && (b[i] as u32) == (c[i] as u32) {
            lemma_str_lt_from_transitive(a, b, c, i + 1);
        }
    }
}

/// Lexicographic order is transitive.
pub proof fn lemma_str_lt_transitive(a: Seq<char>, b: Seq<char>, c: Seq<char>)
    requires
        str_lt(a, b),
        str_lt(b, c),
    ensures
        str_lt(a, c),
{
    lemma_str_lt_from_transitive(a, b, c, 0);
}

/// The sorted permutation of all positions: a permutation of `0..n`,
/// ordered by the key with the original position breaking ties.
pub proof fn lemma_sort_perm_props(jobs: Seq<Job>, mode: SortKey, i: int)
    requires
        0 <= i <= jobs.len(),
    ensures
        ({
            let s = sort_perm(jobs, mode, i);
            &&& s.len() == i
            &&& sorted_by_key(jobs, mode, s)
            &&& s.to_multiset() == range_seq(i).to_multiset()
            &&& forall|k: int| 0 <= k < s.len() ==> 0 <= #[trigger] s[k] < i
        }),
    decreases i,
{
    broadcast use vstd::seq_lib::group_to_multiset_ensures;

    let s = sort_perm(jobs, mode, i);
    if i <= 0 {
        assert(range_seq(0) =~= Seq::<int>::empty());
    } else {
        let p = sort_perm(jobs, mode, i - 1);
        lemma_sort_perm_props(jobs, mode, i - 1);
        assert forall|k: int| 0 <= k < p.len() implies #[trigger] p[k] != i - 1 by {
            assert(0 <= p[k] < i - 1);
        }
        lemma_insert_props(jobs, mode, p, i - 1);
        assert(range_seq(i) =~= range_seq(i - 1).push(i - 1));
        assert(range_seq(i).to_multiset() =~= range_seq(i - 1).to_multiset().insert(i - 1));
        assert forall|k: int| 0 <= k < s.len() implies 0 <= #[trigger] s[k] < i by {
            assert(s[k] == i - 1 || p.contains(s[k]));
            if p.contains(s[k]) {
                let m = choose|m: int| 0 <= m < p.len() && p[m] == s[k];
                assert(0 <= p[m] < i - 1);
            }
        }
    }
}

/// Sorts the job positions `0..n` by the chosen key; stable because the
/// position itself breaks every tie.
pub fn sort_indices(jobs: &Vec<Job>, mode: SortKey) -> (r: Vec<usize>)
    ensures
        r@.map_values(|u: usize| u as int) == sort_perm(jobs@, mode, jobs@.len() as int),
        r@.len() == jobs@.len(),
        forall|k: int| 0 <= k < r@.len() ==> (#[trigger] r@[k]) < jobs@.len(),
        sorted_by_key(jobs@, mode, r@.map_values(|u: usize| u as int)),
{
    let mut sorted: Vec<usize> = Vec::new();
    let mut i: usize = 0;
    proof {
        assert(sorted@.map_values(|u: usize| u as int) =~= Seq::<int>::empty());
    }
    while i < jobs.len()
        invariant
            0 <= i <= jobs@.len(),
            sorted@.len() == i,
            sorted@.map_values(|u: usize| u as int) == sort_perm(jobs@, mode, i as int),
            forall|k: int| 0 <= k < sorted@.len() ==> (#[trigger] sorted@[k]) < jobs@.len(),
        decreases jobs@.len() - i,
    {
        let ghost sv = sorted@.map_values(|u: usize| u as int);
        let mut p: usize = sorted.len();
        proof {
            assert(sv.take(sv.len() as int) =~= sv);
            assert(sv.skip(sv.len() as int) =~= Seq::<int>::empty());
            assert(insert_pos(jobs@, mode, sv, i as int) + Seq::<int>::empty() =~= insert_pos(
                jobs@,
                mode,
                sv,
                i as int,
            ));
        }
        while p > 0 && !key_less(jobs, mode, sorted[p - 1], i)
            invariant
                0 <= p <= sorted@.len(),
                sorted@.len() == i <= jobs@.len(),
                i < jobs@.len(),
                sv == sorted@.map_values(|u: usize| u as int),
                forall|k: int| 0 <= k < sorted@.len() ==> (#[trigger] sorted@[k]) < jobs@.len(),
                insert_pos(jobs@, mode, sv, i as int) == insert_pos(
                    jobs@,
                    mode,
                    sv.take(p as int),
                    i as int,
                ) + sv.skip(p as int),
            decreases p,
        {
            proof {
                assert(sv.take(p - 1 + 1).drop_last() =~= sv.take(p - 1));
                assert(sv.take(p as int).last() == sv[p - 1]);
                assert((insert_pos(jobs@, mode, sv.take(p - 1), i as int).push(sv[p - 1]))
                    + sv.skip(p as int) =~= insert_pos(jobs@, mode, sv.take(p - 1), i as int)
                    + sv.skip(p - 1));
            }
            p = p - 1;
        }
        proof {
            if p > 0 {
                assert(sv.take(p as int).last() == sv[p - 1]);
                assert(key_lt(jobs@, mode, sv[p - 1], i as int));
                assert(insert_pos(jobs@, mode, sv.take(p as int), i as int) =~= sv.take(
                    p as int,
                ).push(i as int));
            } else {
                assert(sv.take(0) =~= Seq::<int>::empty());
            }
            assert(insert_pos(jobs@, mode, sv, i as int) =~= sv.take(p as int).push(i as int)
                + sv.skip(p as int));
        }
        sorted.insert(p, i);
        proof {
            assert(sorted@.map_values(|u: usize| u as int) =~= sv.take(p as int).push(i as int)
                + sv.skip(p as int));
        }
        i = i + 1;
    }
    proof {
        lemma_sort_perm_props(jobs@, mode, jobs@.len() as int);
    }
    sorted
}

/// The jobs a permutation of positions picks out, in its order.
pub open spec fn perm_jobs(jobs: Seq<Job>, perm: Seq<int>) -> Seq<Job> {
    perm.map_values(|k: int| jobs[k])
}

/// The jobs laid out in the order a permutation gives.
pub fn reorder(jobs: &Vec<Job>, perm: &Vec<usize>) -> (r: Vec<Job>)
    requires
        forall|k: int| 0 <= k < perm@.len() ==> (#[trigger] perm@[k]) < jobs@.len(),
    ensures
        r@.len() == perm@.len(),
        forall|k: int| 0 <= k < perm@.len() ==> #[trigger] r@[k] == jobs@[perm@[k] as int],
        r@ == perm_jobs(jobs@, perm@.map_values(|u: usize| u as int)),
{
    let mut out: Vec<Job> = Vec::new();
    let mut i: usize = 0;
    while i < perm.len()
        invariant
            forall|k: int| 0 <= k < perm@.len() ==> (#[trigger] perm@[k]) < jobs@.len(),
            0 <= i <= perm@.len(),
            out@.len() == i,
            forall|k: int| 0 <= k < i ==> #[trigger] out@[k] == jobs@[perm@[k] as int],
        decreases perm@.len() - i,
    {
        out.push(jobs[perm[i]].clone());
        i = i + 1;
    }
    proof {
        assert(out@ =~= perm_jobs(jobs@, perm@.map_values(|u: usize| u as int)));
    }
    out
}

} // verus!
