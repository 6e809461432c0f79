//! Static partition of the pair evaluations among workers.
//!
//! A force evaluation visits every pair `(i, j)` with `i < j` once. The
//! pairs are dealt out by outer index: worker `w` of `workers` owns the
//! outer indices from `(n / workers) * w` up to `(n / workers) * (w + 1)`,
//! and the last worker's range is extended to `n`, so that no body is left
//! out when `n` is not a multiple of `workers`.
//!
//! The ranges have equal width, the work has not: outer index `i` costs
//! `n - 1 - i` pair evaluations, so the worker that holds the small indices
//! does the most, and the last worker also takes the remainder of the
//! division. The partition is kept this simple on purpose. A balanced one
//! would change which worker adds which term, and with it the rounding of
//! the sums.
use vstd::prelude::*;
use vstd::arithmetic::div_mod::lemma_fundamental_div_mod;
use vstd::arithmetic::div_mod::lemma_fundamental_div_mod_converse;
use vstd::seq_lib::lemma_no_dup_in_concat;
use vstd::seq_lib::lemma_seq_concat_contains_all_elements;

verus! {

/// First outer index of worker `w`.
pub open spec fn range_start(n: int, workers: int, w: int) -> int {
    (n / workers) * w
}

/// One past the last outer index of worker `w`.
pub open spec fn range_end(n: int, workers: int, w: int) -> int {
    if w + 1 == workers {
        n
    } else {
        (n / workers) * (w + 1)
    }
}

/// The pairs `(i, i + 1), ..., (i, bound - 1)`, in that order.
pub open spec fn row(i: int, bound: int) -> Seq<(int, int)> {
    Seq::new(
        if bound > i + 1 {
            (bound - i - 1) as nat
        } else {
            0
        },
        |k: int| (i, i + 1 + k),
    )
}

/// The pairs with outer index in `start..end`, row after row.
pub open spec fn schedule(start: int, end: int, n: int) -> Seq<(int, int)>
    decreases end - start,
{
    if end <= start {
        Seq::empty()
    } else {
        schedule(start, end - 1, n) + row(end - 1, n)
    }
}

/// The pairs that worker `w` evaluates, in the order in which it does.
pub open spec fn worker_schedule(n: int, workers: int, w: int) -> Seq<(int, int)> {
    schedule(range_start(n, workers, w), range_end(n, workers, w), n)
}

/// The schedules of the workers `0..upto` laid end to end.
pub open spec fn combined_schedule(n: int, workers: int, upto: int) -> Seq<(int, int)>
    decreases upto,
{
    if upto <= 0 {
        Seq::empty()
    } else {
        combined_schedule(n, workers, upto - 1) + worker_schedule(n, workers, upto - 1)
    }
}

/// The worker whose range holds outer index `i`.
pub open spec fn owner(n: int, workers: int, i: int) -> int {
    if i >= (n / workers) * (workers - 1) {
        workers - 1
    } else {
        i / (n / workers)
    }
}

/// The ranges are well formed and lie within `0..n`.
pub proof fn lemma_range_bounds(n: int, workers: int, w: int)
    requires
        0 <= n,
        0 < workers,
        0 <= w < workers,
    ensures
        0 <= range_start(n, workers, w) <= range_end(n, workers, w) <= n,
{
    let c = n / workers;
    lemma_fundamental_div_mod(n, workers);
    assert(0 <= c) by (nonlinear_arith)
        requires
            0 <= n,
            0 < workers,
            c == n / workers,
    ;
    assert(c * workers <= n) by (nonlinear_arith)
        requires
            n == workers * c + n % workers,
            0 <= n % workers,
    ;
    assert(0 <= c * w && c * w <= c * (w + 1) && c * (w + 1) <= c * workers) by (nonlinear_arith)
        requires
            0 <= c,
            0 <= w,
            w + 1 <= workers,
    ;
}

/// The ranges tile `0..n`: the first starts at zero, each begins where the
/// one before ended, and the last ends at `n`.
pub proof fn lemma_ranges_tile(n: int, workers: int, w: int)
    requires
        0 <= n,
        0 < workers,
        0 <= w < workers,
    ensures
        range_start(n, workers, 0) == 0,
        w + 1 < workers ==> range_end(n, workers, w) == range_start(n, workers, w + 1),
        range_end(n, workers, workers - 1) == n,
{
    assert((n / workers) * 0 == 0) by (nonlinear_arith);
}

/// Computes the half-open range of outer indices that `worker` owns.
pub fn worker_range(n: usize, workers: usize, worker: usize) -> (r: (usize, usize))
    requires
        0 < workers,
        worker < workers,
    ensures
        r.0 == range_start(n as int, workers as int, worker as int),
        r.1 == range_end(n as int, workers as int, worker as int),
        r.0 <= r.1 <= n,
{
    proof {
        lemma_range_bounds(n as int, workers as int, worker as int);
        if worker + 1 < workers {
            lemma_range_bounds(n as int, workers as int, worker + 1);
        }
    }
    let width: usize = n / workers;
    let start: usize = width * worker;
    let end: usize = if worker + 1 == workers {
        n
    } else {
        width * (worker + 1)
    };
    (start, end)
}

/// A schedule over `start..end` is the schedule over `start..mid` followed
/// by the one over `mid..end`.
pub proof fn lemma_schedule_split(start: int, mid: int, end: int, n: int)
    requires
        start <= mid <= end,
    ensures
        schedule(start, end, n) == schedule(start, mid, n) + schedule(mid, end, n),
    decreases end - mid,
{
    if end == mid {
        assert(schedule(mid, end, n) =~= Seq::empty());
        assert(schedule(start, mid, n) + schedule(mid, end, n) =~= schedule(start, end, n));
    } else {
        lemma_schedule_split(start, mid, end - 1, n);
        assert((schedule(start, mid, n) + schedule(mid, end - 1, n)) + row(end - 1, n)
            =~= schedule(start, mid, n) + (schedule(mid, end - 1, n) + row(end - 1, n)));
    }
}

/// What a schedule holds: exactly the pairs `(i, j)` with `i` in
/// `start..end` and `i < j < n`, each of them once.
pub proof fn lemma_schedule_members(start: int, end: int, n: int)
    ensures
        schedule(start, end, n).no_duplicates(),
        forall|i: int, j: int|
            schedule(start, end, n).contains((i, j)) <==> (start <= i < end && i < j < n),
    decreases end - start,
{
    let s = schedule(start, end, n);
    if end <= start {
        assert forall|i: int, j: int| s.contains((i, j)) <==> (start <= i < end && i < j < n) by {
            if s.contains((i, j)) {
                let k = choose|k: int| 0 <= k < s.len() && s[k] == (i, j);
            }
        }
    } else {
        let head = schedule(start, end - 1, n);
        let last = row(end - 1, n);
        lemma_schedule_members(start, end - 1, n);
        assert forall|i: int, j: int| last.contains((i, j)) <==> (i == end - 1 && i < j < n) by {
            if last.contains((i, j)) {
                let k = choose|k: int| 0 <= k < last.len() && last[k] == (i, j);
            }
            if i == end - 1 && i < j < n {
                assert(last[j - i - 1] == (i, j));
            }
        }
        assert(last.no_duplicates());
        assert forall|a: int, b: int| 0 <= a < head.len() && 0 <= b < last.len() implies head[a]
            != last[b] by {
            assert(head.contains(head[a]));
            assert(last.contains(last[b]));
        }
        lemma_no_dup_in_concat(head, last);
        assert forall|i: int, j: int| s.contains((i, j)) <==> (start <= i < end && i < j < n) by {
            lemma_seq_concat_contains_all_elements(head, last, (i, j));
        }
    }
}

/// The schedules of the first `upto` workers, laid end to end, are the
/// schedule of the outer indices that those workers own together.
pub proof fn lemma_combined_schedule(n: int, workers: int, upto: int)
    requires
        0 <= n,
        0 < workers,
        0 <= upto <= workers,
    ensures
        combined_schedule(n, workers, upto) == schedule(
            0,
            if upto == 0 {
                0
            } else {
                range_end(n, workers, upto - 1)
            },
            n,
        ),
    decreases upto,
{
    if upto > 0 {
        let w = upto - 1;
        lemma_combined_schedule(n, workers, w);
        lemma_range_bounds(n, workers, w);
        lemma_ranges_tile(n, workers, w);
        if w > 0 {
            lemma_range_bounds(n, workers, w - 1);
            lemma_ranges_tile(n, workers, w - 1);
        }
        lemma_schedule_split(0, range_start(n, workers, w), range_end(n, workers, w), n);
    }
}

/// Partition completeness. Whatever the number of bodies and of workers,
/// the workers between them evaluate every pair `(i, j)` with
/// `0 <= i < j < n`, no other pair, and none of them twice: laid end to end
/// in worker order, their schedules are the schedule of a single worker
/// that owns every outer index.
pub proof fn lemma_partition_complete(n: int, workers: int)
    requires
        0 <= n,
        0 < workers,
    ensures
        combined_schedule(n, workers, workers) == schedule(0, n, n),
        combined_schedule(n, workers, workers).no_duplicates(),
        forall|i: int, j: int|
            combined_schedule(n, workers, workers).contains((i, j)) <==> 0 <= i < j < n,
{
    lemma_combined_schedule(n, workers, workers);
    lemma_schedule_members(0, n, n);
}

/// Each pair has exactly one worker: `owner` names it, and no other
/// worker's schedule holds the pair.
pub proof fn lemma_pair_has_one_owner(n: int, workers: int, i: int, j: int)
    requires
        0 < workers,
        0 <= i < j < n,
    ensures
        0 <= owner(n, workers, i) < workers,
        worker_schedule(n, workers, owner(n, workers, i)).contains((i, j)),
        forall|w: int|
            0 <= w < workers && #[trigger] worker_schedule(n, workers, w).contains((i, j)) ==> w
                == owner(n, workers, i),
{
    let c = n / workers;
    let o = owner(n, workers, i);
    lemma_range_bounds(n, workers, workers - 1);
    assert(0 <= c) by (nonlinear_arith)
        requires
            0 <= n,
            0 < workers,
            c == n / workers,
    ;
    if i < c * (workers - 1) {
        assert(0 < c) by (nonlinear_arith)
            requires
                0 <= c,
                0 <= i < c * (workers - 1),
        ;
        lemma_fundamental_div_mod(i, c);
        assert(0 <= o && o < workers - 1) by (nonlinear_arith)
            requires
                o == i / c,
                i == c * o + i % c,
                0 <= i % c < c,
                0 <= i < c * (workers - 1),
        ;
        assert(c * o <= i < c * (o + 1)) by (nonlinear_arith)
            requires
                i == c * o + i % c,
                0 <= i % c < c,
        ;
    }
    lemma_schedule_members(range_start(n, workers, o), range_end(n, workers, o), n);
    assert forall|w: int|
        0 <= w < workers && #[trigger] worker_schedule(n, workers, w).contains((i, j)) implies w
        == o by {
        lemma_schedule_members(range_start(n, workers, w), range_end(n, workers, w), n);
        if w + 1 < workers {
            assert(c * w <= i < c * (w + 1));
            assert(i < c * (workers - 1)) by (nonlinear_arith)
                requires
                    i < c * (w + 1),
                    w + 1 <= workers - 1,
                    0 <= c,
            ;
            assert(0 <= i - c * w < c && i == w * c + (i - c * w)) by (nonlinear_arith)
                requires
                    c * w <= i < c * (w + 1),
            ;
            lemma_fundamental_div_mod_converse(i, c, w, i - c * w);
        } else {
            assert(i >= c * (workers - 1));
        }
    }
}

} // verus!
