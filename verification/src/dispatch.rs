use vstd::prelude::*;
use vstd::arithmetic::div_mod::*;
use crate::error::Error;
use crate::matrix::{Grid, Matrix};
use crate::numeric::Numeric;
use crate::vector::{dot_slices, dot_spec, Vector};

verus! {

/// One unit of work: the row and the column to reduce, and the index of the
/// output cell that the result belongs to.
pub struct MsgInput<T> {
    pub idx: usize,
    pub row: Vector<T>,
    pub col: Vector<T>,
}

/// The answer to one unit of work: a value and the output cell it belongs to.
pub struct MsgOutput<T> {
    pub idx: usize,
    pub value: T,
}

impl<T> MsgInput<T> {
    /// The task for output index `idx` over `row` and `col`.
    pub fn new(idx: usize, row: Vector<T>, col: Vector<T>) -> (m: Self)
        ensures
            m == (MsgInput { idx, row, col }),
    {
        Self { idx, row, col }
    }
}

impl<T: Numeric> MsgInput<T> {
    /// The reply that a worker owes for the task.
    pub open spec fn answer(self) -> MsgOutput<T> {
        MsgOutput { idx: self.idx, value: dot_spec(self.row@, self.col@) }
    }

    /// Whether the reducer accepts the task.
    pub open spec fn reducible(self) -> bool {
        self.row@.len() == self.col@.len()
    }

    /// What a worker does with one task: it reduces the row and the column
    /// and labels the value with the task's index.
    pub fn reduce(&self) -> (r: Result<MsgOutput<T>, Error>)
        ensures
            self.reducible() ==> r == Ok::<MsgOutput<T>, Error>(self.answer()),
            !self.reducible() ==> r == Err::<MsgOutput<T>, Error>(Error::LengthMismatch),
    {
        match dot_slices(self.row.as_slice(), self.col.as_slice()) {
            Ok(value) => Ok(MsgOutput { idx: self.idx, value }),
            Err(e) => Err(e),
        }
    }
}

/// The replies that a worker owes for the tasks of `queue`, in order.
pub open spec fn answers<T: Numeric>(queue: Seq<MsgInput<T>>) -> Seq<MsgOutput<T>> {
    queue.map_values(|m: MsgInput<T>| m.answer())
}

/// The reducer accepts every task of `queue`.
pub open spec fn all_reducible<T: Numeric>(queue: Seq<MsgInput<T>>) -> bool {
    forall|k: int| 0 <= k < queue.len() ==> (#[trigger] queue[k]).reducible()
}

/// What one worker does with its queue: it takes the tasks first in, first
/// out and answers each. It stops at the first task that the reducer
/// refuses, so that task and those behind it get no reply.
pub fn serve<T: Numeric>(queue: &Vec<MsgInput<T>>) -> (r: Result<Vec<MsgOutput<T>>, Error>)
    ensures
        all_reducible(queue@) ==> r is Ok && r->Ok_0@ == answers(queue@),
        !all_reducible(queue@) ==> r == Err::<Vec<MsgOutput<T>>, Error>(Error::LengthMismatch),
{
    let mut replies: Vec<MsgOutput<T>> = Vec::new();
    let mut k: usize = 0;
    while k < queue.len()
        invariant
            k <= queue@.len(),
            replies@ == answers(queue@.take(k as int)),
            all_reducible(queue@.take(k as int)),
        decreases queue@.len() - k,
    {
        match queue[k].reduce() {
            Ok(out) => {
                replies.push(out);
            },
            Err(e) => {
                return Err(e);
            },
        }
        k += 1;
        proof {
            assert(replies@ =~= answers(queue@.take(k as int)));
            assert forall|t: int| 0 <= t < k implies (#[trigger] queue@.take(
                k as int,
            )[t]).reducible() by {
                if t < k - 1 {
                    assert(queue@.take(k - 1)[t].reducible());
                }
            }
        }
    }
    proof {
        assert(queue@.take(k as int) =~= queue@);
    }
    Ok(replies)
}

/// The worker that the task for output index `idx` goes to, among `workers`
/// of them: indices are dealt out in turn.
pub open spec fn route_spec(idx: int, workers: int) -> int {
    idx % workers
}

/// The worker that the task for output index `idx` goes to.
pub fn route(idx: usize, workers: usize) -> (w: usize)
    requires
        workers > 0,
    ensures
        w == route_spec(idx as int, workers as int),
        w < workers,
{
    idx % workers
}

/// The number of tasks that worker `w` gets when `total` tasks are dealt out
/// in turn to `workers` workers.
pub open spec fn share(total: int, workers: int, w: int) -> int {
    (total + workers - 1 - w) / workers
}

/// The output index of the task at position `k` of the queue of worker `w`.
pub open spec fn index_at(w: int, k: int, workers: int) -> int {
    w + k * workers
}

/// `m` is the task for output index `idx` of the product of `a` and `b`: it
/// carries the row of `a` and the column of `b` that cross at that cell.
pub open spec fn is_task<T>(m: MsgInput<T>, a: Grid<T>, b: Grid<T>, idx: int) -> bool {
    &&& m.idx == idx
    &&& m.row@ == a.row_at(idx / b.col as int)
    &&& m.col@ == b.col_at(idx % b.col as int)
}

/// Builds the task for output index `idx` of the product of `a` and `b`.
pub fn task<T: Copy>(a: &Matrix<T>, b: &Matrix<T>, idx: usize) -> (m: MsgInput<T>)
    requires
        idx < a@.row * b@.col,
    ensures
        is_task(m, a@, b@, idx as int),
{
    let cols: usize = b.col();
    proof {
        assert(cols > 0 && idx < cols * a@.row) by (nonlinear_arith)
            requires
                idx < a@.row * cols,
        ;
        lemma_multiply_divide_lt(idx as int, cols as int, a@.row as int);
        lemma_mod_bound(idx as int, cols as int);
        lemma_div_pos_is_pos(idx as int, cols as int);
    }
    let i: usize = idx / cols;
    let j: usize = idx % cols;
    MsgInput::new(idx, a.row_vector(i), b.col_vector(j))
}

/// The queues hold the first `total` tasks of the product of `a` and `b`,
/// dealt out in turn: worker `w` has the tasks for the indices `w`,
/// `w + workers`, `w + 2 * workers` and so on, in that order.
pub open spec fn dealt<T>(
    queues: Seq<Vec<MsgInput<T>>>,
    a: Grid<T>,
    b: Grid<T>,
    total: int,
) -> bool {
    &&& forall|w: int|
        0 <= w < queues.len() ==> (#[trigger] queues[w])@.len() == share(
            total,
            queues.len() as int,
            w,
        )
    &&& forall|w: int, k: int|
        0 <= w < queues.len() && 0 <= k < queues[w]@.len() ==> is_task(
            #[trigger] queues[w]@[k],
            a,
            b,
            index_at(w, k, queues.len() as int),
        )
}

/// Builds one task for every cell of the product of `a` and `b` and deals
/// them out to `workers` queues, the task for index `idx` to worker
/// `idx % workers`.
pub fn dispatch<T: Copy>(a: &Matrix<T>, b: &Matrix<T>, workers: usize) -> (queues: Vec<
    Vec<MsgInput<T>>,
>)
    requires
        workers > 0,
        a@.row * b@.col <= usize::MAX,
    ensures
        queues@.len() == workers,
        dealt(queues@, a@, b@, (a@.row * b@.col) as int),
{
    let total: usize = a.row() * b.col();
    let mut queues: Vec<Vec<MsgInput<T>>> = Vec::new();
    let mut w: usize = 0;
    while w < workers
        invariant
            w <= workers,
            queues@.len() == w,
            forall|v: int| 0 <= v < w ==> (#[trigger] queues@[v])@.len() == 0,
        decreases workers - w,
    {
        queues.push(Vec::new());
        w += 1;
    }
    proof {
        assert forall|v: int| 0 <= v < workers implies share(0, workers as int, v) == 0 by {
            lemma_share_bounds(0, workers as int, v);
        }
    }
    let mut idx: usize = 0;
    while idx < total
        invariant
            workers > 0,
            idx <= total,
            total == a@.row * b@.col,
            queues@.len() == workers,
            dealt(queues@, a@, b@, idx as int),
        decreases total - idx,
    {
        let m = task(a, b, idx);
        let w = route(idx, workers);
        let ghost before = queues@;
        proof {
            lemma_share_step(idx as int, workers as int);
        }
        queues[w].push(m);
        proof {
            assert forall|v: int, k: int|
                0 <= v < workers && 0 <= k < queues@[v]@.len() implies is_task(
                #[trigger] queues@[v]@[k],
                a@,
                b@,
                index_at(v, k, workers as int),
            ) by {
                if v == w && k == before[v]@.len() {
                    lemma_every_index_once(idx + 1, workers as int, idx as int);
                } else {
                    assert(queues@[v]@[k] == before[v]@[k]);
                }
            }
        }
        idx += 1;
    }
    queues
}

/// Every output index is the target of exactly one task: among queues
/// that hold the tasks of a product dealt out in turn, whatever the number
/// of workers, the task for index `idx` stands in one place and in no other,
/// and no task names an index outside the product.
pub proof fn lemma_dealt_once<T>(
    queues: Seq<Vec<MsgInput<T>>>,
    a: Grid<T>,
    b: Grid<T>,
    total: int,
    idx: int,
)
    requires
        queues.len() > 0,
        0 <= total,
        dealt(queues, a, b, total),
        0 <= idx < total,
    ensures
        0 <= idx % (queues.len() as int) < queues.len(),
        0 <= idx / (queues.len() as int) < queues[idx % (queues.len() as int)]@.len(),
        queues[idx % (queues.len() as int)]@[idx / (queues.len() as int)].idx == idx,
        forall|w: int, k: int|
            0 <= w < queues.len() && 0 <= k < queues[w]@.len() && (#[trigger] queues[w]@[k]).idx
                == idx ==> w == idx % (queues.len() as int) && k == idx / (queues.len() as int),
        forall|w: int, k: int|
            0 <= w < queues.len() && 0 <= k < queues[w]@.len() ==> 0 <= (
            #[trigger] queues[w]@[k]).idx < total,
{
    let n = queues.len() as int;
    lemma_every_index_once(total, n, idx);
    assert(is_task(queues[idx % n]@[idx / n], a, b, index_at(idx % n, idx / n, n)));
    assert forall|w: int, k: int|
        0 <= w < queues.len() && 0 <= k < queues[w]@.len() && (#[trigger] queues[w]@[k]).idx
            == idx implies w == idx % n && k == idx / n by {
        assert(is_task(queues[w]@[k], a, b, index_at(w, k, n)));
    }
    assert forall|w: int, k: int| 0 <= w < queues.len() && 0 <= k < queues[w]@.len() implies 0 <= (
    #[trigger] queues[w]@[k]).idx < total by {
        assert(is_task(queues[w]@[k], a, b, index_at(w, k, n)));
        lemma_every_place_used(total, n, w, k);
    }
}

/// Dealing indices out in turn puts index `idx` in exactly one place: at
/// position `idx / workers` of the queue of worker `idx % workers`.
pub proof fn lemma_every_index_once(total: int, workers: int, idx: int)
    requires
        workers > 0,
        0 <= idx < total,
    ensures
        0 <= idx % workers < workers,
        0 <= idx / workers < share(total, workers, idx % workers),
        index_at(idx % workers, idx / workers, workers) == idx,
        forall|w: int, k: int|
            0 <= w < workers && #[trigger] index_at(w, k, workers) == idx ==> w == idx % workers
                && k == idx / workers,
{
    let w0 = idx % workers;
    let k0 = idx / workers;
    lemma_fundamental_div_mod(idx, workers);
    lemma_mod_bound(idx, workers);
    lemma_div_pos_is_pos(idx, workers);
    assert(k0 * workers == workers * k0) by (nonlinear_arith);
    lemma_share_step(idx, workers);
    lemma_share_grows(idx + 1, total, workers, w0);
    lemma_share_bounds(idx, workers, w0);
    assert forall|w: int, k: int| 0 <= w < workers && #[trigger] index_at(w, k, workers)
        == idx implies w == w0 && k == k0 by {
        assert(workers * k + w == idx) by (nonlinear_arith)
            requires
                w + k * workers == idx,
        ;
        lemma_fundamental_div_mod_converse(idx, workers, k, w);
    }
}

/// Every place in a queue holds an index below the total: the queues hold
/// nothing but the tasks that were dealt out.
pub proof fn lemma_every_place_used(total: int, workers: int, w: int, k: int)
    requires
        workers > 0,
        0 <= total,
        0 <= w < workers,
        0 <= k < share(total, workers, w),
    ensures
        0 <= index_at(w, k, workers) < total,
{
    let x = total + workers - 1 - w;
    lemma_fundamental_div_mod(x, workers);
    lemma_mod_bound(x, workers);
    assert(w + k * workers < total && 0 <= w + k * workers) by (nonlinear_arith)
        requires
            0 <= k < x / workers,
            x == workers * (x / workers) + x % workers,
            0 <= x % workers < workers,
            x == total + workers - 1 - w,
            0 <= w < workers,
    ;
}

/// Before anything is dealt out every share is empty, and a share never
/// exceeds the number of indices dealt out so far.
proof fn lemma_share_bounds(total: int, workers: int, w: int)
    requires
        workers > 0,
        0 <= total,
        0 <= w < workers,
    ensures
        0 <= share(total, workers, w) <= total,
        total == 0 ==> share(total, workers, w) == 0,
        w + share(total, workers, w) * workers >= total,
{
    let x = total + workers - 1 - w;
    lemma_fundamental_div_mod(x, workers);
    lemma_mod_bound(x, workers);
    lemma_div_pos_is_pos(x, workers);
    let q = x / workers;
    assert(q <= total && (total == 0 ==> q == 0) && w + q * workers >= total) by (nonlinear_arith)
        requires
            0 <= q,
            x == workers * q + x % workers,
            0 <= x % workers < workers,
            x == total + workers - 1 - w,
            0 <= w < workers,
            0 <= total,
    ;
}

/// Dealing out one more index lengthens the queue of the worker it goes to
/// by one place, which is where the index lands, and no other queue.
proof fn lemma_share_step(idx: int, workers: int)
    requires
        workers > 0,
        0 <= idx,
    ensures
        share(idx + 1, workers, idx % workers) == share(idx, workers, idx % workers) + 1,
        share(idx, workers, idx % workers) == idx / workers,
        forall|w: int|
            0 <= w < workers && w != idx % workers ==> share(idx + 1, workers, w) == share(
                idx,
                workers,
                w,
            ),
{
    let w0 = idx % workers;
    let q = idx / workers;
    lemma_fundamental_div_mod(idx, workers);
    lemma_mod_bound(idx, workers);
    assert(idx == q * workers + w0) by (nonlinear_arith)
        requires
            idx == workers * q + w0,
    ;
    assert forall|w: int| 0 <= w < workers implies share(idx, workers, w) == (if w0 > w {
        q + 1
    } else {
        q
    }) && share(idx + 1, workers, w) == (if w0 >= w {
        q + 1
    } else {
        q
    }) by {
        let r1 = workers - 1 + w0 - w;
        assert((q + 1) * workers == q * workers + workers) by (nonlinear_arith);
        if w0 > w {
            lemma_fundamental_div_mod_converse(idx + workers - 1 - w, workers, q + 1, r1 - workers);
        } else {
            lemma_fundamental_div_mod_converse(idx + workers - 1 - w, workers, q, r1);
        }
        let r2 = r1 + 1;
        if w0 >= w {
            lemma_fundamental_div_mod_converse(idx + workers - w, workers, q + 1, r2 - workers);
        } else {
            lemma_fundamental_div_mod_converse(idx + workers - w, workers, q, r2);
        }
    }
}

/// A share does not shrink when more indices are dealt out.
proof fn lemma_share_grows(lo: int, hi: int, workers: int, w: int)
    requires
        workers > 0,
        0 <= lo <= hi,
        0 <= w < workers,
    ensures
        share(lo, workers, w) <= share(hi, workers, w),
{
    lemma_div_is_ordered(lo + workers - 1 - w, hi + workers - 1 - w, workers);
}

} // verus!
