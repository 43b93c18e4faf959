use vstd::prelude::*;
use crate::collector::{
    accept_all, awaited, complete, contents, lemma_arrival_order, named, names, names_each_once,
    Collector,
};
use crate::dispatch::{route, task, MsgInput, MsgOutput};
use crate::error::Error;
use crate::matrix::{product, product_cell, Grid, Matrix};
use crate::numeric::Numeric;

verus! {

/// The sending half of a reply channel, `oneshot::Sender`: it carries at
/// most one value to the receiving half. Nothing of its state is visible
/// here.
#[verifier::external_type_specification]
#[verifier::external_body]
#[verifier::reject_recursive_types(T)]
pub struct ExReplySender<T>(oneshot::Sender<T>);

/// The receiving half of a reply channel, `oneshot::Receiver`. Nothing of
/// its state is visible here.
#[verifier::external_type_specification]
#[verifier::external_body]
#[verifier::reject_recursive_types(T)]
pub struct ExReplyReceiver<T>(oneshot::Receiver<T>);

/// `oneshot::SendError`: what `oneshot::Sender::send` returns when the
/// receiving half is gone. It holds the value that was not delivered.
#[verifier::external_type_specification]
#[verifier::external_body]
#[verifier::reject_recursive_types(T)]
pub struct ExReplySendError<T>(oneshot::SendError<T>);

/// `oneshot::RecvError`: what `oneshot::Receiver::recv` returns when no
/// value will ever arrive.
#[verifier::external_type_specification]
#[verifier::external_body]
pub struct ExReplyRecvError(oneshot::RecvError);

/// The sending handle of a worker's queue, `std::sync::mpsc::Sender`.
/// Nothing of its state is visible here.
#[verifier::external_type_specification]
#[verifier::external_body]
#[verifier::reject_recursive_types(T)]
pub struct ExQueueSender<T>(std::sync::mpsc::Sender<T>);

/// `std::sync::mpsc::SendError`: what `std::sync::mpsc::Sender::send`
/// returns when the queue's receiver is gone. It holds the value that was
/// not delivered.
#[verifier::external_type_specification]
#[verifier::external_body]
#[verifier::reject_recursive_types(T)]
pub struct ExQueueSendError<T>(std::sync::mpsc::SendError<T>);

/// `oneshot::channel` makes a fresh channel and returns its two halves.
/// Nothing is claimed of them.
pub assume_specification<T>[ oneshot::channel::<T> ]() -> (halves: (
    oneshot::Sender<T>,
    oneshot::Receiver<T>,
));

/// `oneshot::Sender::send` hands `message` to the channel and fails only
/// if the receiving half was dropped. Which of the two happens depends on
/// the other side, so nothing is claimed of the result.
pub assume_specification<T>[ oneshot::Sender::<T>::send ](
    sender: oneshot::Sender<T>,
    message: T,
) -> (sent: Result<(), oneshot::SendError<T>>);

/// `oneshot::Receiver::recv` waits until the sending half has sent its
/// value or was dropped. What comes back depends on the other side, so
/// nothing is claimed of the result. With the crate's `async` feature off,
/// as it is here, the call has no panicking branch; it returns as soon as
/// the sending half is used or dropped.
pub assume_specification<T>[ oneshot::Receiver::<T>::recv ](receiver: oneshot::Receiver<T>) -> (got:
    Result<T, oneshot::RecvError>);

/// `std::sync::mpsc::Sender::send` puts `t` on the queue without blocking
/// and fails only if the queue's receiver was dropped. Which of the two
/// happens depends on the other side, so nothing is claimed of the result.
pub assume_specification<T>[ std::sync::mpsc::Sender::<T>::send ](
    sender: &std::sync::mpsc::Sender<T>,
    t: T,
) -> (sent: Result<(), std::sync::mpsc::SendError<T>>);

/// A task on its way to a worker: the work, and the sending half of the
/// channel on which the one reply is owed.
#[verifier::reject_recursive_types(T)]
pub struct Msg<T> {
    pub input: MsgInput<T>,
    pub sender: oneshot::Sender<MsgOutput<T>>,
}

impl<T> Msg<T> {
    /// The task `input` with the channel `sender` for its reply.
    pub fn new(input: MsgInput<T>, sender: oneshot::Sender<MsgOutput<T>>) -> (m: Self)
        ensures
            m.input == input,
            m.sender == sender,
    {
        Self { input, sender }
    }
}

impl<T: Numeric> Msg<T> {
    /// What a worker does with one message: it reduces the task and sends
    /// the reply on the task's channel. `Ok(true)` says that the reply was
    /// taken, `Ok(false)` that nobody was listening any more, which is no
    /// failure of the worker. A task that the reducer refuses gets no reply.
    pub fn handle(self) -> (r: Result<bool, Error>)
        ensures
            self.input.reducible() ==> r is Ok,
            !self.input.reducible() ==> r == Err::<bool, Error>(Error::LengthMismatch),
    {
        match self.input.reduce() {
            Ok(out) => {
                match self.sender.send(out) {
                    Ok(()) => Ok(true),
                    Err(_) => Ok(false),
                }
            },
            Err(e) => Err(e),
        }
    }
}

/// The task-submission handles of a fixed set of workers, one queue each.
#[verifier::reject_recursive_types(T)]
pub struct Pool<T> {
    senders: Vec<std::sync::mpsc::Sender<Msg<T>>>,
}

impl<T> Pool<T> {
    /// The number of workers.
    pub closed spec fn size(&self) -> nat {
        self.senders@.len()
    }

    /// A pool over the queues of workers that are already running, one
    /// handle for each.
    pub fn new(senders: Vec<std::sync::mpsc::Sender<Msg<T>>>) -> (p: Self)
        ensures
            p.size() == senders@.len(),
    {
        Self { senders }
    }

    /// The number of workers.
    pub fn workers(&self) -> (n: usize)
        ensures
            n == self.size(),
    {
        self.senders.len()
    }

    /// Puts `msg` on the queue of worker `worker_index` without waiting.
    /// It fails where there is no such worker; whether a worker that exists
    /// still takes tasks is for the worker to decide.
    pub fn submit(&self, worker_index: usize, msg: Msg<T>) -> (r: Result<(), Error>)
        ensures
            worker_index >= self.size() ==> r == Err::<(), Error>(Error::WorkerUnavailable),
            r is Err ==> r == Err::<(), Error>(Error::WorkerUnavailable),
    {
        if worker_index >= self.senders.len() {
            return Err(Error::WorkerUnavailable);
        }
        match self.senders[worker_index].send(msg) {
            Ok(()) => Ok(()),
            Err(_) => Err(Error::WorkerUnavailable),
        }
    }
}

/// Makes one task for every cell of the product of `a` and `b`, each with a
/// reply channel of its own, and submits the task for index `idx` to worker
/// `idx % workers`. It returns the receiving halves in the order of the
/// indices, and gives up at the first task that no worker takes.
pub fn send_tasks<T: Copy>(pool: &Pool<T>, a: &Matrix<T>, b: &Matrix<T>) -> (r: Result<
    Vec<oneshot::Receiver<MsgOutput<T>>>,
    Error,
>)
    requires
        a@.row * b@.col <= usize::MAX,
    ensures
        match r {
            Ok(receivers) => receivers@.len() == a@.row * b@.col,
            Err(e) => e == Error::WorkerUnavailable && a@.row * b@.col > 0,
        },
        a@.row * b@.col == 0 ==> r is Ok,
        pool.size() == 0 && a@.row * b@.col > 0 ==> r is Err,
{
    let total: usize = a.row() * b.col();
    let workers: usize = pool.workers();
    let mut receivers: Vec<oneshot::Receiver<MsgOutput<T>>> = Vec::new();
    let mut idx: usize = 0;
    while idx < total
        invariant
            idx <= total,
            total == a@.row * b@.col,
            workers == pool.size(),
            workers == 0 ==> idx == 0,
            receivers@.len() == idx,
        decreases total - idx,
    {
        if workers == 0 {
            return Err(Error::WorkerUnavailable);
        }
        let (tx, rx) = oneshot::channel();
        let msg = Msg::new(task(a, b, idx), tx);
        match pool.submit(route(idx, workers), msg) {
            Ok(()) => {},
            Err(e) => {
                return Err(e);
            },
        }
        receivers.push(rx);
        idx += 1;
    }
    Ok(receivers)
}

/// Waits for every reply in the order given and writes each value into
/// the slot that it names, in a buffer with one slot for every channel. It
/// gives up at the first channel that closed without a value and at the
/// first reply that names no slot or a slot already written, so a buffer
/// that comes back has had every slot written exactly once.
pub fn gather<T: Copy>(receivers: Vec<oneshot::Receiver<MsgOutput<T>>>) -> (r: Result<
    Vec<T>,
    Error,
>)
    ensures
        match r {
            Ok(data) => data@.len() == receivers@.len(),
            Err(e) => e == Error::WorkerUnavailable && receivers@.len() > 0,
        },
{
    let ghost total = receivers@.len();
    let mut collector: Collector<T> = Collector::new(receivers.len());
    for rx in iter: receivers
        invariant
            collector@.len() == total,
            iter.seq().len() == total,
    {
        let reply = match rx.recv() {
            Ok(out) => Some(out),
            Err(_) => None,
        };
        match collector.accept(reply) {
            Ok(()) => {},
            Err(e) => {
                return Err(e);
            },
        }
    }
    let ghost slots = collector@;
    match collector.finish() {
        Ok(data) => Ok(data),
        Err(e) => {
            assert(slots.len() > 0) by {
                if slots.len() == 0 {
                    assert(complete(slots));
                }
            }
            Err(e)
        },
    }
}

/// Workers that answer every task as `MsgInput::answer` says make the
/// product: replies that name every cell exactly once, each with the
/// reduction for its cell, fill the buffer with the cells of the product of
/// `a` and `b`, in whatever order they arrive.
pub proof fn lemma_honest_replies_make_product<T: Numeric>(
    a: Grid<T>,
    b: Grid<T>,
    replies: Seq<MsgOutput<T>>,
)
    requires
        names_each_once(replies, a.row * b.col),
        forall|p: int|
            0 <= p < replies.len() ==> (#[trigger] replies[p]).value == product_cell(
                a,
                b,
                replies[p].idx as int,
            ),
    ensures
        accept_all(awaited::<T>(a.row * b.col), replies) is Some,
        contents(accept_all(awaited::<T>(a.row * b.col), replies)->Some_0) == product(a, b).data,
{
    let n = a.row * b.col;
    lemma_arrival_order(replies, n);
    let s = accept_all(awaited::<T>(n), replies)->Some_0;
    assert forall|i: int| 0 <= i < n implies contents(s)[i] == product(a, b).data[i] by {
        assert(named(replies, i));
        let p = choose|p: int| names(replies, p, i);
        assert(s[replies[p].idx as int] == Some(replies[p].value));
    }
    assert(contents(s) =~= product(a, b).data);
}

/// Multiplies `a` by `b` on the workers of `pool`: the tasks are sent as
/// `send_tasks` does and the replies gathered as `gather` does. Operands
/// whose shapes do not fit are refused before any channel is made, and a
/// product without cells needs no worker. What the cells hold is what the
/// workers replied; a worker that runs `Msg::handle` replies with the cells
/// of the product. The call returns when every worker has answered or
/// dropped its tasks.
pub fn multiply_on<T: Copy>(pool: &Pool<T>, a: &Matrix<T>, b: &Matrix<T>) -> (r: Result<
    Matrix<T>,
    Error,
>)
    requires
        a@.col == b@.row ==> a@.row * b@.col <= usize::MAX,
    ensures
        a@.col != b@.row ==> r is Err && r->Err_0 == Error::DimensionMismatch,
        a@.col == b@.row ==> match r {
            Ok(m) => m@.row == a@.row && m@.col == b@.col && m@.wf(),
            Err(e) => e == Error::WorkerUnavailable && a@.row * b@.col > 0,
        },
{
    if a.col() != b.row() {
        return Err(Error::DimensionMismatch);
    }
    let receivers = match send_tasks(pool, a, b) {
        Ok(receivers) => receivers,
        Err(e) => {
            return Err(e);
        },
    };
    match gather(receivers) {
        Ok(data) => Ok(Matrix::new(data, a.row(), b.col())),
        Err(e) => Err(e),
    }
}

} // verus!
