use concurrency::collector::Collector;
use concurrency::dispatch::{dispatch, serve};
use concurrency::{
    gather, multiply_on, route, send_tasks, task, Error, Matrix, Msg, MsgInput, MsgOutput, Pool,
    Vector, NUM_THREADS,
};
use std::sync::mpsc;

fn queues(n: usize) -> (Pool<i64>, Vec<mpsc::Receiver<Msg<i64>>>) {
    let mut senders = Vec::new();
    let mut receivers = Vec::new();
    for _ in 0..n {
        let (tx, rx) = mpsc::channel();
        senders.push(tx);
        receivers.push(rx);
    }
    (Pool::new(senders), receivers)
}

fn operands() -> (Matrix<i64>, Matrix<i64>) {
    (
        Matrix::new(vec![1, 2, 3, 4, 5, 6], 2, 3),
        Matrix::new(vec![1, 2, 3, 4, 5, 6], 3, 2),
    )
}

#[test]
fn route_deals_indices_out_in_turn() {
    assert_eq!(NUM_THREADS, 4);
    assert_eq!(route(0, 4), 0);
    assert_eq!(route(5, 4), 1);
    assert_eq!(route(7, 4), 3);
    assert_eq!(route(8, 4), 0);
    assert_eq!(route(9, 1), 0);
    assert_eq!(route(16, 17), 16);
    assert_eq!(route(17, 17), 0);
}

#[test]
fn task_carries_row_column_and_index() {
    let (a, b) = operands();
    let t = task(&a, &b, 3);
    assert_eq!(t.idx, 3);
    assert_eq!(t.row.as_slice(), &[4, 5, 6]);
    assert_eq!(t.col.as_slice(), &[2, 4, 6]);
    let out = t.reduce().unwrap();
    assert_eq!(out.idx, 3);
    assert_eq!(out.value, 64);
}

#[test]
fn reduce_refuses_unequal_lengths() {
    let t = MsgInput::new(0, Vector::new(vec![1i64, 2]), Vector::new(vec![1i64]));
    assert!(matches!(t.reduce(), Err(Error::LengthMismatch)));
}

#[test]
fn every_index_is_dealt_out_exactly_once() {
    let a = Matrix::new(vec![1i64; 5 * 2], 5, 2);
    let b = Matrix::new(vec![1i64; 2 * 7], 2, 7);
    for workers in [1usize, 2, 4, 17] {
        let queues = dispatch(&a, &b, workers);
        assert_eq!(queues.len(), workers);
        let mut seen = vec![0usize; 35];
        for (w, queue) in queues.iter().enumerate() {
            for (k, t) in queue.iter().enumerate() {
                assert_eq!(t.idx, w + k * workers);
                assert_eq!(route(t.idx, workers), w);
                seen[t.idx] += 1;
            }
        }
        assert_eq!(seen, vec![1usize; 35]);
    }
}

#[test]
fn serve_answers_first_in_first_out() {
    let (a, b) = operands();
    let queues = dispatch(&a, &b, 3);
    let replies = serve(&queues[0]).unwrap();
    assert_eq!(replies.len(), 2);
    assert_eq!((replies[0].idx, replies[0].value), (0, 22));
    assert_eq!((replies[1].idx, replies[1].value), (3, 64));
    let replies = serve(&queues[2]).unwrap();
    assert_eq!(replies.len(), 1);
    assert_eq!((replies[0].idx, replies[0].value), (2, 49));
}

#[test]
fn serve_stops_at_a_task_the_reducer_refuses() {
    let queue = vec![
        MsgInput::new(0, Vector::new(vec![1i64]), Vector::new(vec![2i64])),
        MsgInput::new(1, Vector::new(vec![1i64]), Vector::new(vec![])),
    ];
    assert!(matches!(serve(&queue), Err(Error::LengthMismatch)));
}

#[test]
fn collector_writes_each_slot_once() {
    let mut c: Collector<i64> = Collector::new(3);
    assert_eq!(c.len(), 3);
    assert_eq!(c.store(MsgOutput { idx: 2, value: 30 }), Ok(()));
    assert_eq!(c.store(MsgOutput { idx: 0, value: 10 }), Ok(()));
    assert_eq!(
        c.store(MsgOutput { idx: 2, value: 31 }),
        Err(Error::WorkerUnavailable)
    );
    assert_eq!(
        c.store(MsgOutput { idx: 3, value: 40 }),
        Err(Error::WorkerUnavailable)
    );
    assert_eq!(c.accept(None), Err(Error::WorkerUnavailable));
    assert_eq!(c.accept(Some(MsgOutput { idx: 1, value: 20 })), Ok(()));
    assert_eq!(c.finish(), Ok(vec![10, 20, 30]));
}

#[test]
fn collector_refuses_to_finish_with_a_slot_awaited() {
    let mut c: Collector<i64> = Collector::new(2);
    assert_eq!(c.store(MsgOutput { idx: 1, value: 5 }), Ok(()));
    assert_eq!(c.finish(), Err(Error::WorkerUnavailable));
    let c: Collector<i64> = Collector::new(0);
    assert_eq!(c.finish(), Ok(vec![]));
}

#[test]
fn tasks_travel_through_the_channels() {
    for workers in [1usize, 2, 4, 17] {
        let (a, b) = operands();
        let (pool, inboxes) = queues(workers);
        assert_eq!(pool.workers(), workers);
        let receivers = send_tasks(&pool, &a, &b).unwrap();
        assert_eq!(receivers.len(), 4);
        drop(pool);
        for (w, inbox) in inboxes.into_iter().enumerate() {
            for msg in inbox {
                assert_eq!(route(msg.input.idx, workers), w);
                assert_eq!(msg.handle(), Ok(true));
            }
        }
        assert_eq!(gather(receivers), Ok(vec![22, 28, 49, 64]));
    }
}

#[test]
fn multiply_on_needs_no_worker_for_an_empty_product() {
    let a: Matrix<i64> = Matrix::new(vec![], 0, 3);
    let b: Matrix<i64> = Matrix::new(vec![1, 2, 3, 4, 5, 6], 3, 2);
    let (pool, _inboxes) = queues(0);
    let c = multiply_on(&pool, &a, &b).unwrap();
    assert_eq!(c.row(), 0);
    assert_eq!(c.col(), 2);
    assert!(c.data().is_empty());
}

#[test]
fn multiply_on_refuses_unfit_shapes_before_any_task() {
    let a = Matrix::new(vec![1i64, 2, 3, 4, 5, 6], 2, 3);
    let b = Matrix::new(vec![1i64, 2, 3, 4], 2, 2);
    let (pool, inboxes) = queues(2);
    assert!(matches!(
        multiply_on(&pool, &a, &b),
        Err(Error::DimensionMismatch)
    ));
    drop(pool);
    for inbox in inboxes {
        assert!(inbox.recv().is_err());
    }
}

#[test]
fn a_worker_that_is_gone_is_fatal() {
    let (a, b) = operands();
    let (pool, inboxes) = queues(2);
    drop(inboxes);
    assert!(matches!(
        send_tasks(&pool, &a, &b),
        Err(Error::WorkerUnavailable)
    ));
    assert!(matches!(
        multiply_on(&pool, &a, &b),
        Err(Error::WorkerUnavailable)
    ));
}

#[test]
fn a_pool_without_workers_takes_no_task() {
    let (a, b) = operands();
    let (pool, _inboxes) = queues(0);
    assert!(matches!(
        send_tasks(&pool, &a, &b),
        Err(Error::WorkerUnavailable)
    ));
    let (tx, _rx) = oneshot::channel();
    let msg = Msg::new(task(&a, &b, 0), tx);
    assert_eq!(pool.submit(0, msg), Err(Error::WorkerUnavailable));
}

#[test]
fn a_task_dropped_without_reply_is_fatal() {
    let (a, b) = operands();
    let (pool, inboxes) = queues(2);
    let receivers = send_tasks(&pool, &a, &b).unwrap();
    drop(pool);
    drop(inboxes);
    assert_eq!(gather(receivers), Err(Error::WorkerUnavailable));
}

#[test]
fn a_reply_for_a_slot_already_written_is_fatal() {
    let (tx0, rx0) = oneshot::channel();
    let (tx1, rx1) = oneshot::channel();
    tx0.send(MsgOutput { idx: 1, value: 7i64 }).unwrap();
    tx1.send(MsgOutput { idx: 1, value: 8i64 }).unwrap();
    assert_eq!(gather(vec![rx0, rx1]), Err(Error::WorkerUnavailable));
}

#[test]
fn replies_land_in_the_slot_they_name() {
    let (tx0, rx0) = oneshot::channel();
    let (tx1, rx1) = oneshot::channel();
    let (tx2, rx2) = oneshot::channel();
    tx2.send(MsgOutput { idx: 0, value: 5i64 }).unwrap();
    tx0.send(MsgOutput { idx: 2, value: 7i64 }).unwrap();
    tx1.send(MsgOutput { idx: 1, value: 6i64 }).unwrap();
    assert_eq!(gather(vec![rx0, rx1, rx2]), Ok(vec![5, 6, 7]));
}

#[test]
fn a_reply_nobody_waits_for_is_no_failure() {
    let (a, b) = operands();
    let (tx, rx) = oneshot::channel();
    drop(rx);
    assert_eq!(Msg::new(task(&a, &b, 1), tx).handle(), Ok(false));
    let (tx, rx) = oneshot::channel();
    let bad = MsgInput::new(0, Vector::new(vec![1i64]), Vector::new(vec![]));
    assert_eq!(Msg::new(bad, tx).handle(), Err(Error::LengthMismatch));
    assert!(rx.recv().is_err());
}
