use server::Directive;
use server::JobMessage;
use server::PoolAction;
use server::ThreadPool;
use server::WorkerLoop;
use std::cell::RefCell;
use std::rc::Rc;
use std::sync::mpsc::channel;
use std::sync::mpsc::Receiver;
use std::sync::mpsc::Sender;

type Job = Box<dyn FnOnce()>;

type Log = Rc<RefCell<Vec<usize>>>;

/// What the bench saw happen, in order.
#[derive(Debug, PartialEq, Eq, Clone)]
enum Seen {
    Signal,
    Began { worker: usize },
    Ended { worker: usize },
    Stopped { worker: usize },
    Joined { worker: usize },
}

/// A pool with its channel and its workers, all of them driven by the test,
/// one step at a time, so that every schedule can be written down. A worker
/// that has dequeued a job holds it until the test lets it finish.
struct Bench {
    pool: ThreadPool<String>,
    sender: Sender<JobMessage<Job>>,
    receiver: Receiver<JobMessage<Job>>,
    loops: Vec<WorkerLoop>,
    busy: Vec<Option<Job>>,
    seen: Vec<Seen>,
}

impl Bench {
    fn start(size: usize) -> Bench {
        let mut pool = ThreadPool::new(size).unwrap();
        let (sender, receiver) = channel();
        let mut loops = Vec::new();
        let mut busy = Vec::new();
        while let Some(id) = pool.next_worker() {
            loops.push(WorkerLoop::new(id));
            busy.push(None);
            assert_eq!(pool.register(format!("thread-{}", id)), Ok(id));
        }
        Bench { pool, sender, receiver, loops, busy, seen: Vec::new() }
    }

    fn submit(&self, job: Job) {
        Bench::submit_through(&self.pool, &self.sender, job);
    }

    fn submit_through(pool: &ThreadPool<String>, sender: &Sender<JobMessage<Job>>, job: Job) {
        assert!(pool.is_accepting());
        sender.send(pool.execute(job)).unwrap();
    }

    /// Lets the worker `id` dequeue one message. Says whether it did: a
    /// terminated or busy worker does not receive, and nor does any worker
    /// while the channel is empty.
    fn receive(&mut self, id: usize) -> bool {
        if !self.loops[id].is_running() || self.busy[id].is_some() {
            return false;
        }
        match self.receiver.try_recv() {
            Ok(message) => {
                match self.loops[id].on_message(message) {
                    Directive::Run(job) => {
                        self.busy[id] = Some(job);
                        self.seen.push(Seen::Began { worker: id });
                    }
                    Directive::Exit => self.seen.push(Seen::Stopped { worker: id }),
                }
                true
            }
            Err(_) => false,
        }
    }

    /// Lets the worker `id` run the job it holds to its end. Says whether it
    /// held one.
    fn finish(&mut self, id: usize) -> bool {
        match self.busy[id].take() {
            Some(job) => {
                job();
                self.seen.push(Seen::Ended { worker: id });
                true
            }
            None => false,
        }
    }

    /// Sends the next signal of the teardown. Says whether one was due.
    fn signal(&mut self) -> bool {
        match self.pool.shutdown_step() {
            PoolAction::Signal(message) => {
                assert!(message.is_terminate());
                self.sender.send(message).unwrap();
                self.seen.push(Seen::Signal);
                true
            }
            _ => false,
        }
    }

    /// Takes the teardown to its end. A join waits for its worker; while it
    /// waits, the workers that can do something do it in turn, beginning
    /// behind `first`.
    fn teardown(&mut self, first: usize) {
        let mut turn = first;
        loop {
            match self.pool.shutdown_step() {
                PoolAction::Signal(message) => {
                    assert!(message.is_terminate());
                    self.sender.send(message).unwrap();
                    self.seen.push(Seen::Signal);
                }
                PoolAction::Join { id, handle } => {
                    while self.loops[id].is_running() {
                        turn = (turn + 1) % self.loops.len();
                        if !self.finish(turn) && self.loops[turn].is_running() {
                            assert!(self.receive(turn));
                        }
                    }
                    assert_eq!(handle, format!("thread-{}", id));
                    self.seen.push(Seen::Joined { worker: id });
                }
                PoolAction::Done => break,
            }
        }
    }

    fn count(&self, wanted: fn(&Seen) -> bool) -> usize {
        self.seen.iter().filter(|seen| wanted(seen)).count()
    }

    fn count_for(&self, wanted: Seen) -> usize {
        self.seen.iter().filter(|seen| **seen == wanted).count()
    }

    fn all_terminated(&self) -> bool {
        self.loops.iter().all(|worker| !worker.is_running())
    }

    fn channel_is_empty(&self) -> bool {
        self.receiver.try_recv().is_err()
    }
}

fn record(log: &Log, job: usize) -> Job {
    let log = Rc::clone(log);
    Box::new(move || log.borrow_mut().push(job))
}

fn is_signal(seen: &Seen) -> bool {
    *seen == Seen::Signal
}

fn is_began(seen: &Seen) -> bool {
    matches!(seen, Seen::Began { .. })
}

fn is_ended(seen: &Seen) -> bool {
    matches!(seen, Seen::Ended { .. })
}

fn is_joined(seen: &Seen) -> bool {
    matches!(seen, Seen::Joined { .. })
}

#[test]
fn four_workers_run_ten_jobs_and_are_joined() {
    let mut bench = Bench::start(4);
    let done: Log = Rc::new(RefCell::new(Vec::new()));
    for job in 0..10 {
        bench.submit(record(&done, job));
    }
    bench.teardown(0);
    let mut ran = done.borrow().clone();
    assert_eq!(ran.len(), 10);
    ran.sort();
    assert_eq!(ran, vec![0, 1, 2, 3, 4, 5, 6, 7, 8, 9]);
    assert_eq!(bench.count(is_signal), 4);
    assert_eq!(bench.count(is_began), 10);
    assert_eq!(bench.count(is_ended), 10);
    assert_eq!(bench.count(is_joined), 4);
    for worker in 0..4 {
        assert_eq!(bench.count_for(Seen::Stopped { worker }), 1);
        assert_eq!(bench.count_for(Seen::Joined { worker }), 1);
    }
    assert!(bench.all_terminated());
    assert!(bench.channel_is_empty());
    assert!(bench.pool.is_shut_down());
}

#[test]
fn four_workers_run_ten_no_op_jobs() {
    let mut bench = Bench::start(4);
    for _ in 0..10 {
        bench.submit(Box::new(|| {}));
    }
    bench.teardown(2);
    assert_eq!(bench.count(is_ended), 10);
    assert_eq!(bench.count(is_joined), 4);
    assert!(bench.all_terminated());
    assert!(bench.pool.is_shut_down());
}

#[test]
fn one_worker_runs_both_jobs_before_it_stops() {
    let mut bench = Bench::start(1);
    let done: Log = Rc::new(RefCell::new(Vec::new()));
    bench.submit(record(&done, 100));
    bench.submit(record(&done, 200));
    // The worker takes the first job and is slow about it.
    assert!(bench.receive(0));
    // The teardown begins at once: the first job is in progress and the
    // second still waits in the channel.
    assert!(done.borrow().is_empty());
    bench.teardown(0);
    // Both were queued before the order to stop, so both were run, in order,
    // and only then did the worker stop and the join return.
    assert_eq!(*done.borrow(), vec![100, 200]);
    assert_eq!(
        bench.seen,
        vec![
            Seen::Began { worker: 0 },
            Seen::Signal,
            Seen::Ended { worker: 0 },
            Seen::Began { worker: 0 },
            Seen::Ended { worker: 0 },
            Seen::Stopped { worker: 0 },
            Seen::Joined { worker: 0 },
        ]
    );
    assert!(bench.channel_is_empty());
    assert!(bench.pool.is_shut_down());
}

#[test]
fn busy_worker_neither_receives_nor_stops() {
    let mut bench = Bench::start(1);
    let done: Log = Rc::new(RefCell::new(Vec::new()));
    bench.submit(record(&done, 1));
    assert!(bench.receive(0));
    assert!(bench.signal());
    assert!(!bench.receive(0));
    assert!(bench.loops[0].is_running());
    assert!(bench.finish(0));
    assert!(!bench.finish(0));
    assert!(bench.receive(0));
    assert!(!bench.loops[0].is_running());
    assert_eq!(*done.borrow(), vec![1]);
}

#[test]
fn every_job_runs_once_when_submitting_and_receiving_interleave() {
    let mut bench = Bench::start(3);
    let done: Log = Rc::new(RefCell::new(Vec::new()));
    bench.submit(record(&done, 0));
    bench.submit(record(&done, 1));
    assert!(bench.receive(2));
    bench.submit(record(&done, 2));
    assert!(bench.receive(0));
    assert!(bench.finish(0));
    assert!(bench.receive(0));
    // The channel is empty: nobody receives.
    assert!(!bench.receive(1));
    bench.submit(record(&done, 3));
    bench.submit(record(&done, 4));
    assert!(bench.receive(1));
    assert!(bench.finish(2));
    bench.submit(record(&done, 5));
    bench.teardown(1);
    // Job 1 ended before job 0, on another worker; each job ran once.
    assert_eq!(&done.borrow()[..2], &[1, 0]);
    let mut ran = done.borrow().clone();
    ran.sort();
    assert_eq!(ran, vec![0, 1, 2, 3, 4, 5]);
    assert_eq!(bench.count(is_began), 6);
    assert_eq!(bench.count(is_ended), 6);
    assert!(bench.channel_is_empty());
}

#[test]
fn jobs_are_dequeued_in_the_order_of_submission() {
    let mut bench = Bench::start(2);
    let begun: Log = Rc::new(RefCell::new(Vec::new()));
    for job in 0..6 {
        bench.submit(record(&begun, job));
    }
    // Each worker runs a job as soon as it has dequeued it.
    for turn in [0, 1, 1, 0, 1, 0] {
        assert!(bench.receive(turn));
        assert!(bench.finish(turn));
    }
    assert_eq!(*begun.borrow(), vec![0, 1, 2, 3, 4, 5]);
    bench.teardown(0);
    assert_eq!(begun.borrow().len(), 6);
}

#[test]
fn jobs_of_two_submitters_are_neither_lost_nor_duplicated() {
    let mut bench = Bench::start(2);
    let done: Log = Rc::new(RefCell::new(Vec::new()));
    let other = bench.sender.clone();
    for round in 0..5 {
        bench.submit(record(&done, 10 + round));
        Bench::submit_through(&bench.pool, &other, record(&done, 20 + round));
        if round % 2 == 0 {
            assert!(bench.receive(0));
            assert!(bench.finish(0));
        }
    }
    bench.teardown(0);
    let mut ran = done.borrow().clone();
    assert_eq!(ran.len(), 10);
    ran.sort();
    assert_eq!(ran, vec![10, 11, 12, 13, 14, 20, 21, 22, 23, 24]);
}

#[test]
fn each_worker_gets_one_order_to_stop_and_one_join() {
    for size in 1..6 {
        for first in 0..size {
            let mut bench = Bench::start(size);
            for _ in 0..7 {
                bench.submit(Box::new(|| {}));
            }
            bench.teardown(first);
            assert_eq!(bench.count(is_signal), size);
            assert_eq!(bench.count(is_joined), size);
            for worker in 0..size {
                assert_eq!(bench.count_for(Seen::Stopped { worker }), 1);
                assert_eq!(bench.count_for(Seen::Joined { worker }), 1);
                assert!(!bench.receive(worker));
            }
            assert_eq!(bench.count(is_ended), 7);
            assert!(bench.channel_is_empty());
        }
    }
}

#[test]
fn workers_are_joined_in_order_and_only_after_every_signal() {
    let mut bench = Bench::start(3);
    bench.submit(Box::new(|| {}));
    bench.teardown(0);
    let last_signal = bench.seen.iter().rposition(is_signal).unwrap();
    let first_join = bench.seen.iter().position(is_joined).unwrap();
    assert!(last_signal < first_join);
    let joins: Vec<Seen> = bench.seen.iter().filter(|seen| is_joined(seen)).cloned().collect();
    assert_eq!(
        joins,
        vec![
            Seen::Joined { worker: 0 },
            Seen::Joined { worker: 1 },
            Seen::Joined { worker: 2 },
        ]
    );
    for worker in 0..3 {
        let stopped = bench.seen.iter().position(|seen| *seen == Seen::Stopped { worker });
        let joined = bench.seen.iter().position(|seen| *seen == Seen::Joined { worker });
        assert!(stopped.unwrap() < joined.unwrap());
    }
}

#[test]
fn teardown_with_no_jobs_stops_every_worker() {
    let mut bench = Bench::start(3);
    bench.teardown(0);
    assert_eq!(bench.count(is_began), 0);
    assert_eq!(bench.count(is_signal), 3);
    assert_eq!(bench.count(is_joined), 3);
    assert!(bench.all_terminated());
}

#[test]
fn terminated_worker_leaves_the_rest_of_the_channel_to_the_others() {
    let mut bench = Bench::start(2);
    let done: Log = Rc::new(RefCell::new(Vec::new()));
    bench.submit(record(&done, 1));
    assert!(bench.signal());
    assert!(bench.receive(0));
    assert!(bench.finish(0));
    assert!(bench.receive(0));
    assert!(!bench.loops[0].is_running());
    assert!(!bench.receive(0));
    assert_eq!(*done.borrow(), vec![1]);
    bench.teardown(0);
    assert_eq!(bench.count(is_signal), 2);
    assert_eq!(bench.count_for(Seen::Stopped { worker: 0 }), 1);
    assert_eq!(bench.count_for(Seen::Stopped { worker: 1 }), 1);
}

#[test]
fn refused_pool_starts_nothing() {
    // A pool for no workers never comes to exist, so nobody is ever asked to
    // start a worker for it.
    assert!(ThreadPool::<String>::new(0).is_err());
}
