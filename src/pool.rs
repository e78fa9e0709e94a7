//! The job queue that the workers of a pool share.

use vstd::prelude::*;

verus! {

/// What a worker takes from the queue: a job to run, or the order to stop.
pub enum Message<J> {
    NewJob(J),
    Terminate,
}

/// The queue that a pool's workers share. Jobs leave in the order they were
/// submitted, each exactly once; after `shutdown` no job is accepted, and the
/// stop orders, one per worker, are handed out only once every pending job has
/// been handed out.
pub struct JobQueue<J> {
    jobs: Vec<J>,
    stops: usize,
    open: bool,
    submitted: Ghost<Seq<J>>,
    started: Ghost<nat>,
    stopped: Ghost<nat>,
}

impl<J> JobQueue<J> {
    /// Every job ever accepted, in order of submission.
    pub closed spec fn submitted(&self) -> Seq<J> {
        self.submitted@
    }

    /// How many jobs have been handed to workers.
    pub closed spec fn started(&self) -> nat {
        self.started@
    }

    /// Jobs accepted and not yet handed out, the next one first.
    pub closed spec fn pending(&self) -> Seq<J> {
        self.jobs@
    }

    /// Stop orders not yet handed out.
    pub closed spec fn stops_left(&self) -> nat {
        self.stops as nat
    }

    /// How many stop orders have been handed out.
    pub closed spec fn stops_taken(&self) -> nat {
        self.stopped@
    }

    /// Whether jobs are still accepted.
    pub closed spec fn is_open(&self) -> bool {
        self.open
    }

    pub closed spec fn wf(&self) -> bool {
        &&& self.started@ <= self.submitted@.len()
        &&& self.jobs@ == self.submitted@.subrange(self.started@ as int, self.submitted@.len() as int)
        &&& self.open ==> self.stops == 0 && self.stopped@ == 0
        &&& self.stopped@ > 0 ==> self.jobs@.len() == 0
    }

    /// An empty queue that accepts jobs.
    pub fn new() -> (r: JobQueue<J>)
        ensures
            r.wf(),
            r.is_open(),
            r.submitted() == Seq::<J>::empty(),
            r.started() == 0,
            r.stops_left() == 0,
    {
        let r = JobQueue {
            jobs: Vec::new(),
            stops: 0,
            open: true,
            submitted: Ghost(Seq::empty()),
            started: Ghost(0),
            stopped: Ghost(0),
        };
        assert(r.jobs@ =~= r.submitted@.subrange(0, 0));
        r
    }

    /// Whether jobs are still accepted.
    pub fn accepting(&self) -> (r: bool)
        ensures
            r == self.is_open(),
    {
        self.open
    }

    /// Appends `job` to the queue; once the queue is shut down the job is
    /// refused and handed back.
    pub fn submit(&mut self, job: J) -> (r: Result<(), J>)
        requires
            old(self).wf(),
        ensures
            final(self).wf(),
            old(self).is_open() ==> r is Ok && final(self).submitted() == old(self).submitted().push(job)
                && final(self).started() == old(self).started() && final(self).is_open()
                && final(self).stops_left() == old(self).stops_left()
                && final(self).stops_taken() == old(self).stops_taken(),
            !old(self).is_open() ==> r == Err::<(), J>(job) && *final(self) == *old(self),
    {
        if !self.open {
            return Err(job);
        }
        let ghost j = job;
        self.jobs.push(job);
        self.submitted = Ghost(self.submitted@.push(j));
        assert(self.jobs@ =~= self.submitted@.subrange(self.started@ as int, self.submitted@.len() as int));
        Ok(())
    }

    /// Hands out the next message: the oldest pending job, else a stop order
    /// once the queue is shut down, else `None` (the worker waits).
    pub fn next(&mut self) -> (r: Option<Message<J>>)
        requires
            old(self).wf(),
        ensures
            final(self).wf(),
            final(self).submitted() == old(self).submitted(),
            final(self).is_open() == old(self).is_open(),
            old(self).pending().len() > 0 ==> (r matches Some(Message::NewJob(job)) && job
                == old(self).submitted()[old(self).started() as int]),
            old(self).pending().len() > 0 ==> final(self).started() == old(self).started() + 1
                && final(self).stops_left() == old(self).stops_left() && final(self).stops_taken()
                == old(self).stops_taken(),
            old(self).pending().len() == 0 && old(self).stops_left() > 0 ==> (r matches Some(
                Message::Terminate,
            )),
            old(self).pending().len() == 0 && old(self).stops_left() > 0 ==> final(self).started()
                == old(self).started() && final(self).stops_left() == old(self).stops_left() - 1
                && final(self).stops_taken() == old(self).stops_taken() + 1,
            old(self).pending().len() == 0 && old(self).stops_left() == 0 ==> r is None
                && *final(self) == *old(self),
    {
        if self.jobs.len() > 0 {
            let job = self.jobs.remove(0);
            self.started = Ghost(self.started@ + 1);
            assert(self.jobs@ =~= self.submitted@.subrange(self.started@ as int, self.submitted@.len() as int));
            Some(Message::NewJob(job))
        } else if self.stops > 0 {
            self.stops = self.stops - 1;
            self.stopped = Ghost(self.stopped@ + 1);
            Some(Message::Terminate)
        } else {
            None
        }
    }

    /// Stops accepting jobs and queues one stop order for each of `workers`
    /// workers, behind the jobs still pending.
    pub fn shutdown(&mut self, workers: usize)
        requires
            old(self).wf(),
            old(self).is_open(),
        ensures
            final(self).wf(),
            !final(self).is_open(),
            final(self).submitted() == old(self).submitted(),
            final(self).started() == old(self).started(),
            final(self).stops_left() == workers,
            final(self).stops_taken() == 0,
    {
        self.open = false;
        self.stops = workers;
    }

    /// Every accepted job is accounted for exactly once: the first `started()`
    /// of them have been handed out, and the rest are pending in the order of
    /// submission.
    pub proof fn lemma_each_job_once(&self)
        requires
            self.wf(),
        ensures
            self.started() + self.pending().len() == self.submitted().len(),
            forall|i: int|
                0 <= i < self.pending().len() ==> #[trigger] self.pending()[i]
                    == self.submitted()[self.started() + i],
    {
    }

    /// Once a worker has been told to stop, the queue is shut down and holds no
    /// job: no job can start after the workers have stopped.
    pub proof fn lemma_stopped_queue_is_drained(&self)
        requires
            self.wf(),
            self.stops_taken() > 0,
        ensures
            !self.is_open(),
            self.pending().len() == 0,
            self.started() == self.submitted().len(),
    {
    }
}

} // verus!
