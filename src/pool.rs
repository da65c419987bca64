use std::collections::VecDeque;
use vstd::prelude::*;

verus! {

/// Why a pool could not be built or a job not handed over.
#[derive(Clone, Copy, Debug, PartialEq, Eq, Structural)]
pub enum PoolError {
    InvalidConfiguration,
    DispatchClosed,
}

/// Checks the size a pool is to be built with: a pool needs at least one worker.
pub fn check_pool_size(size: usize) -> (r: Result<usize, PoolError>)
    ensures
        r == (if size == 0 {
            Err::<usize, PoolError>(PoolError::InvalidConfiguration)
        } else {
            Ok::<usize, PoolError>(size)
        }),
{
    if size == 0 {
        Err(PoolError::InvalidConfiguration)
    } else {
        Ok(size)
    }
}

/// What a worker gets when it asks the queue for work.
pub enum Fetch<T> {
    /// The oldest job waiting: run it.
    Job(T),
    /// Nothing waits yet, but more may come: block until it does.
    Wait,
    /// The queue is closed and drained: stop.
    Stop,
}

/// The handoff between the submitter and the workers: first in, first out, unbounded.
/// Besides the jobs that wait, it keeps, as ghost state, every job ever sent and every job
/// ever taken, in order.
pub struct DispatchQueue<T> {
    pending: VecDeque<T>,
    open: bool,
    sent: Ghost<Seq<T>>,
    taken: Ghost<Seq<T>>,
}

impl<T> DispatchQueue<T> {
    /// The jobs that wait, oldest first.
    pub closed spec fn pending(&self) -> Seq<T> {
        self.pending@
    }

    /// Every job sent so far, in the order sent.
    pub closed spec fn sent(&self) -> Seq<T> {
        self.sent@
    }

    /// Every job taken by a worker so far, in the order taken.
    pub closed spec fn taken(&self) -> Seq<T> {
        self.taken@
    }

    pub closed spec fn is_open(&self) -> bool {
        self.open
    }

    /// What was sent is what was taken followed by what waits.
    pub closed spec fn wf(&self) -> bool {
        self.sent@ == self.taken@ + self.pending@
    }

    /// An open, empty queue.
    pub fn new() -> (r: Self)
        ensures
            r.wf(),
            r.is_open(),
            r.pending() == Seq::<T>::empty(),
            r.sent() == Seq::<T>::empty(),
            r.taken() == Seq::<T>::empty(),
    {
        let r = DispatchQueue {
            pending: VecDeque::new(),
            open: true,
            sent: Ghost(Seq::empty()),
            taken: Ghost(Seq::empty()),
        };
        assert(r.taken@ + r.pending@ =~= r.sent@);
        r
    }

    /// Whether jobs are still accepted.
    pub fn accepts(&self) -> (r: bool)
        ensures
            r == self.is_open(),
    {
        self.open
    }

    /// How many jobs wait.
    pub fn waiting(&self) -> (r: usize)
        ensures
            r == self.pending().len(),
    {
        self.pending.len()
    }

    /// Puts `job` at the back. A closed queue refuses it and stays as it was.
    pub fn send(&mut self, job: T) -> (r: Result<(), PoolError>)
        requires
            old(self).wf(),
        ensures
            final(self).wf(),
            final(self).is_open() == old(self).is_open(),
            final(self).taken() == old(self).taken(),
            old(self).is_open() ==> r is Ok && final(self).pending() == old(self).pending().push(
                job,
            ) && final(self).sent() == old(self).sent().push(job),
            !old(self).is_open() ==> r == Err::<(), PoolError>(PoolError::DispatchClosed)
                && final(self).pending() == old(self).pending() && final(self).sent() == old(
                self,
            ).sent(),
    {
        if !self.open {
            return Err(PoolError::DispatchClosed);
        }
        self.pending.push_back(job);
        self.sent = Ghost(self.sent@.push(job));
        assert(self.taken@ + self.pending@ =~= self.sent@);
        Ok(())
    }

    /// Takes the oldest waiting job; says to wait when none waits and the queue is open, and
    /// to stop when none waits and it is closed.
    pub fn take(&mut self) -> (r: Fetch<T>)
        requires
            old(self).wf(),
        ensures
            final(self).wf(),
            final(self).is_open() == old(self).is_open(),
            final(self).sent() == old(self).sent(),
            old(self).pending().len() > 0 ==> r == Fetch::Job(old(self).pending()[0])
                && final(self).pending() == old(self).pending().drop_first() && final(self).taken()
                == old(self).taken().push(old(self).pending()[0]),
            old(self).pending().len() == 0 ==> final(self).pending() == old(self).pending()
                && final(self).taken() == old(self).taken() && r == (if old(self).is_open() {
                Fetch::<T>::Wait
            } else {
                Fetch::<T>::Stop
            }),
    {
        match self.pending.pop_front() {
            Some(job) => {
                self.taken = Ghost(self.taken@.push(job));
                assert(self.taken@ + self.pending@ =~= self.sent@);
                Fetch::Job(job)
            },
            None => {
                if self.open {
                    Fetch::Wait
                } else {
                    Fetch::Stop
                }
            },
        }
    }

    /// Accepts no more jobs; those that wait can still be taken.
    pub fn close(&mut self)
        requires
            old(self).wf(),
        ensures
            final(self).wf(),
            !final(self).is_open(),
            final(self).pending() == old(self).pending(),
            final(self).sent() == old(self).sent(),
            final(self).taken() == old(self).taken(),
    {
        self.open = false;
    }
}

/// Jobs are taken in the order they were sent, each at most once: the jobs taken so far are
/// the first ones sent, in that order, and the rest wait in that order.
pub proof fn lemma_taken_in_send_order<T>(q: &DispatchQueue<T>)
    requires
        q.wf(),
    ensures
        q.taken().len() + q.pending().len() == q.sent().len(),
        forall|i: int| 0 <= i < q.taken().len() ==> q.taken()[i] == q.sent()[i],
        forall|i: int|
            0 <= i < q.pending().len() ==> q.pending()[i] == q.sent()[q.taken().len() + i],
{
}

/// Once the queue is drained, every job sent has been taken exactly once, in the order sent.
pub proof fn lemma_drained_all_taken<T>(q: &DispatchQueue<T>)
    requires
        q.wf(),
        q.pending().len() == 0,
    ensures
        q.taken() == q.sent(),
{
    assert(q.taken() + q.pending() =~= q.taken());
}

} // verus!
