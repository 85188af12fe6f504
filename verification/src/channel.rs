//! The job channel: a FIFO conduit with one writable end shared by all
//! submitters and one readable end shared by all workers, plus an explicit
//! closed terminal state through which workers learn to terminate.

use vstd::prelude::*;

verus! {

/// A unit of deferred work as the pool sees it: a label chosen by the
/// submitter (the job's identity in every statement about ordering and
/// exactly-once delivery) and the number of abstract time units the job
/// occupies a worker while it runs.
#[derive(Clone, Copy, PartialEq, Eq, Structural, Debug)]
pub struct Job {
    pub label: u64,
    pub duration: u64,
}

/// The error a submitter receives when sending on a channel that has
/// already been closed.
#[derive(Clone, Copy, PartialEq, Eq, Structural, Debug)]
pub struct ChannelClosed;

/// What a worker observes when it asks the channel for its next job.
#[derive(Clone, Copy, PartialEq, Eq, Structural, Debug)]
pub enum Received {
    /// The head of the queue, now removed from it.
    Job(Job),
    /// The queue is empty but the channel is still open: a worker thread
    /// blocks at this point until a job arrives or the channel closes.
    WouldBlock,
    /// The queue is drained and the channel is closed: the worker's loop
    /// ends and its thread terminates.
    Closed,
}

/// An unbounded, insertion-ordered queue of jobs with a closed flag.
///
/// At most one worker removes an element at a time (removal is a single
/// call on the one value), and once the writable end is closed a receive
/// that finds the queue empty resolves to `Closed` instead of blocking.
pub struct Channel {
    pub jobs: Vec<Job>,
    pub closed: bool,
}

impl Channel {
    /// The queued jobs, head first.
    pub open spec fn queue(self) -> Seq<Job> {
        self.jobs@
    }

    /// Whether the writable end is still present.
    pub open spec fn is_open(self) -> bool {
        !self.closed
    }

    /// A fresh channel: empty and open.
    pub fn new() -> (c: Channel)
        ensures
            c.queue() == Seq::<Job>::empty(),
            c.is_open(),
    {
        Channel { jobs: Vec::new(), closed: false }
    }

    /// Appends `job` to the tail of the queue; fails with `ChannelClosed`,
    /// leaving the queue untouched, exactly when the channel has been
    /// closed. Never blocks: capacity is unbounded.
    pub fn send(&mut self, job: Job) -> (r: Result<(), ChannelClosed>)
        ensures
            old(self).is_open() ==> {
                &&& r == Ok::<(), ChannelClosed>(())
                &&& final(self).queue() == old(self).queue().push(job)
                &&& final(self).is_open()
            },
            !old(self).is_open() ==> {
                &&& r == Err::<(), ChannelClosed>(ChannelClosed)
                &&& *final(self) == *old(self)
            },
    {
        if self.closed {
            Err(ChannelClosed)
        } else {
            self.jobs.push(job);
            Ok(())
        }
    }

    /// Removes and returns the head of the queue if there is one, whether
    /// or not the channel is closed; on an empty queue the result tells
    /// the worker to block (`WouldBlock`, channel open) or to terminate
    /// (`Closed`, channel closed).
    pub fn receive(&mut self) -> (r: Received)
        ensures
            old(self).queue().len() > 0 ==> {
                &&& r == Received::Job(old(self).queue()[0])
                &&& final(self).queue() == old(self).queue().drop_first()
                &&& final(self).is_open() == old(self).is_open()
            },
            old(self).queue().len() == 0 && old(self).is_open() ==> {
                &&& r == Received::WouldBlock
                &&& *final(self) == *old(self)
            },
            old(self).queue().len() == 0 && !old(self).is_open() ==> {
                &&& r == Received::Closed
                &&& *final(self) == *old(self)
            },
    {
        if self.jobs.len() > 0 {
            let j = self.jobs.remove(0);
            proof {
                assert(self.queue() =~= old(self).queue().drop_first());
            }
            Received::Job(j)
        } else if self.closed {
            Received::Closed
        } else {
            Received::WouldBlock
        }
    }

    /// Marks the channel closed. Queued jobs stay and can still be
    /// received; only new sends are refused from here on.
    pub fn close(&mut self)
        ensures
            final(self).queue() == old(self).queue(),
            !final(self).is_open(),
    {
        self.closed = true;
    }
}

} // verus!
