//! The admission queue: the hand-off channel that carries freshly accepted
//! connections from the acceptor to the worker pool.
//!
//! The queue itself is a plain first-in first-out buffer with exact
//! contracts: what goes in comes out exactly once, in order, and nothing
//! else ever comes out. Concurrent access is the caller's affair — the
//! process around the library shares one queue under a lock, which keeps
//! every interleaving of admissions and deliveries a sequence of the very
//! operations specified here.
//!
//! The queue is unbounded unless a bound is asked for; a bounded queue
//! refuses admissions while full, making backpressure visible to the
//! acceptor.

use vstd::prelude::*;

verus! {

/// Why admitting a connection failed.
#[derive(Clone, Copy, Debug, PartialEq, Eq, Structural)]
pub enum QueueError {
    /// The queue was created with a bound and holds that many connections.
    Full,
}

/// A first-in first-out hand-off buffer for accepted connections.
pub struct AdmissionQueue<T> {
    items: Vec<T>,
    bound: Option<usize>,
}

impl<T> AdmissionQueue<T> {
    /// The queued connections, oldest first.
    pub closed spec fn contents(self) -> Seq<T> {
        self.items@
    }

    /// The bound the queue was created with, if any.
    pub closed spec fn capacity(self) -> Option<usize> {
        self.bound
    }

    /// A bounded queue never holds more than its bound.
    pub closed spec fn wf(self) -> bool {
        match self.bound {
            Some(c) => self.items@.len() <= c,
            None => true,
        }
    }

    /// An empty, unbounded queue.
    pub fn new() -> (q: AdmissionQueue<T>)
        ensures
            q.wf(),
            q.contents() == Seq::<T>::empty(),
            q.capacity() is None,
    {
        AdmissionQueue { items: Vec::new(), bound: None }
    }

    /// An empty queue that will refuse more than `c` queued connections.
    pub fn with_bound(c: usize) -> (q: AdmissionQueue<T>)
        ensures
            q.wf(),
            q.contents() == Seq::<T>::empty(),
            q.capacity() == Some(c),
    {
        AdmissionQueue { items: Vec::new(), bound: Some(c) }
    }

    /// How many connections wait in the queue.
    pub fn len(&self) -> (n: usize)
        ensures
            n as int == self.contents().len(),
    {
        self.items.len()
    }

    /// Admit one connection at the back of the queue. Succeeds exactly when
    /// the queue is unbounded or below its bound; a refused connection
    /// leaves the queue unchanged.
    pub fn enqueue(&mut self, conn: T) -> (r: Result<(), QueueError>)
        requires
            old(self).wf(),
        ensures
            final(self).wf(),
            final(self).capacity() == old(self).capacity(),
            r is Ok <==> (old(self).capacity() is None || old(self).contents().len() < old(self).capacity().unwrap()),
            r is Ok ==> final(self).contents() == old(self).contents().push(conn),
            r is Err ==> r == Err::<(), QueueError>(QueueError::Full) && final(self).contents()
                == old(self).contents(),
    {
        match self.bound {
            Some(c) => {
                if self.items.len() < c {
                    self.items.push(conn);
                    Ok(())
                } else {
                    Err(QueueError::Full)
                }
            },
            None => {
                self.items.push(conn);
                Ok(())
            },
        }
    }

    /// Deliver the oldest queued connection, removing it: a connection
    /// handed out here is out of the queue and can reach no second worker.
    /// An empty queue delivers nothing.
    pub fn dequeue(&mut self) -> (r: Option<T>)
        requires
            old(self).wf(),
        ensures
            final(self).wf(),
            final(self).capacity() == old(self).capacity(),
            old(self).contents().len() == 0 ==> r is None && final(self).contents() == old(self).contents(),
            old(self).contents().len() > 0 ==> r == Some(old(self).contents()[0]) && final(self).contents() == old(self).contents().subrange(1, old(self).contents().len() as int),
    {
        if self.items.len() == 0 {
            None
        } else {
            let first = self.items.remove(0);
            proof {
                assert(self.items@ =~= old(self).items@.subrange(1, old(self).items@.len() as int));
            }
            Some(first)
        }
    }

    /// Take every queued connection at once, oldest first: each queued
    /// connection is delivered exactly once — none twice, none lost — and
    /// the queue is left empty.
    #[verifier::loop_isolation(false)]
    pub fn drain(&mut self) -> (all: Vec<T>)
        requires
            old(self).wf(),
        ensures
            final(self).wf(),
            final(self).capacity() == old(self).capacity(),
            all@ == old(self).contents(),
            final(self).contents() == Seq::<T>::empty(),
    {
        let mut all: Vec<T> = Vec::new();
        proof {
            assert(all@ =~= old(self).contents().subrange(0, 0));
        }
        loop
            invariant
                self.wf(),
                self.capacity() == old(self).capacity(),
                all@.len() <= old(self).contents().len(),
                all@ == old(self).contents().subrange(0, all@.len() as int),
                self.contents() == old(self).contents().subrange(
                    all@.len() as int,
                    old(self).contents().len() as int,
                ),
            decreases self.contents().len(),
        {
            let ghost taken = all@.len() as int;
            match self.dequeue() {
                Some(conn) => {
                    all.push(conn);
                    proof {
                        assert(old(self).contents()[taken] == all@[taken]);
                        assert(all@ =~= old(self).contents().subrange(0, taken + 1));
                        assert(self.contents() =~= old(self).contents().subrange(
                            taken + 1,
                            old(self).contents().len() as int,
                        ));
                    }
                },
                None => {
                    proof {
                        assert(all@ =~= old(self).contents());
                        assert(self.contents() =~= Seq::<T>::empty());
                    }
                    return all;
                },
            }
        }
    }
}

} // verus!
