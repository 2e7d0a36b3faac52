//! The sink: where rendered lines wait for their target.
//!
//! Writing to the sink never waits. Lines for an output target are queued up
//! to a fixed capacity; when the queue is full the oldest line gives way to
//! the newest. A discard target takes every line and keeps none. Whoever
//! owns the real target takes the queued lines out and reports a failed
//! flush, which the sink counts and otherwise ignores.

use vstd::prelude::*;

verus! {

/// Where the lines of a sink go.
#[derive(Clone, Copy, Debug, PartialEq, Eq, Structural)]
pub enum SinkTarget {
    /// A real output, such as the standard output of the process.
    Output,
    /// Nowhere: for quiet runs.
    Discard,
}

/// The mathematical value of a [`Sink`].
pub struct SinkView {
    pub target: SinkTarget,
    pub capacity: usize,
    /// The queued lines, oldest first.
    pub pending: Seq<Seq<u8>>,
    /// How many lines gave way to newer ones, up to the largest count.
    pub dropped: u64,
    /// How many failed flushes were reported, up to the largest count.
    pub failures: u64,
}

/// A count raised by one, unless it is the largest already.
pub open spec fn counted(n: u64) -> u64 {
    if n < u64::MAX {
        (n + 1) as u64
    } else {
        n
    }
}

impl SinkView {
    /// The sink's invariant: the queue is within the capacity, and a discard
    /// target queues nothing.
    pub open spec fn wf(self) -> bool {
        &&& self.pending.len() <= self.capacity
        &&& self.target == SinkTarget::Discard ==> self.pending.len() == 0
    }

    /// The sink after a line is written to it.
    pub open spec fn write(self, line: Seq<u8>) -> SinkView {
        if self.target == SinkTarget::Discard {
            self
        } else if self.capacity == 0 {
            SinkView { dropped: counted(self.dropped), ..self }
        } else if self.pending.len() >= self.capacity {
            SinkView {
                pending: self.pending.drop_first().push(line),
                dropped: counted(self.dropped),
                ..self
            }
        } else {
            SinkView { pending: self.pending.push(line), ..self }
        }
    }

    /// The sink after its queue is taken out.
    pub open spec fn taken(self) -> SinkView {
        SinkView { pending: Seq::empty(), ..self }
    }

    /// The sink after a failed flush is reported.
    pub open spec fn failed(self) -> SinkView {
        SinkView { failures: counted(self.failures), ..self }
    }
}

/// Writing keeps the sink within its capacity.
pub proof fn lemma_write_wf(sink: SinkView, line: Seq<u8>)
    requires
        sink.wf(),
    ensures
        sink.write(line).wf(),
        sink.write(line).target == sink.target,
        sink.write(line).capacity == sink.capacity,
        sink.write(line).failures == sink.failures,
{
}

/// The lines of a list, each by its view, in the list's order.
pub open spec fn lines_view(lines: Seq<Vec<u8>>) -> Seq<Seq<u8>> {
    lines.map_values(|line: Vec<u8>| line@)
}

/// A bounded queue of rendered lines in front of a target.
pub struct Sink {
    target: SinkTarget,
    capacity: usize,
    pending: Vec<Vec<u8>>,
    dropped: u64,
    failures: u64,
}

impl View for Sink {
    type V = SinkView;

    closed spec fn view(&self) -> SinkView {
        SinkView {
            target: self.target,
            capacity: self.capacity,
            pending: lines_view(self.pending@),
            dropped: self.dropped,
            failures: self.failures,
        }
    }
}

/// A count raised by one, unless it is the largest already.
fn count_up(n: u64) -> (m: u64)
    ensures
        m == counted(n),
{
    if n < u64::MAX {
        n + 1
    } else {
        n
    }
}

impl Sink {
    /// What holds of every value of the type.
    #[verifier::type_invariant]
    pub open spec fn well_formed(self) -> bool {
        self@.wf()
    }

    /// A sink in front of a real output that queues up to `capacity` lines.
    pub fn output(capacity: usize) -> (sink: Sink)
        ensures
            sink@ == (SinkView {
                target: SinkTarget::Output,
                capacity,
                pending: Seq::empty(),
                dropped: 0,
                failures: 0,
            }),
    {
        let sink = Sink {
            target: SinkTarget::Output,
            capacity,
            pending: Vec::new(),
            dropped: 0,
            failures: 0,
        };
        proof {
            assert(sink@.pending =~= Seq::<Seq<u8>>::empty());
        }
        sink
    }

    /// A sink that discards what is written to it.
    pub fn discard() -> (sink: Sink)
        ensures
            sink@ == (SinkView {
                target: SinkTarget::Discard,
                capacity: 0,
                pending: Seq::empty(),
                dropped: 0,
                failures: 0,
            }),
    {
        let sink = Sink {
            target: SinkTarget::Discard,
            capacity: 0,
            pending: Vec::new(),
            dropped: 0,
            failures: 0,
        };
        proof {
            assert(sink@.pending =~= Seq::<Seq<u8>>::empty());
        }
        sink
    }

    /// Where the lines go.
    pub fn target(&self) -> (target: SinkTarget)
        ensures
            self@.wf(),
            target == self@.target,
    {
        proof {
            use_type_invariant(self);
        }
        self.target
    }

    /// How many lines are queued.
    pub fn pending_len(&self) -> (count: usize)
        ensures
            self@.wf(),
            count == self@.pending.len(),
    {
        proof {
            use_type_invariant(self);
        }
        self.pending.len()
    }

    /// How many lines gave way to newer ones.
    pub fn dropped(&self) -> (count: u64)
        ensures
            count == self@.dropped,
    {
        self.dropped
    }

    /// How many failed flushes were reported.
    pub fn failures(&self) -> (count: u64)
        ensures
            count == self@.failures,
    {
        self.failures
    }

    /// Writes a line without waiting: queues it for an output target, where
    /// the oldest queued line gives way if the queue is full, and drops it
    /// for a discard target.
    pub fn write(&mut self, line: Vec<u8>)
        ensures
            old(self)@.wf(),
            final(self)@.wf(),
            final(self)@ == old(self)@.write(line@),
    {
        proof {
            use_type_invariant(&*self);
        }
        let ghost before = self@;
        match self.target {
            SinkTarget::Discard => {},
            SinkTarget::Output => {
                if self.capacity == 0 {
                    self.dropped = count_up(self.dropped);
                } else {
                    let mut pending: Vec<Vec<u8>> = Vec::new();
                    std::mem::swap(&mut pending, &mut self.pending);
                    let mut dropped: u64 = self.dropped;
                    if pending.len() >= self.capacity {
                        let _oldest = pending.remove(0);
                        dropped = count_up(dropped);
                        proof {
                            assert(lines_view(pending@) =~= before.pending.drop_first());
                        }
                    }
                    let ghost queued = lines_view(pending@);
                    pending.push(line);
                    proof {
                        assert(lines_view(pending@) =~= queued.push(line@));
                    }
                    self.dropped = dropped;
                    self.pending = pending;
                }
            },
        }
    }

    /// Takes the queued lines out, oldest first, for whoever writes them to
    /// the target.
    pub fn take_pending(&mut self) -> (lines: Vec<Vec<u8>>)
        ensures
            old(self)@.wf(),
            final(self)@.wf(),
            lines_view(lines@) == old(self)@.pending,
            final(self)@ == old(self)@.taken(),
    {
        proof {
            use_type_invariant(&*self);
        }
        let mut lines: Vec<Vec<u8>> = Vec::new();
        std::mem::swap(&mut lines, &mut self.pending);
        proof {
            assert(self@.pending =~= Seq::<Seq<u8>>::empty());
        }
        lines
    }

    /// Takes note that the target failed to take a batch of lines. The
    /// failure is counted and goes no further.
    pub fn flush_failed(&mut self)
        ensures
            old(self)@.wf(),
            final(self)@.wf(),
            final(self)@ == old(self)@.failed(),
    {
        proof {
            use_type_invariant(&*self);
        }
        self.failures = count_up(self.failures);
    }
}

} // verus!
