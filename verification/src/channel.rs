use vstd::prelude::*;
use crate::trace::{answer, stays_open, work, Call, Work};

verus! {

/// `std::io::Error`: the failure that the operating system reports for a
/// write or a flush. Opaque here; it is only carried through.
#[verifier::external_type_specification]
#[verifier::external_body]
pub struct ExIoError(std::io::Error);

#[derive(Debug)]
enum Slot<R> {
    Open(R),
    Closed,
}

/// A write channel over one sink of type `R`.
///
/// The channel is either open, and then owns the sink, or closed, and then
/// owns nothing. It goes from open to closed once and never back: no
/// operation puts a sink into a closed channel.
///
/// The channel has no concurrency control of its own. Every operation takes
/// `&mut self`, so whoever shares a channel has to put it behind a lock and
/// hold the lock while the work that an operation asks for is carried out.
#[derive(Debug)]
pub struct ChildWriterInner<R> {
    slot: Slot<R>,
}

/// The work that a write asks for: deliver all of `bytes` to `sink`.
pub struct Delivery<'a, R> {
    pub sink: &'a mut R,
    pub bytes: Vec<u8>,
}

impl<R> ChildWriterInner<R> {
    /// The sink that the channel owns; `None` when it is closed.
    pub closed spec fn sink(&self) -> Option<R> {
        match self.slot {
            Slot::Open(r) => Some(r),
            Slot::Closed => None,
        }
    }

    pub open spec fn spec_is_open(&self) -> bool {
        self.sink().is_some()
    }

    /// A channel over `sink`; one made from `None` starts out closed.
    pub fn new(sink: Option<R>) -> (r: Self)
        ensures
            r.sink() == sink,
    {
        match sink {
            Some(s) => ChildWriterInner { slot: Slot::Open(s) },
            None => ChildWriterInner { slot: Slot::Closed },
        }
    }

    #[verifier::when_used_as_spec(spec_is_open)]
    pub fn is_open(&self) -> (b: bool)
        ensures
            b == self.is_open(),
    {
        match &self.slot {
            Slot::Open(_) => true,
            Slot::Closed => false,
        }
    }

    /// Decides what a write of `data` has to do.
    ///
    /// On an open channel the answer lends the sink out together with the
    /// bytes, all of which are to be written to it; the channel stays open
    /// and keeps the sink, whatever became of the write. On a closed channel
    /// there is nothing to do: the write is dropped, and that is no error.
    ///
    /// The borrow in the answer keeps the channel out of everybody else's
    /// reach until the delivery is over. A delivery that is abandoned half
    /// way leaves a part of the bytes in the sink; the channel does not
    /// notice and does not make up for it.
    pub fn write(&mut self, data: Vec<u8>) -> (r: Option<Delivery<'_, R>>)
        ensures
            match r {
                Some(d) => work(old(self).is_open(), Call::Write(data@)) == Work::Deliver(d.bytes@)
                    && Some(*d.sink) == old(self).sink()
                    && final(self).sink() == Some(*final(d.sink)),
                None => work(old(self).is_open(), Call::Write(data@)) == Work::Nothing
                    && *final(self) == *old(self),
            },
            final(self).is_open() == stays_open(old(self).is_open(), Call::Write(data@)),
    {
        match &mut self.slot {
            Slot::Open(s) => Some(Delivery { sink: s, bytes: data }),
            Slot::Closed => None,
        }
    }

    /// Closes the channel and hands out the sink that it owned.
    ///
    /// The channel is closed from here on, also when the flush that follows
    /// fails. The caller flushes the sink it was given and drops it; a
    /// channel that was closed already gives `None`, and nothing is to be
    /// done. So a sink leaves the channel exactly once.
    pub fn close(&mut self) -> (r: Option<R>)
        ensures
            r == old(self).sink(),
            r.is_some() <==> work(old(self).is_open(), Call::Close) == Work::FlushAndRelease,
            r.is_none() <==> work(old(self).is_open(), Call::Close) == Work::Nothing,
            final(self).sink().is_none(),
            final(self).is_open() == stays_open(old(self).is_open(), Call::Close),
    {
        let mut slot = Slot::Closed;
        std::mem::swap(&mut self.slot, &mut slot);
        match slot {
            Slot::Open(s) => Some(s),
            Slot::Closed => None,
        }
    }
}

impl<R> From<Option<R>> for ChildWriterInner<R> {
    /// The channel over a sink that may be absent: closed from the start
    /// where there is none.
    fn from(sink: Option<R>) -> (r: Self)
        ensures
            r.sink() == sink,
    {
        ChildWriterInner::new(sink)
    }
}

impl<R> vstd::std_specs::convert::FromSpecImpl<Option<R>> for ChildWriterInner<R> {
    open spec fn obeys_from_spec() -> bool {
        true
    }

    closed spec fn from_spec(sink: Option<R>) -> Self {
        match sink {
            Some(s) => ChildWriterInner { slot: Slot::Open(s) },
            None => ChildWriterInner { slot: Slot::Closed },
        }
    }
}

impl<R> From<R> for ChildWriterInner<R> {
    /// The open channel over a sink.
    fn from(sink: R) -> (r: Self)
        ensures
            r.sink() == Some(sink),
    {
        ChildWriterInner::new(Some(sink))
    }
}

impl<R> vstd::std_specs::convert::FromSpecImpl<R> for ChildWriterInner<R> {
    open spec fn obeys_from_spec() -> bool {
        true
    }

    closed spec fn from_spec(sink: R) -> Self {
        ChildWriterInner { slot: Slot::Open(sink) }
    }
}

/// What a call returns, given the I/O that was performed for it.
///
/// `None` says that no I/O took place, because the channel was closed; that
/// is success. Otherwise the call returns what the I/O returned, with the
/// failure of the operating system as it came.
pub fn reply(performed: Option<Result<(), std::io::Error>>) -> (r: Result<(), std::io::Error>)
    ensures
        r == answer(performed),
{
    match performed {
        Some(outcome) => outcome,
        None => Ok(()),
    }
}

} // verus!
