//! The read end of one ring.

use vstd::prelude::*;

use crate::pipe::error::PipeError;
use crate::pipe::ring::{consume_keeps_order, contents, used_and_free, window, RingData};
use crate::pipe::ring_header::RingHeader;
use crate::pipe::traits::{Channel, ChannelState, CloseFlags, Read};

verus! {

/// Consumer (read) end of one ring.
pub struct RingConsumer<'a> {
    pub header: &'a mut RingHeader,
    pub data: RingData<'a>,
}

impl<'a> RingConsumer<'a> {
    /// The ring's header as it is now.
    pub open spec fn head(&self) -> RingHeader {
        *self.header
    }

    /// The ring's data area as it is now.
    pub open spec fn area(&self) -> Seq<u8> {
        self.data@
    }

    /// How many bytes a read into a buffer of `len` bytes gives.
    pub open spec fn gives(&self, len: nat) -> nat {
        if len <= self.head().used() {
            len
        } else {
            self.head().used()
        }
    }

    /// What a read into `buf` that left `filled` and returned `r` does to the ring.
    pub open spec fn gave(
        &self,
        after: &Self,
        buf: Seq<u8>,
        filled: Seq<u8>,
        r: Result<usize, PipeError>,
    ) -> bool {
        &&& r is Err <==> self.head().used() == 0 && buf.len() > 0
        &&& after.area() == self.area()
        &&& match r {
            Ok(n) => {
                &&& n == self.gives(buf.len())
                &&& after.head() == self.head().consumed(n as nat)
                &&& filled == window(self.area(), self.head().read_cursor as int, n as nat)
                    + buf.skip(n as int)
            },
            Err(_) => after.head() == self.head() && filled == buf,
        }
    }

    /// Take the read end of the ring with this header and this data area.
    pub fn new(header: &'a mut RingHeader, data: RingData<'a>) -> (consumer: Self)
        ensures
            consumer.head() == *old(header),
            consumer.area() == data@,
            *final(consumer.header) == *final(header),
            final(consumer.data.mem)@ == final(data.mem)@,
    {
        RingConsumer { header, data }
    }

    /// Read as many bytes as wait and as `buf` holds.
    pub fn try_read(&mut self, buf: &mut [u8]) -> (r: Result<usize, PipeError>)
        requires
            old(self).head().used() <= old(self).area().len(),
        ensures
            old(self).gave(&*final(self), old(buf)@, final(buf)@, r),
            *final(final(self).header) == *final(old(self).header),
            final(final(self).data.mem)@ == final(old(self).data.mem)@,
    {
        if buf.len() == 0 {
            proof {
                let none = window(self.area(), self.head().read_cursor as int, 0);
                assert(self.head() == self.head().consumed(0));
                assert(buf@ =~= none + buf@.skip(0));
            }
            return Ok(0);
        }
        match self.header.plan_read(self.data.mem.len(), buf.len()) {
            Some(plan) => {
                let n: usize = plan.len();
                let (part, _) = buf.split_at_mut(n);
                self.data.read_at(plan.cursor, part);
                self.header.read_cursor = plan.next;
                Ok(n)
            },
            None => Err(PipeError::WouldBlock),
        }
    }

    /// Signal that this consumer will read no more bytes.
    pub fn close_reader(&mut self)
        ensures
            final(self).head() == (RingHeader { reader_closed: true, ..old(self).head() }),
            final(self).area() == old(self).area(),
            *final(final(self).header) == *final(old(self).header),
            final(final(self).data.mem)@ == final(old(self).data.mem)@,
    {
        self.header.reader_closed = true;
    }

    /// True if the producer has closed its write end.
    pub fn is_writer_closed(&self) -> (b: bool)
        ensures
            b == self.head().writer_closed,
    {
        self.header.writer_closed
    }

    /// True when both ends of this ring are closed.
    pub fn is_closed(&self) -> (b: bool)
        ensures
            b == (self.head().writer_closed && self.head().reader_closed),
    {
        self.header.writer_closed && self.header.reader_closed
    }
}

impl<'a> Channel for RingConsumer<'a> {
    open spec fn wf(&self) -> bool {
        self.head().fits(self.area().len())
    }

    open spec fn state(&self) -> ChannelState {
        ChannelState {
            incoming: contents(self.head(), self.area()),
            outgoing: Seq::empty(),
            room: Some(0),
            endurance: None,
            hangs_up: false,
            greedy: true,
            closes: self.head().writer_closed,
            origin: None,
        }
    }

    open spec fn closed(&self) -> CloseFlags {
        CloseFlags {
            write_closed: false,
            read_closed: self.head().reader_closed,
            peer_write_closed: self.head().writer_closed,
            peer_read_closed: false,
        }
    }

    open spec fn settled(&self) -> bool {
        true
    }

    open spec fn stalls(&self) -> nat {
        0
    }
}

impl<'a> Read for RingConsumer<'a> {
    fn read(&mut self, buf: &mut [u8]) -> (r: Result<usize, PipeError>)
        ensures
            old(self).gave(&*final(self), old(buf)@, final(buf)@, r),
            *final(final(self).header) == *final(old(self).header),
            final(final(self).data.mem)@ == final(old(self).data.mem)@,
    {
        let r: Result<usize, PipeError> = self.try_read(buf);
        proof {
            let size: usize = self.data.mem.len();
            if let Ok(n) = r {
                used_and_free(old(self).head(), size as nat, 0, n as nat);
                consume_keeps_order(old(self).head(), old(self).area(), n as nat);
            }
        }
        r
    }
}

} // verus!
