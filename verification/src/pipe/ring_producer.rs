//! The write end of one ring.

use vstd::prelude::*;

use crate::pipe::error::PipeError;
use crate::pipe::ring::{contents, spliced, used_and_free, write_appends, RingData};
use crate::pipe::ring_header::RingHeader;
use crate::pipe::traits::{Channel, ChannelState, CloseFlags, Write};

verus! {

/// Producer (write) end of one ring.
pub struct RingProducer<'a> {
    pub header: &'a mut RingHeader,
    pub data: RingData<'a>,
}

impl<'a> RingProducer<'a> {
    /// The ring's header as it is now.
    pub open spec fn head(&self) -> RingHeader {
        *self.header
    }

    /// The ring's data area as it is now.
    pub open spec fn area(&self) -> Seq<u8> {
        self.data@
    }

    /// How many bytes of `buf` there is room for.
    pub open spec fn accepts(&self, buf: Seq<u8>) -> nat {
        if buf.len() <= self.area().len() - self.head().used() {
            buf.len()
        } else {
            (self.area().len() - self.head().used()) as nat
        }
    }

    /// What a write of `buf` that returned `r` does to the ring.
    pub open spec fn wrote(&self, after: &Self, buf: Seq<u8>, r: Result<usize, PipeError>) -> bool {
        &&& r is Err <==> self.head().used() == self.area().len()
        &&& match r {
            Ok(n) => {
                &&& n == self.accepts(buf)
                &&& after.head() == self.head().written(n as nat)
                &&& after.area() == spliced(
                    self.area(),
                    self.head().write_cursor as int,
                    buf.take(n as int),
                )
            },
            Err(_) => after.head() == self.head() && after.area() == self.area(),
        }
    }

    /// Take the write end of the ring with this header and this data area.
    pub fn new(header: &'a mut RingHeader, data: RingData<'a>) -> (producer: Self)
        ensures
            producer.head() == *old(header),
            producer.area() == data@,
            *final(producer.header) == *final(header),
            final(producer.data.mem)@ == final(data.mem)@,
    {
        RingProducer { header, data }
    }

    /// Write as much of `buf` as there is room for.
    pub fn try_write(&mut self, buf: &[u8]) -> (r: Result<usize, PipeError>)
        requires
            old(self).head().used() <= old(self).area().len(),
        ensures
            old(self).wrote(&*final(self), buf@, r),
            *final(final(self).header) == *final(old(self).header),
            final(final(self).data.mem)@ == final(old(self).data.mem)@,
    {
        match self.header.plan_write(self.data.mem.len(), buf.len()) {
            Some(plan) => {
                let n: usize = plan.len();
                self.data.write_at(plan.cursor, &buf[0..n]);
                self.header.write_cursor = plan.next;
                Ok(n)
            },
            None => Err(PipeError::WouldBlock),
        }
    }

    /// Signal that this producer will write no more bytes.
    pub fn close_writer(&mut self)
        ensures
            final(self).head() == (RingHeader { writer_closed: true, ..old(self).head() }),
            final(self).area() == old(self).area(),
            *final(final(self).header) == *final(old(self).header),
            final(final(self).data.mem)@ == final(old(self).data.mem)@,
    {
        self.header.writer_closed = true;
    }

    /// True if the consumer has closed its read end.
    pub fn is_reader_closed(&self) -> (b: bool)
        ensures
            b == self.head().reader_closed,
    {
        self.header.reader_closed
    }
}

impl<'a> Channel for RingProducer<'a> {
    open spec fn wf(&self) -> bool {
        self.head().fits(self.area().len())
    }

    open spec fn state(&self) -> ChannelState {
        ChannelState {
            incoming: Seq::empty(),
            outgoing: contents(self.head(), self.area()),
            room: Some((self.area().len() - self.head().used()) as nat),
            endurance: self.head().endurance(self.area().len()),
            hangs_up: false,
            greedy: true,
            closes: false,
            origin: None,
        }
    }

    open spec fn closed(&self) -> CloseFlags {
        CloseFlags {
            write_closed: self.head().writer_closed,
            read_closed: false,
            peer_write_closed: false,
            peer_read_closed: self.head().reader_closed,
        }
    }

    open spec fn settled(&self) -> bool {
        true
    }

    open spec fn stalls(&self) -> nat {
        0
    }
}

impl<'a> Write for RingProducer<'a> {
    fn write(&mut self, buf: &[u8]) -> (r: Result<usize, PipeError>)
        ensures
            old(self).wrote(&*final(self), buf@, r),
            *final(final(self).header) == *final(old(self).header),
            final(final(self).data.mem)@ == final(old(self).data.mem)@,
    {
        let r: Result<usize, PipeError> = self.try_write(buf);
        proof {
            let size: usize = self.data.mem.len();
            if let Ok(n) = r {
                let taken = buf@.take(n as int);
                used_and_free(old(self).head(), size as nat, n as nat, 0);
                write_appends(old(self).head(), old(self).area(), taken);
            }
        }
        r
    }
}

} // verus!
