//! A session's byte stream for callers that may wait.

use vstd::prelude::*;

use crate::pipe::{
    after_writing, all_closed, continues, flags_kept, has_room, less, same_channel, ChannelState,
    CloseFlags, Pipe, PipeError, Write,
};

verus! {

/// Why a stream refuses an operation.
#[derive(Debug, Clone, Copy, PartialEq, Eq, Structural)]
pub enum StreamError {
    /// The peer reads no more.
    WriteClosed,
}

/// The byte stream of one session; its operations wait until they are done.
pub struct SyncStream<P: Pipe> {
    pub conn_id: u32,
    pub pipe: P,
}

impl<P: Pipe> SyncStream<P> {
    /// Make a stream of a pipe endpoint.
    pub fn from_pipe(conn_id: u32, pipe: P) -> (stream: Self)
        ensures
            stream.conn_id == conn_id,
            stream.pipe == pipe,
    {
        SyncStream { conn_id, pipe }
    }

    /// Write all of `buf` into the pipe, waiting while it is full.
    ///
    /// Fails with `WriteClosed` if the peer has closed its read end; the write end
    /// is then closed too.
    pub fn send(&mut self, buf: &[u8]) -> (r: Result<usize, StreamError>)
        requires
            old(self).pipe.wf(),
            old(self).pipe.closed().peer_read_closed || can_take(
                old(self).pipe.state(),
                buf@.len(),
            ),
        ensures
            final(self).conn_id == old(self).conn_id,
            final(self).pipe.wf(),
            final(self).pipe.settled() == old(self).pipe.settled(),
            old(self).pipe.closed().peer_read_closed ==> r is Err,
            old(self).pipe.settled() && !old(self).pipe.closed().peer_read_closed ==> r is Ok,
            match r {
                Ok(n) => {
                    &&& n == buf@.len()
                    &&& final(self).pipe.state() == after_writing(old(self).pipe.state(), buf@)
                    &&& continues(old(self).pipe, final(self).pipe)
                },
                Err(e) => {
                    &&& e == StreamError::WriteClosed
                    &&& final(self).pipe.state() == old(self).pipe.state()
                    &&& final(self).pipe.closed().peer_read_closed
                    &&& flags_kept(
                        CloseFlags { write_closed: true, ..old(self).pipe.closed() },
                        final(self).pipe.closed(),
                        old(self).pipe.settled(),
                    )
                },
            },
    {
        if self.pipe.is_peer_read_closed() {
            self.pipe.close_write();
            return Err(StreamError::WriteClosed);
        }
        if buf.len() == 0 {
            assert(after_writing(self.pipe.state(), buf@) =~= self.pipe.state()) by {
                assert(self.pipe.state().outgoing + buf@.take(0) =~= self.pipe.state().outgoing);
            }
            return Ok(0);
        }
        write_all(&mut self.pipe, buf);
        Ok(buf.len())
    }

    /// Fill `buf` from the pipe, waiting while it is empty.
    ///
    /// Returns fewer bytes than `buf` holds only once the peer has closed its write
    /// end and every byte was read; the read end is then closed too.
    pub fn recv(&mut self, buf: &mut [u8]) -> (r: Result<usize, StreamError>)
        requires
            old(self).pipe.wf(),
            can_fill(old(self).pipe.state(), old(buf)@.len()),
        ensures
            final(self).conn_id == old(self).conn_id,
            final(self).pipe.wf(),
            final(self).pipe.settled() == old(self).pipe.settled(),
            r is Ok,
            ({
                let n = r->Ok_0 as int;
                let before = old(self).pipe.state();
                &&& n <= old(buf)@.len()
                &&& n <= before.incoming.len()
                &&& final(buf)@ == before.incoming.take(n) + old(buf)@.skip(n)
                &&& final(self).pipe.state() == (ChannelState {
                    incoming: before.incoming.skip(n),
                    ..before
                })
                &&& n < old(buf)@.len() ==> n == before.incoming.len()
                &&& if n == old(buf)@.len() {
                    continues(old(self).pipe, final(self).pipe)
                } else {
                    &&& final(self).pipe.closed().peer_write_closed
                    &&& flags_kept(
                        CloseFlags { read_closed: true, ..old(self).pipe.closed() },
                        final(self).pipe.closed(),
                        old(self).pipe.settled(),
                    )
                }
            }),
    {
        let n: usize = read_exact(&mut self.pipe, buf);
        if n < buf.len() {
            self.pipe.close_read();
        }
        Ok(n)
    }

    /// Close the write end.
    pub fn close_write(&mut self)
        requires
            old(self).pipe.wf(),
        ensures
            final(self).conn_id == old(self).conn_id,
            same_channel(old(self).pipe, final(self).pipe),
            flags_kept(
                CloseFlags { write_closed: true, ..old(self).pipe.closed() },
                final(self).pipe.closed(),
                old(self).pipe.settled(),
            ),
    {
        self.pipe.close_write();
    }

    /// Close the read end.
    pub fn close_read(&mut self)
        requires
            old(self).pipe.wf(),
        ensures
            final(self).conn_id == old(self).conn_id,
            same_channel(old(self).pipe, final(self).pipe),
            flags_kept(
                CloseFlags { read_closed: true, ..old(self).pipe.closed() },
                final(self).pipe.closed(),
                old(self).pipe.settled(),
            ),
    {
        self.pipe.close_read();
    }

    /// True when both ends of both directions are closed.
    pub fn is_closed(&mut self) -> (b: bool)
        requires
            old(self).pipe.wf(),
        ensures
            b == all_closed(final(self).pipe.closed()),
            final(self).conn_id == old(self).conn_id,
            same_channel(old(self).pipe, final(self).pipe),
            flags_kept(
                old(self).pipe.closed(),
                final(self).pipe.closed(),
                old(self).pipe.settled(),
            ),
    {
        self.pipe.is_closed()
    }
}

/// Whether a channel in this state takes `n` more bytes, sooner or later.
pub open spec fn can_take(state: ChannelState, n: nat) -> bool {
    has_room(state.endurance, n) && has_room(state.room, n)
}

/// Whether a channel in this state gives `n` bytes or shows its end by a closed
/// flag, sooner or later.
pub open spec fn can_fill(state: ChannelState, n: nat) -> bool {
    state.incoming.len() >= n || (state.closes && !state.hangs_up)
}

/// Fill `buf` from the pipe, until it is full or the peer has closed its write end
/// and no byte is left.
fn read_exact<P: Pipe>(pipe: &mut P, buf: &mut [u8]) -> (n: usize)
    requires
        old(pipe).wf(),
        can_fill(old(pipe).state(), old(buf)@.len()),
    ensures
        n <= old(buf)@.len(),
        n <= old(pipe).state().incoming.len(),
        final(buf)@ == old(pipe).state().incoming.take(n as int) + old(buf)@.skip(n as int),
        final(pipe).state() == (ChannelState {
            incoming: old(pipe).state().incoming.skip(n as int),
            ..old(pipe).state()
        }),
        continues(*old(pipe), *final(pipe)),
        n < old(buf)@.len() ==> final(pipe).closed().peer_write_closed,
        n < old(buf)@.len() ==> n == old(pipe).state().incoming.len(),
{
    let total: usize = buf.len();
    let mut filled: usize = 0;
    let mut ended: bool = false;
    let ghost all = pipe.state().incoming;
    assert(all.take(0) + buf@.skip(0) =~= buf@);
    while filled < total
        invariant
            filled <= total,
            total == old(buf)@.len(),
            all == old(pipe).state().incoming,
            can_fill(old(pipe).state(), total as nat),
            filled <= all.len(),
            buf@ == all.take(filled as int) + old(buf)@.skip(filled as int),
            pipe.state() == (ChannelState {
                incoming: all.skip(filled as int),
                ..old(pipe).state()
            }),
            continues(*old(pipe), *pipe),
            ended ==> pipe.closed().peer_write_closed,
        ensures
            filled < total ==> pipe.closed().peer_write_closed,
            filled < total ==> filled == all.len(),
        decreases
            total - filled,
            if ended {
                0int
            } else {
                1
            },
            pipe.stalls(),
    {
        let ghost had = buf@;
        let (_, rest) = buf.split_at_mut(filled);
        match pipe.read(rest) {
            Ok(n) => {
                proof {
                    assert(all.skip(filled as int).skip(n as int) =~= all.skip(
                        (filled + n) as int,
                    ));
                    assert(buf@ =~= all.take((filled + n) as int) + old(buf)@.skip(
                        (filled + n) as int,
                    ));
                }
                filled = filled + n;
            },
            Err(PipeError::WouldBlock) => {
                assert(buf@ =~= had);
                // Bytes may have come between the read and the look at the flag, so
                // only a read that starts behind that look shows the end.
                if ended {
                    break;
                }
                ended = pipe.is_peer_write_closed();
            },
        }
    }
    filled
}

/// Write all of `src` into the pipe, waiting while it is full.
fn write_all<W: Write>(pipe: &mut W, src: &[u8])
    requires
        old(pipe).wf(),
        can_take(old(pipe).state(), src@.len()),
    ensures
        final(pipe).state() == after_writing(old(pipe).state(), src@),
        continues(*old(pipe), *final(pipe)),
{
    let total: usize = src.len();
    let mut sent: usize = 0;
    assert(pipe.state().outgoing + src@.take(0) =~= pipe.state().outgoing);
    while sent < total
        invariant
            sent <= total,
            total == src@.len(),
            can_take(old(pipe).state(), src@.len()),
            continues(*old(pipe), *pipe),
            pipe.state() == (ChannelState {
                outgoing: old(pipe).state().outgoing + src@.take(sent as int),
                room: less(old(pipe).state().room, sent as nat),
                endurance: less(old(pipe).state().endurance, sent as nat),
                ..old(pipe).state()
            }),
        decreases total - sent, pipe.stalls(),
    {
        let rest: &[u8] = &src[sent..total];
        match pipe.write(rest) {
            Ok(n) => {
                proof {
                    assert(src@.take(sent as int) + rest@.take(n as int) =~= src@.take(
                        (sent + n) as int,
                    ));
                    assert(old(pipe).state().outgoing + src@.take(sent as int) + rest@.take(
                        n as int,
                    ) =~= old(pipe).state().outgoing + src@.take((sent + n) as int));
                }
                sent = sent + n;
            },
            Err(PipeError::WouldBlock) => {},
        }
    }
    assert(src@.take(total as int) =~= src@);
}

} // verus!
