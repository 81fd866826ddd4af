//! A session's byte stream for callers that must not wait in place.
//!
//! The operations here go on as far as the pipe lets them and then return, so that
//! an executor can run others before it calls again.

use vstd::prelude::*;

use crate::data_pipe::sync_stream::StreamError;
use crate::pipe::{
    accepted, after_writing, all_closed, continues, flags_kept, has_room, less, same_channel,
    ChannelState, CloseFlags, Pipe, PipeError,
};

verus! {

/// How far a receive has come.
#[derive(Debug, Clone, Copy, PartialEq, Eq, Structural)]
pub enum RecvProgress {
    /// The buffer is full.
    Full,
    /// The peer has closed its write end and every byte was read.
    Eof,
    /// No byte is there now.
    Pending,
}

/// The byte stream of one session; its operations never wait.
pub struct AsyncStream<P: Pipe> {
    pub conn_id: u32,
    pub pipe: P,
}

impl<P: Pipe> AsyncStream<P> {
    /// Make a stream of a pipe endpoint.
    pub fn from_pipe(conn_id: u32, pipe: P) -> (stream: Self)
        ensures
            stream.conn_id == conn_id,
            stream.pipe == pipe,
    {
        AsyncStream { conn_id, pipe }
    }

    /// Begin to send: fails if the peer has closed its read end, and then closes
    /// the write end too.
    pub fn begin_send(&mut self) -> (r: Result<(), StreamError>)
        requires
            old(self).pipe.wf(),
        ensures
            final(self).conn_id == old(self).conn_id,
            final(self).pipe.wf(),
            final(self).pipe.settled() == old(self).pipe.settled(),
            final(self).pipe.state() == old(self).pipe.state(),
            r is Err <==> final(self).pipe.closed().peer_read_closed,
            old(self).pipe.closed().peer_read_closed ==> r is Err,
            old(self).pipe.settled() && !old(self).pipe.closed().peer_read_closed ==> r is Ok,
            match r {
                Ok(_) => continues(old(self).pipe, final(self).pipe),
                Err(e) => {
                    &&& e == StreamError::WriteClosed
                    &&& flags_kept(
                        CloseFlags { write_closed: true, ..old(self).pipe.closed() },
                        final(self).pipe.closed(),
                        old(self).pipe.settled(),
                    )
                },
            },
    {
        if self.pipe.is_peer_read_closed() {
            self.pipe.close_write();
            return Err(StreamError::WriteClosed);
        }
        Ok(())
    }

    /// Write on from index `sent` of `buf` until the pipe is full or all is
    /// written, and return the index reached.
    pub fn poll_send(&mut self, buf: &[u8], sent: usize) -> (reached: usize)
        requires
            old(self).pipe.wf(),
            sent <= buf@.len(),
            has_room(
                old(self).pipe.state().endurance,
                accepted(old(self).pipe.state().room, (buf@.len() - sent) as nat),
            ),
            !old(self).pipe.state().hangs_up,
        ensures
            final(self).conn_id == old(self).conn_id,
            sent <= reached <= buf@.len(),
            has_room(old(self).pipe.state().room, (reached - sent) as nat),
            final(self).pipe.state() == after_writing(
                old(self).pipe.state(),
                buf@.subrange(sent as int, reached as int),
            ),
            continues(old(self).pipe, final(self).pipe),
            old(self).pipe.settled() ==> reached - sent == accepted(
                old(self).pipe.state().room,
                (buf@.len() - sent) as nat,
            ),
    {
        let total: usize = buf.len();
        let mut reached: usize = sent;
        assert(self.pipe.state().outgoing + buf@.subrange(sent as int, sent as int)
            =~= self.pipe.state().outgoing);
        while reached < total
            invariant
                sent <= reached <= total,
                total == buf@.len(),
                self.conn_id == old(self).conn_id,
                has_room(
                    old(self).pipe.state().endurance,
                    accepted(old(self).pipe.state().room, (total - sent) as nat),
                ),
                has_room(old(self).pipe.state().room, (reached - sent) as nat),
                !old(self).pipe.state().hangs_up,
                continues(old(self).pipe, self.pipe),
                self.pipe.state() == (ChannelState {
                    outgoing: old(self).pipe.state().outgoing + buf@.subrange(
                        sent as int,
                        reached as int,
                    ),
                    room: less(old(self).pipe.state().room, (reached - sent) as nat),
                    endurance: less(old(self).pipe.state().endurance, (reached - sent) as nat),
                    ..old(self).pipe.state()
                }),
            ensures
                reached < total && old(self).pipe.settled() ==> old(self).pipe.state().room == Some(
                    (reached - sent) as nat,
                ),
            decreases total - reached,
        {
            let rest: &[u8] = &buf[reached..total];
            match self.pipe.write(rest) {
                Ok(n) => {
                    proof {
                        let before = buf@.subrange(sent as int, reached as int);
                        let after = buf@.subrange(sent as int, (reached + n) as int);
                        assert(before + rest@.take(n as int) =~= after);
                        assert(old(self).pipe.state().outgoing + before + rest@.take(n as int)
                            =~= old(self).pipe.state().outgoing + after);
                    }
                    reached = reached + n;
                },
                Err(PipeError::WouldBlock) => {
                    break;
                },
            }
        }
        assert(buf@.subrange(sent as int, reached as int).take((reached - sent) as int)
            =~= buf@.subrange(sent as int, reached as int));
        reached
    }

    /// Read on from index `filled` of `buf` until the pipe is empty or `buf` is
    /// full, and return the index reached and how the receive stands.
    ///
    /// At the end of the stream the read end is closed.
    pub fn poll_recv(&mut self, buf: &mut [u8], filled: usize) -> (progress: (usize, RecvProgress))
        requires
            old(self).pipe.wf(),
            filled <= old(buf)@.len(),
            !old(self).pipe.state().hangs_up,
        ensures
            final(self).conn_id == old(self).conn_id,
            final(self).pipe.wf(),
            final(self).pipe.settled() == old(self).pipe.settled(),
            filled <= progress.0 <= old(buf)@.len(),
            ({
                let n = progress.0 - filled;
                let before = old(self).pipe.state();
                &&& n <= before.incoming.len()
                &&& final(buf)@ == old(buf)@.take(filled as int) + before.incoming.take(n) + old(
                    buf,
                )@.skip(progress.0 as int)
                &&& final(self).pipe.state() == (ChannelState {
                    incoming: before.incoming.skip(n),
                    ..before
                })
                &&& progress.1 is Full <==> progress.0 == old(buf)@.len()
                &&& progress.1 is Eof ==> n == before.incoming.len()
                &&& progress.1 is Pending && old(self).pipe.settled() ==> n
                    == before.incoming.len()
                &&& progress.1 is Eof ==> final(self).pipe.closed().peer_write_closed
                &&& progress.1 is Pending ==> !final(self).pipe.closed().peer_write_closed
            }),
            match progress.1 {
                RecvProgress::Eof => flags_kept(
                    CloseFlags { read_closed: true, ..old(self).pipe.closed() },
                    final(self).pipe.closed(),
                    old(self).pipe.settled(),
                ),
                _ => continues(old(self).pipe, final(self).pipe),
            },
    {
        let total: usize = buf.len();
        let mut reached: usize = filled;
        let mut ended: bool = false;
        let ghost all = self.pipe.state().incoming;
        assert(buf@.take(filled as int) + all.take(0) + buf@.skip(filled as int) =~= buf@);
        while reached < total
            invariant
                filled <= reached <= total,
                total == old(buf)@.len(),
                self.conn_id == old(self).conn_id,
                all == old(self).pipe.state().incoming,
                !old(self).pipe.state().hangs_up,
                reached - filled <= all.len(),
                buf@ == old(buf)@.take(filled as int) + all.take(reached - filled) + old(
                    buf,
                )@.skip(reached as int),
                self.pipe.state() == (ChannelState {
                    incoming: all.skip(reached - filled),
                    ..old(self).pipe.state()
                }),
                continues(old(self).pipe, self.pipe),
                ended ==> self.pipe.closed().peer_write_closed,
            decreases
                total - reached,
                if ended {
                    0int
                } else {
                    1
                },
        {
            let ghost had = buf@;
            let (_, rest) = buf.split_at_mut(reached);
            match self.pipe.read(rest) {
                Ok(n) => {
                    proof {
                        let done = (reached - filled) + n;
                        assert(all.skip(reached - filled).skip(n as int) =~= all.skip(done));
                        assert(buf@ =~= old(buf)@.take(filled as int) + all.take(done) + old(
                            buf,
                        )@.skip((reached + n) as int));
                    }
                    reached = reached + n;
                },
                Err(PipeError::WouldBlock) => {
                    assert(buf@ =~= had);
                    // Bytes may have come between the read and the look at the flag,
                    // so only a read that starts behind that look shows the end.
                    if ended {
                        self.pipe.close_read();
                        return (reached, RecvProgress::Eof);
                    }
                    ended = self.pipe.is_peer_write_closed();
                    if !ended {
                        return (reached, RecvProgress::Pending);
                    }
                },
            }
        }
        (reached, RecvProgress::Full)
    }

    /// Close the write end.
    pub fn close_write(&mut self)
        requires
            old(self).pipe.wf(),
        ensures
            final(self).conn_id == old(self).conn_id,
            same_channel(old(self).pipe, final(self).pipe),
            flags_kept(
                CloseFlags { write_closed: true, ..old(self).pipe.closed() },
                final(self).pipe.closed(),
                old(self).pipe.settled(),
            ),
    {
        self.pipe.close_write();
    }

    /// Close the read end.
    pub fn close_read(&mut self)
        requires
            old(self).pipe.wf(),
        ensures
            final(self).conn_id == old(self).conn_id,
            same_channel(old(self).pipe, final(self).pipe),
            flags_kept(
                CloseFlags { read_closed: true, ..old(self).pipe.closed() },
                final(self).pipe.closed(),
                old(self).pipe.settled(),
            ),
    {
        self.pipe.close_read();
    }

    /// True when both ends of both directions are closed.
    pub fn is_closed(&mut self) -> (b: bool)
        requires
            old(self).pipe.wf(),
        ensures
            b == all_closed(final(self).pipe.closed()),
            final(self).conn_id == old(self).conn_id,
            same_channel(old(self).pipe, final(self).pipe),
            flags_kept(
                old(self).pipe.closed(),
                final(self).pipe.closed(),
                old(self).pipe.settled(),
            ),
    {
        self.pipe.is_closed()
    }
}

} // verus!
