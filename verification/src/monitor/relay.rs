//! Moving bytes between a socket and a data pipe, one buffer at a time.

use vstd::prelude::*;

use crate::pipe::{
    accepted, after_writing, can_send, continues, has_room, less, ChannelState, PipeError, Read,
    Write,
};

verus! {

/// Bytes that are moved at once.
pub const RELAY_CHUNK: usize = 4096;

/// How a read from a socket ended.
#[derive(Debug, PartialEq, Eq)]
pub enum TcpRead<E> {
    /// So many bytes were read.
    Read(usize),
    /// No byte is there now.
    NotReady,
    /// The read failed.
    Failed(E),
}

/// Put what a read from a socket gave into the pipe, waiting for room, and return
/// how many bytes went in. `buf` holds the bytes that were read.
///
/// A pipe that hangs up takes what it has room for.
pub fn tcp_to_pipe<P: Write, E>(read: TcpRead<E>, buf: &[u8], pipe: &mut P) -> (r: Result<usize, E>)
    requires
        read matches TcpRead::Read(n) ==> n <= buf@.len(),
        old(pipe).wf(),
        read matches TcpRead::Read(n) ==> can_send(old(pipe).state(), buf@.take(n as int)),
    ensures
        continues(*old(pipe), *final(pipe)),
        match read {
            TcpRead::Read(n) => {
                &&& r == Ok::<usize, E>(accepted(old(pipe).state().room, n as nat) as usize)
                &&& final(pipe).state() == after_writing(old(pipe).state(), buf@.take(n as int))
            },
            TcpRead::NotReady => {
                &&& r == Ok::<usize, E>(0)
                &&& final(pipe).state() == old(pipe).state()
            },
            TcpRead::Failed(e) => {
                &&& r == Err::<usize, E>(e)
                &&& final(pipe).state() == old(pipe).state()
            },
        },
{
    let n: usize = match read {
        TcpRead::Read(n) => n,
        TcpRead::NotReady => return Ok(0),
        TcpRead::Failed(e) => return Err(e),
    };
    let mut off: usize = 0;
    let ghost bytes = buf@.take(n as int);
    assert(pipe.state().outgoing + bytes.take(0) =~= pipe.state().outgoing);
    while off < n
        invariant
            off <= n <= buf@.len(),
            bytes == buf@.take(n as int),
            read == TcpRead::<E>::Read(n),
            can_send(old(pipe).state(), bytes),
            has_room(old(pipe).state().room, off as nat),
            continues(*old(pipe), *pipe),
            pipe.state() == (ChannelState {
                outgoing: old(pipe).state().outgoing + bytes.take(off as int),
                room: less(old(pipe).state().room, off as nat),
                endurance: less(old(pipe).state().endurance, off as nat),
                ..old(pipe).state()
            }),
        decreases n - off, pipe.stalls(),
    {
        let rest: &[u8] = &buf[off..n];
        match pipe.write(rest) {
            Ok(0) => {
                assert(bytes.take(off as int) + rest@.take(0) =~= bytes.take(off as int));
                return Ok(off);
            },
            Ok(m) => {
                proof {
                    assert(bytes.take(off as int) + rest@.take(m as int) =~= bytes.take(
                        (off + m) as int,
                    ));
                    assert(old(pipe).state().outgoing + bytes.take(off as int) + rest@.take(
                        m as int,
                    ) =~= old(pipe).state().outgoing + bytes.take((off + m) as int));
                }
                off = off + m;
            },
            Err(PipeError::WouldBlock) => {},
        }
    }
    assert(bytes.take(n as int) =~= bytes);
    Ok(n)
}

/// Take bytes from the pipe into `buf` and return how many are there to be written
/// to the socket; 0 if the pipe has none now.
pub fn pipe_to_tcp<P: Read>(pipe: &mut P, buf: &mut [u8]) -> (n: usize)
    requires
        old(pipe).wf(),
    ensures
        continues(*old(pipe), *final(pipe)),
        n <= old(buf)@.len(),
        n <= old(pipe).state().incoming.len(),
        final(buf)@ == old(pipe).state().incoming.take(n as int) + old(buf)@.skip(n as int),
        final(pipe).state() == (ChannelState {
            incoming: old(pipe).state().incoming.skip(n as int),
            ..old(pipe).state()
        }),
        old(pipe).settled() && old(pipe).state().incoming.len() > 0 && old(buf)@.len() > 0 ==> n
            > 0,
        old(pipe).settled() && old(pipe).state().greedy ==> n == if old(buf)@.len() <= old(
            pipe,
        ).state().incoming.len() {
            old(buf)@.len()
        } else {
            old(pipe).state().incoming.len()
        },
{
    match pipe.read(buf) {
        Ok(n) => n,
        Err(PipeError::WouldBlock) => {
            proof {
                let incoming = old(pipe).state().incoming;
                assert(incoming.take(0) + old(buf)@.skip(0) =~= old(buf)@);
                assert(incoming.skip(0) =~= incoming);
            }
            0
        },
    }
}

} // verus!
