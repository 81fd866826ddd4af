//! Reading from and writing to a byte channel.

use vstd::prelude::*;

use crate::pipe::error::PipeError;
use crate::pipe::shared_memory_region::Side;

verus! {

/// What one end of a byte channel still has before it.
#[verifier::ext_equal]
pub struct ChannelState {
    /// The bytes that this end will be given, in order.
    pub incoming: Seq<u8>,
    /// The bytes that this end has handed over, in order.
    pub outgoing: Seq<u8>,
    /// How many more bytes the channel will take from this end; `None` if there
    /// is no limit.
    pub room: Option<nat>,
    /// How many more bytes the endpoint's own bookkeeping bears to be written;
    /// `None` if there is no limit.
    pub endurance: Option<nat>,
    /// Whether the channel says so by `Ok(0)` once no byte can pass any more.
    pub hangs_up: bool,
    /// Whether a call moves all that can be moved, or shows at once that none can be any
    /// more, while nobody else acts on the channel.
    pub greedy: bool,
    /// Whether the peer closes its write end once it has written its last byte.
    pub closes: bool,
    /// For an endpoint of a memory region, the size of its rings and its side. No
    /// operation changes this.
    pub origin: Option<(nat, Side)>,
}

/// Which ends of a channel are closed, as one endpoint sees it.
#[derive(Debug, Clone, Copy, PartialEq, Eq, Structural)]
pub struct CloseFlags {
    /// This endpoint writes no more.
    pub write_closed: bool,
    /// This endpoint reads no more.
    pub read_closed: bool,
    /// The peer writes no more.
    pub peer_write_closed: bool,
    /// The peer reads no more.
    pub peer_read_closed: bool,
}

/// Whether, from `before` to `after`, this endpoint closed nothing, and the peer
/// reopened nothing. While the peer rests it closes nothing either.
pub open spec fn flags_kept(before: CloseFlags, after: CloseFlags, settled: bool) -> bool {
    &&& after.write_closed == before.write_closed
    &&& after.read_closed == before.read_closed
    &&& before.peer_write_closed ==> after.peer_write_closed
    &&& before.peer_read_closed ==> after.peer_read_closed
    &&& settled ==> after == before
}

/// What a byte channel is, for the purpose of stating what its operations do.
///
/// What a type does not say here stays open.
pub trait Channel: Sized {
    /// Whether the endpoint is in order.
    open spec fn wf(&self) -> bool {
        arbitrary()
    }

    /// What this endpoint still has before it.
    open spec fn state(&self) -> ChannelState {
        arbitrary()
    }

    /// Which ends are closed.
    open spec fn closed(&self) -> CloseFlags {
        arbitrary()
    }

    /// Whether nobody else acts on the channel.
    open spec fn settled(&self) -> bool {
        arbitrary()
    }

    /// How often the channel can still say `WouldBlock` before a byte passes or
    /// the end shows.
    open spec fn stalls(&self) -> nat {
        arbitrary()
    }
}

/// Whether `after` is the endpoint `before` after calls in which it closed
/// nothing.
pub open spec fn continues<P: Channel>(before: P, after: P) -> bool {
    &&& after.wf()
    &&& after.settled() == before.settled()
    &&& flags_kept(before.closed(), after.closed(), before.settled())
}

/// What a read into `buf` that returned `r` does to the reader's state.
pub open spec fn read_effect(
    before: ChannelState,
    after: ChannelState,
    buf: Seq<u8>,
    filled: Seq<u8>,
    r: Result<usize, PipeError>,
) -> bool {
    match r {
        Ok(n) => {
            &&& n <= buf.len()
            &&& n <= before.incoming.len()
            &&& filled == before.incoming.take(n as int) + buf.skip(n as int)
            &&& after == ChannelState { incoming: before.incoming.skip(n as int), ..before }
            &&& n == 0 && buf.len() > 0 ==> before.incoming.len() == 0 && before.hangs_up
        },
        Err(_) => filled == buf && after == before,
    }
}

/// What a write of `buf` that returned `r` does to the writer's state.
pub open spec fn write_effect(
    before: ChannelState,
    after: ChannelState,
    buf: Seq<u8>,
    r: Result<usize, PipeError>,
) -> bool {
    match r {
        Ok(n) => {
            &&& n <= buf.len()
            &&& after == ChannelState {
                outgoing: before.outgoing + buf.take(n as int),
                room: less(before.room, n as nat),
                endurance: less(before.endurance, n as nat),
                ..before
            }
            &&& has_room(before.room, n as nat)
            &&& n == 0 && buf.len() > 0 ==> before.room == Some(0nat) && before.hangs_up
        },
        Err(_) => after == before,
    }
}

/// Whether `room` holds `n` bytes.
pub open spec fn has_room(room: Option<nat>, n: nat) -> bool {
    match room {
        Some(free) => n <= free,
        None => true,
    }
}

/// What is left of `room` after `n` bytes.
pub open spec fn less(room: Option<nat>, n: nat) -> Option<nat> {
    match room {
        Some(free) => Some((free - n) as nat),
        None => None,
    }
}

/// How many of `n` bytes `room` takes.
pub open spec fn accepted(room: Option<nat>, n: nat) -> nat {
    if has_room(room, n) {
        n
    } else {
        room->0
    }
}

/// The state of a channel after it took as much of `bytes` as it has room for.
pub open spec fn after_writing(before: ChannelState, bytes: Seq<u8>) -> ChannelState {
    let n = accepted(before.room, bytes.len());
    ChannelState {
        outgoing: before.outgoing + bytes.take(n as int),
        room: less(before.room, n),
        endurance: less(before.endurance, n),
        ..before
    }
}

/// Whether all of `bytes` can be handed to a channel in this state by a writer that
/// waits for room: there is room, or the channel hangs up.
pub open spec fn can_send(state: ChannelState, bytes: Seq<u8>) -> bool {
    &&& has_room(state.endurance, accepted(state.room, bytes.len()))
    &&& state.hangs_up || has_room(state.room, bytes.len())
}

/// Read bytes from a channel.
///
/// A read may return fewer bytes than `buf` holds; the caller loops if it needs
/// more.
pub trait Read: Channel {
    /// Try to read bytes into `buf`.
    ///
    /// Returns the number of bytes read, or `WouldBlock` if none is available
    /// now. Once the peer has closed its write end, `WouldBlock` means that none is
    /// left.
    fn read(&mut self, buf: &mut [u8]) -> (r: Result<usize, PipeError>)
        requires
            old(self).wf(),
        ensures
            continues(*old(self), *final(self)),
            read_effect(old(self).state(), final(self).state(), old(buf)@, final(buf)@, r),
            r is Err && old(self).settled() ==> old(self).state().incoming.len() == 0,
            r is Err && old(self).settled() && old(self).state().greedy ==> !old(
                self,
            ).state().hangs_up,
            r is Err && old(self).closed().peer_write_closed ==> old(self).state().incoming.len()
                == 0,
            r matches Ok(n) ==> old(self).settled() && old(self).state().greedy ==> n == if old(
                buf,
            )@.len() <= old(self).state().incoming.len() {
                old(buf)@.len()
            } else {
                old(self).state().incoming.len()
            },
            r is Err && (old(self).state().incoming.len() > 0 || old(self).state().hangs_up || (
            old(self).state().closes && !final(self).closed().peer_write_closed))
                ==> final(self).stalls() < old(self).stalls(),
    ;
}

/// Write bytes to a channel.
///
/// A write may take fewer bytes than `buf` holds; the caller loops if it has to
/// write more.
pub trait Write: Channel {
    /// Try to write bytes from `buf`.
    ///
    /// Returns the number of bytes written, or `WouldBlock` if there is no room
    /// now.
    fn write(&mut self, buf: &[u8]) -> (r: Result<usize, PipeError>)
        requires
            old(self).wf(),
            has_room(
                old(self).state().endurance,
                accepted(old(self).state().room, buf@.len()),
            ),
        ensures
            continues(*old(self), *final(self)),
            write_effect(old(self).state(), final(self).state(), buf@, r),
            r is Err && old(self).settled() ==> old(self).state().room == Some(0nat),
            r matches Ok(n) ==> old(self).settled() && old(self).state().greedy ==> n == accepted(
                old(self).state().room,
                buf@.len(),
            ),
            r is Err && (old(self).state().room != Some(0nat) || old(self).state().hangs_up)
                ==> final(self).stalls() < old(self).stalls(),
    ;
}

/// A channel whose two ends can be closed one direction at a time.
pub trait Pipe: Read + Write {
    /// True if the peer has closed its read end.
    fn is_peer_read_closed(&mut self) -> (b: bool)
        requires
            old(self).wf(),
        ensures
            b == final(self).closed().peer_read_closed,
            same_channel(*old(self), *final(self)),
            flags_kept(old(self).closed(), final(self).closed(), old(self).settled()),
    ;

    /// True if the peer has closed its write end.
    fn is_peer_write_closed(&mut self) -> (b: bool)
        requires
            old(self).wf(),
        ensures
            b == final(self).closed().peer_write_closed,
            same_channel(*old(self), *final(self)),
            flags_kept(old(self).closed(), final(self).closed(), old(self).settled()),
    ;

    /// Signal that this endpoint will write no more bytes.
    fn close_write(&mut self)
        requires
            old(self).wf(),
        ensures
            same_channel(*old(self), *final(self)),
            flags_kept(
                CloseFlags { write_closed: true, ..old(self).closed() },
                final(self).closed(),
                old(self).settled(),
            ),
    ;

    /// Signal that this endpoint will read no more bytes.
    fn close_read(&mut self)
        requires
            old(self).wf(),
        ensures
            same_channel(*old(self), *final(self)),
            flags_kept(
                CloseFlags { read_closed: true, ..old(self).closed() },
                final(self).closed(),
                old(self).settled(),
            ),
    ;

    /// True when both ends of both directions are closed.
    fn is_closed(&mut self) -> (b: bool)
        requires
            old(self).wf(),
        ensures
            b == all_closed(final(self).closed()),
            same_channel(*old(self), *final(self)),
            flags_kept(old(self).closed(), final(self).closed(), old(self).settled()),
    ;
}

/// Whether both ends of both directions are closed.
pub open spec fn all_closed(flags: CloseFlags) -> bool {
    flags.write_closed && flags.read_closed && flags.peer_write_closed && flags.peer_read_closed
}

/// Whether two values are one endpoint with the same bytes before it; its close
/// flags may differ.
pub open spec fn same_channel<P: Channel>(before: P, after: P) -> bool {
    &&& after.wf()
    &&& after.state() == before.state()
    &&& after.settled() == before.settled()
    &&& after.stalls() <= before.stalls()
}

} // verus!
