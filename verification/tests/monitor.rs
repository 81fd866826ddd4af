use std::collections::VecDeque;

use arca_networking::control::{
    read_frame, write_frame, AcceptListenerId, ArcaError, ArcaSession, ArcaTcpListener, CodecError,
    ConnectionReady, ControlFrame, ControlReply, ControlRequest, DataPipeInfo, Endpoint,
    ListenerReady, MessageType, MAX_FRAME_PAYLOAD,
};
use arca_networking::monitor::{
    io_err_code, pipe_to_tcp, tcp_to_pipe, AcceptOutcome, Action, BindOutcome, ConnectOutcome,
    Handled, Monitor, MonitorError, Pump, SocketTask, TcpRead,
};
use arca_networking::pipe::{Channel, PipeError, Read, Write};

/// Stands for a listening socket: the endpoint it was bound to.
type Listener = Endpoint;
/// Stands for a connected socket: a name for the peer.
type Stream = &'static str;
/// Stands for an I/O error.
type Fault = u8;

type Mon = Monitor<Listener, Stream>;

struct VecWriter(Vec<u8>);

impl Channel for VecWriter {}

impl Write for VecWriter {
    fn write(&mut self, buf: &[u8]) -> Result<usize, PipeError> {
        self.0.extend_from_slice(buf);
        Ok(buf.len())
    }
}

/// In-memory control pipe: pops inbound bytes, collects outbound writes.
struct QueuePipe {
    inbound: VecDeque<u8>,
    outbound: Vec<u8>,
}

impl QueuePipe {
    fn with(requests: &[ControlRequest]) -> Self {
        let mut enc = VecWriter(Vec::new());
        for request in requests {
            write_frame(&mut enc, &request.to_frame()).unwrap();
        }
        QueuePipe {
            inbound: VecDeque::from(enc.0),
            outbound: Vec::new(),
        }
    }

    fn replies(&self) -> Vec<ControlReply> {
        let mut reader = SliceReader {
            data: &self.outbound,
            pos: 0,
        };
        let mut got = Vec::new();
        while reader.pos < reader.data.len() {
            got.push(ControlReply::try_from(&read_frame(&mut reader).unwrap()).unwrap());
        }
        got
    }
}

impl Channel for QueuePipe {}

impl Read for QueuePipe {
    fn read(&mut self, buf: &mut [u8]) -> Result<usize, PipeError> {
        if self.inbound.is_empty() {
            return Err(PipeError::WouldBlock);
        }
        let n = std::cmp::min(buf.len(), self.inbound.len());
        for slot in buf.iter_mut().take(n) {
            *slot = self.inbound.pop_front().unwrap();
        }
        Ok(n)
    }
}

impl Write for QueuePipe {
    fn write(&mut self, buf: &[u8]) -> Result<usize, PipeError> {
        self.outbound.extend_from_slice(buf);
        Ok(buf.len())
    }
}

struct SliceReader<'a> {
    data: &'a [u8],
    pos: usize,
}

impl Channel for SliceReader<'_> {}

impl Read for SliceReader<'_> {
    fn read(&mut self, buf: &mut [u8]) -> Result<usize, PipeError> {
        if self.pos >= self.data.len() {
            return Err(PipeError::WouldBlock);
        }
        let n = std::cmp::min(buf.len(), self.data.len() - self.pos);
        buf[..n].copy_from_slice(&self.data[self.pos..self.pos + n]);
        self.pos += n;
        Ok(n)
    }
}

/// Takes `room` bytes and then hangs up.
struct Narrow {
    taken: Vec<u8>,
    room: usize,
}

impl Channel for Narrow {}

impl Write for Narrow {
    fn write(&mut self, buf: &[u8]) -> Result<usize, PipeError> {
        let n = buf.len().min(self.room - self.taken.len());
        self.taken.extend_from_slice(&buf[..n]);
        Ok(n)
    }
}

/// A network in which port 1 can be neither bound nor reached, port 2 is bound but
/// cannot be made non-blocking, and `peers` wait to be accepted.
struct FakeNet {
    peers: VecDeque<AcceptOutcome<Stream>>,
    asked: Vec<Action>,
}

impl FakeNet {
    fn new() -> Self {
        FakeNet {
            peers: VecDeque::new(),
            asked: Vec::new(),
        }
    }

    fn bind(&mut self, ep: Endpoint) -> BindOutcome<Listener, Fault> {
        match ep.port {
            1 => BindOutcome::Refused(98),
            2 => BindOutcome::Broken(5),
            _ => BindOutcome::Bound(ep),
        }
    }

    fn connect(&mut self, ep: Endpoint) -> ConnectOutcome<Stream> {
        if ep.port == 1 {
            ConnectOutcome::Refused(111)
        } else {
            ConnectOutcome::Connected("server")
        }
    }

    fn accept(&mut self) -> AcceptOutcome<Stream> {
        self.peers.pop_front().unwrap_or(AcceptOutcome::NotReady)
    }
}

/// Carry out a run until it is done or asks to yield.
fn drive<T: Read + Write>(
    m: &mut Mon,
    pump: &mut Pump,
    t: &mut T,
    net: &mut FakeNet,
) -> Result<Action, MonitorError<Fault>> {
    loop {
        let action = m.advance::<T, Fault>(pump, t)?;
        net.asked.push(action);
        match action {
            Action::Accept(lid) => {
                assert!(m.listener(lid).is_some());
                let outcome = net.accept();
                m.on_accept(pump, t, outcome).map_err(MonitorError::Codec)?
            }
            Action::Bind(ep) => {
                let outcome = net.bind(ep);
                m.on_bind(pump, t, outcome)?
            }
            Action::Connect(ep) => {
                let outcome = net.connect(ep);
                m.on_connect(pump, t, outcome).map_err(MonitorError::Codec)?
            }
            Action::Yield | Action::Done => return Ok(action),
        }
    }
}

fn pump_once<T: Read + Write>(
    m: &mut Mon,
    t: &mut T,
    net: &mut FakeNet,
) -> Result<Action, MonitorError<Fault>> {
    let mut pump = m.pump_once();
    drive(m, &mut pump, t, net)
}

fn poll_accepts<T: Write>(m: &mut Mon, t: &mut T, net: &mut FakeNet) -> Result<usize, CodecError> {
    let mut poll = m.poll_accepts();
    while poll.listener().is_some() {
        let outcome = net.accept();
        m.accepted(&mut poll, t, outcome)?;
    }
    Ok(poll.written)
}

/// Dispatch one listen or connect request and build its reply.
fn dispatch(
    m: &mut Mon,
    frame: &ControlFrame,
    net: &mut FakeNet,
) -> Result<ControlFrame, MonitorError<Fault>> {
    let reply = match m.dispatch_request::<Fault>(frame)? {
        SocketTask::Bind {
            request_id,
            endpoint,
        } => m.finish_bind(request_id, net.bind(endpoint))?,
        SocketTask::Connect {
            request_id,
            endpoint,
        } => m.finish_connect(request_id, net.connect(endpoint)),
    };
    Ok(reply.to_frame())
}

fn listen_request(rid: u32, ep: Endpoint) -> ControlFrame {
    let mut pl = [0u8; MAX_FRAME_PAYLOAD];
    let n = ep.encode(&mut pl);
    ControlFrame::new(MessageType::ListenRequest, rid, &pl[..n])
}

const LOCAL: [u8; 4] = [127, 0, 0, 1];

#[test]
fn listen_dispatch_binds() {
    let mut m = Mon::new(64);
    let ep = Endpoint::new([127, 0, 0, 1], 0);
    let req = listen_request(7, ep);
    let reply = dispatch(&mut m, &req, &mut FakeNet::new()).unwrap();
    assert_eq!(reply.message_type, MessageType::ListenOk);
    assert_eq!(reply.request_id, 7);
    let lr = ListenerReady::decode(reply.payload());
    assert!(m.listener(lr.listener_id).is_some());
    assert_eq!(m.listener(lr.listener_id), Some(&ep));
    assert_eq!(m.listener(lr.listener_id + 1), None);
}

#[test]
fn queued_accept_is_paired_with_a_later_peer() {
    let mut m = Mon::new(64);
    let mut net = FakeNet::new();
    let reply = dispatch(&mut m, &listen_request(1, Endpoint::new(LOCAL, 0)), &mut net).unwrap();
    let lid = ListenerReady::decode(reply.payload()).listener_id;

    let mut pay = [0u8; 4];
    AcceptListenerId { listener_id: lid }.encode(&mut pay);
    let acc = ControlFrame::new(MessageType::AcceptRequest, 77, &pay);
    let mut enc = VecWriter(Vec::new());
    write_frame(&mut enc, &acc).unwrap();
    let mut transport = QueuePipe {
        inbound: VecDeque::from(enc.0),
        outbound: Vec::new(),
    };
    assert_eq!(pump_once(&mut m, &mut transport, &mut net), Ok(Action::Done));
    assert!(transport.outbound.is_empty());

    net.peers.push_back(AcceptOutcome::Accepted("peer"));
    let mut w = VecWriter(Vec::new());
    assert_eq!(poll_accepts(&mut m, &mut w, &mut net).unwrap(), 1);
    let fr = read_frame(&mut SliceReader { data: &w.0, pos: 0 }).unwrap();
    assert_eq!(fr.message_type, MessageType::IncomingConnection);
    assert_eq!(fr.request_id, 77);
    let ready = ConnectionReady::decode(fr.payload());
    assert_eq!(ready.listener_id, lid);
    assert_eq!(m.connection(ready.connection_id), Some(&mut "peer"));
    // Nobody waits any more, so nobody is accepted.
    net.peers.push_back(AcceptOutcome::Accepted("stray"));
    assert_eq!(poll_accepts(&mut m, &mut w, &mut net).unwrap(), 0);
    assert_eq!(net.peers.len(), 1);
}

#[test]
fn incoming_after_enqueue() {
    let mut m = Mon::new(64);
    let mut net = FakeNet::new();
    let reply = dispatch(&mut m, &listen_request(1, Endpoint::new(LOCAL, 0)), &mut net).unwrap();
    let lid = ListenerReady::decode(reply.payload()).listener_id;
    m.enqueue_accept(lid, 42);
    net.peers.push_back(AcceptOutcome::Accepted("peer"));
    let mut w = VecWriter(Vec::new());
    let written = poll_accepts(&mut m, &mut w, &mut net).unwrap();
    assert_eq!(written, 1);
    let ev = read_frame(&mut SliceReader { data: &w.0, pos: 0 }).unwrap();
    assert_eq!(ev.message_type, MessageType::IncomingConnection);
    assert_eq!(ev.request_id, 42);
    let ready = ConnectionReady::decode(ev.payload());
    assert_eq!(ready.listener_id, lid);
}

#[test]
fn connect_dispatch_keeps_the_stream() {
    let mut m = Mon::new(64);
    let req = ControlRequest::Connect {
        request_id: 1,
        endpoint: Endpoint::new(LOCAL, 80),
    };
    let reply = dispatch(&mut m, &req.to_frame(), &mut FakeNet::new()).unwrap();
    assert_eq!(reply.message_type, MessageType::ConnectOk);
    let ready = ConnectionReady::decode(reply.payload());
    assert_eq!(
        ready,
        ConnectionReady {
            listener_id: 0,
            connection_id: 1,
            pipe: DataPipeInfo::new(1, 64),
        }
    );
    let stream = m.connection(ready.connection_id).unwrap();
    assert_eq!(*stream, "server");
    *stream = "moved";
    assert_eq!(m.connection(1), Some(&mut "moved"));
    assert_eq!(m.connection(2), None);
}

#[test]
fn refused_sockets_are_answered_and_leave_nothing() {
    let mut m = Mon::new(64);
    let mut net = FakeNet::new();
    let bad = Endpoint::new(LOCAL, 1);
    let reply = dispatch(&mut m, &listen_request(3, bad), &mut net).unwrap();
    assert_eq!(
        ControlReply::try_from(&reply),
        Ok(ControlReply::ListenErr {
            request_id: 3,
            code: 98
        })
    );
    let req = ControlRequest::Connect {
        request_id: 4,
        endpoint: bad,
    };
    let reply = dispatch(&mut m, &req.to_frame(), &mut net).unwrap();
    assert_eq!(
        ControlReply::try_from(&reply),
        Ok(ControlReply::ConnectErr {
            request_id: 4,
            code: 111
        })
    );
    assert_eq!(
        dispatch(&mut m, &listen_request(5, Endpoint::new(LOCAL, 2)), &mut net),
        Err(MonitorError::Io(5))
    );
    assert_eq!(m.listener(1), None);
    assert_eq!(m.connection(1), None);
    // The first ids are still free.
    let reply = dispatch(&mut m, &listen_request(6, Endpoint::new(LOCAL, 3)), &mut net).unwrap();
    assert_eq!(ListenerReady::decode(reply.payload()).listener_id, 1);
}

#[test]
fn dispatch_refuses_other_frames() {
    let m = Mon::new(64);
    let accept = ControlRequest::Accept {
        request_id: 1,
        listener_id: 1,
    };
    assert_eq!(
        m.dispatch_request::<Fault>(&accept.to_frame()),
        Err(MonitorError::UnexpectedRequest(MessageType::AcceptRequest))
    );
    assert_eq!(
        m.dispatch_request::<Fault>(&ControlFrame::new(MessageType::ListenOk, 1, &[])),
        Err(MonitorError::UnexpectedRequest(MessageType::ListenOk))
    );
    assert_eq!(
        m.dispatch_request::<Fault>(&ControlFrame::new(MessageType::ConnectRequest, 1, &[1])),
        Err(MonitorError::Codec(CodecError::ShortPayload {
            expected: 6,
            got: 1
        }))
    );
}

#[test]
fn pump_takes_every_request_in_order() {
    let mut m = Mon::new(256);
    let mut net = FakeNet::new();
    let ep = Endpoint::new(LOCAL, 80);
    let mut t = QueuePipe::with(&[
        ControlRequest::Listen {
            request_id: 1,
            endpoint: ep,
        },
        ControlRequest::Connect {
            request_id: 2,
            endpoint: ep,
        },
        ControlRequest::Accept {
            request_id: 3,
            listener_id: 1,
        },
        ControlRequest::Accept {
            request_id: 4,
            listener_id: 1,
        },
        ControlRequest::Connect {
            request_id: 5,
            endpoint: Endpoint::new(LOCAL, 1),
        },
    ]);
    assert_eq!(pump_once(&mut m, &mut t, &mut net), Ok(Action::Done));
    assert_eq!(
        t.replies(),
        vec![
            ControlReply::ListenOk {
                request_id: 1,
                listener_id: 1
            },
            ControlReply::ConnectOk {
                request_id: 2,
                ready: ConnectionReady {
                    listener_id: 0,
                    connection_id: 1,
                    pipe: DataPipeInfo::new(1, 256)
                }
            },
            ControlReply::ConnectErr {
                request_id: 5,
                code: 111
            },
        ]
    );
    t.outbound.clear();
    // Both waits are still there, and are answered first come first served.
    net.peers.push_back(AcceptOutcome::Accepted("a"));
    assert_eq!(pump_once(&mut m, &mut t, &mut net), Ok(Action::Done));
    net.peers.push_back(AcceptOutcome::Failed(24));
    assert_eq!(pump_once(&mut m, &mut t, &mut net), Ok(Action::Done));
    net.asked.clear();
    assert_eq!(pump_once(&mut m, &mut t, &mut net), Ok(Action::Done));
    assert_eq!(net.asked, vec![Action::Done]);
    assert_eq!(
        t.replies(),
        vec![
            ControlReply::AcceptOk {
                request_id: 3,
                ready: ConnectionReady {
                    listener_id: 1,
                    connection_id: 2,
                    pipe: DataPipeInfo::new(2, 256)
                }
            },
            ControlReply::AcceptErr {
                request_id: 4,
                code: 24
            },
        ]
    );
}

#[test]
fn whole_requests_are_answered_and_a_cut_one_is_kept() {
    let mut m = Mon::new(64);
    let mut net = FakeNet::new();
    let ep = Endpoint::new(LOCAL, 80);
    let ids = [9u32, 4, 7];
    let mut t = QueuePipe::with(&[
        ControlRequest::Connect {
            request_id: ids[0],
            endpoint: ep,
        },
        ControlRequest::Listen {
            request_id: ids[1],
            endpoint: Endpoint::new(LOCAL, 1),
        },
        ControlRequest::Listen {
            request_id: ids[2],
            endpoint: ep,
        },
    ]);
    let mut cut = QueuePipe::with(&[ControlRequest::Connect {
        request_id: 12,
        endpoint: ep,
    }]);
    let mut rest = cut.inbound.split_off(10);
    t.inbound.append(&mut cut.inbound);
    assert_eq!(pump_once(&mut m, &mut t, &mut net), Ok(Action::Done));
    let got: Vec<u32> = t.replies().iter().map(|reply| reply.request_id()).collect();
    assert_eq!(got, ids);
    assert!(t.inbound.is_empty());
    t.outbound.clear();
    t.inbound.append(&mut rest);
    assert_eq!(pump_once(&mut m, &mut t, &mut net), Ok(Action::Done));
    assert!(matches!(
        t.replies()[..],
        [ControlReply::ConnectOk { request_id: 12, .. }]
    ));
}

#[test]
fn unknown_listener_is_refused_on_the_wire() {
    let mut m = Mon::new(64);
    let mut t = QueuePipe::with(&[ControlRequest::Accept {
        request_id: 8,
        listener_id: 12,
    }]);
    assert_eq!(
        pump_once(&mut m, &mut t, &mut FakeNet::new()),
        Err(MonitorError::UnknownListener(12))
    );
    assert_eq!(
        t.replies(),
        vec![ControlReply::AcceptErr {
            request_id: 8,
            code: 9
        }]
    );
    assert!(m.waiting_listeners().is_empty());
}

#[test]
fn handle_control_frame_sorts_requests() {
    let mut m = Mon::new(64);
    m.finish_bind::<Fault>(1, BindOutcome::Bound(Endpoint::new(LOCAL, 9))).unwrap();
    let mut w = VecWriter(Vec::new());
    let ep = Endpoint::new(LOCAL, 80);
    let listen = ControlRequest::Listen {
        request_id: 2,
        endpoint: ep,
    };
    assert_eq!(
        m.handle_control_frame::<_, Fault>(&mut w, &listen.to_frame()),
        Ok(Handled::Task(SocketTask::Bind {
            request_id: 2,
            endpoint: ep
        }))
    );
    let accept = ControlRequest::Accept {
        request_id: 3,
        listener_id: 1,
    };
    assert_eq!(
        m.handle_control_frame::<_, Fault>(&mut w, &accept.to_frame()),
        Ok(Handled::Queued)
    );
    assert_eq!(m.waiting_listeners(), vec![1]);
    assert!(w.0.is_empty());
    let short = ControlFrame::new(MessageType::AcceptRequest, 4, &[1]);
    assert_eq!(
        m.handle_control_frame::<_, Fault>(&mut w, &short),
        Err(MonitorError::Codec(CodecError::ShortPayload {
            expected: 4,
            got: 1
        }))
    );
    let mut narrow = Narrow {
        taken: Vec::new(),
        room: 3,
    };
    let unknown = ControlRequest::Accept {
        request_id: 5,
        listener_id: 9,
    };
    assert_eq!(
        m.handle_control_frame::<_, Fault>(&mut narrow, &unknown.to_frame()),
        Err(MonitorError::Codec(CodecError::Closed))
    );
    assert_eq!(narrow.taken, vec![9, 4, 0]);
}

#[test]
fn pump_reports_garbage_and_wrong_direction() {
    let mut m = Mon::new(64);
    let mut t = QueuePipe::with(&[]);
    t.inbound.extend([200u8, 0, 0, 0, 0, 0, 0]);
    assert_eq!(
        pump_once(&mut m, &mut t, &mut FakeNet::new()),
        Err(MonitorError::Codec(CodecError::UnknownMessageType(200)))
    );
    let mut m = Mon::new(64);
    let mut t = QueuePipe::with(&[]);
    t.inbound.extend([2u8, 0, 0, 0, 0, 0, 0]);
    assert_eq!(
        pump_once(&mut m, &mut t, &mut FakeNet::new()),
        Err(MonitorError::UnexpectedRequest(MessageType::ListenOk))
    );
    let mut m = Mon::new(64);
    let mut t = QueuePipe::with(&[ControlRequest::Listen {
        request_id: 1,
        endpoint: Endpoint::new(LOCAL, 2),
    }]);
    assert_eq!(
        pump_once(&mut m, &mut t, &mut FakeNet::new()),
        Err(MonitorError::Io(5))
    );
}

#[test]
fn serve_one_yields_until_a_request_is_whole() {
    let mut m = Mon::new(64);
    let mut net = FakeNet::new();
    let ep = Endpoint::new(LOCAL, 80);
    let mut whole = QueuePipe::with(&[
        ControlRequest::Listen {
            request_id: 1,
            endpoint: ep,
        },
        ControlRequest::Listen {
            request_id: 2,
            endpoint: ep,
        },
    ]);
    let mut t = QueuePipe::with(&[]);
    let mut pump = m.serve_one();
    assert_eq!(drive(&mut m, &mut pump, &mut t, &mut net), Ok(Action::Yield));
    for _ in 0..12 {
        t.inbound.push_back(whole.inbound.pop_front().unwrap());
        assert_eq!(drive(&mut m, &mut pump, &mut t, &mut net), Ok(Action::Yield));
    }
    t.inbound.append(&mut whole.inbound);
    assert_eq!(drive(&mut m, &mut pump, &mut t, &mut net), Ok(Action::Done));
    // Only the first request was taken.
    assert_eq!(
        t.replies(),
        vec![ControlReply::ListenOk {
            request_id: 1,
            listener_id: 1
        }]
    );
    assert_eq!(drive(&mut m, &mut pump, &mut t, &mut net), Ok(Action::Done));
    let mut pump = m.serve_one();
    assert_eq!(drive(&mut m, &mut pump, &mut t, &mut net), Ok(Action::Done));
    assert_eq!(t.replies().len(), 2);
}

#[test]
fn due_action_is_named_again() {
    let mut m = Mon::new(64);
    let ep = Endpoint::new(LOCAL, 80);
    let mut t = QueuePipe::with(&[ControlRequest::Connect {
        request_id: 1,
        endpoint: ep,
    }]);
    let mut pump = m.pump_once();
    for _ in 0..3 {
        assert_eq!(
            m.advance::<_, Fault>(&mut pump, &mut t),
            Ok(Action::Connect(ep))
        );
    }
    m.on_connect(&mut pump, &mut t, ConnectOutcome::Connected("x")).unwrap();
    assert_eq!(m.advance::<_, Fault>(&mut pump, &mut t), Ok(Action::Done));
}

#[test]
fn lost_reply_is_reported_and_the_connection_kept() {
    let mut m = Mon::new(64);
    m.finish_bind::<Fault>(1, BindOutcome::Bound(Endpoint::new(LOCAL, 9))).unwrap();
    m.enqueue_accept(1, 50);
    let mut narrow = Narrow {
        taken: Vec::new(),
        room: 10,
    };
    let mut poll = m.poll_accepts();
    assert_eq!(
        m.accepted(&mut poll, &mut narrow, AcceptOutcome::Accepted("peer")),
        Err(CodecError::Closed)
    );
    assert_eq!(poll.written, 0);
    assert_eq!(m.connection(1), Some(&mut "peer"));
    assert!(m.waiting_listeners().is_empty());
}

#[test]
fn waits_of_several_listeners_do_not_mix() {
    let mut m = Mon::new(64);
    for rid in 1..4 {
        m.finish_bind::<Fault>(rid, BindOutcome::Bound(Endpoint::new(LOCAL, rid as u16))).unwrap();
    }
    m.enqueue_accept(1, 10);
    m.enqueue_accept(3, 30);
    m.enqueue_accept(3, 31);
    let mut lids = m.waiting_listeners();
    lids.sort();
    assert_eq!(lids, vec![1, 3]);
    let reply = m.finish_accept(3, AcceptOutcome::Accepted("c"));
    assert!(matches!(reply, Some(ControlReply::AcceptOk { request_id: 30, .. })));
    assert_eq!(m.finish_accept(2, AcceptOutcome::Accepted("lost")), None);
    assert_eq!(m.finish_accept(3, AcceptOutcome::NotReady), None);
    assert_eq!(
        m.finish_accept(1, AcceptOutcome::Failed(4)),
        Some(ControlReply::AcceptErr {
            request_id: 10,
            code: 4
        })
    );
    let reply = m.finish_accept(3, AcceptOutcome::Accepted("d"));
    assert!(matches!(reply, Some(ControlReply::AcceptOk { request_id: 31, .. })));
    assert_eq!(m.connection(1), Some(&mut "c"));
    assert_eq!(m.connection(2), Some(&mut "d"));
    assert_eq!(m.connection(3), None);
}

#[test]
fn a_round_serves_every_listener_once() {
    let mut m = Mon::new(64);
    for rid in 1..5 {
        m.finish_bind::<Fault>(rid, BindOutcome::Bound(Endpoint::new(LOCAL, rid as u16))).unwrap();
    }
    for lid in [1, 2, 4] {
        m.enqueue_accept(lid, lid * 10);
        m.enqueue_accept(lid, lid * 10 + 1);
    }
    let mut poll = m.poll_accepts();
    let mut t = QueuePipe::with(&[]);
    let mut expected = Vec::new();
    let mut order = Vec::new();
    while let Some(lid) = poll.listener() {
        order.push(lid);
        let outcome = match lid {
            1 => AcceptOutcome::Accepted("a"),
            2 => AcceptOutcome::Failed(24),
            _ => AcceptOutcome::NotReady,
        };
        if lid != 4 {
            expected.push(lid * 10);
        }
        m.accepted(&mut poll, &mut t, outcome).unwrap();
    }
    assert_eq!(poll.written, 1);
    let got: Vec<u32> = t.replies().iter().map(|reply| reply.request_id()).collect();
    assert_eq!(got, expected);
    order.sort();
    assert_eq!(order, vec![1, 2, 4]);
    // One request was answered on each of the first two, none on the third.
    for (lid, left) in [(1, vec![11]), (2, vec![21]), (4, vec![40, 41])] {
        let mut ids = Vec::new();
        while let Some(reply) = m.finish_accept(lid, AcceptOutcome::Failed(1)) {
            ids.push(reply.request_id());
        }
        assert_eq!(ids, left);
    }
}

#[test]
fn a_run_accounts_for_waits_and_requests() {
    let mut m = Mon::new(64);
    let mut net = FakeNet::new();
    m.finish_bind::<Fault>(1, BindOutcome::Bound(Endpoint::new(LOCAL, 9))).unwrap();
    m.enqueue_accept(1, 100);
    net.peers.push_back(AcceptOutcome::NotReady);
    net.peers.push_back(AcceptOutcome::Accepted("first"));
    net.peers.push_back(AcceptOutcome::Failed(24));
    let ep = Endpoint::new(LOCAL, 80);
    let mut t = QueuePipe::with(&[
        ControlRequest::Accept {
            request_id: 101,
            listener_id: 1,
        },
        ControlRequest::Connect {
            request_id: 5,
            endpoint: ep,
        },
        ControlRequest::Accept {
            request_id: 102,
            listener_id: 1,
        },
        ControlRequest::Listen {
            request_id: 6,
            endpoint: ep,
        },
    ]);
    assert_eq!(pump_once(&mut m, &mut t, &mut net), Ok(Action::Done));
    let replies = t.replies();
    let sockets: Vec<u32> = replies
        .iter()
        .filter(|r| !matches!(r, ControlReply::AcceptOk { .. } | ControlReply::AcceptErr { .. }))
        .map(|r| r.request_id())
        .collect();
    let waits: Vec<u32> = replies
        .iter()
        .filter(|r| matches!(r, ControlReply::AcceptOk { .. } | ControlReply::AcceptErr { .. }))
        .map(|r| r.request_id())
        .collect();
    assert_eq!(sockets, vec![5, 6]);
    assert_eq!(waits, vec![100, 101]);
    assert_eq!(
        m.finish_accept(1, AcceptOutcome::Failed(7)),
        Some(ControlReply::AcceptErr {
            request_id: 102,
            code: 7
        })
    );
}

#[test]
fn error_codes() {
    assert_eq!(io_err_code(Some(98)), 98);
    assert_eq!(io_err_code(None), 1);
}

// --- a client and a monitor on one pipe ---

/// The client's end of a control pipe whose other end is served on the spot.
struct Served {
    monitor: Mon,
    net: FakeNet,
    wire: QueuePipe,
    unread: VecDeque<u8>,
}

impl Served {
    fn new(ring_size: u64) -> Self {
        Served {
            monitor: Mon::new(ring_size),
            net: FakeNet::new(),
            wire: QueuePipe::with(&[]),
            unread: VecDeque::new(),
        }
    }
}

impl Channel for Served {}

impl Read for Served {
    fn read(&mut self, buf: &mut [u8]) -> Result<usize, PipeError> {
        // A failed run has answered what it could; the next read starts another.
        let _ = pump_once(&mut self.monitor, &mut self.wire, &mut self.net);
        self.unread.extend(self.wire.outbound.drain(..));
        if self.unread.is_empty() {
            return Err(PipeError::WouldBlock);
        }
        let n = buf.len().min(self.unread.len());
        for slot in buf.iter_mut().take(n) {
            *slot = self.unread.pop_front().unwrap();
        }
        Ok(n)
    }
}

impl Write for Served {
    fn write(&mut self, buf: &[u8]) -> Result<usize, PipeError> {
        self.wire.inbound.extend(buf.iter().copied());
        Ok(buf.len())
    }
}

#[test]
fn client_connects_through_the_monitor() {
    let mut end = Served::new(64);
    let mut client = ArcaSession::new(&mut end);
    let stream = client.connect(Endpoint::new(LOCAL, 80)).expect("connect should succeed");
    assert!(!stream.is_inbound(), "outbound connect has listener_id 0");
    assert_eq!(stream.connection_id(), 1, "first connection gets id 1");
    assert_eq!(stream.pipe().ring_size, 64, "ring_size from default config");
    assert_eq!(stream.pipe().pipe_id, stream.connection_id() as u64);
    assert_eq!(
        client.connect(Endpoint::new(LOCAL, 1)),
        Err(ArcaError::ConnectFailed { code: 111 })
    );
    assert_eq!(end.monitor.connection(1), Some(&mut "server"));
}

#[test]
fn client_binds_then_accepts_through_the_monitor() {
    let mut end = Served::new(64);
    end.net.peers.push_back(AcceptOutcome::NotReady);
    end.net.peers.push_back(AcceptOutcome::NotReady);
    end.net.peers.push_back(AcceptOutcome::Accepted("peer"));
    let mut client = ArcaSession::new(&mut end);
    assert_eq!(
        client.bind(Endpoint::new(LOCAL, 1)),
        Err(ArcaError::ListenFailed { code: 98 })
    );
    let listener = client.bind(Endpoint::new(LOCAL, 0)).expect("bind should succeed");
    assert_eq!(listener.id(), 1);
    let stream = client.accept(&listener).unwrap();
    assert!(stream.is_inbound());
    assert_eq!(stream.listener_id(), listener.id());
    assert_eq!(
        client.accept(&ArcaTcpListener { listener_id: 5 }),
        Err(ArcaError::AcceptFailed { code: 9 })
    );
    assert!(end.monitor.connection(stream.connection_id()).is_some());
}

// --- relay ---

#[test]
fn tcp_to_pipe_moves_what_was_read() {
    let mut out = VecWriter(Vec::new());
    assert_eq!(tcp_to_pipe::<_, Fault>(TcpRead::Read(2), b"hi....", &mut out), Ok(2));
    assert_eq!(out.0, b"hi");
    assert_eq!(tcp_to_pipe::<_, Fault>(TcpRead::Read(0), b"", &mut out), Ok(0));
    assert_eq!(tcp_to_pipe::<_, Fault>(TcpRead::NotReady, b"xx", &mut out), Ok(0));
    assert_eq!(tcp_to_pipe::<_, Fault>(TcpRead::Failed(3), b"xx", &mut out), Err(3));
    assert_eq!(out.0, b"hi");
    let mut narrow = Narrow {
        taken: Vec::new(),
        room: 3,
    };
    assert_eq!(tcp_to_pipe::<_, Fault>(TcpRead::Read(5), b"abcde", &mut narrow), Ok(3));
    assert_eq!(narrow.taken, b"abc");
}

#[test]
fn pipe_to_tcp_takes_what_is_there() {
    let mut pipe = QueuePipe::with(&[]);
    let mut buf = [0u8; 4];
    assert_eq!(pipe_to_tcp(&mut pipe, &mut buf), 0);
    pipe.inbound.extend(b"abcdef".iter().copied());
    assert_eq!(pipe_to_tcp(&mut pipe, &mut buf), 4);
    assert_eq!(&buf, b"abcd");
    assert_eq!(pipe_to_tcp(&mut pipe, &mut buf), 2);
    assert_eq!(&buf[..2], b"ef");
}
