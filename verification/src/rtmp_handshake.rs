use vstd::prelude::*;

use crate::bytes::{bytes_eq, u32_be, write_bytes, write_u32};
use crate::error::{Error, ErrorKind};

verus! {

/// The RTMP version both sides announce.
const RTMP_VERSION: u8 = 3;

/// The size of the C1/S1 and C2/S2 packets.
const HANDSHAKE_PACKET_SIZE: usize = 1536;

/// The size of the filler that ends a phase 1 packet.
const RANDOM_DATA_SIZE: usize = 1528;

/// The phase 1 packet (C1 or S1) that this library sends: a zero timestamp, a zero
/// version (so that the digest form of the handshake is never used) and zero filler.
pub open spec fn phase1_packet() -> Seq<u8> {
    Seq::new(1536, |_i: int| 0u8)
}

/// The parameters of the phase 1 packet.
#[derive(Debug, Clone)]
struct RtmpHandshakeOptions {
    app_version: [u8; 4],
    timestamp: u32,
    random_data: Vec<u8>,
}

impl RtmpHandshakeOptions {
    /// The phase 1 packet these options give.
    spec fn packet(&self) -> Seq<u8> {
        u32_be(self.timestamp as int) + self.app_version@ + self.random_data@
    }

    /// The options give the packet that this library sends.
    spec fn wf(&self) -> bool {
        self.packet() == phase1_packet()
    }

    /// The phase 1 packet.
    fn phase1_packet(&self) -> (r: Vec<u8>)
        ensures
            r@ == self.packet(),
    {
        let mut packet: Vec<u8> = Vec::with_capacity(HANDSHAKE_PACKET_SIZE);
        write_u32(&mut packet, self.timestamp);
        write_bytes(&mut packet, self.app_version.as_slice());
        write_bytes(&mut packet, self.random_data.as_slice());
        packet
    }

    /// Zero timestamp, zero version and zero filler.
    fn new() -> (r: Self)
        ensures
            r.wf(),
    {
        let mut random_data: Vec<u8> = Vec::new();
        while random_data.len() < RANDOM_DATA_SIZE
            invariant
                random_data@.len() <= RANDOM_DATA_SIZE,
                forall|i: int| 0 <= i < random_data@.len() ==> random_data@[i] == 0u8,
            decreases RANDOM_DATA_SIZE - random_data@.len(),
        {
            random_data.push(0);
        }
        let r = RtmpHandshakeOptions { app_version: [0, 0, 0, 0], timestamp: 0, random_data };
        assert(r.packet() =~= phase1_packet());
        r
    }
}

/// How far a handshake has got.
#[derive(Debug, Clone, Copy, PartialEq, Eq, Structural)]
pub enum Phase {
    /// Waiting for the version byte (C0 or S0).
    P0,
    /// Waiting for the phase 1 packet (and, on the client, the echo of its own).
    P1,
    /// The server waits for the echo of its phase 1 packet.
    P2,
    /// Done.
    Complete,
}

/// The state of a handshake: its phase, the bytes received and not yet used, and the
/// bytes waiting to be sent.
pub struct HandshakeState {
    pub phase: Phase,
    pub recv: Seq<u8>,
    pub send: Seq<u8>,
}

/// What handling the received bytes does: the phase reached, the received bytes left,
/// the bytes to send, and whether it went without error.
pub struct HandshakeStep {
    pub phase: Phase,
    pub recv: Seq<u8>,
    pub sent: Seq<u8>,
    pub ok: bool,
}

/// A step that sends nothing.
pub open spec fn quiet(phase: Phase, recv: Seq<u8>, ok: bool) -> HandshakeStep {
    HandshakeStep { phase, recv, sent: Seq::empty(), ok }
}

/// `s` with `prefix` sent before what it sends.
pub open spec fn sending_first(prefix: Seq<u8>, s: HandshakeStep) -> HandshakeStep {
    HandshakeStep { phase: s.phase, recv: s.recv, sent: prefix + s.sent, ok: s.ok }
}

/// Server, phase 2: C2 must echo S1.
pub open spec fn server_p2(recv: Seq<u8>) -> HandshakeStep {
    if recv.len() < 1536 {
        quiet(Phase::P2, recv, true)
    } else if recv.take(1536) != phase1_packet() {
        quiet(Phase::P2, recv.skip(1536), false)
    } else {
        quiet(Phase::Complete, recv.skip(1536), true)
    }
}

/// Server, phase 1: C1 is answered with S1 and S2 (the echo of C1).
pub open spec fn server_p1(recv: Seq<u8>) -> HandshakeStep {
    if recv.len() < 1536 {
        quiet(Phase::P1, recv, true)
    } else {
        sending_first(phase1_packet() + recv.take(1536), server_p2(recv.skip(1536)))
    }
}

/// Server, phase 0: C0 must announce version 3, and is answered with S0.
pub open spec fn server_p0(recv: Seq<u8>) -> HandshakeStep {
    if recv.len() == 0 {
        quiet(Phase::P0, recv, true)
    } else if recv[0] != 3 {
        quiet(Phase::P0, recv.skip(1), false)
    } else {
        sending_first(seq![3u8], server_p1(recv.skip(1)))
    }
}

/// What the server does with the received bytes `recv` in phase `phase`.
pub open spec fn server_step(phase: Phase, recv: Seq<u8>) -> HandshakeStep {
    match phase {
        Phase::P0 => server_p0(recv),
        Phase::P1 => server_p1(recv),
        Phase::P2 => server_p2(recv),
        Phase::Complete => quiet(Phase::Complete, recv, true),
    }
}

/// Client, phase 1: S1 and S2 are read together; S2 must echo C1, and S1 is echoed as C2.
pub open spec fn client_p1(recv: Seq<u8>) -> HandshakeStep {
    if recv.len() < 3072 {
        quiet(Phase::P1, recv, true)
    } else if recv.subrange(1536, 3072) != phase1_packet() {
        quiet(Phase::P1, recv.skip(3072), false)
    } else {
        HandshakeStep { phase: Phase::Complete, recv: recv.skip(3072), sent: recv.take(1536), ok: true }
    }
}

/// Client, phase 0: S0 must announce version 3.
pub open spec fn client_p0(recv: Seq<u8>) -> HandshakeStep {
    if recv.len() == 0 {
        quiet(Phase::P0, recv, true)
    } else if recv[0] != 3 {
        quiet(Phase::P0, recv.skip(1), false)
    } else {
        client_p1(recv.skip(1))
    }
}

/// What the client does with the received bytes `recv` in phase `phase`.
pub open spec fn client_step(phase: Phase, recv: Seq<u8>) -> HandshakeStep {
    match phase {
        Phase::P0 => client_p0(recv),
        Phase::P1 => client_p1(recv),
        _ => quiet(phase, recv, true),
    }
}

/// The state after feeding `buf` to a handshake in state `s`, where `step` says what
/// handling the received bytes does.
pub open spec fn after_feed(s: HandshakeState, step: HandshakeStep) -> HandshakeState {
    HandshakeState { phase: step.phase, recv: step.recv, send: s.send + step.sent }
}

/// Removes the first `n` bytes of `v` and returns them.
fn take_front(v: &mut Vec<u8>, n: usize) -> (r: Vec<u8>)
    requires
        n <= old(v)@.len(),
    ensures
        r@ == old(v)@.take(n as int),
        final(v)@ == old(v)@.skip(n as int),
{
    let mut rest = v.split_off(n);
    core::mem::swap(v, &mut rest);
    rest
}

/// Drops the first `n` bytes of `v`, or all of them when there are fewer.
fn drop_front(v: &mut Vec<u8>, n: usize)
    ensures
        final(v)@ == old(v)@.skip(if n < old(v)@.len() { n as int } else { old(v)@.len() as int }),
{
    let n = if n < v.len() {
        n
    } else {
        v.len()
    };
    let rest = v.split_off(n);
    *v = rest;
}

/// The server side of the handshake.
#[derive(Debug)]
pub struct RtmpServerHandshake {
    options: RtmpHandshakeOptions,
    phase: Phase,
    recv_buf: Vec<u8>,
    send_buf: Vec<u8>,
}

impl View for RtmpServerHandshake {
    type V = HandshakeState;

    closed spec fn view(&self) -> HandshakeState {
        HandshakeState { phase: self.phase, recv: self.recv_buf@, send: self.send_buf@ }
    }
}

impl RtmpServerHandshake {
    /// The internal invariant.
    pub closed spec fn wf(&self) -> bool {
        self.options.wf()
    }

    /// A server handshake waiting for C0.
    pub fn new() -> (r: Self)
        ensures
            r.wf(),
            r@ == (HandshakeState { phase: Phase::P0, recv: Seq::empty(), send: Seq::empty() }),
    {
        RtmpServerHandshake {
            options: RtmpHandshakeOptions::new(),
            phase: Phase::P0,
            recv_buf: Vec::new(),
            send_buf: Vec::new(),
        }
    }

    /// Appends received bytes and handles as much of the handshake as they allow.
    pub fn feed_recv_buf(&mut self, buf: &[u8]) -> (r: Result<(), Error>)
        requires
            old(self).wf(),
        ensures
            final(self).wf(),
            final(self)@ == after_feed(old(self)@, server_step(old(self)@.phase, old(self)@.recv + buf@)),
            r is Ok <==> server_step(old(self)@.phase, old(self)@.recv + buf@).ok,
            r matches Err(e) ==> e.kind == ErrorKind::InvalidData,
    {
        write_bytes(&mut self.recv_buf, buf);
        match self.phase {
            Phase::P0 => self.handle_phase_p0(),
            Phase::P1 => self.handle_phase_p1(),
            Phase::P2 => self.handle_phase_p2(),
            Phase::Complete => Ok(()),
        }
    }

    fn handle_phase_p0(&mut self) -> (r: Result<(), Error>)
        requires
            old(self).wf(),
            old(self).phase == Phase::P0,
        ensures
            final(self).wf(),
            final(self)@ == after_feed(old(self)@, server_p0(old(self)@.recv)),
            r is Ok <==> server_p0(old(self)@.recv).ok,
            r matches Err(e) ==> e.kind == ErrorKind::InvalidData,
    {
        if self.recv_buf.len() == 0 {
            assert(self.send_buf@ =~= self.send_buf@ + Seq::<u8>::empty());
            return Ok(());
        }
        let version = take_front(&mut self.recv_buf, 1);
        if version[0] != RTMP_VERSION {
            assert(self.send_buf@ =~= self.send_buf@ + Seq::<u8>::empty());
            return Err(Error::with_number(ErrorKind::InvalidData, "invalid RTMP version: expected 3, got ", version[0] as u64));
        }
        let ghost before = self.send_buf@;
        self.send_buf.push(RTMP_VERSION);
        assert(self.send_buf@ =~= before + seq![3u8]);
        self.phase = Phase::P1;
        let r = self.handle_phase_p1();
        assert(self.send_buf@ =~= before + (seq![3u8] + server_p1(old(self)@.recv.skip(1)).sent));
        r
    }

    fn handle_phase_p1(&mut self) -> (r: Result<(), Error>)
        requires
            old(self).wf(),
            old(self).phase == Phase::P1,
        ensures
            final(self).wf(),
            final(self)@ == after_feed(old(self)@, server_p1(old(self)@.recv)),
            r is Ok <==> server_p1(old(self)@.recv).ok,
            r matches Err(e) ==> e.kind == ErrorKind::InvalidData,
    {
        if self.recv_buf.len() < HANDSHAKE_PACKET_SIZE {
            assert(self.send_buf@ =~= self.send_buf@ + Seq::<u8>::empty());
            return Ok(());
        }
        let c1_packet = take_front(&mut self.recv_buf, HANDSHAKE_PACKET_SIZE);
        let ghost before = self.send_buf@;
        let s1_packet = self.options.phase1_packet();
        write_bytes(&mut self.send_buf, s1_packet.as_slice());
        write_bytes(&mut self.send_buf, c1_packet.as_slice());
        let ghost middle = self.send_buf@;
        assert(middle =~= before + (phase1_packet() + old(self)@.recv.take(1536)));
        self.phase = Phase::P2;
        let r = self.handle_phase_p2();
        assert(self.send_buf@ =~= before + (phase1_packet() + old(self)@.recv.take(1536)
            + server_p2(old(self)@.recv.skip(1536)).sent));
        r
    }

    fn handle_phase_p2(&mut self) -> (r: Result<(), Error>)
        requires
            old(self).wf(),
            old(self).phase == Phase::P2,
        ensures
            final(self).wf(),
            final(self)@ == after_feed(old(self)@, server_p2(old(self)@.recv)),
            r is Ok <==> server_p2(old(self)@.recv).ok,
            r matches Err(e) ==> e.kind == ErrorKind::InvalidData,
    {
        assert(self.send_buf@ =~= self.send_buf@ + Seq::<u8>::empty());
        if self.recv_buf.len() < HANDSHAKE_PACKET_SIZE {
            return Ok(());
        }
        let c2_packet = take_front(&mut self.recv_buf, HANDSHAKE_PACKET_SIZE);
        let s1_packet = self.options.phase1_packet();
        if !bytes_eq(s1_packet.as_slice(), c2_packet.as_slice()) {
            return Err(Error::invalid_data("C2 packet does not match S1 packet"));
        }
        self.phase = Phase::Complete;
        Ok(())
    }

    /// Takes the received bytes that the handshake did not use (those that follow it).
    pub fn take_recv_buf(&mut self) -> (r: Vec<u8>)
        requires
            old(self).wf(),
        ensures
            final(self).wf(),
            r@ == old(self)@.recv,
            final(self)@ == (HandshakeState { recv: Seq::empty(), ..old(self)@ }),
    {
        let mut out: Vec<u8> = Vec::new();
        core::mem::swap(&mut out, &mut self.recv_buf);
        out
    }

    /// The bytes waiting to be sent.
    pub fn send_buf(&self) -> (r: &[u8])
        ensures
            r@ == self@.send,
    {
        self.send_buf.as_slice()
    }

    /// Marks the first `n` bytes as sent (all of them, when there are fewer).
    pub fn advance_send_buf(&mut self, n: usize)
        requires
            old(self).wf(),
        ensures
            final(self).wf(),
            final(self)@ == (HandshakeState {
                send: old(self)@.send.skip(
                    if n < old(self)@.send.len() {
                        n as int
                    } else {
                        old(self)@.send.len() as int
                    },
                ),
                ..old(self)@
            }),
    {
        drop_front(&mut self.send_buf, n);
    }

    /// Whether all of the handshake has been received.
    pub fn is_recv_complete(&self) -> (r: bool)
        ensures
            r == (self@.phase == Phase::Complete),
    {
        self.phase == Phase::Complete
    }

    /// Whether all of the handshake has been received and sent.
    pub fn is_send_complete(&self) -> (r: bool)
        ensures
            r == (self@.phase == Phase::Complete && self@.send.len() == 0),
    {
        self.phase == Phase::Complete && self.send_buf.len() == 0
    }
}

/// The client side of the handshake.
#[derive(Debug)]
pub struct RtmpClientHandshake {
    options: RtmpHandshakeOptions,
    phase: Phase,
    recv_buf: Vec<u8>,
    send_buf: Vec<u8>,
}

impl View for RtmpClientHandshake {
    type V = HandshakeState;

    closed spec fn view(&self) -> HandshakeState {
        HandshakeState { phase: self.phase, recv: self.recv_buf@, send: self.send_buf@ }
    }
}

impl RtmpClientHandshake {
    /// The internal invariant.
    pub closed spec fn wf(&self) -> bool {
        self.options.wf()
    }

    /// A client handshake with C0 and C1 waiting to be sent.
    pub fn new() -> (r: Self)
        ensures
            r.wf(),
            r@ == (HandshakeState { phase: Phase::P0, recv: Seq::empty(), send: seq![3u8] + phase1_packet() }),
    {
        let options = RtmpHandshakeOptions::new();
        let mut send_buf: Vec<u8> = Vec::new();
        send_buf.push(RTMP_VERSION);
        let c1_packet = options.phase1_packet();
        write_bytes(&mut send_buf, c1_packet.as_slice());
        RtmpClientHandshake { options, phase: Phase::P0, recv_buf: Vec::new(), send_buf }
    }

    /// Appends received bytes and handles as much of the handshake as they allow.
    pub fn feed_recv_buf(&mut self, buf: &[u8]) -> (r: Result<(), Error>)
        requires
            old(self).wf(),
        ensures
            final(self).wf(),
            final(self)@ == after_feed(old(self)@, client_step(old(self)@.phase, old(self)@.recv + buf@)),
            r is Ok <==> client_step(old(self)@.phase, old(self)@.recv + buf@).ok,
            r matches Err(e) ==> e.kind == ErrorKind::InvalidData,
    {
        write_bytes(&mut self.recv_buf, buf);
        match self.phase {
            Phase::P0 => self.handle_phase_p0(),
            Phase::P1 => self.handle_phase_p1(),
            _ => {
                assert(self.send_buf@ =~= self.send_buf@ + Seq::<u8>::empty());
                Ok(())
            },
        }
    }

    fn handle_phase_p0(&mut self) -> (r: Result<(), Error>)
        requires
            old(self).wf(),
            old(self).phase == Phase::P0,
        ensures
            final(self).wf(),
            final(self)@ == after_feed(old(self)@, client_p0(old(self)@.recv)),
            r is Ok <==> client_p0(old(self)@.recv).ok,
            r matches Err(e) ==> e.kind == ErrorKind::InvalidData,
    {
        assert(self.send_buf@ =~= self.send_buf@ + Seq::<u8>::empty());
        if self.recv_buf.len() == 0 {
            return Ok(());
        }
        let version = take_front(&mut self.recv_buf, 1);
        if version[0] != RTMP_VERSION {
            return Err(Error::with_number(ErrorKind::InvalidData, "invalid RTMP version: expected 3, got ", version[0] as u64));
        }
        self.phase = Phase::P1;
        self.handle_phase_p1()
    }

    fn handle_phase_p1(&mut self) -> (r: Result<(), Error>)
        requires
            old(self).wf(),
            old(self).phase == Phase::P1,
        ensures
            final(self).wf(),
            final(self)@ == after_feed(old(self)@, client_p1(old(self)@.recv)),
            r is Ok <==> client_p1(old(self)@.recv).ok,
            r matches Err(e) ==> e.kind == ErrorKind::InvalidData,
    {
        assert(self.send_buf@ =~= self.send_buf@ + Seq::<u8>::empty());
        if self.recv_buf.len() < HANDSHAKE_PACKET_SIZE * 2 {
            return Ok(());
        }
        let s1_packet = take_front(&mut self.recv_buf, HANDSHAKE_PACKET_SIZE);
        let s2_packet = take_front(&mut self.recv_buf, HANDSHAKE_PACKET_SIZE);
        assert(s2_packet@ =~= old(self)@.recv.subrange(1536, 3072));
        assert(self.recv_buf@ =~= old(self)@.recv.skip(3072));
        let c1_packet = self.options.phase1_packet();
        if !bytes_eq(s2_packet.as_slice(), c1_packet.as_slice()) {
            return Err(Error::invalid_data("S2 packet does not match C1 packet"));
        }
        write_bytes(&mut self.send_buf, s1_packet.as_slice());
        self.phase = Phase::Complete;
        Ok(())
    }

    /// Takes the received bytes that the handshake did not use (those that follow it).
    pub fn take_recv_buf(&mut self) -> (r: Vec<u8>)
        requires
            old(self).wf(),
        ensures
            final(self).wf(),
            r@ == old(self)@.recv,
            final(self)@ == (HandshakeState { recv: Seq::empty(), ..old(self)@ }),
    {
        let mut out: Vec<u8> = Vec::new();
        core::mem::swap(&mut out, &mut self.recv_buf);
        out
    }

    /// The bytes waiting to be sent.
    pub fn send_buf(&self) -> (r: &[u8])
        ensures
            r@ == self@.send,
    {
        self.send_buf.as_slice()
    }

    /// Marks the first `n` bytes as sent (all of them, when there are fewer).
    pub fn advance_send_buf(&mut self, n: usize)
        requires
            old(self).wf(),
        ensures
            final(self).wf(),
            final(self)@ == (HandshakeState {
                send: old(self)@.send.skip(
                    if n < old(self)@.send.len() {
                        n as int
                    } else {
                        old(self)@.send.len() as int
                    },
                ),
                ..old(self)@
            }),
    {
        drop_front(&mut self.send_buf, n);
    }

    /// Whether all of the handshake has been received.
    pub fn is_recv_complete(&self) -> (r: bool)
        ensures
            r == (self@.phase == Phase::Complete),
    {
        self.phase == Phase::Complete
    }

    /// Whether all of the handshake has been received and sent.
    pub fn is_send_complete(&self) -> (r: bool)
        ensures
            r == (self@.phase == Phase::Complete && self@.send.len() == 0),
    {
        self.phase == Phase::Complete && self.send_buf.len() == 0
    }
}


/// The step that does `first` and then `second`.
pub open spec fn then_step(first: HandshakeStep, second: HandshakeStep) -> HandshakeStep {
    HandshakeStep { phase: second.phase, recv: second.recv, sent: first.sent + second.sent, ok: second.ok }
}

proof fn lemma_concat_take_skip(a: Seq<u8>, b: Seq<u8>, n: int)
    requires
        0 <= n <= a.len(),
    ensures
        (a + b).take(n) == a.take(n),
        (a + b).skip(n) == a.skip(n) + b,
{
    assert((a + b).take(n) =~= a.take(n));
    assert((a + b).skip(n) =~= a.skip(n) + b);
}

proof fn lemma_server_p2_split(a: Seq<u8>, b: Seq<u8>)
    requires
        server_p2(a).ok,
    ensures
        server_p2(a + b) == then_step(server_p2(a), server_step(server_p2(a).phase, server_p2(a).recv + b)),
{
    if a.len() >= 1536 {
        lemma_concat_take_skip(a, b, 1536);
    }
    assert(Seq::<u8>::empty() + Seq::<u8>::empty() =~= Seq::<u8>::empty());
}

proof fn lemma_server_p1_split(a: Seq<u8>, b: Seq<u8>)
    requires
        server_p1(a).ok,
    ensures
        server_p1(a + b) == then_step(server_p1(a), server_step(server_p1(a).phase, server_p1(a).recv + b)),
{
    if a.len() >= 1536 {
        lemma_concat_take_skip(a, b, 1536);
        lemma_server_p2_split(a.skip(1536), b);
        let pre = phase1_packet() + a.take(1536);
        let s = server_p2(a.skip(1536));
        let t = server_step(s.phase, s.recv + b);
        assert(pre + (s.sent + t.sent) =~= (pre + s.sent) + t.sent);
    } else {
        assert(Seq::<u8>::empty() + server_p1(a + b).sent =~= server_p1(a + b).sent);
    }
}

proof fn lemma_server_p0_split(a: Seq<u8>, b: Seq<u8>)
    requires
        server_p0(a).ok,
    ensures
        server_p0(a + b) == then_step(server_p0(a), server_step(server_p0(a).phase, server_p0(a).recv + b)),
{
    if a.len() > 0 {
        lemma_concat_take_skip(a, b, 1);
        assert((a + b)[0] == a[0]);
        lemma_server_p1_split(a.skip(1), b);
        let s = server_p1(a.skip(1));
        let t = server_step(s.phase, s.recv + b);
        assert(seq![3u8] + (s.sent + t.sent) =~= (seq![3u8] + s.sent) + t.sent);
    } else {
        assert(a + b =~= b);
        assert(Seq::<u8>::empty() + server_p0(b).sent =~= server_p0(b).sent);
    }
}

/// Received bytes may come in any pieces: feeding the server `a` and then `b` ends in
/// the same state, with the same bytes sent in the same order, as feeding it `a + b`
/// at once (when handling `a` raised no error).
pub proof fn lemma_server_feed_split(phase: Phase, a: Seq<u8>, b: Seq<u8>)
    requires
        server_step(phase, a).ok,
    ensures
        server_step(phase, a + b) == then_step(
            server_step(phase, a),
            server_step(server_step(phase, a).phase, server_step(phase, a).recv + b),
        ),
{
    match phase {
        Phase::P0 => lemma_server_p0_split(a, b),
        Phase::P1 => lemma_server_p1_split(a, b),
        Phase::P2 => lemma_server_p2_split(a, b),
        Phase::Complete => {
            assert(Seq::<u8>::empty() + Seq::<u8>::empty() =~= Seq::<u8>::empty());
        },
    }
}

proof fn lemma_client_p1_split(a: Seq<u8>, b: Seq<u8>)
    requires
        client_p1(a).ok,
    ensures
        client_p1(a + b) == then_step(client_p1(a), client_step(client_p1(a).phase, client_p1(a).recv + b)),
{
    if a.len() >= 3072 {
        lemma_concat_take_skip(a, b, 3072);
        lemma_concat_take_skip(a, b, 1536);
        assert((a + b).subrange(1536, 3072) =~= a.subrange(1536, 3072));
        assert(a.take(1536) + Seq::<u8>::empty() =~= a.take(1536));
    } else {
        assert(Seq::<u8>::empty() + client_p1(a + b).sent =~= client_p1(a + b).sent);
    }
}

proof fn lemma_client_p0_split(a: Seq<u8>, b: Seq<u8>)
    requires
        client_p0(a).ok,
    ensures
        client_p0(a + b) == then_step(client_p0(a), client_step(client_p0(a).phase, client_p0(a).recv + b)),
{
    if a.len() > 0 {
        lemma_concat_take_skip(a, b, 1);
        assert((a + b)[0] == a[0]);
        lemma_client_p1_split(a.skip(1), b);
    } else {
        assert(a + b =~= b);
        assert(Seq::<u8>::empty() + client_p0(b).sent =~= client_p0(b).sent);
    }
}

/// Received bytes may come in any pieces: feeding the client `a` and then `b` ends in
/// the same state, with the same bytes sent in the same order, as feeding it `a + b`
/// at once (when handling `a` raised no error).
pub proof fn lemma_client_feed_split(phase: Phase, a: Seq<u8>, b: Seq<u8>)
    requires
        client_step(phase, a).ok,
    ensures
        client_step(phase, a + b) == then_step(
            client_step(phase, a),
            client_step(client_step(phase, a).phase, client_step(phase, a).recv + b),
        ),
{
    match phase {
        Phase::P0 => lemma_client_p0_split(a, b),
        Phase::P1 => lemma_client_p1_split(a, b),
        _ => {
            assert(Seq::<u8>::empty() + Seq::<u8>::empty() =~= Seq::<u8>::empty());
        },
    }
}

/// A client and a server complete the handshake with each other: the server, fed what
/// a new client sends, answers S0, S1 and S2 and waits for C2; the client, fed that,
/// completes and answers C2 (the echo of S1); and the server, fed C2, completes.
/// Neither has received bytes left, and the server has nothing more to send.
pub proof fn lemma_handshake_completes()
    ensures
        server_step(Phase::P0, seq![3u8] + phase1_packet()) == (HandshakeStep {
            phase: Phase::P2,
            recv: Seq::empty(),
            sent: seq![3u8] + phase1_packet() + phase1_packet(),
            ok: true,
        }),
        client_step(Phase::P0, seq![3u8] + phase1_packet() + phase1_packet()) == (HandshakeStep {
            phase: Phase::Complete,
            recv: Seq::empty(),
            sent: phase1_packet(),
            ok: true,
        }),
        server_step(Phase::P2, phase1_packet()) == quiet(Phase::Complete, Seq::empty(), true),
{
    let p = phase1_packet();
    let c = seq![3u8] + p;
    assert(c.skip(1) =~= p);
    assert(p.take(1536) =~= p);
    assert(p.skip(1536) =~= Seq::<u8>::empty());
    assert(seq![3u8] + (p + p + Seq::<u8>::empty()) =~= seq![3u8] + p + p);
    let s = seq![3u8] + p + p;
    assert(s.skip(1) =~= p + p);
    assert((p + p).subrange(1536, 3072) =~= p);
    assert((p + p).take(1536) =~= p);
    assert((p + p).skip(3072) =~= Seq::<u8>::empty());
}


/// The server's answer to any client: C0 must be the version byte 3, or the handshake
/// fails; once C0 and the 1536 bytes of C1 are in, the server sends S0 (3), its S1 and,
/// as S2, C1 echoed back, and waits for C2.
pub proof fn lemma_server_answers_c1(v: u8, c1: Seq<u8>)
    requires
        c1.len() == 1536,
    ensures
        v != 3 ==> !server_step(Phase::P0, seq![v] + c1).ok,
        v == 3 ==> server_step(Phase::P0, seq![v] + c1) == (HandshakeStep {
            phase: Phase::P2,
            recv: Seq::empty(),
            sent: seq![3u8] + phase1_packet() + c1,
            ok: true,
        }),
{
    let b = seq![v] + c1;
    assert(b.skip(1) =~= c1);
    assert(c1.take(1536) =~= c1);
    assert(c1.skip(1536) =~= Seq::<u8>::empty());
    assert(seq![3u8] + (phase1_packet() + c1 + Seq::<u8>::empty()) =~= seq![3u8] + phase1_packet() + c1);
}

/// The client's answer to any server: S0 must be the version byte 3, or the handshake
/// fails; once S0, S1 and S2 are in and S2 echoes the client's C1, the client completes
/// and sends S1 echoed back as C2.
pub proof fn lemma_client_answers_s1(v: u8, s1: Seq<u8>)
    requires
        s1.len() == 1536,
    ensures
        v != 3 ==> !client_step(Phase::P0, seq![v] + s1 + phase1_packet()).ok,
        v == 3 ==> client_step(Phase::P0, seq![v] + s1 + phase1_packet()) == (HandshakeStep {
            phase: Phase::Complete,
            recv: Seq::empty(),
            sent: s1,
            ok: true,
        }),
{
    let b = seq![v] + s1 + phase1_packet();
    let r = s1 + phase1_packet();
    assert(b.skip(1) =~= r);
    assert(r.subrange(1536, 3072) =~= phase1_packet());
    assert(r.take(1536) =~= s1);
    assert(r.skip(3072) =~= Seq::<u8>::empty());
}

/// The pieces `ps` one after the other.
pub open spec fn joined(ps: Seq<Seq<u8>>) -> Seq<u8>
    decreases ps.len(),
{
    if ps.len() == 0 {
        Seq::empty()
    } else {
        ps[0] + joined(ps.drop_first())
    }
}

/// The server handshake after being fed the pieces `ps` one after the other.
pub open spec fn server_feed_all(s: HandshakeState, ps: Seq<Seq<u8>>) -> HandshakeState
    decreases ps.len(),
{
    if ps.len() == 0 {
        s
    } else {
        server_feed_all(after_feed(s, server_step(s.phase, s.recv + ps[0])), ps.drop_first())
    }
}

/// Whether feeding the server the pieces `ps` one after the other raises no error.
pub open spec fn server_feeds_ok(s: HandshakeState, ps: Seq<Seq<u8>>) -> bool
    decreases ps.len(),
{
    ps.len() == 0 || (server_step(s.phase, s.recv + ps[0]).ok && server_feeds_ok(
        after_feed(s, server_step(s.phase, s.recv + ps[0])),
        ps.drop_first(),
    ))
}

/// The client handshake after being fed the pieces `ps` one after the other.
pub open spec fn client_feed_all(s: HandshakeState, ps: Seq<Seq<u8>>) -> HandshakeState
    decreases ps.len(),
{
    if ps.len() == 0 {
        s
    } else {
        client_feed_all(after_feed(s, client_step(s.phase, s.recv + ps[0])), ps.drop_first())
    }
}

/// Whether feeding the client the pieces `ps` one after the other raises no error.
pub open spec fn client_feeds_ok(s: HandshakeState, ps: Seq<Seq<u8>>) -> bool
    decreases ps.len(),
{
    ps.len() == 0 || (client_step(s.phase, s.recv + ps[0]).ok && client_feeds_ok(
        after_feed(s, client_step(s.phase, s.recv + ps[0])),
        ps.drop_first(),
    ))
}

/// Feeding the server any pieces without error ends where feeding it all of them at once
/// does.
pub proof fn lemma_server_feed_all(s: HandshakeState, ps: Seq<Seq<u8>>)
    requires
        ps.len() >= 1,
        server_feeds_ok(s, ps),
    ensures
        server_feed_all(s, ps) == after_feed(s, server_step(s.phase, s.recv + joined(ps))),
    decreases ps.len(),
{
    let a = s.recv + ps[0];
    let st = server_step(s.phase, a);
    let s1 = after_feed(s, st);
    if ps.len() == 1 {
        assert(ps.drop_first() =~= Seq::<Seq<u8>>::empty());
        assert(server_feed_all(s1, ps.drop_first()) == s1);
        assert(joined(ps.drop_first()) =~= Seq::<u8>::empty());
        assert(joined(ps) =~= ps[0]);
        assert(s.recv + joined(ps) =~= a);
    } else {
        lemma_server_feed_all(s1, ps.drop_first());
        lemma_server_feed_split(s.phase, a, joined(ps.drop_first()));
        assert(s.recv + joined(ps) =~= a + joined(ps.drop_first()));
        let t = server_step(st.phase, st.recv + joined(ps.drop_first()));
        assert(s.send + (st.sent + t.sent) =~= (s.send + st.sent) + t.sent);
        assert(after_feed(s1, t) == after_feed(s, then_step(st, t)));
    }
}

/// Feeding the client any pieces without error ends where feeding it all of them at once
/// does.
pub proof fn lemma_client_feed_all(s: HandshakeState, ps: Seq<Seq<u8>>)
    requires
        ps.len() >= 1,
        client_feeds_ok(s, ps),
    ensures
        client_feed_all(s, ps) == after_feed(s, client_step(s.phase, s.recv + joined(ps))),
    decreases ps.len(),
{
    let a = s.recv + ps[0];
    let st = client_step(s.phase, a);
    let s1 = after_feed(s, st);
    if ps.len() == 1 {
        assert(ps.drop_first() =~= Seq::<Seq<u8>>::empty());
        assert(client_feed_all(s1, ps.drop_first()) == s1);
        assert(joined(ps.drop_first()) =~= Seq::<u8>::empty());
        assert(joined(ps) =~= ps[0]);
        assert(s.recv + joined(ps) =~= a);
    } else {
        lemma_client_feed_all(s1, ps.drop_first());
        lemma_client_feed_split(s.phase, a, joined(ps.drop_first()));
        assert(s.recv + joined(ps) =~= a + joined(ps.drop_first()));
        let t = client_step(st.phase, st.recv + joined(ps.drop_first()));
        assert(s.send + (st.sent + t.sent) =~= (s.send + st.sent) + t.sent);
        assert(after_feed(s1, t) == after_feed(s, then_step(st, t)));
    }
}

/// A server handshake that started anew and completed on pieces fed without error holds
/// exactly the bytes that followed C0, C1 and C2, whatever the pieces were: those are
/// what it hands on.
pub proof fn lemma_server_handover(ps: Seq<Seq<u8>>)
    requires
        server_feeds_ok(HandshakeState { phase: Phase::P0, recv: Seq::empty(), send: Seq::empty() }, ps),
        server_feed_all(HandshakeState { phase: Phase::P0, recv: Seq::empty(), send: Seq::empty() }, ps).phase
            == Phase::Complete,
    ensures
        joined(ps).len() >= 3073,
        server_feed_all(HandshakeState { phase: Phase::P0, recv: Seq::empty(), send: Seq::empty() }, ps).recv
            == joined(ps).skip(3073),
{
    let s = HandshakeState { phase: Phase::P0, recv: Seq::empty(), send: Seq::empty() };
    assert(ps.len() >= 1);
    lemma_server_feed_all(s, ps);
    let d = joined(ps);
    assert(Seq::<u8>::empty() + d =~= d);
    assert(d.skip(1).skip(1536) =~= d.skip(1537));
    assert(d.skip(1537).skip(1536) =~= d.skip(3073));
}

/// A client handshake that started anew and completed on pieces fed without error holds
/// exactly the bytes that followed S0, S1 and S2, whatever the pieces were: those are
/// what it hands on.
pub proof fn lemma_client_handover(send: Seq<u8>, ps: Seq<Seq<u8>>)
    requires
        client_feeds_ok(HandshakeState { phase: Phase::P0, recv: Seq::empty(), send }, ps),
        client_feed_all(HandshakeState { phase: Phase::P0, recv: Seq::empty(), send }, ps).phase
            == Phase::Complete,
    ensures
        joined(ps).len() >= 3073,
        client_feed_all(HandshakeState { phase: Phase::P0, recv: Seq::empty(), send }, ps).recv
            == joined(ps).skip(3073),
{
    let s = HandshakeState { phase: Phase::P0, recv: Seq::empty(), send };
    assert(ps.len() >= 1);
    lemma_client_feed_all(s, ps);
    let d = joined(ps);
    assert(Seq::<u8>::empty() + d =~= d);
    assert(d.skip(1).skip(3072) =~= d.skip(3073));
}

} // verus!
