use std::collections::VecDeque;

use vstd::prelude::*;

use crate::bytes::Buf;
use crate::error::{Error, ErrorKind};
use crate::media::{AudioFrame, VideoFrame};
use crate::rtmp_chunk::{RtmpChunkSize, RtmpChunkStreamId};
use crate::rtmp_chunk_decoder::DecoderChunkStreamModel;
use crate::rtmp_chunk_encoder::{header_update, message_chunks, EncoderChunkStream};
use crate::amf::{amf_encodable, AmfModel, AmfVersion};
use crate::rtmp_chunk_encoder::resolve_fields;
use crate::rtmp_command::{is_command_message, RtmpCommand, RtmpCommandModel};
use crate::rtmp_message::{
    amf_values_view, RtmpMessage, RtmpMessageHeader, RtmpMessageStreamId, RtmpMessageType,
    SetPeerBandwidthLimitType,
};
use crate::rtmp_timestamp::RtmpTimestamp;
use crate::rtmp_message_decoder::{decode_step, result_kind, DecoderState, RtmpMessageDecoder};
use crate::rtmp_message_encoder::{
    command_bytes, message_encodable, message_payload_bytes, message_stream_state, RtmpMessageEncoder,
};
use crate::rtmp_user_control_event::RtmpUserControlEvent;

verus! {

/// Options of a connection.
#[derive(Debug, Clone, PartialEq, Eq)]
pub struct RtmpConnectionOptions {
    /// The chunk size this side sends with (default: 4096).
    pub chunk_size: RtmpChunkSize,
    /// The acknowledgement window this side asks for (default: 5,000,000 bytes).
    pub ack_window_size: u32,
}

impl Default for RtmpConnectionOptions {
    fn default() -> (r: Self)
        ensures
            r.chunk_size.value() == 4096,
            r.ack_window_size == 5_000_000,
    {
        RtmpConnectionOptions { chunk_size: RtmpChunkSize::saturating_new(4096), ack_window_size: 5_000_000 }
    }
}

/// What happens on a connection that its user should know of.
#[derive(Debug, Clone, PartialEq, Eq)]
pub enum RtmpConnectionEvent {
    /// The client asks to publish a stream.
    PublishRequested {
        /// The application name.
        app: String,
        /// The connection URL.
        tc_url: String,
        /// The stream name.
        stream_name: String,
    },
    /// The client asks to play a stream.
    PlayRequested {
        /// The application name.
        app: String,
        /// The connection URL.
        tc_url: String,
        /// The stream name.
        stream_name: String,
    },
    /// An audio frame was received.
    AudioReceived(AudioFrame),
    /// A video frame was received.
    VideoReceived(VideoFrame),
    /// The connection state changed.
    StateChanged(RtmpConnectionState),
    /// The peer ended the connection.
    DisconnectedByPeer {
        /// Why.
        reason: String,
    },
    /// A command that needs no handling was ignored (for debugging).
    CommandIgnored {
        /// The command name.
        name: String,
        /// A description of the command.
        detail: String,
    },
    /// A message that needs no handling was ignored (for debugging).
    MessageIgnored {
        /// The message type name.
        name: String,
        /// A description of the message.
        detail: String,
    },
    /// A user control event that needs no handling was ignored (for debugging).
    UserControlEventIgnored {
        /// The event name.
        name: String,
        /// A description of the event.
        detail: String,
    },
}

/// The text that `Debug` gives for a command of the given value.
pub uninterp spec fn command_debug_text(c: RtmpCommandModel) -> Seq<char>;

/// The `Debug` text of a command.
///
/// Calls `format!` with `{:?}`; the text is named after the command's value and not
/// stated further.
#[verifier::external_body]
fn command_debug(command: &RtmpCommand) -> (r: String)
    ensures
        r@ == command_debug_text(command@),
{
    format!("{command:?}")
}

/// The text that `Debug` gives for a message.
pub uninterp spec fn message_debug_text(m: RtmpMessage) -> Seq<char>;

/// The `Debug` text of a message.
///
/// Calls `format!` with `{:?}`; the text is named after the message and not stated
/// further.
#[verifier::external_body]
fn message_debug(message: &RtmpMessage) -> (r: String)
    ensures
        r@ == message_debug_text(*message),
{
    format!("{message:?}")
}

/// The text that `Debug` gives for a user control event.
pub uninterp spec fn user_control_event_debug_text(e: RtmpUserControlEvent) -> Seq<char>;

/// The `Debug` text of a user control event.
///
/// Calls `format!` with `{:?}`; the text is named after the event and not stated further.
#[verifier::external_body]
fn user_control_event_debug(event: &RtmpUserControlEvent) -> (r: String)
    ensures
        r@ == user_control_event_debug_text(*event),
{
    format!("{event:?}")
}

impl RtmpConnectionEvent {
    /// The event that a command was ignored.
    pub(crate) fn command_ignored(command: &RtmpCommand) -> (r: Self)
        ensures
            r matches RtmpConnectionEvent::CommandIgnored { name, detail } && name@ == crate::rtmp_command::command_name(
                command@,
            ) && detail@ == command_debug_text(command@),
    {
        RtmpConnectionEvent::CommandIgnored { name: command.name().to_owned(), detail: command_debug(command) }
    }

    /// The event that a message was ignored.
    pub(crate) fn message_ignored(message: &RtmpMessage) -> (r: Self)
        ensures
            r matches RtmpConnectionEvent::MessageIgnored { name, detail } && name@
                == message.spec_message_type().spec_debug_name() && detail@ == message_debug_text(
                *message,
            ),
    {
        RtmpConnectionEvent::MessageIgnored {
            name: message.message_type().debug_name().to_owned(),
            detail: message_debug(message),
        }
    }

    /// The event that a user control event was ignored.
    pub(crate) fn user_control_event_ignored(event: &RtmpUserControlEvent) -> (r: Self)
        ensures
            r matches RtmpConnectionEvent::UserControlEventIgnored { name, detail } && name@
                == event.spec_name() && detail@ == user_control_event_debug_text(*event),
    {
        RtmpConnectionEvent::UserControlEventIgnored {
            name: event.name().to_owned(),
            detail: user_control_event_debug(event),
        }
    }
}

/// The state of a connection.
#[derive(Debug, Default, Clone, Copy, PartialEq, Eq, Structural)]
pub enum RtmpConnectionState {
    /// Handshaking.
    #[default]
    Handshaking,
    /// Connecting.
    Connecting,
    /// Connected.
    Connected,
    /// The media stream was created.
    MediaStreamCreated,
    /// A publish request waits to be accepted (then `Publishing`) or rejected.
    PublishPending,
    /// Publishing.
    Publishing,
    /// A play request waits to be accepted (then `Playing`) or rejected.
    PlayPending,
    /// Playing.
    Playing,
    /// Disconnecting: the user should close the transport.
    Disconnecting,
}

impl RtmpConnectionState {
    /// The state's name, in capitals.
    pub open spec fn spec_text(self) -> Seq<char> {
        match self {
            RtmpConnectionState::Handshaking => "HANDSHAKING"@,
            RtmpConnectionState::Connecting => "CONNECTING"@,
            RtmpConnectionState::Connected => "CONNECTED"@,
            RtmpConnectionState::MediaStreamCreated => "MEDIA_STREAM_CREATED"@,
            RtmpConnectionState::PublishPending => "PUBLISH_PENDING"@,
            RtmpConnectionState::Publishing => "PUBLISHING"@,
            RtmpConnectionState::PlayPending => "PLAY_PENDING"@,
            RtmpConnectionState::Playing => "PLAYING"@,
            RtmpConnectionState::Disconnecting => "DISCONNECTING"@,
        }
    }

    /// The state's name, in capitals.
    pub fn to_string(&self) -> (r: String)
        ensures
            r@ == self.spec_text(),
    {
        let s = match self {
            RtmpConnectionState::Handshaking => "HANDSHAKING",
            RtmpConnectionState::Connecting => "CONNECTING",
            RtmpConnectionState::Connected => "CONNECTED",
            RtmpConnectionState::MediaStreamCreated => "MEDIA_STREAM_CREATED",
            RtmpConnectionState::PublishPending => "PUBLISH_PENDING",
            RtmpConnectionState::Publishing => "PUBLISHING",
            RtmpConnectionState::PlayPending => "PLAY_PENDING",
            RtmpConnectionState::Playing => "PLAYING",
            RtmpConnectionState::Disconnecting => "DISCONNECTING",
        };
        s.to_owned()
    }

    /// Succeeds when the state is `expected`; an invalid-state error otherwise.
    pub(crate) fn expect(self, expected: Self) -> (r: Result<(), Error>)
        ensures
            r is Ok <==> self == expected,
            r matches Err(e) ==> e.kind == ErrorKind::InvalidState,
    {
        if self == expected {
            Ok(())
        } else {
            Err(Error::invalid_state("unexpected connection state"))
        }
    }
}

/// `a + n`, wrapped to 32 bits.
pub open spec fn wrap_add32(a: u32, n: nat) -> u32 {
    ((a + n) % 0x1_0000_0000) as u32
}

/// `a - b`, wrapped to 32 bits.
pub open spec fn wrap_sub32(a: u32, b: u32) -> u32 {
    if a >= b {
        (a - b) as u32
    } else {
        (a + 0x1_0000_0000 - b) as u32
    }
}

/// `a + n` wrapped to 32 bits.
fn wrapping_add32(a: u32, n: usize) -> (r: u32)
    ensures
        r == wrap_add32(a, n as nat),
{
    let s: u128 = a as u128 + n as u128;
    (s % 0x1_0000_0000) as u32
}

/// `a - b` wrapped to 32 bits.
fn wrapping_sub32(a: u32, b: u32) -> (r: u32)
    ensures
        r == wrap_sub32(a, b),
{
    if a >= b {
        a - b
    } else {
        (a as u64 + 0x1_0000_0000 - b as u64) as u32
    }
}

/// The sending side of a channel: the bytes not yet sent, and the encoder's chunk size
/// and chunk stream states.
pub struct OutState {
    pub bytes: Seq<u8>,
    pub chunk_size: nat,
    pub streams: Map<u32, EncoderChunkStream>,
}

/// The sending side after `m` is queued: its chunks follow the unsent bytes, on the chunk
/// stream of its message stream.
pub open spec fn send_message(o: OutState, m: RtmpMessage) -> OutState {
    let id = RtmpChunkStreamId::spec_from_message_stream_id(m.spec_header().stream_id);
    let s = message_stream_state(o.streams.get(id.value()), id, m);
    OutState {
        bytes: o.bytes + message_chunks(s, message_payload_bytes(m), o.chunk_size),
        chunk_size: match m {
            RtmpMessage::SetChunkSize { size, .. } => size.value() as nat,
            _ => o.chunk_size,
        },
        streams: o.streams.insert(id.value(), header_update(s.format, s)),
    }
}

/// The `i`-th step of a decoding path: state `i` decodes message `i` and gives state
/// `i + 1`.
pub open spec fn path_step(states: Seq<DecoderState>, msgs: Seq<RtmpMessage>, i: int) -> bool {
    decode_step(states[i], states[i + 1], Ok(Some(msgs[i])))
}

/// Decoding from `states[0]` gives the messages `msgs`, one after the other, passing
/// through the other states.
pub open spec fn decode_path(states: Seq<DecoderState>, msgs: Seq<RtmpMessage>) -> bool {
    &&& states.len() == msgs.len() + 1
    &&& forall|i: int| 0 <= i < msgs.len() ==> #[trigger] path_step(states, msgs, i)
}

/// Feeding the received bytes `buf` to a channel in state `o` gives state `f` and result
/// `r`: the bytes are counted (wrapping); every message they complete is decoded and
/// queued, through a path of decoder states, until the bytes run out (then `r` says
/// whether an acknowledgement is due: more than half the peer's window received since
/// the last one, with the count to acknowledge) or an error stops decoding.
pub open spec fn channel_fed(o: ChannelModel, f: ChannelModel, buf: Seq<u8>, r: Result<Option<u32>, ErrorKind>) -> bool {
    let fed = DecoderState { pending: o.recv.pending + buf, ..o.recv };
    let received = wrap_add32(o.total_bytes_received, buf.len());
    &&& f.out == o.out
    &&& f.peer_ack_window_size == o.peer_ack_window_size
    &&& f.local_ack_window_size == o.local_ack_window_size
    &&& f.total_bytes_sent == o.total_bytes_sent
    &&& f.last_ack_received == o.last_ack_received
    &&& f.total_bytes_received == received
    &&& o.received.len() <= f.received.len()
    &&& f.received.take(o.received.len() as int) == o.received
    &&& exists|states: Seq<DecoderState>|
        #[trigger] decode_path(states, f.received.skip(o.received.len() as int)) && states[0] == fed
            && decode_step(
            states.last(),
            f.recv,
            match r {
                Ok(_) => Ok(None),
                Err(e) => Err(e),
            },
        )
    &&& match r {
        Err(_) => f.last_ack_sent == o.last_ack_sent,
        Ok(ack) => if wrap_sub32(received, o.last_ack_sent) > o.peer_ack_window_size / 2 {
            ack == Some(received) && f.last_ack_sent == received
        } else {
            ack is None && f.last_ack_sent == o.last_ack_sent
        },
    }
}

/// The state of a message channel.
pub struct ChannelModel {
    /// The decoder's state.
    pub recv: DecoderState,
    /// Messages decoded and not yet taken.
    pub received: Seq<RtmpMessage>,
    /// The sending side.
    pub out: OutState,
    /// How many bytes the peer may send before expecting an acknowledgement.
    pub peer_ack_window_size: u32,
    /// Bytes received so far (wrapping).
    pub total_bytes_received: u32,
    /// The byte count last acknowledged to the peer.
    pub last_ack_sent: u32,
    /// How many bytes this side may send before expecting an acknowledgement.
    pub local_ack_window_size: u32,
    /// Bytes sent so far (wrapping).
    pub total_bytes_sent: u32,
    /// The byte count the peer last acknowledged.
    pub last_ack_received: u32,
}

/// Turns received bytes into messages and messages into bytes to send, and keeps the
/// acknowledgement counts.
#[derive(Debug)]
pub struct RtmpMessageChannel {
    decoder: RtmpMessageDecoder,
    encoder: RtmpMessageEncoder,
    decoded_messages: VecDeque<RtmpMessage>,
    send_buf: Buf,
    peer_ack_window_size: u32,
    total_bytes_received: u32,
    last_ack_sent: u32,
    local_ack_window_size: u32,
    total_bytes_sent: u32,
    last_ack_received: u32,
}

impl View for RtmpMessageChannel {
    type V = ChannelModel;

    closed spec fn view(&self) -> ChannelModel {
        ChannelModel {
            recv: self.decoder.state(),
            received: self.decoded_messages@,
            out: OutState {
                bytes: self.send_buf@,
                chunk_size: self.encoder.chunk_size(),
                streams: self.encoder.streams(),
            },
            peer_ack_window_size: self.peer_ack_window_size,
            total_bytes_received: self.total_bytes_received,
            last_ack_sent: self.last_ack_sent,
            local_ack_window_size: self.local_ack_window_size,
            total_bytes_sent: self.total_bytes_sent,
            last_ack_received: self.last_ack_received,
        }
    }
}

impl Default for RtmpMessageChannel {
    fn default() -> (r: Self)
        ensures
            r.wf(),
            r@.recv == (DecoderState {
                streams: Map::<u32, DecoderChunkStreamModel>::empty(),
                chunk_size: crate::rtmp_chunk::CHUNK_SIZE_DEFAULT as nat,
                pending: Seq::empty(),
            }),
            r@.received == Seq::<RtmpMessage>::empty(),
            r@.out == (OutState {
                bytes: Seq::empty(),
                chunk_size: crate::rtmp_chunk::CHUNK_SIZE_DEFAULT as nat,
                streams: Map::<u32, EncoderChunkStream>::empty(),
            }),
            r@.peer_ack_window_size == 0,
            r@.total_bytes_received == 0,
            r@.last_ack_sent == 0,
            r@.local_ack_window_size == 0,
            r@.total_bytes_sent == 0,
            r@.last_ack_received == 0,
    {
        RtmpMessageChannel {
            decoder: RtmpMessageDecoder::new(),
            encoder: RtmpMessageEncoder::new(),
            decoded_messages: VecDeque::new(),
            send_buf: Buf::new(),
            peer_ack_window_size: 0,
            total_bytes_received: 0,
            last_ack_sent: 0,
            local_ack_window_size: 0,
            total_bytes_sent: 0,
            last_ack_received: 0,
        }
    }
}

impl RtmpMessageChannel {
    /// The internal invariant.
    pub closed spec fn wf(&self) -> bool {
        self.decoder.wf() && self.send_buf.wf()
    }

    /// Adds received bytes and decodes every message they complete; says when an
    /// acknowledgement is due (more than half the peer's window received since the last
    /// one), with the byte count to acknowledge.
    pub fn feed_recv_buf(&mut self, buf: &[u8]) -> (r: Result<Option<u32>, Error>)
        requires
            old(self).wf(),
        ensures
            final(self).wf(),
            channel_fed(old(self)@, final(self)@, buf@, result_kind(r)),
    {
        let ghost o = self@;
        self.decoder.feed_buf(buf);
        self.total_bytes_received = wrapping_add32(self.total_bytes_received, buf.len());
        let ghost fed = self.decoder.state();
        let ghost mut states: Seq<DecoderState> = seq![fed];
        let ghost n0 = o.received.len() as int;
        assert(self.decoded_messages@.skip(n0) =~= Seq::<RtmpMessage>::empty());
        loop
            invariant
                self.wf(),
                o == old(self)@,
                self@.out == o.out,
                self@.peer_ack_window_size == o.peer_ack_window_size,
                self@.local_ack_window_size == o.local_ack_window_size,
                self@.total_bytes_sent == o.total_bytes_sent,
                self@.last_ack_received == o.last_ack_received,
                self@.last_ack_sent == o.last_ack_sent,
                self@.total_bytes_received == wrap_add32(o.total_bytes_received, buf@.len()),
                n0 == o.received.len(),
                fed == (DecoderState { pending: o.recv.pending + buf@, ..o.recv }),
                n0 <= self@.received.len(),
                self@.received.take(n0) == o.received,
                decode_path(states, self@.received.skip(n0)),
                states[0] == fed,
                states.last() == self@.recv,
            decreases self@.recv.pending.len(),
        {
            let ghost before = self@;
            let ghost msgs = before.received.skip(n0);
            let r = self.decoder.decode();
            match r {
                Ok(Some(message)) => {
                    proof {
                        lemma_decode_step_progress(before.recv, self.decoder.state(), Some(message));
                    }
                    self.decoded_messages.push_back(message);
                    proof {
                        let new_msgs = self@.received.skip(n0);
                        assert(new_msgs =~= msgs.push(message));
                        let new_states = states.push(self@.recv);
                        assert forall|i: int| 0 <= i < new_msgs.len() implies #[trigger] path_step(
                            new_states,
                            new_msgs,
                            i,
                        ) by {
                            if i < msgs.len() {
                                assert(path_step(states, msgs, i));
                            }
                        }
                        states = new_states;
                        assert(self@.received.take(n0) =~= o.received);
                    }
                },
                Ok(None) => {
                    assert(decode_path(states, self@.received.skip(n0)) && states[0] == fed && decode_step(
                        states.last(),
                        self@.recv,
                        Ok(None),
                    ));
                    return Ok(self.ack_due());
                },
                Err(e) => {
                    assert(decode_path(states, self@.received.skip(n0)) && states[0] == fed && decode_step(
                        states.last(),
                        self@.recv,
                        Err(e.kind),
                    ));
                    return Err(e);
                },
            }
        }
    }

    /// Whether an acknowledgement is due, and if so, records it as sent.
    fn ack_due(&mut self) -> (r: Option<u32>)
        ensures
            final(self).wf() == old(self).wf(),
            ({
                let o = old(self)@;
                if wrap_sub32(o.total_bytes_received, o.last_ack_sent) > o.peer_ack_window_size / 2 {
                    r == Some(o.total_bytes_received) && final(self)@ == (ChannelModel {
                        last_ack_sent: o.total_bytes_received,
                        ..o
                    })
                } else {
                    r is None && final(self)@ == o
                }
            }),
    {
        let unacked_bytes = wrapping_sub32(self.total_bytes_received, self.last_ack_sent);
        if unacked_bytes > self.peer_ack_window_size / 2 {
            self.last_ack_sent = self.total_bytes_received;
            Some(self.total_bytes_received)
        } else {
            None
        }
    }

    /// The bytes waiting to be sent.
    pub fn send_buf(&self) -> (r: &[u8])
        requires
            self.wf(),
        ensures
            r@ == self@.out.bytes,
    {
        self.send_buf.get()
    }

    /// Marks the first `n` bytes as sent; says whether the peer's acknowledgements keep
    /// up (no more than twice this side's window sent since the last one).
    pub fn advance_send_buf(&mut self, n: usize) -> (r: bool)
        requires
            old(self).wf(),
            n <= old(self)@.out.bytes.len(),
        ensures
            final(self).wf(),
            final(self)@ == channel_advanced(old(self)@, n as nat),
            r == acks_keep_up(final(self)@),
    {
        self.total_bytes_sent = wrapping_add32(self.total_bytes_sent, n);
        self.send_buf.advance(n);
        let unacked_bytes = wrapping_sub32(self.total_bytes_sent, self.last_ack_received);
        let limit: u64 = self.local_ack_window_size as u64 * 2;
        (unacked_bytes as u64) <= limit
    }

    /// Takes the first decoded message, if any.
    pub fn next_recv_message(&mut self) -> (r: Option<RtmpMessage>)
        requires
            old(self).wf(),
        ensures
            final(self).wf(),
            ({
                let o = old(self)@;
                if o.received.len() == 0 {
                    r is None && final(self)@ == o
                } else {
                    r == Some(o.received[0]) && final(self)@ == (ChannelModel {
                        received: o.received.drop_first(),
                        ..o
                    })
                }
            }),
    {
        let r = self.decoded_messages.pop_front();
        proof {
            if old(self)@.received.len() > 0 {
                assert(self@.received =~= old(self)@.received.drop_first());
            }
        }
        r
    }

    /// Queues a message for sending, on the chunk stream of its message stream.
    pub fn feed_send_message(&mut self, message: RtmpMessage)
        requires
            old(self).wf(),
            message_encodable(message),
        ensures
            final(self).wf(),
            final(self)@ == (ChannelModel { out: send_message(old(self)@.out, message), ..old(self)@ }),
    {
        let chunk_stream_id = RtmpChunkStreamId::from_message_stream_id(message.header().stream_id);
        let ghost before = self.send_buf;
        proof {
            before.lemma_view();
        }
        let ghost old_enc = self.encoder;
        let bytes = self.send_buf.inner_mut();
        self.encoder.encode(bytes, chunk_stream_id, message);
        proof {
            self.send_buf.lemma_view();
            let id = RtmpChunkStreamId::spec_from_message_stream_id(message.spec_header().stream_id);
            let st = message_stream_state(old_enc.streams().get(id.value()), id, message);
            assert(self.send_buf@ =~= before@ + message_chunks(st, message_payload_bytes(message), old_enc.chunk_size()));
        }
    }

    /// Sets how many bytes this side may send before expecting an acknowledgement.
    pub fn set_local_ack_window_size(&mut self, size: u32)
        ensures
            final(self).wf() == old(self).wf(),
            final(self)@ == (ChannelModel { local_ack_window_size: size, ..old(self)@ }),
    {
        self.local_ack_window_size = size;
    }

    /// Sets how many bytes the peer may send before expecting an acknowledgement.
    pub fn set_peer_ack_window_size(&mut self, size: u32)
        ensures
            final(self).wf() == old(self).wf(),
            final(self)@ == (ChannelModel { peer_ack_window_size: size, ..old(self)@ }),
    {
        self.peer_ack_window_size = size;
    }

    /// Records an acknowledgement from the peer.
    pub fn notify_ack_received(&mut self, acked_bytes: u32)
        ensures
            final(self).wf() == old(self).wf(),
            final(self)@ == (ChannelModel { last_ack_received: acked_bytes, ..old(self)@ }),
    {
        self.last_ack_received = acked_bytes;
    }
}

/// A decoding step that yields a message consumes bytes.
proof fn lemma_decode_step_progress(s: DecoderState, t: DecoderState, m: Option<RtmpMessage>)
    requires
        decode_step(s, t, Ok(m)),
        m is Some,
    ensures
        t.pending.len() < s.pending.len(),
{
    crate::rtmp_message_decoder::lemma_decode_until_message_progress(s.streams, s.chunk_size, s.pending);
}


/// The sending side after an AMF0 command message with the given header and parts is
/// queued.
pub open spec fn send_command(
    o: OutState,
    header: RtmpMessageHeader,
    parts: (Seq<char>, i64, AmfModel, Seq<AmfModel>),
) -> OutState {
    let id = RtmpChunkStreamId::spec_from_message_stream_id(header.stream_id);
    let payload = command_bytes(AmfVersion::Amf0, parts.0, parts.1, parts.2, parts.3);
    let s = resolve_fields(
        o.streams.get(id.value()),
        id,
        header.stream_id,
        RtmpMessageType::CommandAmf0,
        header.timestamp,
        payload.len(),
    );
    OutState {
        bytes: o.bytes + message_chunks(s, payload, o.chunk_size),
        chunk_size: o.chunk_size,
        streams: o.streams.insert(id.value(), header_update(s.format, s)),
    }
}

/// Queuing a command message depends only on its header and parts.
pub proof fn lemma_send_command(
    o: OutState,
    m: RtmpMessage,
    header: RtmpMessageHeader,
    parts: (Seq<char>, i64, AmfModel, Seq<AmfModel>),
)
    requires
        is_command_message(m, header, parts),
    ensures
        send_message(o, m) == send_command(o, header, parts),
{
}

/// A command message whose object and arguments can be encoded can be queued.
pub proof fn lemma_command_encodable(
    m: RtmpMessage,
    header: RtmpMessageHeader,
    parts: (Seq<char>, i64, AmfModel, Seq<AmfModel>),
)
    requires
        is_command_message(m, header, parts),
        amf_encodable(parts.2),
        forall|i: int| 0 <= i < parts.3.len() ==> amf_encodable(#[trigger] parts.3[i]),
    ensures
        message_encodable(m),
{
    let args = m->Command_args;
    assert forall|i: int| 0 <= i < args@.len() implies amf_encodable(#[trigger] args@[i]@) by {
        assert(amf_values_view(args@)[i] == args@[i]@);
    }
}

/// A Window Acknowledgement Size message on the control stream.
pub open spec fn win_ack_size_message(size: u32) -> RtmpMessage {
    RtmpMessage::WinAckSize { header: RtmpMessageHeader::spec_pcm(), size }
}

/// A Set Chunk Size message on the control stream.
pub open spec fn set_chunk_size_message(size: RtmpChunkSize) -> RtmpMessage {
    RtmpMessage::SetChunkSize { header: RtmpMessageHeader::spec_pcm(), size }
}

/// A Set Peer Bandwidth message (dynamic) on the control stream.
pub open spec fn set_peer_bandwidth_message(size: u32) -> RtmpMessage {
    RtmpMessage::SetPeerBandwidth {
        header: RtmpMessageHeader::spec_pcm(),
        size,
        limit_type: SetPeerBandwidthLimitType::Dynamic,
    }
}

/// An Acknowledgement message on the control stream.
pub open spec fn ack_message(sequence_number: u32) -> RtmpMessage {
    RtmpMessage::Ack { header: RtmpMessageHeader::spec_pcm(), sequence_number }
}

/// A Stream Begin event for stream `id` on the control stream.
pub open spec fn stream_begin_message(id: u32) -> RtmpMessage {
    RtmpMessage::UserControl {
        header: RtmpMessageHeader::spec_pcm(),
        event: RtmpUserControlEvent::StreamBegin { stream_id: RtmpMessageStreamId(id) },
    }
}

/// The answer to a ping request with the given timestamp, on the control stream.
pub open spec fn ping_response_message(timestamp: RtmpTimestamp) -> RtmpMessage {
    RtmpMessage::UserControl {
        header: RtmpMessageHeader::spec_pcm(),
        event: RtmpUserControlEvent::PingResponse { timestamp },
    }
}

/// `t` is `s` with one more event at the end.
pub open spec fn one_more_event(s: Seq<RtmpConnectionEvent>, t: Seq<RtmpConnectionEvent>) -> bool {
    t.len() == s.len() + 1 && t.take(s.len() as int) =~= s
}

/// The channel after `n` bytes were sent: they leave the send buffer and are counted
/// (wrapping).
pub open spec fn channel_advanced(c: ChannelModel, n: nat) -> ChannelModel {
    ChannelModel {
        out: OutState { bytes: c.out.bytes.skip(n as int), ..c.out },
        total_bytes_sent: wrap_add32(c.total_bytes_sent, n),
        ..c
    }
}

/// After sending, the peer's acknowledgements keep up: no more than twice this side's
/// window has been sent since the last one.
pub open spec fn acks_keep_up(c: ChannelModel) -> bool {
    wrap_sub32(c.total_bytes_sent, c.last_ack_received) <= 2 * c.local_ack_window_size
}

} // verus!
