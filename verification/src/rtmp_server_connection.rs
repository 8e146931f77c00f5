use std::collections::VecDeque;

use vstd::prelude::*;

use crate::amf::{amf0_object_model, amf_encodable, AmfModel};
use crate::amf0::Amf0Model;
use crate::error::{Error, ErrorKind};
use crate::text::{push_str, str_chars};
use crate::float64::{nat_to_bits, Float64};
use crate::media::{AudioFrame, VideoFrame};
use crate::rtmp_command::{
    command_message_parts, is_command_message, command_name, connect_accept_model, null0, num0,
    opt_view, status_members, str0, stream_accept_model, stream_header, RtmpCommand, RtmpCommandModel,
    RtmpConnectCommand, RtmpCreateStreamCommand, RtmpGetStreamLengthCommand, RtmpOnStatusCommand,
    RtmpPlayCommand, RtmpPublishCommand, RtmpResultCommand, TransactionId,
};
use crate::rtmp_connection::{
    ack_message, channel_advanced, channel_fed, acks_keep_up, command_debug_text, lemma_command_encodable,
    message_debug_text, user_control_event_debug_text,
    lemma_send_command, one_more_event, ping_response_message, send_command, send_message,
    set_chunk_size_message, set_peer_bandwidth_message, stream_begin_message, win_ack_size_message,
    ChannelModel, RtmpConnectionEvent, RtmpConnectionOptions, RtmpConnectionState, RtmpMessageChannel,
};
use crate::rtmp_handshake::{after_feed, server_step, HandshakeState, Phase, RtmpServerHandshake};
use crate::rtmp_message::{RtmpMessage, RtmpMessageHeader, RtmpMessageStreamId};
use crate::rtmp_message_decoder::result_kind;
use crate::rtmp_timestamp::RtmpTimestamp;
use crate::rtmp_user_control_event::RtmpUserControlEvent;

verus! {

/// The state of a server connection.
pub struct ServerModel {
    pub options: RtmpConnectionOptions,
    pub state: RtmpConnectionState,
    /// Events not yet taken.
    pub events: Seq<RtmpConnectionEvent>,
    pub handshake: HandshakeState,
    pub channel: ChannelModel,
    /// The accepted `connect` command: application name, Flash version, URL.
    pub connect: Option<(Seq<char>, Seq<char>, Seq<char>)>,
    /// The transaction ID of the publish or play request waiting for an answer.
    pub pending_transaction_id: Option<TransactionId>,
}

/// `s` after moving to `state`, which is announced by an event.
pub open spec fn server_entered(s: ServerModel, state: RtmpConnectionState) -> ServerModel {
    ServerModel { state, events: s.events.push(RtmpConnectionEvent::StateChanged(state)), ..s }
}

/// `s` with the sending side of its channel replaced.
pub open spec fn server_sending(s: ServerModel, out: crate::rtmp_connection::OutState) -> ServerModel {
    ServerModel { channel: ChannelModel { out, ..s.channel }, ..s }
}

/// `t` is `s` with one more event at the end.
pub open spec fn server_with_event(s: ServerModel, t: ServerModel) -> bool {
    one_more_event(s.events, t.events) && t == ServerModel { events: t.events, ..s }
}

/// The `_result` parts that answer `createStream`: the media stream's ID (1).
pub open spec fn create_stream_result_parts(transaction_id: i64) -> (Seq<char>, i64, AmfModel, Seq<AmfModel>) {
    ("_result"@, transaction_id, null0(), seq![AmfModel::Amf0(num0(nat_to_bits(1)))])
}

/// The `_result` parts that answer `getStreamLength`: a length of 0.
pub open spec fn stream_length_result_parts(transaction_id: i64) -> (Seq<char>, i64, AmfModel, Seq<AmfModel>) {
    ("_result"@, transaction_id, null0(), seq![AmfModel::Amf0(num0(0))])
}

/// The header of messages on the media stream at timestamp 0.
pub open spec fn media_header() -> RtmpMessageHeader {
    stream_header(RtmpMessageStreamId(1))
}

/// The sending side after a `connect` command is accepted: window size, chunk size, peer
/// bandwidth, the first stream's beginning, and the `_result`.
pub open spec fn connect_answer_out(
    o: crate::rtmp_connection::OutState,
    options: RtmpConnectionOptions,
) -> crate::rtmp_connection::OutState {
    let ack = options.ack_window_size;
    send_command(
        send_message(
            send_message(
                send_message(send_message(o, win_ack_size_message(ack)), set_chunk_size_message(options.chunk_size)),
                set_peer_bandwidth_message(ack),
            ),
            stream_begin_message(0),
        ),
        RtmpMessageHeader::spec_pcm(),
        command_message_parts(connect_accept_model()).unwrap(),
    )
}

/// What accepting a `connect` command does: the answer is queued, this side's window
/// is set, the command is kept, and the connection is connected.
pub open spec fn server_connect_handled(
    s: ServerModel,
    t: ServerModel,
    app: Seq<char>,
    flash_ver: Seq<char>,
    tc_url: Seq<char>,
) -> bool {
    t == server_entered(
        ServerModel {
            channel: ChannelModel {
                out: connect_answer_out(s.channel.out, s.options),
                local_ack_window_size: s.options.ack_window_size,
                ..s.channel
            },
            connect: Some((app, flash_ver, tc_url)),
            ..s
        },
        RtmpConnectionState::Connected,
    )
}

/// What handling `createStream` does: only when connected; the media stream's ID is
/// answered, its beginning announced, and the media stream is created.
pub open spec fn server_create_stream_handled(s: ServerModel, t: ServerModel, transaction_id: i64, r: Result<(), ErrorKind>) -> bool {
    if s.state != RtmpConnectionState::Connected {
        r == Err::<(), ErrorKind>(ErrorKind::InvalidState) && t == s
    } else {
        r is Ok && t == server_entered(
            server_sending(
                s,
                send_message(
                    send_command(s.channel.out, RtmpMessageHeader::spec_pcm(), create_stream_result_parts(transaction_id)),
                    stream_begin_message(1),
                ),
            ),
            RtmpConnectionState::MediaStreamCreated,
        )
    }
}

/// What handling a publish (`publish` true) or play request does: only once the media
/// stream is created; the request waits for an answer, and the user is told of it.
pub open spec fn server_request_handled(
    s: ServerModel,
    t: ServerModel,
    transaction_id: i64,
    stream_name: Seq<char>,
    publish: bool,
    r: Result<(), ErrorKind>,
) -> bool {
    if s.state != RtmpConnectionState::MediaStreamCreated {
        r == Err::<(), ErrorKind>(ErrorKind::InvalidState) && t == s
    } else {
        let s1 = ServerModel {
            pending_transaction_id: Some(TransactionId(transaction_id)),
            ..server_entered(
                s,
                if publish {
                    RtmpConnectionState::PublishPending
                } else {
                    RtmpConnectionState::PlayPending
                },
            )
        };
        match s.connect {
            None => r == Err::<(), ErrorKind>(ErrorKind::InvalidState) && t == s1,
            Some((app, _, tc_url)) => r is Ok && server_with_event(s1, t) && (if publish {
                t.events.last() matches RtmpConnectionEvent::PublishRequested { app: a, tc_url: u, stream_name: n }
                    && a@ == app && u@ == tc_url && n@ == stream_name
            } else {
                t.events.last() matches RtmpConnectionEvent::PlayRequested { app: a, tc_url: u, stream_name: n }
                    && a@ == app && u@ == tc_url && n@ == stream_name
            }),
        }
    }
}

/// What handling the command `c` does to a server in state `s`: the state `t` and result
/// `r` it ends with.
pub open spec fn server_command_handled(
    s: ServerModel,
    t: ServerModel,
    c: RtmpCommandModel,
    r: Result<(), ErrorKind>,
) -> bool {
    match c {
        RtmpCommandModel::Connect { app, flash_ver, tc_url } => r is Ok && server_connect_handled(
            s,
            t,
            app,
            flash_ver,
            tc_url,
        ),
        RtmpCommandModel::CreateStream { transaction_id } => server_create_stream_handled(s, t, transaction_id, r),
        RtmpCommandModel::Publish { transaction_id, stream_name } => server_request_handled(
            s,
            t,
            transaction_id,
            stream_name,
            true,
            r,
        ),
        RtmpCommandModel::Play { transaction_id, stream_name, .. } => server_request_handled(
            s,
            t,
            transaction_id,
            stream_name,
            false,
            r,
        ),
        RtmpCommandModel::GetStreamLength { transaction_id, .. } => r is Ok && t == server_sending(
            s,
            send_command(s.channel.out, RtmpMessageHeader::spec_pcm(), stream_length_result_parts(transaction_id)),
        ),
        _ => r is Ok && server_with_event(s, t) && (t.events.last() matches RtmpConnectionEvent::CommandIgnored {
            name,
            detail,
        } && name@ == command_name(c) && detail@ == command_debug_text(c)),
    }
}

/// What handling the received message `m` does to a server in state `s`.
pub open spec fn server_message_handled(
    s: ServerModel,
    t: ServerModel,
    m: RtmpMessage,
    r: Result<(), ErrorKind>,
) -> bool {
    match m {
        RtmpMessage::Command { name, transaction_id, object, args, .. } => match crate::rtmp_command::command_from_message(
            name@,
            transaction_id.0,
            object@,
            crate::rtmp_message::amf_values_view(args@),
        ) {
            Err(e) => r == Err::<(), ErrorKind>(e) && t == s,
            Ok(c) => server_command_handled(s, t, c, r),
        },
        RtmpMessage::Audio { frame, .. } => r is Ok && t == ServerModel {
            events: s.events.push(RtmpConnectionEvent::AudioReceived(frame)),
            ..s
        },
        RtmpMessage::Video { frame, .. } => r is Ok && t == ServerModel {
            events: s.events.push(RtmpConnectionEvent::VideoReceived(frame)),
            ..s
        },
        RtmpMessage::WinAckSize { size, .. } => r is Ok && t == ServerModel {
            channel: ChannelModel { peer_ack_window_size: size, ..s.channel },
            ..s
        },
        RtmpMessage::Ack { sequence_number, .. } => r is Ok && t == ServerModel {
            channel: ChannelModel { last_ack_received: sequence_number, ..s.channel },
            ..s
        },
        RtmpMessage::SetChunkSize { .. } => r is Ok && t == s,
        RtmpMessage::SetPeerBandwidth { size, .. } => r is Ok && t == ServerModel {
            channel: ChannelModel {
                out: send_message(s.channel.out, win_ack_size_message(s.options.ack_window_size)),
                local_ack_window_size: size,
                ..s.channel
            },
            ..s
        },
        RtmpMessage::UserControl { event, .. } => match event {
            RtmpUserControlEvent::SetBufferLength { .. } => r is Ok && t == s,
            RtmpUserControlEvent::PingRequest { timestamp } => r is Ok && t == server_sending(
                s,
                send_message(s.channel.out, ping_response_message(timestamp)),
            ),
            _ => r is Ok && server_with_event(s, t) && (t.events.last() matches RtmpConnectionEvent::UserControlEventIgnored {
                name,
                detail,
            } && name@ == event.spec_name() && detail@ == user_control_event_debug_text(event)),
        },
        _ => r is Ok && server_with_event(s, t) && (t.events.last() matches RtmpConnectionEvent::MessageIgnored {
            name,
            detail,
        } && name@ == m.spec_message_type().spec_debug_name() && detail@ == message_debug_text(m)),
    }
}

/// `s` with its first received message taken off the queue.
pub open spec fn server_popped(s: ServerModel) -> ServerModel {
    ServerModel { channel: ChannelModel { received: s.channel.received.drop_first(), ..s.channel }, ..s }
}

/// Taking the next received message of `s` and handling it gives `t` and `r`.
pub open spec fn server_next_handled(s: ServerModel, t: ServerModel, r: Result<(), ErrorKind>) -> bool {
    s.channel.received.len() > 0 && server_message_handled(server_popped(s), t, s.channel.received[0], r)
}

/// Step `i` of a handling path: state `i` handles its next message without error and
/// gives state `i + 1`.
pub open spec fn server_path_step(models: Seq<ServerModel>, i: int) -> bool {
    server_next_handled(models[i], models[i + 1], Ok(()))
}

/// States of a server, each handling its next message without error and giving the next.
pub open spec fn server_handled_path(models: Seq<ServerModel>) -> bool {
    &&& models.len() >= 1
    &&& forall|i: int| 0 <= i < models.len() - 1 ==> #[trigger] server_path_step(models, i)
}

/// Handling the received messages of `s` one by one gives `t` and `r`: all of them
/// without error, or those before one whose handling fails.
pub open spec fn server_drained(s: ServerModel, t: ServerModel, r: Result<(), ErrorKind>) -> bool {
    exists|models: Seq<ServerModel>|
        #[trigger] server_handled_path(models) && models[0] == s && match r {
            Ok(()) => models.last().channel.received.len() == 0 && t == models.last(),
            Err(e) => server_next_handled(models.last(), t, Err(e)),
        }
}

/// Feeding `bytes` to the channel of `s` gives `t` and `r` (`Ok(true)`: messages may wait
/// for handling); an acknowledgement that comes due is queued for sending.
pub open spec fn server_bytes_received(s: ServerModel, t: ServerModel, bytes: Seq<u8>, r: Result<bool, ErrorKind>) -> bool {
    exists|c: ChannelModel, rc: Result<Option<u32>, ErrorKind>|
        #[trigger] channel_fed(s.channel, c, bytes, rc) && match rc {
            Err(e) => r == Err::<bool, ErrorKind>(e) && t == ServerModel { channel: c, ..s },
            Ok(None) => r == Ok::<bool, ErrorKind>(true) && t == ServerModel { channel: c, ..s },
            Ok(Some(n)) => r == Ok::<bool, ErrorKind>(true) && t == ServerModel {
                channel: ChannelModel { out: send_message(c.out, ack_message(n)), ..c },
                ..s
            },
        }
}

/// Receiving `buf` in state `s` gives `t` and `r`: while handshaking, the bytes go to
/// the handshake, and once it is received completely the connection is connecting and
/// the bytes after it go to the channel; otherwise they go to the channel.
pub open spec fn server_received(s: ServerModel, t: ServerModel, buf: Seq<u8>, r: Result<bool, ErrorKind>) -> bool {
    if s.state == RtmpConnectionState::Handshaking {
        let step = server_step(s.handshake.phase, s.handshake.recv + buf);
        let h = after_feed(s.handshake, step);
        if !step.ok {
            r == Err::<bool, ErrorKind>(ErrorKind::InvalidData) && t == ServerModel { handshake: h, ..s }
        } else if step.phase != Phase::Complete {
            r == Ok::<bool, ErrorKind>(false) && t == ServerModel { handshake: h, ..s }
        } else {
            server_bytes_received(
                server_entered(
                    ServerModel { handshake: HandshakeState { recv: Seq::empty(), ..h }, ..s },
                    RtmpConnectionState::Connecting,
                ),
                t,
                h.recv,
                r,
            )
        }
    } else {
        server_bytes_received(s, t, buf, r)
    }
}

/// The server side of an RTMP connection. It does no I/O: its user feeds it the bytes
/// received, sends the bytes it asks to send, and handles its events.
#[derive(Debug)]
pub struct RtmpServerConnection {
    options: RtmpConnectionOptions,
    state: RtmpConnectionState,
    event_queue: VecDeque<RtmpConnectionEvent>,
    handshake: RtmpServerHandshake,
    message_channel: RtmpMessageChannel,
    connect_command: Option<RtmpConnectCommand>,
    pending_transaction_id: Option<TransactionId>,
}

/// The application name, Flash version and URL of an optional `connect` command.
pub open spec fn connect_view(c: Option<RtmpConnectCommand>) -> Option<(Seq<char>, Seq<char>, Seq<char>)> {
    match c {
        None => None,
        Some(c) => Some((c.app@, c.flash_ver@, c.tc_url@)),
    }
}

impl View for RtmpServerConnection {
    type V = ServerModel;

    closed spec fn view(&self) -> ServerModel {
        ServerModel {
            options: self.options,
            state: self.state,
            events: self.event_queue@,
            handshake: self.handshake@,
            channel: self.message_channel@,
            connect: connect_view(self.connect_command),
            pending_transaction_id: self.pending_transaction_id,
        }
    }
}

/// The state of a new server connection.
pub open spec fn server_initial(s: ServerModel) -> bool {
    &&& s.options.chunk_size.value() == 4096
    &&& s.options.ack_window_size == 5_000_000
    &&& s.state == RtmpConnectionState::Handshaking
    &&& s.events == seq![RtmpConnectionEvent::StateChanged(RtmpConnectionState::Handshaking)]
    &&& s.handshake == (HandshakeState { phase: Phase::P0, recv: Seq::empty(), send: Seq::empty() })
    &&& s.channel.received == Seq::<RtmpMessage>::empty()
    &&& s.channel.out.bytes == Seq::<u8>::empty()
    &&& s.connect is None
    &&& s.pending_transaction_id is None
}

/// Whether a transaction ID is recorded whenever `state` is a pending request.
spec fn pending_recorded(state: RtmpConnectionState, id: Option<TransactionId>) -> bool {
    (state == RtmpConnectionState::PublishPending || state == RtmpConnectionState::PlayPending)
        ==> id is Some
}

impl RtmpServerConnection {
    /// The internal invariant: a consistent handshake and channel, and a recorded
    /// transaction ID whenever a publish or play request is pending.
    pub closed spec fn wf(&self) -> bool {
        self.handshake.wf() && self.message_channel.wf() && pending_recorded(
            self.state,
            self.pending_transaction_id,
        )
    }

    /// A new connection, handshaking.
    pub fn new() -> (r: Self)
        ensures
            r.wf(),
            server_initial(r@),
    {
        let mut this = RtmpServerConnection {
            options: RtmpConnectionOptions::default(),
            state: RtmpConnectionState::Handshaking,
            event_queue: VecDeque::new(),
            handshake: RtmpServerHandshake::new(),
            message_channel: RtmpMessageChannel::default(),
            connect_command: None,
            pending_transaction_id: None,
        };
        this.change_state(RtmpConnectionState::Handshaking);
        assert(this@.events =~= seq![RtmpConnectionEvent::StateChanged(RtmpConnectionState::Handshaking)]);
        this
    }

    fn change_state(&mut self, new_state: RtmpConnectionState)
        ensures
            final(self).wf() == (old(self).handshake.wf() && old(self).message_channel.wf()
                && pending_recorded(new_state, old(self).pending_transaction_id)),
            final(self).handshake == old(self).handshake,
            final(self).message_channel == old(self).message_channel,
            final(self).pending_transaction_id == old(self).pending_transaction_id,
            final(self)@ == server_entered(old(self)@, new_state),
    {
        self.state = new_state;
        self.event_queue.push_back(RtmpConnectionEvent::StateChanged(new_state));
    }

    fn push_event(&mut self, event: RtmpConnectionEvent)
        ensures
            final(self).wf() == old(self).wf(),
            final(self)@ == (ServerModel { events: old(self)@.events.push(event), ..old(self)@ }),
    {
        self.event_queue.push_back(event);
    }

    /// Queues a command message with the given header and parts.
    fn send_command(&mut self, m: RtmpMessage, Ghost(header): Ghost<RtmpMessageHeader>, Ghost(parts): Ghost<(Seq<char>, i64, AmfModel, Seq<AmfModel>)>)
        requires
            old(self).wf(),
            is_command_message(m, header, parts),
            amf_encodable(parts.2),
            forall|i: int| 0 <= i < parts.3.len() ==> amf_encodable(#[trigger] parts.3[i]),
        ensures
            final(self).wf(),
            final(self)@ == server_sending(old(self)@, send_command(old(self)@.channel.out, header, parts)),
    {
        proof {
            lemma_command_encodable(m, header, parts);
            lemma_send_command(self@.channel.out, m, header, parts);
        }
        self.message_channel.feed_send_message(m);
    }

    /// Queues a message that is not a command.
    fn send_message(&mut self, m: RtmpMessage)
        requires
            old(self).wf(),
            !(m is Command) && !(m is Data),
        ensures
            final(self).wf(),
            final(self)@ == server_sending(old(self)@, send_message(old(self)@.channel.out, m)),
    {
        self.message_channel.feed_send_message(m);
    }

    /// Handles received bytes: the handshake first, then messages, which may change the
    /// state, queue events and queue messages to send.
    pub fn feed_recv_buf(&mut self, buf: &[u8]) -> (r: Result<(), Error>)
        requires
            old(self).wf(),
        ensures
            final(self).wf(),
            exists|mid: ServerModel, r1: Result<bool, ErrorKind>|
                #[trigger] server_received(old(self)@, mid, buf@, r1) && match r1 {
                    Err(e) => r matches Err(x) && x.kind == e && final(self)@ == mid,
                    Ok(false) => r is Ok && final(self)@ == mid,
                    Ok(true) => server_drained(mid, final(self)@, result_kind(r)),
                },
    {
        let r1 = self.receive(buf);
        let ghost mid = self@;
        match r1 {
            Err(e) => {
                assert(server_received(old(self)@, mid, buf@, result_kind(r1)));
                Err(e)
            },
            Ok(false) => {
                assert(server_received(old(self)@, mid, buf@, result_kind(r1)));
                Ok(())
            },
            Ok(true) => {
                let r = self.handle_received_messages();
                assert(server_received(old(self)@, mid, buf@, result_kind(r1)));
                r
            },
        }
    }

    fn receive(&mut self, buf: &[u8]) -> (r: Result<bool, Error>)
        requires
            old(self).wf(),
        ensures
            final(self).wf(),
            server_received(old(self)@, final(self)@, buf@, result_kind(r)),
    {
        if self.state == RtmpConnectionState::Handshaking {
            match self.handshake.feed_recv_buf(buf) {
                Ok(()) => {},
                Err(e) => return Err(e),
            }
            if !self.handshake.is_recv_complete() {
                return Ok(false);
            }
            self.change_state(RtmpConnectionState::Connecting);
            let remaining = self.handshake.take_recv_buf();
            self.receive_messages(remaining.as_slice())
        } else {
            self.receive_messages(buf)
        }
    }

    fn receive_messages(&mut self, bytes: &[u8]) -> (r: Result<bool, Error>)
        requires
            old(self).wf(),
        ensures
            final(self).wf(),
            server_bytes_received(old(self)@, final(self)@, bytes@, result_kind(r)),
    {
        let ghost s = self@;
        let fed = self.message_channel.feed_recv_buf(bytes);
        let ghost c = self.message_channel@;
        let ghost rc = result_kind(fed);
        match fed {
            Err(e) => {
                assert(channel_fed(s.channel, c, bytes@, rc));
                Err(e)
            },
            Ok(None) => {
                assert(channel_fed(s.channel, c, bytes@, rc));
                Ok(true)
            },
            Ok(Some(total_bytes_received)) => {
                self.send_message(RtmpMessage::ack(total_bytes_received));
                assert(channel_fed(s.channel, c, bytes@, rc));
                Ok(true)
            },
        }
    }

    fn handle_received_messages(&mut self) -> (r: Result<(), Error>)
        requires
            old(self).wf(),
        ensures
            final(self).wf(),
            server_drained(old(self)@, final(self)@, result_kind(r)),
    {
        let ghost mut models: Seq<ServerModel> = seq![self@];
        loop
            invariant
                self.wf(),
                server_handled_path(models),
                models[0] == old(self)@,
                models.last() == self@,
            decreases self@.channel.received.len(),
        {
            let ghost before = self@;
            match self.message_channel.next_recv_message() {
                None => {
                    assert(server_handled_path(models));
                    return Ok(());
                },
                Some(message) => {
                    proof {
                        assert(self@ == server_popped(before));
                    }
                    let r = self.handle_recv_message(message);
                    match r {
                        Ok(()) => {
                            proof {
                                let new_models = models.push(self@);
                                assert forall|i: int| 0 <= i < new_models.len() - 1 implies #[trigger] server_path_step(
                                    new_models,
                                    i,
                                ) by {
                                    if i < models.len() - 1 {
                                        assert(server_path_step(models, i));
                                    }
                                }
                                models = new_models;
                            }
                        },
                        Err(e) => {
                            assert(server_handled_path(models));
                            return Err(e);
                        },
                    }
                },
            }
        }
    }

    fn handle_recv_message(&mut self, message: RtmpMessage) -> (r: Result<(), Error>)
        requires
            old(self).wf(),
        ensures
            final(self).wf(),
            server_message_handled(old(self)@, final(self)@, message, result_kind(r)),
    {
        let ghost m = message;
        match message {
            RtmpMessage::Command { header, name, transaction_id, object, args, .. } => {
                let command = match RtmpCommand::from_message(name.as_str(), transaction_id, object, args) {
                    Ok(c) => c,
                    Err(e) => return Err(e),
                };
                self.handle_command(header, command)
            },
            RtmpMessage::Audio { frame, .. } => {
                self.push_event(RtmpConnectionEvent::AudioReceived(frame));
                Ok(())
            },
            RtmpMessage::Video { frame, .. } => {
                self.push_event(RtmpConnectionEvent::VideoReceived(frame));
                Ok(())
            },
            RtmpMessage::WinAckSize { size, .. } => {
                self.message_channel.set_peer_ack_window_size(size);
                Ok(())
            },
            RtmpMessage::Ack { sequence_number, .. } => {
                self.message_channel.notify_ack_received(sequence_number);
                Ok(())
            },
            RtmpMessage::SetChunkSize { .. } => Ok(()),
            RtmpMessage::SetPeerBandwidth { size, .. } => {
                self.send_message(RtmpMessage::win_ack_size(self.options.ack_window_size));
                self.message_channel.set_local_ack_window_size(size);
                Ok(())
            },
            RtmpMessage::UserControl { event, .. } => {
                match event {
                    RtmpUserControlEvent::SetBufferLength { .. } => {},
                    RtmpUserControlEvent::PingRequest { timestamp } => {
                        let response = RtmpMessage::UserControl {
                            header: RtmpMessageHeader::pcm(),
                            event: RtmpUserControlEvent::PingResponse { timestamp },
                        };
                        self.send_message(response);
                    },
                    _ => {
                        self.push_event(RtmpConnectionEvent::user_control_event_ignored(&event));
                    },
                }
                Ok(())
            },
            message => {
                self.push_event(RtmpConnectionEvent::message_ignored(&message));
                Ok(())
            },
        }
    }

    fn handle_command(&mut self, _header: RtmpMessageHeader, command: RtmpCommand) -> (r: Result<(), Error>)
        requires
            old(self).wf(),
        ensures
            final(self).wf(),
            server_command_handled(old(self)@, final(self)@, command@, result_kind(r)),
    {
        match command {
            RtmpCommand::Connect(c) => self.handle_connect_command(c),
            RtmpCommand::CreateStream(c) => self.handle_create_stream_command(c),
            RtmpCommand::Publish(c) => self.handle_publish_command(c),
            RtmpCommand::Play(c) => self.handle_play_command(c),
            RtmpCommand::GetStreamLength(c) => self.handle_get_stream_length_command(c),
            command => {
                self.push_event(RtmpConnectionEvent::command_ignored(&command));
                Ok(())
            },
        }
    }

    fn handle_get_stream_length_command(&mut self, command: RtmpGetStreamLengthCommand) -> (r: Result<(), Error>)
        requires
            old(self).wf(),
        ensures
            final(self).wf(),
            server_command_handled(old(self)@, final(self)@, RtmpCommand::GetStreamLength(command)@, result_kind(r)),
    {
        let result = RtmpResultCommand::get_stream_length_result(command.transaction_id, Float64::zero());
        let ghost parts = stream_length_result_parts(command.transaction_id.0);
        let message = match RtmpCommand::Result(result).into_message(RtmpMessageHeader::pcm()) {
            Ok(m) => m,
            Err(e) => return Err(e),
        };
        self.send_command(message, Ghost(RtmpMessageHeader::spec_pcm()), Ghost(parts));
        Ok(())
    }

    fn handle_publish_command(&mut self, command: RtmpPublishCommand) -> (r: Result<(), Error>)
        requires
            old(self).wf(),
        ensures
            final(self).wf(),
            server_command_handled(old(self)@, final(self)@, RtmpCommand::Publish(command)@, result_kind(r)),
    {
        match self.state.expect(RtmpConnectionState::MediaStreamCreated) {
            Ok(()) => {},
            Err(e) => return Err(e),
        }
        self.change_state(RtmpConnectionState::PublishPending);
        self.pending_transaction_id = Some(command.transaction_id);
        let (app, tc_url) = match &self.connect_command {
            Some(c) => (c.app.clone(), c.tc_url.clone()),
            None => return Err(Error::invalid_state("Connect command not set before publish")),
        };
        self.push_event(RtmpConnectionEvent::PublishRequested { app, tc_url, stream_name: command.stream_name });
        Ok(())
    }

    fn handle_play_command(&mut self, command: RtmpPlayCommand) -> (r: Result<(), Error>)
        requires
            old(self).wf(),
        ensures
            final(self).wf(),
            server_command_handled(old(self)@, final(self)@, RtmpCommand::Play(command)@, result_kind(r)),
    {
        match self.state.expect(RtmpConnectionState::MediaStreamCreated) {
            Ok(()) => {},
            Err(e) => return Err(e),
        }
        self.change_state(RtmpConnectionState::PlayPending);
        self.pending_transaction_id = Some(command.transaction_id);
        let (app, tc_url) = match &self.connect_command {
            Some(c) => (c.app.clone(), c.tc_url.clone()),
            None => return Err(Error::invalid_state("Connect command not set before play")),
        };
        self.push_event(RtmpConnectionEvent::PlayRequested { app, tc_url, stream_name: command.stream_name });
        Ok(())
    }

    fn handle_create_stream_command(&mut self, command: RtmpCreateStreamCommand) -> (r: Result<(), Error>)
        requires
            old(self).wf(),
        ensures
            final(self).wf(),
            server_command_handled(old(self)@, final(self)@, RtmpCommand::CreateStream(command)@, result_kind(r)),
    {
        match self.state.expect(RtmpConnectionState::Connected) {
            Ok(()) => {},
            Err(e) => return Err(e),
        }
        let result = RtmpResultCommand::create_stream_result(command.transaction_id, RtmpMessageStreamId::media());
        let ghost parts = create_stream_result_parts(command.transaction_id.0);
        let message = match RtmpCommand::Result(result).into_message(RtmpMessageHeader::pcm()) {
            Ok(m) => m,
            Err(e) => return Err(e),
        };
        self.send_command(message, Ghost(RtmpMessageHeader::spec_pcm()), Ghost(parts));
        self.send_message(RtmpMessage::stream_begin(RtmpMessageStreamId::media()));
        self.change_state(RtmpConnectionState::MediaStreamCreated);
        Ok(())
    }

    fn handle_connect_command(&mut self, command: RtmpConnectCommand) -> (r: Result<(), Error>)
        requires
            old(self).wf(),
        ensures
            final(self).wf(),
            server_command_handled(old(self)@, final(self)@, RtmpCommand::Connect(command)@, result_kind(r)),
    {
        self.send_message(RtmpMessage::win_ack_size(self.options.ack_window_size));
        self.message_channel.set_local_ack_window_size(self.options.ack_window_size);
        self.send_message(RtmpMessage::set_chunk_size(self.options.chunk_size));
        self.send_message(RtmpMessage::set_peer_bandwidth(self.options.ack_window_size));
        self.send_message(RtmpMessage::stream_begin(RtmpMessageStreamId::first()));
        let message = match command.accept() {
            Ok(m) => m,
            Err(e) => return Err(e),
        };
        let ghost parts = command_message_parts(connect_accept_model()).unwrap();
        proof {
            lemma_connect_accept_encodable();
        }
        self.send_command(message, Ghost(RtmpMessageHeader::spec_pcm()), Ghost(parts));
        self.change_state(RtmpConnectionState::Connected);
        self.connect_command = Some(command);
        Ok(())
    }

    /// The bytes waiting to be sent: the handshake's while handshaking, then the
    /// channel's.
    pub fn send_buf(&self) -> (r: &[u8])
        requires
            self.wf(),
        ensures
            r@ == if self@.state == RtmpConnectionState::Handshaking {
                self@.handshake.send
            } else {
                self@.channel.out.bytes
            },
    {
        if self.state == RtmpConnectionState::Handshaking {
            self.handshake.send_buf()
        } else {
            self.message_channel.send_buf()
        }
    }

    /// Marks `n` bytes as sent: from the handshake until all of it is sent, then from the
    /// channel. When the peer's acknowledgements do not keep up, the peer is taken to have
    /// gone and the connection is disconnecting.
    pub fn advance_send_buf(&mut self, n: usize)
        requires
            old(self).wf(),
            old(self)@.handshake.phase == Phase::Complete && old(self)@.handshake.send.len() == 0 ==> n
                <= old(self)@.channel.out.bytes.len(),
        ensures
            final(self).wf(),
            ({
                let s = old(self)@;
                if !(s.handshake.phase == Phase::Complete && s.handshake.send.len() == 0) {
                    final(self)@ == (ServerModel {
                        handshake: HandshakeState {
                            send: s.handshake.send.skip(
                                if n < s.handshake.send.len() {
                                    n as int
                                } else {
                                    s.handshake.send.len() as int
                                },
                            ),
                            ..s.handshake
                        },
                        ..s
                    })
                } else {
                    let c = channel_advanced(s.channel, n as nat);
                    if acks_keep_up(c) {
                        final(self)@ == (ServerModel { channel: c, ..s })
                    } else {
                        let s1 = ServerModel { channel: c, ..s };
                        let f = final(self)@;
                        &&& f.events.len() == s1.events.len() + 2
                        &&& f.events.take(s1.events.len() as int) == s1.events
                        &&& f.events[s1.events.len() as int] is DisconnectedByPeer
                        &&& f.events.last() == RtmpConnectionEvent::StateChanged(
                            RtmpConnectionState::Disconnecting,
                        )
                        &&& f == ServerModel {
                            events: f.events,
                            state: RtmpConnectionState::Disconnecting,
                            ..s1
                        }
                    }
                }
            }),
    {
        if !self.handshake.is_send_complete() {
            self.handshake.advance_send_buf(n);
        } else if !self.message_channel.advance_send_buf(n) {
            self.push_event(
                RtmpConnectionEvent::DisconnectedByPeer {
                    reason: "ACK not received within expected interval".to_owned(),
                },
            );
            self.change_state(RtmpConnectionState::Disconnecting);
        }
    }

    /// The current state.
    pub fn state(&self) -> (r: RtmpConnectionState)
        ensures
            r == self@.state,
    {
        self.state
    }

    /// Accepts the pending publish or play request: the client is told that publishing
    /// or playing started, and the connection is publishing or playing. In any other
    /// state this is an invalid-state error.
    pub fn accept(&mut self) -> (r: Result<(), Error>)
        requires
            old(self).wf(),
        ensures
            final(self).wf(),
            ({
                let s = old(self)@;
                if s.state != RtmpConnectionState::PublishPending && s.state != RtmpConnectionState::PlayPending {
                    r matches Err(e) && e.kind == ErrorKind::InvalidState && final(self)@ == s
                } else {
                    s.pending_transaction_id matches Some(tid) && r is Ok && final(self)@
                        == server_accepted(s, tid.0)
                }
            }),
    {
        if self.state != RtmpConnectionState::PublishPending && self.state != RtmpConnectionState::PlayPending {
            let mut t = str_chars("Cannot accept in ");
            push_str(&mut t, self.state.to_string().as_str());
            push_str(&mut t, " state");
            return Err(Error::with_text(ErrorKind::InvalidState, &t));
        }
        let transaction_id = match self.pending_transaction_id {
            Some(t) => t,
            None => return Err(Error::invalid_state("Pending transaction ID not set")),
        };
        if self.state == RtmpConnectionState::PublishPending {
            self.accept_publish(transaction_id)
        } else {
            self.accept_play(transaction_id)
        }
    }

    fn accept_publish(&mut self, transaction_id: TransactionId) -> (r: Result<(), Error>)
        requires
            old(self).wf(),
            old(self)@.state == RtmpConnectionState::PublishPending,
        ensures
            final(self).wf(),
            r is Ok && final(self)@ == server_accepted(old(self)@, transaction_id.0),
    {
        match self.state.expect(RtmpConnectionState::PublishPending) {
            Ok(()) => {},
            Err(e) => return Err(e),
        }
        let accepted = match RtmpPublishCommand::accept(transaction_id, RtmpMessageStreamId::media()) {
            Ok(m) => m,
            Err(e) => return Err(e),
        };
        let ghost media = RtmpMessageStreamId(1);
        let ghost parts = command_message_parts(
            stream_accept_model(transaction_id.0, "NetStream.Publish.Start"@, "Publish succeeded."@),
        ).unwrap();
        proof {
            lemma_stream_accept_encodable(transaction_id.0, "NetStream.Publish.Start"@, "Publish succeeded."@);
        }
        self.send_command(accepted, Ghost(stream_header(media)), Ghost(parts));
        let status = RtmpOnStatusCommand::publish_start();
        let ghost status_model = RtmpCommand::OnStatus(status)@;
        let header = RtmpMessageHeader { stream_id: RtmpMessageStreamId::media(), timestamp: RtmpTimestamp::zero() };
        let message = match RtmpCommand::OnStatus(status).into_message(header) {
            Ok(m) => m,
            Err(e) => return Err(e),
        };
        proof {
            lemma_status_encodable(status_model);
        }
        self.send_command(message, Ghost(media_header()), Ghost(command_message_parts(status_model).unwrap()));
        self.change_state(RtmpConnectionState::Publishing);
        Ok(())
    }

    fn accept_play(&mut self, transaction_id: TransactionId) -> (r: Result<(), Error>)
        requires
            old(self).wf(),
            old(self)@.state == RtmpConnectionState::PlayPending,
        ensures
            final(self).wf(),
            r is Ok && final(self)@ == server_accepted(old(self)@, transaction_id.0),
    {
        match self.state.expect(RtmpConnectionState::PlayPending) {
            Ok(()) => {},
            Err(e) => return Err(e),
        }
        let accepted = match RtmpPlayCommand::accept(transaction_id, RtmpMessageStreamId::media()) {
            Ok(m) => m,
            Err(e) => return Err(e),
        };
        let ghost media = RtmpMessageStreamId(1);
        let ghost parts = command_message_parts(
            stream_accept_model(transaction_id.0, "NetStream.Play.Start"@, "Play succeeded."@),
        ).unwrap();
        proof {
            lemma_stream_accept_encodable(transaction_id.0, "NetStream.Play.Start"@, "Play succeeded."@);
        }
        self.send_command(accepted, Ghost(stream_header(media)), Ghost(parts));
        let status = RtmpOnStatusCommand::play_start();
        let ghost status_model = RtmpCommand::OnStatus(status)@;
        let header = RtmpMessageHeader { stream_id: RtmpMessageStreamId::media(), timestamp: RtmpTimestamp::zero() };
        let message = match RtmpCommand::OnStatus(status).into_message(header) {
            Ok(m) => m,
            Err(e) => return Err(e),
        };
        proof {
            lemma_status_encodable(status_model);
        }
        self.send_command(message, Ghost(media_header()), Ghost(command_message_parts(status_model).unwrap()));
        self.change_state(RtmpConnectionState::Playing);
        Ok(())
    }

    /// Rejects the pending publish or play request: the client is told why (bad name,
    /// or stream not found, with `reason` as details), and the connection is
    /// disconnecting. In any other state this is an invalid-state error.
    pub fn reject(&mut self, reason: &str) -> (r: Result<(), Error>)
        requires
            old(self).wf(),
        ensures
            final(self).wf(),
            ({
                let s = old(self)@;
                if s.state != RtmpConnectionState::PublishPending && s.state != RtmpConnectionState::PlayPending {
                    r matches Err(e) && e.kind == ErrorKind::InvalidState && final(self)@ == s
                } else {
                    r is Ok && final(self)@ == server_entered(
                        server_sending(
                            s,
                            send_command(
                                s.channel.out,
                                media_header(),
                                command_message_parts(rejection_status(s.state, reason@)).unwrap(),
                            ),
                        ),
                        RtmpConnectionState::Disconnecting,
                    )
                }
            }),
    {
        if self.state != RtmpConnectionState::PublishPending && self.state != RtmpConnectionState::PlayPending {
            let mut t = str_chars("Cannot reject in ");
            push_str(&mut t, self.state.to_string().as_str());
            push_str(&mut t, " state");
            return Err(Error::with_text(ErrorKind::InvalidState, &t));
        }
        let status = if self.state == RtmpConnectionState::PublishPending {
            RtmpOnStatusCommand::publish_bad_name(reason)
        } else {
            RtmpOnStatusCommand::play_stream_not_found(reason)
        };
        let ghost status_model = RtmpCommand::OnStatus(status)@;
        assert(status_model == rejection_status(self@.state, reason@));
        let header = RtmpMessageHeader { stream_id: RtmpMessageStreamId::media(), timestamp: RtmpTimestamp::zero() };
        let message = match RtmpCommand::OnStatus(status).into_message(header) {
            Ok(m) => m,
            Err(e) => return Err(e),
        };
        proof {
            lemma_status_encodable(status_model);
        }
        self.send_command(message, Ghost(media_header()), Ghost(command_message_parts(status_model).unwrap()));
        self.change_state(RtmpConnectionState::Disconnecting);
        Ok(())
    }

    /// Queues an audio frame for the client, on the media stream at the frame's
    /// timestamp. Only while playing; an invalid-state error otherwise.
    pub fn send_audio(&mut self, frame: AudioFrame) -> (r: Result<(), Error>)
        requires
            old(self).wf(),
        ensures
            final(self).wf(),
            old(self)@.state != RtmpConnectionState::Playing ==> (r matches Err(e) && e.kind
                == ErrorKind::InvalidState && final(self)@ == old(self)@),
            old(self)@.state == RtmpConnectionState::Playing ==> r is Ok && final(self)@ == server_sending(
                old(self)@,
                send_message(
                    old(self)@.channel.out,
                    RtmpMessage::Audio {
                        header: RtmpMessageHeader { stream_id: RtmpMessageStreamId(1), timestamp: frame.timestamp },
                        frame,
                    },
                ),
            ),
    {
        match self.state.expect(RtmpConnectionState::Playing) {
            Ok(()) => {},
            Err(e) => return Err(e),
        }
        let message = RtmpMessage::Audio {
            header: RtmpMessageHeader { stream_id: RtmpMessageStreamId::media(), timestamp: frame.timestamp },
            frame,
        };
        self.send_message(message);
        Ok(())
    }

    /// Queues a video frame for the client, on the media stream at the frame's
    /// timestamp. Only while playing; an invalid-state error otherwise.
    pub fn send_video(&mut self, frame: VideoFrame) -> (r: Result<(), Error>)
        requires
            old(self).wf(),
        ensures
            final(self).wf(),
            old(self)@.state != RtmpConnectionState::Playing ==> (r matches Err(e) && e.kind
                == ErrorKind::InvalidState && final(self)@ == old(self)@),
            old(self)@.state == RtmpConnectionState::Playing ==> r is Ok && final(self)@ == server_sending(
                old(self)@,
                send_message(
                    old(self)@.channel.out,
                    RtmpMessage::Video {
                        header: RtmpMessageHeader { stream_id: RtmpMessageStreamId(1), timestamp: frame.timestamp },
                        frame,
                    },
                ),
            ),
    {
        match self.state.expect(RtmpConnectionState::Playing) {
            Ok(()) => {},
            Err(e) => return Err(e),
        }
        let message = RtmpMessage::Video {
            header: RtmpMessageHeader { stream_id: RtmpMessageStreamId::media(), timestamp: frame.timestamp },
            frame,
        };
        self.send_message(message);
        Ok(())
    }

    /// Takes the next event, if any.
    pub fn next_event(&mut self) -> (r: Option<RtmpConnectionEvent>)
        requires
            old(self).wf(),
        ensures
            final(self).wf(),
            old(self)@.events.len() == 0 ==> r is None && final(self)@ == old(self)@,
            old(self)@.events.len() > 0 ==> r == Some(old(self)@.events[0]) && final(self)@ == (ServerModel {
                events: old(self)@.events.drop_first(),
                ..old(self)@
            }),
    {
        let r = self.event_queue.pop_front();
        proof {
            if old(self)@.events.len() > 0 {
                assert(self@.events =~= old(self)@.events.drop_first());
            }
        }
        r
    }
}

impl Default for RtmpServerConnection {
    fn default() -> (r: Self)
        ensures
            r.wf(),
            server_initial(r@),
    {
        Self::new()
    }
}

/// The status sent when a pending request is accepted.
pub open spec fn acceptance_status(state: RtmpConnectionState) -> RtmpCommandModel {
    if state == RtmpConnectionState::PublishPending {
        RtmpCommandModel::OnStatus {
            level: "status"@,
            code: "NetStream.Publish.Start"@,
            description: Some("Publish succeeded."@),
            details: None,
        }
    } else {
        RtmpCommandModel::OnStatus {
            level: "status"@,
            code: "NetStream.Play.Start"@,
            description: Some("Play succeeded."@),
            details: None,
        }
    }
}

/// The status sent when a pending request is rejected for `reason`.
pub open spec fn rejection_status(state: RtmpConnectionState, reason: Seq<char>) -> RtmpCommandModel {
    if state == RtmpConnectionState::PublishPending {
        RtmpCommandModel::OnStatus {
            level: "error"@,
            code: "NetStream.Publish.BadName"@,
            description: Some("Stream name already in use."@),
            details: Some(reason),
        }
    } else {
        RtmpCommandModel::OnStatus {
            level: "error"@,
            code: "NetStream.Play.StreamNotFound"@,
            description: Some("Stream not found."@),
            details: Some(reason),
        }
    }
}

/// A server in a pending state after accepting: the `_result` on the media stream, the
/// start status, and the publishing or playing state.
pub open spec fn server_accepted(s: ServerModel, transaction_id: i64) -> ServerModel {
    let publishing = s.state == RtmpConnectionState::PublishPending;
    let result = if publishing {
        stream_accept_model(transaction_id, "NetStream.Publish.Start"@, "Publish succeeded."@)
    } else {
        stream_accept_model(transaction_id, "NetStream.Play.Start"@, "Play succeeded."@)
    };
    server_entered(
        server_sending(
            s,
            send_command(
                send_command(s.channel.out, media_header(), command_message_parts(result).unwrap()),
                media_header(),
                command_message_parts(acceptance_status(s.state)).unwrap(),
            ),
        ),
        if publishing {
            RtmpConnectionState::Publishing
        } else {
            RtmpConnectionState::Playing
        },
    )
}

/// The object and arguments of the `_result` that accepts `connect` can be encoded.
proof fn lemma_connect_accept_encodable()
    ensures
        amf_encodable(command_message_parts(connect_accept_model()).unwrap().2),
        forall|i: int|
            0 <= i < command_message_parts(connect_accept_model()).unwrap().3.len() ==> amf_encodable(
                #[trigger] command_message_parts(connect_accept_model()).unwrap().3[i],
            ),
{
    let parts = command_message_parts(connect_accept_model()).unwrap();
    let p = parts.2->Amf0_0->Object_entries;
    assert forall|i: int| 0 <= i < p.len() implies crate::amf0::amf0_encodable(#[trigger] p[i].1) by {}
    let q = parts.3[0]->Amf0_0->Object_entries;
    assert forall|i: int| 0 <= i < q.len() implies crate::amf0::amf0_encodable(#[trigger] q[i].1) by {}
}

/// The object and arguments of a `_result` that accepts a stream command can be encoded.
proof fn lemma_stream_accept_encodable(transaction_id: i64, code: Seq<char>, description: Seq<char>)
    ensures
        amf_encodable(command_message_parts(stream_accept_model(transaction_id, code, description)).unwrap().2),
        forall|i: int|
            0 <= i < command_message_parts(stream_accept_model(transaction_id, code, description)).unwrap().3.len()
                ==> amf_encodable(
                #[trigger] command_message_parts(stream_accept_model(transaction_id, code, description)).unwrap().3[i],
            ),
{
    let parts = command_message_parts(stream_accept_model(transaction_id, code, description)).unwrap();
    let q = parts.3[0]->Amf0_0->Object_entries;
    assert forall|i: int| 0 <= i < q.len() implies crate::amf0::amf0_encodable(#[trigger] q[i].1) by {}
}

/// The object and arguments of an `onStatus` command can be encoded.
proof fn lemma_status_encodable(c: RtmpCommandModel)
    requires
        c is OnStatus,
    ensures
        amf_encodable(command_message_parts(c).unwrap().2),
        forall|i: int|
            0 <= i < command_message_parts(c).unwrap().3.len() ==> amf_encodable(
                #[trigger] command_message_parts(c).unwrap().3[i],
            ),
{
    let parts = command_message_parts(c).unwrap();
    let q = parts.3[0]->Amf0_0->Object_entries;
    assert forall|i: int| 0 <= i < q.len() implies crate::amf0::amf0_encodable(#[trigger] q[i].1) by {}
}


proof fn lemma_connect_step(
    s0: ServerModel,
    s1: ServerModel,
    app: Seq<char>,
    flash_ver: Seq<char>,
    tc_url: Seq<char>,
    r: Result<(), ErrorKind>,
)
    requires
        server_command_handled(s0, s1, RtmpCommandModel::Connect { app, flash_ver, tc_url }, r),
    ensures
        r is Ok,
        s1.state == RtmpConnectionState::Connected,
        s1.events == s0.events.push(RtmpConnectionEvent::StateChanged(RtmpConnectionState::Connected)),
        s1.connect == Some((app, flash_ver, tc_url)),
{
}

proof fn lemma_create_stream_step(s1: ServerModel, s2: ServerModel, id: i64, r: Result<(), ErrorKind>)
    requires
        server_command_handled(s1, s2, RtmpCommandModel::CreateStream { transaction_id: id }, r),
        s1.state == RtmpConnectionState::Connected,
    ensures
        r is Ok,
        s2.state == RtmpConnectionState::MediaStreamCreated,
        s2.events == s1.events.push(RtmpConnectionEvent::StateChanged(RtmpConnectionState::MediaStreamCreated)),
        s2.connect == s1.connect,
{
}

proof fn lemma_publish_step(
    s2: ServerModel,
    s3: ServerModel,
    id: i64,
    stream_name: Seq<char>,
    app: Seq<char>,
    flash_ver: Seq<char>,
    tc_url: Seq<char>,
    r: Result<(), ErrorKind>,
)
    requires
        server_command_handled(s2, s3, RtmpCommandModel::Publish { transaction_id: id, stream_name }, r),
        s2.state == RtmpConnectionState::MediaStreamCreated,
        s2.connect == Some((app, flash_ver, tc_url)),
    ensures
        r is Ok,
        s3.state == RtmpConnectionState::PublishPending,
        s3.pending_transaction_id == Some(TransactionId(id)),
        s3.events.len() == s2.events.len() + 2,
        s3.events.take(s2.events.len() + 1int) == s2.events.push(
            RtmpConnectionEvent::StateChanged(RtmpConnectionState::PublishPending),
        ),
        s3.events.last() matches RtmpConnectionEvent::PublishRequested { app: a, tc_url: u, stream_name: n }
            && a@ == app && u@ == tc_url && n@ == stream_name,
{
}

proof fn lemma_accept_step(s3: ServerModel, id: i64)
    requires
        s3.state == RtmpConnectionState::PublishPending,
    ensures
        server_accepted(s3, id).state == RtmpConnectionState::Publishing,
        server_accepted(s3, id).events == s3.events.push(
            RtmpConnectionEvent::StateChanged(RtmpConnectionState::Publishing),
        ),
{
}

/// A whole publish request, as the server handles it: `connect`, then `createStream`,
/// then `publish`, each received in turn, all succeed, and the server tells, in this
/// order and with nothing between, that it is connected, that the media stream is
/// created, that a publication is pending, and which publication is requested; once
/// accepted, it tells that it is publishing.
#[verifier::spinoff_prover]
#[verifier::rlimit(100)]
pub proof fn lemma_server_publish_session(
    s0: ServerModel,
    s1: ServerModel,
    s2: ServerModel,
    s3: ServerModel,
    app: Seq<char>,
    flash_ver: Seq<char>,
    tc_url: Seq<char>,
    create_id: i64,
    publish_id: i64,
    stream_name: Seq<char>,
    r1: Result<(), ErrorKind>,
    r2: Result<(), ErrorKind>,
    r3: Result<(), ErrorKind>,
)
    requires
        server_command_handled(s0, s1, RtmpCommandModel::Connect { app, flash_ver, tc_url }, r1),
        server_command_handled(s1, s2, RtmpCommandModel::CreateStream { transaction_id: create_id }, r2),
        server_command_handled(
            s2,
            s3,
            RtmpCommandModel::Publish { transaction_id: publish_id, stream_name },
            r3,
        ),
    ensures
        r1 is Ok && r2 is Ok && r3 is Ok,
        s3.state == RtmpConnectionState::PublishPending,
        s3.pending_transaction_id == Some(TransactionId(publish_id)),
        s3.events.len() == s0.events.len() + 4,
        s3.events.take(s0.events.len() as int) == s0.events,
        s3.events[s0.events.len() as int] == RtmpConnectionEvent::StateChanged(RtmpConnectionState::Connected),
        s3.events[s0.events.len() + 1int] == RtmpConnectionEvent::StateChanged(
            RtmpConnectionState::MediaStreamCreated,
        ),
        s3.events[s0.events.len() + 2int] == RtmpConnectionEvent::StateChanged(
            RtmpConnectionState::PublishPending,
        ),
        s3.events[s0.events.len() + 3int] matches RtmpConnectionEvent::PublishRequested { app: a, tc_url: u, stream_name: n }
            && a@ == app && u@ == tc_url && n@ == stream_name,
        server_accepted(s3, publish_id).state == RtmpConnectionState::Publishing,
        server_accepted(s3, publish_id).events == s3.events.push(
            RtmpConnectionEvent::StateChanged(RtmpConnectionState::Publishing),
        ),
{
    lemma_connect_step(s0, s1, app, flash_ver, tc_url, r1);
    lemma_create_stream_step(s1, s2, create_id, r2);
    lemma_publish_step(s2, s3, publish_id, stream_name, app, flash_ver, tc_url, r3);
    lemma_accept_step(s3, publish_id);
    let n = s0.events.len() as int;
    let e2 = s2.events.push(RtmpConnectionEvent::StateChanged(RtmpConnectionState::PublishPending));
    assert(s3.events[n] == e2[n]);
    assert(s3.events[n + 1] == e2[n + 1]);
    assert(s3.events[n + 2] == e2[n + 2]);
    assert(s3.events.take(n) =~= s0.events) by {
        assert forall|k: int| 0 <= k < n implies s3.events.take(n)[k] == s0.events[k] by {
            assert(s3.events[k] == e2[k]);
        }
    }
}

/// Answering `createStream` announces the stream that the media then use: the `_result`
/// under the request's transaction ID carries the number 1, the ID of the media stream,
/// and the Stream Begin that follows it names that same stream, on which the server sends
/// its status answers and media.
pub proof fn lemma_create_stream_announces_media_stream(
    s: ServerModel,
    t: ServerModel,
    transaction_id: i64,
    r: Result<(), ErrorKind>,
)
    requires
        server_command_handled(s, t, RtmpCommandModel::CreateStream { transaction_id }, r),
        s.state == RtmpConnectionState::Connected,
    ensures
        r is Ok,
        t.state == RtmpConnectionState::MediaStreamCreated,
        t.channel.out == send_message(
            send_command(
                s.channel.out,
                RtmpMessageHeader { stream_id: RtmpMessageStreamId(0), timestamp: RtmpTimestamp(0) },
                ("_result"@, transaction_id, null0(), seq![AmfModel::Amf0(Amf0Model::Number(nat_to_bits(1)))]),
            ),
            RtmpMessage::UserControl {
                header: RtmpMessageHeader { stream_id: RtmpMessageStreamId(0), timestamp: RtmpTimestamp(0) },
                event: RtmpUserControlEvent::StreamBegin { stream_id: RtmpMessageStreamId(1) },
            },
        ),
        media_header() == (RtmpMessageHeader { stream_id: RtmpMessageStreamId(1), timestamp: RtmpTimestamp(0) }),
{
}

/// Accepting `connect` sends, on the control stream (message stream 0) at timestamp 0, a
/// Window Acknowledgement Size of the configured window, a Set Chunk Size of the
/// configured chunk size, a dynamic Set Peer Bandwidth of the configured window, a Stream
/// Begin for stream 0, and the `_result` under transaction ID 1 whose information reports
/// `NetConnection.Connect.Success`.
pub proof fn lemma_connect_answer(s: ServerModel, t: ServerModel, app: Seq<char>, flash_ver: Seq<char>, tc_url: Seq<char>)
    requires
        server_connect_handled(s, t, app, flash_ver, tc_url),
    ensures
        t.state == RtmpConnectionState::Connected,
        ({
            let control = RtmpMessageHeader { stream_id: RtmpMessageStreamId(0), timestamp: RtmpTimestamp(0) };
            let ack = s.options.ack_window_size;
            t.channel.out == send_command(
                send_message(
                    send_message(
                        send_message(
                            send_message(s.channel.out, RtmpMessage::WinAckSize { header: control, size: ack }),
                            RtmpMessage::SetChunkSize { header: control, size: s.options.chunk_size },
                        ),
                        RtmpMessage::SetPeerBandwidth {
                            header: control,
                            size: ack,
                            limit_type: crate::rtmp_message::SetPeerBandwidthLimitType::Dynamic,
                        },
                    ),
                    RtmpMessage::UserControl {
                        header: control,
                        event: RtmpUserControlEvent::StreamBegin { stream_id: RtmpMessageStreamId(0) },
                    },
                ),
                control,
                (
                    "_result"@,
                    1i64,
                    amf0_object_model(
                        seq![
                            ("fmsVer"@, str0("FMS/4,5,0,297"@)),
                            ("capabilities"@, Amf0Model::Number(nat_to_bits(255))),
                            ("mode"@, Amf0Model::Number(nat_to_bits(1))),
                        ],
                    ),
                    seq![
                        amf0_object_model(
                            seq![
                                ("level"@, str0("status"@)),
                                ("code"@, str0("NetConnection.Connect.Success"@)),
                                ("description"@, str0("Connection succeeded."@)),
                                ("objectEncoding"@, Amf0Model::Number(nat_to_bits(0))),
                            ],
                        ),
                    ],
                ),
            )
        }),
        t.channel.local_ack_window_size == s.options.ack_window_size,
{
}

} // verus!
