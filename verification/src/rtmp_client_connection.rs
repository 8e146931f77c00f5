use std::collections::VecDeque;

use vstd::prelude::*;

use crate::amf::{amf0_object_model, amf_encodable, AmfModel};
use crate::amf0::Amf0Model;
use crate::error::{Error, ErrorKind};
use crate::float64::{int_to_bits, Float64};
use crate::media::{AudioFrame, VideoFrame};
use crate::rtmp_command::{
    command_message_parts, command_name, contains_ignoring_case, is_command_message, null0, opt_str_member,
    opt_view, str0, str_member, RtmpCommand, RtmpCommandModel, RtmpConnectCommand, RtmpCreateStreamCommand,
    RtmpOnStatusCommand, RtmpPlayCommand, RtmpPublishCommand, RtmpResultCommand, TransactionId,
};
use crate::rtmp_connection::{
    ack_message, acks_keep_up, channel_advanced, channel_fed, command_debug_text, lemma_command_encodable,
    message_debug_text, user_control_event_debug_text,
    lemma_send_command, one_more_event, ping_response_message, send_command, send_message,
    set_chunk_size_message, set_peer_bandwidth_message, win_ack_size_message, ChannelModel, OutState,
    RtmpConnectionEvent, RtmpConnectionOptions, RtmpConnectionState, RtmpMessageChannel,
};
use crate::rtmp_handshake::{after_feed, client_step, phase1_packet, HandshakeState, Phase, RtmpClientHandshake};
use crate::rtmp_message::{RtmpMessage, RtmpMessageHeader, RtmpMessageStreamId};
use crate::rtmp_message_decoder::result_kind;
use crate::rtmp_timestamp::RtmpTimestamp;
use crate::rtmp_user_control_event::RtmpUserControlEvent;
use crate::text::{find, find_first, slice_chars, str_chars, string_from_chars};

verus! {

/// The Flash version string the client announces.
pub open spec fn flash_ver() -> Seq<char> {
    "FMLE/3.0 (compatible; FME/3.0)"@
}

/// The state of a client connection.
pub struct ClientModel {
    pub options: RtmpConnectionOptions,
    pub state: RtmpConnectionState,
    /// Events not yet taken.
    pub events: Seq<RtmpConnectionEvent>,
    pub handshake: HandshakeState,
    pub channel: ChannelModel,
    /// The transaction ID of the next command this side sends.
    pub next_transaction_id: i64,
    /// The URL to connect to.
    pub tc_url: Seq<char>,
    /// The stream to publish or play.
    pub stream_name: Seq<char>,
}

/// The application name in a URL of the form `PROTOCOL://HOST[:PORT]/APP[/INSTANCE]`:
/// the path up to its first `/`. A URL without `://` is invalid input; one without a
/// path is invalid data.
pub open spec fn app_name_of(tc_url: Seq<char>) -> Result<Seq<char>, ErrorKind> {
    match find_first(tc_url, seq![':', '/', '/']) {
        None => Err(ErrorKind::InvalidInput),
        Some(i) => {
            let after = tc_url.skip(i + 3);
            match find_first(after, seq!['/']) {
                None => Err(ErrorKind::InvalidData),
                Some(j) => {
                    let path = after.skip(j + 1);
                    match find_first(path, seq!['/']) {
                        None => Ok(path),
                        Some(k) => Ok(path.take(k)),
                    }
                },
            }
        },
    }
}

/// `s` after moving to `state`, announced by an event (nothing else done yet).
pub open spec fn client_entered(s: ClientModel, state: RtmpConnectionState) -> ClientModel {
    ClientModel { state, events: s.events.push(RtmpConnectionEvent::StateChanged(state)), ..s }
}

/// `s` with the sending side of its channel replaced.
pub open spec fn client_sending(s: ClientModel, out: OutState) -> ClientModel {
    ClientModel { channel: ChannelModel { out, ..s.channel }, ..s }
}

/// `t` is `s` with one more event at the end.
pub open spec fn client_with_event(s: ClientModel, t: ClientModel) -> bool {
    one_more_event(s.events, t.events) && t == ClientModel { events: t.events, ..s }
}

/// What connecting does: window size, peer bandwidth and chunk size are sent, then the
/// `connect` command, which needs the application name from the URL.
pub open spec fn client_connect(s: ClientModel, t: ClientModel, r: Result<(), ErrorKind>) -> bool {
    let ack = s.options.ack_window_size;
    let s1 = ClientModel {
        channel: ChannelModel {
            out: send_message(
                send_message(send_message(s.channel.out, win_ack_size_message(ack)), set_peer_bandwidth_message(ack)),
                set_chunk_size_message(s.options.chunk_size),
            ),
            local_ack_window_size: ack,
            ..s.channel
        },
        ..s
    };
    match app_name_of(s.tc_url) {
        Err(e) => r == Err::<(), ErrorKind>(e) && t == s1,
        Ok(app) => r is Ok && t == client_sending(
            s1,
            send_command(
                s1.channel.out,
                RtmpMessageHeader::spec_pcm(),
                command_message_parts(
                    RtmpCommandModel::Connect { app, flash_ver: flash_ver(), tc_url: s.tc_url },
                ).unwrap(),
            ),
        ),
    }
}

/// What asking for a media stream does: only when connected; `createStream` is sent with
/// the next transaction ID, which then moves on.
pub open spec fn client_create_stream(s: ClientModel, t: ClientModel, r: Result<(), ErrorKind>) -> bool {
    if s.state != RtmpConnectionState::Connected {
        r == Err::<(), ErrorKind>(ErrorKind::InvalidState) && t == s
    } else {
        r is Ok && t == ClientModel {
            next_transaction_id: (s.next_transaction_id + 1) as i64,
            ..client_sending(
                s,
                send_command(
                    s.channel.out,
                    RtmpMessageHeader::spec_pcm(),
                    command_message_parts(
                        RtmpCommandModel::CreateStream { transaction_id: s.next_transaction_id },
                    ).unwrap(),
                ),
            )
        }
    }
}

/// What moving to `state` does: the change is announced; connecting then connects, and
/// being connected asks for a media stream.
pub open spec fn client_state_changed(
    s: ClientModel,
    t: ClientModel,
    state: RtmpConnectionState,
    r: Result<(), ErrorKind>,
) -> bool {
    let s1 = client_entered(s, state);
    if state == RtmpConnectionState::Connecting {
        client_connect(s1, t, r)
    } else if state == RtmpConnectionState::Connected {
        client_create_stream(s1, t, r)
    } else {
        r is Ok && t == s1
    }
}

/// The description of an error answer: its properties' string `description`, or
/// `Unknown error`.
pub open spec fn error_description(properties: AmfModel) -> Seq<char> {
    match str_member(properties, "description"@) {
        Some(d) => d,
        None => "Unknown error"@,
    }
}

/// An answer's properties say it is an error.
pub open spec fn result_is_error(properties: AmfModel) -> bool {
    match str_member(properties, "code"@) {
        Some(code) => contains_ignoring_case(code, "error"@),
        None => false,
    }
}

/// `t` is `s` after the peer is taken to have ended the connection for `reason`: the
/// event, then the disconnecting state.
pub open spec fn client_disconnected(s: ClientModel, t: ClientModel, reason: Seq<char>) -> bool {
    &&& t.events.len() == s.events.len() + 2
    &&& t.events.take(s.events.len() as int) == s.events
    &&& t.events[s.events.len() as int] matches RtmpConnectionEvent::DisconnectedByPeer { reason: x } && x@ == reason
    &&& t.events.last() == RtmpConnectionEvent::StateChanged(RtmpConnectionState::Disconnecting)
    &&& t == ClientModel { events: t.events, state: RtmpConnectionState::Disconnecting, ..s }
}

/// `t` is `s` after the command `c` was ignored.
pub open spec fn client_ignored(s: ClientModel, t: ClientModel, c: RtmpCommandModel) -> bool {
    client_with_event(s, t) && (t.events.last() matches RtmpConnectionEvent::CommandIgnored { name, detail }
        && name@ == command_name(c) && detail@ == command_debug_text(c))
}

/// What handling the command `c` does to a client in state `s`.
pub open spec fn client_command_handled(
    s: ClientModel,
    t: ClientModel,
    c: RtmpCommandModel,
    r: Result<(), ErrorKind>,
) -> bool {
    match c {
        RtmpCommandModel::Result { transaction_id, properties, .. } => if result_is_error(properties) {
            r is Ok && client_disconnected(s, t, "Command response error: "@ + error_description(properties))
        } else if transaction_id == 1 {
            if s.state != RtmpConnectionState::Connecting {
                r == Err::<(), ErrorKind>(ErrorKind::InvalidState) && t == s
            } else {
                client_state_changed(s, t, RtmpConnectionState::Connected, r)
            }
        } else if transaction_id == 2 {
            if s.state != RtmpConnectionState::Connected {
                r == Err::<(), ErrorKind>(ErrorKind::InvalidState) && t == s
            } else {
                r is Ok && t == client_entered(s, RtmpConnectionState::MediaStreamCreated)
            }
        } else {
            r is Ok && client_ignored(s, t, c)
        },
        RtmpCommandModel::OnStatus { level, code, description, .. } => if code == "NetStream.Publish.Start"@
            && s.state == RtmpConnectionState::PublishPending {
            r is Ok && t == client_entered(s, RtmpConnectionState::Publishing)
        } else if code == "NetStream.Play.Start"@ && s.state == RtmpConnectionState::PlayPending {
            r is Ok && t == client_entered(s, RtmpConnectionState::Playing)
        } else if level == "error"@ {
            r is Ok && client_disconnected(
                s,
                t,
                "OnStatus error: "@ + code + " - "@ + match description {
                    Some(d) => d,
                    None => Seq::empty(),
                },
            )
        } else {
            r is Ok && client_ignored(s, t, c)
        },
        _ => r is Ok && client_ignored(s, t, c),
    }
}

/// What handling the received message `m` does to a client in state `s`.
pub open spec fn client_message_handled(
    s: ClientModel,
    t: ClientModel,
    m: RtmpMessage,
    r: Result<(), ErrorKind>,
) -> bool {
    match m {
        RtmpMessage::Command { name, transaction_id, object, args, .. } => match crate::rtmp_command::command_from_message(
            name@,
            transaction_id.0,
            object@,
            crate::rtmp_message::amf_values_view(args@),
        ) {
            Err(e) => r == Err::<(), ErrorKind>(e) && t == s,
            Ok(c) => client_command_handled(s, t, c, r),
        },
        RtmpMessage::Audio { frame, .. } => r is Ok && t == ClientModel {
            events: s.events.push(RtmpConnectionEvent::AudioReceived(frame)),
            ..s
        },
        RtmpMessage::Video { frame, .. } => r is Ok && t == ClientModel {
            events: s.events.push(RtmpConnectionEvent::VideoReceived(frame)),
            ..s
        },
        RtmpMessage::WinAckSize { size, .. } => r is Ok && t == ClientModel {
            channel: ChannelModel { peer_ack_window_size: size, ..s.channel },
            ..s
        },
        RtmpMessage::Ack { sequence_number, .. } => r is Ok && t == ClientModel {
            channel: ChannelModel { last_ack_received: sequence_number, ..s.channel },
            ..s
        },
        RtmpMessage::SetPeerBandwidth { size, .. } => r is Ok && t == ClientModel {
            channel: ChannelModel {
                out: send_message(s.channel.out, win_ack_size_message(s.options.ack_window_size)),
                local_ack_window_size: size,
                ..s.channel
            },
            ..s
        },
        RtmpMessage::UserControl { event, .. } => match event {
            RtmpUserControlEvent::PingRequest { timestamp } => r is Ok && t == client_sending(
                s,
                send_message(s.channel.out, ping_response_message(timestamp)),
            ),
            _ => r is Ok && client_with_event(s, t) && (t.events.last() matches RtmpConnectionEvent::UserControlEventIgnored {
                name,
                detail,
            } && name@ == event.spec_name() && detail@ == user_control_event_debug_text(event)),
        },
        RtmpMessage::SetChunkSize { .. } => r is Ok && t == s,
        _ => r is Ok && client_with_event(s, t) && (t.events.last() matches RtmpConnectionEvent::MessageIgnored {
            name,
            detail,
        } && name@ == m.spec_message_type().spec_debug_name() && detail@ == message_debug_text(m)),
    }
}

/// `s` with its first received message taken off the queue.
pub open spec fn client_popped(s: ClientModel) -> ClientModel {
    ClientModel { channel: ChannelModel { received: s.channel.received.drop_first(), ..s.channel }, ..s }
}

/// Taking the next received message of `s` and handling it gives `t` and `r`.
pub open spec fn client_next_handled(s: ClientModel, t: ClientModel, r: Result<(), ErrorKind>) -> bool {
    s.channel.received.len() > 0 && client_message_handled(client_popped(s), t, s.channel.received[0], r)
}

/// Step `i` of a handling path.
pub open spec fn client_path_step(models: Seq<ClientModel>, i: int) -> bool {
    client_next_handled(models[i], models[i + 1], Ok(()))
}

/// States of a client, each handling its next message without error and giving the next.
pub open spec fn client_handled_path(models: Seq<ClientModel>) -> bool {
    &&& models.len() >= 1
    &&& forall|i: int| 0 <= i < models.len() - 1 ==> #[trigger] client_path_step(models, i)
}

/// Handling the received messages of `s` one by one gives `t` and `r`.
pub open spec fn client_drained(s: ClientModel, t: ClientModel, r: Result<(), ErrorKind>) -> bool {
    exists|models: Seq<ClientModel>|
        #[trigger] client_handled_path(models) && models[0] == s && match r {
            Ok(()) => models.last().channel.received.len() == 0 && t == models.last(),
            Err(e) => client_next_handled(models.last(), t, Err(e)),
        }
}

/// `s` with the channel `c` that decoding gave, and the acknowledgement, if one came
/// due, queued for sending.
pub open spec fn client_acked(s: ClientModel, c: ChannelModel, ack: Option<u32>) -> ClientModel {
    match ack {
        None => ClientModel { channel: c, ..s },
        Some(n) => ClientModel { channel: ChannelModel { out: send_message(c.out, ack_message(n)), ..c }, ..s },
    }
}

/// What receiving `buf` does to a client in state `s`. While handshaking the bytes go
/// to the handshake; once it is received completely, the client connects and the bytes
/// after it are fed to the channel (the messages they complete wait for the next bytes).
/// Otherwise the bytes are fed to the channel, an acknowledgement that comes due is
/// queued, and the received messages are handled.
pub open spec fn client_fed(s: ClientModel, t: ClientModel, buf: Seq<u8>, r: Result<(), ErrorKind>) -> bool {
    if s.state == RtmpConnectionState::Handshaking {
        let step = client_step(s.handshake.phase, s.handshake.recv + buf);
        let h = after_feed(s.handshake, step);
        let s1 = ClientModel { handshake: h, ..s };
        if !step.ok {
            r == Err::<(), ErrorKind>(ErrorKind::InvalidData) && t == s1
        } else if step.phase != Phase::Complete {
            r is Ok && t == s1
        } else {
            exists|s2: ClientModel, r2: Result<(), ErrorKind>|
                #[trigger] client_state_changed(s1, s2, RtmpConnectionState::Connecting, r2) && match r2 {
                    Err(e) => r == Err::<(), ErrorKind>(e) && t == s2,
                    Ok(()) => exists|c: ChannelModel, rc: Result<Option<u32>, ErrorKind>|
                        #[trigger] channel_fed(s2.channel, c, h.recv, rc) && t == ClientModel {
                            handshake: HandshakeState { recv: Seq::empty(), ..h },
                            channel: c,
                            ..s2
                        } && match rc {
                            Err(e) => r == Err::<(), ErrorKind>(e),
                            Ok(_) => r is Ok,
                        },
                }
        }
    } else {
        exists|c: ChannelModel, rc: Result<Option<u32>, ErrorKind>|
            #[trigger] channel_fed(s.channel, c, buf, rc) && match rc {
                Err(e) => r == Err::<(), ErrorKind>(e) && t == ClientModel { channel: c, ..s },
                Ok(ack) => client_drained(client_acked(s, c, ack), t, r),
            }
    }
}

/// The transaction ID kept in step with the state: 2 until connected, at most 3 until a
/// stream request is sent, at most 4 after.
pub open spec fn transaction_id_in_step(state: RtmpConnectionState, next: i64) -> bool {
    &&& 2 <= next <= 4
    &&& (state == RtmpConnectionState::Handshaking || state == RtmpConnectionState::Connecting) ==> next == 2
    &&& (state == RtmpConnectionState::Connected || state == RtmpConnectionState::MediaStreamCreated) ==> next <= 3
}

/// The state of a new client connection for `tc_url` and `stream_name`.
pub open spec fn client_initial(s: ClientModel, tc_url: Seq<char>, stream_name: Seq<char>) -> bool {
    &&& s.options.chunk_size.value() == 4096
    &&& s.options.ack_window_size == 5_000_000
    &&& s.state == RtmpConnectionState::Handshaking
    &&& s.events == seq![RtmpConnectionEvent::StateChanged(RtmpConnectionState::Handshaking)]
    &&& s.handshake == (HandshakeState { phase: Phase::P0, recv: Seq::empty(), send: seq![3u8] + phase1_packet() })
    &&& s.channel.received == Seq::<RtmpMessage>::empty()
    &&& s.channel.out.bytes == Seq::<u8>::empty()
    &&& s.next_transaction_id == 2
    &&& s.tc_url == tc_url
    &&& s.stream_name == stream_name
}

/// What a client in `s` that handled received bytes does next: once the media stream is
/// created, it sends its request (publish or play).
pub open spec fn client_requested(s: ClientModel, t: ClientModel, publish: bool, r: Result<(), ErrorKind>) -> bool {
    if s.state == RtmpConnectionState::MediaStreamCreated {
        let pending = if publish {
            RtmpConnectionState::PublishPending
        } else {
            RtmpConnectionState::PlayPending
        };
        let s1 = client_entered(s, pending);
        let command = if publish {
            RtmpCommandModel::Publish { transaction_id: s.next_transaction_id, stream_name: s.stream_name }
        } else {
            RtmpCommandModel::Play {
                transaction_id: s.next_transaction_id,
                stream_name: s.stream_name,
                start: int_to_bits(-1),
            }
        };
        r is Ok && t == ClientModel {
            next_transaction_id: (s.next_transaction_id + 1) as i64,
            ..client_sending(
                s1,
                send_command(
                    s1.channel.out,
                    crate::rtmp_command::stream_header(RtmpMessageStreamId(1)),
                    command_message_parts(command).unwrap(),
                ),
            )
        }
    } else {
        r is Ok && t == s
    }
}

/// What the publish or play client does with received bytes.
pub open spec fn client_feed_and_request(s: ClientModel, t: ClientModel, buf: Seq<u8>, publish: bool, r: Result<(), ErrorKind>) -> bool {
    exists|mid: ClientModel, r1: Result<(), ErrorKind>|
        #[trigger] client_fed(s, mid, buf, r1) && match r1 {
            Err(e) => r == Err::<(), ErrorKind>(e) && t == mid,
            Ok(()) => client_requested(mid, t, publish, r),
        }
}

/// What marking `n` bytes as sent does to a client: from the handshake until all of it is
/// sent, then from the channel; when the peer's acknowledgements do not keep up, the peer
/// is taken to have gone.
pub open spec fn client_advanced(s: ClientModel, t: ClientModel, n: nat) -> bool {
    if !(s.handshake.phase == Phase::Complete && s.handshake.send.len() == 0) {
        t == ClientModel {
            handshake: HandshakeState {
                send: s.handshake.send.skip(
                    if n < s.handshake.send.len() {
                        n as int
                    } else {
                        s.handshake.send.len() as int
                    },
                ),
                ..s.handshake
            },
            ..s
        }
    } else {
        let c = channel_advanced(s.channel, n);
        if acks_keep_up(c) {
            t == ClientModel { channel: c, ..s }
        } else {
            client_disconnected(
                ClientModel { channel: c, ..s },
                t,
                "ACK not received within expected interval"@,
            )
        }
    }
}

/// The parts shared by the publish and play clients.
#[derive(Debug)]
struct RtmpClientConnection {
    options: RtmpConnectionOptions,
    state: RtmpConnectionState,
    event_queue: VecDeque<RtmpConnectionEvent>,
    handshake: RtmpClientHandshake,
    message_channel: RtmpMessageChannel,
    next_transaction_id: TransactionId,
    tc_url: String,
    stream_name: String,
}

impl View for RtmpClientConnection {
    type V = ClientModel;

    closed spec fn view(&self) -> ClientModel {
        ClientModel {
            options: self.options,
            state: self.state,
            events: self.event_queue@,
            handshake: self.handshake@,
            channel: self.message_channel@,
            next_transaction_id: self.next_transaction_id.0,
            tc_url: self.tc_url@,
            stream_name: self.stream_name@,
        }
    }
}

impl RtmpClientConnection {
    closed spec fn wf(&self) -> bool {
        &&& self.handshake.wf()
        &&& self.message_channel.wf()
        &&& transaction_id_in_step(self.state, self.next_transaction_id.0)
    }

    fn new(tc_url: &str, stream_name: &str) -> (r: Self)
        ensures
            r.wf(),
            client_initial(r@, tc_url@, stream_name@),
    {
        let initial_state = RtmpConnectionState::Handshaking;
        let mut event_queue: VecDeque<RtmpConnectionEvent> = VecDeque::new();
        event_queue.push_back(RtmpConnectionEvent::StateChanged(initial_state));
        let r = RtmpClientConnection {
            options: RtmpConnectionOptions::default(),
            state: initial_state,
            event_queue,
            handshake: RtmpClientHandshake::new(),
            message_channel: RtmpMessageChannel::default(),
            next_transaction_id: TransactionId::non_reserved_start(),
            tc_url: tc_url.to_owned(),
            stream_name: stream_name.to_owned(),
        };
        assert(r@.events =~= seq![RtmpConnectionEvent::StateChanged(RtmpConnectionState::Handshaking)]);
        r
    }

    fn push_event(&mut self, event: RtmpConnectionEvent)
        ensures
            final(self).wf() == old(self).wf(),
            final(self)@ == (ClientModel { events: old(self)@.events.push(event), ..old(self)@ }),
    {
        self.event_queue.push_back(event);
    }

    fn send_command(
        &mut self,
        m: RtmpMessage,
        Ghost(header): Ghost<RtmpMessageHeader>,
        Ghost(parts): Ghost<(Seq<char>, i64, AmfModel, Seq<AmfModel>)>,
    )
        requires
            old(self).wf(),
            is_command_message(m, header, parts),
            amf_encodable(parts.2),
            forall|i: int| 0 <= i < parts.3.len() ==> amf_encodable(#[trigger] parts.3[i]),
        ensures
            final(self).wf(),
            final(self)@ == client_sending(old(self)@, send_command(old(self)@.channel.out, header, parts)),
    {
        proof {
            lemma_command_encodable(m, header, parts);
            lemma_send_command(self@.channel.out, m, header, parts);
        }
        self.message_channel.feed_send_message(m);
    }

    fn send_message(&mut self, m: RtmpMessage)
        requires
            old(self).wf(),
            !(m is Command) && !(m is Data),
        ensures
            final(self).wf(),
            final(self)@ == client_sending(old(self)@, send_message(old(self)@.channel.out, m)),
    {
        self.message_channel.feed_send_message(m);
    }

    fn change_state(&mut self, new_state: RtmpConnectionState) -> (r: Result<(), Error>)
        requires
            old(self).wf(),
            transaction_id_in_step(new_state, old(self)@.next_transaction_id),
            new_state == RtmpConnectionState::Connected ==> old(self)@.next_transaction_id == 2,
        ensures
            final(self).wf(),
            client_state_changed(old(self)@, final(self)@, new_state, result_kind(r)),
    {
        self.state = new_state;
        self.event_queue.push_back(RtmpConnectionEvent::StateChanged(new_state));
        match new_state {
            RtmpConnectionState::Connecting => self.connect(),
            RtmpConnectionState::Connected => self.create_stream(),
            _ => Ok(()),
        }
    }

    fn connect(&mut self) -> (r: Result<(), Error>)
        requires
            old(self).wf(),
        ensures
            final(self).wf(),
            client_connect(old(self)@, final(self)@, result_kind(r)),
    {
        self.send_message(RtmpMessage::win_ack_size(self.options.ack_window_size));
        self.message_channel.set_local_ack_window_size(self.options.ack_window_size);
        self.send_message(RtmpMessage::set_peer_bandwidth(self.options.ack_window_size));
        self.send_message(RtmpMessage::set_chunk_size(self.options.chunk_size));
        let app = match self.parse_app_name() {
            Ok(a) => a,
            Err(e) => return Err(e),
        };
        proof {
            reveal_strlit("FMLE/3.0 (compatible; FME/3.0)");
        }
        let command = RtmpCommand::Connect(
            RtmpConnectCommand {
                app,
                flash_ver: "FMLE/3.0 (compatible; FME/3.0)".to_owned(),
                tc_url: self.tc_url.clone(),
            },
        );
        let ghost parts = command_message_parts(command@).unwrap();
        let message = match command.into_pcm_message() {
            Ok(m) => m,
            Err(e) => return Err(e),
        };
        proof {
            let p = parts.2->Amf0_0->Object_entries;
            assert forall|i: int| 0 <= i < p.len() implies crate::amf0::amf0_encodable(#[trigger] p[i].1) by {}
        }
        self.send_command(message, Ghost(RtmpMessageHeader::spec_pcm()), Ghost(parts));
        Ok(())
    }

    fn create_stream(&mut self) -> (r: Result<(), Error>)
        requires
            old(self).wf(),
            old(self)@.state == RtmpConnectionState::Connected ==> old(self)@.next_transaction_id == 2,
        ensures
            final(self).wf(),
            client_create_stream(old(self)@, final(self)@, result_kind(r)),
    {
        match self.state.expect(RtmpConnectionState::Connected) {
            Ok(()) => {},
            Err(e) => return Err(e),
        }
        let command = RtmpCommand::CreateStream(RtmpCreateStreamCommand { transaction_id: self.next_transaction_id });
        let ghost parts = command_message_parts(command@).unwrap();
        let message = match command.into_pcm_message() {
            Ok(m) => m,
            Err(e) => return Err(e),
        };
        self.send_command(message, Ghost(RtmpMessageHeader::spec_pcm()), Ghost(parts));
        self.next_transaction_id.increment();
        Ok(())
    }

    /// The application name in the URL.
    fn parse_app_name(&self) -> (r: Result<String, Error>)
        ensures
            match app_name_of(self@.tc_url) {
                Ok(app) => r matches Ok(x) && x@ == app,
                Err(e) => r matches Err(x) && x.kind == e,
            },
    {
        let url = str_chars(self.tc_url.as_str());
        let mut separator: Vec<char> = Vec::new();
        separator.push(':');
        separator.push('/');
        separator.push('/');
        assert(separator@ =~= seq![':', '/', '/']);
        let mut slash: Vec<char> = Vec::new();
        slash.push('/');
        assert(slash@ =~= seq!['/']);
        let i = match find(&url, &separator) {
            Some(i) => i,
            None => return Err(Error::invalid_input("tc_url must start with 'PROTOCOL://'")),
        };
        let n = url.len();
        let after = slice_chars(&url, i + 3, n);
        assert(url@.subrange(i + 3, url@.len() as int) =~= url@.skip(i + 3));
        let j = match find(&after, &slash) {
            Some(j) => j,
            None => return Err(Error::invalid_data("tc_url must contain a path component")),
        };
        let m = after.len();
        let path = slice_chars(&after, j + 1, m);
        assert(after@.subrange(j + 1, after@.len() as int) =~= after@.skip(j + 1));
        let app = match find(&path, &slash) {
            Some(k) => {
                let a = slice_chars(&path, 0, k);
                assert(a@ =~= path@.take(k as int));
                a
            },
            None => path,
        };
        Ok(string_from_chars(app.as_slice()))
    }

    fn feed_recv_buf(&mut self, buf: &[u8]) -> (r: Result<(), Error>)
        requires
            old(self).wf(),
        ensures
            final(self).wf(),
            client_fed(old(self)@, final(self)@, buf@, result_kind(r)),
    {
        if self.state == RtmpConnectionState::Handshaking {
            match self.handshake.feed_recv_buf(buf) {
                Ok(()) => {},
                Err(e) => return Err(e),
            }
            if self.handshake.is_recv_complete() {
                let ghost s1 = self@;
                let r2 = self.change_state(RtmpConnectionState::Connecting);
                let ghost s2 = self@;
                match r2 {
                    Ok(()) => {},
                    Err(e) => {
                        assert(client_state_changed(s1, s2, RtmpConnectionState::Connecting, result_kind(r2)));
                        return Err(e);
                    },
                }
                let remaining = self.handshake.take_recv_buf();
                let fed = self.message_channel.feed_recv_buf(remaining.as_slice());
                assert(client_state_changed(s1, s2, RtmpConnectionState::Connecting, result_kind(r2)));
                assert(channel_fed(s2.channel, self@.channel, remaining@, result_kind(fed)));
                match fed {
                    Ok(_) => Ok(()),
                    Err(e) => Err(e),
                }
            } else {
                Ok(())
            }
        } else {
            let ghost s = self@;
            let fed = self.message_channel.feed_recv_buf(buf);
            let ghost c = self.message_channel@;
            match fed {
                Err(e) => {
                    assert(channel_fed(s.channel, c, buf@, result_kind(fed)));
                    return Err(e);
                },
                Ok(ack) => {
                    if let Some(total_bytes_received) = ack {
                        self.send_message(RtmpMessage::ack(total_bytes_received));
                    }
                    assert(self@ == client_acked(s, c, ack));
                    let r = self.handle_received_messages();
                    assert(channel_fed(s.channel, c, buf@, result_kind(fed)));
                    r
                },
            }
        }
    }

    fn handle_received_messages(&mut self) -> (r: Result<(), Error>)
        requires
            old(self).wf(),
        ensures
            final(self).wf(),
            client_drained(old(self)@, final(self)@, result_kind(r)),
    {
        let ghost mut models: Seq<ClientModel> = seq![self@];
        loop
            invariant
                self.wf(),
                client_handled_path(models),
                models[0] == old(self)@,
                models.last() == self@,
            decreases self@.channel.received.len(),
        {
            let ghost before = self@;
            match self.message_channel.next_recv_message() {
                None => {
                    assert(client_handled_path(models));
                    return Ok(());
                },
                Some(message) => {
                    proof {
                        assert(self@ == client_popped(before));
                    }
                    let r = self.handle_recv_message(message);
                    match r {
                        Ok(()) => {
                            proof {
                                let new_models = models.push(self@);
                                assert forall|i: int| 0 <= i < new_models.len() - 1 implies #[trigger] client_path_step(
                                    new_models,
                                    i,
                                ) by {
                                    if i < models.len() - 1 {
                                        assert(client_path_step(models, i));
                                    }
                                }
                                models = new_models;
                            }
                        },
                        Err(e) => {
                            assert(client_handled_path(models));
                            return Err(e);
                        },
                    }
                },
            }
        }
    }

    fn handle_recv_message(&mut self, message: RtmpMessage) -> (r: Result<(), Error>)
        requires
            old(self).wf(),
        ensures
            final(self).wf(),
            client_message_handled(old(self)@, final(self)@, message, result_kind(r)),
    {
        match message {
            RtmpMessage::Command { header, name, transaction_id, object, args, .. } => {
                let command = match RtmpCommand::from_message(name.as_str(), transaction_id, object, args) {
                    Ok(c) => c,
                    Err(e) => return Err(e),
                };
                self.handle_command(header, command)
            },
            RtmpMessage::Audio { frame, .. } => {
                self.push_event(RtmpConnectionEvent::AudioReceived(frame));
                Ok(())
            },
            RtmpMessage::Video { frame, .. } => {
                self.push_event(RtmpConnectionEvent::VideoReceived(frame));
                Ok(())
            },
            RtmpMessage::WinAckSize { size, .. } => {
                self.message_channel.set_peer_ack_window_size(size);
                Ok(())
            },
            RtmpMessage::Ack { sequence_number, .. } => {
                self.message_channel.notify_ack_received(sequence_number);
                Ok(())
            },
            RtmpMessage::SetPeerBandwidth { size, .. } => {
                self.send_message(RtmpMessage::win_ack_size(self.options.ack_window_size));
                self.message_channel.set_local_ack_window_size(size);
                Ok(())
            },
            RtmpMessage::UserControl { event, .. } => {
                match event {
                    RtmpUserControlEvent::PingRequest { timestamp } => {
                        let response = RtmpMessage::UserControl {
                            header: RtmpMessageHeader::pcm(),
                            event: RtmpUserControlEvent::PingResponse { timestamp },
                        };
                        self.send_message(response);
                    },
                    _ => {
                        self.push_event(RtmpConnectionEvent::user_control_event_ignored(&event));
                    },
                }
                Ok(())
            },
            RtmpMessage::SetChunkSize { .. } => Ok(()),
            message => {
                self.push_event(RtmpConnectionEvent::message_ignored(&message));
                Ok(())
            },
        }
    }

    fn handle_command(&mut self, _header: RtmpMessageHeader, command: RtmpCommand) -> (r: Result<(), Error>)
        requires
            old(self).wf(),
        ensures
            final(self).wf(),
            client_command_handled(old(self)@, final(self)@, command@, result_kind(r)),
    {
        match command {
            RtmpCommand::Result(result) => self.handle_result_command(result),
            RtmpCommand::OnStatus(status) => self.handle_on_status_command(status),
            command => {
                self.push_event(RtmpConnectionEvent::command_ignored(&command));
                Ok(())
            },
        }
    }

    /// Reports that the peer ended the connection for `reason`.
    fn disconnected_by_peer(&mut self, reason: String)
        requires
            old(self).wf(),
        ensures
            final(self).wf(),
            client_disconnected(old(self)@, final(self)@, reason@),
    {
        self.push_event(RtmpConnectionEvent::DisconnectedByPeer { reason });
        self.state = RtmpConnectionState::Disconnecting;
        self.event_queue.push_back(RtmpConnectionEvent::StateChanged(RtmpConnectionState::Disconnecting));
        assert(self@.events.take(old(self)@.events.len() as int) =~= old(self)@.events);
    }

    fn handle_result_command(&mut self, command: RtmpResultCommand) -> (r: Result<(), Error>)
        requires
            old(self).wf(),
        ensures
            final(self).wf(),
            client_command_handled(old(self)@, final(self)@, RtmpCommand::Result(command)@, result_kind(r)),
    {
        if command.is_error() {
            let description = self.extract_error_description(&command);
            let mut reason = str_chars("Command response error: ");
            let mut d = str_chars(description.as_str());
            reason.append(&mut d);
            let reason = string_from_chars(reason.as_slice());
            proof {
                reveal_strlit("Command response error: ");
            }
            self.disconnected_by_peer(reason);
            return Ok(());
        }
        if command.transaction_id.get() == 1 {
            match self.state.expect(RtmpConnectionState::Connecting) {
                Ok(()) => {},
                Err(e) => return Err(e),
            }
            self.change_state(RtmpConnectionState::Connected)
        } else if command.transaction_id.get() == 2 {
            match self.state.expect(RtmpConnectionState::Connected) {
                Ok(()) => {},
                Err(e) => return Err(e),
            }
            self.change_state(RtmpConnectionState::MediaStreamCreated)
        } else {
            self.push_event(RtmpConnectionEvent::command_ignored(&RtmpCommand::Result(command)));
            Ok(())
        }
    }

    fn handle_on_status_command(&mut self, command: RtmpOnStatusCommand) -> (r: Result<(), Error>)
        requires
            old(self).wf(),
        ensures
            final(self).wf(),
            client_command_handled(old(self)@, final(self)@, RtmpCommand::OnStatus(command)@, result_kind(r)),
    {
        proof {
            reveal_strlit("error");
            reveal_strlit("OnStatus error: ");
            reveal_strlit(" - ");
        }
        if command.is_publish_start() && self.state == RtmpConnectionState::PublishPending {
            return self.change_state(RtmpConnectionState::Publishing);
        }
        if command.is_play_start() && self.state == RtmpConnectionState::PlayPending {
            return self.change_state(RtmpConnectionState::Playing);
        }
        if crate::bytes::str_eq(command.level.as_str(), "error") {
            let mut reason = str_chars("OnStatus error: ");
            let mut code = str_chars(command.code.as_str());
            reason.append(&mut code);
            let mut dash = str_chars(" - ");
            reason.append(&mut dash);
            match &command.description {
                Some(d) => {
                    let mut d = str_chars(d.as_str());
                    reason.append(&mut d);
                },
                None => {},
            }
            let reason = string_from_chars(reason.as_slice());
            self.disconnected_by_peer(reason);
            return Ok(());
        }
        self.push_event(RtmpConnectionEvent::command_ignored(&RtmpCommand::OnStatus(command)));
        Ok(())
    }

    /// The description of an error answer, or `Unknown error`.
    fn extract_error_description(&self, command: &RtmpResultCommand) -> (r: String)
        ensures
            r@ == error_description(command.properties@),
    {
        proof {
            reveal_strlit("Unknown error");
        }
        match opt_str_member(&command.properties, "description") {
            Some(d) => d,
            None => "Unknown error".to_owned(),
        }
    }

    fn send_buf(&self) -> (r: &[u8])
        requires
            self.wf(),
        ensures
            r@ == if !(self@.handshake.phase == Phase::Complete && self@.handshake.send.len() == 0) {
                self@.handshake.send
            } else {
                self@.channel.out.bytes
            },
    {
        if !self.handshake.is_send_complete() {
            self.handshake.send_buf()
        } else {
            self.message_channel.send_buf()
        }
    }

    fn advance_send_buf(&mut self, n: usize)
        requires
            old(self).wf(),
            old(self)@.handshake.phase == Phase::Complete && old(self)@.handshake.send.len() == 0 ==> n
                <= old(self)@.channel.out.bytes.len(),
        ensures
            final(self).wf(),
            client_advanced(old(self)@, final(self)@, n as nat),
    {
        if !self.handshake.is_send_complete() {
            self.handshake.advance_send_buf(n);
        } else if !self.message_channel.advance_send_buf(n) {
            proof {
                reveal_strlit("ACK not received within expected interval");
            }
            self.disconnected_by_peer("ACK not received within expected interval".to_owned());
        }
    }

    fn next_event(&mut self) -> (r: Option<RtmpConnectionEvent>)
        requires
            old(self).wf(),
        ensures
            final(self).wf(),
            old(self)@.events.len() == 0 ==> r is None && final(self)@ == old(self)@,
            old(self)@.events.len() > 0 ==> r == Some(old(self)@.events[0]) && final(self)@ == (ClientModel {
                events: old(self)@.events.drop_first(),
                ..old(self)@
            }),
    {
        let r = self.event_queue.pop_front();
        proof {
            if old(self)@.events.len() > 0 {
                assert(self@.events =~= old(self)@.events.drop_first());
            }
        }
        r
    }

    /// Sends the publish (`publish` true) or play request once the media stream is created.
    fn request(&mut self, publish: bool) -> (r: Result<(), Error>)
        requires
            old(self).wf(),
            old(self)@.state == RtmpConnectionState::MediaStreamCreated,
        ensures
            final(self).wf(),
            client_requested(old(self)@, final(self)@, publish, result_kind(r)),
    {
        let pending = if publish {
            RtmpConnectionState::PublishPending
        } else {
            RtmpConnectionState::PlayPending
        };
        match self.change_state(pending) {
            Ok(()) => {},
            Err(e) => return Err(e),
        }
        let command = if publish {
            RtmpCommand::Publish(
                RtmpPublishCommand { transaction_id: self.next_transaction_id, stream_name: self.stream_name.clone() },
            )
        } else {
            RtmpCommand::Play(
                RtmpPlayCommand {
                    transaction_id: self.next_transaction_id,
                    stream_name: self.stream_name.clone(),
                    start: Float64::from_i32(-1),
                },
            )
        };
        let ghost parts = command_message_parts(command@).unwrap();
        let header = RtmpMessageHeader { stream_id: RtmpMessageStreamId::media(), timestamp: RtmpTimestamp::zero() };
        let message = match command.into_message(header) {
            Ok(m) => m,
            Err(e) => return Err(e),
        };
        self.send_command(message, Ghost(header), Ghost(parts));
        self.next_transaction_id.increment();
        Ok(())
    }
}


/// A client connection that publishes a stream. It does no I/O: its user connects to
/// the server, feeds it the bytes received, sends the bytes it asks to send, and
/// handles its events.
#[derive(Debug)]
pub struct RtmpPublishClientConnection {
    inner: RtmpClientConnection,
}

impl View for RtmpPublishClientConnection {
    type V = ClientModel;

    closed spec fn view(&self) -> ClientModel {
        self.inner@
    }
}

impl RtmpPublishClientConnection {
    /// The internal invariant.
    pub closed spec fn wf(&self) -> bool {
        self.inner.wf()
    }

    /// A new connection to `tc_url` (such as `rtmp://localhost/app`) that publishes
    /// `stream_name`.
    pub fn new(tc_url: &str, stream_name: &str) -> (r: Self)
        ensures
            r.wf(),
            client_initial(r@, tc_url@, stream_name@),
    {
        RtmpPublishClientConnection { inner: RtmpClientConnection::new(tc_url, stream_name) }
    }

    /// Handles bytes received from the server; once the media stream is created, the
    /// publish request is sent.
    pub fn feed_recv_buf(&mut self, buf: &[u8]) -> (r: Result<(), Error>)
        requires
            old(self).wf(),
        ensures
            final(self).wf(),
            client_feed_and_request(old(self)@, final(self)@, buf@, true, result_kind(r)),
    {
        let r1 = self.inner.feed_recv_buf(buf);
        let ghost mid = self@;
        match r1 {
            Err(e) => {
                assert(client_fed(old(self)@, mid, buf@, result_kind(r1)));
                return Err(e);
            },
            Ok(()) => {},
        }
        let r = if self.inner.state == RtmpConnectionState::MediaStreamCreated {
            self.inner.request(true)
        } else {
            Ok(())
        };
        assert(client_fed(old(self)@, mid, buf@, result_kind(r1)));
        r
    }

    /// The bytes waiting to be sent to the server.
    pub fn send_buf(&self) -> (r: &[u8])
        requires
            self.wf(),
        ensures
            r@ == if !(self@.handshake.phase == Phase::Complete && self@.handshake.send.len() == 0) {
                self@.handshake.send
            } else {
                self@.channel.out.bytes
            },
    {
        self.inner.send_buf()
    }

    /// Marks `n` bytes as sent.
    pub fn advance_send_buf(&mut self, n: usize)
        requires
            old(self).wf(),
            old(self)@.handshake.phase == Phase::Complete && old(self)@.handshake.send.len() == 0 ==> n
                <= old(self)@.channel.out.bytes.len(),
        ensures
            final(self).wf(),
            client_advanced(old(self)@, final(self)@, n as nat),
    {
        self.inner.advance_send_buf(n)
    }

    /// Queues an audio frame, on the media stream at the frame's timestamp. Only while
    /// publishing; an invalid-state error otherwise.
    pub fn send_audio(&mut self, frame: AudioFrame) -> (r: Result<(), Error>)
        requires
            old(self).wf(),
        ensures
            final(self).wf(),
            old(self)@.state != RtmpConnectionState::Publishing ==> (r matches Err(e) && e.kind
                == ErrorKind::InvalidState && final(self)@ == old(self)@),
            old(self)@.state == RtmpConnectionState::Publishing ==> r is Ok && final(self)@ == client_sending(
                old(self)@,
                send_message(
                    old(self)@.channel.out,
                    RtmpMessage::Audio {
                        header: RtmpMessageHeader { stream_id: RtmpMessageStreamId(1), timestamp: frame.timestamp },
                        frame,
                    },
                ),
            ),
    {
        match self.inner.state.expect(RtmpConnectionState::Publishing) {
            Ok(()) => {},
            Err(e) => return Err(e),
        }
        let message = RtmpMessage::Audio {
            header: RtmpMessageHeader { stream_id: RtmpMessageStreamId::media(), timestamp: frame.timestamp },
            frame,
        };
        self.inner.send_message(message);
        Ok(())
    }

    /// Queues a video frame, on the media stream at the frame's timestamp. Only while
    /// publishing; an invalid-state error otherwise.
    pub fn send_video(&mut self, frame: VideoFrame) -> (r: Result<(), Error>)
        requires
            old(self).wf(),
        ensures
            final(self).wf(),
            old(self)@.state != RtmpConnectionState::Publishing ==> (r matches Err(e) && e.kind
                == ErrorKind::InvalidState && final(self)@ == old(self)@),
            old(self)@.state == RtmpConnectionState::Publishing ==> r is Ok && final(self)@ == client_sending(
                old(self)@,
                send_message(
                    old(self)@.channel.out,
                    RtmpMessage::Video {
                        header: RtmpMessageHeader { stream_id: RtmpMessageStreamId(1), timestamp: frame.timestamp },
                        frame,
                    },
                ),
            ),
    {
        match self.inner.state.expect(RtmpConnectionState::Publishing) {
            Ok(()) => {},
            Err(e) => return Err(e),
        }
        let message = RtmpMessage::Video {
            header: RtmpMessageHeader { stream_id: RtmpMessageStreamId::media(), timestamp: frame.timestamp },
            frame,
        };
        self.inner.send_message(message);
        Ok(())
    }

    /// Takes the next event, if any.
    pub fn next_event(&mut self) -> (r: Option<RtmpConnectionEvent>)
        requires
            old(self).wf(),
        ensures
            final(self).wf(),
            old(self)@.events.len() == 0 ==> r is None && final(self)@ == old(self)@,
            old(self)@.events.len() > 0 ==> r == Some(old(self)@.events[0]) && final(self)@ == (ClientModel {
                events: old(self)@.events.drop_first(),
                ..old(self)@
            }),
    {
        self.inner.next_event()
    }
}

/// A client connection that plays a stream. It does no I/O: its user connects to the
/// server, feeds it the bytes received, sends the bytes it asks to send, and handles its
/// events.
#[derive(Debug)]
pub struct RtmpPlayClientConnection {
    inner: RtmpClientConnection,
}

impl View for RtmpPlayClientConnection {
    type V = ClientModel;

    closed spec fn view(&self) -> ClientModel {
        self.inner@
    }
}

impl RtmpPlayClientConnection {
    /// The internal invariant.
    pub closed spec fn wf(&self) -> bool {
        self.inner.wf()
    }

    /// A new connection to `tc_url` (such as `rtmp://localhost/app`) that plays
    /// `stream_name`.
    pub fn new(tc_url: &str, stream_name: &str) -> (r: Self)
        ensures
            r.wf(),
            client_initial(r@, tc_url@, stream_name@),
    {
        RtmpPlayClientConnection { inner: RtmpClientConnection::new(tc_url, stream_name) }
    }

    /// Handles bytes received from the server; once the media stream is created, the
    /// play request (for the live stream) is sent.
    pub fn feed_recv_buf(&mut self, buf: &[u8]) -> (r: Result<(), Error>)
        requires
            old(self).wf(),
        ensures
            final(self).wf(),
            client_feed_and_request(old(self)@, final(self)@, buf@, false, result_kind(r)),
    {
        let r1 = self.inner.feed_recv_buf(buf);
        let ghost mid = self@;
        match r1 {
            Err(e) => {
                assert(client_fed(old(self)@, mid, buf@, result_kind(r1)));
                return Err(e);
            },
            Ok(()) => {},
        }
        let r = if self.inner.state == RtmpConnectionState::MediaStreamCreated {
            self.inner.request(false)
        } else {
            Ok(())
        };
        assert(client_fed(old(self)@, mid, buf@, result_kind(r1)));
        r
    }

    /// The bytes waiting to be sent to the server.
    pub fn send_buf(&self) -> (r: &[u8])
        requires
            self.wf(),
        ensures
            r@ == if !(self@.handshake.phase == Phase::Complete && self@.handshake.send.len() == 0) {
                self@.handshake.send
            } else {
                self@.channel.out.bytes
            },
    {
        self.inner.send_buf()
    }

    /// Marks `n` bytes as sent.
    pub fn advance_send_buf(&mut self, n: usize)
        requires
            old(self).wf(),
            old(self)@.handshake.phase == Phase::Complete && old(self)@.handshake.send.len() == 0 ==> n
                <= old(self)@.channel.out.bytes.len(),
        ensures
            final(self).wf(),
            client_advanced(old(self)@, final(self)@, n as nat),
    {
        self.inner.advance_send_buf(n)
    }

    /// Takes the next event, if any.
    pub fn next_event(&mut self) -> (r: Option<RtmpConnectionEvent>)
        requires
            old(self).wf(),
        ensures
            final(self).wf(),
            old(self)@.events.len() == 0 ==> r is None && final(self)@ == old(self)@,
            old(self)@.events.len() > 0 ==> r == Some(old(self)@.events[0]) && final(self)@ == (ClientModel {
                events: old(self)@.events.drop_first(),
                ..old(self)@
            }),
    {
        self.inner.next_event()
    }
}


proof fn lemma_client_connecting_step(c0: ClientModel, c1: ClientModel, r: Result<(), ErrorKind>)
    requires
        client_state_changed(c0, c1, RtmpConnectionState::Connecting, r),
        app_name_of(c0.tc_url) is Ok,
    ensures
        r is Ok,
        c1.state == RtmpConnectionState::Connecting,
        c1.events == c0.events.push(RtmpConnectionEvent::StateChanged(RtmpConnectionState::Connecting)),
{
}

proof fn lemma_client_connected_step(
    c1: ClientModel,
    c2: ClientModel,
    properties: AmfModel,
    information: AmfModel,
    r: Result<(), ErrorKind>,
)
    requires
        client_command_handled(c1, c2, RtmpCommandModel::Result { transaction_id: 1, properties, information }, r),
        !result_is_error(properties),
        c1.state == RtmpConnectionState::Connecting,
    ensures
        r is Ok,
        c2.state == RtmpConnectionState::Connected,
        c2.events == c1.events.push(RtmpConnectionEvent::StateChanged(RtmpConnectionState::Connected)),
{
}

proof fn lemma_client_stream_step(
    c2: ClientModel,
    c3: ClientModel,
    properties: AmfModel,
    information: AmfModel,
    r: Result<(), ErrorKind>,
)
    requires
        client_command_handled(c2, c3, RtmpCommandModel::Result { transaction_id: 2, properties, information }, r),
        !result_is_error(properties),
        c2.state == RtmpConnectionState::Connected,
    ensures
        r is Ok,
        c3.state == RtmpConnectionState::MediaStreamCreated,
        c3.events == c2.events.push(RtmpConnectionEvent::StateChanged(RtmpConnectionState::MediaStreamCreated)),
{
}

proof fn lemma_client_request_step(c3: ClientModel, c4: ClientModel, r: Result<(), ErrorKind>)
    requires
        client_requested(c3, c4, true, r),
        c3.state == RtmpConnectionState::MediaStreamCreated,
    ensures
        r is Ok,
        c4.state == RtmpConnectionState::PublishPending,
        c4.events == c3.events.push(RtmpConnectionEvent::StateChanged(RtmpConnectionState::PublishPending)),
{
}

proof fn lemma_client_publishing_step(
    c4: ClientModel,
    c5: ClientModel,
    level: Seq<char>,
    description: Option<Seq<char>>,
    details: Option<Seq<char>>,
    r: Result<(), ErrorKind>,
)
    requires
        client_command_handled(
            c4,
            c5,
            RtmpCommandModel::OnStatus { level, code: "NetStream.Publish.Start"@, description, details },
            r,
        ),
        c4.state == RtmpConnectionState::PublishPending,
    ensures
        r is Ok,
        c5.state == RtmpConnectionState::Publishing,
        c5.events == c4.events.push(RtmpConnectionEvent::StateChanged(RtmpConnectionState::Publishing)),
{
}

/// A whole publish session, as the publishing client goes through it: the handshake
/// completes (with an application name in the URL), the `connect` and `createStream`
/// answers come back without error, the publication is requested, and the server says
/// that publishing started. Every step succeeds, and the client tells, in this order and
/// with nothing between, that it is connecting, connected, has its media stream, waits
/// for the publication, and is publishing.
#[verifier::spinoff_prover]
#[verifier::rlimit(100)]
pub proof fn lemma_client_publish_session(
    c0: ClientModel,
    c1: ClientModel,
    c2: ClientModel,
    c3: ClientModel,
    c4: ClientModel,
    c5: ClientModel,
    connect_answer: (AmfModel, AmfModel),
    stream_answer: (AmfModel, AmfModel),
    status: (Seq<char>, Option<Seq<char>>, Option<Seq<char>>),
    r0: Result<(), ErrorKind>,
    r1: Result<(), ErrorKind>,
    r2: Result<(), ErrorKind>,
    r3: Result<(), ErrorKind>,
    r4: Result<(), ErrorKind>,
)
    requires
        app_name_of(c0.tc_url) is Ok,
        client_state_changed(c0, c1, RtmpConnectionState::Connecting, r0),
        !result_is_error(connect_answer.0),
        client_command_handled(
            c1,
            c2,
            RtmpCommandModel::Result {
                transaction_id: 1,
                properties: connect_answer.0,
                information: connect_answer.1,
            },
            r1,
        ),
        !result_is_error(stream_answer.0),
        client_command_handled(
            c2,
            c3,
            RtmpCommandModel::Result {
                transaction_id: 2,
                properties: stream_answer.0,
                information: stream_answer.1,
            },
            r2,
        ),
        client_requested(c3, c4, true, r3),
        client_command_handled(
            c4,
            c5,
            RtmpCommandModel::OnStatus {
                level: status.0,
                code: "NetStream.Publish.Start"@,
                description: status.1,
                details: status.2,
            },
            r4,
        ),
    ensures
        r0 is Ok && r1 is Ok && r2 is Ok && r3 is Ok && r4 is Ok,
        c5.state == RtmpConnectionState::Publishing,
        c5.events == c0.events + seq![
            RtmpConnectionEvent::StateChanged(RtmpConnectionState::Connecting),
            RtmpConnectionEvent::StateChanged(RtmpConnectionState::Connected),
            RtmpConnectionEvent::StateChanged(RtmpConnectionState::MediaStreamCreated),
            RtmpConnectionEvent::StateChanged(RtmpConnectionState::PublishPending),
            RtmpConnectionEvent::StateChanged(RtmpConnectionState::Publishing),
        ],
{
    lemma_client_connecting_step(c0, c1, r0);
    lemma_client_connected_step(c1, c2, connect_answer.0, connect_answer.1, r1);
    lemma_client_stream_step(c2, c3, stream_answer.0, stream_answer.1, r2);
    lemma_client_request_step(c3, c4, r3);
    lemma_client_publishing_step(c4, c5, status.0, status.1, status.2, r4);
    assert(c5.events =~= c0.events + seq![
        RtmpConnectionEvent::StateChanged(RtmpConnectionState::Connecting),
        RtmpConnectionEvent::StateChanged(RtmpConnectionState::Connected),
        RtmpConnectionEvent::StateChanged(RtmpConnectionState::MediaStreamCreated),
        RtmpConnectionEvent::StateChanged(RtmpConnectionState::PublishPending),
        RtmpConnectionEvent::StateChanged(RtmpConnectionState::Publishing),
    ]);
}

/// Once the media stream is created, the client's request goes out on that stream, the
/// media stream (message stream 1) on which it then sends its media, at timestamp 0: a
/// `publish` command with the stream name and the publish type `live`, or a `play`
/// command with the stream name and a start of -1, under the client's next transaction
/// ID, which then moves on by one.
#[verifier::spinoff_prover]
#[verifier::rlimit(100)]
pub proof fn lemma_request_on_media_stream(s: ClientModel, t: ClientModel, publish: bool, r: Result<(), ErrorKind>)
    requires
        client_requested(s, t, publish, r),
        s.state == RtmpConnectionState::MediaStreamCreated,
    ensures
        r is Ok,
        t.state == (if publish {
            RtmpConnectionState::PublishPending
        } else {
            RtmpConnectionState::PlayPending
        }),
        t.next_transaction_id == (s.next_transaction_id + 1) as i64,
        t.channel.out == send_command(
            s.channel.out,
            RtmpMessageHeader { stream_id: RtmpMessageStreamId(1), timestamp: RtmpTimestamp(0) },
            if publish {
                (
                    "publish"@,
                    s.next_transaction_id,
                    null0(),
                    seq![AmfModel::Amf0(str0(s.stream_name)), AmfModel::Amf0(str0("live"@))],
                )
            } else {
                (
                    "play"@,
                    s.next_transaction_id,
                    null0(),
                    seq![AmfModel::Amf0(str0(s.stream_name)), AmfModel::Amf0(Amf0Model::Number(int_to_bits(-1)))],
                )
            },
        ),
{
    let command = if publish {
        RtmpCommandModel::Publish { transaction_id: s.next_transaction_id, stream_name: s.stream_name }
    } else {
        RtmpCommandModel::Play { transaction_id: s.next_transaction_id, stream_name: s.stream_name, start: int_to_bits(-1) }
    };
    let parts = command_message_parts(command).unwrap();
    if publish {
        assert(parts == (
            "publish"@,
            s.next_transaction_id,
            null0(),
            seq![AmfModel::Amf0(str0(s.stream_name)), AmfModel::Amf0(str0("live"@))],
        ));
    } else {
        assert(parts == (
            "play"@,
            s.next_transaction_id,
            null0(),
            seq![AmfModel::Amf0(str0(s.stream_name)), AmfModel::Amf0(Amf0Model::Number(int_to_bits(-1)))],
        ));
    }
    assert(crate::rtmp_command::stream_header(RtmpMessageStreamId(1)) == (RtmpMessageHeader {
        stream_id: RtmpMessageStreamId(1),
        timestamp: RtmpTimestamp(0),
    }));
}

/// Connecting sends, on the control stream (message stream 0) at timestamp 0, a Window
/// Acknowledgement Size and a dynamic Set Peer Bandwidth, both of the configured window,
/// and a Set Chunk Size of the configured chunk size; then the `connect` command under
/// transaction ID 1, whose object names the application, the Flash version and the URL.
pub proof fn lemma_connect_on_control_stream(s: ClientModel, t: ClientModel, r: Result<(), ErrorKind>)
    requires
        client_connect(s, t, r),
        app_name_of(s.tc_url) is Ok,
    ensures
        r is Ok,
        ({
            let control = RtmpMessageHeader { stream_id: RtmpMessageStreamId(0), timestamp: RtmpTimestamp(0) };
            let ack = s.options.ack_window_size;
            t.channel.out == send_command(
                send_message(
                    send_message(
                        send_message(s.channel.out, RtmpMessage::WinAckSize { header: control, size: ack }),
                        RtmpMessage::SetPeerBandwidth {
                            header: control,
                            size: ack,
                            limit_type: crate::rtmp_message::SetPeerBandwidthLimitType::Dynamic,
                        },
                    ),
                    RtmpMessage::SetChunkSize { header: control, size: s.options.chunk_size },
                ),
                control,
                (
                    "connect"@,
                    1i64,
                    amf0_object_model(
                        seq![
                            ("app"@, str0(app_name_of(s.tc_url).unwrap())),
                            ("flashVer"@, str0(flash_ver())),
                            ("tcUrl"@, str0(s.tc_url)),
                        ],
                    ),
                    Seq::empty(),
                ),
            )
        }),
{
}

/// Asking for a media stream sends `createStream` on the control stream (message stream
/// 0) at timestamp 0, under the client's next transaction ID, which then moves on by one.
pub proof fn lemma_create_stream_on_control_stream(s: ClientModel, t: ClientModel, r: Result<(), ErrorKind>)
    requires
        client_create_stream(s, t, r),
        s.state == RtmpConnectionState::Connected,
    ensures
        r is Ok,
        t.next_transaction_id == (s.next_transaction_id + 1) as i64,
        t.channel.out == send_command(
            s.channel.out,
            RtmpMessageHeader { stream_id: RtmpMessageStreamId(0), timestamp: RtmpTimestamp(0) },
            ("createStream"@, s.next_transaction_id, null0(), Seq::<AmfModel>::empty()),
        ),
{
}

} // verus!
