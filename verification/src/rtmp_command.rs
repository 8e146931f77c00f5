use vstd::prelude::*;

use crate::amf::{
    amf0_object_model, model_number, model_str, object_member, AmfModel, AmfValue, AmfVersion, Pair,
};
use crate::amf0::{pairs0_view, Amf0Model, Amf0Value};
use crate::bytes::str_eq;
use crate::text::{push_signed, push_str, str_chars};
use crate::error::{Error, ErrorKind};
use crate::float64::{nat_to_bits, Float64};
use crate::rtmp_message::{amf_values_view, RtmpMessage, RtmpMessageHeader, RtmpMessageStreamId};
use crate::rtmp_timestamp::RtmpTimestamp;

verus! {

/// A command's transaction ID.
///
/// AMF carries it as a double; RTMP uses whole numbers only, so it is kept as an integer.
#[derive(Debug, Default, Clone, Copy, PartialEq, Eq, Structural)]
pub struct TransactionId(pub i64);

/// What casting the double with bit pattern `bits` to `i64` gives.
pub open spec fn transaction_id_of(bits: u64) -> i64 {
    let t = Float64(bits).trunc();
    if t > i64::MAX {
        i64::MAX
    } else if t < i64::MIN {
        i64::MIN
    } else {
        t as i64
    }
}

impl TransactionId {
    /// The ID of `onStatus` messages (0).
    pub fn on_status() -> (r: Self)
        ensures
            r.0 == 0,
    {
        Self(0)
    }

    /// The ID of the `connect` command (1).
    pub fn connect() -> (r: Self)
        ensures
            r.0 == 1,
    {
        Self(1)
    }

    /// The first ID free for other commands (2).
    pub fn non_reserved_start() -> (r: Self)
        ensures
            r.0 == 2,
    {
        Self(2)
    }

    /// The ID that a double gives: its integer part, saturated at the bounds of `i64`
    /// (NaN gives 0).
    pub fn from_f64(id: Float64) -> (r: Self)
        ensures
            r.0 == transaction_id_of(id.0),
    {
        Self(id.to_i64_saturating())
    }

    /// The numeric ID.
    pub fn get(self) -> (r: i64)
        ensures
            r == self.0,
    {
        self.0
    }

    /// Moves to the next ID.
    pub fn increment(&mut self)
        requires
            old(self).0 < i64::MAX,
        ensures
            final(self).0 == old(self).0 + 1,
    {
        self.0 = self.0 + 1;
    }
}

/// A command that the connections send or handle.
#[derive(Debug, Clone)]
pub enum RtmpCommand {
    /// `connect`.
    Connect(RtmpConnectCommand),
    /// `createStream`.
    CreateStream(RtmpCreateStreamCommand),
    /// `publish`.
    Publish(RtmpPublishCommand),
    /// `play`.
    Play(RtmpPlayCommand),
    /// `deleteStream`.
    DeleteStream(RtmpDeleteStreamCommand),
    /// `getStreamLength`.
    GetStreamLength(RtmpGetStreamLengthCommand),
    /// `_result`.
    Result(RtmpResultCommand),
    /// `onStatus`.
    OnStatus(RtmpOnStatusCommand),
    /// Any other command, kept for inspection only.
    Ignore {
        /// The command name.
        name: String,
        /// The command object.
        object: AmfValue,
        /// The further arguments.
        args: Vec<AmfValue>,
    },
}

/// The `connect` command.
#[derive(Debug, Clone, PartialEq, Eq)]
pub struct RtmpConnectCommand {
    /// The application name.
    pub app: String,
    /// The client's Flash version string.
    pub flash_ver: String,
    /// The URL of the server.
    pub tc_url: String,
}

/// The `createStream` command.
#[derive(Debug, Clone)]
pub struct RtmpCreateStreamCommand {
    /// Transaction ID.
    pub transaction_id: TransactionId,
}

/// The `publish` command.
#[derive(Debug, Clone, PartialEq, Eq)]
pub struct RtmpPublishCommand {
    /// Transaction ID.
    pub transaction_id: TransactionId,
    /// The stream to publish.
    pub stream_name: String,
}

/// The `play` command.
#[derive(Debug, Clone)]
pub struct RtmpPlayCommand {
    /// Transaction ID.
    pub transaction_id: TransactionId,
    /// The stream to play.
    pub stream_name: String,
    /// Where to start (-1 plays a live stream).
    pub start: Float64,
}

/// The `deleteStream` command.
#[derive(Debug, Clone)]
pub struct RtmpDeleteStreamCommand {
    /// Transaction ID.
    pub transaction_id: TransactionId,
    /// The stream to delete.
    pub stream_id: RtmpMessageStreamId,
}

/// The `getStreamLength` command.
#[derive(Debug, Clone)]
pub struct RtmpGetStreamLengthCommand {
    /// Transaction ID.
    pub transaction_id: TransactionId,
    /// The stream asked about.
    pub stream_name: String,
}

/// The `_result` command.
#[derive(Debug, Clone)]
pub struct RtmpResultCommand {
    /// Transaction ID of the command answered.
    pub transaction_id: TransactionId,
    /// The properties object.
    pub properties: AmfValue,
    /// The information value.
    pub information: AmfValue,
}

/// The `onStatus` command.
#[derive(Debug, Clone)]
pub struct RtmpOnStatusCommand {
    /// The level (`status`, `error`, ...).
    pub level: String,
    /// The status code.
    pub code: String,
    /// A description.
    pub description: Option<String>,
    /// Further details.
    pub details: Option<String>,
}

/// The mathematical value of a command.
pub enum RtmpCommandModel {
    Connect { app: Seq<char>, flash_ver: Seq<char>, tc_url: Seq<char> },
    CreateStream { transaction_id: i64 },
    Publish { transaction_id: i64, stream_name: Seq<char> },
    Play { transaction_id: i64, stream_name: Seq<char>, start: u64 },
    DeleteStream { transaction_id: i64, stream_id: u32 },
    GetStreamLength { transaction_id: i64, stream_name: Seq<char> },
    Result { transaction_id: i64, properties: AmfModel, information: AmfModel },
    OnStatus {
        level: Seq<char>,
        code: Seq<char>,
        description: Option<Seq<char>>,
        details: Option<Seq<char>>,
    },
    Ignore { name: Seq<char>, object: AmfModel, args: Seq<AmfModel> },
}

/// The characters of an optional string.
pub open spec fn opt_view(s: Option<String>) -> Option<Seq<char>> {
    match s {
        None => None,
        Some(s) => Some(s@),
    }
}

impl View for RtmpCommand {
    type V = RtmpCommandModel;

    open spec fn view(&self) -> RtmpCommandModel {
        match self {
            RtmpCommand::Connect(c) => RtmpCommandModel::Connect {
                app: c.app@,
                flash_ver: c.flash_ver@,
                tc_url: c.tc_url@,
            },
            RtmpCommand::CreateStream(c) => RtmpCommandModel::CreateStream { transaction_id: c.transaction_id.0 },
            RtmpCommand::Publish(c) => RtmpCommandModel::Publish {
                transaction_id: c.transaction_id.0,
                stream_name: c.stream_name@,
            },
            RtmpCommand::Play(c) => RtmpCommandModel::Play {
                transaction_id: c.transaction_id.0,
                stream_name: c.stream_name@,
                start: c.start.0,
            },
            RtmpCommand::DeleteStream(c) => RtmpCommandModel::DeleteStream {
                transaction_id: c.transaction_id.0,
                stream_id: c.stream_id.0,
            },
            RtmpCommand::GetStreamLength(c) => RtmpCommandModel::GetStreamLength {
                transaction_id: c.transaction_id.0,
                stream_name: c.stream_name@,
            },
            RtmpCommand::Result(c) => RtmpCommandModel::Result {
                transaction_id: c.transaction_id.0,
                properties: c.properties@,
                information: c.information@,
            },
            RtmpCommand::OnStatus(c) => RtmpCommandModel::OnStatus {
                level: c.level@,
                code: c.code@,
                description: opt_view(c.description),
                details: opt_view(c.details),
            },
            RtmpCommand::Ignore { name, object, args } => RtmpCommandModel::Ignore {
                name: name@,
                object: object@,
                args: amf_values_view(args@),
            },
        }
    }
}

/// An AMF0 string.
pub open spec fn str0(s: Seq<char>) -> Amf0Model {
    Amf0Model::String(s)
}

/// The members of the status object of an `onStatus` command.
pub open spec fn status_members(
    level: Seq<char>,
    code: Seq<char>,
    description: Option<Seq<char>>,
    details: Option<Seq<char>>,
) -> Seq<(Seq<char>, Amf0Model)> {
    seq![("level"@, str0(level)), ("code"@, str0(code))] + match description {
        Some(d) => seq![("description"@, str0(d))],
        None => Seq::empty(),
    } + match details {
        Some(d) => seq![("details"@, str0(d))],
        None => Seq::empty(),
    }
}

/// The AMF0 `null` value.
pub open spec fn null0() -> AmfModel {
    AmfModel::Amf0(Amf0Model::Null)
}

/// The name of the command, its transaction ID, the command object and the further
/// arguments of the message a command is sent as (`None` for a command that is never sent).
pub open spec fn command_message_parts(c: RtmpCommandModel) -> Option<(Seq<char>, i64, AmfModel, Seq<AmfModel>)> {
    match c {
        RtmpCommandModel::OnStatus { level, code, description, details } => Some(
            (
                "onStatus"@,
                0i64,
                null0(),
                seq![amf0_object_model(status_members(level, code, description, details))],
            ),
        ),
        RtmpCommandModel::Connect { app, flash_ver, tc_url } => Some(
            (
                "connect"@,
                1i64,
                amf0_object_model(
                    seq![("app"@, str0(app)), ("flashVer"@, str0(flash_ver)), ("tcUrl"@, str0(tc_url))],
                ),
                Seq::empty(),
            ),
        ),
        RtmpCommandModel::CreateStream { transaction_id } => Some(
            ("createStream"@, transaction_id, null0(), Seq::empty()),
        ),
        RtmpCommandModel::Publish { transaction_id, stream_name } => Some(
            (
                "publish"@,
                transaction_id,
                null0(),
                seq![AmfModel::Amf0(str0(stream_name)), AmfModel::Amf0(str0("live"@))],
            ),
        ),
        RtmpCommandModel::Play { transaction_id, stream_name, start } => Some(
            (
                "play"@,
                transaction_id,
                null0(),
                seq![AmfModel::Amf0(str0(stream_name)), AmfModel::Amf0(Amf0Model::Number(start))],
            ),
        ),
        RtmpCommandModel::DeleteStream { transaction_id, stream_id } => Some(
            (
                "deleteStream"@,
                transaction_id,
                null0(),
                seq![AmfModel::Amf0(Amf0Model::Number(nat_to_bits(stream_id as nat)))],
            ),
        ),
        RtmpCommandModel::GetStreamLength { transaction_id, stream_name } => Some(
            ("getStreamLength"@, transaction_id, null0(), seq![AmfModel::Amf0(str0(stream_name))]),
        ),
        RtmpCommandModel::Result { transaction_id, properties, information } => Some(
            ("_result"@, transaction_id, properties, seq![information]),
        ),
        RtmpCommandModel::Ignore { .. } => None,
    }
}

/// `m` is the AMF0 command message with the given header and parts.
pub open spec fn is_command_message(
    m: RtmpMessage,
    header: RtmpMessageHeader,
    parts: (Seq<char>, i64, AmfModel, Seq<AmfModel>),
) -> bool {
    &&& m is Command
    &&& m->Command_header == header
    &&& m->Command_amf_version == AmfVersion::Amf0
    &&& m->Command_name@ == parts.0
    &&& m->Command_transaction_id.0 == parts.1
    &&& m->Command_object@ == parts.2
    &&& amf_values_view(m->Command_args@) == parts.3
}

/// The string held by the member `key` of an object, if there is such a string.
pub open spec fn str_member(object: AmfModel, key: Seq<char>) -> Option<Seq<char>> {
    match object_member(object, key) {
        Ok(v) => model_str(v),
        Err(_) => None,
    }
}

/// The string held by the argument at `i`, if there is such a string.
pub open spec fn str_arg(args: Seq<AmfModel>, i: int) -> Option<Seq<char>> {
    if 0 <= i < args.len() {
        model_str(args[i])
    } else {
        None
    }
}

/// The number held by the argument at `i`, if there is such a number.
pub open spec fn number_arg(args: Seq<AmfModel>, i: int) -> Option<u64> {
    if 0 <= i < args.len() {
        model_number(args[i])
    } else {
        None
    }
}

/// What `u32` a double gives when cast: its integer part, saturated (NaN gives 0).
pub open spec fn u32_of(bits: u64) -> u32 {
    let t = Float64(bits).trunc();
    if t > u32::MAX {
        u32::MAX
    } else if t < 0 {
        0
    } else {
        t as u32
    }
}

/// The command that a received command message holds.
pub open spec fn command_from_message(
    name: Seq<char>,
    transaction_id: i64,
    object: AmfModel,
    args: Seq<AmfModel>,
) -> Result<RtmpCommandModel, ErrorKind> {
    if name == "connect"@ {
        if transaction_id != 1 {
            Err(ErrorKind::InvalidData)
        } else {
            match (str_member(object, "app"@), str_member(object, "flashVer"@), str_member(object, "tcUrl"@)) {
                (Some(app), Some(flash_ver), Some(tc_url)) => Ok(RtmpCommandModel::Connect { app, flash_ver, tc_url }),
                _ => Err(ErrorKind::InvalidData),
            }
        }
    } else if name == "createStream"@ {
        Ok(RtmpCommandModel::CreateStream { transaction_id })
    } else if name == "publish"@ {
        match (str_arg(args, 0), str_arg(args, 1)) {
            (Some(stream_name), Some(publish_type)) => if publish_type == "live"@ {
                Ok(RtmpCommandModel::Publish { transaction_id, stream_name })
            } else {
                Err(ErrorKind::Unsupported)
            },
            _ => Err(ErrorKind::InvalidData),
        }
    } else if name == "play"@ {
        match (str_arg(args, 0), number_arg(args, 1)) {
            (Some(stream_name), Some(start)) => Ok(RtmpCommandModel::Play { transaction_id, stream_name, start }),
            _ => Err(ErrorKind::InvalidData),
        }
    } else if name == "deleteStream"@ {
        match number_arg(args, 0) {
            Some(id) => Ok(RtmpCommandModel::DeleteStream { transaction_id, stream_id: u32_of(id) }),
            None => Err(ErrorKind::InvalidData),
        }
    } else if name == "getStreamLength"@ {
        match str_arg(args, 0) {
            Some(stream_name) => Ok(RtmpCommandModel::GetStreamLength { transaction_id, stream_name }),
            None => Err(ErrorKind::InvalidData),
        }
    } else if name == "_result"@ {
        if args.len() == 0 {
            Err(ErrorKind::InvalidData)
        } else {
            Ok(RtmpCommandModel::Result { transaction_id, properties: object, information: args[0] })
        }
    } else if name == "onStatus"@ {
        if args.len() == 0 {
            Err(ErrorKind::InvalidData)
        } else {
            match (str_member(args[0], "level"@), str_member(args[0], "code"@)) {
                (Some(level), Some(code)) => Ok(
                    RtmpCommandModel::OnStatus {
                        level,
                        code,
                        description: str_member(args[0], "description"@),
                        details: str_member(args[0], "details"@),
                    },
                ),
                _ => Err(ErrorKind::InvalidData),
            }
        }
    } else {
        Ok(RtmpCommandModel::Ignore { name, object, args })
    }
}

/// The name of a command.
pub open spec fn command_name(c: RtmpCommandModel) -> Seq<char> {
    match c {
        RtmpCommandModel::Connect { .. } => "connect"@,
        RtmpCommandModel::CreateStream { .. } => "createStream"@,
        RtmpCommandModel::Publish { .. } => "publish"@,
        RtmpCommandModel::Play { .. } => "play"@,
        RtmpCommandModel::DeleteStream { .. } => "deleteStream"@,
        RtmpCommandModel::GetStreamLength { .. } => "getStreamLength"@,
        RtmpCommandModel::Result { .. } => "_result"@,
        RtmpCommandModel::OnStatus { .. } => "onStatus"@,
        RtmpCommandModel::Ignore { name, .. } => name,
    }
}

/// An owned AMF0 string value.
fn string0(s: &str) -> (r: Amf0Value)
    ensures
        r@ == str0(s@),
{
    Amf0Value::String(s.to_owned())
}

/// A member whose value is an AMF0 string.
fn string_member(key: &str, value: &str) -> (r: Pair<String, Amf0Value>)
    ensures
        r.key@ == key@,
        r.value@ == str0(value@),
{
    Pair { key: key.to_owned(), value: string0(value) }
}

/// The string held by the member `key` of `object`; an error when there is none.
fn expect_str_member(object: &AmfValue, key: &str) -> (r: Result<String, Error>)
    ensures
        match str_member(object@, key@) {
            Some(s) => r matches Ok(x) && x@ == s,
            None => r matches Err(e) && e.kind == ErrorKind::InvalidData,
        },
{
    let v = match object.expect_object_member(key) {
        Ok(v) => v,
        Err(e) => return Err(e),
    };
    match v.expect_str() {
        Ok(s) => Ok(s.to_owned()),
        Err(e) => Err(e),
    }
}

/// The string held by the member `key` of `object`, if there is one.
pub(crate) fn opt_str_member(object: &AmfValue, key: &str) -> (r: Option<String>)
    ensures
        opt_view(r) == str_member(object@, key@),
{
    match object.expect_object_member(key) {
        Ok(v) => match v.expect_str() {
            Ok(s) => Some(s.to_owned()),
            Err(_) => None,
        },
        Err(_) => None,
    }
}

/// The string held by the argument at `i`; an error when there is none.
fn expect_str_arg(args: &Vec<AmfValue>, i: usize) -> (r: Result<String, Error>)
    ensures
        match str_arg(amf_values_view(args@), i as int) {
            Some(s) => r matches Ok(x) && x@ == s,
            None => r matches Err(e) && e.kind == ErrorKind::InvalidData,
        },
{
    if i >= args.len() {
        return Err(Error::invalid_data("missing argument"));
    }
    match args[i].expect_str() {
        Ok(s) => Ok(s.to_owned()),
        Err(e) => Err(e),
    }
}

/// The number held by the argument at `i`; an error when there is none.
fn expect_number_arg(args: &Vec<AmfValue>, i: usize) -> (r: Result<Float64, Error>)
    ensures
        match number_arg(amf_values_view(args@), i as int) {
            Some(n) => r matches Ok(x) && x.0 == n,
            None => r matches Err(e) && e.kind == ErrorKind::InvalidData,
        },
{
    if i >= args.len() {
        return Err(Error::invalid_data("missing argument"));
    }
    args[i].expect_number()
}

impl RtmpCommand {
    /// The command name.
    pub fn name(&self) -> (r: &str)
        ensures
            r@ == command_name(self@),
    {
        match self {
            RtmpCommand::Connect(_) => "connect",
            RtmpCommand::CreateStream(_) => "createStream",
            RtmpCommand::Publish(_) => "publish",
            RtmpCommand::Play(_) => "play",
            RtmpCommand::DeleteStream(_) => "deleteStream",
            RtmpCommand::GetStreamLength(_) => "getStreamLength",
            RtmpCommand::Result(_) => "_result",
            RtmpCommand::OnStatus(_) => "onStatus",
            RtmpCommand::Ignore { name, .. } => name.as_str(),
        }
    }

    /// The AMF0 command message that sends this command with the given header; an
    /// ignored command is never sent.
    pub fn into_message(self, header: RtmpMessageHeader) -> (r: Result<RtmpMessage, Error>)
        ensures
            match command_message_parts(self@) {
                None => r matches Err(e) && e.kind == ErrorKind::InvalidState,
                Some(parts) => r matches Ok(m) && is_command_message(m, header, parts),
            },
    {
        let ghost model = self@;
        match self {
            RtmpCommand::Ignore { .. } => Err(Error::invalid_state("a command that is ignored is never sent")),
            RtmpCommand::OnStatus(cmd) => {
                let ghost level = cmd.level@;
                let ghost code = cmd.code@;
                let ghost description = opt_view(cmd.description);
                let ghost details = opt_view(cmd.details);
                let mut pairs: Vec<Pair<String, Amf0Value>> = Vec::new();
                pairs.push(Pair { key: "level".to_owned(), value: Amf0Value::String(cmd.level) });
                pairs.push(Pair { key: "code".to_owned(), value: Amf0Value::String(cmd.code) });
                let ghost m0 = seq![("level"@, str0(level)), ("code"@, str0(code))];
                assert(pairs0_view(pairs@) =~= m0);
                let ghost m1 = m0 + match description {
                    Some(d) => seq![("description"@, str0(d))],
                    None => Seq::empty(),
                };
                if let Some(description) = cmd.description {
                    pairs.push(Pair { key: "description".to_owned(), value: Amf0Value::String(description) });
                }
                assert(pairs0_view(pairs@) =~= m1);
                let ghost m2 = m1 + match details {
                    Some(d) => seq![("details"@, str0(d))],
                    None => Seq::empty(),
                };
                if let Some(details) = cmd.details {
                    pairs.push(Pair { key: "details".to_owned(), value: Amf0Value::String(details) });
                }
                assert(pairs0_view(pairs@) =~= m2);
                assert(m2 == status_members(level, code, description, details));
                let status_object = AmfValue::Amf0(Amf0Value::Object { class_name: None, entries: pairs });
                assert(status_object@->Amf0_0->Object_entries =~= pairs0_view(pairs@));
                let mut args: Vec<AmfValue> = Vec::new();
                args.push(status_object);
                let m = RtmpMessage::Command {
                    header,
                    amf_version: AmfVersion::Amf0,
                    name: "onStatus".to_owned(),
                    transaction_id: TransactionId::on_status(),
                    object: AmfValue::Amf0(Amf0Value::Null),
                    args,
                };
                assert(amf_values_view(m->Command_args@) =~= command_message_parts(model).unwrap().3);
                Ok(m)
            },
            RtmpCommand::Connect(cmd) => {
                let mut entries: Vec<(&str, Amf0Value)> = Vec::new();
                entries.push(("app", Amf0Value::String(cmd.app)));
                entries.push(("flashVer", Amf0Value::String(cmd.flash_ver)));
                entries.push(("tcUrl", Amf0Value::String(cmd.tc_url)));
                let object = AmfValue::amf0_object(entries);
                assert(object@->Amf0_0->Object_entries =~= command_message_parts(model).unwrap().2->Amf0_0->Object_entries);
                let m = RtmpMessage::Command {
                    header,
                    amf_version: AmfVersion::Amf0,
                    name: "connect".to_owned(),
                    transaction_id: TransactionId::connect(),
                    object,
                    args: Vec::new(),
                };
                assert(amf_values_view(m->Command_args@) =~= Seq::<AmfModel>::empty());
                Ok(m)
            },
            RtmpCommand::CreateStream(cmd) => {
                let m = RtmpMessage::Command {
                    header,
                    amf_version: AmfVersion::Amf0,
                    name: "createStream".to_owned(),
                    transaction_id: cmd.transaction_id,
                    object: AmfValue::Amf0(Amf0Value::Null),
                    args: Vec::new(),
                };
                assert(amf_values_view(m->Command_args@) =~= Seq::<AmfModel>::empty());
                Ok(m)
            },
            RtmpCommand::Publish(cmd) => {
                let mut args: Vec<AmfValue> = Vec::new();
                args.push(AmfValue::Amf0(Amf0Value::String(cmd.stream_name)));
                args.push(AmfValue::Amf0(string0("live")));
                let m = RtmpMessage::Command {
                    header,
                    amf_version: AmfVersion::Amf0,
                    name: "publish".to_owned(),
                    transaction_id: cmd.transaction_id,
                    object: AmfValue::Amf0(Amf0Value::Null),
                    args,
                };
                assert(amf_values_view(m->Command_args@) =~= command_message_parts(model).unwrap().3);
                Ok(m)
            },
            RtmpCommand::Play(cmd) => {
                let mut args: Vec<AmfValue> = Vec::new();
                args.push(AmfValue::Amf0(Amf0Value::String(cmd.stream_name)));
                args.push(AmfValue::Amf0(Amf0Value::Number(cmd.start)));
                let m = RtmpMessage::Command {
                    header,
                    amf_version: AmfVersion::Amf0,
                    name: "play".to_owned(),
                    transaction_id: cmd.transaction_id,
                    object: AmfValue::Amf0(Amf0Value::Null),
                    args,
                };
                assert(amf_values_view(m->Command_args@) =~= command_message_parts(model).unwrap().3);
                Ok(m)
            },
            RtmpCommand::DeleteStream(cmd) => {
                let mut args: Vec<AmfValue> = Vec::new();
                args.push(AmfValue::Amf0(Amf0Value::Number(Float64::from_u32(cmd.stream_id.get()))));
                let m = RtmpMessage::Command {
                    header,
                    amf_version: AmfVersion::Amf0,
                    name: "deleteStream".to_owned(),
                    transaction_id: cmd.transaction_id,
                    object: AmfValue::Amf0(Amf0Value::Null),
                    args,
                };
                assert(amf_values_view(m->Command_args@) =~= command_message_parts(model).unwrap().3);
                Ok(m)
            },
            RtmpCommand::GetStreamLength(cmd) => {
                let mut args: Vec<AmfValue> = Vec::new();
                args.push(AmfValue::Amf0(Amf0Value::String(cmd.stream_name)));
                let m = RtmpMessage::Command {
                    header,
                    amf_version: AmfVersion::Amf0,
                    name: "getStreamLength".to_owned(),
                    transaction_id: cmd.transaction_id,
                    object: AmfValue::Amf0(Amf0Value::Null),
                    args,
                };
                assert(amf_values_view(m->Command_args@) =~= command_message_parts(model).unwrap().3);
                Ok(m)
            },
            RtmpCommand::Result(cmd) => {
                let mut args: Vec<AmfValue> = Vec::new();
                args.push(cmd.information);
                let m = RtmpMessage::Command {
                    header,
                    amf_version: AmfVersion::Amf0,
                    name: "_result".to_owned(),
                    transaction_id: cmd.transaction_id,
                    object: cmd.properties,
                    args,
                };
                assert(amf_values_view(m->Command_args@) =~= command_message_parts(model).unwrap().3);
                Ok(m)
            },
        }
    }

    /// The command message on the control stream (stream 0, timestamp 0).
    pub fn into_pcm_message(self) -> (r: Result<RtmpMessage, Error>)
        ensures
            match command_message_parts(self@) {
                None => r matches Err(e) && e.kind == ErrorKind::InvalidState,
                Some(parts) => r matches Ok(m) && is_command_message(m, RtmpMessageHeader::spec_pcm(), parts),
            },
    {
        self.into_message(RtmpMessageHeader::pcm())
    }

    /// The command that a received command message holds; commands that nothing here
    /// handles become `Ignore`.
    pub fn from_message(
        name: &str,
        transaction_id: TransactionId,
        object: AmfValue,
        args: Vec<AmfValue>,
    ) -> (r: Result<Self, Error>)
        ensures
            match command_from_message(name@, transaction_id.0, object@, amf_values_view(args@)) {
                Ok(c) => r matches Ok(x) && x@ == c,
                Err(e) => r matches Err(er) && er.kind == e,
            },
    {
        proof {
            reveal_strlit("connect");
            reveal_strlit("createStream");
            reveal_strlit("publish");
            reveal_strlit("play");
            reveal_strlit("deleteStream");
            reveal_strlit("getStreamLength");
            reveal_strlit("_result");
            reveal_strlit("onStatus");
        }
        if str_eq(name, "connect") {
            if transaction_id.get() != 1 {
                let mut t = str_chars("invalid transaction ID for connect command: expected 1, got ");
                push_signed(&mut t, transaction_id.get());
                return Err(Error::with_text(ErrorKind::InvalidData, &t));
            }
            let app = match expect_str_member(&object, "app") {
                Ok(x) => x,
                Err(e) => return Err(e),
            };
            let flash_ver = match expect_str_member(&object, "flashVer") {
                Ok(x) => x,
                Err(e) => return Err(e),
            };
            let tc_url = match expect_str_member(&object, "tcUrl") {
                Ok(x) => x,
                Err(e) => return Err(e),
            };
            Ok(RtmpCommand::Connect(RtmpConnectCommand { app, flash_ver, tc_url }))
        } else if str_eq(name, "createStream") {
            Ok(RtmpCommand::CreateStream(RtmpCreateStreamCommand { transaction_id }))
        } else if str_eq(name, "publish") {
            let stream_name = match expect_str_arg(&args, 0) {
                Ok(x) => x,
                Err(e) => return Err(e),
            };
            let publish_type = match expect_str_arg(&args, 1) {
                Ok(x) => x,
                Err(e) => return Err(e),
            };
            proof {
                reveal_strlit("live");
            }
            if !str_eq(publish_type.as_str(), "live") {
                let mut t = str_chars("unsupported publish type: ");
                push_str(&mut t, publish_type.as_str());
                push_str(&mut t, " (only 'live' is supported)");
                return Err(Error::with_text(ErrorKind::Unsupported, &t));
            }
            Ok(RtmpCommand::Publish(RtmpPublishCommand { transaction_id, stream_name }))
        } else if str_eq(name, "play") {
            let stream_name = match expect_str_arg(&args, 0) {
                Ok(x) => x,
                Err(e) => return Err(e),
            };
            let start = match expect_number_arg(&args, 1) {
                Ok(x) => x,
                Err(e) => return Err(e),
            };
            Ok(RtmpCommand::Play(RtmpPlayCommand { transaction_id, stream_name, start }))
        } else if str_eq(name, "deleteStream") {
            let id = match expect_number_arg(&args, 0) {
                Ok(x) => x,
                Err(e) => return Err(e),
            };
            let stream_id = RtmpMessageStreamId::new(id.to_u32_saturating());
            Ok(RtmpCommand::DeleteStream(RtmpDeleteStreamCommand { transaction_id, stream_id }))
        } else if str_eq(name, "getStreamLength") {
            let stream_name = match expect_str_arg(&args, 0) {
                Ok(x) => x,
                Err(e) => return Err(e),
            };
            Ok(RtmpCommand::GetStreamLength(RtmpGetStreamLengthCommand { transaction_id, stream_name }))
        } else if str_eq(name, "_result") {
            if args.len() == 0 {
                return Err(Error::invalid_data("_result: missing information argument"));
            }
            let information = args[0].duplicate();
            Ok(RtmpCommand::Result(RtmpResultCommand { transaction_id, properties: object, information }))
        } else if str_eq(name, "onStatus") {
            if args.len() == 0 {
                return Err(Error::invalid_data("onStatus: missing status object"));
            }
            let status = &args[0];
            let level = match expect_str_member(status, "level") {
                Ok(x) => x,
                Err(e) => return Err(e),
            };
            let code = match expect_str_member(status, "code") {
                Ok(x) => x,
                Err(e) => return Err(e),
            };
            let description = opt_str_member(status, "description");
            let details = opt_str_member(status, "details");
            Ok(RtmpCommand::OnStatus(RtmpOnStatusCommand { level, code, description, details }))
        } else {
            let r = RtmpCommand::Ignore { name: name.to_owned(), object, args };
            Ok(r)
        }
    }
}


/// An AMF0 number.
pub open spec fn num0(bits: u64) -> Amf0Model {
    Amf0Model::Number(bits)
}

/// The `_result` that accepts a `connect` command.
pub open spec fn connect_accept_model() -> RtmpCommandModel {
    RtmpCommandModel::Result {
        transaction_id: 1,
        properties: amf0_object_model(
            seq![
                ("fmsVer"@, str0("FMS/4,5,0,297"@)),
                ("capabilities"@, num0(nat_to_bits(255))),
                ("mode"@, num0(nat_to_bits(1))),
            ],
        ),
        information: amf0_object_model(
            seq![
                ("level"@, str0("status"@)),
                ("code"@, str0("NetConnection.Connect.Success"@)),
                ("description"@, str0("Connection succeeded."@)),
                ("objectEncoding"@, num0(nat_to_bits(0))),
            ],
        ),
    }
}

/// The `_result` that accepts a stream command: an empty properties object and a
/// status object with the given code and description.
pub open spec fn stream_accept_model(
    transaction_id: i64,
    code: Seq<char>,
    description: Seq<char>,
) -> RtmpCommandModel {
    RtmpCommandModel::Result {
        transaction_id,
        properties: amf0_object_model(Seq::empty()),
        information: amf0_object_model(
            seq![("level"@, str0("status"@)), ("code"@, str0(code)), ("description"@, str0(description))],
        ),
    }
}

/// The header of messages on stream `stream_id` at timestamp 0.
pub open spec fn stream_header(stream_id: RtmpMessageStreamId) -> RtmpMessageHeader {
    RtmpMessageHeader { stream_id, timestamp: RtmpTimestamp(0) }
}

/// The `_result` message that accepts a stream command.
fn stream_accept(
    transaction_id: TransactionId,
    stream_id: RtmpMessageStreamId,
    code: &str,
    description: &str,
) -> (r: Result<RtmpMessage, Error>)
    ensures
        r matches Ok(m) && is_command_message(
            m,
            stream_header(stream_id),
            command_message_parts(stream_accept_model(transaction_id.0, code@, description@)).unwrap(),
        ),
{
    let properties = AmfValue::amf0_object(Vec::new());
    let mut entries: Vec<(&str, Amf0Value)> = Vec::new();
    entries.push(("level", string0("status")));
    entries.push(("code", string0(code)));
    entries.push(("description", string0(description)));
    let information = AmfValue::amf0_object(entries);
    let ghost model = stream_accept_model(transaction_id.0, code@, description@);
    assert(properties@->Amf0_0->Object_entries =~= model->Result_properties->Amf0_0->Object_entries);
    assert(information@->Amf0_0->Object_entries =~= model->Result_information->Amf0_0->Object_entries);
    let command = RtmpResultCommand { transaction_id, properties, information };
    let header = RtmpMessageHeader { stream_id, timestamp: RtmpTimestamp::zero() };
    RtmpCommand::Result(command).into_message(header)
}

impl RtmpConnectCommand {
    /// The `_result` message that accepts this connection, on the control stream.
    pub fn accept(&self) -> (r: Result<RtmpMessage, Error>)
        ensures
            r matches Ok(m) && is_command_message(
                m,
                RtmpMessageHeader::spec_pcm(),
                command_message_parts(connect_accept_model()).unwrap(),
            ),
    {
        let mut p: Vec<(&str, Amf0Value)> = Vec::new();
        p.push(("fmsVer", string0("FMS/4,5,0,297")));
        p.push(("capabilities", Amf0Value::Number(Float64::from_u32(255))));
        p.push(("mode", Amf0Value::Number(Float64::from_u32(1))));
        let properties = AmfValue::amf0_object(p);
        let mut i: Vec<(&str, Amf0Value)> = Vec::new();
        i.push(("level", string0("status")));
        i.push(("code", string0("NetConnection.Connect.Success")));
        i.push(("description", string0("Connection succeeded.")));
        i.push(("objectEncoding", Amf0Value::Number(Float64::from_u32(0))));
        let information = AmfValue::amf0_object(i);
        let ghost model = connect_accept_model();
        assert(properties@->Amf0_0->Object_entries =~= model->Result_properties->Amf0_0->Object_entries);
        assert(information@->Amf0_0->Object_entries =~= model->Result_information->Amf0_0->Object_entries);
        let command = RtmpResultCommand { transaction_id: TransactionId::connect(), properties, information };
        RtmpCommand::Result(command).into_pcm_message()
    }
}

impl RtmpPublishCommand {
    /// The `_result` message that accepts a `publish` command on stream `stream_id`.
    pub fn accept(transaction_id: TransactionId, stream_id: RtmpMessageStreamId) -> (r: Result<
        RtmpMessage,
        Error,
    >)
        ensures
            r matches Ok(m) && is_command_message(
                m,
                stream_header(stream_id),
                command_message_parts(
                    stream_accept_model(transaction_id.0, "NetStream.Publish.Start"@, "Publish succeeded."@),
                ).unwrap(),
            ),
    {
        stream_accept(transaction_id, stream_id, "NetStream.Publish.Start", "Publish succeeded.")
    }
}

impl RtmpPlayCommand {
    /// The `_result` message that accepts a `play` command on stream `stream_id`.
    pub fn accept(transaction_id: TransactionId, stream_id: RtmpMessageStreamId) -> (r: Result<
        RtmpMessage,
        Error,
    >)
        ensures
            r matches Ok(m) && is_command_message(
                m,
                stream_header(stream_id),
                command_message_parts(
                    stream_accept_model(transaction_id.0, "NetStream.Play.Start"@, "Play succeeded."@),
                ).unwrap(),
            ),
    {
        stream_accept(transaction_id, stream_id, "NetStream.Play.Start", "Play succeeded.")
    }
}

/// `c` with ASCII capitals made small.
pub open spec fn ascii_lower(c: char) -> u32 {
    let x = c as u32;
    if 65 <= x <= 90 {
        (x + 32) as u32
    } else {
        x
    }
}

/// `s` holds `pat` at `i`, ASCII letters compared without case (`pat` is small).
pub open spec fn matches_at(s: Seq<char>, i: int, pat: Seq<char>) -> bool {
    &&& 0 <= i
    &&& i + pat.len() <= s.len()
    &&& forall|j: int| 0 <= j < pat.len() ==> ascii_lower(#[trigger] s[i + j]) == pat[j] as u32
}

/// `s` holds `pat` somewhere, ASCII letters compared without case.
///
/// Lowercasing a whole string in Unicode maps no character outside ASCII onto the
/// letters `e`, `r` and `o`, so this is what searching the lowercased string for
/// `error` finds.
pub open spec fn contains_ignoring_case(s: Seq<char>, pat: Seq<char>) -> bool {
    exists|i: int| matches_at(s, i, pat)
}

/// Whether `s` holds the small ASCII word `pat` at `i`, ignoring case.
fn matches_at_exec(s: &Vec<char>, i: usize, pat: &Vec<char>) -> (r: bool)
    requires
        i + pat@.len() <= s@.len(),
    ensures
        r == matches_at(s@, i as int, pat@),
{
    let n = s.len();
    let mut j: usize = 0;
    while j < pat.len()
        invariant
            n == s@.len(),
            i + pat@.len() <= s@.len(),
            j <= pat@.len(),
            forall|k: int| 0 <= k < j ==> ascii_lower(#[trigger] s@[i + k]) == pat@[k] as u32,
        decreases pat@.len() - j,
    {
        let c = s[i + j] as u32;
        let lower = if 65 <= c && c <= 90 {
            c + 32
        } else {
            c
        };
        if lower != pat[j] as u32 {
            assert(ascii_lower(s@[i + j as int]) != pat@[j as int] as u32);
            return false;
        }
        j = j + 1;
    }
    true
}

impl RtmpResultCommand {
    /// The answer to `getStreamLength`: no properties and the length.
    pub fn get_stream_length_result(transaction_id: TransactionId, length: Float64) -> (r: Self)
        ensures
            r.transaction_id == transaction_id,
            r.properties@ == null0(),
            r.information@ == AmfModel::Amf0(num0(length.0)),
    {
        RtmpResultCommand {
            transaction_id,
            properties: AmfValue::Amf0(Amf0Value::Null),
            information: AmfValue::Amf0(Amf0Value::Number(length)),
        }
    }

    /// The answer to `createStream`: no properties and the new stream's ID.
    pub fn create_stream_result(transaction_id: TransactionId, stream_id: RtmpMessageStreamId) -> (r: Self)
        ensures
            r.transaction_id == transaction_id,
            r.properties@ == null0(),
            r.information@ == AmfModel::Amf0(num0(nat_to_bits(stream_id.0 as nat))),
    {
        RtmpResultCommand {
            transaction_id,
            properties: AmfValue::Amf0(Amf0Value::Null),
            information: AmfValue::Amf0(Amf0Value::Number(Float64::from_u32(stream_id.get()))),
        }
    }

    /// Whether this answer looks like an error: its properties have a string `code`
    /// that holds `error` in any case.
    pub fn is_error(&self) -> (r: bool)
        ensures
            r == match str_member(self.properties@, "code"@) {
                Some(code) => contains_ignoring_case(code, "error"@),
                None => false,
            },
    {
        proof {
            reveal_strlit("error");
            reveal_strlit("code");
        }
        let code = match expect_str_member(&self.properties, "code") {
            Ok(c) => c,
            Err(_) => return false,
        };
        let s = str_chars(code.as_str());
        let pat = str_chars("error");
        if s.len() < pat.len() {
            proof {
                assert forall|i: int| !matches_at(s@, i, pat@) by {}
            }
            return false;
        }
        let last = s.len() - pat.len();
        let mut i: usize = 0;
        while i <= last
            invariant
                pat@ == "error"@,
                s@ == code@,
                last + pat@.len() == s@.len(),
                s@.len() <= usize::MAX,
                i <= last + 1,
                str_member(self.properties@, "code"@) == Some(code@),
                forall|k: int| 0 <= k < i ==> !matches_at(s@, k, pat@),
            decreases last + 1 - i,
        {
            if matches_at_exec(&s, i, &pat) {
                return true;
            }
            i = i + 1;
        }
        proof {
            assert forall|k: int| !matches_at(s@, k, pat@) by {
                if 0 <= k < i {
                } else {
                }
            }
        }
        false
    }
}

impl RtmpOnStatusCommand {
    /// Whether this reports that publishing started.
    pub fn is_publish_start(&self) -> (r: bool)
        ensures
            r == (self.code@ == "NetStream.Publish.Start"@),
    {
        str_eq(self.code.as_str(), "NetStream.Publish.Start")
    }

    /// Whether this reports that playing started.
    pub fn is_play_start(&self) -> (r: bool)
        ensures
            r == (self.code@ == "NetStream.Play.Start"@),
    {
        str_eq(self.code.as_str(), "NetStream.Play.Start")
    }

    /// The status that publishing started.
    pub fn publish_start() -> (r: Self)
        ensures
            r.level@ == "status"@,
            r.code@ == "NetStream.Publish.Start"@,
            opt_view(r.description) == Some("Publish succeeded."@),
            r.details is None,
    {
        RtmpOnStatusCommand {
            level: "status".to_owned(),
            code: "NetStream.Publish.Start".to_owned(),
            description: Some("Publish succeeded.".to_owned()),
            details: None,
        }
    }

    /// The status that playing started.
    pub fn play_start() -> (r: Self)
        ensures
            r.level@ == "status"@,
            r.code@ == "NetStream.Play.Start"@,
            opt_view(r.description) == Some("Play succeeded."@),
            r.details is None,
    {
        RtmpOnStatusCommand {
            level: "status".to_owned(),
            code: "NetStream.Play.Start".to_owned(),
            description: Some("Play succeeded.".to_owned()),
            details: None,
        }
    }

    /// The error that the stream name to publish is taken, with the reason as details.
    pub fn publish_bad_name(reason: &str) -> (r: Self)
        ensures
            r.level@ == "error"@,
            r.code@ == "NetStream.Publish.BadName"@,
            opt_view(r.description) == Some("Stream name already in use."@),
            opt_view(r.details) == Some(reason@),
    {
        RtmpOnStatusCommand {
            level: "error".to_owned(),
            code: "NetStream.Publish.BadName".to_owned(),
            description: Some("Stream name already in use.".to_owned()),
            details: Some(reason.to_owned()),
        }
    }

    /// The error that the stream to play does not exist, with the reason as details.
    pub fn play_stream_not_found(reason: &str) -> (r: Self)
        ensures
            r.level@ == "error"@,
            r.code@ == "NetStream.Play.StreamNotFound"@,
            opt_view(r.description) == Some("Stream not found."@),
            opt_view(r.details) == Some(reason@),
    {
        RtmpOnStatusCommand {
            level: "error".to_owned(),
            code: "NetStream.Play.StreamNotFound".to_owned(),
            description: Some("Stream not found.".to_owned()),
            details: Some(reason.to_owned()),
        }
    }
}

} // verus!
