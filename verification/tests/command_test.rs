use shiguredo_rtmp::amf::Pair;
use shiguredo_rtmp::float64::Float64;
use shiguredo_rtmp::rtmp_command::{
    RtmpCommand, RtmpConnectCommand, RtmpOnStatusCommand, RtmpPublishCommand, RtmpResultCommand,
    TransactionId,
};
use shiguredo_rtmp::rtmp_message::{RtmpMessage, RtmpMessageHeader, RtmpMessageStreamId};
use shiguredo_rtmp::{Amf0Value, AmfValue, AmfVersion, ErrorKind};

fn string(s: &str) -> AmfValue {
    AmfValue::Amf0(Amf0Value::String(s.to_owned()))
}

fn object(entries: Vec<(&str, Amf0Value)>) -> AmfValue {
    AmfValue::amf0_object(entries)
}

#[test]
fn connect_command_is_read_from_its_object() {
    let object = object(vec![
        ("app", Amf0Value::String("live".to_owned())),
        ("flashVer", Amf0Value::String("FMLE/3.0".to_owned())),
        ("tcUrl", Amf0Value::String("rtmp://host/live".to_owned())),
    ]);
    let command = RtmpCommand::from_message("connect", TransactionId::connect(), object, vec![]).unwrap();
    match command {
        RtmpCommand::Connect(c) => {
            assert_eq!(c.app, "live");
            assert_eq!(c.flash_ver, "FMLE/3.0");
            assert_eq!(c.tc_url, "rtmp://host/live");
        }
        other => panic!("unexpected command {other:?}"),
    }
}

#[test]
fn connect_with_a_wrong_transaction_id_is_invalid() {
    let object = object(vec![("app", Amf0Value::String("live".to_owned()))]);
    let err = RtmpCommand::from_message("connect", TransactionId(5), object, vec![]).unwrap_err();
    assert_eq!(err.kind, ErrorKind::InvalidData);
}

#[test]
fn connect_without_a_member_is_invalid() {
    let object = object(vec![("app", Amf0Value::String("live".to_owned()))]);
    let err = RtmpCommand::from_message("connect", TransactionId::connect(), object, vec![]).unwrap_err();
    assert_eq!(err.kind, ErrorKind::InvalidData);
}

#[test]
fn publish_needs_the_live_type() {
    let null = AmfValue::Amf0(Amf0Value::Null);
    let ok = RtmpCommand::from_message(
        "publish",
        TransactionId(4),
        AmfValue::Amf0(Amf0Value::Null),
        vec![string("stream"), string("live")],
    )
    .unwrap();
    assert_eq!(ok.name(), "publish");
    let err = RtmpCommand::from_message("publish", TransactionId(4), null, vec![string("stream"), string("record")])
        .unwrap_err();
    assert_eq!(err.kind, ErrorKind::Unsupported);
    let err = RtmpCommand::from_message("publish", TransactionId(4), AmfValue::Amf0(Amf0Value::Null), vec![string("s")])
        .unwrap_err();
    assert_eq!(err.kind, ErrorKind::InvalidData);
}

#[test]
fn unknown_commands_are_kept_as_ignored() {
    let command = RtmpCommand::from_message("FCPublish", TransactionId(3), AmfValue::Amf0(Amf0Value::Null), vec![])
        .unwrap();
    assert_eq!(command.name(), "FCPublish");
    assert_eq!(
        command.into_pcm_message().unwrap_err().kind,
        ErrorKind::InvalidState
    );
}

#[test]
fn delete_stream_takes_the_integer_part_of_the_id() {
    let command = RtmpCommand::from_message(
        "deleteStream",
        TransactionId(6),
        AmfValue::Amf0(Amf0Value::Null),
        vec![AmfValue::number(AmfVersion::Amf0, Float64::from_bits(0x4004_0000_0000_0000))], // 2.5
    )
    .unwrap();
    match command {
        RtmpCommand::DeleteStream(c) => assert_eq!(c.stream_id.get(), 2),
        other => panic!("unexpected command {other:?}"),
    }
}

#[test]
fn command_message_round_trip_through_from_message() {
    let command = RtmpCommand::Publish(RtmpPublishCommand {
        transaction_id: TransactionId(7),
        stream_name: "cam".to_owned(),
    });
    let message = command.into_message(RtmpMessageHeader::pcm()).unwrap();
    match message {
        RtmpMessage::Command { name, transaction_id, object, args, amf_version, .. } => {
            assert_eq!(name, "publish");
            assert_eq!(transaction_id, TransactionId(7));
            assert_eq!(amf_version, AmfVersion::Amf0);
            let back = RtmpCommand::from_message(&name, transaction_id, object, args).unwrap();
            match back {
                RtmpCommand::Publish(p) => assert_eq!(p.stream_name, "cam"),
                other => panic!("unexpected command {other:?}"),
            }
        }
        other => panic!("unexpected message {other:?}"),
    }
}

#[test]
fn connect_accept_answers_with_the_connect_transaction() {
    let connect = RtmpConnectCommand {
        app: "live".to_owned(),
        flash_ver: "x".to_owned(),
        tc_url: "rtmp://h/live".to_owned(),
    };
    match connect.accept().unwrap() {
        RtmpMessage::Command { header, name, transaction_id, args, .. } => {
            assert_eq!(header, RtmpMessageHeader::pcm());
            assert_eq!(name, "_result");
            assert_eq!(transaction_id, TransactionId::connect());
            let code = args[0].expect_object_member("code").unwrap().expect_str().unwrap().to_owned();
            assert_eq!(code, "NetConnection.Connect.Success");
        }
        other => panic!("unexpected message {other:?}"),
    }
}

#[test]
fn publish_accept_goes_on_the_given_stream() {
    match RtmpPublishCommand::accept(TransactionId(5), RtmpMessageStreamId::media()).unwrap() {
        RtmpMessage::Command { header, transaction_id, args, .. } => {
            assert_eq!(header.stream_id, RtmpMessageStreamId::media());
            assert_eq!(transaction_id, TransactionId(5));
            let code = args[0].expect_object_member("code").unwrap().expect_str().unwrap().to_owned();
            assert_eq!(code, "NetStream.Publish.Start");
        }
        other => panic!("unexpected message {other:?}"),
    }
}

#[test]
fn result_is_error_by_its_code() {
    let error = RtmpResultCommand {
        transaction_id: TransactionId(1),
        properties: object(vec![("code", Amf0Value::String("NetConnection.Connect.ERROR".to_owned()))]),
        information: AmfValue::Amf0(Amf0Value::Null),
    };
    assert!(error.is_error());
    let success = RtmpResultCommand {
        transaction_id: TransactionId(1),
        properties: object(vec![("code", Amf0Value::String("NetConnection.Connect.Success".to_owned()))]),
        information: AmfValue::Amf0(Amf0Value::Null),
    };
    assert!(!success.is_error());
    let no_code = RtmpResultCommand::create_stream_result(TransactionId(2), RtmpMessageStreamId::media());
    assert!(!no_code.is_error());
    assert_eq!(no_code.information, AmfValue::Amf0(Amf0Value::Number(Float64::from_bits(0x3FF0_0000_0000_0000))));
    let length = RtmpResultCommand::get_stream_length_result(TransactionId(3), Float64::zero());
    assert_eq!(length.information, AmfValue::Amf0(Amf0Value::Number(Float64::zero())));
}

#[test]
fn on_status_constructors() {
    let s = RtmpOnStatusCommand::publish_start();
    assert!(s.is_publish_start());
    assert!(!s.is_play_start());
    let p = RtmpOnStatusCommand::play_start();
    assert!(p.is_play_start());
    let bad = RtmpOnStatusCommand::publish_bad_name("why");
    assert_eq!(bad.level, "error");
    assert_eq!(bad.code, "NetStream.Publish.BadName");
    assert_eq!(bad.details, Some("why".to_owned()));
    let nf = RtmpOnStatusCommand::play_stream_not_found("gone");
    assert_eq!(nf.code, "NetStream.Play.StreamNotFound");
    assert_eq!(nf.description, Some("Stream not found.".to_owned()));
}

#[test]
fn transaction_ids() {
    let mut id = TransactionId::non_reserved_start();
    assert_eq!(id.get(), 2);
    id.increment();
    assert_eq!(id.get(), 3);
    assert_eq!(TransactionId::from_f64(Float64::from_bits(0x4010_0000_0000_0000)).get(), 4); // 4.0
    assert_eq!(TransactionId::from_f64(Float64::from_bits(0x7FF8_0000_0000_0000)).get(), 0); // NaN
    assert_eq!(TransactionId::from_f64(Float64::from_bits(0xFFF0_0000_0000_0000)).get(), i64::MIN); // -inf
    assert_eq!(TransactionId::on_status().get(), 0);
}

#[test]
fn amf_object_member_lookup() {
    let o = object(vec![
        ("a", Amf0Value::String("1".to_owned())),
        ("a", Amf0Value::String("2".to_owned())),
    ]);
    assert_eq!(o.expect_object_member("a").unwrap().expect_str().unwrap(), "1");
    assert_eq!(o.expect_object_member("b").unwrap_err().kind, ErrorKind::InvalidData);
    let pair = Pair { key: "k".to_owned(), value: 1u8 };
    assert_eq!(pair.key, "k");
}
