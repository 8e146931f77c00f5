use shiguredo_rtmp::bytes::{write_bytes, write_u24, write_u32, write_u8};
use shiguredo_rtmp::rtmp_chunk::{RtmpChunk, RtmpChunkSize, RtmpChunkStreamId};
use shiguredo_rtmp::rtmp_chunk_encoder::RtmpChunkEncoder;
use shiguredo_rtmp::rtmp_message::{RtmpMessageStreamId, RtmpMessageType};
use shiguredo_rtmp::RtmpTimestamp;

#[test]
fn encode_basic_chunk() {
    let input_chunk = input_chunk();
    let expected = fmt_0(4, 300, 3, 2, b"abc");
    let encoded = encode_chunks(RtmpChunkEncoder::default(), &[input_chunk]);
    assert_eq!(encoded, expected);
}

#[test]
fn encode_consecutive_chunks_fmt0_to_fmt1() {
    let chunk0 = input_chunk();
    let chunk1 = RtmpChunk {
        message_type: RtmpMessageType::CommandAmf0,
        ..chunk0.clone()
    };
    let expected = [fmt_0(4, 300, 3, 2, b"abc"), fmt_1(4, 0, 20, b"abc")].concat();
    let encoded = encode_chunks(RtmpChunkEncoder::default(), &[chunk0, chunk1]);
    assert_eq!(encoded, expected);
}

#[test]
fn encode_consecutive_chunks_fmt0_to_fmt2() {
    let chunk0 = input_chunk();
    let chunk1 = RtmpChunk {
        timestamp: RtmpTimestamp::from_millis(700),
        ..chunk0.clone()
    };
    let expected = [fmt_0(4, 300, 3, 2, b"abc"), fmt_2(4, 400, b"abc")].concat();
    let encoded = encode_chunks(RtmpChunkEncoder::default(), &[chunk0, chunk1]);
    assert_eq!(encoded, expected);
}

#[test]
fn encode_consecutive_chunks_fmt0_to_fmt2_to_fmt3_to_fmt3() {
    let chunk = input_chunk();
    let expected = [
        fmt_0(4, 300, 3, 2, b"abc"),
        fmt_2(4, 0, b"abc"),
        fmt_3(4, b"abc"),
        fmt_3(4, b"abc"),
    ]
    .concat();
    let encoded = encode_chunks(
        RtmpChunkEncoder::default(),
        &[chunk.clone(), chunk.clone(), chunk.clone(), chunk],
    );
    assert_eq!(encoded, expected);
}

#[test]
fn encode_consecutive_chunks_fmt0_to_fmt3_to_fmt3() {
    let chunk0 = input_chunk();
    let chunk1 = RtmpChunk {
        timestamp: chunk0.timestamp.wrapping_add(chunk0.timestamp),
        ..chunk0.clone()
    };
    let chunk2 = RtmpChunk {
        timestamp: chunk1.timestamp.wrapping_add(chunk0.timestamp),
        ..chunk1.clone()
    };
    let expected = [
        fmt_0(4, 300, 3, 2, b"abc"),
        fmt_3(4, b"abc"),
        fmt_3(4, b"abc"),
    ]
    .concat();
    let encoded = encode_chunks(RtmpChunkEncoder::default(), &[chunk0, chunk1, chunk2]);
    assert_eq!(encoded, expected);
}

#[test]
fn encode_consecutive_chunks_fmt0_to_fmt1_to_fmt2_to_fmt3() {
    let chunk0 = input_chunk();
    let chunk1 = RtmpChunk {
        message_type: RtmpMessageType::CommandAmf0,
        ..chunk0.clone()
    };
    let chunk2 = RtmpChunk {
        timestamp: chunk1
            .timestamp
            .wrapping_add(RtmpTimestamp::from_millis(400)),
        ..chunk1.clone()
    };
    let chunk3 = RtmpChunk {
        timestamp: chunk2
            .timestamp
            .wrapping_add(RtmpTimestamp::from_millis(400)),
        ..chunk2.clone()
    };
    let expected = [
        fmt_0(4, 300, 3, 2, b"abc"),
        fmt_1(4, 0, 20, b"abc"),
        fmt_2(4, 400, b"abc"),
        fmt_3(4, b"abc"),
    ]
    .concat();
    let encoded = encode_chunks(
        RtmpChunkEncoder::default(),
        &[chunk0, chunk1, chunk2, chunk3],
    );
    assert_eq!(encoded, expected);
}

#[test]
fn encode_consecutive_chunks_fmt0_to_fmt2_to_fmt0_to_fmt1() {
    let chunk0 = input_chunk();
    let chunk1 = RtmpChunk {
        timestamp: RtmpTimestamp::from_millis(700),
        ..chunk0.clone()
    };
    let chunk2 = RtmpChunk {
        timestamp: RtmpTimestamp::from_millis(100),
        ..chunk1.clone()
    };
    let chunk3 = RtmpChunk {
        payload: b"a".to_vec(),
        ..chunk2.clone()
    };
    let expected = [
        fmt_0(4, 300, 3, 2, b"abc"),
        fmt_2(4, 400, b"abc"),
        fmt_0(4, 100, 3, 2, b"abc"),
        fmt_1(4, 0, 3, b"a"),
    ]
    .concat();
    let encoded = encode_chunks(
        RtmpChunkEncoder::default(),
        &[chunk0, chunk1, chunk2, chunk3],
    );
    assert_eq!(encoded, expected);
}

#[test]
fn encode_extended_timestamp_fmt0_to_fmt3() {
    let timestamp = 0x12345678u32; // >= 0xFFFFFF
    let chunk0 = RtmpChunk {
        timestamp: RtmpTimestamp::from_millis(timestamp),
        ..input_chunk()
    };
    let chunk1 = RtmpChunk {
        timestamp: RtmpTimestamp::from_millis((timestamp.wrapping_add(timestamp)) as u32),
        ..chunk0.clone()
    };
    let expected = [
        fmt_ext_0(4, timestamp, 3, 2, b"abc"),
        fmt_ext_3(4, timestamp, b"abc"),
    ]
    .concat();
    let encoded = encode_chunks(RtmpChunkEncoder::default(), &[chunk0, chunk1]);
    assert_eq!(encoded, expected);
}

#[test]
fn encode_extended_timestamp_boundary_fmt0_to_fmt3() {
    // Test case 1: exactly 0xFFFFFF
    let timestamp0 = 0xFFFFFFu32;
    let chunk0_0 = RtmpChunk {
        timestamp: RtmpTimestamp::from_millis(timestamp0),
        ..input_chunk()
    };
    let chunk0_1 = RtmpChunk {
        timestamp: RtmpTimestamp::from_millis((timestamp0.wrapping_add(timestamp0)) as u32),
        ..chunk0_0.clone()
    };
    let expected0 = [
        fmt_ext_0(4, timestamp0, 3, 2, b"abc"),
        fmt_ext_3(4, timestamp0, b"abc"),
    ]
    .concat();
    let encoded0 = encode_chunks(RtmpChunkEncoder::default(), &[chunk0_0, chunk0_1]);
    assert_eq!(encoded0, expected0);

    // Test case 2: 0xFFFFFF - 1
    let timestamp1 = 0xFFFFFEu32;
    let chunk1_0 = RtmpChunk {
        timestamp: RtmpTimestamp::from_millis(timestamp1),
        ..input_chunk()
    };
    let chunk1_1 = RtmpChunk {
        timestamp: RtmpTimestamp::from_millis((timestamp1.wrapping_add(timestamp1)) as u32),
        ..chunk1_0.clone()
    };
    let expected1 = [fmt_0(4, timestamp1, 3, 2, b"abc"), fmt_3(4, b"abc")].concat();
    let encoded1 = encode_chunks(RtmpChunkEncoder::default(), &[chunk1_0, chunk1_1]);
    assert_eq!(encoded1, expected1);

    // Test case 3: 0xFFFFFF + 1
    let timestamp2 = 0x1000000u32;
    let chunk2_0 = RtmpChunk {
        timestamp: RtmpTimestamp::from_millis(timestamp2),
        ..input_chunk()
    };
    let chunk2_1 = RtmpChunk {
        timestamp: RtmpTimestamp::from_millis((timestamp2.wrapping_add(timestamp2)) as u32),
        ..chunk2_0.clone()
    };
    let expected2 = [
        fmt_ext_0(4, timestamp2, 3, 2, b"abc"),
        fmt_ext_3(4, timestamp2, b"abc"),
    ]
    .concat();
    let encoded2 = encode_chunks(RtmpChunkEncoder::default(), &[chunk2_0, chunk2_1]);
    assert_eq!(encoded2, expected2);
}

#[test]
fn encode_extended_timestamp_fmt0_to_fmt1_to_fmt3() {
    let timestamp_base = 300u32;
    let timestamp_delta = 0x12345678u32; // >= 0xFFFFFF

    let chunk0 = RtmpChunk {
        timestamp: RtmpTimestamp::from_millis(timestamp_base),
        ..input_chunk()
    };
    let chunk1 = RtmpChunk {
        message_type: RtmpMessageType::Video,
        timestamp: RtmpTimestamp::from_millis(
            (timestamp_base.wrapping_add(timestamp_delta)) as u32,
        ),
        ..chunk0.clone()
    };
    let chunk2 = RtmpChunk {
        timestamp: RtmpTimestamp::from_millis(
            (timestamp_base
                .wrapping_add(timestamp_delta)
                .wrapping_add(timestamp_delta)) as u32,
        ),
        ..chunk1.clone()
    };

    let expected = [
        fmt_0(4, timestamp_base, 3, 2, b"abc"),
        fmt_ext_1(4, timestamp_delta, 9, b"abc"),
        fmt_ext_3(4, timestamp_delta, b"abc"),
    ]
    .concat();
    let encoded = encode_chunks(RtmpChunkEncoder::default(), &[chunk0, chunk1, chunk2]);
    assert_eq!(encoded, expected);
}

#[test]
fn encode_extended_timestamp_boundary_fmt0_to_fmt1_to_fmt3() {
    let timestamp_base = 300u32;

    // Test case 1: exactly 0xFFFFFF
    let timestamp_delta0 = 0xFFFFFFu32;
    let chunk0_0 = RtmpChunk {
        timestamp: RtmpTimestamp::from_millis(timestamp_base),
        ..input_chunk()
    };
    let chunk0_1 = RtmpChunk {
        message_type: RtmpMessageType::Video,
        timestamp: RtmpTimestamp::from_millis(
            (timestamp_base.wrapping_add(timestamp_delta0)) as u32,
        ),
        ..chunk0_0.clone()
    };
    let chunk0_2 = RtmpChunk {
        timestamp: RtmpTimestamp::from_millis(
            (timestamp_base
                .wrapping_add(timestamp_delta0)
                .wrapping_add(timestamp_delta0)) as u32,
        ),
        ..chunk0_1.clone()
    };
    let expected0 = [
        fmt_0(4, timestamp_base, 3, 2, b"abc"),
        fmt_ext_1(4, timestamp_delta0, 9, b"abc"),
        fmt_ext_3(4, timestamp_delta0, b"abc"),
    ]
    .concat();
    let encoded0 = encode_chunks(RtmpChunkEncoder::default(), &[chunk0_0, chunk0_1, chunk0_2]);
    assert_eq!(encoded0, expected0);

    // Test case 2: 0xFFFFFF - 1
    let timestamp_delta1 = 0xFFFFFEu32;
    let chunk1_0 = RtmpChunk {
        timestamp: RtmpTimestamp::from_millis(timestamp_base),
        ..input_chunk()
    };
    let chunk1_1 = RtmpChunk {
        message_type: RtmpMessageType::Video,
        timestamp: RtmpTimestamp::from_millis(
            (timestamp_base.wrapping_add(timestamp_delta1)) as u32,
        ),
        ..chunk1_0.clone()
    };
    let chunk1_2 = RtmpChunk {
        timestamp: RtmpTimestamp::from_millis(
            (timestamp_base
                .wrapping_add(timestamp_delta1)
                .wrapping_add(timestamp_delta1)) as u32,
        ),
        ..chunk1_1.clone()
    };
    let expected1 = [
        fmt_0(4, timestamp_base, 3, 2, b"abc"),
        fmt_1(4, timestamp_delta1, 9, b"abc"),
        fmt_3(4, b"abc"),
    ]
    .concat();
    let encoded1 = encode_chunks(RtmpChunkEncoder::default(), &[chunk1_0, chunk1_1, chunk1_2]);
    assert_eq!(encoded1, expected1);

    // Test case 3: 0xFFFFFF + 1
    let timestamp_delta2 = 0x1000000u32;
    let chunk2_0 = RtmpChunk {
        timestamp: RtmpTimestamp::from_millis(timestamp_base),
        ..input_chunk()
    };
    let chunk2_1 = RtmpChunk {
        message_type: RtmpMessageType::Video,
        timestamp: RtmpTimestamp::from_millis(
            (timestamp_base.wrapping_add(timestamp_delta2)) as u32,
        ),
        ..chunk2_0.clone()
    };
    let chunk2_2 = RtmpChunk {
        timestamp: RtmpTimestamp::from_millis(
            (timestamp_base
                .wrapping_add(timestamp_delta2)
                .wrapping_add(timestamp_delta2)) as u32,
        ),
        ..chunk2_1.clone()
    };
    let expected2 = [
        fmt_0(4, timestamp_base, 3, 2, b"abc"),
        fmt_ext_1(4, timestamp_delta2, 9, b"abc"),
        fmt_ext_3(4, timestamp_delta2, b"abc"),
    ]
    .concat();
    let encoded2 = encode_chunks(RtmpChunkEncoder::default(), &[chunk2_0, chunk2_1, chunk2_2]);
    assert_eq!(encoded2, expected2);
}

#[test]
fn encode_chunk_id_over_320_uses_little_endian() {
    // Chunk stream ID 320 is written as 320 - 64 = 256 = 0x0100,
    // little-endian: 0x00, 0x01
    // (big-endian, which would be wrong: 0x01, 0x00)
    let chunk = RtmpChunk {
        chunk_stream_id: RtmpChunkStreamId::new(320).expect("infallible"),
        ..input_chunk()
    };

    let encoded = encode_chunks(RtmpChunkEncoder::default(), &[chunk]);

    // The basic header must be:
    // - fmt_flag | 1 = 0b0000_0001 (fmt 0, two-byte ID form)
    // - delta_id[0] = 0x00 (low byte of 256)
    // - delta_id[1] = 0x01 (high byte of 256)
    assert_eq!(encoded[0], 0x01);
    assert_eq!(encoded[1], 0x00);
    assert_eq!(encoded[2], 0x01);
}

#[test]
fn encode_chunk_id_65599_uses_little_endian() {
    // Chunk stream ID 65599 is written as 65599 - 64 = 65535 = 0xFFFF,
    // little-endian: 0xFF, 0xFF
    let chunk = RtmpChunk {
        chunk_stream_id: RtmpChunkStreamId::new(65599).expect("infallible"),
        ..input_chunk()
    };

    let encoded = encode_chunks(RtmpChunkEncoder::default(), &[chunk]);

    // The basic header must be:
    // - fmt_flag | 1 = 0b0000_0001 (fmt 0, two-byte ID form)
    // - delta_id[0] = 0xFF (low byte of 65535)
    // - delta_id[1] = 0xFF (high byte of 65535)
    assert_eq!(encoded[0], 0x01);
    assert_eq!(encoded[1], 0xFF);
    assert_eq!(encoded[2], 0xFF);
}

fn input_chunk() -> RtmpChunk {
    RtmpChunk {
        chunk_stream_id: RtmpChunkStreamId::new(4).expect("infallible"),
        message_stream_id: RtmpMessageStreamId::new(2),
        message_type: RtmpMessageType::Ack,
        timestamp: RtmpTimestamp::from_millis(300),
        payload: b"abc".to_vec(),
    }
}

fn encode_chunks(mut encoder: RtmpChunkEncoder, chunks: &[RtmpChunk]) -> Vec<u8> {
    let mut buf = Vec::new();
    for chunk in chunks {
        encoder.encode(&mut buf, chunk);
    }
    buf
}

fn fmt_0(chunk_id: u8, timestamp: u32, type_id: u8, stream_id: u32, payload: &[u8]) -> Vec<u8> {
    let mut buf = Vec::new();

    write_u8(&mut buf, chunk_id);
    write_u24(&mut buf, timestamp);
    write_u24(&mut buf, payload.len() as u32);
    write_u8(&mut buf, type_id);
    write_u32(&mut buf, stream_id.swap_bytes());
    write_bytes(&mut buf, payload);

    buf
}

fn fmt_1(chunk_id: u8, timestamp_delta: u32, type_id: u8, payload: &[u8]) -> Vec<u8> {
    let mut buf = Vec::new();

    write_u8(&mut buf, 0b0100_0000 | chunk_id);
    write_u24(&mut buf, timestamp_delta);
    write_u24(&mut buf, payload.len() as u32);
    write_u8(&mut buf, type_id);
    write_bytes(&mut buf, payload);

    buf
}

fn fmt_2(chunk_id: u8, timestamp_delta: u32, payload: &[u8]) -> Vec<u8> {
    let mut buf = Vec::new();

    write_u8(&mut buf, 0b1000_0000 | chunk_id);
    write_u24(&mut buf, timestamp_delta);
    write_bytes(&mut buf, payload);

    buf
}

fn fmt_3(chunk_id: u8, payload: &[u8]) -> Vec<u8> {
    let mut buf = Vec::new();

    write_u8(&mut buf, 0b1100_0000 | chunk_id);
    write_bytes(&mut buf, payload);

    buf
}

fn fmt_ext_0(
    chunk_id: u8,
    timestamp: u32,
    type_id: u8,
    stream_id: u32,
    payload: &[u8],
) -> Vec<u8> {
    let mut buf = Vec::new();

    write_u8(&mut buf, chunk_id);
    write_u24(&mut buf, 0xFFFFFF);
    write_u24(&mut buf, payload.len() as u32);
    write_u8(&mut buf, type_id);
    write_u32(&mut buf, stream_id.swap_bytes());
    write_u32(&mut buf, timestamp);
    write_bytes(&mut buf, payload);

    buf
}

fn fmt_ext_1(chunk_id: u8, timestamp_delta: u32, type_id: u8, payload: &[u8]) -> Vec<u8> {
    let mut buf = Vec::new();

    write_u8(&mut buf, 0b0100_0000 | chunk_id);
    write_u24(&mut buf, 0xFFFFFF);
    write_u24(&mut buf, payload.len() as u32);
    write_u8(&mut buf, type_id);
    write_u32(&mut buf, timestamp_delta);
    write_bytes(&mut buf, payload);

    buf
}

fn fmt_ext_3(chunk_id: u8, timestamp_delta: u32, payload: &[u8]) -> Vec<u8> {
    let mut buf = Vec::new();

    write_u8(&mut buf, 0b1100_0000 | chunk_id);
    write_u32(&mut buf, timestamp_delta);
    write_bytes(&mut buf, payload);

    buf
}
