use shiguredo_rtmp::rtmp_chunk::{RtmpChunk, RtmpChunkSize, RtmpChunkStreamId};
use shiguredo_rtmp::rtmp_chunk_decoder::RtmpChunkDecoder;
use shiguredo_rtmp::rtmp_chunk_encoder::RtmpChunkEncoder;
use shiguredo_rtmp::rtmp_message::{RtmpMessageStreamId, RtmpMessageType};
use shiguredo_rtmp::RtmpTimestamp;

#[test]
fn decode_basic_chunk() {
    let input_chunk = input_chunk();
    let encoded = encode_chunks(&[input_chunk.clone()]);
    let decoded = decode_chunks(&encoded);
    assert_eq!(decoded, vec![input_chunk]);
}

#[test]
fn decode_consecutive_chunks_fmt0_to_fmt1() {
    let chunk0 = input_chunk();
    let chunk1 = RtmpChunk {
        message_type: RtmpMessageType::CommandAmf0,
        ..chunk0.clone()
    };
    let encoded = encode_chunks(&[chunk0.clone(), chunk1.clone()]);
    let decoded = decode_chunks(&encoded);
    assert_eq!(decoded, vec![chunk0, chunk1]);
}

#[test]
fn decode_consecutive_chunks_fmt0_to_fmt2() {
    let chunk0 = input_chunk();
    let chunk1 = RtmpChunk {
        timestamp: RtmpTimestamp::from_millis(700),
        ..chunk0.clone()
    };
    let encoded = encode_chunks(&[chunk0.clone(), chunk1.clone()]);
    let decoded = decode_chunks(&encoded);
    assert_eq!(decoded, vec![chunk0, chunk1]);
}

#[test]
fn decode_consecutive_chunks_fmt0_to_fmt2_to_fmt3_to_fmt3() {
    let chunk = input_chunk();
    let encoded = encode_chunks(&[chunk.clone(), chunk.clone(), chunk.clone(), chunk.clone()]);
    let decoded = decode_chunks(&encoded);
    assert_eq!(
        decoded,
        vec![chunk.clone(), chunk.clone(), chunk.clone(), chunk]
    );
}

#[test]
fn decode_consecutive_chunks_fmt0_to_fmt3_to_fmt3() {
    let chunk0 = input_chunk();
    let chunk1 = RtmpChunk {
        timestamp: chunk0.timestamp.wrapping_add(chunk0.timestamp),
        ..chunk0.clone()
    };
    let chunk2 = RtmpChunk {
        timestamp: chunk1.timestamp.wrapping_add(chunk0.timestamp),
        ..chunk1.clone()
    };
    let encoded = encode_chunks(&[chunk0.clone(), chunk1.clone(), chunk2.clone()]);
    let decoded = decode_chunks(&encoded);
    assert_eq!(decoded, vec![chunk0, chunk1, chunk2]);
}

#[test]
fn decode_consecutive_chunks_fmt0_to_fmt1_to_fmt2_to_fmt3() {
    let chunk0 = input_chunk();
    let chunk1 = RtmpChunk {
        message_type: RtmpMessageType::CommandAmf0,
        ..chunk0.clone()
    };
    let chunk2 = RtmpChunk {
        timestamp: chunk1
            .timestamp
            .wrapping_add(RtmpTimestamp::from_millis(400)),
        ..chunk1.clone()
    };
    let chunk3 = RtmpChunk {
        timestamp: chunk2
            .timestamp
            .wrapping_add(RtmpTimestamp::from_millis(400)),
        ..chunk2.clone()
    };
    let encoded = encode_chunks(&[
        chunk0.clone(),
        chunk1.clone(),
        chunk2.clone(),
        chunk3.clone(),
    ]);
    let decoded = decode_chunks(&encoded);
    assert_eq!(decoded, vec![chunk0, chunk1, chunk2, chunk3]);
}

#[test]
fn decode_consecutive_chunks_fmt0_to_fmt2_to_fmt0_to_fmt1() {
    let chunk0 = input_chunk();
    let chunk1 = RtmpChunk {
        timestamp: RtmpTimestamp::from_millis(700),
        ..chunk0.clone()
    };
    let chunk2 = RtmpChunk {
        timestamp: RtmpTimestamp::from_millis(100),
        ..chunk1.clone()
    };
    let chunk3 = RtmpChunk {
        payload: b"a".to_vec(),
        ..chunk2.clone()
    };
    let encoded = encode_chunks(&[
        chunk0.clone(),
        chunk1.clone(),
        chunk2.clone(),
        chunk3.clone(),
    ]);
    let decoded = decode_chunks(&encoded);
    assert_eq!(decoded, vec![chunk0, chunk1, chunk2, chunk3]);
}

#[test]
fn decode_extended_timestamp_fmt0_to_fmt3() {
    let timestamp = 0x12345678u32;
    let chunk0 = RtmpChunk {
        timestamp: RtmpTimestamp::from_millis(timestamp),
        ..input_chunk()
    };
    let chunk1 = RtmpChunk {
        timestamp: RtmpTimestamp::from_millis((timestamp.wrapping_add(timestamp)) as u32),
        ..chunk0.clone()
    };
    let encoded = encode_chunks(&[chunk0.clone(), chunk1.clone()]);
    let decoded = decode_chunks(&encoded);
    assert_eq!(decoded, vec![chunk0, chunk1]);
}

#[test]
fn decode_extended_timestamp_boundary_fmt0_to_fmt3() {
    // Test case 1: exactly 0xFFFFFF
    let timestamp0 = 0xFFFFFFu32;
    let chunk0_0 = RtmpChunk {
        timestamp: RtmpTimestamp::from_millis(timestamp0 as u32),
        ..input_chunk()
    };
    let chunk0_1 = RtmpChunk {
        timestamp: RtmpTimestamp::from_millis((timestamp0.wrapping_add(timestamp0)) as u32),
        ..chunk0_0.clone()
    };
    let encoded0 = encode_chunks(&[chunk0_0.clone(), chunk0_1.clone()]);
    let decoded0 = decode_chunks(&encoded0);
    assert_eq!(decoded0, vec![chunk0_0, chunk0_1]);

    // Test case 2: 0xFFFFFF - 1
    let timestamp1 = 0xFFFFFEu32;
    let chunk1_0 = RtmpChunk {
        timestamp: RtmpTimestamp::from_millis(timestamp1 as u32),
        ..input_chunk()
    };
    let chunk1_1 = RtmpChunk {
        timestamp: RtmpTimestamp::from_millis((timestamp1.wrapping_add(timestamp1)) as u32),
        ..chunk1_0.clone()
    };
    let encoded1 = encode_chunks(&[chunk1_0.clone(), chunk1_1.clone()]);
    let decoded1 = decode_chunks(&encoded1);
    assert_eq!(decoded1, vec![chunk1_0, chunk1_1]);

    // Test case 3: 0xFFFFFF + 1
    let timestamp2 = 0x1000000u32;
    let chunk2_0 = RtmpChunk {
        timestamp: RtmpTimestamp::from_millis(timestamp2 as u32),
        ..input_chunk()
    };
    let chunk2_1 = RtmpChunk {
        timestamp: RtmpTimestamp::from_millis((timestamp2.wrapping_add(timestamp2)) as u32),
        ..chunk2_0.clone()
    };
    let encoded2 = encode_chunks(&[chunk2_0.clone(), chunk2_1.clone()]);
    let decoded2 = decode_chunks(&encoded2);
    assert_eq!(decoded2, vec![chunk2_0, chunk2_1]);
}

#[test]
fn decode_extended_timestamp_fmt0_to_fmt1_to_fmt3() {
    let timestamp_base = 300u32;
    let timestamp_delta = 0x12345678u32;

    let chunk0 = RtmpChunk {
        timestamp: RtmpTimestamp::from_millis(timestamp_base as u32),
        ..input_chunk()
    };
    let chunk1 = RtmpChunk {
        message_type: RtmpMessageType::Video,
        timestamp: RtmpTimestamp::from_millis(
            (timestamp_base.wrapping_add(timestamp_delta)) as u32,
        ),
        ..chunk0.clone()
    };
    let chunk2 = RtmpChunk {
        timestamp: RtmpTimestamp::from_millis(
            (timestamp_base
                .wrapping_add(timestamp_delta)
                .wrapping_add(timestamp_delta)) as u32,
        ),
        ..chunk1.clone()
    };

    let encoded = encode_chunks(&[chunk0.clone(), chunk1.clone(), chunk2.clone()]);
    let decoded = decode_chunks(&encoded);
    assert_eq!(decoded, vec![chunk0, chunk1, chunk2]);
}

#[test]
fn decode_extended_timestamp_boundary_fmt0_to_fmt1_to_fmt3() {
    let timestamp_base = 300u32;

    // Test case 1: exactly 0xFFFFFF
    let timestamp_delta0 = 0xFFFFFFu32;
    let chunk0_0 = RtmpChunk {
        timestamp: RtmpTimestamp::from_millis(timestamp_base as u32),
        ..input_chunk()
    };
    let chunk0_1 = RtmpChunk {
        message_type: RtmpMessageType::Video,
        timestamp: RtmpTimestamp::from_millis(
            (timestamp_base.wrapping_add(timestamp_delta0)) as u32,
        ),
        ..chunk0_0.clone()
    };
    let chunk0_2 = RtmpChunk {
        timestamp: RtmpTimestamp::from_millis(
            (timestamp_base
                .wrapping_add(timestamp_delta0)
                .wrapping_add(timestamp_delta0)) as u32,
        ),
        ..chunk0_1.clone()
    };
    let encoded0 = encode_chunks(&[chunk0_0.clone(), chunk0_1.clone(), chunk0_2.clone()]);
    let decoded0 = decode_chunks(&encoded0);
    assert_eq!(decoded0, vec![chunk0_0, chunk0_1, chunk0_2]);

    // Test case 2: 0xFFFFFF - 1
    let timestamp_delta1 = 0xFFFFFEu32;
    let chunk1_0 = RtmpChunk {
        timestamp: RtmpTimestamp::from_millis(timestamp_base as u32),
        ..input_chunk()
    };
    let chunk1_1 = RtmpChunk {
        message_type: RtmpMessageType::Video,
        timestamp: RtmpTimestamp::from_millis(
            (timestamp_base.wrapping_add(timestamp_delta1)) as u32,
        ),
        ..chunk1_0.clone()
    };
    let chunk1_2 = RtmpChunk {
        timestamp: RtmpTimestamp::from_millis(
            (timestamp_base
                .wrapping_add(timestamp_delta1)
                .wrapping_add(timestamp_delta1)) as u32,
        ),
        ..chunk1_1.clone()
    };
    let encoded1 = encode_chunks(&[chunk1_0.clone(), chunk1_1.clone(), chunk1_2.clone()]);
    let decoded1 = decode_chunks(&encoded1);
    assert_eq!(decoded1, vec![chunk1_0, chunk1_1, chunk1_2]);

    // Test case 3: 0xFFFFFF + 1
    let timestamp_delta2 = 0x1000000u32;
    let chunk2_0 = RtmpChunk {
        timestamp: RtmpTimestamp::from_millis(timestamp_base as u32),
        ..input_chunk()
    };
    let chunk2_1 = RtmpChunk {
        message_type: RtmpMessageType::Video,
        timestamp: RtmpTimestamp::from_millis(
            (timestamp_base.wrapping_add(timestamp_delta2)) as u32,
        ),
        ..chunk2_0.clone()
    };
    let chunk2_2 = RtmpChunk {
        timestamp: RtmpTimestamp::from_millis(
            (timestamp_base
                .wrapping_add(timestamp_delta2)
                .wrapping_add(timestamp_delta2)) as u32,
        ),
        ..chunk2_1.clone()
    };
    let encoded2 = encode_chunks(&[chunk2_0.clone(), chunk2_1.clone(), chunk2_2.clone()]);
    let decoded2 = decode_chunks(&encoded2);
    assert_eq!(decoded2, vec![chunk2_0, chunk2_1, chunk2_2]);
}

#[test]
fn decode_multiple_chunk_stream_ids() {
    let chunk0 = input_chunk();
    let chunk1 = RtmpChunk {
        chunk_stream_id: RtmpChunkStreamId::new(10).unwrap(),
        ..chunk0.clone()
    };
    let chunk2 = RtmpChunk {
        chunk_stream_id: RtmpChunkStreamId::new(100).unwrap(),
        ..chunk0.clone()
    };
    let encoded = encode_chunks(&[chunk0.clone(), chunk1.clone(), chunk2.clone()]);
    let decoded = decode_chunks(&encoded);
    assert_eq!(decoded, vec![chunk0, chunk1, chunk2]);
}

#[test]
fn decode_chunk_size_change() {
    let chunk0 = RtmpChunk {
        payload: vec![0u8; 512],
        ..input_chunk()
    };
    let chunk1 = RtmpChunk {
        message_type: RtmpMessageType::CommandAmf0,
        ..chunk0.clone()
    };
    let chunk2 = RtmpChunk {
        timestamp: RtmpTimestamp::from_millis(6789),
        ..chunk1.clone()
    };
    let chunk3 = chunk2.clone();

    // Encode with two different chunk sizes
    let mut encoder = RtmpChunkEncoder::default();
    let mut buf = Vec::new();

    encoder.encode(&mut buf, &chunk0);
    encoder.encode(&mut buf, &chunk1);

    encoder.set_chunk_size(RtmpChunkSize::new(256).unwrap());

    encoder.encode(&mut buf, &chunk2);
    encoder.encode(&mut buf, &chunk3);

    let encoded = &buf[..];

    // Decode with matching chunk size changes
    let mut decoder = RtmpChunkDecoder::default();
    let mut remaining = encoded;
    let mut decoded = vec![];

    while decoded.len() < 2 {
        let (size, chunk) = decoder.decode(remaining).expect("bug");
        remaining = &remaining[size..];
        if let Some(chunk) = chunk {
            decoded.push(chunk);
        }
    }

    decoder.set_chunk_size(RtmpChunkSize::new(256).unwrap());

    while decoded.len() < 4 {
        let (size, chunk) = decoder.decode(remaining).expect("bug");
        remaining = &remaining[size..];
        if let Some(chunk) = chunk {
            decoded.push(chunk);
        }
    }

    assert_eq!(decoded, vec![chunk0, chunk1, chunk2, chunk3]);
}

#[test]
fn decode_chunk_id_over_320() {
    let chunk0 = RtmpChunk {
        chunk_stream_id: RtmpChunkStreamId::new(320).expect("infallible"),
        ..input_chunk()
    };
    let chunk1 = RtmpChunk {
        chunk_stream_id: RtmpChunkStreamId::new(320).expect("infallible"),
        message_type: RtmpMessageType::CommandAmf0,
        ..chunk0.clone()
    };
    let encoded = encode_chunks(&[chunk0.clone(), chunk1.clone()]);
    let decoded = decode_chunks(&encoded);
    assert_eq!(decoded, vec![chunk0, chunk1]);
}

#[test]
fn decode_chunk_id_65599() {
    let chunk0 = RtmpChunk {
        chunk_stream_id: RtmpChunkStreamId::new(65599).expect("infallible"),
        ..input_chunk()
    };
    let chunk1 = RtmpChunk {
        chunk_stream_id: RtmpChunkStreamId::new(65599).expect("infallible"),
        message_type: RtmpMessageType::Video,
        ..chunk0.clone()
    };
    let encoded = encode_chunks(&[chunk0.clone(), chunk1.clone()]);
    let decoded = decode_chunks(&encoded);
    assert_eq!(decoded, vec![chunk0, chunk1]);
}

#[test]
fn decode_multiple_chunk_stream_ids_with_large_ids() {
    let chunk0 = input_chunk();
    let chunk1 = RtmpChunk {
        chunk_stream_id: RtmpChunkStreamId::new(320).expect("infallible"),
        ..chunk0.clone()
    };
    let chunk2 = RtmpChunk {
        chunk_stream_id: RtmpChunkStreamId::new(65599).expect("infallible"),
        ..chunk0.clone()
    };
    let chunk3 = RtmpChunk {
        chunk_stream_id: RtmpChunkStreamId::new(4).expect("infallible"),
        ..chunk0.clone()
    };
    let encoded = encode_chunks(&[
        chunk0.clone(),
        chunk1.clone(),
        chunk2.clone(),
        chunk3.clone(),
    ]);
    let decoded = decode_chunks(&encoded);
    assert_eq!(decoded, vec![chunk0, chunk1, chunk2, chunk3]);
}

fn input_chunk() -> RtmpChunk {
    RtmpChunk {
        chunk_stream_id: RtmpChunkStreamId::new(4).expect("infallible"),
        message_stream_id: RtmpMessageStreamId::new(2),
        message_type: RtmpMessageType::Ack,
        timestamp: RtmpTimestamp::from_millis(300),
        payload: b"abc".to_vec(),
    }
}

fn encode_chunks(chunks: &[RtmpChunk]) -> Vec<u8> {
    let mut encoder = RtmpChunkEncoder::default();
    let mut buf = Vec::new();

    for chunk in chunks {
        encoder.encode(&mut buf, chunk);
    }

    buf
}

fn decode_chunks(encoded: &[u8]) -> Vec<RtmpChunk> {
    let mut decoder = RtmpChunkDecoder::default();
    let mut remaining = encoded;
    let mut chunks = vec![];

    while let Ok((size, Some(chunk))) = decoder.decode(remaining) {
        chunks.push(chunk);
        remaining = &remaining[size..];
    }

    chunks
}
