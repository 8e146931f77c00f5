use vstd::prelude::*;

use crate::bytes::{i24_value, i32_bits, read_i24, read_u24, read_u8, u24_be, be24, write_bytes, write_i24, write_u8};
use crate::error::{Error, ErrorKind};
use crate::media::{
    AudioFormat, AudioFrame, AudioSampleRate, AvcPacketType, VideoCodec, VideoFrame,
    VideoFrameType,
};
use crate::rtmp_timestamp::{RtmpTimestamp, RtmpTimestampDelta};

verus! {

/// The first byte of an FLV audio tag body.
pub open spec fn audio_header_byte(f: AudioFrame) -> u8 {
    (f.format.spec_code() * 16 + f.sample_rate.spec_code() * 4 + (if f.is_8bit_sample {
        2int
    } else {
        0int
    }) + (if f.is_stereo {
        1int
    } else {
        0int
    })) as u8
}

/// The bytes of an FLV audio tag body.
pub open spec fn audio_frame_bytes(f: AudioFrame) -> Seq<u8> {
    seq![audio_header_byte(f)] + (if f.format == AudioFormat::Aac {
        seq![if f.is_aac_sequence_header { 0u8 } else { 1u8 }]
    } else {
        Seq::<u8>::empty()
    }) + f.data@
}

/// Why an FLV audio tag body cannot be decoded, if it cannot.
pub open spec fn audio_decode_error(b: Seq<u8>) -> Option<ErrorKind> {
    if b.len() == 0 {
        Some(ErrorKind::InsufficientBuffer)
    } else if AudioFormat::spec_from_code(b[0] / 16) is None {
        Some(ErrorKind::InvalidData)
    } else if AudioFormat::spec_from_code(b[0] / 16) == Some(AudioFormat::Aac) && b.len() < 2 {
        Some(ErrorKind::InsufficientBuffer)
    } else {
        None
    }
}

/// `f` is what decoding the FLV audio tag body `b` with timestamp `ts` gives.
pub open spec fn audio_decoded(b: Seq<u8>, ts: RtmpTimestamp, f: AudioFrame) -> bool {
    let aac = f.format == AudioFormat::Aac;
    &&& f.timestamp == ts
    &&& Some(f.format) == AudioFormat::spec_from_code(b[0] / 16)
    &&& f.sample_rate == AudioSampleRate::spec_from_code(((b[0] / 4) % 4) as u8)
    &&& f.is_8bit_sample == ((b[0] / 2) % 2 == 1)
    &&& f.is_stereo == (b[0] % 2 == 1)
    &&& f.is_aac_sequence_header == (aac && b[1] == 0)
    &&& f.data@ == b.skip(if aac { 2 } else { 1 })
}

/// Appends the FLV audio tag body of `frame`.
pub fn encode_audio_frame(buf: &mut Vec<u8>, frame: &AudioFrame)
    ensures
        final(buf)@ == old(buf)@ + audio_frame_bytes(*frame),
{
    let header: u8 = frame.format.code() * 16 + frame.sample_rate.code() * 4 + (if frame.is_8bit_sample {
        2u8
    } else {
        0u8
    }) + (if frame.is_stereo {
        1u8
    } else {
        0u8
    });
    write_u8(buf, header);
    let is_aac = match frame.format {
        AudioFormat::Aac => true,
        _ => false,
    };
    if is_aac {
        write_u8(buf, if frame.is_aac_sequence_header { 0 } else { 1 });
    }
    write_bytes(buf, frame.data.as_slice());
    assert(buf@ =~= old(buf)@ + audio_frame_bytes(*frame));
}

/// Decodes an FLV audio tag body.
pub fn decode_audio_frame(buf: &[u8], timestamp: RtmpTimestamp) -> (r: Result<AudioFrame, Error>)
    ensures
        r is Ok <==> audio_decode_error(buf@) is None,
        r matches Ok(f) ==> audio_decoded(buf@, timestamp, f),
        r matches Err(e) ==> Some(e.kind) == audio_decode_error(buf@),
{
    let header = read_u8(buf, 0)?;
    let format = match AudioFormat::from_code(header / 16) {
        Some(f) => f,
        None => {
            return Err(Error::with_number(ErrorKind::InvalidData, "Invalid audio format: ", (header / 16) as u64));
        },
    };
    let sample_rate = AudioSampleRate::from_code((header / 4) % 4);
    let is_8bit_sample = (header / 2) % 2 == 1;
    let is_stereo = header % 2 == 1;
    let is_aac = match format {
        AudioFormat::Aac => true,
        _ => false,
    };
    let mut pos: usize = 1;
    let is_aac_sequence_header = if is_aac {
        let aac_packet_type = read_u8(buf, 1)?;
        pos = 2;
        aac_packet_type == 0
    } else {
        false
    };
    let data = vstd::slice::slice_to_vec(vstd::slice::slice_subrange(buf, pos, buf.len()));
    assert(data@ =~= buf@.skip(pos as int));
    Ok(AudioFrame {
        timestamp,
        format,
        sample_rate,
        is_8bit_sample,
        is_stereo,
        is_aac_sequence_header,
        data,
    })
}

/// Decoding an encoded audio frame succeeds and gives the frame back: any frame `g` that
/// the bytes decode to agrees with `f`.
pub proof fn lemma_audio_frame_roundtrip(f: AudioFrame, g: AudioFrame)
    ensures
        audio_decode_error(audio_frame_bytes(f)) is None,
        audio_decoded(audio_frame_bytes(f), f.timestamp, g) ==> {
            &&& g.timestamp == f.timestamp
            &&& g.format == f.format
            &&& g.sample_rate == f.sample_rate
            &&& g.is_8bit_sample == f.is_8bit_sample
            &&& g.is_stereo == f.is_stereo
            &&& g.is_aac_sequence_header == (f.format == AudioFormat::Aac && f.is_aac_sequence_header)
            &&& g.data@ == f.data@
        },
{
    let b = audio_frame_bytes(f);
    let h = audio_header_byte(f);
    assert(b[0] == h);
    assert(h / 16 == f.format.spec_code());
    assert(AudioFormat::spec_from_code(f.format.spec_code()) == Some(f.format));
    assert(((h / 4) % 4) as u8 == f.sample_rate.spec_code());
    if f.format == AudioFormat::Aac {
        assert(b.skip(2) =~= f.data@);
    } else {
        assert(b.skip(1) =~= f.data@);
    }
}

/// The first byte of an FLV video tag body.
pub open spec fn video_header_byte(f: VideoFrame) -> u8 {
    (f.frame_type.spec_code() * 16 + f.codec.spec_code()) as u8
}

/// The bytes of an FLV video tag body.
pub open spec fn video_frame_bytes(f: VideoFrame) -> Seq<u8> {
    seq![video_header_byte(f)] + (match f.avc_packet_type {
        Some(t) => seq![t.spec_code()] + u24_be(i32_bits(f.composition_timestamp_offset.0)),
        None => Seq::<u8>::empty(),
    }) + f.data@
}

/// Whether a video tag body with this first byte carries the AVC packet type and offset.
pub open spec fn video_has_avc_fields(h: u8) -> bool {
    VideoCodec::spec_from_code(h % 16) == Some(VideoCodec::Avc) && VideoFrameType::spec_from_code(
        h / 16,
    ) != Some(VideoFrameType::VideoInfoOrCommandFrame)
}

/// Why an FLV video tag body cannot be decoded, if it cannot.
pub open spec fn video_decode_error(b: Seq<u8>) -> Option<ErrorKind> {
    if b.len() == 0 {
        Some(ErrorKind::InsufficientBuffer)
    } else if VideoFrameType::spec_from_code(b[0] / 16) is None {
        Some(ErrorKind::InvalidData)
    } else if VideoCodec::spec_from_code(b[0] % 16) is None {
        Some(ErrorKind::InvalidData)
    } else if video_has_avc_fields(b[0]) && b.len() < 2 {
        Some(ErrorKind::InsufficientBuffer)
    } else if video_has_avc_fields(b[0]) && AvcPacketType::spec_from_code(b[1]) is None {
        Some(ErrorKind::InvalidData)
    } else if video_has_avc_fields(b[0]) && b.len() < 5 {
        Some(ErrorKind::InsufficientBuffer)
    } else {
        None
    }
}

/// `f` is what decoding the FLV video tag body `b` with timestamp `ts` gives.
pub open spec fn video_decoded(b: Seq<u8>, ts: RtmpTimestamp, f: VideoFrame) -> bool {
    let avc = video_has_avc_fields(b[0]);
    &&& f.timestamp == ts
    &&& Some(f.frame_type) == VideoFrameType::spec_from_code(b[0] / 16)
    &&& Some(f.codec) == VideoCodec::spec_from_code(b[0] % 16)
    &&& f.avc_packet_type == (if avc {
        AvcPacketType::spec_from_code(b[1])
    } else {
        None
    })
    &&& f.composition_timestamp_offset.0 == (if avc {
        i24_value(be24(b, 2))
    } else {
        0
    })
    &&& f.data@ == b.skip(if avc { 5 } else { 1 })
}

/// Appends the FLV video tag body of `frame`.
pub fn encode_video_frame(buf: &mut Vec<u8>, frame: &VideoFrame)
    ensures
        final(buf)@ == old(buf)@ + video_frame_bytes(*frame),
{
    write_u8(buf, frame.frame_type.code() * 16 + frame.codec.code());
    match frame.avc_packet_type {
        Some(t) => {
            write_u8(buf, t.code());
            write_i24(buf, frame.composition_timestamp_offset.as_millis());
        },
        None => {},
    }
    write_bytes(buf, frame.data.as_slice());
    assert(buf@ =~= old(buf)@ + video_frame_bytes(*frame));
}

/// Decodes an FLV video tag body.
pub fn decode_video_frame(buf: &[u8], timestamp: RtmpTimestamp) -> (r: Result<VideoFrame, Error>)
    ensures
        r is Ok <==> video_decode_error(buf@) is None,
        r matches Ok(f) ==> video_decoded(buf@, timestamp, f),
        r matches Err(e) ==> Some(e.kind) == video_decode_error(buf@),
{
    let header = read_u8(buf, 0)?;
    let frame_type = match VideoFrameType::from_code(header / 16) {
        Some(t) => t,
        None => {
            return Err(Error::with_number(ErrorKind::InvalidData, "Invalid video frame type: ", (header / 16) as u64));
        },
    };
    let codec = match VideoCodec::from_code(header % 16) {
        Some(c) => c,
        None => {
            return Err(Error::with_number(ErrorKind::InvalidData, "Invalid video codec: ", (header % 16) as u64));
        },
    };
    let is_avc = match codec {
        VideoCodec::Avc => true,
        _ => false,
    };
    let is_info = match frame_type {
        VideoFrameType::VideoInfoOrCommandFrame => true,
        _ => false,
    };
    let mut pos: usize = 1;
    let mut avc_packet_type: Option<AvcPacketType> = None;
    let mut composition_timestamp_offset = RtmpTimestampDelta::zero();
    if is_avc && !is_info {
        let b = read_u8(buf, 1)?;
        avc_packet_type = match AvcPacketType::from_code(b) {
            Some(t) => Some(t),
            None => {
                return Err(Error::with_number(ErrorKind::InvalidData, "Invalid AVC packet type: ", b as u64));
            },
        };
        composition_timestamp_offset = RtmpTimestampDelta::from_millis(read_i24(buf, 2)?);
        pos = 5;
    }
    let data = vstd::slice::slice_to_vec(vstd::slice::slice_subrange(buf, pos, buf.len()));
    assert(data@ =~= buf@.skip(pos as int));
    Ok(VideoFrame {
        timestamp,
        composition_timestamp_offset,
        frame_type,
        codec,
        avc_packet_type,
        data,
    })
}

/// A video frame whose AVC fields agree with its codec and frame type, and whose
/// composition time offset fits in 24 bits: the frames that survive encoding.
pub open spec fn video_frame_consistent(f: VideoFrame) -> bool {
    &&& (f.avc_packet_type is Some <==> (f.codec == VideoCodec::Avc && f.frame_type
        != VideoFrameType::VideoInfoOrCommandFrame))
    &&& -0x800000 <= f.composition_timestamp_offset.0 < 0x800000
    &&& f.avc_packet_type is None ==> f.composition_timestamp_offset.0 == 0
}

/// Decoding an encoded consistent video frame succeeds and gives the frame back: any frame
/// `g` that the bytes decode to agrees with `f`.
pub proof fn lemma_video_frame_roundtrip(f: VideoFrame, g: VideoFrame)
    requires
        video_frame_consistent(f),
    ensures
        video_decode_error(video_frame_bytes(f)) is None,
        video_decoded(video_frame_bytes(f), f.timestamp, g) ==> {
            &&& g.timestamp == f.timestamp
            &&& g.frame_type == f.frame_type
            &&& g.codec == f.codec
            &&& g.avc_packet_type == f.avc_packet_type
            &&& g.composition_timestamp_offset == f.composition_timestamp_offset
            &&& g.data@ == f.data@
        },
{
    let b = video_frame_bytes(f);
    let h = video_header_byte(f);
    assert(b[0] == h);
    assert(h / 16 == f.frame_type.spec_code());
    assert(h % 16 == f.codec.spec_code());
    assert(VideoFrameType::spec_from_code(f.frame_type.spec_code()) == Some(f.frame_type));
    assert(VideoCodec::spec_from_code(f.codec.spec_code()) == Some(f.codec));
    match f.avc_packet_type {
        Some(t) => {
            assert(AvcPacketType::spec_from_code(t.spec_code()) == Some(t));
            assert(b[1] == t.spec_code());
            let c = f.composition_timestamp_offset.0;
            let u = i32_bits(c);
            assert(be24(b, 2) == be24(u24_be(u), 0));
            assert(be24(u24_be(u), 0) == u % 0x1000000);
            assert(i24_value(u % 0x1000000) == c);
            assert(b.skip(5) =~= f.data@);
        },
        None => {
            assert(b.skip(1) =~= f.data@);
        },
    }
}

/// The layout of an encoded video tag: the first byte holds the FLV frame type in its
/// high four bits (key frame 1, inter frame 2, disposable inter frame 3, generated key
/// frame 4, video info or command frame 5) and the codec in its low four bits (JPEG 1,
/// H.263 2, Screen Video 3, VP6 4, VP6 with alpha 5, Screen Video 2 6, AVC 7). With an AVC
/// packet type, the next byte is that type (sequence header 0, NAL unit 1, end of
/// sequence 2) and the three after it the composition time offset; the data follows.
pub proof fn lemma_video_tag_layout(f: VideoFrame)
    ensures
        f.frame_type == VideoFrameType::KeyFrame ==> video_frame_bytes(f)[0] / 16 == 1,
        f.frame_type == VideoFrameType::InterFrame ==> video_frame_bytes(f)[0] / 16 == 2,
        f.frame_type == VideoFrameType::DisposableInterFrame ==> video_frame_bytes(f)[0] / 16 == 3,
        f.frame_type == VideoFrameType::GeneratedKeyFrame ==> video_frame_bytes(f)[0] / 16 == 4,
        f.frame_type == VideoFrameType::VideoInfoOrCommandFrame ==> video_frame_bytes(f)[0] / 16 == 5,
        f.codec == VideoCodec::Jpeg ==> video_frame_bytes(f)[0] % 16 == 1,
        f.codec == VideoCodec::H263 ==> video_frame_bytes(f)[0] % 16 == 2,
        f.codec == VideoCodec::ScreenVideo ==> video_frame_bytes(f)[0] % 16 == 3,
        f.codec == VideoCodec::Vp6 ==> video_frame_bytes(f)[0] % 16 == 4,
        f.codec == VideoCodec::Vp6WithAlpha ==> video_frame_bytes(f)[0] % 16 == 5,
        f.codec == VideoCodec::ScreenVideoV2 ==> video_frame_bytes(f)[0] % 16 == 6,
        f.codec == VideoCodec::Avc ==> video_frame_bytes(f)[0] % 16 == 7,
        f.avc_packet_type == Some(AvcPacketType::SequenceHeader) ==> video_frame_bytes(f)[1] == 0,
        f.avc_packet_type == Some(AvcPacketType::NalUnit) ==> video_frame_bytes(f)[1] == 1,
        f.avc_packet_type == Some(AvcPacketType::EndOfSequence) ==> video_frame_bytes(f)[1] == 2,
        f.avc_packet_type is Some ==> video_frame_bytes(f).len() == 5 + f.data@.len() && be24(
            video_frame_bytes(f),
            2,
        ) == i32_bits(f.composition_timestamp_offset.0) % 0x100_0000 && video_frame_bytes(f).skip(5)
            == f.data@,
        f.avc_packet_type is None ==> video_frame_bytes(f).len() == 1 + f.data@.len()
            && video_frame_bytes(f).skip(1) == f.data@,
{
    let b = video_frame_bytes(f);
    let h = video_header_byte(f);
    assert(b[0] == h);
    assert(h / 16 == f.frame_type.spec_code());
    assert(h % 16 == f.codec.spec_code());
    match f.avc_packet_type {
        Some(t) => {
            assert(b[1] == t.spec_code());
            let u = i32_bits(f.composition_timestamp_offset.0);
            assert(be24(b, 2) == be24(u24_be(u), 0));
            assert(be24(u24_be(u), 0) == u % 0x1000000);
            assert(b.skip(5) =~= f.data@);
        },
        None => {
            assert(b.skip(1) =~= f.data@);
        },
    }
}

/// What a decoded video tag holds, read off its bytes: the frame type from the high four
/// bits of the first byte (1 key frame, 2 inter frame, 3 disposable inter frame, 4
/// generated key frame, 5 video info or command frame), the codec from the low four
/// (1 JPEG, 2 H.263, 3 Screen Video, 4 VP6, 5 VP6 with alpha, 6 Screen Video 2, 7 AVC),
/// and, for AVC other than video info or command frames, the packet type from the second
/// byte (0 sequence header, 1 NAL unit, 2 end of sequence).
pub proof fn lemma_video_tag_fields(b: Seq<u8>, ts: RtmpTimestamp, g: VideoFrame)
    requires
        video_decode_error(b) is None,
        video_decoded(b, ts, g),
    ensures
        g.frame_type == VideoFrameType::KeyFrame <==> b[0] / 16 == 1,
        g.frame_type == VideoFrameType::InterFrame <==> b[0] / 16 == 2,
        g.frame_type == VideoFrameType::DisposableInterFrame <==> b[0] / 16 == 3,
        g.frame_type == VideoFrameType::GeneratedKeyFrame <==> b[0] / 16 == 4,
        g.frame_type == VideoFrameType::VideoInfoOrCommandFrame <==> b[0] / 16 == 5,
        g.codec == VideoCodec::Jpeg <==> b[0] % 16 == 1,
        g.codec == VideoCodec::H263 <==> b[0] % 16 == 2,
        g.codec == VideoCodec::ScreenVideo <==> b[0] % 16 == 3,
        g.codec == VideoCodec::Vp6 <==> b[0] % 16 == 4,
        g.codec == VideoCodec::Vp6WithAlpha <==> b[0] % 16 == 5,
        g.codec == VideoCodec::ScreenVideoV2 <==> b[0] % 16 == 6,
        g.codec == VideoCodec::Avc <==> b[0] % 16 == 7,
        g.avc_packet_type is Some <==> (b[0] % 16 == 7 && b[0] / 16 != 5),
        g.avc_packet_type == Some(AvcPacketType::SequenceHeader) <==> (g.avc_packet_type is Some && b[1] == 0),
        g.avc_packet_type == Some(AvcPacketType::NalUnit) <==> (g.avc_packet_type is Some && b[1] == 1),
        g.avc_packet_type == Some(AvcPacketType::EndOfSequence) <==> (g.avc_packet_type is Some && b[1] == 2),
{
}

/// The layout of an encoded audio tag: the first byte holds the FLV sound format in its
/// high four bits (ADPCM 1, MP3 2, linear PCM little endian 3, Nellymoser 16 kHz mono 4,
/// Nellymoser 8 kHz mono 5, Nellymoser 6, G.711 A-law 7, G.711 mu-law 8, AAC 10, Speex 11,
/// MP3 8 kHz 14, device-specific 15), then the rate in two bits (5.5 kHz 0, 11 kHz 1,
/// 22 kHz 2, 44 kHz 3), the sample size bit (set for 8 bits, clear for 16) and the
/// stereo bit. AAC adds one byte, 0 for a sequence header and 1 otherwise; the data
/// follows.
pub proof fn lemma_audio_tag_layout(f: AudioFrame)
    ensures
        f.format == AudioFormat::Adpcm ==> audio_frame_bytes(f)[0] / 16 == 1,
        f.format == AudioFormat::Mp3 ==> audio_frame_bytes(f)[0] / 16 == 2,
        f.format == AudioFormat::LinearPcmLittleEndian ==> audio_frame_bytes(f)[0] / 16 == 3,
        f.format == AudioFormat::Nellymoser16khzMono ==> audio_frame_bytes(f)[0] / 16 == 4,
        f.format == AudioFormat::Nellymoser8KhzMono ==> audio_frame_bytes(f)[0] / 16 == 5,
        f.format == AudioFormat::Nellymoser ==> audio_frame_bytes(f)[0] / 16 == 6,
        f.format == AudioFormat::G711AlawLogarithmicPcm ==> audio_frame_bytes(f)[0] / 16 == 7,
        f.format == AudioFormat::G711MuLawLogarithmicPcm ==> audio_frame_bytes(f)[0] / 16 == 8,
        f.format == AudioFormat::Aac ==> audio_frame_bytes(f)[0] / 16 == 10,
        f.format == AudioFormat::Speex ==> audio_frame_bytes(f)[0] / 16 == 11,
        f.format == AudioFormat::Mp3_8khz ==> audio_frame_bytes(f)[0] / 16 == 14,
        f.format == AudioFormat::DeviceSpecificSound ==> audio_frame_bytes(f)[0] / 16 == 15,
        f.sample_rate == AudioSampleRate::Khz5 ==> (audio_frame_bytes(f)[0] / 4) % 4 == 0,
        f.sample_rate == AudioSampleRate::Khz11 ==> (audio_frame_bytes(f)[0] / 4) % 4 == 1,
        f.sample_rate == AudioSampleRate::Khz22 ==> (audio_frame_bytes(f)[0] / 4) % 4 == 2,
        f.sample_rate == AudioSampleRate::Khz44 ==> (audio_frame_bytes(f)[0] / 4) % 4 == 3,
        f.is_8bit_sample <==> (audio_frame_bytes(f)[0] / 2) % 2 == 1,
        f.is_stereo <==> audio_frame_bytes(f)[0] % 2 == 1,
        f.format == AudioFormat::Aac ==> audio_frame_bytes(f).len() == 2 + f.data@.len()
            && audio_frame_bytes(f)[1] == (if f.is_aac_sequence_header { 0u8 } else { 1u8 })
            && audio_frame_bytes(f).skip(2) == f.data@,
        f.format != AudioFormat::Aac ==> audio_frame_bytes(f).len() == 1 + f.data@.len()
            && audio_frame_bytes(f).skip(1) == f.data@,
{
    let b = audio_frame_bytes(f);
    let h = audio_header_byte(f);
    assert(b[0] == h);
    assert(h / 16 == f.format.spec_code());
    assert(((h / 4) % 4) as u8 == f.sample_rate.spec_code());
    if f.format == AudioFormat::Aac {
        assert(b.skip(2) =~= f.data@);
    } else {
        assert(b.skip(1) =~= f.data@);
    }
}

/// What a decoded audio tag holds, read off its bytes: the sound format from the high
/// four bits of the first byte (1 ADPCM, 2 MP3, 3 linear PCM little endian, 4 Nellymoser
/// 16 kHz mono, 5 Nellymoser 8 kHz mono, 6 Nellymoser, 7 G.711 A-law, 8 G.711 mu-law,
/// 10 AAC, 11 Speex, 14 MP3 8 kHz, 15 device-specific), the rate from the next two (0
/// 5.5 kHz, 1 11 kHz, 2 22 kHz, 3 44 kHz), then the sample size and stereo bits; for AAC a
/// second byte of 0 marks a sequence header.
pub proof fn lemma_audio_tag_fields(b: Seq<u8>, ts: RtmpTimestamp, g: AudioFrame)
    requires
        audio_decode_error(b) is None,
        audio_decoded(b, ts, g),
    ensures
        g.format == AudioFormat::Adpcm <==> b[0] / 16 == 1,
        g.format == AudioFormat::Mp3 <==> b[0] / 16 == 2,
        g.format == AudioFormat::LinearPcmLittleEndian <==> b[0] / 16 == 3,
        g.format == AudioFormat::Nellymoser16khzMono <==> b[0] / 16 == 4,
        g.format == AudioFormat::Nellymoser8KhzMono <==> b[0] / 16 == 5,
        g.format == AudioFormat::Nellymoser <==> b[0] / 16 == 6,
        g.format == AudioFormat::G711AlawLogarithmicPcm <==> b[0] / 16 == 7,
        g.format == AudioFormat::G711MuLawLogarithmicPcm <==> b[0] / 16 == 8,
        g.format == AudioFormat::Aac <==> b[0] / 16 == 10,
        g.format == AudioFormat::Speex <==> b[0] / 16 == 11,
        g.format == AudioFormat::Mp3_8khz <==> b[0] / 16 == 14,
        g.format == AudioFormat::DeviceSpecificSound <==> b[0] / 16 == 15,
        g.sample_rate == AudioSampleRate::Khz5 <==> (b[0] / 4) % 4 == 0,
        g.sample_rate == AudioSampleRate::Khz11 <==> (b[0] / 4) % 4 == 1,
        g.sample_rate == AudioSampleRate::Khz22 <==> (b[0] / 4) % 4 == 2,
        g.sample_rate == AudioSampleRate::Khz44 <==> (b[0] / 4) % 4 == 3,
        g.is_8bit_sample <==> (b[0] / 2) % 2 == 1,
        g.is_stereo <==> b[0] % 2 == 1,
        g.is_aac_sequence_header <==> (b[0] / 16 == 10 && b[1] == 0),
{
}

} // verus!
