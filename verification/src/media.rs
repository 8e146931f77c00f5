use vstd::prelude::*;


use crate::bytes::{be16, u16_be, write_bytes, write_u16};
use crate::error::{Error, ErrorKind};
use crate::text::{push_decimal, push_str, str_chars};
use crate::rtmp_timestamp::{RtmpTimestamp, RtmpTimestampDelta};

verus! {

/// A media frame: audio or video.
#[derive(Debug, Clone, PartialEq, Eq)]
pub enum MediaFrame {
    /// An audio frame.
    Audio(AudioFrame),
    /// A video frame.
    Video(VideoFrame),
}

/// An audio frame holding encoded audio data.
#[derive(Debug, Clone, PartialEq, Eq)]
pub struct AudioFrame {
    /// Timestamp of this frame in milliseconds.
    pub timestamp: RtmpTimestamp,
    /// Audio format (MP3, AAC, ...).
    pub format: AudioFormat,
    /// Sampling rate.
    pub sample_rate: AudioSampleRate,
    /// Whether samples are 8-bit (true) or 16-bit (false).
    pub is_8bit_sample: bool,
    /// Whether the audio is stereo (true) or mono (false).
    pub is_stereo: bool,
    /// Whether the payload is an AAC sequence header.
    pub is_aac_sequence_header: bool,
    /// Encoded audio payload.
    pub data: Vec<u8>,
}

impl AudioFrame {
    /// Sample rate that FLV prescribes for AAC (decoders ignore it).
    pub const AAC_SAMPLE_RATE: AudioSampleRate = AudioSampleRate::Khz44;

    /// Stereo flag that FLV prescribes for AAC (decoders ignore it).
    pub const AAC_STEREO: bool = true;
}

/// A video frame holding encoded video data.
#[derive(Debug, Clone, PartialEq, Eq)]
pub struct VideoFrame {
    /// Timestamp of this frame in milliseconds.
    pub timestamp: RtmpTimestamp,
    /// H.264 composition time offset (presentation minus decoding time).
    pub composition_timestamp_offset: RtmpTimestampDelta,
    /// Frame type (key frame, inter frame, ...).
    pub frame_type: VideoFrameType,
    /// Video codec.
    pub codec: VideoCodec,
    /// AVC packet type (what an H.264 payload holds).
    pub avc_packet_type: Option<AvcPacketType>,
    /// Encoded video payload.
    pub data: Vec<u8>,
}

impl VideoFrame {
    /// Whether this frame is a key frame.
    pub fn is_keyframe(&self) -> (r: bool)
        ensures
            r == (self.frame_type == VideoFrameType::KeyFrame),
    {
        match self.frame_type {
            VideoFrameType::KeyFrame => true,
            _ => false,
        }
    }
}

/// AVC (H.264) packet type.
#[derive(Debug, Clone, Copy, PartialEq, Eq, Hash, PartialOrd, Ord, Structural)]
pub enum AvcPacketType {
    /// AVC sequence header (decoder configuration).
    SequenceHeader,
    /// One or more NAL units.
    NalUnit,
    /// End of the AVC sequence.
    EndOfSequence,
}

/// Video frame type.
#[derive(Debug, Clone, Copy, PartialEq, Eq, Hash, PartialOrd, Ord, Structural)]
pub enum VideoFrameType {
    /// Key frame (intra frame).
    KeyFrame,
    /// Inter frame.
    InterFrame,
    /// Disposable inter frame.
    DisposableInterFrame,
    /// Generated key frame (reserved for servers).
    GeneratedKeyFrame,
    /// Video info or command frame.
    VideoInfoOrCommandFrame,
}

/// Video codec.
#[derive(Debug, Clone, Copy, PartialEq, Eq, Hash, PartialOrd, Ord, Structural)]
pub enum VideoCodec {
    /// JPEG.
    Jpeg,
    /// Sorenson H.263.
    H263,
    /// Screen video.
    ScreenVideo,
    /// On2 VP6.
    Vp6,
    /// On2 VP6 with alpha channel.
    Vp6WithAlpha,
    /// Screen video version 2.
    ScreenVideoV2,
    /// H.264/AVC.
    Avc,
}

/// Audio format (codec).
#[derive(Debug, Clone, Copy, PartialEq, Eq, Hash, PartialOrd, Ord, Structural)]
pub enum AudioFormat {
    /// ADPCM.
    Adpcm,
    /// MP3.
    Mp3,
    /// Linear PCM, little endian.
    LinearPcmLittleEndian,
    /// Nellymoser 16 kHz mono.
    Nellymoser16khzMono,
    /// Nellymoser 8 kHz mono.
    Nellymoser8KhzMono,
    /// Nellymoser.
    Nellymoser,
    /// G.711 A-law logarithmic PCM.
    G711AlawLogarithmicPcm,
    /// G.711 mu-law logarithmic PCM.
    G711MuLawLogarithmicPcm,
    /// AAC.
    Aac,
    /// Speex.
    Speex,
    /// MP3 8 kHz.
    Mp3_8khz,
    /// Device-specific sound.
    DeviceSpecificSound,
}

/// Audio sampling rate.
#[derive(Debug, Clone, Copy, PartialEq, Eq, Hash, PartialOrd, Ord, Structural)]
pub enum AudioSampleRate {
    /// 5.5 kHz.
    Khz5,
    /// 11 kHz.
    Khz11,
    /// 22 kHz.
    Khz22,
    /// 44 kHz.
    Khz44,
}

impl AvcPacketType {
    /// The wire code of this packet type.
    pub open spec fn spec_code(self) -> u8 {
        match self {
            AvcPacketType::SequenceHeader => 0,
            AvcPacketType::NalUnit => 1,
            AvcPacketType::EndOfSequence => 2,
        }
    }

    /// The packet type with the given wire code, if any.
    pub open spec fn spec_from_code(v: u8) -> Option<Self> {
        if v == 0 {
            Some(AvcPacketType::SequenceHeader)
        } else if v == 1 {
            Some(AvcPacketType::NalUnit)
        } else if v == 2 {
            Some(AvcPacketType::EndOfSequence)
        } else {
            None
        }
    }

    /// The wire code of this packet type.
    pub fn code(self) -> (r: u8)
        ensures
            r == self.spec_code(),
    {
        match self {
            AvcPacketType::SequenceHeader => 0,
            AvcPacketType::NalUnit => 1,
            AvcPacketType::EndOfSequence => 2,
        }
    }

    /// The packet type with the given wire code, if any.
    pub fn from_code(v: u8) -> (r: Option<Self>)
        ensures
            r == Self::spec_from_code(v),
    {
        if v == 0 {
            Some(AvcPacketType::SequenceHeader)
        } else if v == 1 {
            Some(AvcPacketType::NalUnit)
        } else if v == 2 {
            Some(AvcPacketType::EndOfSequence)
        } else {
            None
        }
    }
}

impl VideoFrameType {
    /// The wire code of this frame type.
    pub open spec fn spec_code(self) -> u8 {
        match self {
            VideoFrameType::KeyFrame => 1,
            VideoFrameType::InterFrame => 2,
            VideoFrameType::DisposableInterFrame => 3,
            VideoFrameType::GeneratedKeyFrame => 4,
            VideoFrameType::VideoInfoOrCommandFrame => 5,
        }
    }

    /// The frame type with the given wire code, if any.
    pub open spec fn spec_from_code(v: u8) -> Option<Self> {
        if v == 1 {
            Some(VideoFrameType::KeyFrame)
        } else if v == 2 {
            Some(VideoFrameType::InterFrame)
        } else if v == 3 {
            Some(VideoFrameType::DisposableInterFrame)
        } else if v == 4 {
            Some(VideoFrameType::GeneratedKeyFrame)
        } else if v == 5 {
            Some(VideoFrameType::VideoInfoOrCommandFrame)
        } else {
            None
        }
    }

    /// The wire code of this frame type.
    pub fn code(self) -> (r: u8)
        ensures
            r == self.spec_code(),
    {
        match self {
            VideoFrameType::KeyFrame => 1,
            VideoFrameType::InterFrame => 2,
            VideoFrameType::DisposableInterFrame => 3,
            VideoFrameType::GeneratedKeyFrame => 4,
            VideoFrameType::VideoInfoOrCommandFrame => 5,
        }
    }

    /// The frame type with the given wire code, if any.
    pub fn from_code(v: u8) -> (r: Option<Self>)
        ensures
            r == Self::spec_from_code(v),
    {
        if v == 1 {
            Some(VideoFrameType::KeyFrame)
        } else if v == 2 {
            Some(VideoFrameType::InterFrame)
        } else if v == 3 {
            Some(VideoFrameType::DisposableInterFrame)
        } else if v == 4 {
            Some(VideoFrameType::GeneratedKeyFrame)
        } else if v == 5 {
            Some(VideoFrameType::VideoInfoOrCommandFrame)
        } else {
            None
        }
    }
}

impl VideoCodec {
    /// The wire code of this codec.
    pub open spec fn spec_code(self) -> u8 {
        match self {
            VideoCodec::Jpeg => 1,
            VideoCodec::H263 => 2,
            VideoCodec::ScreenVideo => 3,
            VideoCodec::Vp6 => 4,
            VideoCodec::Vp6WithAlpha => 5,
            VideoCodec::ScreenVideoV2 => 6,
            VideoCodec::Avc => 7,
        }
    }

    /// The codec with the given wire code, if any.
    pub open spec fn spec_from_code(v: u8) -> Option<Self> {
        if v == 1 {
            Some(VideoCodec::Jpeg)
        } else if v == 2 {
            Some(VideoCodec::H263)
        } else if v == 3 {
            Some(VideoCodec::ScreenVideo)
        } else if v == 4 {
            Some(VideoCodec::Vp6)
        } else if v == 5 {
            Some(VideoCodec::Vp6WithAlpha)
        } else if v == 6 {
            Some(VideoCodec::ScreenVideoV2)
        } else if v == 7 {
            Some(VideoCodec::Avc)
        } else {
            None
        }
    }

    /// The wire code of this codec.
    pub fn code(self) -> (r: u8)
        ensures
            r == self.spec_code(),
    {
        match self {
            VideoCodec::Jpeg => 1,
            VideoCodec::H263 => 2,
            VideoCodec::ScreenVideo => 3,
            VideoCodec::Vp6 => 4,
            VideoCodec::Vp6WithAlpha => 5,
            VideoCodec::ScreenVideoV2 => 6,
            VideoCodec::Avc => 7,
        }
    }

    /// The codec with the given wire code, if any.
    pub fn from_code(v: u8) -> (r: Option<Self>)
        ensures
            r == Self::spec_from_code(v),
    {
        if v == 1 {
            Some(VideoCodec::Jpeg)
        } else if v == 2 {
            Some(VideoCodec::H263)
        } else if v == 3 {
            Some(VideoCodec::ScreenVideo)
        } else if v == 4 {
            Some(VideoCodec::Vp6)
        } else if v == 5 {
            Some(VideoCodec::Vp6WithAlpha)
        } else if v == 6 {
            Some(VideoCodec::ScreenVideoV2)
        } else if v == 7 {
            Some(VideoCodec::Avc)
        } else {
            None
        }
    }
}

impl AudioFormat {
    /// The wire code of this format.
    pub open spec fn spec_code(self) -> u8 {
        match self {
            AudioFormat::Adpcm => 1,
            AudioFormat::Mp3 => 2,
            AudioFormat::LinearPcmLittleEndian => 3,
            AudioFormat::Nellymoser16khzMono => 4,
            AudioFormat::Nellymoser8KhzMono => 5,
            AudioFormat::Nellymoser => 6,
            AudioFormat::G711AlawLogarithmicPcm => 7,
            AudioFormat::G711MuLawLogarithmicPcm => 8,
            AudioFormat::Aac => 10,
            AudioFormat::Speex => 11,
            AudioFormat::Mp3_8khz => 14,
            AudioFormat::DeviceSpecificSound => 15,
        }
    }

    /// The format with the given wire code, if any.
    pub open spec fn spec_from_code(v: u8) -> Option<Self> {
        if v == 1 {
            Some(AudioFormat::Adpcm)
        } else if v == 2 {
            Some(AudioFormat::Mp3)
        } else if v == 3 {
            Some(AudioFormat::LinearPcmLittleEndian)
        } else if v == 4 {
            Some(AudioFormat::Nellymoser16khzMono)
        } else if v == 5 {
            Some(AudioFormat::Nellymoser8KhzMono)
        } else if v == 6 {
            Some(AudioFormat::Nellymoser)
        } else if v == 7 {
            Some(AudioFormat::G711AlawLogarithmicPcm)
        } else if v == 8 {
            Some(AudioFormat::G711MuLawLogarithmicPcm)
        } else if v == 10 {
            Some(AudioFormat::Aac)
        } else if v == 11 {
            Some(AudioFormat::Speex)
        } else if v == 14 {
            Some(AudioFormat::Mp3_8khz)
        } else if v == 15 {
            Some(AudioFormat::DeviceSpecificSound)
        } else {
            None
        }
    }

    /// The wire code of this format.
    pub fn code(self) -> (r: u8)
        ensures
            r == self.spec_code(),
    {
        match self {
            AudioFormat::Adpcm => 1,
            AudioFormat::Mp3 => 2,
            AudioFormat::LinearPcmLittleEndian => 3,
            AudioFormat::Nellymoser16khzMono => 4,
            AudioFormat::Nellymoser8KhzMono => 5,
            AudioFormat::Nellymoser => 6,
            AudioFormat::G711AlawLogarithmicPcm => 7,
            AudioFormat::G711MuLawLogarithmicPcm => 8,
            AudioFormat::Aac => 10,
            AudioFormat::Speex => 11,
            AudioFormat::Mp3_8khz => 14,
            AudioFormat::DeviceSpecificSound => 15,
        }
    }

    /// The format with the given wire code, if any.
    pub fn from_code(v: u8) -> (r: Option<Self>)
        ensures
            r == Self::spec_from_code(v),
    {
        if v == 1 {
            Some(AudioFormat::Adpcm)
        } else if v == 2 {
            Some(AudioFormat::Mp3)
        } else if v == 3 {
            Some(AudioFormat::LinearPcmLittleEndian)
        } else if v == 4 {
            Some(AudioFormat::Nellymoser16khzMono)
        } else if v == 5 {
            Some(AudioFormat::Nellymoser8KhzMono)
        } else if v == 6 {
            Some(AudioFormat::Nellymoser)
        } else if v == 7 {
            Some(AudioFormat::G711AlawLogarithmicPcm)
        } else if v == 8 {
            Some(AudioFormat::G711MuLawLogarithmicPcm)
        } else if v == 10 {
            Some(AudioFormat::Aac)
        } else if v == 11 {
            Some(AudioFormat::Speex)
        } else if v == 14 {
            Some(AudioFormat::Mp3_8khz)
        } else if v == 15 {
            Some(AudioFormat::DeviceSpecificSound)
        } else {
            None
        }
    }
}

impl AudioSampleRate {
    /// The wire code of this rate.
    pub open spec fn spec_code(self) -> u8 {
        match self {
            AudioSampleRate::Khz5 => 0,
            AudioSampleRate::Khz11 => 1,
            AudioSampleRate::Khz22 => 2,
            AudioSampleRate::Khz44 => 3,
        }
    }

    /// The rate with the given two-bit wire code.
    pub open spec fn spec_from_code(v: u8) -> Self {
        if v == 0 {
            AudioSampleRate::Khz5
        } else if v == 1 {
            AudioSampleRate::Khz11
        } else if v == 2 {
            AudioSampleRate::Khz22
        } else {
            AudioSampleRate::Khz44
        }
    }

    /// The wire code of this rate.
    pub fn code(self) -> (r: u8)
        ensures
            r == self.spec_code(),
    {
        match self {
            AudioSampleRate::Khz5 => 0,
            AudioSampleRate::Khz11 => 1,
            AudioSampleRate::Khz22 => 2,
            AudioSampleRate::Khz44 => 3,
        }
    }

    /// The rate with the given two-bit wire code.
    pub fn from_code(v: u8) -> (r: Self)
        requires
            v < 4,
        ensures
            r == Self::spec_from_code(v),
    {
        if v == 0 {
            AudioSampleRate::Khz5
        } else if v == 1 {
            AudioSampleRate::Khz11
        } else if v == 2 {
            AudioSampleRate::Khz22
        } else {
            AudioSampleRate::Khz44
        }
    }
}

} // verus!

verus! {

/// AVC decoder configuration record (AVCDecoderConfigurationRecord) carried by an AVC
/// sequence header: the profile, level and the SPS and PPS lists.
#[derive(Debug, Clone, PartialEq, Eq)]
pub struct AvcSequenceHeader {
    /// AVC profile indication.
    pub avc_profile_indication: u8,
    /// Profile compatibility flags.
    pub profile_compatibility: u8,
    /// AVC level indication.
    pub avc_level_indication: u8,
    /// Size of the NAL unit length field minus one (0 to 3).
    pub length_size_minus_one: u8,
    /// Sequence parameter sets (at most 31).
    pub sps_list: Vec<Vec<u8>>,
    /// Picture parameter sets (at most 255).
    pub pps_list: Vec<Vec<u8>>,
}

/// The mathematical content of an [`AvcSequenceHeader`].
pub struct AvcSequenceHeaderModel {
    pub avc_profile_indication: u8,
    pub profile_compatibility: u8,
    pub avc_level_indication: u8,
    pub length_size_minus_one: u8,
    pub sps_list: Seq<Seq<u8>>,
    pub pps_list: Seq<Seq<u8>>,
}

/// The byte sequences held by a vector of byte vectors.
pub open spec fn byte_seqs(v: Seq<Vec<u8>>) -> Seq<Seq<u8>> {
    v.map_values(|x: Vec<u8>| x@)
}

impl View for AvcSequenceHeader {
    type V = AvcSequenceHeaderModel;

    open spec fn view(&self) -> AvcSequenceHeaderModel {
        AvcSequenceHeaderModel {
            avc_profile_indication: self.avc_profile_indication,
            profile_compatibility: self.profile_compatibility,
            avc_level_indication: self.avc_level_indication,
            length_size_minus_one: self.length_size_minus_one,
            sps_list: byte_seqs(self.sps_list@),
            pps_list: byte_seqs(self.pps_list@),
        }
    }
}

/// Configuration version written and accepted.
pub const AVC_CONFIGURATION_VERSION: u8 = 1;

/// At most this many SPS entries.
pub const AVC_MAX_SPS_COUNT: usize = 31;

/// At most this many PPS entries.
pub const AVC_MAX_PPS_COUNT: usize = 255;

/// At most this many bytes in one SPS or PPS.
pub const AVC_MAX_PARAMETER_SET_SIZE: usize = 4096;

/// The bytes of a list of parameter sets, each prefixed by its 16-bit length.
pub open spec fn param_sets_bytes(l: Seq<Seq<u8>>) -> Seq<u8>
    decreases l.len(),
{
    if l.len() == 0 {
        Seq::<u8>::empty()
    } else {
        param_sets_bytes(l.drop_last()) + u16_be(l.last().len() as int) + l.last()
    }
}

/// Parses `n` length-prefixed parameter sets at `off`; gives the sets and the offset after them.
pub open spec fn parse_param_sets(d: Seq<u8>, off: int, n: nat) -> Option<(Seq<Seq<u8>>, int)>
    decreases n,
{
    if n == 0 {
        Some((Seq::<Seq<u8>>::empty(), off))
    } else {
        match parse_param_sets(d, off, (n - 1) as nat) {
            None => None,
            Some((l, o)) => {
                if o + 2 > d.len() {
                    None
                } else {
                    let len = be16(d, o);
                    if len > AVC_MAX_PARAMETER_SET_SIZE || o + 2 + len > d.len() {
                        None
                    } else {
                        Some((l.push(d.subrange(o + 2, o + 2 + len)), o + 2 + len))
                    }
                }
            },
        }
    }
}

/// What parsing an AVCDecoderConfigurationRecord gives.
pub open spec fn parse_avc_sequence_header(d: Seq<u8>) -> Result<AvcSequenceHeaderModel, ErrorKind> {
    if d.len() < 7 {
        Err(ErrorKind::InvalidData)
    } else if d[0] != AVC_CONFIGURATION_VERSION {
        Err(ErrorKind::Unsupported)
    } else {
        let num_sps = d[5] % 32;
        if num_sps == 0 {
            Err(ErrorKind::InvalidData)
        } else {
            match parse_param_sets(d, 6, num_sps as nat) {
                None => Err(ErrorKind::InvalidData),
                Some((sps, o)) => {
                    if o >= d.len() {
                        Err(ErrorKind::InvalidData)
                    } else {
                        let num_pps = d[o];
                        if num_pps == 0 {
                            Err(ErrorKind::InvalidData)
                        } else {
                            match parse_param_sets(d, o + 1, num_pps as nat) {
                                None => Err(ErrorKind::InvalidData),
                                Some((pps, _)) => Ok(
                                    AvcSequenceHeaderModel {
                                        avc_profile_indication: d[1],
                                        profile_compatibility: d[2],
                                        avc_level_indication: d[3],
                                        length_size_minus_one: d[4] % 4,
                                        sps_list: sps,
                                        pps_list: pps,
                                    },
                                ),
                            }
                        }
                    }
                },
            }
        }
    }
}

/// All parameter sets of `l` fit the size limit.
pub open spec fn param_sets_fit(l: Seq<Seq<u8>>) -> bool {
    forall|i: int| 0 <= i < l.len() ==> #[trigger] l[i].len() <= AVC_MAX_PARAMETER_SET_SIZE
}

/// Whether an AVCDecoderConfigurationRecord can be written for `h`.
pub open spec fn avc_sequence_header_writable(h: AvcSequenceHeaderModel) -> bool {
    &&& 0 < h.sps_list.len() <= AVC_MAX_SPS_COUNT
    &&& 0 < h.pps_list.len() <= AVC_MAX_PPS_COUNT
    &&& param_sets_fit(h.sps_list)
    &&& param_sets_fit(h.pps_list)
}

/// The AVCDecoderConfigurationRecord bytes of `h`.
pub open spec fn avc_sequence_header_bytes(h: AvcSequenceHeaderModel) -> Seq<u8> {
    seq![
        AVC_CONFIGURATION_VERSION,
        h.avc_profile_indication,
        h.profile_compatibility,
        h.avc_level_indication,
        (0xFC + h.length_size_minus_one % 4) as u8,
        (0xE0 + h.sps_list.len()) as u8,
    ] + param_sets_bytes(h.sps_list) + seq![h.pps_list.len() as u8] + param_sets_bytes(
        h.pps_list,
    )
}

/// Parses `num` length-prefixed parameter sets starting at `offset`; `name` names them
/// in the reason of an error.
fn parse_param_set_list(data: &[u8], offset: usize, num: usize, name: &str) -> (r: Result<(Vec<Vec<u8>>, usize), Error>)
    requires
        offset <= data@.len(),
    ensures
        r is Ok <==> parse_param_sets(data@, offset as int, num as nat) is Some,
        r matches Ok((l, o)) ==> parse_param_sets(data@, offset as int, num as nat) == Some(
            (byte_seqs(l@), o as int),
        ),
        r matches Err(e) ==> e.kind == ErrorKind::InvalidData,
{
    let mut list: Vec<Vec<u8>> = Vec::new();
    let mut off = offset;
    let mut i: usize = 0;
    while i < num
        invariant
            i <= num,
            offset <= off <= data@.len(),
            parse_param_sets(data@, offset as int, i as nat) == Some((byte_seqs(list@), off as int)),
        decreases num - i,
    {
        let ghost prev = list@;
        if data.len() - off < 2 {
            proof {
                lemma_parse_param_sets_none_grows(data@, offset as int, (i + 1) as nat, num as nat);
            }
            let mut t = str_chars("incomplete ");
            push_str(&mut t, name);
            push_str(&mut t, " length field at index ");
            push_decimal(&mut t, i as u64);
            push_str(&mut t, ": need 2 bytes, have ");
            push_decimal(&mut t, (data.len() - off) as u64);
            return Err(Error::with_text(ErrorKind::InvalidData, &t));
        }
        let len = data[off] as usize * 0x100 + data[off + 1] as usize;
        if len > AVC_MAX_PARAMETER_SET_SIZE || data.len() - off - 2 < len {
            proof {
                lemma_parse_param_sets_none_grows(data@, offset as int, (i + 1) as nat, num as nat);
            }
            let mut t: Vec<char> = Vec::new();
            if len > AVC_MAX_PARAMETER_SET_SIZE {
                push_str(&mut t, name);
                push_str(&mut t, " size exceeds maximum at index ");
                push_decimal(&mut t, i as u64);
                push_str(&mut t, ": ");
                push_decimal(&mut t, len as u64);
                push_str(&mut t, " > ");
                push_decimal(&mut t, AVC_MAX_PARAMETER_SET_SIZE as u64);
            } else {
                push_str(&mut t, "incomplete ");
                push_str(&mut t, name);
                push_str(&mut t, " data at index ");
                push_decimal(&mut t, i as u64);
                push_str(&mut t, ": need ");
                push_decimal(&mut t, len as u64);
                push_str(&mut t, " bytes, have ");
                push_decimal(&mut t, (data.len() - off - 2) as u64);
            }
            return Err(Error::with_text(ErrorKind::InvalidData, &t));
        }
        let item = vstd::slice::slice_to_vec(vstd::slice::slice_subrange(data, off + 2, off + 2 + len));
        list.push(item);
        off = off + 2 + len;
        i = i + 1;
        assert(byte_seqs(list@) =~= byte_seqs(prev).push(item@));
    }
    Ok((list, off))
}

/// Once parsing fails, parsing more sets fails too.
proof fn lemma_parse_param_sets_none_grows(d: Seq<u8>, off: int, n: nat, m: nat)
    requires
        parse_param_sets(d, off, n) is None,
        n <= m,
    ensures
        parse_param_sets(d, off, m) is None,
    decreases m - n,
{
    if n < m {
        lemma_parse_param_sets_none_grows(d, off, n, (m - 1) as nat);
    }
}

impl AvcSequenceHeader {
    /// Parses an AVCDecoderConfigurationRecord (the data of a video frame whose AVC packet
    /// type is a sequence header).
    pub fn from_bytes(data: &[u8]) -> (r: Result<Self, Error>)
        ensures
            r is Ok <==> parse_avc_sequence_header(data@) is Ok,
            r matches Ok(h) ==> parse_avc_sequence_header(data@) == Ok::<
                AvcSequenceHeaderModel,
                ErrorKind,
            >(h@),
            r matches Err(e) ==> parse_avc_sequence_header(data@) == Err::<
                AvcSequenceHeaderModel,
                ErrorKind,
            >(e.kind),
    {
        if data.len() < 7 {
            return Err(Error::invalid_data("AVCDecoderConfigurationRecord too short (expected at least 7 bytes)"));
        }
        if data[0] != AVC_CONFIGURATION_VERSION {
            let mut t = str_chars("unsupported AVC configuration version: ");
            push_decimal(&mut t, data[0] as u64);
            push_str(&mut t, " (expected 1)");
            return Err(Error::with_text(ErrorKind::Unsupported, &t));
        }
        let num_sps = (data[5] % 32) as usize;
        if num_sps == 0 {
            return Err(Error::invalid_data("SPS list must not be empty"));
        }
        let (sps_list, off) = match parse_param_set_list(data, 6, num_sps, "SPS") {
            Ok(x) => x,
            Err(e) => return Err(e),
        };
        if off >= data.len() {
            return Err(Error::invalid_data("incomplete PPS count field"));
        }
        let num_pps = data[off] as usize;
        if num_pps == 0 {
            return Err(Error::invalid_data("PPS list must not be empty"));
        }
        let (pps_list, _) = match parse_param_set_list(data, off + 1, num_pps, "PPS") {
            Ok(x) => x,
            Err(e) => return Err(e),
        };
        Ok(AvcSequenceHeader {
            avc_profile_indication: data[1],
            profile_compatibility: data[2],
            avc_level_indication: data[3],
            length_size_minus_one: data[4] % 4,
            sps_list,
            pps_list,
        })
    }

    /// Writes the AVCDecoderConfigurationRecord of this header.
    pub fn to_bytes(&self) -> (r: Result<Vec<u8>, Error>)
        ensures
            r is Ok <==> avc_sequence_header_writable(self@),
            r matches Ok(b) ==> b@ == avc_sequence_header_bytes(self@),
            r matches Err(e) ==> e.kind == ErrorKind::InvalidData,
    {
        if self.sps_list.len() == 0 {
            return Err(Error::invalid_data("SPS list must not be empty"));
        }
        if self.pps_list.len() == 0 {
            return Err(Error::invalid_data("PPS list must not be empty"));
        }
        if self.sps_list.len() > AVC_MAX_SPS_COUNT {
            let mut t = str_chars("too many SPS entries: ");
            push_decimal(&mut t, self.sps_list.len() as u64);
            push_str(&mut t, " (max 31)");
            return Err(Error::with_text(ErrorKind::InvalidData, &t));
        }
        if self.pps_list.len() > AVC_MAX_PPS_COUNT {
            let mut t = str_chars("too many PPS entries: ");
            push_decimal(&mut t, self.pps_list.len() as u64);
            push_str(&mut t, " (max 255)");
            return Err(Error::with_text(ErrorKind::InvalidData, &t));
        }
        if let Some(i) = first_oversized(&self.sps_list) {
            return Err(oversized_error("SPS", i, self.sps_list[i].len()));
        }
        if let Some(i) = first_oversized(&self.pps_list) {
            return Err(oversized_error("PPS", i, self.pps_list[i].len()));
        }
        let mut result: Vec<u8> = Vec::new();
        result.push(AVC_CONFIGURATION_VERSION);
        result.push(self.avc_profile_indication);
        result.push(self.profile_compatibility);
        result.push(self.avc_level_indication);
        result.push(0xFC + self.length_size_minus_one % 4);
        result.push(0xE0 + self.sps_list.len() as u8);
        write_param_sets(&mut result, &self.sps_list);
        result.push(self.pps_list.len() as u8);
        write_param_sets(&mut result, &self.pps_list);
        assert(result@ =~= avc_sequence_header_bytes(self@));
        Ok(result)
    }
}

/// The index of the first entry over the parameter set size limit, if there is one.
fn first_oversized(list: &Vec<Vec<u8>>) -> (r: Option<usize>)
    ensures
        r is None <==> param_sets_fit(byte_seqs(list@)),
        r matches Some(i) ==> i < list@.len(),
{
    let mut i: usize = 0;
    while i < list.len()
        invariant
            i <= list@.len(),
            forall|j: int| 0 <= j < i ==> #[trigger] list@[j]@.len() <= AVC_MAX_PARAMETER_SET_SIZE,
        decreases list.len() - i,
    {
        if list[i].len() > AVC_MAX_PARAMETER_SET_SIZE {
            assert(byte_seqs(list@)[i as int].len() > AVC_MAX_PARAMETER_SET_SIZE);
            return Some(i);
        }
        i = i + 1;
    }
    None
}

/// The error that the entry at `index` of the `name` list, of `len` bytes, exceeds the
/// parameter set size limit.
fn oversized_error(name: &str, index: usize, len: usize) -> (e: Error)
    ensures
        e.kind == ErrorKind::InvalidData,
{
    let mut t: Vec<char> = Vec::new();
    push_str(&mut t, name);
    push_str(&mut t, " size exceeds maximum at index ");
    push_decimal(&mut t, index as u64);
    push_str(&mut t, ": ");
    push_decimal(&mut t, len as u64);
    push_str(&mut t, " > ");
    push_decimal(&mut t, AVC_MAX_PARAMETER_SET_SIZE as u64);
    Error::with_text(ErrorKind::InvalidData, &t)
}

/// Appends each entry prefixed by its 16-bit length.
fn write_param_sets(buf: &mut Vec<u8>, list: &Vec<Vec<u8>>)
    requires
        param_sets_fit(byte_seqs(list@)),
    ensures
        final(buf)@ == old(buf)@ + param_sets_bytes(byte_seqs(list@)),
{
    let mut i: usize = 0;
    while i < list.len()
        invariant
            i <= list@.len(),
            param_sets_fit(byte_seqs(list@)),
            buf@ == old(buf)@ + param_sets_bytes(byte_seqs(list@.subrange(0, i as int))),
        decreases list.len() - i,
    {
        let ghost prev = buf@;
        assert(byte_seqs(list@)[i as int].len() <= AVC_MAX_PARAMETER_SET_SIZE);
        write_u16(buf, list[i].len() as u16);
        write_bytes(buf, list[i].as_slice());
        let ghost s = byte_seqs(list@.subrange(0, i + 1));
        assert(s.drop_last() =~= byte_seqs(list@.subrange(0, i as int)));
        assert(s.last() == list@[i as int]@);
        i = i + 1;
        assert(buf@ =~= old(buf)@ + param_sets_bytes(byte_seqs(list@.subrange(0, i as int))));
    }
    assert(list@.subrange(0, list@.len() as int) =~= list@);
}

} // verus!

verus! {

/// Length of the bytes of a list of parameter sets.
proof fn lemma_param_sets_bytes_len(l: Seq<Seq<u8>>)
    ensures
        param_sets_bytes(l).len() >= 2 * l.len(),
    decreases l.len(),
{
    if l.len() > 0 {
        lemma_param_sets_bytes_len(l.drop_last());
    }
}

/// Parsing the bytes of a list of parameter sets gives the list back.
proof fn lemma_parse_param_sets_bytes(d: Seq<u8>, off: int, l: Seq<Seq<u8>>)
    requires
        0 <= off,
        off + param_sets_bytes(l).len() <= d.len(),
        d.subrange(off, off + param_sets_bytes(l).len()) == param_sets_bytes(l),
        param_sets_fit(l),
    ensures
        parse_param_sets(d, off, l.len()) == Some((l, off + param_sets_bytes(l).len())),
    decreases l.len(),
{
    if l.len() > 0 {
        let p = l.drop_last();
        let pb = param_sets_bytes(p);
        let lb = param_sets_bytes(l);
        assert(lb == pb + u16_be(l.last().len() as int) + l.last());
        assert(param_sets_fit(p)) by {
            assert forall|i: int| 0 <= i < p.len() implies #[trigger] p[i].len()
                <= AVC_MAX_PARAMETER_SET_SIZE by {
                assert(p[i] == l[i]);
            }
        }
        assert(d.subrange(off, off + pb.len()) =~= lb.subrange(0, pb.len() as int));
        assert(lb.subrange(0, pb.len() as int) =~= pb);
        lemma_parse_param_sets_bytes(d, off, p);
        let o = off + pb.len();
        let last = l.last();
        assert(last.len() <= AVC_MAX_PARAMETER_SET_SIZE) by {
            assert(l[l.len() - 1].len() <= AVC_MAX_PARAMETER_SET_SIZE);
        }
        assert(d[o] == lb[pb.len() as int]);
        assert(d[o + 1] == lb[pb.len() as int + 1]);
        assert(be16(d, o) == last.len());
        assert(d.subrange(o + 2, o + 2 + last.len()) =~= last) by {
            assert forall|i: int| 0 <= i < last.len() implies d.subrange(
                o + 2,
                o + 2 + last.len(),
            )[i] == last[i] by {
                assert(d[o + 2 + i] == lb[pb.len() as int + 2 + i]);
            }
        }
        assert(p.push(last) =~= l);
    }
}

/// Parsing the bytes written for a header gives the header back.
pub proof fn lemma_avc_sequence_header_roundtrip(h: AvcSequenceHeaderModel)
    requires
        avc_sequence_header_writable(h),
        h.length_size_minus_one <= 3,
    ensures
        parse_avc_sequence_header(avc_sequence_header_bytes(h)) == Ok::<
            AvcSequenceHeaderModel,
            ErrorKind,
        >(h),
{
    let d = avc_sequence_header_bytes(h);
    let sb = param_sets_bytes(h.sps_list);
    let pb = param_sets_bytes(h.pps_list);
    let head = seq![
        AVC_CONFIGURATION_VERSION,
        h.avc_profile_indication,
        h.profile_compatibility,
        h.avc_level_indication,
        (0xFC + h.length_size_minus_one % 4) as u8,
        (0xE0 + h.sps_list.len()) as u8,
    ];
    assert(d == head + sb + seq![h.pps_list.len() as u8] + pb);
    lemma_param_sets_bytes_len(h.sps_list);
    assert(d[5] % 32 == h.sps_list.len());
    assert(d.subrange(6, 6 + sb.len() as int) =~= sb);
    lemma_parse_param_sets_bytes(d, 6, h.sps_list);
    let o: int = 6 + sb.len() as int;
    assert(d[o] == h.pps_list.len());
    assert(d.subrange(o + 1, o + 1 + pb.len()) =~= pb);
    lemma_parse_param_sets_bytes(d, o + 1, h.pps_list);
    assert(d[4] % 4 == h.length_size_minus_one);
}

/// The written parameter sets start with the first one, behind its 16-bit length.
proof fn lemma_param_sets_bytes_first(l: Seq<Seq<u8>>)
    requires
        l.len() > 0,
        l[0].len() < 0x10000,
    ensures
        param_sets_bytes(l).len() >= 2 + l[0].len(),
        param_sets_bytes(l).subrange(0, 2 + l[0].len() as int) == u16_be(l[0].len() as int) + l[0],
    decreases l.len(),
{
    let b = param_sets_bytes(l);
    if l.len() == 1 {
        assert(l.drop_last().len() == 0);
        assert(param_sets_bytes(l.drop_last()) == Seq::<u8>::empty());
        assert(l.last() == l[0]);
        assert(b =~= u16_be(l[0].len() as int) + l[0]);
        assert(b.subrange(0, 2 + l[0].len() as int) =~= b);
    } else {
        let p = l.drop_last();
        assert(p[0] == l[0]);
        lemma_param_sets_bytes_first(p);
        let pb = param_sets_bytes(p);
        assert(b == pb + u16_be(l.last().len() as int) + l.last());
        assert(b.subrange(0, 2 + l[0].len() as int) =~= pb.subrange(0, 2 + l[0].len() as int));
    }
}

/// Parsed parameter sets start with the one behind the 16-bit length at `off`.
proof fn lemma_parse_param_sets_first(d: Seq<u8>, off: int, n: nat)
    requires
        n > 0,
        parse_param_sets(d, off, n) is Some,
    ensures
        ({
            let l = parse_param_sets(d, off, n).unwrap().0;
            &&& l.len() == n
            &&& off + 2 + be16(d, off) <= d.len()
            &&& l[0] == d.subrange(off + 2, off + 2 + be16(d, off))
        }),
    decreases n,
{
    let (p, o) = parse_param_sets(d, off, (n - 1) as nat).unwrap();
    let len = be16(d, o);
    let l = parse_param_sets(d, off, n).unwrap().0;
    assert(l == p.push(d.subrange(o + 2, o + 2 + len)));
    if n > 1 {
        lemma_parse_param_sets_first(d, off, (n - 1) as nat);
        assert(l[0] == p[0]);
    } else {
        assert(p.len() == 0 && o == off);
    }
}

/// Where the fields of an AVCDecoderConfigurationRecord stand, as parsing reads them:
/// byte 0 is the configuration version 1, byte 1 the profile, byte 2 the profile
/// compatibility, byte 3 the level, the low two bits of byte 4 the NAL length size minus
/// one and the low five bits of byte 5 the number of SPS entries, whose first one follows
/// at byte 8 behind its 16-bit length at byte 6.
pub proof fn lemma_avc_sequence_header_parsed_fields(d: Seq<u8>)
    requires
        parse_avc_sequence_header(d) is Ok,
    ensures
        ({
            let h = parse_avc_sequence_header(d).unwrap();
            &&& d[0] == 1
            &&& h.avc_profile_indication == d[1]
            &&& h.profile_compatibility == d[2]
            &&& h.avc_level_indication == d[3]
            &&& h.length_size_minus_one == d[4] % 4
            &&& h.sps_list.len() == d[5] % 32
            &&& 8 + be16(d, 6) <= d.len()
            &&& h.sps_list[0] == d.subrange(8, 8 + be16(d, 6))
        }),
{
    lemma_parse_param_sets_first(d, 6, (d[5] % 32) as nat);
}

/// Where the fields of an AVCDecoderConfigurationRecord stand, as writing puts them:
/// byte 0 is the configuration version 1, byte 1 the profile, byte 2 the profile
/// compatibility, byte 3 the level, byte 4 the NAL length size minus one under six set
/// bits, byte 5 the number of SPS entries under three set bits, then the first SPS at
/// byte 8 behind its 16-bit length at byte 6.
pub proof fn lemma_avc_sequence_header_written_fields(h: AvcSequenceHeaderModel)
    requires
        avc_sequence_header_writable(h),
    ensures
        ({
            let b = avc_sequence_header_bytes(h);
            &&& b[0] == 1
            &&& b[1] == h.avc_profile_indication
            &&& b[2] == h.profile_compatibility
            &&& b[3] == h.avc_level_indication
            &&& b[4] == 0xFC + h.length_size_minus_one % 4
            &&& b[5] == 0xE0 + h.sps_list.len()
            &&& be16(b, 6) == h.sps_list[0].len()
            &&& b.subrange(8, 8 + h.sps_list[0].len() as int) == h.sps_list[0]
        }),
{
    let b = avc_sequence_header_bytes(h);
    let sb = param_sets_bytes(h.sps_list);
    let s0 = h.sps_list[0];
    assert(s0.len() <= AVC_MAX_PARAMETER_SET_SIZE);
    lemma_param_sets_bytes_first(h.sps_list);
    let head = seq![
        AVC_CONFIGURATION_VERSION,
        h.avc_profile_indication,
        h.profile_compatibility,
        h.avc_level_indication,
        (0xFC + h.length_size_minus_one % 4) as u8,
        (0xE0 + h.sps_list.len()) as u8,
    ];
    assert(b == head + sb + seq![h.pps_list.len() as u8] + param_sets_bytes(h.pps_list));
    let first = u16_be(s0.len() as int) + s0;
    assert(sb.subrange(0, 2 + s0.len() as int) == first);
    assert forall|i: int| 0 <= i < 2 + s0.len() implies b[6 + i] == #[trigger] first[i] by {
        assert(b[6 + i] == sb[i]);
        assert(sb[i] == sb.subrange(0, 2 + s0.len() as int)[i]);
    }
    assert(b[6] == first[0] && b[7] == first[1]);
    crate::bytes::lemma_u16_be_roundtrip(s0.len() as int);
    assert(be16(b, 6) == be16(first, 0));
    assert forall|i: int| 0 <= i < s0.len() implies b.subrange(8, 8 + s0.len() as int)[i] == s0[i] by {
        assert(b[8 + i] == first[2 + i]);
    }
    assert(b.subrange(8, 8 + s0.len() as int) =~= s0);
}

} // verus!
