use shiguredo_rtmp::media::AvcSequenceHeader;

#[test]
fn test_avc_sequence_header_roundtrip() {
    let header = AvcSequenceHeader {
        avc_profile_indication: 0x42,
        profile_compatibility: 0xC0,
        avc_level_indication: 0x1F,
        length_size_minus_one: 3,
        sps_list: vec![vec![0x01, 0x02, 0x03]],
        pps_list: vec![vec![0x04, 0x05]],
    };

    let bytes = header.to_bytes().expect("to_bytes failed");
    let parsed = AvcSequenceHeader::from_bytes(&bytes).expect("from_bytes failed");

    assert_eq!(header, parsed);
}

#[test]
fn test_avc_sequence_header_too_short() {
    let short_data = vec![0x01, 0x02, 0x03];
    assert!(AvcSequenceHeader::from_bytes(&short_data).is_err());
}

#[test]
fn test_avc_sequence_header_invalid_version() {
    let data = vec![0x02, 0x42, 0xC0, 0x1F, 0xFC, 0xE0, 0x00];
    let result = AvcSequenceHeader::from_bytes(&data);
    assert!(result.is_err());
}

#[test]
fn test_avc_sequence_header_multiple_sps_pps() {
    let header = AvcSequenceHeader {
        avc_profile_indication: 0x42,
        profile_compatibility: 0xC0,
        avc_level_indication: 0x1F,
        length_size_minus_one: 3,
        sps_list: vec![vec![1, 2, 3], vec![4, 5, 6]],
        pps_list: vec![vec![7, 8], vec![9, 10]],
    };

    let bytes = header.to_bytes().expect("to_bytes failed");
    let parsed = AvcSequenceHeader::from_bytes(&bytes).expect("from_bytes failed");

    assert_eq!(header, parsed);
}

#[test]
fn test_avc_sequence_header_empty_sps() {
    let header = AvcSequenceHeader {
        avc_profile_indication: 0x42,
        profile_compatibility: 0xC0,
        avc_level_indication: 0x1F,
        length_size_minus_one: 3,
        sps_list: vec![],
        pps_list: vec![vec![0x04, 0x05]],
    };

    assert!(header.to_bytes().is_err());
}

#[test]
fn test_avc_sequence_header_empty_pps() {
    let header = AvcSequenceHeader {
        avc_profile_indication: 0x42,
        profile_compatibility: 0xC0,
        avc_level_indication: 0x1F,
        length_size_minus_one: 3,
        sps_list: vec![vec![0x01, 0x02, 0x03]],
        pps_list: vec![],
    };

    assert!(header.to_bytes().is_err());
}

#[test]
fn test_avc_sequence_header_sps_too_large() {
    let header = AvcSequenceHeader {
        avc_profile_indication: 0x42,
        profile_compatibility: 0xC0,
        avc_level_indication: 0x1F,
        length_size_minus_one: 3,
        sps_list: vec![vec![0; 5000]], // MAX_SPS_SIZE = 4096
        pps_list: vec![vec![0x04, 0x05]],
    };

    assert!(header.to_bytes().is_err());
}

#[test]
fn test_avc_sequence_header_pps_too_large() {
    let header = AvcSequenceHeader {
        avc_profile_indication: 0x42,
        profile_compatibility: 0xC0,
        avc_level_indication: 0x1F,
        length_size_minus_one: 3,
        sps_list: vec![vec![0x01, 0x02, 0x03]],
        pps_list: vec![vec![0; 5000]], // MAX_PPS_SIZE = 4096
    };

    assert!(header.to_bytes().is_err());
}

#[test]
fn test_avc_sequence_header_empty_sps_from_bytes() {
    // num_sps = 0
    let data = vec![0x01, 0x42, 0xC0, 0x1F, 0xFC, 0xE0, 0x00];
    assert!(AvcSequenceHeader::from_bytes(&data).is_err());
}

#[test]
fn test_avc_sequence_header_empty_pps_from_bytes() {
    // one minimal SPS, then num_pps = 0
    let mut data = vec![0x01, 0x42, 0xC0, 0x1F, 0xFC, 0xE1]; // num_sps = 1
    data.extend_from_slice(&[0x00, 0x01]); // sps_length = 1
    data.extend_from_slice(&[0xFF]); // sps_data
    data.push(0x00); // num_pps = 0

    assert!(AvcSequenceHeader::from_bytes(&data).is_err());
}

#[test]
fn test_avc_sequence_header_sps_too_large_from_bytes() {
    // an SPS length above the maximum
    let mut data = vec![0x01, 0x42, 0xC0, 0x1F, 0xFC, 0xE1]; // num_sps = 1
    data.extend_from_slice(&[0x10, 0x01]); // sps_length = 4097 (above the maximum of 4096)

    assert!(AvcSequenceHeader::from_bytes(&data).is_err());
}

#[test]
fn test_avc_sequence_header_pps_too_large_from_bytes() {
    // a PPS length above the maximum
    let mut data = vec![0x01, 0x42, 0xC0, 0x1F, 0xFC, 0xE1]; // num_sps = 1
    data.extend_from_slice(&[0x00, 0x01]); // sps_length = 1
    data.extend_from_slice(&[0xFF]); // sps_data
    data.extend_from_slice(&[0x01]); // num_pps = 1
    data.extend_from_slice(&[0x10, 0x01]); // pps_length = 4097 (above the maximum of 4096)

    assert!(AvcSequenceHeader::from_bytes(&data).is_err());
}
