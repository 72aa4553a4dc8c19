use zenith::error::FrameError;
use zenith::frame::{PacketType, SequenceFlags, SpacePacket, SpacePacketHeader, MAX_APID};

fn sample_header(data_len: usize) -> SpacePacketHeader {
    SpacePacketHeader {
        apid: 42,
        packet_type: PacketType::Telemetry,
        secondary_header: false,
        sequence_flags: SequenceFlags::Unsegmented,
        sequence_count: 100,
        data_len,
    }
}

#[test]
fn header_round_trips() {
    let h = sample_header(16);
    let bytes = h.to_bytes().unwrap();
    assert_eq!(bytes.len(), 6);
    let parsed = SpacePacketHeader::from_bytes(&bytes).unwrap();
    assert_eq!(parsed, h);
}

#[test]
fn packet_round_trips() {
    let data = vec![1, 2, 3, 4, 5];
    let packet = SpacePacket::new(sample_header(0), data.clone()).unwrap();
    let bytes = packet.to_bytes().unwrap();
    assert_eq!(bytes.len(), 6 + data.len());
    let parsed = SpacePacket::from_bytes(&bytes).unwrap();
    assert_eq!(parsed.data, data);
    assert_eq!(parsed.header.data_len, data.len());
}

#[test]
fn rejects_apid_out_of_range() {
    let mut h = sample_header(1);
    h.apid = MAX_APID + 1;
    assert!(h.to_bytes().is_err());
}

#[test]
fn rejects_truncated_bytes() {
    assert!(SpacePacket::from_bytes(&[0, 1, 2]).is_err());
}

#[test]
fn rejects_length_mismatch() {
    let mut bytes = SpacePacket::new(sample_header(0), vec![1, 2, 3])
        .unwrap()
        .to_bytes()
        .unwrap();
    bytes.pop(); // now declares 3 bytes of data but only carries 2
    assert!(SpacePacket::from_bytes(&bytes).is_err());
}

#[test]
fn header_wire_layout_is_exact() {
    let h = SpacePacketHeader {
        apid: 0x5A5,
        packet_type: PacketType::Telecommand,
        secondary_header: true,
        sequence_flags: SequenceFlags::First,
        sequence_count: 0x2ABC,
        data_len: 0x1235,
    };
    // word0 = 0b000_1_1_10110100101 = 0x1DA5; word1 = 01 << 14 | 0x2ABC = 0x6ABC;
    // word2 = 0x1234.
    assert_eq!(h.to_bytes().unwrap(), [0x1D, 0xA5, 0x6A, 0xBC, 0x12, 0x34]);
    assert_eq!(sample_header(16).to_bytes().unwrap(), [0x00, 42, 0xC0, 100, 0x00, 15]);
}

#[test]
fn every_sequence_flag_round_trips() {
    for flags in [
        SequenceFlags::Continuation,
        SequenceFlags::First,
        SequenceFlags::Last,
        SequenceFlags::Unsegmented,
    ] {
        let mut h = sample_header(1);
        h.sequence_flags = flags;
        let bytes = h.to_bytes().unwrap();
        assert_eq!(SpacePacketHeader::from_bytes(&bytes).unwrap(), h);
    }
}

#[test]
fn field_range_errors_name_the_field() {
    let mut h = sample_header(1);
    h.apid = 0x800;
    assert_eq!(h.to_bytes(), Err(FrameError::FieldOutOfRange { field: "apid", value: 0x800 }));
    let mut h = sample_header(1);
    h.sequence_count = 0x4000;
    assert_eq!(
        h.to_bytes(),
        Err(FrameError::FieldOutOfRange { field: "sequence_count", value: 0x4000 })
    );
    assert_eq!(
        sample_header(0).to_bytes(),
        Err(FrameError::FieldOutOfRange { field: "data_len", value: 0 })
    );
    assert_eq!(
        sample_header(0x1_0001).to_bytes(),
        Err(FrameError::FieldOutOfRange { field: "data_len", value: 0x1_0001 })
    );
    // APID is checked before the sequence count.
    let mut h = sample_header(1);
    h.apid = 0xFFFF;
    h.sequence_count = 0xFFFF;
    assert_eq!(h.to_bytes(), Err(FrameError::FieldOutOfRange { field: "apid", value: 0xFFFF }));
}

#[test]
fn largest_fields_fit() {
    let h = SpacePacketHeader {
        apid: 0x7FF,
        packet_type: PacketType::Telemetry,
        secondary_header: false,
        sequence_flags: SequenceFlags::Last,
        sequence_count: 0x3FFF,
        data_len: 0x1_0000,
    };
    let bytes = h.to_bytes().unwrap();
    assert_eq!(bytes, [0x07, 0xFF, 0xBF, 0xFF, 0xFF, 0xFF]);
    assert_eq!(SpacePacketHeader::from_bytes(&bytes).unwrap(), h);
}

#[test]
fn rejects_nonzero_version() {
    assert_eq!(
        SpacePacketHeader::from_bytes(&[0x20, 0, 0, 0, 0, 0]),
        Err(FrameError::UnsupportedVersion(1))
    );
    assert_eq!(
        SpacePacketHeader::from_bytes(&[0xE0, 0, 0, 0, 0, 0]),
        Err(FrameError::UnsupportedVersion(7))
    );
}

#[test]
fn packet_errors_are_exact() {
    assert_eq!(SpacePacket::from_bytes(&[0, 1, 2, 3, 4]), Err(FrameError::Truncated));
    assert_eq!(
        SpacePacket::from_bytes(&[0, 42, 0xC0, 100, 0, 2, 9]),
        Err(FrameError::LengthMismatch { declared: 3, actual: 1 })
    );
    assert_eq!(
        SpacePacket::new(sample_header(7), Vec::new()),
        Err(FrameError::FieldOutOfRange { field: "data_len", value: 0 })
    );
    let p = SpacePacket::new(sample_header(0), vec![9, 8]).unwrap();
    assert_eq!(p.header.data_len, 2);
    assert_eq!(p.to_bytes().unwrap(), vec![0, 42, 0xC0, 100, 0, 1, 9, 8]);
}

#[test]
fn parsed_bytes_serialize_back_to_themselves() {
    let bytes = vec![0x1F, 0xFF, 0x3F, 0xFF, 0x00, 0x00, 0xAB];
    let p = SpacePacket::from_bytes(&bytes).unwrap();
    assert_eq!(p.to_bytes().unwrap(), bytes);
}
