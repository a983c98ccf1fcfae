use vrt::{ClassId, Error, Header, ParseError, PktType, Trailer, Tsf, Tsi, VrtPacket};

fn plain_header() -> Header {
    Header {
        packet_type: PktType::IfData,
        c: false,
        t: false,
        tsi: Tsi::Absent,
        tsf: Tsf::Absent,
        packet_count: 0,
        packet_size: 0,
    }
}

fn full_packet(payload: &[u8]) -> VrtPacket<'_> {
    VrtPacket {
        header: Header {
            packet_type: PktType::IfDataWithStream,
            c: true,
            t: true,
            tsi: Tsi::Utc,
            tsf: Tsf::RealTime,
            packet_count: 5,
            packet_size: 0,
        },
        stream_id: Some(0x0102_0304),
        class_id: Some(ClassId { oui: 0xAB_CDEF, information_class: 0x1234, packet_class: 0x5678 }),
        tsi: Some(0x1122_3344),
        tsf: Some(0x0102_0304_0506_0708),
        payload,
        trailer: Some(Trailer {
            enables: 0xABC,
            indicators: 0x123,
            e: true,
            context_packet_count: 0x45,
        }),
    }
}

const FULL_BYTES: [u8; 36] = [
    0x1C, 0x65, 0x00, 0x09, 0x01, 0x02, 0x03, 0x04, 0x00, 0xAB, 0xCD, 0xEF, 0x12, 0x34, 0x56, 0x78,
    0x11, 0x22, 0x33, 0x44, 0x01, 0x02, 0x03, 0x04, 0x05, 0x06, 0x07, 0x08, 0xDE, 0xAD, 0xBE, 0xEF,
    0xAB, 0xC1, 0x23, 0xC5,
];

#[test]
fn serialize_writes_every_field_in_wire_order() {
    let payload = [0xDE, 0xAD, 0xBE, 0xEF];
    let mut packet = full_packet(&payload);
    let mut buffer = [0xFFu8; 40];
    assert_eq!(packet.serialize(&mut buffer), Ok(36));
    assert_eq!(&buffer[..36], &FULL_BYTES[..]);
    assert_eq!(&buffer[36..], &[0xFF, 0xFF, 0xFF, 0xFF]);
    assert_eq!(packet.header.packet_size, 9);
}

#[test]
fn parse_reads_every_field_in_wire_order() {
    let (rest, packet) = VrtPacket::parse(&FULL_BYTES).unwrap();
    assert!(rest.is_empty());
    let payload = [0xDE, 0xAD, 0xBE, 0xEF];
    let mut expected = full_packet(&payload);
    expected.header.packet_size = 9;
    assert_eq!(packet, expected);
    assert_eq!(packet.stream_id, Some(0x0102_0304));
    assert_eq!(packet.tsi, Some(0x1122_3344));
    assert_eq!(packet.tsf, Some(0x0102_0304_0506_0708));
    assert_eq!(packet.payload, &payload[..]);
}

#[test]
fn plain_data_packet_of_three_words_has_eight_payload_bytes() {
    let bytes = [0x00, 0x00, 0x00, 0x03, 1, 2, 3, 4, 5, 6, 7, 8];
    let (rest, packet) = VrtPacket::parse(&bytes).unwrap();
    assert!(rest.is_empty());
    assert_eq!(packet.header.packet_type, PktType::IfData);
    assert_eq!(packet.header.packet_size, 3);
    assert_eq!(packet.stream_id, None);
    assert_eq!(packet.class_id, None);
    assert_eq!(packet.tsi, None);
    assert_eq!(packet.tsf, None);
    assert_eq!(packet.trailer, None);
    assert_eq!(packet.payload.len(), 8);
    assert_eq!(packet.payload, &[1, 2, 3, 4, 5, 6, 7, 8]);
}

#[test]
fn trailer_is_taken_from_the_last_word() {
    let bytes = [0x04, 0x00, 0x00, 0x04, 1, 2, 3, 4, 5, 6, 7, 8, 0xAB, 0xC1, 0x23, 0xC5];
    let (rest, packet) = VrtPacket::parse(&bytes).unwrap();
    assert!(rest.is_empty());
    assert!(packet.header.t);
    assert_eq!(packet.payload.len(), 8);
    assert_eq!(packet.payload, &[1, 2, 3, 4, 5, 6, 7, 8]);
    assert_eq!(
        packet.trailer,
        Some(Trailer { enables: 0xABC, indicators: 0x123, e: true, context_packet_count: 0x45 })
    );
}

#[test]
fn absent_fields_are_not_zero_fields() {
    let bytes = [0x00, 0x00, 0x00, 0x02, 0, 0, 0, 0];
    let (_, packet) = VrtPacket::parse(&bytes).unwrap();
    assert_eq!(packet.stream_id, None);
    assert_eq!(packet.tsi, None);
    assert_ne!(packet.stream_id, Some(0));
    let with_stream = [0x10, 0x00, 0x00, 0x02, 0, 0, 0, 0];
    let (_, packet) = VrtPacket::parse(&with_stream).unwrap();
    assert_eq!(packet.stream_id, Some(0));
    assert!(packet.payload.is_empty());
}

#[test]
fn empty_payload_round_trips() {
    let mut packet = full_packet(&[]);
    let mut buffer = [0u8; 32];
    assert_eq!(packet.serialize(&mut buffer), Ok(32));
    assert_eq!(packet.header.packet_size, 8);
    let (rest, back) = VrtPacket::parse(&buffer).unwrap();
    assert!(rest.is_empty());
    assert!(back.payload.is_empty());
    assert_eq!(back, packet);

    let mut bare = VrtPacket { header: plain_header(), ..VrtPacket::default() };
    let mut word = [0u8; 4];
    assert_eq!(bare.serialize(&mut word), Ok(4));
    assert_eq!(word, [0, 0, 0, 1]);
    let (rest, back) = VrtPacket::parse(&word).unwrap();
    assert!(rest.is_empty());
    assert_eq!(back, bare);
}

#[test]
fn every_combination_of_optional_fields_round_trips() {
    let payload = [9u8, 8, 7, 6, 5, 4, 3, 2];
    for mask in 0u32..32 {
        let stream = mask & 1 != 0;
        let class = mask & 2 != 0;
        let tsi = mask & 4 != 0;
        let tsf = mask & 8 != 0;
        let trailer = mask & 16 != 0;
        let mut packet = VrtPacket {
            header: Header {
                packet_type: if stream { PktType::ExtDataWithStream } else { PktType::ExtData },
                c: class,
                t: trailer,
                tsi: if tsi { Tsi::Gps } else { Tsi::Absent },
                tsf: if tsf { Tsf::SampleCount } else { Tsf::Absent },
                packet_count: (mask % 16) as u8,
                packet_size: 0xFFFF,
            },
            stream_id: if stream { Some(0xCAFE_0000 + mask) } else { None },
            class_id: if class {
                Some(ClassId { oui: 0x00_1234, information_class: 7, packet_class: mask as u16 })
            } else {
                None
            },
            tsi: if tsi { Some(1_700_000_000) } else { None },
            tsf: if tsf { Some(0xFFFF_FFFF_0000_0001) } else { None },
            payload: &payload,
            trailer: if trailer {
                Some(Trailer { enables: 0xFFF, indicators: 0, e: false, context_packet_count: 0 })
            } else {
                None
            },
        };
        let expected = 4
            + if stream { 4 } else { 0 }
            + if class { 8 } else { 0 }
            + if tsi { 4 } else { 0 }
            + if tsf { 8 } else { 0 }
            + 8
            + if trailer { 4 } else { 0 };
        let mut buffer = [0x5Au8; 48];
        assert_eq!(packet.serialize(&mut buffer), Ok(expected));
        assert_eq!(packet.header.packet_size as usize * 4, expected);
        let (rest, back) = VrtPacket::parse(&buffer).unwrap();
        assert_eq!(rest.len(), 48 - expected);
        assert!(rest.iter().all(|b| *b == 0x5A));
        assert_eq!(back, packet);
    }
}

#[test]
fn packet_size_counts_the_words_written() {
    let payload = [0u8; 400];
    let mut packet = full_packet(&payload);
    packet.header.packet_size = 1;
    let mut buffer = vec![0u8; 1024];
    let written = packet.serialize(&mut buffer).unwrap();
    assert_eq!(written, 432);
    assert_eq!(packet.header.packet_size, 108);
    assert_eq!(&buffer[..4], &[0x1C, 0x65, 0x00, 108]);
}

#[test]
fn payload_that_is_no_whole_number_of_words_is_refused() {
    for len in [1usize, 2, 3, 5, 6, 7] {
        let payload = [1u8, 2, 3, 4, 5, 6, 7];
        let mut packet =
            VrtPacket { header: plain_header(), payload: &payload[..len], ..VrtPacket::default() };
        packet.header.packet_size = 42;
        let mut buffer = [0u8; 16];
        assert_eq!(packet.serialize(&mut buffer), Err(Error::Misaligned));
        assert_eq!(packet.header.packet_size, 42);
        assert_eq!(packet.payload, &payload[..len]);
    }
    let payload = [0xDE, 0xAD, 0xBE, 0xEF, 0x01];
    let mut packet = full_packet(&payload);
    let mut buffer = [0u8; 37];
    assert_eq!(packet.serialize(&mut buffer), Err(Error::Misaligned));
    assert_eq!(packet.header.packet_size, 0);
    // a buffer that cannot hold the bytes is reported first
    let mut short = [0u8; 36];
    assert_eq!(packet.serialize(&mut short), Err(Error::BufferFull));
}

#[test]
fn success_always_covers_the_bytes_written() {
    for len in 0usize..=12 {
        for stale in [0u16, 1, 0xFFFF] {
            let payload = [7u8; 12];
            let mut packet = full_packet(&payload[..len]);
            packet.header.packet_size = stale;
            let mut buffer = [0u8; 64];
            match packet.serialize(&mut buffer) {
                Ok(n) => {
                    assert_eq!(len % 4, 0);
                    assert_eq!(n, 32 + len);
                    assert_eq!(packet.header.packet_size as usize * 4, n);
                    let (_, header) = Header::parse(&buffer[..4]).unwrap();
                    assert_eq!(header.packet_size as usize * 4, n);
                    assert_eq!(header, packet.header);
                    assert_eq!(header.packet_type, PktType::IfDataWithStream);
                    assert!(header.c && header.t);
                    assert_eq!(header.tsi, Tsi::Utc);
                    assert_eq!(header.tsf, Tsf::RealTime);
                },
                Err(e) => {
                    assert_ne!(len % 4, 0);
                    assert_eq!(e, Error::Misaligned);
                    assert_eq!(packet.header.packet_size, stale);
                },
            }
        }
    }
}

#[test]
fn truncated_input_is_incomplete() {
    for k in 0..FULL_BYTES.len() {
        let expected = if k < 4 { 4 - k } else { 36 };
        assert_eq!(VrtPacket::parse(&FULL_BYTES[..k]), Err(ParseError::Incomplete(expected)));
    }
    assert!(VrtPacket::parse(&FULL_BYTES[..36]).is_ok());
}

#[test]
fn bytes_behind_the_packet_are_handed_back() {
    let mut stream = FULL_BYTES.to_vec();
    stream.extend_from_slice(&[0x00, 0x00, 0x00, 0x02, 0xAA, 0xBB, 0xCC, 0xDD, 0x77]);
    let (rest, first) = VrtPacket::parse(&stream).unwrap();
    assert_eq!(first.header.packet_size, 9);
    assert_eq!(rest.len(), 9);
    let (rest, second) = VrtPacket::parse(rest).unwrap();
    assert_eq!(second.payload, &[0xAA, 0xBB, 0xCC, 0xDD]);
    assert_eq!(rest, &[0x77]);
    assert_eq!(VrtPacket::parse(rest), Err(ParseError::Incomplete(3)));
}

#[test]
fn declared_size_too_small_for_the_fields_is_malformed() {
    // stream identifier announced, one word declared
    let bytes = [0x10, 0x00, 0x00, 0x01, 1, 2, 3, 4, 5, 6, 7, 8];
    assert_eq!(VrtPacket::parse(&bytes), Err(ParseError::Malformed));
    assert_eq!(VrtPacket::parse(&bytes[..4]), Err(ParseError::Malformed));
    // no word declared at all
    let bytes = [0x00, 0x00, 0x00, 0x00];
    assert_eq!(VrtPacket::parse(&bytes), Err(ParseError::Malformed));
    // trailer announced, one word declared
    let bytes = [0x04, 0x00, 0x00, 0x01, 0, 0, 0, 0];
    assert_eq!(VrtPacket::parse(&bytes), Err(ParseError::Malformed));
    // every field announced takes eight words; seven declared
    let mut bytes = FULL_BYTES;
    bytes[3] = 7;
    assert_eq!(VrtPacket::parse(&bytes), Err(ParseError::Malformed));
    bytes[3] = 8;
    let (rest, packet) = VrtPacket::parse(&bytes).unwrap();
    assert!(packet.payload.is_empty());
    assert_eq!(rest.len(), 4);
}

#[test]
fn undefined_packet_type_is_malformed() {
    let bytes = [0x60, 0x00, 0x00, 0x01];
    assert_eq!(VrtPacket::parse(&bytes), Err(ParseError::Malformed));
    assert_eq!(Header::parse(&bytes), Err(ParseError::Malformed));
    let bytes = [0xF0, 0x00, 0x00, 0x01];
    assert_eq!(Header::parse(&bytes), Err(ParseError::Malformed));
}

#[test]
fn class_identifier_with_reserved_bits_is_malformed() {
    let bytes = [0x08, 0x00, 0x00, 0x03, 0x01, 0xAB, 0xCD, 0xEF, 0, 1, 0, 2];
    assert_eq!(VrtPacket::parse(&bytes), Err(ParseError::Malformed));
    assert_eq!(ClassId::parse(&bytes[4..]), Err(ParseError::Malformed));
    let bytes = [0x08, 0x00, 0x00, 0x03, 0x00, 0xAB, 0xCD, 0xEF, 0, 1, 0, 2];
    let (_, packet) = VrtPacket::parse(&bytes).unwrap();
    assert_eq!(
        packet.class_id,
        Some(ClassId { oui: 0xAB_CDEF, information_class: 1, packet_class: 2 })
    );
}

#[test]
fn buffer_too_small_is_reported_at_every_length() {
    let payload = [0xDE, 0xAD, 0xBE, 0xEF];
    for cap in 0..36 {
        let mut packet = full_packet(&payload);
        packet.header.packet_size = 77;
        let mut buffer = vec![0u8; cap];
        assert_eq!(packet.serialize(&mut buffer), Err(Error::BufferFull));
        assert_eq!(packet.header.packet_size, 77);
        assert_eq!(buffer.len(), cap);
    }
    let mut packet = full_packet(&payload);
    let mut buffer = vec![0u8; 36];
    assert_eq!(packet.serialize(&mut buffer), Ok(36));
}

#[test]
fn word_count_beyond_the_size_field_is_an_overflow() {
    let payload = vec![0u8; 4 * 65535];
    let mut packet = VrtPacket { header: plain_header(), payload: &payload, ..VrtPacket::default() };
    packet.header.packet_size = 3;
    let mut buffer = vec![0u8; 4 * 65536];
    assert_eq!(packet.serialize(&mut buffer), Err(Error::SizeOverflow));
    assert_eq!(packet.header.packet_size, 3);
    let mut short = vec![0u8; 4 * 65535];
    assert_eq!(packet.serialize(&mut short), Err(Error::BufferFull));

    let mut packet =
        VrtPacket { header: plain_header(), payload: &payload[4..], ..VrtPacket::default() };
    assert_eq!(packet.serialize(&mut buffer), Ok(4 * 65535));
    assert_eq!(packet.header.packet_size, 65535);
    let (rest, back) = VrtPacket::parse(&buffer).unwrap();
    assert_eq!(rest.len(), 4);
    assert_eq!(back, packet);
}

#[test]
fn word_count_beyond_the_size_field_is_an_overflow_whatever_the_remainder() {
    let payload = vec![0u8; 4 * 65535 + 3];
    let mut buffer = vec![0u8; 4 * 65536 + 8];
    for extra in [1usize, 2, 3] {
        let mut packet = VrtPacket {
            header: plain_header(),
            payload: &payload[..4 * 65535 + extra],
            ..VrtPacket::default()
        };
        packet.header.packet_size = 11;
        assert_eq!(packet.serialize(&mut buffer), Err(Error::SizeOverflow));
        assert_eq!(packet.header.packet_size, 11);
    }
    // one word fewer: the count fits, and the remainder is what is wrong
    let mut packet = VrtPacket {
        header: plain_header(),
        payload: &payload[..4 * 65534 + 1],
        ..VrtPacket::default()
    };
    packet.header.packet_size = 11;
    assert_eq!(packet.serialize(&mut buffer), Err(Error::Misaligned));
    assert_eq!(packet.header.packet_size, 11);
}

#[test]
fn header_word_layout() {
    let header = Header {
        packet_type: PktType::ExtContext,
        c: false,
        t: true,
        tsi: Tsi::Other,
        tsf: Tsf::FreeRunning,
        packet_count: 15,
        packet_size: 0xBEEF,
    };
    assert_eq!(header.to_word(), 0x54FF_BEEF);
    let mut buffer = [0u8; 8];
    assert_eq!(header.serialize_at(&mut buffer, 4), Ok(4));
    assert_eq!(buffer, [0, 0, 0, 0, 0x54, 0xFF, 0xBE, 0xEF]);
    let (rest, back) = Header::parse(&buffer[4..]).unwrap();
    assert!(rest.is_empty());
    assert_eq!(back, header);
    assert_eq!(header.serialize_at(&mut buffer, 5), Err(Error::BufferFull));
    assert_eq!(Header::parse(&buffer[6..]), Err(ParseError::Incomplete(2)));
    // the two reserved bits are not looked at
    let (_, loose) = Header::parse(&[0x57, 0xFF, 0xBE, 0xEF]).unwrap();
    assert_eq!(loose, header);
}

#[test]
fn packet_type_tells_whether_a_stream_identifier_follows() {
    assert!(PktType::IfDataWithStream.has_stream_id());
    assert!(PktType::ExtDataWithStream.has_stream_id());
    assert!(!PktType::IfData.has_stream_id());
    assert!(!PktType::ExtData.has_stream_id());
    assert!(!PktType::IfContext.has_stream_id());
    assert!(!PktType::ExtContext.has_stream_id());
}

#[test]
fn class_identifier_layout() {
    let class_id = ClassId { oui: 0x12_3456, information_class: 0xABCD, packet_class: 0xEF01 };
    assert_eq!(class_id.to_word(), 0x0012_3456_ABCD_EF01);
    let mut buffer = [0xFFu8; 10];
    assert_eq!(class_id.serialize_at(&mut buffer, 1), Ok(8));
    assert_eq!(buffer, [0xFF, 0x00, 0x12, 0x34, 0x56, 0xAB, 0xCD, 0xEF, 0x01, 0xFF]);
    let (rest, back) = ClassId::parse(&buffer[1..]).unwrap();
    assert_eq!(rest, &[0xFF]);
    assert_eq!(back, class_id);
    assert_eq!(class_id.serialize_at(&mut buffer, 3), Err(Error::BufferFull));
    assert_eq!(ClassId::parse(&buffer[5..]), Err(ParseError::Incomplete(3)));
}

#[test]
fn trailer_layout() {
    let trailer = Trailer { enables: 0x801, indicators: 0x7FE, e: false, context_packet_count: 127 };
    assert_eq!(trailer.to_word(), 0x8017_FE7F);
    let mut buffer = [0u8; 4];
    assert_eq!(trailer.serialize_at(&mut buffer, 0), Ok(4));
    assert_eq!(buffer, [0x80, 0x17, 0xFE, 0x7F]);
    let (rest, back) = Trailer::parse(&buffer).unwrap();
    assert!(rest.is_empty());
    assert_eq!(back, trailer);
    assert_eq!(trailer.serialize_at(&mut buffer, 1), Err(Error::BufferFull));
    assert_eq!(Trailer::parse(&buffer[..1]), Err(ParseError::Incomplete(3)));
}

#[test]
fn default_packet_is_a_bare_header() {
    let packet = VrtPacket::default();
    assert_eq!(packet.header, plain_header());
    assert_eq!(packet.header, Header::default());
    assert_eq!(packet.stream_id, None);
    assert_eq!(packet.class_id, None);
    assert_eq!(packet.tsi, None);
    assert_eq!(packet.tsf, None);
    assert!(packet.payload.is_empty());
    assert_eq!(packet.trailer, None);
}
