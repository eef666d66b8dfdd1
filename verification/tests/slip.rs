use tudelft_serial_upload::error::UploadError;
use tudelft_serial_upload::slip::{
    ack_number, append_bytes, encode_frame, escape, unescape, SlipHeader, HCI_PACKET_TYPE,
    PAYLOAD_LIMIT, SLIP_END, SLIP_ESC,
};

#[test]
fn header_bytes_for_each_sequence_number() {
    let expected: [[u8; 4]; 8] = [
        [0xc8, 0x4e, 0x01, 0xe9],
        [0xd1, 0x4e, 0x01, 0xe0],
        [0xda, 0x4e, 0x01, 0xd7],
        [0xe3, 0x4e, 0x01, 0xce],
        [0xec, 0x4e, 0x01, 0xc5],
        [0xf5, 0x4e, 0x01, 0xbc],
        [0xfe, 0x4e, 0x01, 0xb3],
        [0xc7, 0x4e, 0x01, 0xea],
    ];
    for sequence in 0..8u8 {
        let header = SlipHeader::for_payload(sequence, 20);
        assert_eq!(header.pack(), expected[sequence as usize]);
    }
}

#[test]
fn header_fields_for_payload() {
    let header = SlipHeader::for_payload(7, 516);
    assert_eq!(header.sequence, 7);
    assert_eq!(header.next_sequence, 0);
    assert!(header.integrity_check);
    assert!(header.reliable);
    assert_eq!(header.packet_type, HCI_PACKET_TYPE);
    assert_eq!(header.packet_type, 14);
    assert_eq!(header.payload_len, 516);
}

#[test]
fn header_of_longest_payload() {
    assert_eq!(PAYLOAD_LIMIT, 0x1000);
    assert_eq!(SlipHeader::for_payload(7, 0xfff).pack(), [0xc7, 0xfe, 0xff, 0x3c]);
    assert_eq!(SlipHeader::for_payload(3, 516).pack(), [0xe3, 0x4e, 0x20, 0xaf]);
}

#[test]
fn header_bytes_add_up_to_zero() {
    for sequence in 0..8u8 {
        for len in [0usize, 1, 15, 16, 255, 256, 516, 4095] {
            let bytes = SlipHeader::for_payload(sequence, len).pack();
            let sum = bytes.iter().fold(0u8, |acc, b| acc.wrapping_add(*b));
            assert_eq!(sum, 0);
        }
    }
}

#[test]
fn header_unpack_reverses_pack() {
    for sequence in 0..8u8 {
        for len in [0usize, 5, 22, 67, 516, 4095] {
            let header = SlipHeader::for_payload(sequence, len);
            assert_eq!(SlipHeader::unpack(&header.pack()), Some(header));
        }
    }
    let odd = SlipHeader {
        sequence: 2,
        next_sequence: 6,
        integrity_check: false,
        reliable: true,
        packet_type: 3,
        payload_len: 0x123,
    };
    assert_eq!(SlipHeader::unpack(&odd.pack()), Some(odd));
}

#[test]
fn header_unpack_refuses_bad_parity_and_length() {
    assert_eq!(SlipHeader::unpack(&[0xd1, 0x4e, 0x01, 0xe1]), None);
    assert_eq!(SlipHeader::unpack(&[0xd1, 0x4e, 0x01]), None);
    assert_eq!(SlipHeader::unpack(&[0xd1, 0x4e, 0x01, 0xe0, 0x00]), None);
    assert_eq!(SlipHeader::unpack(&[]), None);
}

#[test]
fn ack_number_is_bits_three_to_five() {
    assert_eq!(ack_number(0x00), 0);
    assert_eq!(ack_number(0x08), 1);
    assert_eq!(ack_number(0xd1), 2);
    assert_eq!(ack_number(0xff), 7);
    assert_eq!(ack_number(0xc7), 0);
    for byte in 0..=255u8 {
        assert_eq!(ack_number(byte), (byte >> 3) & 0x07);
    }
}

#[test]
fn escape_wraps_and_stuffs() {
    assert_eq!(escape(&[]), vec![0xc0, 0xc0]);
    assert_eq!(escape(&[1, 2, 3]), vec![0xc0, 1, 2, 3, 0xc0]);
    assert_eq!(escape(&[0xc0]), vec![0xc0, 0xdb, 0xdc, 0xc0]);
    assert_eq!(escape(&[0xdb]), vec![0xc0, 0xdb, 0xdd, 0xc0]);
    assert_eq!(
        escape(&[0x01, 0xc0, 0xdb, 0xdc, 0xdd]),
        vec![0xc0, 0x01, 0xdb, 0xdc, 0xdb, 0xdd, 0xdc, 0xdd, 0xc0]
    );
}

#[test]
fn unescape_reverses_stuffing_only() {
    assert_eq!(unescape(&[]), Ok(vec![]));
    assert_eq!(unescape(&[0xdb, 0xdc]), Ok(vec![0xc0]));
    assert_eq!(unescape(&[0xdb, 0xdd]), Ok(vec![0xdb]));
    assert_eq!(unescape(&[0xc0, 0x01, 0xc0]), Ok(vec![0xc0, 0x01, 0xc0]));
    assert_eq!(unescape(&[0xdb, 0xdd, 0xdc]), Ok(vec![0xdb, 0xdc]));
}

#[test]
fn unescape_fails_on_bad_escape() {
    assert_eq!(unescape(&[0xdb, 0x00]), Err(UploadError::FramingError));
    assert_eq!(unescape(&[0xdb, 0xdb]), Err(UploadError::FramingError));
    assert_eq!(unescape(&[0xdb, 0xc0]), Err(UploadError::FramingError));
    assert_eq!(unescape(&[0x01, 0x02, 0xdb]), Err(UploadError::FramingError));
    assert_eq!(unescape(&[0xdb]), Err(UploadError::FramingError));
    assert_eq!(unescape(&[0xdb, 0xdc, 0xdb, 0xde, 0x01]), Err(UploadError::FramingError));
    for follower in 0..=255u8 {
        let result = unescape(&[0x10, 0xdb, follower, 0x20]);
        if follower == 0xdc {
            assert_eq!(result, Ok(vec![0x10, 0xc0, 0x20]));
        } else if follower == 0xdd {
            assert_eq!(result, Ok(vec![0x10, 0xdb, 0x20]));
        } else {
            assert_eq!(result, Err(UploadError::FramingError));
        }
    }
}

#[test]
fn unescape_undoes_escape_for_all_byte_values() {
    let all: Vec<u8> = (0..=255u8).collect();
    let escaped = escape(&all);
    assert_eq!(escaped.len(), 256 + 2 + 2);
    assert_eq!(unescape(&escaped[1..escaped.len() - 1]), Ok(all.clone()));
    let mut with_markers = vec![0xc0];
    with_markers.extend_from_slice(&all);
    with_markers.push(0xc0);
    assert_eq!(unescape(&escaped), Ok(with_markers));
}

#[test]
fn escaped_bytes_hold_markers_only_at_the_ends() {
    let data = [0xc0, 0xc0, 0xdb, 0x00, 0xc0, 0xdb, 0xdb, 0xdc, 0xdd];
    let escaped = escape(&data);
    assert_eq!(escaped[0], SLIP_END);
    assert_eq!(escaped[escaped.len() - 1], SLIP_END);
    assert!(escaped[1..escaped.len() - 1].iter().all(|b| *b != SLIP_END));
    assert_eq!(escaped.iter().filter(|b| **b == SLIP_ESC).count(), 6);
}

#[test]
fn frame_of_stop_payload() {
    let header = SlipHeader::for_payload(1, 4).pack();
    assert_eq!(
        encode_frame(&header, &[0x05, 0x00, 0x00, 0x00]),
        vec![0xc0, 0xd1, 0x4e, 0x00, 0xe1, 0x05, 0x00, 0x00, 0x00, 0x74, 0x82, 0xc0]
    );
}

#[test]
fn frame_with_reserved_bytes_in_payload() {
    let payload = [0x04, 0x00, 0x00, 0x00, 0xc0, 0xdb, 0x01];
    let header = SlipHeader::for_payload(3, payload.len()).pack();
    assert_eq!(
        encode_frame(&header, &payload),
        vec![
            0xc0, 0xe3, 0x7e, 0x00, 0x9f, 0x04, 0x00, 0x00, 0x00, 0xdb, 0xdc, 0xdb, 0xdd, 0x01,
            0xbf, 0x0a, 0xc0
        ]
    );
}

#[test]
fn frame_with_reserved_bytes_in_checksum() {
    let payload = [0x9d, 0xd9, 0x00];
    let header = SlipHeader::for_payload(1, payload.len()).pack();
    assert_eq!(
        encode_frame(&header, &payload),
        vec![0xc0, 0xd1, 0x3e, 0x00, 0xf1, 0x9d, 0xd9, 0x00, 0xdb, 0xdc, 0xdb, 0xdd, 0xc0]
    );
}

#[test]
fn frame_with_reserved_byte_in_header() {
    let payload = [0u8; 5];
    let header = SlipHeader::for_payload(7, payload.len()).pack();
    assert_eq!(header, [0xc7, 0x5e, 0x00, 0xdb]);
    let frame = encode_frame(&header, &payload);
    assert_eq!(&frame[..6], &[0xc0, 0xc7, 0x5e, 0x00, 0xdb, 0xdd]);
    assert!(frame[1..frame.len() - 1].iter().all(|b| *b != 0xc0));
}

#[test]
fn frame_round_trip_gives_header_payload_checksum() {
    let payload: Vec<u8> = (0..=255u8).rev().collect();
    let header = SlipHeader::for_payload(5, payload.len()).pack();
    let frame = encode_frame(&header, &payload);
    let body = unescape(&frame[1..frame.len() - 1]).unwrap();
    assert_eq!(body.len(), 4 + payload.len() + 2);
    assert_eq!(&body[..4], &header);
    assert_eq!(&body[4..4 + payload.len()], &payload[..]);
    let crc = tudelft_serial_upload::crc::calc_crc16_default(&body[..4 + payload.len()]);
    assert_eq!(&body[4 + payload.len()..], &crc.to_le_bytes());
}

#[test]
fn append_bytes_extends_in_order() {
    let mut buffer = vec![1u8, 2];
    append_bytes(&mut buffer, &[3, 4, 5]);
    append_bytes(&mut buffer, &[]);
    assert_eq!(buffer, vec![1, 2, 3, 4, 5]);
}
