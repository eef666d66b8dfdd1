use tudelft_serial_upload::action::{Action, Event, Notice, Step, UploadOutcome};
use tudelft_serial_upload::error::UploadError;
use tudelft_serial_upload::serial::{
    chunks_in, ControlPacket, SequenceCounter, Serial, ACK_WINDOW, DFU_MAX_PACKET_SIZE,
};
use tudelft_serial_upload::slip::unescape;

fn session() -> Serial {
    Serial::open(String::from("/dev/ttyUSB0"))
}

fn image() -> Vec<u8> {
    (0..1025usize).map(|i| ((i * 7 + 3) & 0xff) as u8).collect()
}

fn ack_for(frame: &[u8]) -> Vec<u8> {
    let next = (frame[1] >> 3) & 0x07;
    vec![0xc0, next << 3, 0x00, 0x00, 0x00, 0xc0]
}

#[test]
fn counter_starts_at_zero_and_cycles() {
    let mut counter = SequenceCounter::new();
    assert_eq!(counter.current(), 0);
    let seen: Vec<u8> = (0..17).map(|_| counter.advance()).collect();
    assert_eq!(seen, vec![1, 2, 3, 4, 5, 6, 7, 0, 1, 2, 3, 4, 5, 6, 7, 0, 1]);
    assert_eq!(counter.current(), 1);
}

#[test]
fn open_starts_a_fresh_session() {
    let serial = session();
    assert_eq!(serial.path(), "/dev/ttyUSB0");
    assert_eq!(serial.sequence_number(), 0);
}

#[test]
fn sequence_numbers_cycle_across_sends() {
    let mut serial = session();
    let mut sequences = Vec::new();
    let mut announced = Vec::new();
    for _ in 0..9 {
        let frame = serial.send_data(&[0xaa]).unwrap();
        sequences.push(frame[1] & 0x07);
        announced.push((frame[1] >> 3) & 0x07);
        assert_eq!(serial.sequence_number(), frame[1] & 0x07);
    }
    assert_eq!(sequences, vec![1, 2, 3, 4, 5, 6, 7, 0, 1]);
    assert_eq!(announced, vec![2, 3, 4, 5, 6, 7, 0, 1, 2]);
}

#[test]
fn next_sequence_number_steps_by_one() {
    let mut serial = session();
    assert_eq!(serial.next_sequence_number(), 1);
    assert_eq!(serial.next_sequence_number(), 2);
    assert_eq!(serial.sequence_number(), 2);
}

#[test]
fn create_slip_header_takes_the_next_number() {
    let mut serial = session();
    assert_eq!(serial.create_slip_header(20), ([0xd1, 0x4e, 0x01, 0xe0], 1));
    assert_eq!(serial.create_slip_header(20), ([0xda, 0x4e, 0x01, 0xd7], 2));
}

#[test]
fn encode_int_is_little_endian() {
    assert_eq!(Serial::encode_int(0), [0, 0, 0, 0]);
    assert_eq!(Serial::encode_int(1025), [0x01, 0x04, 0x00, 0x00]);
    assert_eq!(Serial::encode_int(0x1234_5678), [0x78, 0x56, 0x34, 0x12]);
    assert_eq!(Serial::encode_int(u32::MAX), [0xff, 0xff, 0xff, 0xff]);
}

#[test]
fn create_packet_frames_the_payload() {
    let mut serial = session();
    let (frame, sequence) = serial.create_packet(&[0x05, 0x00, 0x00, 0x00]);
    assert_eq!(sequence, 1);
    assert_eq!(
        frame,
        vec![0xc0, 0xd1, 0x4e, 0x00, 0xe1, 0x05, 0x00, 0x00, 0x00, 0x74, 0x82, 0xc0]
    );
}

#[test]
fn control_packet_layouts() {
    assert_eq!(
        ControlPacket::Start { image_size: 1025 }.to_bytes(),
        Some(vec![
            0x03, 0x00, 0x00, 0x00, 0x04, 0x00, 0x00, 0x00, 0x00, 0x00, 0x00, 0x00, 0x00, 0x00,
            0x00, 0x00, 0x01, 0x04, 0x00, 0x00
        ])
    );
    assert_eq!(
        ControlPacket::Init { image_checksum: 0xa5a3 }.to_bytes(),
        Some(vec![
            0x01, 0x00, 0x00, 0x00, 0xff, 0xff, 0xff, 0xff, 0xff, 0xff, 0xff, 0xff, 0x01, 0x00,
            0xfe, 0xff, 0xa3, 0xa5, 0x00, 0x00
        ])
    );
    assert_eq!(
        ControlPacket::Data { chunk: &[0xc0, 0xdb, 0x01] }.to_bytes(),
        Some(vec![0x04, 0x00, 0x00, 0x00, 0xc0, 0xdb, 0x01])
    );
    assert_eq!(ControlPacket::Data { chunk: &[] }.to_bytes(), Some(vec![0x04, 0x00, 0x00, 0x00]));
    assert_eq!(ControlPacket::Stop.to_bytes(), Some(vec![0x05, 0x00, 0x00, 0x00]));
}

#[test]
fn start_packet_frame() {
    let mut serial = session();
    assert_eq!(
        serial.send_start_dfu(1025),
        Ok(vec![
            0xc0, 0xd1, 0x4e, 0x01, 0xe0, 0x03, 0x00, 0x00, 0x00, 0x04, 0x00, 0x00, 0x00, 0x00,
            0x00, 0x00, 0x00, 0x00, 0x00, 0x00, 0x00, 0x01, 0x04, 0x00, 0x00, 0x1f, 0x05, 0xc0
        ])
    );
}

#[test]
fn init_packet_frame_carries_image_checksum() {
    let mut serial = session();
    serial.send_start_dfu(1025).unwrap();
    assert_eq!(
        serial.send_init_packet(&image()),
        Ok(vec![
            0xc0, 0xda, 0x4e, 0x01, 0xd7, 0x01, 0x00, 0x00, 0x00, 0xff, 0xff, 0xff, 0xff, 0xff,
            0xff, 0xff, 0xff, 0x01, 0x00, 0xfe, 0xff, 0xa3, 0xa5, 0x00, 0x00, 0x10, 0xb2, 0xc0
        ])
    );
}

#[test]
fn stop_packet_frame() {
    let mut serial = session();
    assert_eq!(
        serial.send_stop_packet(),
        Ok(vec![0xc0, 0xd1, 0x4e, 0x00, 0xe1, 0x05, 0x00, 0x00, 0x00, 0x74, 0x82, 0xc0])
    );
    for _ in 0..4 {
        serial.send_stop_packet().unwrap();
    }
    assert_eq!(
        serial.send_stop_packet(),
        Ok(vec![0xc0, 0xfe, 0x4e, 0x00, 0xb4, 0x05, 0x00, 0x00, 0x00, 0xbb, 0x16, 0xc0])
    );
}

#[test]
fn data_packet_frame_is_stuffed() {
    let mut serial = session();
    serial.send_stop_packet().unwrap();
    serial.send_stop_packet().unwrap();
    assert_eq!(
        serial.send_data_packet(&[0xc0, 0xdb, 0x01]),
        Ok(vec![
            0xc0, 0xe3, 0x7e, 0x00, 0x9f, 0x04, 0x00, 0x00, 0x00, 0xdb, 0xdc, 0xdb, 0xdd, 0x01,
            0xbf, 0x0a, 0xc0
        ])
    );
}

#[test]
fn payload_at_the_limit_is_refused() {
    let mut serial = session();
    assert_eq!(serial.send_data(&vec![0u8; 0x1000]), Err(UploadError::ValidationError));
    assert_eq!(serial.send_data(&vec![0u8; 0x2000]), Err(UploadError::ValidationError));
    assert_eq!(serial.sequence_number(), 0);
    let frame = serial.send_data(&vec![0u8; 0xfff]).unwrap();
    assert_eq!(&frame[1..5], &[0xd1, 0xfe, 0xff, 0x32]);
    assert_eq!(serial.sequence_number(), 1);
}

#[test]
fn data_packet_at_the_limit_is_refused() {
    let mut serial = session();
    assert_eq!(serial.send_data_packet(&vec![0u8; 4092]), Err(UploadError::ValidationError));
    assert_eq!(serial.sequence_number(), 0);
    assert!(serial.send_data_packet(&vec![0u8; 4091]).is_ok());
    assert_eq!(serial.sequence_number(), 1);
}

#[test]
fn ack_is_read_once_two_markers_came() {
    let mut serial = session();
    serial.send_stop_packet().unwrap();
    assert_eq!(serial.wait_for_ack(&[0xc0, 0x10, 0x00, 0x00, 0x00, 0x00]), Ok(None));
    assert_eq!(serial.wait_for_ack(&[0x00, 0x00, 0x00, 0x00, 0x00, 0x00]), Ok(None));
    assert_eq!(serial.wait_for_ack(&[0x00, 0xc0, 0x00, 0x00, 0x00, 0x00]), Ok(Some(2)));
}

#[test]
fn ack_in_one_window() {
    let mut serial = session();
    serial.send_stop_packet().unwrap();
    assert_eq!(serial.wait_for_ack(&[0xc0, 0x3f, 0x00, 0x00, 0x00, 0xc0]), Ok(Some(7)));
}

#[test]
fn ack_byte_is_taken_after_unstuffing() {
    let mut serial = session();
    assert_eq!(serial.wait_for_ack(&[0xc0, 0xdb, 0xdd, 0x00, 0xc0, 0x00]), Ok(Some(3)));
    let mut other = session();
    assert_eq!(other.wait_for_ack(&[0xc0, 0xdb, 0xdc, 0x00, 0x00, 0x00]), Ok(None));
    assert_eq!(other.wait_for_ack(&[0xc0]), Ok(Some(0)));
}

#[test]
fn ack_with_bad_escape_is_a_framing_error() {
    let mut serial = session();
    assert_eq!(
        serial.wait_for_ack(&[0xc0, 0xdb, 0x00, 0xc0, 0x00, 0x00]),
        Err(UploadError::FramingError)
    );
    let mut other = session();
    assert_eq!(
        other.wait_for_ack(&[0xc0, 0x10, 0xc0, 0x00, 0x00, 0xdb]),
        Err(UploadError::FramingError)
    );
}

#[test]
fn ack_without_a_byte_between_its_ends_is_a_framing_error() {
    let mut serial = session();
    assert_eq!(serial.wait_for_ack(&[0xc0, 0xc0]), Err(UploadError::FramingError));
    let mut other = session();
    assert_eq!(other.wait_for_ack(&[0xc0, 0x18, 0xc0]), Ok(Some(3)));
}

#[test]
fn send_forgets_the_earlier_response() {
    let mut serial = session();
    assert_eq!(serial.wait_for_ack(&[0xc0, 0x10, 0x00]), Ok(None));
    serial.send_stop_packet().unwrap();
    assert_eq!(serial.wait_for_ack(&[0x00, 0x00, 0xc0]), Ok(None));
    assert_eq!(serial.wait_for_ack(&[0xc0]), Ok(Some(0)));
}

#[test]
fn check_ack_wants_the_following_number() {
    let mut serial = session();
    serial.send_stop_packet().unwrap();
    assert_eq!(serial.check_ack(2), Ok(()));
    assert_eq!(serial.check_ack(1), Err(UploadError::SequenceMismatch));
    assert_eq!(serial.check_ack(0), Err(UploadError::SequenceMismatch));
    assert_eq!(serial.check_ack(3), Err(UploadError::SequenceMismatch));
    for _ in 0..6 {
        serial.send_stop_packet().unwrap();
    }
    assert_eq!(serial.sequence_number(), 7);
    assert_eq!(serial.check_ack(0), Ok(()));
    assert_eq!(serial.check_ack(7), Err(UploadError::SequenceMismatch));
    assert_eq!(serial.check_ack(8), Err(UploadError::SequenceMismatch));
}

#[test]
fn chunk_counts() {
    assert_eq!(DFU_MAX_PACKET_SIZE, 512);
    assert_eq!(chunks_in(0), 0);
    assert_eq!(chunks_in(1), 1);
    assert_eq!(chunks_in(511), 1);
    assert_eq!(chunks_in(512), 1);
    assert_eq!(chunks_in(513), 2);
    assert_eq!(chunks_in(1024), 2);
    assert_eq!(chunks_in(1025), 3);
    assert_eq!(chunks_in(usize::MAX), usize::MAX / 512 + 1);
}

#[test]
fn session_uploads_packet_by_packet() {
    let file = image();
    let mut serial = session();
    let mut frames: Vec<Vec<u8>> = Vec::new();
    let mut sleeps: Vec<u64> = Vec::new();
    let mut notices: Vec<Notice> = Vec::new();
    let mut reads = 0usize;
    let mut step = serial.try_do_upload(&file, Event::Opened);
    let outcome = loop {
        notices.extend_from_slice(&step.notices);
        let event = match step.action {
            Action::Write { frame } => {
                frames.push(frame);
                Event::Written
            }
            Action::Sleep { millis } => {
                sleeps.push(millis);
                Event::Elapsed
            }
            Action::Read { len } => {
                assert_eq!(len, ACK_WINDOW);
                reads += 1;
                Event::Received(ack_for(frames.last().unwrap()))
            }
            Action::Finish { outcome } => break outcome,
            other => panic!("unexpected action {:?}", other),
        };
        step = serial.try_do_upload(&file, event);
    };
    assert_eq!(outcome, UploadOutcome::Uploaded { port: String::from("/dev/ttyUSB0") });
    assert_eq!(frames.len(), 6);
    assert_eq!(reads, 6);
    assert_eq!(sleeps, vec![40, 2000, 40, 1000, 40, 40, 40, 40]);
    let sequences: Vec<u8> = frames.iter().map(|f| f[1] & 0x07).collect();
    assert_eq!(sequences, vec![1, 2, 3, 4, 5, 6]);
    assert_eq!(
        notices,
        vec![
            Notice::Starting,
            Notice::Initializing,
            Notice::Uploading { chunks: 3, bytes: 1025 },
            Notice::Progress { done: 1, total: 3 },
            Notice::Progress { done: 2, total: 3 },
            Notice::Progress { done: 3, total: 3 },
            Notice::Finalizing,
            Notice::Done,
        ]
    );
    let bodies: Vec<Vec<u8>> =
        frames.iter().map(|f| unescape(&f[1..f.len() - 1]).unwrap()).collect();
    let payloads: Vec<&[u8]> = bodies.iter().map(|b| &b[4..b.len() - 2]).collect();
    assert_eq!(payloads[0], &ControlPacket::Start { image_size: 1025 }.to_bytes().unwrap()[..]);
    assert_eq!(
        payloads[1],
        &ControlPacket::Init { image_checksum: 0xa5a3 }.to_bytes().unwrap()[..]
    );
    assert_eq!(payloads[2].len(), 4 + 512);
    assert_eq!(payloads[3].len(), 4 + 512);
    assert_eq!(payloads[4].len(), 4 + 1);
    assert_eq!(&payloads[2][..4], &[4, 0, 0, 0]);
    assert_eq!(&payloads[2][4..], &file[..512]);
    assert_eq!(&payloads[3][4..], &file[512..1024]);
    assert_eq!(&payloads[4][4..], &file[1024..]);
    assert_eq!(payloads[5], &[5, 0, 0, 0]);
    assert_eq!(
        frames[4],
        vec![0xc0, 0xf5, 0x5e, 0x00, 0xad, 0x04, 0x00, 0x00, 0x00, 0x03, 0xac, 0x38, 0xc0]
    );
}

fn failed(error: UploadError) -> Step {
    Step { notices: vec![], action: Action::Finish { outcome: UploadOutcome::Failed { error } } }
}

#[test]
fn session_fails_on_the_sequence_number_of_the_frame_itself() {
    let file = image();
    let mut serial = session();
    let step = serial.try_do_upload(&file, Event::Opened);
    let frame = match step.action {
        Action::Write { frame } => frame,
        other => panic!("unexpected action {:?}", other),
    };
    let sent = frame[1] & 0x07;
    assert_eq!(sent, 1);
    assert_eq!(
        serial.try_do_upload(&file, Event::Written).action,
        Action::Sleep { millis: 40 }
    );
    assert_eq!(serial.try_do_upload(&file, Event::Elapsed).action, Action::Read { len: 6 });
    let crafted = vec![0xc0, sent << 3, 0x00, 0x00, 0x00, 0xc0];
    assert_eq!(
        serial.try_do_upload(&file, Event::Received(crafted)),
        failed(UploadError::SequenceMismatch)
    );
}

#[test]
fn session_reads_on_until_the_ack_is_complete() {
    let file = image();
    let mut serial = session();
    serial.try_do_upload(&file, Event::Opened);
    serial.try_do_upload(&file, Event::Written);
    serial.try_do_upload(&file, Event::Elapsed);
    let more = Step { notices: vec![], action: Action::Read { len: 6 } };
    assert_eq!(serial.try_do_upload(&file, Event::Received(vec![0xc0, 0x10, 0, 0, 0, 0])), more);
    assert_eq!(serial.try_do_upload(&file, Event::Received(vec![0, 0, 0, 0, 0, 0])), more);
    assert_eq!(
        serial.try_do_upload(&file, Event::Received(vec![0, 0, 0xc0, 0, 0, 0])),
        Step { notices: vec![], action: Action::Sleep { millis: 2000 } }
    );
}

#[test]
fn session_passes_on_reported_failures() {
    let file = image();
    for error in [UploadError::Timeout, UploadError::IoError] {
        let mut serial = session();
        serial.try_do_upload(&file, Event::Opened);
        assert_eq!(serial.try_do_upload(&file, Event::Failed(error)), failed(error));
        let mut reading = session();
        reading.try_do_upload(&file, Event::Opened);
        reading.try_do_upload(&file, Event::Written);
        reading.try_do_upload(&file, Event::Elapsed);
        assert_eq!(reading.try_do_upload(&file, Event::Failed(error)), failed(error));
    }
}

#[test]
fn session_fails_on_a_malformed_ack() {
    let file = image();
    let mut serial = session();
    serial.try_do_upload(&file, Event::Opened);
    serial.try_do_upload(&file, Event::Written);
    serial.try_do_upload(&file, Event::Elapsed);
    assert_eq!(
        serial.try_do_upload(&file, Event::Received(vec![0xc0, 0xdb, 0x01, 0xc0, 0, 0])),
        failed(UploadError::FramingError)
    );
}

#[test]
fn session_refuses_events_out_of_turn() {
    let file = image();
    let mut serial = session();
    assert_eq!(serial.try_do_upload(&file, Event::Written), failed(UploadError::ValidationError));
    let mut other = session();
    other.try_do_upload(&file, Event::Opened);
    assert_eq!(other.try_do_upload(&file, Event::Elapsed), failed(UploadError::ValidationError));
    let mut third = session();
    third.try_do_upload(&file, Event::Opened);
    assert_eq!(
        third.try_do_upload(&file, Event::Line(String::from("0"))),
        failed(UploadError::ValidationError)
    );
    assert_eq!(third.try_do_upload(&file, Event::Opened), failed(UploadError::ValidationError));
}

#[test]
fn session_uploads_an_empty_image() {
    let file: Vec<u8> = Vec::new();
    let mut serial = session();
    let mut frames: Vec<Vec<u8>> = Vec::new();
    let mut notices: Vec<Notice> = Vec::new();
    let mut step = serial.try_do_upload(&file, Event::Opened);
    loop {
        notices.extend_from_slice(&step.notices);
        let event = match step.action {
            Action::Write { frame } => {
                frames.push(frame);
                Event::Written
            }
            Action::Sleep { .. } => Event::Elapsed,
            Action::Read { .. } => Event::Received(ack_for(frames.last().unwrap())),
            Action::Finish { outcome } => {
                assert_eq!(outcome, UploadOutcome::Uploaded { port: String::from("/dev/ttyUSB0") });
                break;
            }
            other => panic!("unexpected action {:?}", other),
        };
        step = serial.try_do_upload(&file, event);
    }
    assert_eq!(frames.len(), 3);
    assert_eq!(
        notices,
        vec![
            Notice::Starting,
            Notice::Initializing,
            Notice::Uploading { chunks: 0, bytes: 0 },
            Notice::Finalizing,
            Notice::Done,
        ]
    );
    assert_eq!(
        unescape(&frames[2][1..frames[2].len() - 1]).unwrap()[4..8],
        [0x05, 0x00, 0x00, 0x00]
    );
}
