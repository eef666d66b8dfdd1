//! One session on an opened port: the sequence counter, the DFU control
//! packets, and the acknowledgement that answers each frame.

use vstd::prelude::*;
use vstd::slice::slice_subrange;
use crate::action::{
    Action, ActionModel, Event, Notice, OutcomeModel, Step, StepModel, UploadOutcome,
    SEND_INIT_PACKET_WAIT_MILLIS, SEND_START_DFU_WAIT_MILLIS, WRITE_PAUSE_MILLIS,
};
use crate::crc::{calc_crc16_default, crc16, CRC16_DEFAULT_SEED};
use crate::error::UploadError;
use crate::slip::{
    ack_number, acknowledged, append_bytes, encode_frame, frame, header_for, le16, next_sequence,
    unescape, unstuff, SlipHeader, PAYLOAD_LIMIT, SLIP_END,
};

verus! {

/// Type word of the packet that carries the image checksum.
pub const DFU_INIT_PACKET: u32 = 1;

/// Type word of the packet that announces the image size.
pub const DFU_START_PACKET: u32 = 3;

/// Type word of a packet that carries a piece of the image.
pub const DFU_DATA_PACKET: u32 = 4;

/// Type word of the packet that ends the transfer.
pub const DFU_STOP_DATA_PACKET: u32 = 5;

/// The largest piece of the image that one data packet carries.
pub const DFU_MAX_PACKET_SIZE: usize = 512;

/// An acknowledgement is read in windows of this many bytes.
pub const ACK_WINDOW: usize = 6;

/// A 32-bit value as four bytes, low byte first.
pub open spec fn le32(value: u32) -> Seq<u8> {
    seq![
        (value % 256) as u8,
        (value / 0x100 % 256) as u8,
        (value / 0x1_0000 % 256) as u8,
        (value / 0x100_0000) as u8,
    ]
}

/// Payload of the start packet: its type, three fixed words, the image size.
pub open spec fn start_payload(image_size: u32) -> Seq<u8> {
    le32(DFU_START_PACKET) + le32(4) + le32(0) + le32(0) + le32(image_size)
}

/// The twelve fixed bytes of the init packet.
pub open spec fn init_fixed() -> Seq<u8> {
    seq![0xffu8, 0xff, 0xff, 0xff, 0xff, 0xff, 0xff, 0xff, 0x01, 0x00, 0xfe, 0xff]
}

/// Payload of the init packet: its type, twelve fixed bytes, the checksum of
/// the whole image, two bytes of padding.
pub open spec fn init_payload(image_checksum: u16) -> Seq<u8> {
    le32(DFU_INIT_PACKET) + init_fixed() + le16(image_checksum) + seq![0u8, 0u8]
}

/// Payload of a data packet: its type, then the piece of the image.
pub open spec fn data_payload(chunk: Seq<u8>) -> Seq<u8> {
    le32(DFU_DATA_PACKET) + chunk
}

/// Payload of the stop packet: its type alone.
pub open spec fn stop_payload() -> Seq<u8> {
    le32(DFU_STOP_DATA_PACKET)
}

/// One of the four control packets of the transfer.
pub enum ControlPacket<'a> {
    /// Announces the size of the image.
    Start { image_size: u32 },
    /// Carries the checksum of the image.
    Init { image_checksum: u16 },
    /// Carries a piece of the image.
    Data { chunk: &'a [u8] },
    /// Ends the transfer.
    Stop,
}

impl<'a> ControlPacket<'a> {
    /// The bytes that the packet puts into a frame.
    pub open spec fn payload(&self) -> Seq<u8> {
        match *self {
            ControlPacket::Start { image_size } => start_payload(image_size),
            ControlPacket::Init { image_checksum } => init_payload(image_checksum),
            ControlPacket::Data { chunk } => data_payload(chunk@),
            ControlPacket::Stop => stop_payload(),
        }
    }

    /// Lays the packet out as a flat buffer. There is no buffer for a data
    /// packet whose piece is too long for its length to be counted.
    pub fn to_bytes(&self) -> (bytes: Option<Vec<u8>>)
        ensures
            bytes is Some <==> self.payload().len() <= usize::MAX,
            bytes is Some ==> bytes->0@ == self.payload(),
    {
        let mut res: Vec<u8> = Vec::new();
        match *self {
            ControlPacket::Start { image_size } => {
                append_bytes(&mut res, Serial::encode_int(DFU_START_PACKET).as_slice());
                append_bytes(&mut res, Serial::encode_int(4).as_slice());
                append_bytes(&mut res, Serial::encode_int(0).as_slice());
                append_bytes(&mut res, Serial::encode_int(0).as_slice());
                append_bytes(&mut res, Serial::encode_int(image_size).as_slice());
            },
            ControlPacket::Init { image_checksum } => {
                append_bytes(&mut res, Serial::encode_int(DFU_INIT_PACKET).as_slice());
                let fixed: [u8; 12] = [
                    0xff,
                    0xff,
                    0xff,
                    0xff,
                    0xff,
                    0xff,
                    0xff,
                    0xff,
                    0x01,
                    0x00,
                    0xfe,
                    0xff,
                ];
                assert(fixed@ =~= init_fixed());
                append_bytes(&mut res, fixed.as_slice());
                let low: u16 = image_checksum & 0x00ffu16;
                let high: u16 = image_checksum >> 8u16;
                assert(low == image_checksum % 256 && high == image_checksum / 256 && low < 256
                    && high < 256) by (bit_vector)
                    requires
                        low == image_checksum & 0x00ffu16,
                        high == image_checksum >> 8u16,
                ;
                res.push(low as u8);
                res.push(high as u8);
                res.push(0);
                res.push(0);
            },
            ControlPacket::Data { chunk } => {
                if chunk.len() > usize::MAX - 4 {
                    return None;
                }
                append_bytes(&mut res, Serial::encode_int(DFU_DATA_PACKET).as_slice());
                append_bytes(&mut res, chunk);
            },
            ControlPacket::Stop => {
                append_bytes(&mut res, Serial::encode_int(DFU_STOP_DATA_PACKET).as_slice());
            },
        }
        assert(res@ =~= self.payload());
        Some(res)
    }
}

/// How often `byte` occurs in `bytes`.
pub open spec fn occurrences(bytes: Seq<u8>, byte: u8) -> nat
    decreases bytes.len(),
{
    if bytes.len() == 0 {
        0
    } else {
        occurrences(bytes.drop_last(), byte) + if bytes.last() == byte {
            1nat
        } else {
            0nat
        }
    }
}

/// What the bytes received so far say. `Ok(None)`: fewer than two markers
/// have come, so the acknowledgement is not complete. Otherwise the bytes are
/// unstuffed, one byte is dropped from each end, and the first byte of what
/// is left holds the acknowledged sequence number. Bytes that do not unstuff,
/// or that leave nothing between their ends, are a framing error.
pub open spec fn ack_in(response: Seq<u8>) -> Result<Option<u8>, UploadError> {
    if occurrences(response, SLIP_END) < 2 {
        Ok(None)
    } else {
        match unstuff(response) {
            Some(plain) => if plain.len() >= 3 {
                Ok(Some(acknowledged(plain[1])))
            } else {
                Err(UploadError::FramingError)
            },
            None => Err(UploadError::FramingError),
        }
    }
}

/// The sequence counter of a session: a number from 0 to 7 that moves one
/// step round its cycle with every frame.
pub struct SequenceCounter {
    value: u8,
}

impl View for SequenceCounter {
    type V = u8;

    closed spec fn view(&self) -> u8 {
        self.value
    }
}

impl SequenceCounter {
    #[verifier::type_invariant]
    spec fn in_range(self) -> bool {
        self.value < 8
    }

    /// A counter at 0.
    pub fn new() -> (counter: SequenceCounter)
        ensures
            counter@ == 0,
    {
        SequenceCounter { value: 0 }
    }

    /// Where the counter stands.
    pub fn current(&self) -> (value: u8)
        ensures
            value == self@,
            value < 8,
    {
        proof {
            use_type_invariant(self);
        }
        self.value
    }

    /// Moves the counter one step and returns where it stands then.
    pub fn advance(&mut self) -> (value: u8)
        ensures
            value == next_sequence(old(self)@),
            value == final(self)@,
            value < 8,
    {
        proof {
            use_type_invariant(&*self);
        }
        self.value = (self.value + 1) % 8;
        self.value
    }
}

/// Where a session stands in the exchange of one packet.
#[derive(Clone, Copy, Debug, PartialEq, Eq, Structural)]
pub enum Stage {
    /// Nothing is under way.
    Idle,
    /// A frame has been handed out for writing.
    FrameSent,
    /// The frame is written; the pause before reading runs.
    Pausing,
    /// The acknowledgement is being read.
    AwaitingAck,
    /// The packet is acknowledged; the bootloader is given its time.
    Settling,
    /// Every packet of the upload is acknowledged.
    Done,
    /// The upload has failed.
    Failed,
}

/// What a session is, to its users.
pub struct SerialModel {
    /// Name of the port.
    pub path: Seq<char>,
    /// Sequence number of the frame sent last; 0 before the first.
    pub sequence: u8,
    /// What has been received since that frame was made.
    pub response: Seq<u8>,
    /// Where the exchange of the current packet stands.
    pub stage: Stage,
    /// How many packets of the upload have been acknowledged.
    pub acknowledged: nat,
}

/// A session on one opened port.
pub struct Serial {
    path: String,
    sequence_number: SequenceCounter,
    response: Vec<u8>,
    stage: Stage,
    acknowledged: usize,
}

/// A session on a port that has just been opened.
pub open spec fn fresh_session(port: Seq<char>) -> SerialModel {
    SerialModel {
        path: port,
        sequence: 0,
        response: Seq::empty(),
        stage: Stage::Idle,
        acknowledged: 0,
    }
}

/// The session after a frame has been made for sending: the counter has
/// moved on and what was received before is forgotten.
pub open spec fn after_send(session: SerialModel) -> SerialModel {
    SerialModel {
        sequence: next_sequence(session.sequence),
        response: Seq::empty(),
        ..session
    }
}

/// Number of data packets that an image of `len` bytes takes.
pub open spec fn chunk_count(len: nat) -> nat {
    (len + DFU_MAX_PACKET_SIZE - 1) as nat / DFU_MAX_PACKET_SIZE as nat
}

/// The piece of `file` that the data packet of this index carries.
pub open spec fn chunk(file: Seq<u8>, index: int) -> Seq<u8> {
    let from = index * DFU_MAX_PACKET_SIZE;
    let to = if from + DFU_MAX_PACKET_SIZE < file.len() {
        from + DFU_MAX_PACKET_SIZE
    } else {
        file.len() as int
    };
    file.subrange(from, to)
}

/// Number of packets of an upload: start, init, the data packets, stop.
pub open spec fn packet_count(len: nat) -> nat {
    chunk_count(len) + 3
}

/// Payload of the packet at `position` of the upload of `file`: the start
/// packet with the size of the image, the init packet with its checksum,
/// the data packets with its pieces in order, the stop packet.
pub open spec fn packet_payload(file: Seq<u8>, position: int) -> Seq<u8> {
    if position == 0 {
        start_payload(file.len() as u32)
    } else if position == 1 {
        init_payload(crc16(file, CRC16_DEFAULT_SEED))
    } else if position < 2 + chunk_count(file.len()) {
        data_payload(chunk(file, position - 2))
    } else {
        stop_payload()
    }
}

/// Time that the bootloader is given after it acknowledged the packet at
/// `position`.
pub open spec fn settle_millis(position: nat) -> u64 {
    if position == 0 {
        SEND_START_DFU_WAIT_MILLIS
    } else if position == 1 {
        SEND_INIT_PACKET_WAIT_MILLIS
    } else {
        0
    }
}

/// What the operator reads before the packet at `position` goes out.
pub open spec fn notices_before(len: nat, position: nat) -> Seq<Notice> {
    let chunks = chunk_count(len);
    let uploading = Notice::Uploading { chunks: chunks as usize, bytes: len as usize };
    if position == 0 {
        seq![Notice::Starting]
    } else if position == 1 {
        seq![Notice::Initializing]
    } else if position == 2 && chunks == 0 {
        seq![uploading, Notice::Finalizing]
    } else if position == 2 {
        seq![uploading]
    } else if position == 2 + chunks {
        seq![Notice::Finalizing]
    } else {
        Seq::empty()
    }
}

/// What the operator reads once the packet at `position` is acknowledged:
/// for a data packet, how many of them are through.
pub open spec fn notices_after(len: nat, position: nat) -> Seq<Notice> {
    if 2 <= position < 2 + chunk_count(len) {
        seq![
            Notice::Progress {
                done: (position - 1) as usize,
                total: chunk_count(len) as usize,
            },
        ]
    } else {
        Seq::empty()
    }
}

/// The session gives up with `error`.
pub open spec fn fail(session: SerialModel, error: UploadError) -> (SerialModel, StepModel) {
    (
        SerialModel { stage: Stage::Failed, ..session },
        StepModel {
            notices: Seq::empty(),
            action: ActionModel::Finish { outcome: OutcomeModel::Failed { error } },
        },
    )
}

/// The session turns to the next packet that is not yet acknowledged, or
/// ends the upload when there is none. `said` is what the operator is told
/// before that. An image whose size does not fit the start packet is refused.
pub open spec fn send_next(session: SerialModel, file: Seq<u8>, said: Seq<Notice>) -> (
    SerialModel,
    StepModel,
) {
    let position = session.acknowledged;
    if file.len() > u32::MAX {
        fail(session, UploadError::ValidationError)
    } else if position >= packet_count(file.len()) {
        (
            SerialModel { stage: Stage::Done, ..session },
            StepModel {
                notices: said.push(Notice::Done),
                action: ActionModel::Finish {
                    outcome: OutcomeModel::Uploaded { port: session.path },
                },
            },
        )
    } else {
        (
            SerialModel { stage: Stage::FrameSent, ..after_send(session) },
            StepModel {
                notices: said + notices_before(file.len(), position),
                action: ActionModel::Write {
                    frame: frame(
                        next_sequence(session.sequence),
                        packet_payload(file, position as int),
                    ),
                },
            },
        )
    }
}

/// The packet in flight is acknowledged: the bootloader gets its time if it
/// needs any, else the next packet goes out at once.
pub open spec fn acknowledge(session: SerialModel, file: Seq<u8>) -> (SerialModel, StepModel) {
    let position = session.acknowledged;
    let counted = SerialModel { acknowledged: position + 1, ..session };
    if position >= packet_count(file.len()) {
        fail(session, UploadError::ValidationError)
    } else if settle_millis(position) > 0 {
        (
            SerialModel { stage: Stage::Settling, ..counted },
            StepModel {
                notices: notices_after(file.len(), position),
                action: ActionModel::Sleep { millis: settle_millis(position) },
            },
        )
    } else {
        send_next(counted, file, notices_after(file.len(), position))
    }
}

/// One step of the upload over an open port: the session and what it asks
/// for next, given where it stood and what happened.
///
/// It starts when the port is open, and then, packet by packet: the frame
/// is written, a pause follows, the acknowledgement is read in windows until
/// it is complete, and it must name the sequence number that follows the
/// frame's. Any failure that is reported, any response that does not hold an
/// acknowledgement and any wrong number end the upload with that error. An
/// event that does not answer what was asked for ends it as invalid.
pub open spec fn attempt(session: SerialModel, file: Seq<u8>, event: Event) -> (
    SerialModel,
    StepModel,
) {
    match event {
        Event::Failed(error) => fail(session, error),
        Event::Opened => if session.stage == Stage::Idle {
            send_next(session, file, Seq::empty())
        } else {
            fail(session, UploadError::ValidationError)
        },
        Event::Written => if session.stage == Stage::FrameSent {
            (
                SerialModel { stage: Stage::Pausing, ..session },
                StepModel {
                    notices: Seq::empty(),
                    action: ActionModel::Sleep { millis: WRITE_PAUSE_MILLIS },
                },
            )
        } else {
            fail(session, UploadError::ValidationError)
        },
        Event::Elapsed => if session.stage == Stage::Pausing {
            (
                SerialModel { stage: Stage::AwaitingAck, ..session },
                StepModel {
                    notices: Seq::empty(),
                    action: ActionModel::Read { len: ACK_WINDOW },
                },
            )
        } else if session.stage == Stage::Settling {
            send_next(session, file, Seq::empty())
        } else {
            fail(session, UploadError::ValidationError)
        },
        Event::Received(window) => if session.stage == Stage::AwaitingAck {
            let heard = SerialModel { response: session.response + window@, ..session };
            match ack_in(heard.response) {
                Ok(None) => (
                    heard,
                    StepModel {
                        notices: Seq::empty(),
                        action: ActionModel::Read { len: ACK_WINDOW },
                    },
                ),
                Ok(Some(ack)) => if ack == next_sequence(session.sequence) {
                    acknowledge(heard, file)
                } else {
                    fail(heard, UploadError::SequenceMismatch)
                },
                Err(error) => fail(heard, error),
            }
        } else {
            fail(session, UploadError::ValidationError)
        },
        Event::Ports(_) => fail(session, UploadError::ValidationError),
        Event::Line(_) => fail(session, UploadError::ValidationError),
    }
}

impl View for Serial {
    type V = SerialModel;

    closed spec fn view(&self) -> SerialModel {
        SerialModel {
            path: self.path@,
            sequence: self.sequence_number@,
            response: self.response@,
            stage: self.stage,
            acknowledged: self.acknowledged as nat,
        }
    }
}

impl Serial {
    /// Starts a session on the port named `path`: nothing sent, nothing
    /// received.
    pub fn open(path: String) -> (serial: Serial)
        ensures
            serial@ == fresh_session(path@),
    {
        Serial {
            path,
            sequence_number: SequenceCounter::new(),
            response: Vec::new(),
            stage: Stage::Idle,
            acknowledged: 0,
        }
    }

    /// Name of the port.
    pub fn path(&self) -> (path: &String)
        ensures
            path@ == self@.path,
    {
        &self.path
    }

    /// Sequence number of the frame sent last.
    pub fn sequence_number(&self) -> (sequence: u8)
        ensures
            sequence == self@.sequence,
            sequence < 8,
    {
        self.sequence_number.current()
    }

    /// Moves the counter one step round its cycle and returns the new value.
    pub fn next_sequence_number(&mut self) -> (sequence: u8)
        ensures
            sequence == next_sequence(old(self)@.sequence),
            sequence < 8,
            final(self)@ == (SerialModel { sequence, ..old(self)@ }),
    {
        self.sequence_number.advance()
    }

    /// Takes the next sequence number and packs the header of a frame with
    /// `pkt_len` payload bytes under it.
    pub fn create_slip_header(&mut self, pkt_len: usize) -> (header: ([u8; 4], u8))
        requires
            pkt_len < PAYLOAD_LIMIT,
        ensures
            header.1 == next_sequence(old(self)@.sequence),
            header.0@ == header_for(header.1, pkt_len as nat).bytes(),
            final(self)@ == (SerialModel { sequence: header.1, ..old(self)@ }),
    {
        let seq: u8 = self.next_sequence_number();
        (SlipHeader::for_payload(seq, pkt_len).pack(), seq)
    }

    /// The four bytes of `i`, low byte first.
    pub fn encode_int(i: u32) -> (bytes: [u8; 4])
        ensures
            bytes@ == le32(i),
    {
        let b0: u32 = i & 0xffu32;
        let b1: u32 = (i >> 8u32) & 0xffu32;
        let b2: u32 = (i >> 16u32) & 0xffu32;
        let b3: u32 = i >> 24u32;
        assert(b0 == i % 256 && b1 == i / 0x100 % 256 && b2 == i / 0x1_0000 % 256 && b3 == i
            / 0x100_0000 && b0 < 256 && b1 < 256 && b2 < 256 && b3 < 256) by (bit_vector)
            requires
                b0 == i & 0xffu32,
                b1 == (i >> 8u32) & 0xffu32,
                b2 == (i >> 16u32) & 0xffu32,
                b3 == i >> 24u32,
        ;
        let bytes: [u8; 4] = [b0 as u8, b1 as u8, b2 as u8, b3 as u8];
        assert(bytes@ =~= le32(i));
        bytes
    }

    /// Takes the next sequence number and builds the frame that carries
    /// `data` under it.
    pub fn create_packet(&mut self, data: &[u8]) -> (packet: (Vec<u8>, u8))
        requires
            data.len() < PAYLOAD_LIMIT,
        ensures
            packet.1 == next_sequence(old(self)@.sequence),
            packet.0@ == frame(packet.1, data@),
            final(self)@ == (SerialModel { sequence: packet.1, ..old(self)@ }),
    {
        let (header, seq) = self.create_slip_header(data.len());
        (encode_frame(header.as_slice(), data), seq)
    }

    /// Prepares `data` for sending: the frame to write to the port, under the
    /// next sequence number. What was received before is forgotten. A payload
    /// too long for the header's length field is refused and changes nothing.
    pub fn send_data(&mut self, data: &[u8]) -> (packet: Result<Vec<u8>, UploadError>)
        ensures
            data@.len() >= PAYLOAD_LIMIT ==> packet == Err::<Vec<u8>, UploadError>(
                UploadError::ValidationError,
            ) && final(self)@ == old(self)@,
            data@.len() < PAYLOAD_LIMIT ==> packet is Ok && packet->Ok_0@ == frame(
                next_sequence(old(self)@.sequence),
                data@,
            ) && final(self)@ == after_send(old(self)@),
    {
        if data.len() >= PAYLOAD_LIMIT {
            return Err(UploadError::ValidationError);
        }
        let (packet, _) = self.create_packet(data);
        self.response.clear();
        Ok(packet)
    }

    /// Takes in the bytes of one more read and says what the response holds
    /// by now: see [`ack_in`].
    pub fn wait_for_ack(&mut self, window: &[u8]) -> (ack: Result<Option<u8>, UploadError>)
        ensures
            final(self)@ == (SerialModel {
                response: old(self)@.response + window@,
                ..old(self)@
            }),
            ack == ack_in(final(self)@.response),
    {
        append_bytes(&mut self.response, window);
        if count_markers(self.response.as_slice()) < 2 {
            return Ok(None);
        }
        match unescape(self.response.as_slice()) {
            Ok(plain) => {
                if plain.len() >= 3 {
                    Ok(Some(ack_number(plain[1])))
                } else {
                    Err(UploadError::FramingError)
                }
            },
            Err(error) => Err(error),
        }
    }

    /// Prepares the start packet for an image of `file_size` bytes.
    pub fn send_start_dfu(&mut self, file_size: u32) -> (packet: Result<Vec<u8>, UploadError>)
        ensures
            packet is Ok,
            packet->Ok_0@ == frame(
                next_sequence(old(self)@.sequence),
                start_payload(file_size),
            ),
            final(self)@ == after_send(old(self)@),
    {
        match (ControlPacket::Start { image_size: file_size }).to_bytes() {
            Some(payload) => self.send_data(payload.as_slice()),
            None => Err(UploadError::ValidationError),
        }
    }

    /// Prepares the init packet for the image `file`: it carries the
    /// checksum of the whole image.
    pub fn send_init_packet(&mut self, file: &[u8]) -> (packet: Result<Vec<u8>, UploadError>)
        ensures
            packet is Ok,
            packet->Ok_0@ == frame(
                next_sequence(old(self)@.sequence),
                init_payload(crc16(file@, CRC16_DEFAULT_SEED)),
            ),
            final(self)@ == after_send(old(self)@),
    {
        let image_checksum: u16 = calc_crc16_default(file);
        match (ControlPacket::Init { image_checksum }).to_bytes() {
            Some(payload) => self.send_data(payload.as_slice()),
            None => Err(UploadError::ValidationError),
        }
    }

    /// Prepares the stop packet.
    pub fn send_stop_packet(&mut self) -> (packet: Result<Vec<u8>, UploadError>)
        ensures
            packet is Ok,
            packet->Ok_0@ == frame(next_sequence(old(self)@.sequence), stop_payload()),
            final(self)@ == after_send(old(self)@),
    {
        match ControlPacket::Stop.to_bytes() {
            Some(payload) => self.send_data(payload.as_slice()),
            None => Err(UploadError::ValidationError),
        }
    }

    /// Prepares a data packet with the piece `data` of the image. A piece
    /// that makes the payload too long for the header's length field is
    /// refused and changes nothing.
    pub fn send_data_packet(&mut self, data: &[u8]) -> (packet: Result<Vec<u8>, UploadError>)
        ensures
            data@.len() + 4 >= PAYLOAD_LIMIT ==> packet == Err::<Vec<u8>, UploadError>(
                UploadError::ValidationError,
            ) && final(self)@ == old(self)@,
            data@.len() + 4 < PAYLOAD_LIMIT ==> packet is Ok && packet->Ok_0@ == frame(
                next_sequence(old(self)@.sequence),
                data_payload(data@),
            ) && final(self)@ == after_send(old(self)@),
    {
        match (ControlPacket::Data { chunk: data }).to_bytes() {
            Some(payload) => self.send_data(payload.as_slice()),
            None => Err(UploadError::ValidationError),
        }
    }

    /// Prepares the packet at `position` of the upload of `file`.
    fn send_packet(&mut self, file: &[u8], position: usize) -> (packet: Result<
        Vec<u8>,
        UploadError,
    >)
        requires
            file@.len() <= u32::MAX,
            position < packet_count(file@.len()),
        ensures
            packet is Ok,
            packet->Ok_0@ == frame(
                next_sequence(old(self)@.sequence),
                packet_payload(file@, position as int),
            ),
            final(self)@ == after_send(old(self)@),
    {
        let chunks: usize = chunks_in(file.len());
        if position == 0 {
            self.send_start_dfu(file.len() as u32)
        } else if position == 1 {
            self.send_init_packet(file)
        } else if position - 2 < chunks {
            let from: usize = (position - 2) * DFU_MAX_PACKET_SIZE;
            let to: usize = if file.len() - from > DFU_MAX_PACKET_SIZE {
                from + DFU_MAX_PACKET_SIZE
            } else {
                file.len()
            };
            self.send_data_packet(slice_subrange(file, from, to))
        } else {
            self.send_stop_packet()
        }
    }

    fn fail(&mut self, error: UploadError) -> (step: Step)
        ensures
            (final(self)@, step@) == fail(old(self)@, error),
    {
        self.stage = Stage::Failed;
        Step {
            notices: Vec::new(),
            action: Action::Finish { outcome: UploadOutcome::Failed { error } },
        }
    }

    fn send_next(&mut self, file: &[u8], said: Vec<Notice>) -> (step: Step)
        ensures
            (final(self)@, step@) == send_next(old(self)@, file@, said@),
    {
        let mut notices = said;
        let position: usize = self.acknowledged;
        if file.len() > u32::MAX as usize {
            return self.fail(UploadError::ValidationError);
        }
        let chunks: usize = chunks_in(file.len());
        if position >= chunks + 3 {
            self.stage = Stage::Done;
            notices.push(Notice::Done);
            return Step {
                notices,
                action: Action::Finish {
                    outcome: UploadOutcome::Uploaded { port: self.path.clone() },
                },
            };
        }
        if position == 0 {
            notices.push(Notice::Starting);
        } else if position == 1 {
            notices.push(Notice::Initializing);
        } else if position == 2 {
            notices.push(Notice::Uploading { chunks, bytes: file.len() });
            if chunks == 0 {
                notices.push(Notice::Finalizing);
            }
        } else if position == 2 + chunks {
            notices.push(Notice::Finalizing);
        }
        assert(notices@ =~= said@ + notices_before(file@.len(), position as nat));
        match self.send_packet(file, position) {
            Ok(frame) => {
                self.stage = Stage::FrameSent;
                Step { notices, action: Action::Write { frame } }
            },
            Err(error) => self.fail(error),
        }
    }

    fn acknowledge(&mut self, file: &[u8]) -> (step: Step)
        ensures
            (final(self)@, step@) == acknowledge(old(self)@, file@),
    {
        let position: usize = self.acknowledged;
        let chunks: usize = chunks_in(file.len());
        if position >= chunks + 3 {
            return self.fail(UploadError::ValidationError);
        }
        let mut notices: Vec<Notice> = Vec::new();
        if 2 <= position && position < 2 + chunks {
            notices.push(Notice::Progress { done: position - 1, total: chunks });
        }
        assert(notices@ =~= notices_after(file@.len(), position as nat));
        self.acknowledged = position + 1;
        if position == 0 {
            self.stage = Stage::Settling;
            Step { notices, action: Action::Sleep { millis: SEND_START_DFU_WAIT_MILLIS } }
        } else if position == 1 {
            self.stage = Stage::Settling;
            Step { notices, action: Action::Sleep { millis: SEND_INIT_PACKET_WAIT_MILLIS } }
        } else {
            self.send_next(file, notices)
        }
    }

    /// Carries the upload of `file` over this port one step further: see
    /// [`attempt`].
    pub fn try_do_upload(&mut self, file: &[u8], event: Event) -> (step: Step)
        ensures
            (final(self)@, step@) == attempt(old(self)@, file@, event),
    {
        match event {
            Event::Failed(error) => self.fail(error),
            Event::Opened => {
                if self.stage == Stage::Idle {
                    self.send_next(file, Vec::new())
                } else {
                    self.fail(UploadError::ValidationError)
                }
            },
            Event::Written => {
                if self.stage == Stage::FrameSent {
                    self.stage = Stage::Pausing;
                    Step {
                        notices: Vec::new(),
                        action: Action::Sleep { millis: WRITE_PAUSE_MILLIS },
                    }
                } else {
                    self.fail(UploadError::ValidationError)
                }
            },
            Event::Elapsed => {
                if self.stage == Stage::Pausing {
                    self.stage = Stage::AwaitingAck;
                    Step { notices: Vec::new(), action: Action::Read { len: ACK_WINDOW } }
                } else if self.stage == Stage::Settling {
                    self.send_next(file, Vec::new())
                } else {
                    self.fail(UploadError::ValidationError)
                }
            },
            Event::Received(window) => {
                if self.stage == Stage::AwaitingAck {
                    match self.wait_for_ack(window.as_slice()) {
                        Ok(None) => Step {
                            notices: Vec::new(),
                            action: Action::Read { len: ACK_WINDOW },
                        },
                        Ok(Some(ack)) => match self.check_ack(ack) {
                            Ok(()) => self.acknowledge(file),
                            Err(error) => self.fail(error),
                        },
                        Err(error) => self.fail(error),
                    }
                } else {
                    self.fail(UploadError::ValidationError)
                }
            },
            Event::Ports(_) => self.fail(UploadError::ValidationError),
            Event::Line(_) => self.fail(UploadError::ValidationError),
        }
    }

    /// Holds an acknowledged number against the frame sent last: it must be
    /// the one that follows that frame's sequence number.
    pub fn check_ack(&self, ack: u8) -> (verdict: Result<(), UploadError>)
        ensures
            verdict == if ack == next_sequence(self@.sequence) {
                Ok::<(), UploadError>(())
            } else {
                Err::<(), UploadError>(UploadError::SequenceMismatch)
            },
    {
        if ack == (self.sequence_number.current() + 1) % 8 {
            Ok(())
        } else {
            Err(UploadError::SequenceMismatch)
        }
    }
}

/// Computes the number of data packets for an image of `len` bytes.
pub fn chunks_in(len: usize) -> (chunks: usize)
    ensures
        chunks == chunk_count(len as nat),
        chunks <= usize::MAX - 3,
{
    let full: usize = len / DFU_MAX_PACKET_SIZE;
    if len % DFU_MAX_PACKET_SIZE != 0 {
        full + 1
    } else {
        full
    }
}

/// Counts the markers in `bytes`, up to two.
fn count_markers(bytes: &[u8]) -> (count: usize)
    ensures
        count == if occurrences(bytes@, SLIP_END) < 2 {
            occurrences(bytes@, SLIP_END)
        } else {
            2
        },
{
    let mut count: usize = 0;
    let mut i: usize = 0;
    while i < bytes.len()
        invariant
            i <= bytes.len(),
            count == if occurrences(bytes@.take(i as int), SLIP_END) < 2 {
                occurrences(bytes@.take(i as int), SLIP_END)
            } else {
                2
            },
        decreases bytes.len() - i,
    {
        proof {
            assert(bytes@.take(i + 1).drop_last() =~= bytes@.take(i as int));
        }
        if bytes[i] == SLIP_END && count < 2 {
            count += 1;
        }
        i += 1;
    }
    proof {
        assert(bytes@.take(bytes.len() as int) =~= bytes@);
    }
    count
}

/// The sequence number of the `count`-th frame of a session, counting from
/// 1: the counter moved that many steps from 0.
pub open spec fn nth_sequence(count: nat) -> u8
    decreases count,
{
    if count == 0 {
        0
    } else {
        next_sequence(nth_sequence((count - 1) as nat))
    }
}

/// Sequence numbers run 1, 2, .., 7, 0, 1, .. over the frames of a session:
/// the `count`-th frame carries `count` modulo 8.
pub proof fn lemma_sequence_numbers_cycle(count: nat)
    ensures
        nth_sequence(count) == count % 8,
        nth_sequence(count + 8) == nth_sequence(count),
    decreases count,
{
    if count > 0 {
        lemma_sequence_numbers_cycle((count - 1) as nat);
    }
    lemma_nth_sequence_is_remainder(count + 8);
}

proof fn lemma_nth_sequence_is_remainder(count: nat)
    ensures
        nth_sequence(count) == count % 8,
    decreases count,
{
    if count > 0 {
        lemma_nth_sequence_is_remainder((count - 1) as nat);
    }
}

/// The counter of a session agrees with the number of packets that were
/// acknowledged: while a frame is in flight it is one ahead, modulo 8, and
/// otherwise level.
pub open spec fn in_step(session: SerialModel) -> bool {
    match session.stage {
        Stage::Idle | Stage::Settling | Stage::Done => session.sequence == session.acknowledged
            % 8,
        Stage::FrameSent | Stage::Pausing | Stage::AwaitingAck => session.sequence == (
        session.acknowledged + 1) % 8,
        Stage::Failed => true,
    }
}

/// A session that is in step stays so whatever happens, and every frame it
/// hands out carries the packet that is next in the upload, under the
/// sequence number that is next in the cycle. A session on a freshly opened
/// port is in step.
pub proof fn lemma_attempt_keeps_step(session: SerialModel, file: Seq<u8>, event: Event)
    requires
        in_step(session),
    ensures
        in_step(attempt(session, file, event).0),
        writes_next_packet(file, attempt(session, file, event)),
{
    match event {
        Event::Opened => {
            if session.stage == Stage::Idle {
                lemma_send_next_keeps_step(session, file, Seq::empty());
            }
        },
        Event::Elapsed => {
            if session.stage == Stage::Settling {
                lemma_send_next_keeps_step(session, file, Seq::empty());
            }
        },
        Event::Received(window) => {
            if session.stage == Stage::AwaitingAck {
                let heard = SerialModel { response: session.response + window@, ..session };
                lemma_acknowledge_keeps_step(heard, file);
            }
        },
        _ => {},
    }
}

/// What a step hands out, if it is a frame, is the packet that is next in
/// the upload under the sequence number that is next in the cycle.
pub open spec fn writes_next_packet(file: Seq<u8>, after: (SerialModel, StepModel)) -> bool {
    after.1.action is Write ==> {
        &&& after.0.acknowledged < packet_count(file.len())
        &&& after.1.action == ActionModel::Write {
            frame: frame(
                nth_sequence(after.0.acknowledged + 1),
                packet_payload(file, after.0.acknowledged as int),
            ),
        }
    }
}

proof fn lemma_send_next_keeps_step(session: SerialModel, file: Seq<u8>, said: Seq<Notice>)
    requires
        session.sequence == session.acknowledged % 8,
    ensures
        in_step(send_next(session, file, said).0),
        writes_next_packet(file, send_next(session, file, said)),
{
    lemma_nth_sequence_is_remainder(session.acknowledged + 1);
    assert((session.acknowledged % 8 + 1) % 8 == (session.acknowledged + 1) % 8);
}

proof fn lemma_acknowledge_keeps_step(session: SerialModel, file: Seq<u8>)
    requires
        session.sequence == (session.acknowledged + 1) % 8,
    ensures
        in_step(acknowledge(session, file).0),
        writes_next_packet(file, acknowledge(session, file)),
{
    let counted = SerialModel { acknowledged: session.acknowledged + 1, ..session };
    if session.acknowledged < packet_count(file.len()) && settle_millis(session.acknowledged)
        == 0 {
        lemma_send_next_keeps_step(counted, file, notices_after(file.len(), session.acknowledged));
    }
}

/// An acknowledgement that names any number but the one after the sequence
/// number of the frame in flight, that number itself included, fails the
/// upload as a sequence mismatch.
pub proof fn lemma_wrong_ack_is_mismatch(
    session: SerialModel,
    file: Seq<u8>,
    window: Vec<u8>,
    ack: u8,
)
    requires
        session.stage == Stage::AwaitingAck,
        session.sequence < 8,
        ack_in(session.response + window@) == Ok::<Option<u8>, UploadError>(Some(ack)),
        ack != next_sequence(session.sequence),
    ensures
        session.sequence != next_sequence(session.sequence),
        attempt(session, file, Event::Received(window)).1.action == (ActionModel::Finish {
            outcome: OutcomeModel::Failed { error: UploadError::SequenceMismatch },
        }),
        attempt(session, file, Event::Received(window)).0.stage == Stage::Failed,
{
}

/// Every data packet carries at least one byte and at most 512; all but the
/// last carry exactly 512.
pub proof fn lemma_chunk_len(file: Seq<u8>, index: int)
    requires
        0 <= index < chunk_count(file.len()),
    ensures
        1 <= chunk(file, index).len() <= DFU_MAX_PACKET_SIZE,
        index + 1 < chunk_count(file.len()) ==> chunk(file, index).len() == DFU_MAX_PACKET_SIZE,
        index + 1 == chunk_count(file.len()) ==> chunk(file, index).len() == file.len()
            - DFU_MAX_PACKET_SIZE * index,
{
}

/// The first `count` pieces of `file`, one after the other.
pub open spec fn chunks_joined(file: Seq<u8>, count: nat) -> Seq<u8>
    decreases count,
{
    if count == 0 {
        Seq::empty()
    } else {
        chunks_joined(file, (count - 1) as nat) + chunk(file, count - 1)
    }
}

/// The data packets carry the image, whole and in order.
pub proof fn lemma_chunks_cover_file(file: Seq<u8>)
    ensures
        chunks_joined(file, chunk_count(file.len())) == file,
{
    lemma_chunks_joined_is_prefix(file, chunk_count(file.len()));
    assert(file.take(file.len() as int) =~= file);
}

proof fn lemma_chunks_joined_is_prefix(file: Seq<u8>, count: nat)
    requires
        count <= chunk_count(file.len()),
    ensures
        chunks_joined(file, count) == file.take(
            if count == chunk_count(file.len()) {
                file.len() as int
            } else {
                DFU_MAX_PACKET_SIZE * count
            },
        ),
    decreases count,
{
    if count == 0 {
        assert(file.take(0) =~= Seq::<u8>::empty());
    } else {
        lemma_chunks_joined_is_prefix(file, (count - 1) as nat);
        lemma_chunk_len(file, count - 1);
        let end: int = if count == chunk_count(file.len()) {
            file.len() as int
        } else {
            DFU_MAX_PACKET_SIZE * count
        };
        assert(file.take(DFU_MAX_PACKET_SIZE * (count - 1)) + chunk(file, count - 1) =~= file.take(
            end,
        ));
    }
}

/// The order of an upload: the start packet, the init packet, the data
/// packets with the pieces of the image in order, and after all of them the
/// stop packet.
pub proof fn lemma_packet_order(file: Seq<u8>, index: int)
    requires
        0 <= index < chunk_count(file.len()),
    ensures
        packet_payload(file, 0) == start_payload(file.len() as u32),
        packet_payload(file, 1) == init_payload(crc16(file, CRC16_DEFAULT_SEED)),
        packet_payload(file, 2 + index) == data_payload(chunk(file, index)),
        2 + index < packet_count(file.len()) - 1,
        packet_payload(file, packet_count(file.len()) - 1) == stop_payload(),
{
}

/// The frames of the upload of `file`, in the order in which they go out:
/// each packet under the sequence number of its place.
pub open spec fn upload_frames(file: Seq<u8>) -> Seq<Seq<u8>> {
    Seq::new(
        packet_count(file.len()),
        |place: int| frame(nth_sequence((place + 1) as nat), packet_payload(file, place)),
    )
}

/// The session after a run of events.
pub open spec fn session_after(session: SerialModel, file: Seq<u8>, events: Seq<Event>) -> SerialModel
    decreases events.len(),
{
    if events.len() == 0 {
        session
    } else {
        attempt(session_after(session, file, events.drop_last()), file, events.last()).0
    }
}

/// The frames that the session handed out over a run of events, in order.
pub open spec fn frames_written(session: SerialModel, file: Seq<u8>, events: Seq<Event>) -> Seq<
    Seq<u8>,
>
    decreases events.len(),
{
    if events.len() == 0 {
        Seq::empty()
    } else {
        let before = frames_written(session, file, events.drop_last());
        match attempt(
            session_after(session, file, events.drop_last()),
            file,
            events.last(),
        ).1.action {
            ActionModel::Write { frame } => before.push(frame),
            _ => before,
        }
    }
}

/// How far a run has come: what was written is the beginning of the frames
/// of the upload, and the session stands where that many frames put it.
spec fn on_course(session: SerialModel, file: Seq<u8>, written: Seq<Seq<u8>>) -> bool {
    let count = packet_count(file.len());
    &&& written.len() <= count
    &&& written == upload_frames(file).take(written.len() as int)
    &&& match session.stage {
        Stage::Idle => written.len() == 0 && session.acknowledged == 0 && session.sequence == 0,
        Stage::FrameSent | Stage::Pausing | Stage::AwaitingAck => {
            &&& written.len() == session.acknowledged + 1
            &&& in_step(session)
        },
        Stage::Settling => written.len() == session.acknowledged && in_step(session),
        Stage::Done => written.len() == count,
        Stage::Failed => true,
    }
}

proof fn lemma_step_stays_on_course(
    session: SerialModel,
    file: Seq<u8>,
    written: Seq<Seq<u8>>,
    event: Event,
)
    requires
        on_course(session, file, written),
    ensures
        on_course(
            attempt(session, file, event).0,
            file,
            match attempt(session, file, event).1.action {
                ActionModel::Write { frame } => written.push(frame),
                _ => written,
            },
        ),
{
    let after = attempt(session, file, event);
    let frames = upload_frames(file);
    if session.stage != Stage::Failed && session.stage != Stage::Done {
        lemma_attempt_keeps_step(session, file, event);
    }
    if let ActionModel::Write { frame } = after.1.action {
        let place = after.0.acknowledged as int;
        assert(written.len() == place);
        assert(frames[place] == frame);
        assert(written.push(frame) =~= frames.take(place + 1));
    }
}

proof fn lemma_run_stays_on_course(port: Seq<char>, file: Seq<u8>, events: Seq<Event>)
    ensures
        on_course(
            session_after(fresh_session(port), file, events),
            file,
            frames_written(fresh_session(port), file, events),
        ),
    decreases events.len(),
{
    let fresh = fresh_session(port);
    if events.len() == 0 {
        assert(upload_frames(file).take(0) =~= Seq::<Seq<u8>>::empty());
    } else {
        lemma_run_stays_on_course(port, file, events.drop_last());
        lemma_step_stays_on_course(
            session_after(fresh, file, events.drop_last()),
            file,
            frames_written(fresh, file, events.drop_last()),
            events.last(),
        );
    }
}

/// Whatever happens on a freshly opened port, the frames written to it are
/// the frames of the upload from the first on, none left out and none out of
/// place: start, init, the pieces of the image in order, stop, under the
/// sequence numbers 1, 2, .., 7, 0, 1, ... And when the session has come to
/// its good end, all of them have been written.
pub proof fn lemma_upload_writes_every_packet_in_order(
    port: Seq<char>,
    file: Seq<u8>,
    events: Seq<Event>,
)
    ensures
        frames_written(fresh_session(port), file, events).len() <= packet_count(file.len()),
        frames_written(fresh_session(port), file, events) == upload_frames(file).take(
            frames_written(fresh_session(port), file, events).len() as int,
        ),
        session_after(fresh_session(port), file, events).stage == Stage::Done ==> frames_written(
            fresh_session(port),
            file,
            events,
        ) == upload_frames(file),
{
    lemma_run_stays_on_course(port, file, events);
    assert(upload_frames(file).take(upload_frames(file).len() as int) =~= upload_frames(file));
}

} // verus!
