//! The vocabulary between the library and the code that owns the devices:
//! what the library asks for, what it is told in return, and what it has to
//! say to the operator on the way.

use vstd::prelude::*;
use crate::error::UploadError;
use crate::selector::{Complaint, SerialInfo};

verus! {

/// Speed of the port, in baud.
pub const BAUD_RATE: u32 = 921_600;

/// Bound on every read and every write of the port.
pub const SERIAL_TIMEOUT_MILLIS: u64 = 5000;

/// Pause between writing a frame and reading its acknowledgement.
pub const WRITE_PAUSE_MILLIS: u64 = 40;

/// Time that the bootloader needs after the start packet.
pub const SEND_START_DFU_WAIT_MILLIS: u64 = 2000;

/// Time that the bootloader needs after the init packet.
pub const SEND_INIT_PACKET_WAIT_MILLIS: u64 = 1000;

/// How an upload ended.
#[derive(Debug, PartialEq, Eq)]
pub enum UploadOutcome {
    /// The image went over this port, or, on a dry run, the port opened.
    Uploaded { port: String },
    /// The upload ended at this failure.
    Failed { error: UploadError },
    /// Every candidate was tried and none worked: the failure of each, in
    /// the order in which they were tried.
    NoneWorked { errors: Vec<UploadError> },
}

/// An [`UploadOutcome`] as contracts speak of it.
pub enum OutcomeModel {
    Uploaded { port: Seq<char> },
    Failed { error: UploadError },
    NoneWorked { errors: Seq<UploadError> },
}

impl View for UploadOutcome {
    type V = OutcomeModel;

    open spec fn view(&self) -> OutcomeModel {
        match *self {
            UploadOutcome::Uploaded { port } => OutcomeModel::Uploaded { port: port@ },
            UploadOutcome::Failed { error } => OutcomeModel::Failed { error },
            UploadOutcome::NoneWorked { errors } => OutcomeModel::NoneWorked { errors: errors@ },
        }
    }
}

/// Something for the operator to read.
#[derive(Clone, Copy, Debug, PartialEq, Eq, Structural)]
pub enum Notice {
    /// The connection is being started.
    Starting,
    /// The upload is being initialised.
    Initializing,
    /// The image of `bytes` bytes goes out in `chunks` data packets.
    Uploading { chunks: usize, bytes: usize },
    /// `done` of `total` data packets have been acknowledged.
    Progress { done: usize, total: usize },
    /// The upload is being finished.
    Finalizing,
    /// The upload is complete.
    Done,
    /// The port that was tried last failed with this error and was given
    /// up; the upload goes on.
    Skipped { error: UploadError },
}

/// What the library asks its caller to do next.
#[derive(Debug, PartialEq, Eq)]
pub enum Action {
    /// List the serial ports of the machine; answered by [`Event::Ports`].
    Enumerate,
    /// Show the menu of these ports, after the complaint if there is one,
    /// and read a line; answered by [`Event::Line`].
    Choose { ports: Vec<SerialInfo>, complaint: Option<Complaint> },
    /// Close the port that is open, if one is, and open the port of this
    /// name: at [`BAUD_RATE`], with 8 data bits, 1 stop bit, no parity and
    /// hardware flow control, reads and writes bounded by
    /// [`SERIAL_TIMEOUT_MILLIS`], and what is buffered thrown away. Answered
    /// by [`Event::Opened`].
    Open { port: String },
    /// Write the whole frame to the open port; answered by
    /// [`Event::Written`].
    Write { frame: Vec<u8> },
    /// Wait this long; answered by [`Event::Elapsed`].
    Sleep { millis: u64 },
    /// Read exactly this many bytes from the open port; answered by
    /// [`Event::Received`], or, when they do not come in time, by
    /// [`Event::Failed`] with [`UploadError::Timeout`].
    Read { len: usize },
    /// Close what is open: the upload has ended.
    Finish { outcome: UploadOutcome },
}

/// An [`Action`] as contracts speak of it.
pub enum ActionModel {
    Enumerate,
    Choose { ports: Seq<SerialInfo>, complaint: Option<Complaint> },
    Open { port: Seq<char> },
    Write { frame: Seq<u8> },
    Sleep { millis: u64 },
    Read { len: usize },
    Finish { outcome: OutcomeModel },
}

impl View for Action {
    type V = ActionModel;

    open spec fn view(&self) -> ActionModel {
        match *self {
            Action::Enumerate => ActionModel::Enumerate,
            Action::Choose { ports, complaint } => ActionModel::Choose { ports: ports@, complaint },
            Action::Open { port } => ActionModel::Open { port: port@ },
            Action::Write { frame } => ActionModel::Write { frame: frame@ },
            Action::Sleep { millis } => ActionModel::Sleep { millis },
            Action::Read { len } => ActionModel::Read { len },
            Action::Finish { outcome } => ActionModel::Finish { outcome: outcome@ },
        }
    }
}

/// What the caller reports back after an action.
#[derive(Debug)]
pub enum Event {
    /// The serial ports of the machine.
    Ports(Vec<SerialInfo>),
    /// The line that the operator typed at the menu.
    Line(String),
    /// The port is open and configured.
    Opened,
    /// The frame has been written.
    Written,
    /// The time has passed.
    Elapsed,
    /// The bytes that were read.
    Received(Vec<u8>),
    /// The action failed.
    Failed(UploadError),
}

/// One step of the library: what to tell the operator, then what to do.
#[derive(Debug, PartialEq, Eq)]
pub struct Step {
    pub notices: Vec<Notice>,
    pub action: Action,
}

/// A [`Step`] as contracts speak of it.
pub struct StepModel {
    pub notices: Seq<Notice>,
    pub action: ActionModel,
}

impl View for Step {
    type V = StepModel;

    open spec fn view(&self) -> StepModel {
        StepModel { notices: self.notices@, action: self.action@ }
    }
}

} // verus!
