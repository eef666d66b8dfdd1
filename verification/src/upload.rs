//! The upload as a whole: which ports are tried, in what order, what a
//! failure on one of them means for the rest, and how it all ends.
//!
//! The library decides and the caller acts. [`upload`] checks the request
//! and gives the first [`Step`]; the caller carries out its action and hands
//! what happened to [`Upload::step`], which gives the next one, until the
//! action is [`Action::Finish`](crate::action::Action::Finish).

use vstd::prelude::*;
use crate::action::{
    Action, ActionModel, Event, Notice, OutcomeModel, Step, StepModel, UploadOutcome,
};
use crate::error::UploadError;
use crate::selector::{
    names_of, reply, select, selected, Menu, PortSelector, Selection, SelectionModel, SerialInfo,
};
use crate::serial::{attempt, fresh_session, in_step, start_payload, Serial, SerialModel};
use crate::slip::frame;

verus! {

/// What an upload is waiting for.
pub enum Phase {
    /// The list of the machine's ports.
    Listing,
    /// The operator's answer at this menu.
    Choosing { menu: Menu },
    /// The opening of this port.
    Opening { port: String },
    /// The next event of the session on the open port.
    Uploading { session: Serial },
    /// Nothing: the upload has ended.
    Finished,
}

/// A [`Phase`] as contracts speak of it.
pub enum PhaseModel {
    Listing,
    Choosing { menu: Seq<SerialInfo> },
    Opening { port: Seq<char> },
    Uploading { session: SerialModel },
    Finished,
}

impl View for Phase {
    type V = PhaseModel;

    open spec fn view(&self) -> PhaseModel {
        match *self {
            Phase::Listing => PhaseModel::Listing,
            Phase::Choosing { menu } => PhaseModel::Choosing { menu: menu@ },
            Phase::Opening { port } => PhaseModel::Opening { port: port@ },
            Phase::Uploading { session } => PhaseModel::Uploading { session: session@ },
            Phase::Finished => PhaseModel::Finished,
        }
    }
}

/// An upload under way.
pub struct Upload<'a> {
    selector: PortSelector<'a>,
    file: &'a [u8],
    dry_run: bool,
    candidates: Vec<String>,
    next: usize,
    stop_after_first_error: bool,
    errors: Vec<UploadError>,
    phase: Phase,
}

/// What an upload is, to its users.
pub struct UploadModel<'a> {
    /// How the port is to be found.
    pub selector: PortSelector<'a>,
    /// The image.
    pub file: Seq<u8>,
    /// Whether opening a port is all that is asked for.
    pub dry_run: bool,
    /// The ports to try, in order.
    pub candidates: Seq<Seq<char>>,
    /// How many of them have been taken up.
    pub next: nat,
    /// Whether the first failure ends the upload.
    pub stop_after_first_error: bool,
    /// The failures of the candidates that were given up, in order.
    pub errors: Seq<UploadError>,
    /// What the upload is waiting for.
    pub phase: PhaseModel,
}

impl<'a> View for Upload<'a> {
    type V = UploadModel<'a>;

    closed spec fn view(&self) -> UploadModel<'a> {
        UploadModel {
            selector: self.selector,
            file: self.file@,
            dry_run: self.dry_run,
            candidates: names_of(self.candidates@),
            next: self.next as nat,
            stop_after_first_error: self.stop_after_first_error,
            errors: self.errors@,
            phase: self.phase@,
        }
    }
}

/// The upload ends with `outcome`.
pub open spec fn finish(upload: UploadModel, outcome: OutcomeModel) -> (UploadModel, StepModel) {
    (
        UploadModel { phase: PhaseModel::Finished, ..upload },
        StepModel { notices: Seq::empty(), action: ActionModel::Finish { outcome } },
    )
}

/// The upload turns to the next candidate, or, when none is left, ends with
/// the failures of all of them.
pub open spec fn open_next(upload: UploadModel, said: Seq<Notice>) -> (UploadModel, StepModel) {
    if upload.next < upload.candidates.len() {
        let port = upload.candidates[upload.next as int];
        (
            UploadModel { next: upload.next + 1, phase: PhaseModel::Opening { port }, ..upload },
            StepModel { notices: said, action: ActionModel::Open { port } },
        )
    } else {
        (
            UploadModel { phase: PhaseModel::Finished, ..upload },
            StepModel {
                notices: said,
                action: ActionModel::Finish {
                    outcome: OutcomeModel::NoneWorked { errors: upload.errors },
                },
            },
        )
    }
}

/// The candidate at hand has failed with `error`. That ends the upload if
/// the first failure is to end it, or if there is only one candidate.
/// Otherwise the failure is recorded, the operator is told, and the next
/// candidate is taken up.
pub open spec fn candidate_failed(upload: UploadModel, error: UploadError) -> (
    UploadModel,
    StepModel,
) {
    if upload.stop_after_first_error || upload.candidates.len() == 1 {
        finish(upload, OutcomeModel::Failed { error })
    } else {
        open_next(
            UploadModel { errors: upload.errors.push(error), ..upload },
            seq![Notice::Skipped { error }],
        )
    }
}

/// The selection is made: its candidates are taken up from the first, or
/// the operator is asked, or the upload ends where nothing was found.
pub open spec fn apply_selection(upload: UploadModel, selection: Result<SelectionModel, UploadError>) -> (
    UploadModel,
    StepModel,
) {
    match selection {
        Err(error) => finish(upload, OutcomeModel::Failed { error }),
        Ok(SelectionModel::Candidates { ports, stop_on_first_error }) => open_next(
            UploadModel {
                candidates: ports,
                stop_after_first_error: stop_on_first_error,
                next: 0,
                ..upload
            },
            Seq::empty(),
        ),
        Ok(SelectionModel::Ask { menu }) => (
            UploadModel { phase: PhaseModel::Choosing { menu }, ..upload },
            StepModel {
                notices: Seq::empty(),
                action: ActionModel::Choose { ports: menu, complaint: None },
            },
        ),
    }
}

/// What the session on the open port asks for is passed on, but for its
/// end: its failure is the failure of the candidate, and its success ends
/// the upload.
pub open spec fn relay(upload: UploadModel, session: SerialModel, step: StepModel) -> (
    UploadModel,
    StepModel,
) {
    match step.action {
        ActionModel::Finish { outcome: OutcomeModel::Failed { error } } => candidate_failed(
            upload,
            error,
        ),
        ActionModel::Finish { outcome } => (
            UploadModel { phase: PhaseModel::Finished, ..upload },
            step,
        ),
        _ => (UploadModel { phase: PhaseModel::Uploading { session }, ..upload }, step),
    }
}

/// One step of an upload: the upload and what it asks for next, given where
/// it stood and what happened.
///
/// Candidates are tried one at a time, in order. A port that opens ends a
/// dry run in success; otherwise a fresh session runs on it, with a counter
/// of its own. A failure that is reported while ports are listed or the
/// operator is asked ends the upload. An event that answers nothing that
/// was asked for does so too, as invalid.
pub open spec fn advance(upload: UploadModel, event: Event) -> (UploadModel, StepModel) {
    let invalid = finish(upload, OutcomeModel::Failed { error: UploadError::ValidationError });
    match upload.phase {
        PhaseModel::Listing => match event {
            Event::Ports(ports) => apply_selection(upload, selected(upload.selector, ports@)),
            Event::Failed(error) => finish(upload, OutcomeModel::Failed { error }),
            _ => invalid,
        },
        PhaseModel::Choosing { menu } => match event {
            Event::Line(line) => match reply(menu, line@) {
                Ok(name) => open_next(
                    UploadModel {
                        candidates: seq![name@],
                        stop_after_first_error: true,
                        next: 0,
                        ..upload
                    },
                    Seq::empty(),
                ),
                Err(complaint) => (
                    upload,
                    StepModel {
                        notices: Seq::empty(),
                        action: ActionModel::Choose { ports: menu, complaint: Some(complaint) },
                    },
                ),
            },
            Event::Failed(error) => finish(upload, OutcomeModel::Failed { error }),
            _ => invalid,
        },
        PhaseModel::Opening { port } => match event {
            Event::Opened => if upload.dry_run {
                finish(upload, OutcomeModel::Uploaded { port })
            } else {
                let (session, step) = attempt(fresh_session(port), upload.file, Event::Opened);
                relay(upload, session, step)
            },
            Event::Failed(error) => candidate_failed(upload, error),
            _ => invalid,
        },
        PhaseModel::Uploading { session } => {
            let (session, step) = attempt(session, upload.file, event);
            relay(upload, session, step)
        },
        PhaseModel::Finished => invalid,
    }
}

/// How an upload begins. A dry run cannot search all ports, and an image
/// that is to be sent must have a size that fits 32 bits: such a request is
/// refused before anything is asked for. A named port is opened at once;
/// every other mode first asks for the list of ports.
pub open spec fn begin<'a>(selector: PortSelector<'a>, file: Seq<u8>, dry_run: bool) -> Result<
    (UploadModel<'a>, StepModel),
    UploadError,
> {
    let upload = UploadModel {
        selector,
        file,
        dry_run,
        candidates: Seq::empty(),
        next: 0,
        stop_after_first_error: false,
        errors: Seq::empty(),
        phase: PhaseModel::Listing,
    };
    if dry_run && selector is SearchAll {
        Err(UploadError::ValidationError)
    } else if !dry_run && file.len() > u32::MAX {
        Err(UploadError::ValidationError)
    } else if selector is Named {
        Ok(apply_selection(upload, selected(selector, Seq::empty())))
    } else {
        Ok((upload, StepModel { notices: Seq::empty(), action: ActionModel::Enumerate }))
    }
}

/// Copies a list of ports.
fn copy_ports(ports: &Vec<SerialInfo>) -> (copy: Vec<SerialInfo>)
    ensures
        copy@ == ports@,
{
    let mut copy: Vec<SerialInfo> = Vec::new();
    let mut i: usize = 0;
    while i < ports.len()
        invariant
            i <= ports.len(),
            copy@ == ports@.take(i as int),
        decreases ports.len() - i,
    {
        copy.push(ports[i].clone());
        i += 1;
        assert(copy@ =~= ports@.take(i as int));
    }
    assert(ports@.take(ports.len() as int) =~= ports@);
    copy
}

/// Copies a list of failures.
fn copy_errors(errors: &Vec<UploadError>) -> (copy: Vec<UploadError>)
    ensures
        copy@ == errors@,
{
    let mut copy: Vec<UploadError> = Vec::new();
    let mut i: usize = 0;
    while i < errors.len()
        invariant
            i <= errors.len(),
            copy@ == errors@.take(i as int),
        decreases errors.len() - i,
    {
        copy.push(errors[i]);
        i += 1;
        assert(copy@ =~= errors@.take(i as int));
    }
    assert(errors@.take(errors.len() as int) =~= errors@);
    copy
}

impl<'a> Upload<'a> {
    fn finish(&mut self, outcome: UploadOutcome) -> (step: Step)
        ensures
            (final(self)@, step@) == finish(old(self)@, outcome@),
    {
        self.phase = Phase::Finished;
        Step { notices: Vec::new(), action: Action::Finish { outcome } }
    }

    fn open_next(&mut self, said: Vec<Notice>) -> (step: Step)
        ensures
            (final(self)@, step@) == open_next(old(self)@, said@),
    {
        if self.next < self.candidates.len() {
            let port = self.candidates[self.next].clone();
            self.phase = Phase::Opening { port: port.clone() };
            self.next = self.next + 1;
            Step { notices: said, action: Action::Open { port } }
        } else {
            self.phase = Phase::Finished;
            Step {
                notices: said,
                action: Action::Finish {
                    outcome: UploadOutcome::NoneWorked { errors: copy_errors(&self.errors) },
                },
            }
        }
    }

    fn candidate_failed(&mut self, error: UploadError) -> (step: Step)
        ensures
            (final(self)@, step@) == candidate_failed(old(self)@, error),
    {
        if self.stop_after_first_error || self.candidates.len() == 1 {
            self.finish(UploadOutcome::Failed { error })
        } else {
            self.errors.push(error);
            let mut said: Vec<Notice> = Vec::new();
            said.push(Notice::Skipped { error });
            assert(said@ =~= seq![Notice::Skipped { error }]);
            self.open_next(said)
        }
    }

    fn apply_selection(&mut self, selection: Result<Selection, UploadError>) -> (step: Step)
        ensures
            (final(self)@, step@) == apply_selection(
                old(self)@,
                match selection {
                    Ok(chosen) => Ok(chosen@),
                    Err(error) => Err(error),
                },
            ),
    {
        match selection {
            Err(error) => self.finish(UploadOutcome::Failed { error }),
            Ok(Selection::Candidates { ports, stop_on_first_error }) => {
                self.candidates = ports;
                self.stop_after_first_error = stop_on_first_error;
                self.next = 0;
                self.open_next(Vec::new())
            },
            Ok(Selection::Ask { menu }) => {
                let ports = copy_ports(menu.ports());
                self.phase = Phase::Choosing { menu };
                Step { notices: Vec::new(), action: Action::Choose { ports, complaint: None } }
            },
        }
    }

    fn relay(&mut self, session: Serial, step: Step) -> (relayed: Step)
        ensures
            (final(self)@, relayed@) == relay(old(self)@, session@, step@),
    {
        let Step { notices, action } = step;
        match action {
            Action::Finish { outcome: UploadOutcome::Failed { error } } => self.candidate_failed(
                error,
            ),
            Action::Finish { outcome } => {
                self.phase = Phase::Finished;
                Step { notices, action: Action::Finish { outcome } }
            },
            other => {
                self.phase = Phase::Uploading { session };
                Step { notices, action: other }
            },
        }
    }

    /// Carries the upload one step further: see [`advance`].
    pub fn step(&mut self, event: Event) -> (step: Step)
        ensures
            (final(self)@, step@) == advance(old(self)@, event),
    {
        let mut phase = Phase::Finished;
        core::mem::swap(&mut self.phase, &mut phase);
        let ghost before = old(self)@;
        assert(self@ == (UploadModel { phase: PhaseModel::Finished, ..before }));
        match phase {
            Phase::Listing => match event {
                Event::Ports(ports) => {
                    self.phase = Phase::Listing;
                    let selection = select(&self.selector, ports);
                    self.apply_selection(selection)
                },
                Event::Failed(error) => {
                    self.phase = Phase::Listing;
                    self.finish(UploadOutcome::Failed { error })
                },
                _ => {
                    self.phase = Phase::Listing;
                    self.finish(UploadOutcome::Failed { error: UploadError::ValidationError })
                },
            },
            Phase::Choosing { menu } => match event {
                Event::Line(line) => match menu.answer(line.as_str()) {
                    Ok(name) => {
                        let mut names: Vec<String> = Vec::new();
                        names.push(name);
                        assert(names_of(names@) =~= seq![name@]);
                        self.phase = Phase::Choosing { menu };
                        self.candidates = names;
                        self.stop_after_first_error = true;
                        self.next = 0;
                        self.open_next(Vec::new())
                    },
                    Err(complaint) => {
                        let ports = copy_ports(menu.ports());
                        self.phase = Phase::Choosing { menu };
                        Step {
                            notices: Vec::new(),
                            action: Action::Choose { ports, complaint: Some(complaint) },
                        }
                    },
                },
                Event::Failed(error) => {
                    self.phase = Phase::Choosing { menu };
                    self.finish(UploadOutcome::Failed { error })
                },
                _ => {
                    self.phase = Phase::Choosing { menu };
                    self.finish(UploadOutcome::Failed { error: UploadError::ValidationError })
                },
            },
            Phase::Opening { port } => match event {
                Event::Opened => {
                    if self.dry_run {
                        self.phase = Phase::Opening { port: port.clone() };
                        self.finish(UploadOutcome::Uploaded { port })
                    } else {
                        self.phase = Phase::Opening { port: port.clone() };
                        let mut session = Serial::open(port);
                        let step = session.try_do_upload(self.file, Event::Opened);
                        self.relay(session, step)
                    }
                },
                Event::Failed(error) => {
                    self.phase = Phase::Opening { port };
                    self.candidate_failed(error)
                },
                _ => {
                    self.phase = Phase::Opening { port };
                    self.finish(UploadOutcome::Failed { error: UploadError::ValidationError })
                },
            },
            Phase::Uploading { session } => {
                let mut session = session;
                let ghost started = session@;
                let step = session.try_do_upload(self.file, event);
                proof {
                    assert(before.phase == (PhaseModel::Uploading { session: started }));
                    assert(relay(self@, session@, step@) == relay(before, session@, step@));
                }
                self.relay(session, step)
            },
            Phase::Finished => self.finish(
                UploadOutcome::Failed { error: UploadError::ValidationError },
            ),
        }
    }
}

/// Begins an upload of `file` to the port that `port` selects, or, on a dry
/// run, a check that the port opens: see [`begin`].
pub fn upload<'a>(port: PortSelector<'a>, file: &'a [u8], dry_run: bool) -> (started: Result<
    (Upload<'a>, Step),
    UploadError,
>)
    ensures
        match begin(port, file@, dry_run) {
            Ok(expected) => started is Ok && started->Ok_0.0@ == expected.0 && started->Ok_0.1@
                == expected.1,
            Err(error) => started is Err && started->Err_0 == error,
        },
{
    upload_internal(port, file, dry_run)
}

/// Begins an upload of the image in `file`, or, without one, a dry run.
pub fn upload_file<'a>(port: PortSelector<'a>, file: Option<&'a [u8]>) -> (started: Result<
    (Upload<'a>, Step),
    UploadError,
>)
    ensures
        match begin(
            port,
            match file {
                Some(bytes) => bytes@,
                None => Seq::empty(),
            },
            file is None,
        ) {
            Ok(expected) => started is Ok && started->Ok_0.0@ == expected.0 && started->Ok_0.1@
                == expected.1,
            Err(error) => started is Err && started->Err_0 == error,
        },
{
    match file {
        Some(bytes) => upload(port, bytes, false),
        None => {
            let nothing: &'static [u8] = &[];
            assert(nothing@ =~= Seq::<u8>::empty());
            upload(port, nothing, true)
        },
    }
}

fn upload_internal<'a>(port: PortSelector<'a>, file: &'a [u8], dry_run: bool) -> (started: Result<
    (Upload<'a>, Step),
    UploadError,
>)
    ensures
        match begin(port, file@, dry_run) {
            Ok(expected) => started is Ok && started->Ok_0.0@ == expected.0 && started->Ok_0.1@
                == expected.1,
            Err(error) => started is Err && started->Err_0 == error,
        },
{
    if dry_run {
        if let PortSelector::SearchAll = port {
            return Err(UploadError::ValidationError);
        }
    } else if file.len() > u32::MAX as usize {
        return Err(UploadError::ValidationError);
    }
    let mut upload = Upload {
        selector: port,
        file,
        dry_run,
        candidates: Vec::new(),
        next: 0,
        stop_after_first_error: false,
        errors: Vec::new(),
        phase: Phase::Listing,
    };
    assert(names_of(upload.candidates@) =~= Seq::<Seq<char>>::empty());
    if let PortSelector::Named(_) = port {
        let selection = select(&port, Vec::new());
        let step = upload.apply_selection(selection);
        Ok((upload, step))
    } else {
        Ok((upload, Step { notices: Vec::new(), action: Action::Enumerate }))
    }
}

/// A dry run that is to search all ports is refused, whatever the image,
/// before a single action is asked for.
pub proof fn lemma_dry_run_cannot_search_all(file: Seq<u8>)
    ensures
        begin(PortSelector::SearchAll, file, true) == Err::<(UploadModel, StepModel), UploadError>(
            UploadError::ValidationError,
        ),
{
}

/// Candidates are taken up one at a time and in their order: once the
/// selection is made the list stays as it is, and whenever a port is to be
/// opened it is the next one that has not been tried yet.
pub proof fn lemma_candidates_in_order(upload: UploadModel, event: Event)
    requires
        upload.phase is Opening || upload.phase is Uploading,
    ensures
        advance(upload, event).0.candidates == upload.candidates,
        advance(upload, event).1.action is Open ==> {
            &&& upload.next < upload.candidates.len()
            &&& advance(upload, event).1.action == ActionModel::Open {
                port: upload.candidates[upload.next as int],
            }
            &&& advance(upload, event).0.next == upload.next + 1
        },
        !(advance(upload, event).1.action is Open) ==> advance(upload, event).0.next
            == upload.next,
{
}

/// Where failures do not end the upload and there is more than one
/// candidate, a candidate that fails is recorded and told to the operator,
/// and the next candidate is opened; after the last one the upload ends with
/// the failures of all.
pub proof fn lemma_failure_moves_on(upload: UploadModel, error: UploadError)
    requires
        !upload.stop_after_first_error,
        upload.candidates.len() > 1,
        upload.phase is Opening || upload.phase is Uploading,
    ensures
        advance(upload, Event::Failed(error)).0.errors == upload.errors.push(error),
        advance(upload, Event::Failed(error)).1.notices == seq![Notice::Skipped { error }],
        upload.next < upload.candidates.len() ==> advance(upload, Event::Failed(error)).1.action
            == (ActionModel::Open { port: upload.candidates[upload.next as int] }),
        upload.next >= upload.candidates.len() ==> advance(upload, Event::Failed(error)).1.action
            == (ActionModel::Finish {
            outcome: OutcomeModel::NoneWorked { errors: upload.errors.push(error) },
        }),
{
}

/// Where the first failure ends the upload, or there is only one candidate,
/// a port that does not open, or that fails while it is written or read,
/// ends the upload with the very error that was reported for it.
pub proof fn lemma_failure_is_final(upload: UploadModel, error: UploadError)
    requires
        upload.stop_after_first_error || upload.candidates.len() == 1,
        upload.phase is Opening || upload.phase is Uploading,
    ensures
        advance(upload, Event::Failed(error)) == finish(upload, OutcomeModel::Failed { error }),
{
}

/// A named port is the only candidate and is opened first. If it does not
/// open, the upload ends with the error that was reported, never with
/// another one.
pub proof fn lemma_named_port(name: &str, file: Seq<u8>, dry_run: bool, error: UploadError)
    requires
        dry_run || file.len() <= u32::MAX,
    ensures
        begin(PortSelector::Named(name), file, dry_run) is Ok,
        begin(PortSelector::Named(name), file, dry_run)->Ok_0.1 == (StepModel {
            notices: Seq::empty(),
            action: ActionModel::Open { port: name@ },
        }),
        advance(
            begin(PortSelector::Named(name), file, dry_run)->Ok_0.0,
            Event::Failed(error),
        ).1.action == (ActionModel::Finish { outcome: OutcomeModel::Failed { error } }),
{
    let started = begin(PortSelector::Named(name), file, dry_run)->Ok_0;
    assert(seq![name@].len() == 1);
    assert(started.0.candidates =~= seq![name@]);
}

/// Every candidate gets a session of its own: the first frame written to a
/// port that has opened is the start packet under sequence number 1,
/// whatever was sent to the candidates before.
pub proof fn lemma_candidate_starts_afresh(upload: UploadModel)
    requires
        upload.phase is Opening,
        !upload.dry_run,
        upload.file.len() <= u32::MAX,
    ensures
        advance(upload, Event::Opened).1.action == (ActionModel::Write {
            frame: frame(1, start_payload(upload.file.len() as u32)),
        }),
        advance(upload, Event::Opened).0.phase matches PhaseModel::Uploading { session }
            && in_step(session),
{
}

/// On a dry run the first port that opens is the outcome, and nothing is
/// written to it.
pub proof fn lemma_dry_run_ends_at_open(upload: UploadModel)
    requires
        upload.phase is Opening,
        upload.dry_run,
    ensures
        advance(upload, Event::Opened) == finish(
            upload,
            OutcomeModel::Uploaded { port: upload.phase->Opening_port },
        ),
{
}

} // verus!
