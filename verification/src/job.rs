//! The conversion job: what it does next, given what just happened.
//!
//! A job runs through four stages after it has been started: it resolves the
//! sticker's reference to a URL, fetches the bytes behind it, has them decoded
//! and stores the encoded image. The caller performs each action and reports
//! its outcome as the next event. Whatever is reported, the job moves on, and
//! it ends with exactly one action that releases the waiters.

use vstd::prelude::*;
use crate::transcode::{
    png_encoding, row_fits, shape_error, DecodeError, EncodeError, PixelBuffer,
};

verus! {

/// Why a job failed.
#[derive(Clone, Copy, Debug, PartialEq, Eq, Structural)]
pub enum JobError {
    /// The platform did not resolve the reference.
    Resolution,
    /// The bytes could not be fetched.
    Network,
    /// The bytes were not an image.
    Decode(DecodeError),
    /// The image could not be stored.
    Encode(EncodeError),
}

/// The stage a job is in.
#[derive(Clone, Copy, Debug, PartialEq, Eq, Structural)]
pub enum JobState {
    /// Not yet scheduled.
    Idle,
    /// The platform is asked for the URL of the file.
    Resolving,
    /// The bytes behind the URL are on their way.
    Fetching,
    /// The bytes are with the decoder.
    Decoding,
    /// The container is being written to the claimed file.
    Encoding,
    /// The file is complete.
    Committed,
    /// The job has given up; nothing is left of its file.
    Failed(JobError),
}

/// What happened to the action that the job asked for last.
#[derive(Debug)]
pub enum JobEvent {
    /// The job has been scheduled.
    Start,
    /// The platform resolved the reference to this URL.
    Url(String),
    /// The URL delivered these bytes.
    Body(Vec<u8>),
    /// The decoder produced this RGBA image.
    Image { pixels: Vec<u8>, width: u32, height: u32 },
    /// Every byte of the container has been written and flushed.
    Stored,
    /// The action failed.
    Failure,
}

/// What the caller has to do next.
#[derive(Debug)]
pub enum JobAction {
    /// Nothing: the event changed nothing.
    Nothing,
    /// Ask the platform for the URL of the sticker's file.
    ResolveUrl,
    /// Fetch the bytes behind this URL.
    Fetch(String),
    /// Decode these bytes into an RGBA image.
    Decode(Vec<u8>),
    /// Write these bytes to the claimed file and flush it.
    Write(Vec<u8>),
    /// The file is complete: remove the registry entry and wake the waiters.
    Release,
    /// Remove the claimed file, then remove the registry entry and wake the
    /// waiters.
    Discard,
}

/// An event as a plain value.
pub enum JobEventView {
    Start,
    Url(Seq<char>),
    Body(Seq<u8>),
    Image { pixels: Seq<u8>, width: u32, height: u32 },
    Stored,
    Failure,
}

/// An action as a plain value.
pub enum JobActionView {
    Nothing,
    ResolveUrl,
    Fetch(Seq<char>),
    Decode(Seq<u8>),
    Write(Seq<u8>),
    Release,
    Discard,
}

impl View for JobEvent {
    type V = JobEventView;

    open spec fn view(&self) -> JobEventView {
        match self {
            JobEvent::Start => JobEventView::Start,
            JobEvent::Url(url) => JobEventView::Url(url@),
            JobEvent::Body(bytes) => JobEventView::Body(bytes@),
            JobEvent::Image { pixels, width, height } => JobEventView::Image {
                pixels: pixels@,
                width: *width,
                height: *height,
            },
            JobEvent::Stored => JobEventView::Stored,
            JobEvent::Failure => JobEventView::Failure,
        }
    }
}

impl View for JobAction {
    type V = JobActionView;

    open spec fn view(&self) -> JobActionView {
        match self {
            JobAction::Nothing => JobActionView::Nothing,
            JobAction::ResolveUrl => JobActionView::ResolveUrl,
            JobAction::Fetch(url) => JobActionView::Fetch(url@),
            JobAction::Decode(bytes) => JobActionView::Decode(bytes@),
            JobAction::Write(bytes) => JobActionView::Write(bytes@),
            JobAction::Release => JobActionView::Release,
            JobAction::Discard => JobActionView::Discard,
        }
    }
}

impl JobState {
    /// A job that has been started and has not ended.
    pub open spec fn is_live(self) -> bool {
        self is Resolving || self is Fetching || self is Decoding || self is Encoding
    }

    /// A job that has ended, one way or the other.
    pub open spec fn is_terminal(self) -> bool {
        self is Committed || self is Failed
    }

    /// How far a job has come: each step of a live job raises it.
    pub open spec fn rank(self) -> nat {
        match self {
            JobState::Idle => 0,
            JobState::Resolving => 1,
            JobState::Fetching => 2,
            JobState::Decoding => 3,
            JobState::Encoding => 4,
            JobState::Committed => 5,
            JobState::Failed(_) => 5,
        }
    }

    /// The error of a failure in this stage.
    pub open spec fn stage_error(self) -> JobError {
        match self {
            JobState::Resolving => JobError::Resolution,
            JobState::Fetching => JobError::Network,
            JobState::Decoding => JobError::Decode(DecodeError::Malformed),
            _ => JobError::Encode(EncodeError::Sink),
        }
    }

    /// Whether the job has ended.
    pub fn terminal(&self) -> (b: bool)
        ensures
            b == self.is_terminal(),
    {
        match self {
            JobState::Committed => true,
            JobState::Failed(_) => true,
            _ => false,
        }
    }
}

impl JobActionView {
    /// The two actions that end a job: both remove the registry entry and
    /// wake the waiters.
    pub open spec fn releases(self) -> bool {
        self is Release || self is Discard
    }
}

/// The failure of a live job in its current stage.
pub open spec fn fail(state: JobState) -> (JobState, JobActionView) {
    (JobState::Failed(state.stage_error()), JobActionView::Discard)
}

/// What follows a decoded image: a misshapen image fails the job; one whose
/// rows the encoder cannot count is refused; of any other the container is
/// written.
pub open spec fn after_image(pixels: Seq<u8>, width: u32, height: u32) -> (
    JobState,
    JobActionView,
) {
    match shape_error(pixels.len() as int, width as int, height as int) {
        Some(e) => (JobState::Failed(JobError::Decode(e)), JobActionView::Discard),
        None => if row_fits(width) {
            (JobState::Encoding, JobActionView::Write(png_encoding(pixels, width, height)))
        } else {
            (JobState::Failed(JobError::Encode(EncodeError::Encoder)), JobActionView::Discard)
        },
    }
}

/// The transition of a job.
pub open spec fn spec_step(state: JobState, event: JobEventView) -> (JobState, JobActionView) {
    match state {
        JobState::Idle => match event {
            JobEventView::Start => (JobState::Resolving, JobActionView::ResolveUrl),
            _ => (JobState::Idle, JobActionView::Nothing),
        },
        JobState::Resolving => match event {
            JobEventView::Url(url) => (JobState::Fetching, JobActionView::Fetch(url)),
            _ => fail(state),
        },
        JobState::Fetching => match event {
            JobEventView::Body(bytes) => (JobState::Decoding, JobActionView::Decode(bytes)),
            _ => fail(state),
        },
        JobState::Decoding => match event {
            JobEventView::Image { pixels, width, height } => after_image(pixels, width, height),
            _ => fail(state),
        },
        JobState::Encoding => match event {
            JobEventView::Stored => (JobState::Committed, JobActionView::Release),
            _ => fail(state),
        },
        JobState::Committed => (state, JobActionView::Nothing),
        JobState::Failed(_) => (state, JobActionView::Nothing),
    }
}

/// A job that has just been scheduled, with its first action.
pub fn start() -> (res: (JobState, JobAction))
    ensures
        (res.0, res.1@) == spec_step(JobState::Idle, JobEventView::Start),
{
    (JobState::Resolving, JobAction::ResolveUrl)
}

/// What follows the encoder's answer: the container is to be written, or the
/// job has failed.
pub fn after_encode(encoded: Result<Vec<u8>, EncodeError>) -> (res: (JobState, JobAction))
    ensures
        match encoded {
            Ok(bytes) => res.0 == JobState::Encoding && res.1@ == JobActionView::Write(bytes@),
            Err(e) => res.0 == JobState::Failed(JobError::Encode(e)) && res.1@
                == JobActionView::Discard,
        },
{
    match encoded {
        Ok(bytes) => (JobState::Encoding, JobAction::Write(bytes)),
        Err(e) => (JobState::Failed(JobError::Encode(e)), JobAction::Discard),
    }
}

/// Moves a job on by one event and says what to do next: the transition of
/// `spec_step`.
pub fn step(state: JobState, event: JobEvent) -> (res: (JobState, JobAction))
    ensures
        (res.0, res.1@) == spec_step(state, event@),
{
    match state {
        JobState::Idle => match event {
            JobEvent::Start => start(),
            _ => (JobState::Idle, JobAction::Nothing),
        },
        JobState::Resolving => match event {
            JobEvent::Url(url) => (JobState::Fetching, JobAction::Fetch(url)),
            _ => (JobState::Failed(JobError::Resolution), JobAction::Discard),
        },
        JobState::Fetching => match event {
            JobEvent::Body(bytes) => (JobState::Decoding, JobAction::Decode(bytes)),
            _ => (JobState::Failed(JobError::Network), JobAction::Discard),
        },
        JobState::Decoding => match event {
            JobEvent::Image { pixels, width, height } => {
                match PixelBuffer::new(pixels, width, height) {
                    Ok(buffer) => after_encode(buffer.encode()),
                    Err(e) => (JobState::Failed(JobError::Decode(e)), JobAction::Discard),
                }
            },
            _ => (
                JobState::Failed(JobError::Decode(DecodeError::Malformed)),
                JobAction::Discard,
            ),
        },
        JobState::Encoding => match event {
            JobEvent::Stored => (JobState::Committed, JobAction::Release),
            _ => (JobState::Failed(JobError::Encode(EncodeError::Sink)), JobAction::Discard),
        },
        JobState::Committed => (JobState::Committed, JobAction::Nothing),
        JobState::Failed(e) => (JobState::Failed(e), JobAction::Nothing),
    }
}

/// Whether an HTTP status reports success.
pub open spec fn is_success(status: u16) -> bool {
    200 <= status < 300
}

/// The event for the platform's answer to the request for a URL: the URL
/// where it gave one, a failure where it denied the reference or let it
/// expire.
pub fn url_event(url: Option<String>) -> (event: JobEvent)
    ensures
        event@ == match url {
            Some(u) => JobEventView::Url(u@),
            None => JobEventView::Failure,
        },
{
    match url {
        Some(u) => JobEvent::Url(u),
        None => JobEvent::Failure,
    }
}

/// The event for a response that arrived: its body where the status reports
/// success, a failure for any other status.
pub fn body_event(status: u16, body: Vec<u8>) -> (event: JobEvent)
    ensures
        event@ == if is_success(status) {
            JobEventView::Body(body@)
        } else {
            JobEventView::Failure
        },
{
    if 200 <= status && status < 300 {
        JobEvent::Body(body)
    } else {
        JobEvent::Failure
    }
}

/// The state of a job after the given events.
pub open spec fn run_job(state: JobState, events: Seq<JobEventView>) -> JobState
    decreases events.len(),
{
    if events.len() == 0 {
        state
    } else {
        spec_step(run_job(state, events.drop_last()), events.last()).0
    }
}

/// How often the waiters are released while the job takes the given events.
pub open spec fn releases_in(state: JobState, events: Seq<JobEventView>) -> nat
    decreases events.len(),
{
    if events.len() == 0 {
        0
    } else {
        let before = run_job(state, events.drop_last());
        let last = spec_step(before, events.last()).1;
        releases_in(state, events.drop_last()) + if last.releases() {
            1nat
        } else {
            0nat
        }
    }
}

/// Every event moves a live job forward.
pub proof fn lemma_step_advances(state: JobState, event: JobEventView)
    requires
        state.is_live(),
    ensures
        spec_step(state, event).0.rank() > state.rank(),
        !(spec_step(state, event).0 is Idle),
{
}

/// A step wakes the waiters exactly when it ends a live job: the last step of
/// a job does, no earlier step does, and a job that has ended never does
/// again.
pub proof fn lemma_release_at_the_end(state: JobState, event: JobEventView)
    ensures
        spec_step(state, event).1.releases() <==> state.is_live() && spec_step(state, event).0.is_terminal(),
        state.is_terminal() ==> spec_step(state, event).0 == state,
{
}

/// A failure reported in any stage ends the job there and wakes the waiters.
pub proof fn lemma_failure_releases(state: JobState)
    requires
        state.is_live(),
    ensures
        spec_step(state, JobEventView::Failure) == (
            JobState::Failed(state.stage_error()),
            JobActionView::Discard,
        ),
{
}

/// The waiters are told that the file is complete only by the step that
/// learns that every byte has been written and flushed.
pub proof fn lemma_release_after_store(state: JobState, event: JobEventView)
    ensures
        spec_step(state, event).1 is Release <==> state is Encoding && event is Stored,
        spec_step(state, event).0 is Committed && !(state is Committed) ==> spec_step(state, event).1 is Release,
{
}

/// A started job ends after at most four events, whatever they are, and the
/// waiters are released exactly once on the way: never twice, and not at all
/// only while the job is still live.
pub proof fn lemma_job_ends(state: JobState, events: Seq<JobEventView>)
    requires
        state.is_live(),
    ensures
        run_job(state, events).is_live() || run_job(state, events).is_terminal(),
        run_job(state, events).is_live() ==> run_job(state, events).rank() >= state.rank()
            + events.len() && releases_in(state, events) == 0,
        run_job(state, events).is_terminal() ==> releases_in(state, events) == 1,
        events.len() + state.rank() >= 5 ==> run_job(state, events).is_terminal(),
    decreases events.len(),
{
    if events.len() > 0 {
        lemma_job_ends(state, events.drop_last());
        let before = run_job(state, events.drop_last());
        lemma_release_at_the_end(before, events.last());
        if before.is_live() {
            lemma_step_advances(before, events.last());
        }
    }
}

/// How often the job asks for bytes to be fetched while it takes the given
/// events.
pub open spec fn fetches_in(state: JobState, events: Seq<JobEventView>) -> nat
    decreases events.len(),
{
    if events.len() == 0 {
        0
    } else {
        let before = run_job(state, events.drop_last());
        let last = spec_step(before, events.last()).1;
        fetches_in(state, events.drop_last()) + if last is Fetch {
            1nat
        } else {
            0nat
        }
    }
}

/// A job fetches at most once: once if it is given the URL it asked for, and
/// never after that.
pub proof fn lemma_fetch_once(state: JobState, events: Seq<JobEventView>)
    requires
        state.is_live(),
    ensures
        fetches_in(state, events) <= 1,
        !(state is Resolving) ==> fetches_in(state, events) == 0,
        fetches_in(state, events) == 1 ==> events.len() > 0 && events[0] is Url,
        run_job(state, events) is Resolving ==> fetches_in(state, events) == 0,
    decreases events.len(),
{
    if events.len() > 0 {
        let init = events.drop_last();
        lemma_fetch_once(state, init);
        lemma_job_ends(state, init);
        let before = run_job(state, init);
        if before is Resolving {
            assert(before.rank() >= state.rank() + init.len());
            assert(init.len() == 0);
        }
        if init.len() > 0 {
            assert(init[0] == events[0]);
        }
    }
}

} // verus!
