//! The commands of the diarization: identifying the speakers of a meeting, and
//! saving the names that they are given.

use crate::diarization::audio::{self, AudioFile, AudioFileView};
use crate::diarization::labels;
use crate::diarization::overlap::{self, DiarizationSegment, Speech};
use crate::json;
use crate::metadata::{self, SpeakerNames};
use crate::models::{self, MeetingModel, MeetingView, SegmentView, Transcript};
use crate::repository::protocol::{Progress, ProgressView, TaskView};
use crate::repository::task::MeetingsRepository;
use crate::seconds::Seconds;
use crate::text;
use vstd::prelude::*;

verus! {

/// A text again, if there is one.
fn copy_text(t: &Option<String>) -> (r: Option<String>)
    ensures
        metadata::text_view(r) == metadata::text_view(*t),
{
    match t {
        Some(t) => Some(t.clone()),
        None => None,
    }
}

/// Result returned to the frontend after diarization.
#[derive(Debug)]
pub struct DiarizationResult {
    pub status: String,
    pub speaker_count: usize,
    pub chunk_count: usize,
    pub error: Option<String>,
}

impl Clone for DiarizationResult {
    fn clone(&self) -> (r: DiarizationResult)
        ensures
            r@ == self@,
    {
        DiarizationResult {
            status: self.status.clone(),
            speaker_count: self.speaker_count,
            chunk_count: self.chunk_count,
            error: copy_text(&self.error),
        }
    }
}

/// What a result says.
pub struct ResultView {
    pub status: Seq<char>,
    pub speaker_count: nat,
    pub chunk_count: nat,
    pub error: Option<Seq<char>>,
}

impl View for DiarizationResult {
    type V = ResultView;

    open spec fn view(&self) -> ResultView {
        ResultView {
            status: self.status@,
            speaker_count: self.speaker_count as nat,
            chunk_count: self.chunk_count as nat,
            error: metadata::text_view(self.error),
        }
    }
}

/// Progress event emitted during diarization.
#[derive(Debug)]
pub struct DiarizationProgress {
    /// `processing`, `completed` or `error`.
    pub status: String,
    pub message: Option<String>,
    pub speaker_count: Option<usize>,
    pub chunk_count: Option<usize>,
}

impl Clone for DiarizationProgress {
    fn clone(&self) -> (r: DiarizationProgress)
        ensures
            r@ == self@,
    {
        DiarizationProgress {
            status: self.status.clone(),
            message: copy_text(&self.message),
            speaker_count: self.speaker_count,
            chunk_count: self.chunk_count,
        }
    }
}

/// What a progress event says.
pub struct NoticeView {
    pub status: Seq<char>,
    pub message: Option<Seq<char>>,
    pub speaker_count: Option<nat>,
    pub chunk_count: Option<nat>,
}

/// What a count says, if there is one.
pub open spec fn count_view(n: Option<usize>) -> Option<nat> {
    match n {
        Some(n) => Some(n as nat),
        None => None,
    }
}

impl View for DiarizationProgress {
    type V = NoticeView;

    open spec fn view(&self) -> NoticeView {
        NoticeView {
            status: self.status@,
            message: metadata::text_view(self.message),
            speaker_count: count_view(self.speaker_count),
            chunk_count: count_view(self.chunk_count),
        }
    }
}

/// A progress event without counts.
pub open spec fn notice(status: Seq<char>, message: Seq<char>) -> NoticeView {
    NoticeView { status, message: Some(message), speaker_count: None, chunk_count: None }
}

/// A diarization progress event for the frontend.
pub fn emit_progress(
    status: &str,
    message: &str,
    speaker_count: Option<usize>,
    chunk_count: Option<usize>,
) -> (r: DiarizationProgress)
    ensures
        r@ == (NoticeView {
            status: status@,
            message: Some(message@),
            speaker_count: count_view(speaker_count),
            chunk_count: count_view(chunk_count),
        }),
{
    DiarizationProgress {
        status: status.to_owned(),
        message: Some(message.to_owned()),
        speaker_count,
        chunk_count,
    }
}

/// How far a diarization has come.
#[allow(inconsistent_fields)]
#[derive(Debug)]
pub enum Stage {
    LoadMeeting,
    FindAudio { folder: String },
    CreateTempDir { folder: String, audio: AudioFile },
    RunSidecar { folder: String, audio: AudioFile },
    LoadTranscripts { segments: Vec<DiarizationSegment> },
    UpdateSpeakers {
        segments: Vec<DiarizationSegment>,
        /// Transcript segments with their speakers.
        assignments: Vec<(String, String)>,
        /// How many of them were handed to the database.
        done: usize,
    },
    SaveMetadata { speaker_count: usize, chunk_count: usize, metadata: String },
}

/// How far a diarization has come.
#[allow(inconsistent_fields)]
pub enum StageView {
    LoadMeeting,
    FindAudio { folder: Seq<char> },
    CreateTempDir { folder: Seq<char>, audio: AudioFileView },
    RunSidecar { folder: Seq<char>, audio: AudioFileView },
    LoadTranscripts { speeches: Seq<Speech> },
    UpdateSpeakers {
        speeches: Seq<Speech>,
        assignments: Seq<(Seq<char>, Seq<char>)>,
        done: nat,
    },
    SaveMetadata { speaker_count: nat, chunk_count: nat, metadata: Seq<char> },
}

/// What assignments of speakers say.
pub open spec fn assignments_view(all: Seq<(String, String)>) -> Seq<(Seq<char>, Seq<char>)> {
    all.map_values(|a: (String, String)| (a.0@, a.1@))
}

impl View for Stage {
    type V = StageView;

    open spec fn view(&self) -> StageView {
        match self {
            Stage::LoadMeeting => StageView::LoadMeeting,
            Stage::FindAudio { folder } => StageView::FindAudio { folder: folder@ },
            Stage::CreateTempDir { folder, audio } => StageView::CreateTempDir {
                folder: folder@,
                audio: audio@,
            },
            Stage::RunSidecar { folder, audio } => StageView::RunSidecar {
                folder: folder@,
                audio: audio@,
            },
            Stage::LoadTranscripts { segments } => StageView::LoadTranscripts {
                speeches: overlap::speeches(segments@),
            },
            Stage::UpdateSpeakers { segments, assignments, done } => StageView::UpdateSpeakers {
                speeches: overlap::speeches(segments@),
                assignments: assignments_view(assignments@),
                done: *done as nat,
            },
            Stage::SaveMetadata {
                speaker_count,
                chunk_count,
                metadata,
            } => StageView::SaveMetadata {
                speaker_count: *speaker_count as nat,
                chunk_count: *chunk_count as nat,
                metadata: metadata@,
            },
        }
    }
}

/// The diarization of a meeting that is under way.
#[derive(Debug)]
pub struct Diarization {
    pub meeting_id: String,
    pub hf_token: Option<String>,
    pub stage: Stage,
}

/// What a diarization is about.
pub struct DiarizationView {
    pub meeting_id: Seq<char>,
    pub hf_token: Option<Seq<char>>,
    pub stage: StageView,
}

impl View for Diarization {
    type V = DiarizationView;

    open spec fn view(&self) -> DiarizationView {
        DiarizationView {
            meeting_id: self.meeting_id@,
            hf_token: metadata::text_view(self.hf_token),
            stage: self.stage@,
        }
    }
}

/// What is to be done next.
#[derive(Debug)]
pub enum Action {
    /// Load the meeting without its transcripts.
    LoadMeeting { meeting_id: String },
    /// Find the recording in a folder.
    FindAudio { folder: String },
    /// Create a directory for the sidecar's output.
    CreateTempDir,
    /// Run the sidecar on the recording that was found in the folder.
    RunSidecar { folder: String, audio: AudioFile, hf_token: Option<String> },
    /// Load a page of the meeting's transcripts.
    LoadTranscripts { meeting_id: String, limit: i64, offset: i64 },
    /// Give a transcript segment its speaker.
    UpdateSpeaker { transcript_id: String, speaker_id: String },
    /// Save metadata of the meeting.
    SaveMetadata { meeting_id: String, metadata: String },
}

/// What is to be done next.
pub enum ActionView {
    LoadMeeting { meeting_id: Seq<char> },
    FindAudio { folder: Seq<char> },
    CreateTempDir,
    RunSidecar { folder: Seq<char>, audio: AudioFileView, hf_token: Option<Seq<char>> },
    LoadTranscripts { meeting_id: Seq<char>, limit: int, offset: int },
    UpdateSpeaker { transcript_id: Seq<char>, speaker_id: Seq<char> },
    SaveMetadata { meeting_id: Seq<char>, metadata: Seq<char> },
}

impl View for Action {
    type V = ActionView;

    open spec fn view(&self) -> ActionView {
        match self {
            Action::LoadMeeting { meeting_id } => ActionView::LoadMeeting {
                meeting_id: meeting_id@,
            },
            Action::FindAudio { folder } => ActionView::FindAudio { folder: folder@ },
            Action::CreateTempDir => ActionView::CreateTempDir,
            Action::RunSidecar { folder, audio, hf_token } => ActionView::RunSidecar {
                folder: folder@,
                audio: audio@,
                hf_token: metadata::text_view(*hf_token),
            },
            Action::LoadTranscripts { meeting_id, limit, offset } => ActionView::LoadTranscripts {
                meeting_id: meeting_id@,
                limit: *limit as int,
                offset: *offset as int,
            },
            Action::UpdateSpeaker { transcript_id, speaker_id } => ActionView::UpdateSpeaker {
                transcript_id: transcript_id@,
                speaker_id: speaker_id@,
            },
            Action::SaveMetadata { meeting_id, metadata } => ActionView::SaveMetadata {
                meeting_id: meeting_id@,
                metadata: metadata@,
            },
        }
    }
}

/// What came of an action. A failure comes with its message.
#[derive(Debug)]
pub enum Event {
    Meeting(Result<Option<MeetingModel>, String>),
    /// The recording that was found.
    Audio(Result<AudioFile, String>),
    TempDir(Result<(), String>),
    /// The sidecar reports something.
    Message(String),
    Segments(Result<Vec<DiarizationSegment>, String>),
    Transcripts(Result<Vec<Transcript>, String>),
    /// Whether the transcript segment was there.
    Updated(Result<bool, String>),
    Saved(Result<(), String>),
}

/// What an event says.
pub enum EventView {
    Meeting(Result<Option<MeetingView>, Seq<char>>),
    Audio(Result<AudioFileView, Seq<char>>),
    TempDir(Result<(), Seq<char>>),
    Message(Seq<char>),
    Segments(Result<Seq<Speech>, Seq<char>>),
    Transcripts(Result<Seq<SegmentView>, Seq<char>>),
    Updated(Result<bool, Seq<char>>),
    Saved(Result<(), Seq<char>>),
}

/// What an outcome without a value says.
pub open spec fn done_view(r: Result<(), String>) -> Result<(), Seq<char>> {
    match r {
        Ok(()) => Ok(()),
        Err(e) => Err(e@),
    }
}

impl View for Event {
    type V = EventView;

    open spec fn view(&self) -> EventView {
        match self {
            Event::Meeting(Ok(m)) => EventView::Meeting(Ok(models::meeting_view(*m))),
            Event::Meeting(Err(e)) => EventView::Meeting(Err(e@)),
            Event::Audio(r) => EventView::Audio(audio::search_view(*r)),
            Event::TempDir(r) => EventView::TempDir(done_view(*r)),
            Event::Message(m) => EventView::Message(m@),
            Event::Segments(Ok(s)) => EventView::Segments(Ok(overlap::speeches(s@))),
            Event::Segments(Err(e)) => EventView::Segments(Err(e@)),
            Event::Transcripts(Ok(t)) => EventView::Transcripts(Ok(models::segments_view(t@))),
            Event::Transcripts(Err(e)) => EventView::Transcripts(Err(e@)),
            Event::Updated(Ok(b)) => EventView::Updated(Ok(*b)),
            Event::Updated(Err(e)) => EventView::Updated(Err(e@)),
            Event::Saved(r) => EventView::Saved(done_view(*r)),
        }
    }
}

/// Where a diarization stands, with what the frontend is told on the way
/// there.
#[derive(Debug)]
pub struct Standing {
    pub notice: Option<DiarizationProgress>,
    pub state: State,
}

/// Whether a diarization goes on.
#[derive(Debug)]
pub enum State {
    Continue(Diarization),
    Finished(Result<DiarizationResult, String>),
}

/// Where a diarization stands, with what the frontend is told on the way
/// there.
pub struct StandingView {
    pub notice: Option<NoticeView>,
    pub state: StateView,
}

/// Whether a diarization goes on.
pub enum StateView {
    Continue(DiarizationView),
    Finished(Result<ResultView, Seq<char>>),
}

impl View for State {
    type V = StateView;

    open spec fn view(&self) -> StateView {
        match self {
            State::Continue(d) => StateView::Continue(d@),
            State::Finished(Ok(r)) => StateView::Finished(Ok(r@)),
            State::Finished(Err(e)) => StateView::Finished(Err(e@)),
        }
    }
}

impl View for Standing {
    type V = StandingView;

    open spec fn view(&self) -> StandingView {
        StandingView {
            notice: match self.notice {
                Some(n) => Some(n@),
                None => None,
            },
            state: self.state@,
        }
    }
}

/// A diarization that ends with a message, of which the frontend is not told
/// on the way.
pub open spec fn failure(message: Seq<char>) -> StandingView {
    StandingView { notice: None, state: StateView::Finished(Err(message)) }
}

/// The transcript segments with their speakers.
pub open spec fn assigned(rows: Seq<SegmentView>, speeches: Seq<Speech>) -> Seq<
    (Seq<char>, Seq<char>),
> {
    rows.map_values(|t: SegmentView| (t.id, overlap::speaker_of(overlap::covered(t), speeches)))
}

/// The metadata that are saved: a name for each speaker.
pub open spec fn saved_metadata(speeches: Seq<Speech>) -> Seq<char> {
    json::written_document(metadata::speakers_document(labels::labels(labels::speakers(speeches))))
}

/// The stage after `done` of the assignments were handed to the database.
pub open spec fn after_updates(
    speeches: Seq<Speech>,
    assignments: Seq<(Seq<char>, Seq<char>)>,
    done: nat,
) -> StageView {
    if done < assignments.len() {
        StageView::UpdateSpeakers { speeches, assignments, done }
    } else {
        StageView::SaveMetadata {
            speaker_count: labels::speakers(speeches).len(),
            chunk_count: assignments.len(),
            metadata: saved_metadata(speeches),
        }
    }
}

/// Whether the metadata to be saved can be read again as the names of the
/// speakers.
pub open spec fn names_read_back(before: StageView, stage: StageView) -> bool {
    let speeches = match before {
        StageView::LoadTranscripts { speeches } => Some(speeches),
        StageView::UpdateSpeakers { speeches, .. } => Some(speeches),
        _ => None,
    };
    match (speeches, stage) {
        (Some(s), StageView::SaveMetadata { metadata, .. }) => json::read_document(metadata)
            == Some(metadata::speakers_document(labels::labels(labels::speakers(s)))),
        _ => true,
    }
}

/// The folder of a meeting, unless it is blank.
pub open spec fn folder_of(meeting: MeetingView) -> Option<Seq<char>> {
    match meeting.folder_path {
        Some(p) if !text::blank(p) => Some(p),
        _ => None,
    }
}

/// The message of a diarization that was completed.
pub open spec fn completed_message(speaker_count: nat, chunk_count: nat) -> Seq<char> {
    "Identified "@ + text::decimal_digits(speaker_count) + " speakers across "@
        + text::decimal_digits(chunk_count) + " segments"@
}

impl DiarizationView {
    /// Whether an assignment is left where one is to be handed on.
    pub open spec fn well_formed(self) -> bool {
        self.stage matches StageView::UpdateSpeakers { assignments, done, .. } ==> done
            < assignments.len()
    }

    /// What is to be done next.
    pub open spec fn action(self) -> ActionView {
        match self.stage {
            StageView::LoadMeeting => ActionView::LoadMeeting { meeting_id: self.meeting_id },
            StageView::FindAudio { folder } => ActionView::FindAudio { folder },
            StageView::CreateTempDir { .. } => ActionView::CreateTempDir,
            StageView::RunSidecar { folder, audio } => ActionView::RunSidecar {
                folder,
                audio,
                hf_token: match self.hf_token {
                    Some(t) if t.len() > 0 => Some(t),
                    _ => None,
                },
            },
            StageView::LoadTranscripts { .. } => ActionView::LoadTranscripts {
                meeting_id: self.meeting_id,
                limit: i64::MAX as int,
                offset: 0,
            },
            StageView::UpdateSpeakers { assignments, done, .. } => ActionView::UpdateSpeaker {
                transcript_id: assignments[done as int].0,
                speaker_id: assignments[done as int].1,
            },
            StageView::SaveMetadata { metadata, .. } => ActionView::SaveMetadata {
                meeting_id: self.meeting_id,
                metadata,
            },
        }
    }

    /// Whether an event is one that the action can bring.
    pub open spec fn expects(self, event: EventView) -> bool {
        match (self.stage, event) {
            (StageView::LoadMeeting, EventView::Meeting(_)) => true,
            (StageView::FindAudio { .. }, EventView::Audio(_)) => true,
            (StageView::CreateTempDir { .. }, EventView::TempDir(_)) => true,
            (StageView::RunSidecar { .. }, EventView::Message(_)) => true,
            (StageView::RunSidecar { .. }, EventView::Segments(_)) => true,
            (StageView::LoadTranscripts { .. }, EventView::Transcripts(_)) => true,
            (StageView::UpdateSpeakers { .. }, EventView::Updated(_)) => true,
            (StageView::SaveMetadata { .. }, EventView::Saved(_)) => true,
            _ => false,
        }
    }

    /// The diarization at another stage.
    pub open spec fn at(self, stage: StageView, notice: Option<NoticeView>) -> StandingView {
        StandingView {
            notice,
            state: StateView::Continue(DiarizationView { stage, ..self }),
        }
    }

    /// Where the diarization stands after an event that it expects.
    pub open spec fn next(self, event: EventView) -> StandingView {
        match (self.stage, event) {
            (_, EventView::Meeting(Err(e))) => failure("Failed to load meeting: "@ + e),
            (_, EventView::Meeting(Ok(None))) => failure("Meeting not found: "@ + self.meeting_id),
            (_, EventView::Meeting(Ok(Some(m)))) => match folder_of(m) {
                Some(folder) => self.at(StageView::FindAudio { folder }, None),
                None => failure(
                    "No recording folder found for this meeting. The meeting may not have been recorded."@,
                ),
            },
            (_, EventView::Audio(Err(e))) => failure("No audio file found: "@ + e),
            (StageView::FindAudio { folder }, EventView::Audio(Ok(audio))) => self.at(
                StageView::CreateTempDir { folder, audio },
                None,
            ),
            (_, EventView::TempDir(Err(e))) => failure("Failed to create temp dir: "@ + e),
            (StageView::CreateTempDir { folder, audio }, EventView::TempDir(Ok(_))) => self.at(
                StageView::RunSidecar { folder, audio },
                Some(notice("processing"@, "Starting speaker identification..."@)),
            ),
            (stage, EventView::Message(m)) => self.at(stage, Some(notice("processing"@, m))),
            (_, EventView::Segments(Err(e))) => StandingView {
                notice: Some(notice("error"@, "Diarization failed: "@ + e)),
                state: StateView::Finished(Err("Diarization failed: "@ + e)),
            },
            (_, EventView::Segments(Ok(speeches))) => if speeches.len() == 0 {
                StandingView {
                    notice: Some(
                        notice("error"@, "No speech segments detected in the recording."@),
                    ),
                    state: StateView::Finished(Err("No speech segments detected"@)),
                }
            } else {
                self.at(StageView::LoadTranscripts { speeches }, None)
            },
            (_, EventView::Transcripts(Err(e))) => failure("Failed to load transcripts: "@ + e),
            (StageView::LoadTranscripts { speeches }, EventView::Transcripts(Ok(rows))) => self.at(
                after_updates(speeches, assigned(rows, speeches), 0),
                Some(notice("processing"@, "Assigning speakers to transcript segments..."@)),
            ),
            (
                StageView::UpdateSpeakers { speeches, assignments, done },
                EventView::Updated(_),
            ) => self.at(after_updates(speeches, assignments, done + 1), None),
            (_, EventView::Saved(Err(e))) => failure("Failed to save meeting metadata: "@ + e),
            (
                StageView::SaveMetadata { speaker_count, chunk_count, .. },
                EventView::Saved(Ok(_)),
            ) => StandingView {
                notice: Some(
                    NoticeView {
                        status: "completed"@,
                        message: Some(completed_message(speaker_count, chunk_count)),
                        speaker_count: Some(speaker_count),
                        chunk_count: Some(chunk_count),
                    },
                ),
                state: StateView::Finished(
                    Ok(
                        ResultView {
                            status: "completed"@,
                            speaker_count,
                            chunk_count,
                            error: None,
                        },
                    ),
                ),
            },
            _ => self.at(self.stage, None),
        }
    }
}

/// Diarize a meeting's audio recording using WhisperX.
///
/// The recording is found by the meeting's folder and run through the sidecar;
/// the transcript segments get their speakers by the time that they share with
/// the sidecar's segments, and the speakers get names in the meeting's
/// metadata.
pub fn api_diarize_meeting(meeting_id: String, hf_token: Option<String>) -> (r: Diarization)
    ensures
        r@ == (DiarizationView {
            meeting_id: meeting_id@,
            hf_token: metadata::text_view(hf_token),
            stage: StageView::LoadMeeting,
        }),
        r@.well_formed(),
{
    Diarization { meeting_id, hf_token, stage: Stage::LoadMeeting }
}

fn failed(prefix: &str, e: &String) -> (r: Standing)
    ensures
        r@ == failure(prefix@ + e@),
{
    Standing { notice: None, state: State::Finished(Err(text::followed_by(prefix, e.as_str()))) }
}

/// The stretches of the recording that transcript segments cover.
fn transcript_ranges(rows: &Vec<Transcript>) -> (r: Vec<(String, Seconds, Seconds)>)
    ensures
        r@.len() == rows@.len(),
        forall|i: int|
            0 <= i < r@.len() ==> overlap::stretch(#[trigger] r@[i]) == overlap::covered(
                rows@[i]@,
            ),
{
    let mut r: Vec<(String, Seconds, Seconds)> = Vec::new();
    let mut i: usize = 0;
    while i < rows.len()
        invariant
            i <= rows@.len(),
            r@.len() == i,
            forall|j: int|
                0 <= j < r@.len() ==> overlap::stretch(#[trigger] r@[j]) == overlap::covered(
                    rows@[j]@,
                ),
        decreases rows.len() - i,
    {
        r.push(overlap::transcript_range(&rows[i]));
        i = i + 1;
    }
    r
}

/// The transcript segments with their speakers.
fn assign(rows: &Vec<Transcript>, segments: &Vec<DiarizationSegment>) -> (r: Vec<
    (String, String),
>)
    ensures
        assignments_view(r@) == assigned(
            models::segments_view(rows@),
            overlap::speeches(segments@),
        ),
{
    let ranges = transcript_ranges(rows);
    let r = overlap::assign_speakers_by_overlap(segments.as_slice(), ranges.as_slice());
    proof {
        let all = overlap::speeches(segments@);
        let views = models::segments_view(rows@);
        assert forall|i: int| 0 <= i < r@.len() implies assignments_view(r@)[i] == assigned(
            views,
            all,
        )[i] by {
            assert(r@[i].0@ == ranges@[i].0@);
            assert(overlap::stretch(ranges@[i]) == overlap::covered(views[i]));
            assert(overlap::covered(views[i]).id == views[i].id);
        }
        assert(assignments_view(r@) =~= assigned(views, all));
    }
    r
}

/// The message of a diarization that was completed.
fn completion(speaker_count: usize, chunk_count: usize) -> (r: String)
    ensures
        r@ == completed_message(speaker_count as nat, chunk_count as nat),
{
    let mut m = text::followed_by("Identified ", text::decimal(speaker_count as u64).as_str());
    m.append(" speakers across ");
    m.append(text::decimal(chunk_count as u64).as_str());
    m.append(" segments");
    m
}

/// The stage after `done` of the assignments were handed to the database.
fn go_on_updating(
    segments: Vec<DiarizationSegment>,
    assignments: Vec<(String, String)>,
    done: usize,
) -> (r: Stage)
    requires
        done <= assignments@.len(),
    ensures
        r@ == after_updates(
            overlap::speeches(segments@),
            assignments_view(assignments@),
            done as nat,
        ),
        names_read_back(
            (StageView::LoadTranscripts { speeches: overlap::speeches(segments@) }),
            r@,
        ),
{
    if done < assignments.len() {
        Stage::UpdateSpeakers { segments, assignments, done }
    } else {
        let unique_speakers = labels::unique_speakers(&segments);
        proof {
            labels::speakers_are_those_who_speak(overlap::speeches(segments@));
            assert(text::texts(unique_speakers@).len() == unique_speakers@.len());
        }
        let speaker_map = labels::speaker_labels(&unique_speakers);
        let metadata = metadata::speakers_metadata(&speaker_map);
        Stage::SaveMetadata {
            speaker_count: unique_speakers.len(),
            chunk_count: assignments.len(),
            metadata,
        }
    }
}

impl Diarization {
    /// What is to be done next.
    pub fn action(&self) -> (r: Action)
        requires
            self@.well_formed(),
        ensures
            r@ == self@.action(),
    {
        match &self.stage {
            Stage::LoadMeeting => Action::LoadMeeting { meeting_id: self.meeting_id.clone() },
            Stage::FindAudio { folder } => Action::FindAudio { folder: folder.clone() },
            Stage::CreateTempDir { .. } => Action::CreateTempDir,
            Stage::RunSidecar { folder, audio } => {
                let hf_token: Option<String> = match &self.hf_token {
                    Some(t) => if t.as_str().unicode_len() > 0 {
                        Some(t.clone())
                    } else {
                        None
                    },
                    None => None,
                };
                Action::RunSidecar { folder: folder.clone(), audio: audio.clone(), hf_token }
            },
            Stage::LoadTranscripts { .. } => Action::LoadTranscripts {
                meeting_id: self.meeting_id.clone(),
                limit: i64::MAX,
                offset: 0,
            },
            Stage::UpdateSpeakers { assignments, done, .. } => {
                proof {
                    assert(assignments_view(assignments@)[*done as int] == (
                        assignments@[*done as int].0@,
                        assignments@[*done as int].1@,
                    ));
                }
                Action::UpdateSpeaker {
                    transcript_id: assignments[*done].0.clone(),
                    speaker_id: assignments[*done].1.clone(),
                }
            },
            Stage::SaveMetadata { metadata, .. } => Action::SaveMetadata {
                meeting_id: self.meeting_id.clone(),
                metadata: metadata.clone(),
            },
        }
    }

    /// Whether an event is one that the action can bring.
    pub fn accepts(&self, event: &Event) -> (r: bool)
        ensures
            r == self@.expects(event@),
    {
        match (&self.stage, event) {
            (Stage::LoadMeeting, Event::Meeting(_)) => true,
            (Stage::FindAudio { .. }, Event::Audio(_)) => true,
            (Stage::CreateTempDir { .. }, Event::TempDir(_)) => true,
            (Stage::RunSidecar { .. }, Event::Message(_)) => true,
            (Stage::RunSidecar { .. }, Event::Segments(_)) => true,
            (Stage::LoadTranscripts { .. }, Event::Transcripts(_)) => true,
            (Stage::UpdateSpeakers { .. }, Event::Updated(_)) => true,
            (Stage::SaveMetadata { .. }, Event::Saved(_)) => true,
            _ => false,
        }
    }

    /// The diarization at another stage.
    fn go_on(self, stage: Stage, notice: Option<DiarizationProgress>) -> (r: Standing)
        ensures
            r@ == self@.at(
                stage@,
                match notice {
                    Some(n) => Some(n@),
                    None => None,
                },
            ),
    {
        Standing { notice, state: State::Continue(Diarization { stage, ..self }) }
    }

    /// Where the diarization stands once the meeting was loaded.
    fn step_meeting(self, meeting: Option<MeetingModel>) -> (r: Standing)
        ensures
            r@ == self@.next(EventView::Meeting(Ok(models::meeting_view(meeting)))),
            self.stage is LoadMeeting ==> (r@.state matches StateView::Continue(d)
                ==> d.well_formed()),
    {
        match meeting {
            Some(m) => {
                let folder: Option<String> = match m.folder_path {
                    Some(p) => if text::is_blank(p.as_str()) {
                        None
                    } else {
                        Some(p)
                    },
                    None => None,
                };
                match folder {
                    Some(folder) => self.go_on(Stage::FindAudio { folder }, None),
                    None => Standing {
                        notice: None,
                        state: State::Finished(
                            Err(
                                "No recording folder found for this meeting. The meeting may not have been recorded.".to_owned(),
                            ),
                        ),
                    },
                }
            },
            None => failed("Meeting not found: ", &self.meeting_id),
        }
    }

    /// Where the diarization stands once the sidecar has ended.
    fn step_segments(self, segments: Result<Vec<DiarizationSegment>, String>) -> (r: Standing)
        ensures
            r@ == self@.next(Event::Segments(segments)@),
            r@.state matches StateView::Continue(d) ==> d.well_formed(),
    {
        match segments {
            Ok(segments) => {
                proof {
                    assert(overlap::speeches(segments@).len() == segments@.len());
                }
                if segments.len() == 0 {
                    Standing {
                        notice: Some(
                            emit_progress(
                                "error",
                                "No speech segments detected in the recording.",
                                None,
                                None,
                            ),
                        ),
                        state: State::Finished(Err("No speech segments detected".to_owned())),
                    }
                } else {
                    self.go_on(Stage::LoadTranscripts { segments }, None)
                }
            },
            Err(e) => {
                let msg = text::followed_by("Diarization failed: ", e.as_str());
                Standing {
                    notice: Some(emit_progress("error", msg.as_str(), None, None)),
                    state: State::Finished(Err(msg)),
                }
            },
        }
    }

    /// Where the diarization stands after an event.
    pub fn step(self, event: Event) -> (r: Standing)
        requires
            self@.well_formed(),
            self@.expects(event@),
        ensures
            r@ == self@.next(event@),
            r@.state matches StateView::Continue(d) ==> d.well_formed() && names_read_back(
                self@.stage,
                d.stage,
            ),
    {
        let Diarization { meeting_id, hf_token, stage } = self;
        match (stage, event) {
            (stage, Event::Meeting(Ok(meeting))) => {
                let d = Diarization { meeting_id, hf_token, stage };
                d.step_meeting(meeting)
            },
            (_, Event::Meeting(Err(e))) => failed("Failed to load meeting: ", &e),
            (Stage::FindAudio { folder }, Event::Audio(Ok(audio))) => {
                let stage = Stage::CreateTempDir { folder, audio };
                Standing {
                    notice: None,
                    state: State::Continue(Diarization { meeting_id, hf_token, stage }),
                }
            },
            (_, Event::Audio(Err(e))) => failed("No audio file found: ", &e),
            (Stage::CreateTempDir { folder, audio }, Event::TempDir(Ok(_))) => {
                let stage = Stage::RunSidecar { folder, audio };
                let n = emit_progress(
                    "processing",
                    "Starting speaker identification...",
                    None,
                    None,
                );
                Standing {
                    notice: Some(n),
                    state: State::Continue(Diarization { meeting_id, hf_token, stage }),
                }
            },
            (_, Event::TempDir(Err(e))) => failed("Failed to create temp dir: ", &e),
            (stage, Event::Message(m)) => {
                let n = emit_progress("processing", m.as_str(), None, None);
                Standing {
                    notice: Some(n),
                    state: State::Continue(Diarization { meeting_id, hf_token, stage }),
                }
            },
            (stage, Event::Segments(segments)) => {
                let d = Diarization { meeting_id, hf_token, stage };
                d.step_segments(segments)
            },
            (Stage::LoadTranscripts { segments }, Event::Transcripts(Ok(rows))) => {
                let n = emit_progress(
                    "processing",
                    "Assigning speakers to transcript segments...",
                    None,
                    None,
                );
                let assignments = assign(&rows, &segments);
                let stage = go_on_updating(segments, assignments, 0);
                Standing {
                    notice: Some(n),
                    state: State::Continue(Diarization { meeting_id, hf_token, stage }),
                }
            },
            (_, Event::Transcripts(Err(e))) => failed("Failed to load transcripts: ", &e),
            (Stage::UpdateSpeakers { segments, assignments, done }, Event::Updated(_)) => {
                proof {
                    assert(assignments_view(assignments@).len() == assignments@.len());
                    assert(done < assignments.len());
                }
                let stage = go_on_updating(segments, assignments, done + 1);
                Standing {
                    notice: None,
                    state: State::Continue(Diarization { meeting_id, hf_token, stage }),
                }
            },
            (
                Stage::SaveMetadata { speaker_count, chunk_count, .. },
                Event::Saved(Ok(_)),
            ) => {
                let message = completion(speaker_count, chunk_count);
                Standing {
                    notice: Some(
                        emit_progress(
                            "completed",
                            message.as_str(),
                            Some(speaker_count),
                            Some(chunk_count),
                        ),
                    ),
                    state: State::Finished(
                        Ok(
                            DiarizationResult {
                                status: "completed".to_owned(),
                                speaker_count,
                                chunk_count,
                                error: None,
                            },
                        ),
                    ),
                }
            },
            (_, Event::Saved(Err(e))) => failed("Failed to save meeting metadata: ", &e),
            (stage, _) => {
                let d = Diarization { meeting_id, hf_token, stage };
                Standing { notice: None, state: State::Continue(d) }
            },
        }
    }
}

/// Save custom speaker names for a meeting.
///
/// The names are keyed by speaker (e.g., "SPEAKER_00"). Nothing is saved where
/// the text of the metadata would be too long to be read again.
pub fn api_save_speaker_names(meeting_id: &str, speakers: &SpeakerNames) -> (r: Option<Progress>)
    ensures
        ({
            let saved = json::written_document(metadata::speakers_document(speakers@));
            &&& r is Some <==> json::readable_length(saved)
            &&& r matches Some(p) ==> p@ == ProgressView::Continue(
                (TaskView::LoadMetadata { meeting_id: meeting_id@, metadata_json: saved }),
            ) && p@->Continue_0.well_formed()
            &&& json::read_document(saved) == Some(metadata::speakers_document(speakers@))
        }),
{
    let metadata = metadata::speakers_metadata(speakers);
    if json::is_readable(metadata.as_str()) {
        Some(MeetingsRepository::save_meeting_metadata(meeting_id, metadata.as_str()))
    } else {
        None
    }
}

/// What saving speaker names gives: its failure with a message of its own.
pub fn speaker_names_saved(outcome: Result<(), String>) -> (r: Result<(), String>)
    ensures
        done_view(r) == match outcome {
            Ok(_) => Ok(()),
            Err(e) => Err("Failed to save speaker names: "@ + e@),
        },
{
    match outcome {
        Ok(_) => Ok(()),
        Err(e) => Err(text::followed_by("Failed to save speaker names: ", e.as_str())),
    }
}

} // verus!
