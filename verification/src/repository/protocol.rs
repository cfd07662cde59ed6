//! What is asked of the database, what it replies, and how far an operation
//! has come.

use crate::metadata;
use crate::models::{
    self, DetailsView, MeetingDetails, MeetingModel, MeetingView, SegmentView, Transcript,
};
use vstd::prelude::*;

verus! {

/// A value for a placeholder of a statement.
#[derive(Debug)]
pub enum Bind {
    Text(String),
    Integer(i64),
    /// The time at which the statement is run, without a time zone.
    NaiveUtcNow,
    /// The time at which the statement is run, with the zone UTC.
    UtcNow,
}

/// What a value for a placeholder says.
pub enum BindView {
    Text(Seq<char>),
    Integer(int),
    NaiveUtcNow,
    UtcNow,
}

impl View for Bind {
    type V = BindView;

    open spec fn view(&self) -> BindView {
        match self {
            Bind::Text(s) => BindView::Text(s@),
            Bind::Integer(n) => BindView::Integer(*n as int),
            Bind::NaiveUtcNow => BindView::NaiveUtcNow,
            Bind::UtcNow => BindView::UtcNow,
        }
    }
}

/// An SQL statement with the values for its placeholders, in order.
#[derive(Debug)]
pub struct Statement {
    pub sql: String,
    pub binds: Vec<Bind>,
}

/// What a statement says.
pub struct StatementView {
    pub sql: Seq<char>,
    pub binds: Seq<BindView>,
}

impl View for Statement {
    type V = StatementView;

    open spec fn view(&self) -> StatementView {
        StatementView { sql: self.sql@, binds: self.binds@.map_values(|b: Bind| b@) }
    }
}

/// Something to ask of the database.
#[derive(Debug)]
pub enum Action {
    /// Take a connection out of the pool.
    Acquire,
    /// Begin a transaction: on the connection that was taken, if one was.
    Begin,
    /// Fetch all meetings.
    FetchMeetings(Statement),
    /// Fetch one meeting or none.
    FetchMeeting(Statement),
    /// Ask whether there is a row.
    FetchExistence(Statement),
    /// Fetch the one number that the statement counts.
    FetchCount(Statement),
    /// Fetch all transcripts.
    FetchTranscripts(Statement),
    /// Fetch the metadata column of one row or none.
    FetchMetadata(Statement),
    /// Run a statement that changes rows.
    Execute(Statement),
    /// Commit the transaction.
    Commit,
    /// Roll the transaction back.
    Rollback,
}

/// What an action asks.
pub enum ActionView {
    Acquire,
    Begin,
    FetchMeetings(StatementView),
    FetchMeeting(StatementView),
    FetchExistence(StatementView),
    FetchCount(StatementView),
    FetchTranscripts(StatementView),
    FetchMetadata(StatementView),
    Execute(StatementView),
    Commit,
    Rollback,
}

impl View for Action {
    type V = ActionView;

    open spec fn view(&self) -> ActionView {
        match self {
            Action::Acquire => ActionView::Acquire,
            Action::Begin => ActionView::Begin,
            Action::FetchMeetings(s) => ActionView::FetchMeetings(s@),
            Action::FetchMeeting(s) => ActionView::FetchMeeting(s@),
            Action::FetchExistence(s) => ActionView::FetchExistence(s@),
            Action::FetchCount(s) => ActionView::FetchCount(s@),
            Action::FetchTranscripts(s) => ActionView::FetchTranscripts(s@),
            Action::FetchMetadata(s) => ActionView::FetchMetadata(s@),
            Action::Execute(s) => ActionView::Execute(s@),
            Action::Commit => ActionView::Commit,
            Action::Rollback => ActionView::Rollback,
        }
    }
}

/// The database's reply to an action.
#[derive(Debug)]
pub enum Reply {
    /// The action failed.
    Failed,
    /// The connection, the transaction, the commit or the rollback is done.
    Done,
    Meetings(Vec<MeetingModel>),
    Meeting(Option<MeetingModel>),
    Existence(bool),
    Count(i64),
    Transcripts(Vec<Transcript>),
    Metadata(Option<Option<String>>),
    /// The number of rows that a statement changed.
    Affected(u64),
}

/// What a reply says.
pub enum ReplyView {
    Failed,
    Done,
    Meetings(Seq<MeetingView>),
    Meeting(Option<MeetingView>),
    Existence(bool),
    Count(int),
    Transcripts(Seq<SegmentView>),
    Metadata(Option<Option<Seq<char>>>),
    Affected(nat),
}

/// What a metadata column says, if there is a row.
pub open spec fn column_view(row: Option<Option<String>>) -> Option<Option<Seq<char>>> {
    match row {
        Some(column) => Some(metadata::text_view(column)),
        None => None,
    }
}

impl View for Reply {
    type V = ReplyView;

    open spec fn view(&self) -> ReplyView {
        match self {
            Reply::Failed => ReplyView::Failed,
            Reply::Done => ReplyView::Done,
            Reply::Meetings(rows) => ReplyView::Meetings(models::meetings_view(rows@)),
            Reply::Meeting(row) => ReplyView::Meeting(models::meeting_view(*row)),
            Reply::Existence(b) => ReplyView::Existence(*b),
            Reply::Count(n) => ReplyView::Count(*n as int),
            Reply::Transcripts(rows) => ReplyView::Transcripts(models::segments_view(rows@)),
            Reply::Metadata(row) => ReplyView::Metadata(column_view(*row)),
            Reply::Affected(n) => ReplyView::Affected(*n as nat),
        }
    }
}

/// Whether a reply is one that the action can get.
pub open spec fn fits(action: ActionView, reply: ReplyView) -> bool {
    match (action, reply) {
        (_, ReplyView::Failed) => true,
        (ActionView::Acquire, ReplyView::Done) => true,
        (ActionView::Begin, ReplyView::Done) => true,
        (ActionView::Commit, ReplyView::Done) => true,
        (ActionView::Rollback, ReplyView::Done) => true,
        (ActionView::FetchMeetings(_), ReplyView::Meetings(_)) => true,
        (ActionView::FetchMeeting(_), ReplyView::Meeting(_)) => true,
        (ActionView::FetchExistence(_), ReplyView::Existence(_)) => true,
        (ActionView::FetchCount(_), ReplyView::Count(_)) => true,
        (ActionView::FetchTranscripts(_), ReplyView::Transcripts(_)) => true,
        (ActionView::FetchMetadata(_), ReplyView::Metadata(_)) => true,
        (ActionView::Execute(_), ReplyView::Affected(_)) => true,
        _ => false,
    }
}

impl Action {
    /// Whether a reply is one that the action can get.
    pub fn accepts(&self, reply: &Reply) -> (r: bool)
        ensures
            r == fits(self@, reply@),
    {
        match (self, reply) {
            (_, Reply::Failed) => true,
            (Action::Acquire, Reply::Done) => true,
            (Action::Begin, Reply::Done) => true,
            (Action::Commit, Reply::Done) => true,
            (Action::Rollback, Reply::Done) => true,
            (Action::FetchMeetings(_), Reply::Meetings(_)) => true,
            (Action::FetchMeeting(_), Reply::Meeting(_)) => true,
            (Action::FetchExistence(_), Reply::Existence(_)) => true,
            (Action::FetchCount(_), Reply::Count(_)) => true,
            (Action::FetchTranscripts(_), Reply::Transcripts(_)) => true,
            (Action::FetchMetadata(_), Reply::Metadata(_)) => true,
            (Action::Execute(_), Reply::Affected(_)) => true,
            _ => false,
        }
    }
}

/// Why an operation on the table of meetings came to nothing.
#[derive(Clone, Copy, Debug, PartialEq, Eq, Structural)]
pub enum RepositoryError {
    /// The meeting id was blank, so the database was not asked.
    EmptyMeetingId,
    /// There is no such meeting.
    RowNotFound,
    /// The database failed: the first failure that it reported.
    Database,
}

/// How far a deletion has come.
#[derive(Clone, Copy, Debug, PartialEq, Eq, Structural)]
pub enum DeleteStage {
    Acquire,
    Begin,
    Lookup,
    TranscriptChunks,
    SummaryProcesses,
    MeetingNotes,
    Transcripts,
    Meeting,
    Commit,
    /// Nothing was deleted.
    Rollback,
    /// A statement failed.
    RollbackFailed,
}

/// How far loading a meeting has come.
#[derive(Debug)]
pub enum DetailsStage {
    Acquire,
    Begin,
    Lookup,
    /// There is no such meeting.
    Rollback,
    Transcripts(MeetingModel),
    Commit(MeetingModel, Vec<Transcript>),
}

/// How far loading a meeting has come.
pub enum DetailsStageView {
    Acquire,
    Begin,
    Lookup,
    Rollback,
    Transcripts(MeetingView),
    Commit(MeetingView, Seq<SegmentView>),
}

impl View for DetailsStage {
    type V = DetailsStageView;

    open spec fn view(&self) -> DetailsStageView {
        match self {
            DetailsStage::Acquire => DetailsStageView::Acquire,
            DetailsStage::Begin => DetailsStageView::Begin,
            DetailsStage::Lookup => DetailsStageView::Lookup,
            DetailsStage::Rollback => DetailsStageView::Rollback,
            DetailsStage::Transcripts(m) => DetailsStageView::Transcripts(m@),
            DetailsStage::Commit(m, rows) => DetailsStageView::Commit(
                m@,
                models::segments_view(rows@),
            ),
        }
    }
}

/// How far a change of title has come.
#[derive(Clone, Copy, Debug, PartialEq, Eq, Structural)]
pub enum TitleStage {
    Acquire,
    Begin,
    Update,
    Commit,
    /// There is no such meeting.
    Rollback,
}

/// How far a change of name has come.
#[derive(Clone, Copy, Debug, PartialEq, Eq, Structural)]
pub enum NameStage {
    Begin,
    Update,
    UpdateChunks,
    Commit,
    /// There is no such meeting.
    Rollback,
}

/// An operation on the table of meetings that is under way.
#[allow(inconsistent_fields)]
#[derive(Debug)]
pub enum Task {
    Meetings,
    Delete { meeting_id: String, stage: DeleteStage },
    Details { meeting_id: String, stage: DetailsStage },
    Metadata { meeting_id: String },
    CountTranscripts { meeting_id: String, limit: i64, offset: i64 },
    PageOfTranscripts { meeting_id: String, limit: i64, offset: i64, total: i64 },
    Title { meeting_id: String, new_title: String, stage: TitleStage },
    Speaker { transcript_id: String, speaker_id: String },
    LoadMetadata { meeting_id: String, metadata_json: String },
    StoreMetadata { meeting_id: String, metadata: String },
    MetadataJson { meeting_id: String },
    Name { meeting_id: String, new_title: String, stage: NameStage },
}

/// What an operation under way is about.
#[allow(inconsistent_fields)]
pub enum TaskView {
    Meetings,
    Delete { meeting_id: Seq<char>, stage: DeleteStage },
    Details { meeting_id: Seq<char>, stage: DetailsStageView },
    Metadata { meeting_id: Seq<char> },
    CountTranscripts { meeting_id: Seq<char>, limit: int, offset: int },
    PageOfTranscripts { meeting_id: Seq<char>, limit: int, offset: int, total: int },
    Title { meeting_id: Seq<char>, new_title: Seq<char>, stage: TitleStage },
    Speaker { transcript_id: Seq<char>, speaker_id: Seq<char> },
    LoadMetadata { meeting_id: Seq<char>, metadata_json: Seq<char> },
    StoreMetadata { meeting_id: Seq<char>, metadata: Seq<char> },
    MetadataJson { meeting_id: Seq<char> },
    Name { meeting_id: Seq<char>, new_title: Seq<char>, stage: NameStage },
}

impl View for Task {
    type V = TaskView;

    open spec fn view(&self) -> TaskView {
        match self {
            Task::Meetings => TaskView::Meetings,
            Task::Delete { meeting_id, stage } => TaskView::Delete {
                meeting_id: meeting_id@,
                stage: *stage,
            },
            Task::Details { meeting_id, stage } => TaskView::Details {
                meeting_id: meeting_id@,
                stage: stage@,
            },
            Task::Metadata { meeting_id } => TaskView::Metadata { meeting_id: meeting_id@ },
            Task::CountTranscripts { meeting_id, limit, offset } => TaskView::CountTranscripts {
                meeting_id: meeting_id@,
                limit: *limit as int,
                offset: *offset as int,
            },
            Task::PageOfTranscripts {
                meeting_id,
                limit,
                offset,
                total,
            } => TaskView::PageOfTranscripts {
                meeting_id: meeting_id@,
                limit: *limit as int,
                offset: *offset as int,
                total: *total as int,
            },
            Task::Title { meeting_id, new_title, stage } => TaskView::Title {
                meeting_id: meeting_id@,
                new_title: new_title@,
                stage: *stage,
            },
            Task::Speaker { transcript_id, speaker_id } => TaskView::Speaker {
                transcript_id: transcript_id@,
                speaker_id: speaker_id@,
            },
            Task::LoadMetadata { meeting_id, metadata_json } => TaskView::LoadMetadata {
                meeting_id: meeting_id@,
                metadata_json: metadata_json@,
            },
            Task::StoreMetadata { meeting_id, metadata } => TaskView::StoreMetadata {
                meeting_id: meeting_id@,
                metadata: metadata@,
            },
            Task::MetadataJson { meeting_id } => TaskView::MetadataJson { meeting_id: meeting_id@ },
            Task::Name { meeting_id, new_title, stage } => TaskView::Name {
                meeting_id: meeting_id@,
                new_title: new_title@,
                stage: *stage,
            },
        }
    }
}

/// What an operation that succeeded gives.
#[derive(Debug)]
pub enum Outcome {
    Meetings(Vec<MeetingModel>),
    /// Whether a row was changed or deleted.
    Changed(bool),
    Details(Option<MeetingDetails>),
    Meeting(Option<MeetingModel>),
    /// Transcripts, and how many the meeting has in all.
    Transcripts(Vec<Transcript>, i64),
    Saved,
    MetadataJson(Option<String>),
}

/// What the outcome of an operation says.
pub enum OutcomeView {
    Meetings(Seq<MeetingView>),
    Changed(bool),
    Details(Option<DetailsView>),
    Meeting(Option<MeetingView>),
    Transcripts(Seq<SegmentView>, int),
    Saved,
    MetadataJson(Option<Seq<char>>),
}

impl View for Outcome {
    type V = OutcomeView;

    open spec fn view(&self) -> OutcomeView {
        match self {
            Outcome::Meetings(rows) => OutcomeView::Meetings(models::meetings_view(rows@)),
            Outcome::Changed(b) => OutcomeView::Changed(*b),
            Outcome::Details(d) => OutcomeView::Details(
                match d {
                    Some(d) => Some(d@),
                    None => None,
                },
            ),
            Outcome::Meeting(row) => OutcomeView::Meeting(models::meeting_view(*row)),
            Outcome::Transcripts(rows, total) => OutcomeView::Transcripts(
                models::segments_view(rows@),
                *total as int,
            ),
            Outcome::Saved => OutcomeView::Saved,
            Outcome::MetadataJson(t) => OutcomeView::MetadataJson(metadata::text_view(*t)),
        }
    }
}

/// Where an operation stands.
#[derive(Debug)]
pub enum Progress {
    Continue(Task),
    Finished(Result<Outcome, RepositoryError>),
}

/// Where an operation stands.
pub enum ProgressView {
    Continue(TaskView),
    Finished(Result<OutcomeView, RepositoryError>),
}

impl View for Progress {
    type V = ProgressView;

    open spec fn view(&self) -> ProgressView {
        match self {
            Progress::Continue(t) => ProgressView::Continue(t@),
            Progress::Finished(Ok(o)) => ProgressView::Finished(Ok(o@)),
            Progress::Finished(Err(e)) => ProgressView::Finished(Err(*e)),
        }
    }
}

/// Replies are seen as they are: all rows, in their order, and every number.
pub proof fn replies_are_seen_whole(
    meetings: Vec<MeetingModel>,
    meeting: Option<MeetingModel>,
    transcripts: Vec<Transcript>,
    metadata: Option<Option<String>>,
    there: bool,
    count: i64,
    affected: u64,
)
    ensures
        Reply::Meetings(meetings)@ == ReplyView::Meetings(models::meetings_view(meetings@)),
        Reply::Meeting(meeting)@ == ReplyView::Meeting(models::meeting_view(meeting)),
        Reply::Transcripts(transcripts)@ == ReplyView::Transcripts(
            models::segments_view(transcripts@),
        ),
        metadata is None ==> Reply::Metadata(metadata)@ == ReplyView::Metadata(None),
        metadata matches Some(None) ==> Reply::Metadata(metadata)@ == ReplyView::Metadata(
            Some(None),
        ),
        metadata matches Some(Some(t)) ==> Reply::Metadata(metadata)@ == ReplyView::Metadata(
            Some(Some(t@)),
        ),
        Reply::Existence(there)@ == ReplyView::Existence(there),
        Reply::Count(count)@ == ReplyView::Count(count as int),
        Reply::Affected(affected)@ == ReplyView::Affected(affected as nat),
        Reply::Failed@ == ReplyView::Failed,
        Reply::Done@ == ReplyView::Done,
{
}

/// Outcomes are seen as they are: all rows, in their order, and every number.
pub proof fn outcomes_are_seen_whole(
    meetings: Vec<MeetingModel>,
    meeting: Option<MeetingModel>,
    transcripts: Vec<Transcript>,
    total: i64,
    changed: bool,
    details: MeetingDetails,
    metadata: String,
)
    ensures
        Outcome::Meetings(meetings)@ == OutcomeView::Meetings(models::meetings_view(meetings@)),
        Outcome::Meeting(meeting)@ == OutcomeView::Meeting(models::meeting_view(meeting)),
        Outcome::Transcripts(transcripts, total)@ == OutcomeView::Transcripts(
            models::segments_view(transcripts@),
            total as int,
        ),
        Outcome::Changed(changed)@ == OutcomeView::Changed(changed),
        Outcome::Details(Some(details))@ == OutcomeView::Details(Some(details@)),
        Outcome::Details(None)@ == OutcomeView::Details(None),
        Outcome::MetadataJson(Some(metadata))@ == OutcomeView::MetadataJson(Some(metadata@)),
        Outcome::MetadataJson(None)@ == OutcomeView::MetadataJson(None),
        Outcome::Saved@ == OutcomeView::Saved,
{
}

/// Statements are seen as they are: their text and every value, in order.
pub proof fn statements_are_seen_whole(s: Statement, text: String, n: i64)
    ensures
        s@.sql == s.sql@,
        s@.binds.len() == s.binds@.len(),
        forall|i: int| 0 <= i < s.binds@.len() ==> #[trigger] s@.binds[i] == s.binds@[i]@,
        Bind::Text(text)@ == BindView::Text(text@),
        Bind::Integer(n)@ == BindView::Integer(n as int),
        Bind::NaiveUtcNow@ == BindView::NaiveUtcNow,
        Bind::UtcNow@ == BindView::UtcNow,
        Action::FetchMeetings(s)@ == ActionView::FetchMeetings(s@),
        Action::FetchMeeting(s)@ == ActionView::FetchMeeting(s@),
        Action::FetchExistence(s)@ == ActionView::FetchExistence(s@),
        Action::FetchCount(s)@ == ActionView::FetchCount(s@),
        Action::FetchTranscripts(s)@ == ActionView::FetchTranscripts(s@),
        Action::FetchMetadata(s)@ == ActionView::FetchMetadata(s@),
        Action::Execute(s)@ == ActionView::Execute(s@),
{
}

/// An action gets the reply of its own kind, or fails.
pub proof fn replies_are_of_the_kind_that_was_asked_for(s: StatementView, reply: ReplyView)
    ensures
        fits(ActionView::Execute(s), reply) <==> reply is Affected || reply is Failed,
        fits(ActionView::FetchMeetings(s), reply) <==> reply is Meetings || reply is Failed,
        fits(ActionView::FetchMeeting(s), reply) <==> reply is Meeting || reply is Failed,
        fits(ActionView::FetchExistence(s), reply) <==> reply is Existence || reply is Failed,
        fits(ActionView::FetchCount(s), reply) <==> reply is Count || reply is Failed,
        fits(ActionView::FetchTranscripts(s), reply) <==> reply is Transcripts || reply is Failed,
        fits(ActionView::FetchMetadata(s), reply) <==> reply is Metadata || reply is Failed,
        fits(ActionView::Acquire, reply) <==> reply is Done || reply is Failed,
        fits(ActionView::Begin, reply) <==> reply is Done || reply is Failed,
        fits(ActionView::Commit, reply) <==> reply is Done || reply is Failed,
        fits(ActionView::Rollback, reply) <==> reply is Done || reply is Failed,
{
}

} // verus!
