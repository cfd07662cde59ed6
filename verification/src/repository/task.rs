//! The operations on the table of meetings, step by step.

use crate::json;
use crate::metadata;
use crate::models::{self, MeetingDetails};
use crate::repository::protocol::{
    self, Action, ActionView, Bind, BindView, DeleteStage, DetailsStage, DetailsStageView, NameStage,
    Outcome, OutcomeView, Progress, ProgressView, Reply, ReplyView, RepositoryError, Statement,
    StatementView, Task, TaskView, TitleStage,
};
use crate::text;
use vstd::prelude::*;

verus! {

/// A statement with one text for its only placeholder.
pub open spec fn about(sql: Seq<char>, id: Seq<char>) -> StatementView {
    StatementView { sql, binds: seq![BindView::Text(id)] }
}

/// All columns of the meeting with an id.
pub open spec fn select_meeting(id: Seq<char>) -> StatementView {
    about(
        "SELECT id, title, created_at, updated_at, folder_path, metadata FROM meetings WHERE id = ?"@,
        id,
    )
}

/// The metadata of the meeting with an id.
pub open spec fn select_metadata(id: Seq<char>) -> StatementView {
    about("SELECT metadata FROM meetings WHERE id = ?"@, id)
}

/// Whether there is a meeting with an id.
pub open spec fn select_existence(id: Seq<char>) -> StatementView {
    about("SELECT 1 FROM meetings WHERE id = ?"@, id)
}

/// What a deletion asks of the database at each stage.
pub open spec fn delete_action(id: Seq<char>, stage: DeleteStage) -> ActionView {
    match stage {
        DeleteStage::Acquire => ActionView::Acquire,
        DeleteStage::Begin => ActionView::Begin,
        DeleteStage::Lookup => ActionView::FetchExistence(select_existence(id)),
        DeleteStage::TranscriptChunks => ActionView::Execute(
            about("DELETE FROM transcript_chunks WHERE meeting_id = ?"@, id),
        ),
        DeleteStage::SummaryProcesses => ActionView::Execute(
            about("DELETE FROM summary_processes WHERE meeting_id = ?"@, id),
        ),
        DeleteStage::MeetingNotes => ActionView::Execute(
            about("DELETE FROM meeting_notes WHERE meeting_id = ?"@, id),
        ),
        DeleteStage::Transcripts => ActionView::Execute(
            about("DELETE FROM transcripts WHERE meeting_id = ?"@, id),
        ),
        DeleteStage::Meeting => ActionView::Execute(about("DELETE FROM meetings WHERE id = ?"@, id)),
        DeleteStage::Commit => ActionView::Commit,
        DeleteStage::Rollback => ActionView::Rollback,
        DeleteStage::RollbackFailed => ActionView::Rollback,
    }
}

/// The title of a meeting, and the time of the change.
pub open spec fn update_title(id: Seq<char>, title: Seq<char>, now: BindView) -> StatementView {
    StatementView {
        sql: "UPDATE meetings SET title = ?, updated_at = ? WHERE id = ?"@,
        binds: seq![BindView::Text(title), now, BindView::Text(id)],
    }
}

/// Two texts for the two placeholders of a statement.
pub open spec fn about_two(sql: Seq<char>, first: Seq<char>, second: Seq<char>) -> StatementView {
    StatementView { sql, binds: seq![BindView::Text(first), BindView::Text(second)] }
}

/// One page of the transcripts of a meeting, by their start in the recording.
pub open spec fn select_page(id: Seq<char>, limit: int, offset: int) -> StatementView {
    StatementView {
        sql: "SELECT * FROM transcripts
             WHERE meeting_id = ?
             ORDER BY audio_start_time ASC
             LIMIT ? OFFSET ?"@,
        binds: seq![BindView::Text(id), BindView::Integer(limit), BindView::Integer(offset)],
    }
}

impl TaskView {
    /// The action that the task waits for.
    pub open spec fn action(self) -> ActionView {
        match self {
            TaskView::Meetings => ActionView::FetchMeetings(
                StatementView {
                    sql: "SELECT id, title, created_at, updated_at, folder_path, metadata FROM meetings ORDER BY created_at DESC"@,
                    binds: seq![],
                },
            ),
            TaskView::Delete { meeting_id, stage } => delete_action(meeting_id, stage),
            TaskView::Details { meeting_id, stage } => match stage {
                DetailsStageView::Acquire => ActionView::Acquire,
                DetailsStageView::Begin => ActionView::Begin,
                DetailsStageView::Lookup => ActionView::FetchMeeting(select_meeting(meeting_id)),
                DetailsStageView::Rollback => ActionView::Rollback,
                DetailsStageView::Transcripts(_) => ActionView::FetchTranscripts(
                    about("SELECT * FROM transcripts WHERE meeting_id = ?"@, meeting_id),
                ),
                DetailsStageView::Commit(_, _) => ActionView::Commit,
            },
            TaskView::Metadata { meeting_id } => ActionView::FetchMeeting(
                select_meeting(meeting_id),
            ),
            TaskView::CountTranscripts { meeting_id, .. } => ActionView::FetchCount(
                about("SELECT COUNT(*) FROM transcripts WHERE meeting_id = ?"@, meeting_id),
            ),
            TaskView::PageOfTranscripts {
                meeting_id,
                limit,
                offset,
                ..
            } => ActionView::FetchTranscripts(select_page(meeting_id, limit, offset)),
            TaskView::Title { meeting_id, new_title, stage } => match stage {
                TitleStage::Acquire => ActionView::Acquire,
                TitleStage::Begin => ActionView::Begin,
                TitleStage::Update => ActionView::Execute(
                    update_title(meeting_id, new_title, BindView::NaiveUtcNow),
                ),
                TitleStage::Commit => ActionView::Commit,
                TitleStage::Rollback => ActionView::Rollback,
            },
            TaskView::Speaker { transcript_id, speaker_id } => ActionView::Execute(
                about_two(
                    "UPDATE transcripts SET speaker_id = ? WHERE id = ?"@,
                    speaker_id,
                    transcript_id,
                ),
            ),
            TaskView::LoadMetadata { meeting_id, .. } => ActionView::FetchMetadata(
                select_metadata(meeting_id),
            ),
            TaskView::StoreMetadata { meeting_id, metadata } => ActionView::Execute(
                about_two("UPDATE meetings SET metadata = ? WHERE id = ?"@, metadata, meeting_id),
            ),
            TaskView::MetadataJson { meeting_id } => ActionView::FetchMetadata(
                select_metadata(meeting_id),
            ),
            TaskView::Name { meeting_id, new_title, stage } => match stage {
                NameStage::Begin => ActionView::Begin,
                NameStage::Update => ActionView::Execute(
                    update_title(meeting_id, new_title, BindView::UtcNow),
                ),
                NameStage::UpdateChunks => ActionView::Execute(
                    about_two(
                        "UPDATE transcript_chunks SET meeting_name = ? WHERE meeting_id = ?"@,
                        new_title,
                        meeting_id,
                    ),
                ),
                NameStage::Commit => ActionView::Commit,
                NameStage::Rollback => ActionView::Rollback,
            },
        }
    }

    /// Where the operation stands once the reply has come.
    pub open spec fn next(self, reply: ReplyView) -> ProgressView {
        match self {
            TaskView::Meetings => match reply {
                ReplyView::Meetings(rows) => ok(OutcomeView::Meetings(rows)),
                _ => failed(),
            },
            TaskView::Delete { meeting_id, stage } => delete_next(meeting_id, stage, reply),
            TaskView::Details { meeting_id, stage } => details_next(meeting_id, stage, reply),
            TaskView::Metadata { .. } => match reply {
                ReplyView::Meeting(row) => ok(OutcomeView::Meeting(row)),
                _ => failed(),
            },
            TaskView::CountTranscripts { meeting_id, limit, offset } => match reply {
                ReplyView::Count(total) => ProgressView::Continue(
                    TaskView::PageOfTranscripts { meeting_id, limit, offset, total },
                ),
                _ => failed(),
            },
            TaskView::PageOfTranscripts { total, .. } => match reply {
                ReplyView::Transcripts(rows) => ok(OutcomeView::Transcripts(rows, total)),
                _ => failed(),
            },
            TaskView::Title { meeting_id, new_title, stage } => title_next(
                meeting_id,
                new_title,
                stage,
                reply,
            ),
            TaskView::Speaker { .. } => match reply {
                ReplyView::Affected(n) => ok(OutcomeView::Changed(n > 0)),
                _ => failed(),
            },
            TaskView::LoadMetadata { meeting_id, metadata_json } => match reply {
                ReplyView::Metadata(row) => ProgressView::Continue(
                    TaskView::StoreMetadata {
                        meeting_id,
                        metadata: metadata::merged_text(column_text(row), metadata_json),
                    },
                ),
                _ => failed(),
            },
            TaskView::StoreMetadata { .. } => match reply {
                ReplyView::Affected(_) => ok(OutcomeView::Saved),
                _ => failed(),
            },
            TaskView::MetadataJson { .. } => match reply {
                ReplyView::Metadata(row) => ok(OutcomeView::MetadataJson(column_text(row))),
                _ => failed(),
            },
            TaskView::Name { meeting_id, new_title, stage } => name_next(
                meeting_id,
                new_title,
                stage,
                reply,
            ),
        }
    }
}

/// The operation has succeeded.
pub open spec fn ok(outcome: OutcomeView) -> ProgressView {
    ProgressView::Finished(Ok(outcome))
}

/// The operation has come to nothing because the database failed.
pub open spec fn failed() -> ProgressView {
    ProgressView::Finished(Err(RepositoryError::Database))
}

/// The metadata in a row, if there is a row with any.
pub open spec fn column_text(row: Option<Option<Seq<char>>>) -> Option<Seq<char>> {
    match row {
        Some(column) => column,
        None => None,
    }
}

/// A deletion at the given stage.
pub open spec fn deleting(id: Seq<char>, stage: DeleteStage) -> ProgressView {
    ProgressView::Continue(TaskView::Delete { meeting_id: id, stage })
}

/// Where a deletion stands once the reply has come: the dependent rows go
/// first, the meeting last, and the transaction is committed only if a meeting
/// was deleted.
pub open spec fn delete_next(id: Seq<char>, stage: DeleteStage, reply: ReplyView) -> ProgressView {
    match (stage, reply) {
        (DeleteStage::Acquire, ReplyView::Done) => deleting(id, DeleteStage::Begin),
        (DeleteStage::Begin, ReplyView::Done) => deleting(id, DeleteStage::Lookup),
        (DeleteStage::Lookup, ReplyView::Existence(true)) => deleting(
            id,
            DeleteStage::TranscriptChunks,
        ),
        (DeleteStage::Lookup, ReplyView::Existence(false)) => deleting(id, DeleteStage::Rollback),
        (DeleteStage::TranscriptChunks, ReplyView::Affected(_)) => deleting(
            id,
            DeleteStage::SummaryProcesses,
        ),
        (DeleteStage::SummaryProcesses, ReplyView::Affected(_)) => deleting(
            id,
            DeleteStage::MeetingNotes,
        ),
        (DeleteStage::MeetingNotes, ReplyView::Affected(_)) => deleting(
            id,
            DeleteStage::Transcripts,
        ),
        (DeleteStage::Transcripts, ReplyView::Affected(_)) => deleting(id, DeleteStage::Meeting),
        (DeleteStage::Meeting, ReplyView::Affected(n)) => deleting(
            id,
            if n > 0 {
                DeleteStage::Commit
            } else {
                DeleteStage::Rollback
            },
        ),
        (DeleteStage::Commit, ReplyView::Done) => ok(OutcomeView::Changed(true)),
        (DeleteStage::Rollback, ReplyView::Done) => ok(OutcomeView::Changed(false)),
        (DeleteStage::Acquire, _) => failed(),
        (DeleteStage::Begin, _) => failed(),
        (DeleteStage::Commit, _) => failed(),
        (DeleteStage::Rollback, _) => failed(),
        (DeleteStage::RollbackFailed, _) => failed(),
        _ => deleting(id, DeleteStage::RollbackFailed),
    }
}

/// Where loading a meeting stands once the reply has come.
pub open spec fn details_next(
    id: Seq<char>,
    stage: DetailsStageView,
    reply: ReplyView,
) -> ProgressView {
    let at = |s: DetailsStageView|
        ProgressView::Continue(TaskView::Details { meeting_id: id, stage: s });
    match (stage, reply) {
        (DetailsStageView::Acquire, ReplyView::Done) => at(DetailsStageView::Begin),
        (DetailsStageView::Begin, ReplyView::Done) => at(DetailsStageView::Lookup),
        (DetailsStageView::Lookup, ReplyView::Meeting(Some(m))) => at(
            DetailsStageView::Transcripts(m),
        ),
        (DetailsStageView::Lookup, ReplyView::Meeting(None)) => at(DetailsStageView::Rollback),
        (DetailsStageView::Rollback, ReplyView::Done) => ProgressView::Finished(
            Err(RepositoryError::RowNotFound),
        ),
        (DetailsStageView::Transcripts(m), ReplyView::Transcripts(rows)) => at(
            DetailsStageView::Commit(m, rows),
        ),
        (DetailsStageView::Commit(m, rows), ReplyView::Done) => ok(
            OutcomeView::Details(Some(models::details_of(m, rows))),
        ),
        _ => failed(),
    }
}

/// Where a change of title stands once the reply has come.
pub open spec fn title_next(
    id: Seq<char>,
    title: Seq<char>,
    stage: TitleStage,
    reply: ReplyView,
) -> ProgressView {
    let at = |s: TitleStage|
        ProgressView::Continue(TaskView::Title { meeting_id: id, new_title: title, stage: s });
    match (stage, reply) {
        (TitleStage::Acquire, ReplyView::Done) => at(TitleStage::Begin),
        (TitleStage::Begin, ReplyView::Done) => at(TitleStage::Update),
        (TitleStage::Update, ReplyView::Affected(n)) => at(
            if n == 0 {
                TitleStage::Rollback
            } else {
                TitleStage::Commit
            },
        ),
        (TitleStage::Commit, ReplyView::Done) => ok(OutcomeView::Changed(true)),
        (TitleStage::Rollback, ReplyView::Done) => ok(OutcomeView::Changed(false)),
        _ => failed(),
    }
}

/// Where a change of name stands once the reply has come.
pub open spec fn name_next(
    id: Seq<char>,
    title: Seq<char>,
    stage: NameStage,
    reply: ReplyView,
) -> ProgressView {
    let at = |s: NameStage|
        ProgressView::Continue(TaskView::Name { meeting_id: id, new_title: title, stage: s });
    match (stage, reply) {
        (NameStage::Begin, ReplyView::Done) => at(NameStage::Update),
        (NameStage::Update, ReplyView::Affected(n)) => at(
            if n == 0 {
                NameStage::Rollback
            } else {
                NameStage::UpdateChunks
            },
        ),
        (NameStage::UpdateChunks, ReplyView::Affected(_)) => at(NameStage::Commit),
        (NameStage::Commit, ReplyView::Done) => ok(OutcomeView::Changed(true)),
        (NameStage::Rollback, ReplyView::Done) => ok(OutcomeView::Changed(false)),
        _ => failed(),
    }
}

impl TaskView {
    /// Whether the metadata that the operation will read are short enough.
    pub open spec fn well_formed(self) -> bool {
        match self {
            TaskView::Details {
                stage: DetailsStageView::Transcripts(m),
                ..
            } => metadata::readable_metadata(m.metadata),
            TaskView::Details {
                stage: DetailsStageView::Commit(m, _),
                ..
            } => metadata::readable_metadata(m.metadata),
            TaskView::LoadMetadata { metadata_json, .. } => json::readable_length(metadata_json),
            _ => true,
        }
    }
}

impl TaskView {
    /// Whether a reply is one that the task can get. Metadata that the task
    /// goes on to read are short enough for that.
    pub open spec fn expects(self, reply: ReplyView) -> bool {
        &&& protocol::fits(self.action(), reply)
        &&& match (self, reply) {
            (
                TaskView::Details { .. },
                ReplyView::Meeting(Some(m)),
            ) => metadata::readable_metadata(m.metadata),
            (
                TaskView::LoadMetadata { .. },
                ReplyView::Metadata(row),
            ) => metadata::readable_metadata(column_text(row)),
            _ => true,
        }
    }
}

/// Whether a metadata text is short enough to be read.
fn is_readable(column: &Option<String>) -> (r: bool)
    ensures
        r == metadata::readable_metadata(metadata::text_view(*column)),
{
    match column {
        Some(t) => json::is_readable(t.as_str()),
        None => true,
    }
}

/// Whether the metadata that an operation goes on to store, once what was
/// stored has been loaded, can be read again.
pub open spec fn stores_what_reads_back(t: TaskView, reply: ReplyView, p: ProgressView) -> bool {
    match (t, reply) {
        (
            TaskView::LoadMetadata { metadata_json, .. },
            ReplyView::Metadata(row),
        ) => p matches ProgressView::Continue(TaskView::StoreMetadata { metadata, .. })
            && metadata::holds_merged(column_text(row), metadata_json, metadata),
        _ => true,
    }
}

/// A statement with one text for its only placeholder.
fn statement_about(sql: &str, id: &String) -> (r: Statement)
    ensures
        r@ == about(sql@, id@),
{
    let binds: Vec<Bind> = vec![Bind::Text(id.clone())];
    let r = Statement { sql: sql.to_owned(), binds };
    proof {
        assert(r@.binds =~= about(sql@, id@).binds);
    }
    r
}

/// A statement with two texts for its two placeholders.
fn statement_about_two(sql: &str, first: &String, second: &String) -> (r: Statement)
    ensures
        r@ == about_two(sql@, first@, second@),
{
    let binds: Vec<Bind> = vec![Bind::Text(first.clone()), Bind::Text(second.clone())];
    let r = Statement { sql: sql.to_owned(), binds };
    proof {
        assert(r@.binds =~= about_two(sql@, first@, second@).binds);
    }
    r
}

fn meeting_statement(id: &String) -> (r: Statement)
    ensures
        r@ == select_meeting(id@),
{
    statement_about(
        "SELECT id, title, created_at, updated_at, folder_path, metadata FROM meetings WHERE id = ?",
        id,
    )
}

fn metadata_statement(id: &String) -> (r: Statement)
    ensures
        r@ == select_metadata(id@),
{
    statement_about("SELECT metadata FROM meetings WHERE id = ?", id)
}

fn title_statement(id: &String, title: &String, now: Bind) -> (r: Statement)
    ensures
        r@ == update_title(id@, title@, now@),
{
    let ghost n = now@;
    let binds: Vec<Bind> = vec![Bind::Text(title.clone()), now, Bind::Text(id.clone())];
    let r = Statement {
        sql: "UPDATE meetings SET title = ?, updated_at = ? WHERE id = ?".to_owned(),
        binds,
    };
    proof {
        assert(r@.binds =~= update_title(id@, title@, n).binds);
    }
    r
}

fn page_statement(id: &String, limit: i64, offset: i64) -> (r: Statement)
    ensures
        r@ == select_page(id@, limit as int, offset as int),
{
    let binds: Vec<Bind> = vec![
        Bind::Text(id.clone()),
        Bind::Integer(limit),
        Bind::Integer(offset),
    ];
    let r = Statement {
        sql: "SELECT * FROM transcripts
             WHERE meeting_id = ?
             ORDER BY audio_start_time ASC
             LIMIT ? OFFSET ?".to_owned(),
        binds,
    };
    proof {
        assert(r@.binds =~= select_page(id@, limit as int, offset as int).binds);
    }
    r
}

fn meetings_statement() -> (r: Statement)
    ensures
        ActionView::FetchMeetings(r@) == TaskView::Meetings.action(),
{
    let r = Statement {
        sql: "SELECT id, title, created_at, updated_at, folder_path, metadata FROM meetings ORDER BY created_at DESC".to_owned(),
        binds: Vec::new(),
    };
    proof {
        assert(r@.binds =~= seq![]);
    }
    r
}

fn delete_stage_action(id: &String, stage: DeleteStage) -> (r: Action)
    ensures
        r@ == delete_action(id@, stage),
{
    match stage {
        DeleteStage::Acquire => Action::Acquire,
        DeleteStage::Begin => Action::Begin,
        DeleteStage::Lookup => Action::FetchExistence(
            statement_about("SELECT 1 FROM meetings WHERE id = ?", id),
        ),
        DeleteStage::TranscriptChunks => Action::Execute(
            statement_about("DELETE FROM transcript_chunks WHERE meeting_id = ?", id),
        ),
        DeleteStage::SummaryProcesses => Action::Execute(
            statement_about("DELETE FROM summary_processes WHERE meeting_id = ?", id),
        ),
        DeleteStage::MeetingNotes => Action::Execute(
            statement_about("DELETE FROM meeting_notes WHERE meeting_id = ?", id),
        ),
        DeleteStage::Transcripts => Action::Execute(
            statement_about("DELETE FROM transcripts WHERE meeting_id = ?", id),
        ),
        DeleteStage::Meeting => Action::Execute(
            statement_about("DELETE FROM meetings WHERE id = ?", id),
        ),
        DeleteStage::Commit => Action::Commit,
        DeleteStage::Rollback => Action::Rollback,
        DeleteStage::RollbackFailed => Action::Rollback,
    }
}

impl Task {
    /// The action that the task waits for.
    pub fn action(&self) -> (r: Action)
        ensures
            r@ == self@.action(),
    {
        match self {
            Task::Meetings => Action::FetchMeetings(meetings_statement()),
            Task::Delete { meeting_id, stage } => delete_stage_action(meeting_id, *stage),
            Task::Details { meeting_id, stage } => match stage {
                DetailsStage::Acquire => Action::Acquire,
                DetailsStage::Begin => Action::Begin,
                DetailsStage::Lookup => Action::FetchMeeting(meeting_statement(meeting_id)),
                DetailsStage::Rollback => Action::Rollback,
                DetailsStage::Transcripts(_) => Action::FetchTranscripts(
                    statement_about("SELECT * FROM transcripts WHERE meeting_id = ?", meeting_id),
                ),
                DetailsStage::Commit(_, _) => Action::Commit,
            },
            Task::Metadata { meeting_id } => Action::FetchMeeting(meeting_statement(meeting_id)),
            Task::CountTranscripts { meeting_id, .. } => Action::FetchCount(
                statement_about(
                    "SELECT COUNT(*) FROM transcripts WHERE meeting_id = ?",
                    meeting_id,
                ),
            ),
            Task::PageOfTranscripts { meeting_id, limit, offset, .. } => Action::FetchTranscripts(
                page_statement(meeting_id, *limit, *offset),
            ),
            Task::Title { meeting_id, new_title, stage } => match stage {
                TitleStage::Acquire => Action::Acquire,
                TitleStage::Begin => Action::Begin,
                TitleStage::Update => Action::Execute(
                    title_statement(meeting_id, new_title, Bind::NaiveUtcNow),
                ),
                TitleStage::Commit => Action::Commit,
                TitleStage::Rollback => Action::Rollback,
            },
            Task::Speaker { transcript_id, speaker_id } => Action::Execute(
                statement_about_two(
                    "UPDATE transcripts SET speaker_id = ? WHERE id = ?",
                    speaker_id,
                    transcript_id,
                ),
            ),
            Task::LoadMetadata { meeting_id, .. } => Action::FetchMetadata(
                metadata_statement(meeting_id),
            ),
            Task::StoreMetadata { meeting_id, metadata } => Action::Execute(
                statement_about_two(
                    "UPDATE meetings SET metadata = ? WHERE id = ?",
                    metadata,
                    meeting_id,
                ),
            ),
            Task::MetadataJson { meeting_id } => Action::FetchMetadata(
                metadata_statement(meeting_id),
            ),
            Task::Name { meeting_id, new_title, stage } => match stage {
                NameStage::Begin => Action::Begin,
                NameStage::Update => Action::Execute(
                    title_statement(meeting_id, new_title, Bind::UtcNow),
                ),
                NameStage::UpdateChunks => Action::Execute(
                    statement_about_two(
                        "UPDATE transcript_chunks SET meeting_name = ? WHERE meeting_id = ?",
                        new_title,
                        meeting_id,
                    ),
                ),
                NameStage::Commit => Action::Commit,
                NameStage::Rollback => Action::Rollback,
            },
        }
    }

    /// Whether a reply is one that the task can get.
    pub fn accepts(&self, reply: &Reply) -> (r: bool)
        ensures
            r == self@.expects(reply@),
    {
        let fits: bool = self.action().accepts(reply);
        let readable: bool = match (self, reply) {
            (Task::Details { .. }, Reply::Meeting(Some(m))) => is_readable(&m.metadata),
            (Task::LoadMetadata { .. }, Reply::Metadata(Some(column))) => is_readable(column),
            _ => true,
        };
        fits && readable
    }

    /// Where the operation stands once the reply to its action has come.
    pub fn step(self, reply: Reply) -> (r: Progress)
        requires
            self@.well_formed(),
            self@.expects(reply@),
        ensures
            r@ == self@.next(reply@),
            r@ matches ProgressView::Continue(t) ==> t.well_formed(),
            stores_what_reads_back(self@, reply@, r@),
    {
        match self {
            Task::Meetings => match reply {
                Reply::Meetings(rows) => finished(Outcome::Meetings(rows)),
                _ => database_failure(),
            },
            Task::Delete { meeting_id, stage } => step_delete(meeting_id, stage, reply),
            Task::Details { meeting_id, stage } => step_details(meeting_id, stage, reply),
            Task::Metadata { .. } => match reply {
                Reply::Meeting(row) => finished(Outcome::Meeting(row)),
                _ => database_failure(),
            },
            Task::CountTranscripts { meeting_id, limit, offset } => match reply {
                Reply::Count(total) => Progress::Continue(
                    Task::PageOfTranscripts { meeting_id, limit, offset, total },
                ),
                _ => database_failure(),
            },
            Task::PageOfTranscripts { total, .. } => match reply {
                Reply::Transcripts(rows) => finished(Outcome::Transcripts(rows, total)),
                _ => database_failure(),
            },
            Task::Title { meeting_id, new_title, stage } => step_title(
                meeting_id,
                new_title,
                stage,
                reply,
            ),
            Task::Speaker { .. } => match reply {
                Reply::Affected(n) => finished(Outcome::Changed(n > 0)),
                _ => database_failure(),
            },
            Task::LoadMetadata { meeting_id, metadata_json } => match reply {
                Reply::Metadata(row) => {
                    let existing: Option<String> = flatten(row);
                    let metadata = metadata::merge_metadata(&existing, metadata_json.as_str());
                    Progress::Continue(Task::StoreMetadata { meeting_id, metadata })
                },
                _ => database_failure(),
            },
            Task::StoreMetadata { .. } => match reply {
                Reply::Affected(_) => finished(Outcome::Saved),
                _ => database_failure(),
            },
            Task::MetadataJson { .. } => match reply {
                Reply::Metadata(row) => finished(Outcome::MetadataJson(flatten(row))),
                _ => database_failure(),
            },
            Task::Name { meeting_id, new_title, stage } => step_name(
                meeting_id,
                new_title,
                stage,
                reply,
            ),
        }
    }
}

fn finished(outcome: Outcome) -> (r: Progress)
    ensures
        r@ == ok(outcome@),
{
    Progress::Finished(Ok(outcome))
}

fn database_failure() -> (r: Progress)
    ensures
        r@ == failed(),
{
    Progress::Finished(Err(RepositoryError::Database))
}

/// The metadata in a row, if there is a row with any.
fn flatten(row: Option<Option<String>>) -> (r: Option<String>)
    ensures
        metadata::text_view(r) == column_text(protocol::column_view(row)),
{
    match row {
        Some(column) => column,
        None => None,
    }
}

fn step_delete(meeting_id: String, stage: DeleteStage, reply: Reply) -> (r: Progress)
    requires
        protocol::fits(delete_action(meeting_id@, stage), reply@),
    ensures
        r@ == delete_next(meeting_id@, stage, reply@),
        r@ matches ProgressView::Continue(t) ==> t.well_formed(),
{
    let next: DeleteStage = match (stage, reply) {
        (DeleteStage::Acquire, Reply::Done) => DeleteStage::Begin,
        (DeleteStage::Begin, Reply::Done) => DeleteStage::Lookup,
        (DeleteStage::Lookup, Reply::Existence(found)) => if found {
            DeleteStage::TranscriptChunks
        } else {
            DeleteStage::Rollback
        },
        (DeleteStage::TranscriptChunks, Reply::Affected(_)) => DeleteStage::SummaryProcesses,
        (DeleteStage::SummaryProcesses, Reply::Affected(_)) => DeleteStage::MeetingNotes,
        (DeleteStage::MeetingNotes, Reply::Affected(_)) => DeleteStage::Transcripts,
        (DeleteStage::Transcripts, Reply::Affected(_)) => DeleteStage::Meeting,
        (DeleteStage::Meeting, Reply::Affected(n)) => if n > 0 {
            DeleteStage::Commit
        } else {
            DeleteStage::Rollback
        },
        (DeleteStage::Commit, Reply::Done) => {
            return finished(Outcome::Changed(true));
        },
        (DeleteStage::Rollback, Reply::Done) => {
            return finished(Outcome::Changed(false));
        },
        (DeleteStage::Acquire, _) => {
            return database_failure();
        },
        (DeleteStage::Begin, _) => {
            return database_failure();
        },
        (DeleteStage::Commit, _) => {
            return database_failure();
        },
        (DeleteStage::Rollback, _) => {
            return database_failure();
        },
        (DeleteStage::RollbackFailed, _) => {
            return database_failure();
        },
        _ => DeleteStage::RollbackFailed,
    };
    Progress::Continue(Task::Delete { meeting_id, stage: next })
}

fn step_details(meeting_id: String, stage: DetailsStage, reply: Reply) -> (r: Progress)
    requires
        (TaskView::Details { meeting_id: meeting_id@, stage: stage@ }).well_formed(),
        (TaskView::Details { meeting_id: meeting_id@, stage: stage@ }).expects(reply@),
    ensures
        r@ == details_next(meeting_id@, stage@, reply@),
        r@ matches ProgressView::Continue(t) ==> t.well_formed(),
{
    let next: DetailsStage = match (stage, reply) {
        (DetailsStage::Acquire, Reply::Done) => DetailsStage::Begin,
        (DetailsStage::Begin, Reply::Done) => DetailsStage::Lookup,
        (DetailsStage::Lookup, Reply::Meeting(Some(m))) => DetailsStage::Transcripts(m),
        (DetailsStage::Lookup, Reply::Meeting(None)) => DetailsStage::Rollback,
        (DetailsStage::Rollback, Reply::Done) => {
            return Progress::Finished(Err(RepositoryError::RowNotFound));
        },
        (DetailsStage::Transcripts(m), Reply::Transcripts(rows)) => DetailsStage::Commit(m, rows),
        (DetailsStage::Commit(m, rows), Reply::Done) => {
            let details = MeetingDetails::from_rows(m, rows);
            return finished(Outcome::Details(Some(details)));
        },
        _ => {
            return database_failure();
        },
    };
    Progress::Continue(Task::Details { meeting_id, stage: next })
}

fn step_title(meeting_id: String, new_title: String, stage: TitleStage, reply: Reply) -> (r:
    Progress)
    ensures
        r@ == title_next(meeting_id@, new_title@, stage, reply@),
        r@ matches ProgressView::Continue(t) ==> t.well_formed(),
{
    let next: TitleStage = match (stage, reply) {
        (TitleStage::Acquire, Reply::Done) => TitleStage::Begin,
        (TitleStage::Begin, Reply::Done) => TitleStage::Update,
        (TitleStage::Update, Reply::Affected(n)) => if n == 0 {
            TitleStage::Rollback
        } else {
            TitleStage::Commit
        },
        (TitleStage::Commit, Reply::Done) => {
            return finished(Outcome::Changed(true));
        },
        (TitleStage::Rollback, Reply::Done) => {
            return finished(Outcome::Changed(false));
        },
        _ => {
            return database_failure();
        },
    };
    Progress::Continue(Task::Title { meeting_id, new_title, stage: next })
}

fn step_name(meeting_id: String, new_title: String, stage: NameStage, reply: Reply) -> (r: Progress)
    ensures
        r@ == name_next(meeting_id@, new_title@, stage, reply@),
        r@ matches ProgressView::Continue(t) ==> t.well_formed(),
{
    let next: NameStage = match (stage, reply) {
        (NameStage::Begin, Reply::Done) => NameStage::Update,
        (NameStage::Update, Reply::Affected(n)) => if n == 0 {
            NameStage::Rollback
        } else {
            NameStage::UpdateChunks
        },
        (NameStage::UpdateChunks, Reply::Affected(_)) => NameStage::Commit,
        (NameStage::Commit, Reply::Done) => {
            return finished(Outcome::Changed(true));
        },
        (NameStage::Rollback, Reply::Done) => {
            return finished(Outcome::Changed(false));
        },
        _ => {
            return database_failure();
        },
    };
    Progress::Continue(Task::Name { meeting_id, new_title, stage: next })
}

/// The operations on the table of meetings.
#[derive(Debug)]
pub struct MeetingsRepository;

/// An operation on the meeting with an id, which must not be blank.
pub open spec fn on_meeting(meeting_id: Seq<char>, task: TaskView) -> ProgressView {
    if text::blank(meeting_id) {
        ProgressView::Finished(Err(RepositoryError::EmptyMeetingId))
    } else {
        ProgressView::Continue(task)
    }
}

impl RepositoryError {
    /// The message of an error that arose before the database was asked.
    pub fn protocol_message(self) -> (r: Option<&'static str>)
        ensures
            r is Some <==> self == RepositoryError::EmptyMeetingId,
            r matches Some(m) ==> m@ == "meeting_id cannot be empty"@,
    {
        match self {
            RepositoryError::EmptyMeetingId => Some("meeting_id cannot be empty"),
            _ => None,
        }
    }
}

impl MeetingsRepository {
    /// All meetings, the latest first.
    pub fn get_meetings() -> (r: Progress)
        ensures
            r@ == ProgressView::Continue(TaskView::Meetings),
    {
        Progress::Continue(Task::Meetings)
    }

    /// Deletes a meeting and everything that belongs to it.
    pub fn delete_meeting(meeting_id: &str) -> (r: Progress)
        ensures
            r@ == on_meeting(
                meeting_id@,
                (TaskView::Delete { meeting_id: meeting_id@, stage: DeleteStage::Acquire }),
            ),
    {
        if text::is_blank(meeting_id) {
            return Progress::Finished(Err(RepositoryError::EmptyMeetingId));
        }
        Progress::Continue(
            Task::Delete { meeting_id: meeting_id.to_owned(), stage: DeleteStage::Acquire },
        )
    }

    /// A meeting with its transcripts.
    pub fn get_meeting(meeting_id: &str) -> (r: Progress)
        ensures
            r@ == on_meeting(
                meeting_id@,
                (TaskView::Details { meeting_id: meeting_id@, stage: DetailsStageView::Acquire }),
            ),
    {
        if text::is_blank(meeting_id) {
            return Progress::Finished(Err(RepositoryError::EmptyMeetingId));
        }
        Progress::Continue(
            Task::Details { meeting_id: meeting_id.to_owned(), stage: DetailsStage::Acquire },
        )
    }

    /// Get meeting metadata without transcripts (for pagination).
    pub fn get_meeting_metadata(meeting_id: &str) -> (r: Progress)
        ensures
            r@ == on_meeting(meeting_id@, (TaskView::Metadata { meeting_id: meeting_id@ })),
    {
        if text::is_blank(meeting_id) {
            return Progress::Finished(Err(RepositoryError::EmptyMeetingId));
        }
        Progress::Continue(Task::Metadata { meeting_id: meeting_id.to_owned() })
    }

    /// Get meeting transcripts with pagination support.
    pub fn get_meeting_transcripts_paginated(meeting_id: &str, limit: i64, offset: i64) -> (r:
        Progress)
        ensures
            r@ == on_meeting(
                meeting_id@,
                (TaskView::CountTranscripts {
                    meeting_id: meeting_id@,
                    limit: limit as int,
                    offset: offset as int,
                }),
            ),
    {
        if text::is_blank(meeting_id) {
            return Progress::Finished(Err(RepositoryError::EmptyMeetingId));
        }
        Progress::Continue(
            Task::CountTranscripts { meeting_id: meeting_id.to_owned(), limit, offset },
        )
    }

    /// Gives a meeting a new title.
    pub fn update_meeting_title(meeting_id: &str, new_title: &str) -> (r: Progress)
        ensures
            r@ == on_meeting(
                meeting_id@,
                (TaskView::Title {
                    meeting_id: meeting_id@,
                    new_title: new_title@,
                    stage: TitleStage::Acquire,
                }),
            ),
    {
        if text::is_blank(meeting_id) {
            return Progress::Finished(Err(RepositoryError::EmptyMeetingId));
        }
        Progress::Continue(
            Task::Title {
                meeting_id: meeting_id.to_owned(),
                new_title: new_title.to_owned(),
                stage: TitleStage::Acquire,
            },
        )
    }

    /// Update the speaker_id for a single transcript segment.
    pub fn update_transcript_speaker(transcript_id: &str, speaker_id: &str) -> (r: Progress)
        ensures
            r@ == ProgressView::Continue(
                (TaskView::Speaker { transcript_id: transcript_id@, speaker_id: speaker_id@ }),
            ),
    {
        Progress::Continue(
            Task::Speaker {
                transcript_id: transcript_id.to_owned(),
                speaker_id: speaker_id.to_owned(),
            },
        )
    }

    /// Save meeting metadata as JSON (e.g., speaker name mappings).
    /// Merges with existing metadata to avoid overwriting unrelated keys.
    pub fn save_meeting_metadata(meeting_id: &str, metadata_json: &str) -> (r: Progress)
        requires
            json::readable_length(metadata_json@),
        ensures
            r@ == ProgressView::Continue(
                (TaskView::LoadMetadata { meeting_id: meeting_id@, metadata_json: metadata_json@ }),
            ),
            r@->Continue_0.well_formed(),
    {
        Progress::Continue(
            Task::LoadMetadata {
                meeting_id: meeting_id.to_owned(),
                metadata_json: metadata_json.to_owned(),
            },
        )
    }

    /// Get meeting metadata JSON.
    pub fn get_meeting_metadata_json(meeting_id: &str) -> (r: Progress)
        ensures
            r@ == ProgressView::Continue((TaskView::MetadataJson { meeting_id: meeting_id@ })),
    {
        Progress::Continue(Task::MetadataJson { meeting_id: meeting_id.to_owned() })
    }

    /// Gives a meeting a new name, in its transcript chunks too.
    pub fn update_meeting_name(meeting_id: &str, new_title: &str) -> (r: Progress)
        ensures
            r@ == ProgressView::Continue(
                (TaskView::Name {
                    meeting_id: meeting_id@,
                    new_title: new_title@,
                    stage: NameStage::Begin,
                }),
            ),
    {
        Progress::Continue(
            Task::Name {
                meeting_id: meeting_id.to_owned(),
                new_title: new_title.to_owned(),
                stage: NameStage::Begin,
            },
        )
    }
}

} // verus!
