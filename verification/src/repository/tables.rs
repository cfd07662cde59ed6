//! What the operations do to the tables of the database, if it does what the
//! statements say.

use crate::metadata;
use crate::models::{self, MeetingModel, MeetingView, SegmentView};
use crate::repository::laws;
use crate::repository::protocol::{
    ActionView, BindView, DeleteStage, DetailsStageView, NameStage, OutcomeView, ProgressView,
    ReplyView, RepositoryError, StatementView, TaskView, TitleStage,
};
use crate::repository::task;
use crate::text;
use vstd::prelude::*;

verus! {

/// A row of the table of transcripts.
pub struct TranscriptRow {
    pub meeting_id: Seq<char>,
    pub segment: SegmentView,
}

/// A row of the table of transcript chunks.
pub struct ChunkRow {
    pub meeting_id: Seq<char>,
    pub meeting_name: Seq<char>,
}

/// What the tables hold. Of the last two, the meetings that their rows belong
/// to.
pub struct Tables {
    pub meetings: Seq<MeetingView>,
    pub transcripts: Seq<TranscriptRow>,
    pub transcript_chunks: Seq<ChunkRow>,
    pub summary_processes: Seq<Seq<char>>,
    pub meeting_notes: Seq<Seq<char>>,
}

/// The meetings with other ids.
pub open spec fn other_meetings(rows: Seq<MeetingView>, id: Seq<char>) -> Seq<MeetingView> {
    rows.filter(|m: MeetingView| m.id != id)
}

/// The transcripts of other meetings.
pub open spec fn transcripts_of_others(rows: Seq<TranscriptRow>, id: Seq<char>) -> Seq<
    TranscriptRow,
> {
    rows.filter(|r: TranscriptRow| r.meeting_id != id)
}

/// The chunks of other meetings.
pub open spec fn chunks_of_others(rows: Seq<ChunkRow>, id: Seq<char>) -> Seq<ChunkRow> {
    rows.filter(|r: ChunkRow| r.meeting_id != id)
}

/// The rows that belong to other meetings.
pub open spec fn rows_of_others(rows: Seq<Seq<char>>, id: Seq<char>) -> Seq<Seq<char>> {
    rows.filter(|r: Seq<char>| r != id)
}

/// The transcripts of a meeting, in the order of the table.
pub open spec fn transcripts_of(rows: Seq<TranscriptRow>, id: Seq<char>) -> Seq<SegmentView> {
    rows.filter(|r: TranscriptRow| r.meeting_id == id).map_values(|r: TranscriptRow| r.segment)
}

/// Whether there is a meeting with an id.
pub open spec fn has_meeting(rows: Seq<MeetingView>, id: Seq<char>) -> bool {
    exists|i: int| 0 <= i < rows.len() && (#[trigger] rows[i]).id == id
}

/// Whether the meetings with an id have a new title, and everything else but
/// the time of their change is as before.
pub open spec fn retitled(
    before: Seq<MeetingView>,
    after: Seq<MeetingView>,
    id: Seq<char>,
    title: Seq<char>,
) -> bool {
    &&& before.len() == after.len()
    &&& forall|i: int|
        0 <= i < before.len() ==> {
            let m = #[trigger] before[i];
            after[i] == if m.id == id {
                MeetingView { title, updated_at: after[i].updated_at, ..m }
            } else {
                m
            }
        }
}

/// Whether the chunks of a meeting bear a new name, and everything else is as
/// before.
pub open spec fn renamed(
    before: Seq<ChunkRow>,
    after: Seq<ChunkRow>,
    id: Seq<char>,
    name: Seq<char>,
) -> bool {
    &&& before.len() == after.len()
    &&& forall|i: int|
        0 <= i < before.len() ==> {
            let c = #[trigger] before[i];
            after[i] == if c.meeting_id == id {
                ChunkRow { meeting_name: name, ..c }
            } else {
                c
            }
        }
}

/// Whether the transcripts with an id have a new speaker, and everything else
/// is as before.
pub open spec fn respoken(
    before: Seq<TranscriptRow>,
    after: Seq<TranscriptRow>,
    id: Seq<char>,
    speaker: Seq<char>,
) -> bool {
    &&& before.len() == after.len()
    &&& forall|i: int|
        0 <= i < before.len() ==> {
            let r = #[trigger] before[i];
            after[i] == if r.segment.id == id {
                TranscriptRow {
                    segment: SegmentView { speaker_id: Some(speaker), ..r.segment },
                    ..r
                }
            } else {
                r
            }
        }
}

/// Whether the meetings with an id have new metadata, and everything else is
/// as before.
pub open spec fn annotated(
    before: Seq<MeetingView>,
    after: Seq<MeetingView>,
    id: Seq<char>,
    text: Seq<char>,
) -> bool {
    &&& before.len() == after.len()
    &&& forall|i: int|
        0 <= i < before.len() ==> {
            let m = #[trigger] before[i];
            after[i] == if m.id == id {
                MeetingView { metadata: Some(text), ..m }
            } else {
                m
            }
        }
}

/// Whether a statement's only placeholder is a text.
pub open spec fn binds_text(s: StatementView) -> bool {
    s.binds.len() == 1 && s.binds[0] is Text
}

/// Whether a statement's two placeholders are texts.
pub open spec fn binds_two_texts(s: StatementView) -> bool {
    s.binds.len() == 2 && s.binds[0] is Text && s.binds[1] is Text
}

/// Whether a statement that changes rows leads from one state of the tables to
/// another and changes so many rows, by what its text says in SQL.
pub open spec fn executes(s: StatementView, before: Tables, after: Tables, affected: nat) -> bool {
    &&& s.sql == "DELETE FROM transcript_chunks WHERE meeting_id = ?"@ && binds_text(s) ==> after
        == Tables {
        transcript_chunks: chunks_of_others(before.transcript_chunks, s.binds[0]->Text_0),
        ..before
    }
    &&& s.sql == "DELETE FROM summary_processes WHERE meeting_id = ?"@ && binds_text(s) ==> after
        == Tables {
        summary_processes: rows_of_others(before.summary_processes, s.binds[0]->Text_0),
        ..before
    }
    &&& s.sql == "DELETE FROM meeting_notes WHERE meeting_id = ?"@ && binds_text(s) ==> after
        == Tables {
        meeting_notes: rows_of_others(before.meeting_notes, s.binds[0]->Text_0),
        ..before
    }
    &&& s.sql == "DELETE FROM transcripts WHERE meeting_id = ?"@ && binds_text(s) ==> after
        == Tables {
        transcripts: transcripts_of_others(before.transcripts, s.binds[0]->Text_0),
        ..before
    }
    &&& s.sql == "DELETE FROM meetings WHERE id = ?"@ && binds_text(s) ==> after == Tables {
        meetings: other_meetings(before.meetings, s.binds[0]->Text_0),
        ..before
    } && (affected > 0 <==> has_meeting(before.meetings, s.binds[0]->Text_0))
    &&& s.sql == "UPDATE meetings SET title = ?, updated_at = ? WHERE id = ?"@ && s.binds.len()
        == 3 && s.binds[0] is Text && s.binds[2] is Text ==> after == Tables {
        meetings: after.meetings,
        ..before
    } && retitled(before.meetings, after.meetings, s.binds[2]->Text_0, s.binds[0]->Text_0) && (
    affected > 0 <==> has_meeting(before.meetings, s.binds[2]->Text_0))
    &&& s.sql == "UPDATE transcript_chunks SET meeting_name = ? WHERE meeting_id = ?"@
        && binds_two_texts(s) ==> after == Tables {
        transcript_chunks: after.transcript_chunks,
        ..before
    } && renamed(
        before.transcript_chunks,
        after.transcript_chunks,
        s.binds[1]->Text_0,
        s.binds[0]->Text_0,
    )
    &&& s.sql == "UPDATE transcripts SET speaker_id = ? WHERE id = ?"@ && binds_two_texts(s)
        ==> after == Tables { transcripts: after.transcripts, ..before } && respoken(
        before.transcripts,
        after.transcripts,
        s.binds[1]->Text_0,
        s.binds[0]->Text_0,
    ) && (affected > 0 <==> exists|i: int|
        0 <= i < before.transcripts.len() && (#[trigger] before.transcripts[i]).segment.id
            == s.binds[1]->Text_0)
    &&& s.sql == "UPDATE meetings SET metadata = ? WHERE id = ?"@ && binds_two_texts(s) ==> after
        == Tables { meetings: after.meetings, ..before } && annotated(
        before.meetings,
        after.meetings,
        s.binds[1]->Text_0,
        s.binds[0]->Text_0,
    )
}

/// Whether one point in time is not earlier than another.
pub open spec fn not_earlier(a: MeetingView, b: MeetingView) -> bool {
    ||| a.created_at.seconds_part() > b.created_at.seconds_part()
    ||| a.created_at.seconds_part() == b.created_at.seconds_part()
        && a.created_at.nanoseconds_part() >= b.created_at.nanoseconds_part()
}

/// Whether meetings stand with the latest first.
pub open spec fn latest_first(rows: Seq<MeetingView>) -> bool {
    forall|i: int, j: int|
        0 <= i < j < rows.len() ==> not_earlier(#[trigger] rows[i], #[trigger] rows[j])
}

/// At most `limit` rows from row `offset` on.
pub open spec fn page(rows: Seq<SegmentView>, limit: int, offset: int) -> Seq<SegmentView> {
    if offset >= rows.len() {
        Seq::empty()
    } else if offset + limit >= rows.len() {
        rows.subrange(offset, rows.len() as int)
    } else {
        rows.subrange(offset, offset + limit)
    }
}

/// Whether a reply to a statement that fetches rows is what its text says in
/// SQL. `ordered` has, for the meeting that the statement names, its
/// transcripts by their start in the recording.
pub open spec fn answers(
    s: StatementView,
    t: Tables,
    ordered: Seq<SegmentView>,
    reply: ReplyView,
) -> bool {
    &&& s.sql
        == "SELECT id, title, created_at, updated_at, folder_path, metadata FROM meetings ORDER BY created_at DESC"@
        ==> (reply matches ReplyView::Meetings(rows) ==> latest_first(rows) && rows.to_multiset()
        == t.meetings.to_multiset())
    &&& s.sql
        == "SELECT id, title, created_at, updated_at, folder_path, metadata FROM meetings WHERE id = ?"@
        && binds_text(s) ==> (reply matches ReplyView::Meeting(row) ==> match row {
        Some(m) => t.meetings.contains(m) && m.id == s.binds[0]->Text_0,
        None => !has_meeting(t.meetings, s.binds[0]->Text_0),
    })
    &&& s.sql == "SELECT 1 FROM meetings WHERE id = ?"@ && binds_text(s) ==> (
    reply matches ReplyView::Existence(b) ==> b == has_meeting(t.meetings, s.binds[0]->Text_0))
    &&& s.sql == "SELECT COUNT(*) FROM transcripts WHERE meeting_id = ?"@ && binds_text(s) ==> (
    reply matches ReplyView::Count(n) ==> n == transcripts_of(
        t.transcripts,
        s.binds[0]->Text_0,
    ).len())
    &&& s.sql == "SELECT * FROM transcripts WHERE meeting_id = ?"@ && binds_text(s) ==> (
    reply matches ReplyView::Transcripts(rows) ==> rows == transcripts_of(
        t.transcripts,
        s.binds[0]->Text_0,
    ))
    &&& s.sql == "SELECT * FROM transcripts
             WHERE meeting_id = ?
             ORDER BY audio_start_time ASC
             LIMIT ? OFFSET ?"@
        && s.binds.len() == 3 && s.binds[0] is Text && s.binds[1] is Integer && s.binds[2] is Integer
        ==> (ordered.to_multiset() == transcripts_of(
        t.transcripts,
        s.binds[0]->Text_0,
    ).to_multiset() ==> (reply matches ReplyView::Transcripts(rows) ==> rows == page(
        ordered,
        s.binds[1]->Integer_0,
        s.binds[2]->Integer_0,
    )))
    &&& s.sql == "SELECT metadata FROM meetings WHERE id = ?"@ && binds_text(s) ==> (
    reply matches ReplyView::Metadata(row) ==> match row {
        Some(column) => exists|i: int|
            0 <= i < t.meetings.len() && (#[trigger] t.meetings[i]).id == s.binds[0]->Text_0
                && t.meetings[i].metadata == column,
        None => !has_meeting(t.meetings, s.binds[0]->Text_0),
    })
}

/// Whether an action with its reply leads from one state of the tables to
/// another. Nothing is said of what fails.
pub open spec fn leads(
    action: ActionView,
    reply: ReplyView,
    before: Tables,
    after: Tables,
    ordered: Seq<SegmentView>,
) -> bool {
    match action {
        ActionView::Execute(s) => reply matches ReplyView::Affected(n) ==> executes(
            s,
            before,
            after,
            n,
        ),
        ActionView::FetchMeetings(s) => after == before && answers(s, before, ordered, reply),
        ActionView::FetchMeeting(s) => after == before && answers(s, before, ordered, reply),
        ActionView::FetchExistence(s) => after == before && answers(s, before, ordered, reply),
        ActionView::FetchCount(s) => after == before && answers(s, before, ordered, reply),
        ActionView::FetchTranscripts(s) => after == before && answers(s, before, ordered, reply),
        ActionView::FetchMetadata(s) => after == before && answers(s, before, ordered, reply),
        _ => after == before,
    }
}

/// Whether the states of the tables are those through which an operation goes
/// with the given replies.
pub open spec fn goes_through(
    start: ProgressView,
    replies: Seq<ReplyView>,
    states: Seq<Tables>,
    ordered: Seq<SegmentView>,
) -> bool {
    &&& laws::answered(start, replies)
    &&& states.len() == replies.len() + 1
    &&& forall|i: int|
        0 <= i < replies.len() ==> leads(
            laws::performed(start, replies)[i],
            #[trigger] replies[i],
            states[i],
            states[i + 1],
            ordered,
        )
}

/// Every operation that asks for a meeting id refuses one that is blank, and
/// goes to work on any other.
pub proof fn only_blank_ids_are_refused(id: Seq<char>, t: TaskView)
    ensures
        (forall|i: int| 0 <= i < id.len() ==> text::white_space(#[trigger] id[i])) ==> task::on_meeting(
            id,
            t,
        ) == ProgressView::Finished(Err(RepositoryError::EmptyMeetingId)),
        (exists|i: int| 0 <= i < id.len() && !text::white_space(#[trigger] id[i]))
            ==> task::on_meeting(id, t) == ProgressView::Continue(t),
{
}

/// A deletion that reports success leaves no row of the meeting in any table
/// and every row of every other meeting as it was, and there was such a
/// meeting.
pub proof fn a_deleted_meeting_is_gone_with_all_that_belongs_to_it(
    id: Seq<char>,
    replies: Seq<ReplyView>,
    states: Seq<Tables>,
    ordered: Seq<SegmentView>,
)
    requires
        goes_through(
            ProgressView::Continue(
                (TaskView::Delete { meeting_id: id, stage: DeleteStage::Acquire }),
            ),
            replies,
            states,
            ordered,
        ),
        laws::after(
            ProgressView::Continue(
                (TaskView::Delete { meeting_id: id, stage: DeleteStage::Acquire }),
            ),
            replies,
        ) == ProgressView::Finished(Ok(OutcomeView::Changed(true))),
    ensures
        states.last() == (Tables {
            meetings: other_meetings(states[0].meetings, id),
            transcripts: transcripts_of_others(states[0].transcripts, id),
            transcript_chunks: chunks_of_others(states[0].transcript_chunks, id),
            summary_processes: rows_of_others(states[0].summary_processes, id),
            meeting_notes: rows_of_others(states[0].meeting_notes, id),
        }),
        has_meeting(states[0].meetings, id),
{
    let start = task::deleting(id, DeleteStage::Acquire);
    laws::deletion_is_all_or_nothing(id, replies);
    let run = laws::performed(start, replies);
    laws::every_reply_answers_one_action(start, replies);
    laws::a_success_is_without_failures(start, replies);
    assert(run == laws::delete_script(id));
    let n = replies[7]->Affected_0;
    assert(leads(run[0], replies[0], states[0], states[1], ordered));
    assert(leads(run[1], replies[1], states[1], states[2], ordered));
    assert(leads(run[2], replies[2], states[2], states[3], ordered));
    assert(leads(run[3], replies[3], states[3], states[4], ordered));
    assert(leads(run[4], replies[4], states[4], states[5], ordered));
    assert(leads(run[5], replies[5], states[5], states[6], ordered));
    assert(leads(run[6], replies[6], states[6], states[7], ordered));
    assert(leads(run[7], replies[7], states[7], states[8], ordered));
    assert(leads(run[8], replies[8], states[8], states[9], ordered));
    assert(states[3] == states[0]);
    assert(replies[3] is Affected && replies[4] is Affected && replies[5] is Affected && replies[6]
        is Affected);
    assert(states[4].transcript_chunks == chunks_of_others(states[3].transcript_chunks, id));
    assert(states[5].summary_processes == rows_of_others(states[4].summary_processes, id));
    assert(states[6].meeting_notes == rows_of_others(states[5].meeting_notes, id));
    assert(states[7].transcripts == transcripts_of_others(states[6].transcripts, id));
    assert(executes(run[7]->Execute_0, states[7], states[8], n));
    assert(states[8].meetings == other_meetings(states[7].meetings, id));
}

/// The rows of other meetings: none of this meeting, and all of the others.
pub proof fn rows_of_others_are_all_that_stays(t: Tables, id: Seq<char>)
    ensures
        !has_meeting(other_meetings(t.meetings, id), id),
        forall|i: int|
            0 <= i < t.meetings.len() && (#[trigger] t.meetings[i]).id != id ==> other_meetings(
                t.meetings,
                id,
            ).contains(t.meetings[i]),
        transcripts_of(transcripts_of_others(t.transcripts, id), id).len() == 0,
        forall|i: int|
            0 <= i < t.transcripts.len() && (#[trigger] t.transcripts[i]).meeting_id != id
                ==> transcripts_of_others(t.transcripts, id).contains(t.transcripts[i]),
{
    broadcast use vstd::seq_lib::group_filter_ensures;

    let kept = transcripts_of_others(t.transcripts, id);
    let back = kept.filter(|r: TranscriptRow| r.meeting_id == id);
    if back.len() > 0 {
        assert(back[0].meeting_id == id);
        assert(back.contains(back[0]));
        kept.lemma_filter_contains_rev(|r: TranscriptRow| r.meeting_id == id, back[0]);
        let j = choose|j: int| 0 <= j < kept.len() && kept[j] == back[0];
        assert(kept[j].meeting_id != id);
    }
    let others = other_meetings(t.meetings, id);
    assert forall|i: int| 0 <= i < others.len() implies (#[trigger] others[i]).id != id by {}
}

/// A change of title that reports success has given the meeting its new title
/// and changed nothing else but the time of the change; and there was such a
/// meeting.
pub proof fn a_new_title_is_all_that_changes(
    id: Seq<char>,
    title: Seq<char>,
    replies: Seq<ReplyView>,
    states: Seq<Tables>,
    ordered: Seq<SegmentView>,
)
    requires
        goes_through(
            ProgressView::Continue(
                (TaskView::Title { meeting_id: id, new_title: title, stage: TitleStage::Acquire }),
            ),
            replies,
            states,
            ordered,
        ),
        laws::after(
            ProgressView::Continue(
                (TaskView::Title { meeting_id: id, new_title: title, stage: TitleStage::Acquire }),
            ),
            replies,
        ) == ProgressView::Finished(Ok(OutcomeView::Changed(true))),
    ensures
        states.last() == (Tables { meetings: states.last().meetings, ..states[0] }),
        retitled(states[0].meetings, states.last().meetings, id, title),
        has_meeting(states[0].meetings, id),
{
    let start = laws::new_title(id, title);
    laws::a_new_title_is_all_or_nothing(id, title, replies);
    laws::every_reply_answers_one_action(start, replies);
    laws::a_success_is_without_failures(start, replies);
    let run = laws::performed(start, replies);
    assert(run == laws::title_script(id, title));
    assert(leads(run[0], replies[0], states[0], states[1], ordered));
    assert(leads(run[1], replies[1], states[1], states[2], ordered));
    assert(leads(run[2], replies[2], states[2], states[3], ordered));
    assert(leads(run[3], replies[3], states[3], states[4], ordered));
    assert(executes(run[2]->Execute_0, states[2], states[3], replies[2]->Affected_0));
}

/// A change of name that reports success has given the meeting and its chunks
/// their new name and changed nothing else but the time of the change; and
/// there was such a meeting.
pub proof fn a_new_name_is_all_that_changes(
    id: Seq<char>,
    title: Seq<char>,
    replies: Seq<ReplyView>,
    states: Seq<Tables>,
    ordered: Seq<SegmentView>,
)
    requires
        goes_through(
            ProgressView::Continue(
                (TaskView::Name { meeting_id: id, new_title: title, stage: NameStage::Begin }),
            ),
            replies,
            states,
            ordered,
        ),
        laws::after(
            ProgressView::Continue(
                (TaskView::Name { meeting_id: id, new_title: title, stage: NameStage::Begin }),
            ),
            replies,
        ) == ProgressView::Finished(Ok(OutcomeView::Changed(true))),
    ensures
        states.last() == (Tables {
            meetings: states.last().meetings,
            transcript_chunks: states.last().transcript_chunks,
            ..states[0]
        }),
        retitled(states[0].meetings, states.last().meetings, id, title),
        renamed(states[0].transcript_chunks, states.last().transcript_chunks, id, title),
        has_meeting(states[0].meetings, id),
{
    let start = laws::new_name(id, title);
    laws::a_new_name_is_all_or_nothing(id, title, replies);
    laws::every_reply_answers_one_action(start, replies);
    laws::a_success_is_without_failures(start, replies);
    let run = laws::performed(start, replies);
    assert(run == laws::name_script(id, title));
    assert(leads(run[0], replies[0], states[0], states[1], ordered));
    assert(leads(run[1], replies[1], states[1], states[2], ordered));
    assert(leads(run[2], replies[2], states[2], states[3], ordered));
    assert(leads(run[3], replies[3], states[3], states[4], ordered));
    assert(executes(run[1]->Execute_0, states[1], states[2], replies[1]->Affected_0));
    assert(executes(run[2]->Execute_0, states[2], states[3], replies[2]->Affected_0));
}

/// What an operation of one action goes through.
proof fn lemma_one_action(
    t: TaskView,
    replies: Seq<ReplyView>,
    states: Seq<Tables>,
    ordered: Seq<SegmentView>,
)
    requires
        goes_through(ProgressView::Continue(t), replies, states, ordered),
        forall|r: ReplyView| #[trigger] t.next(r) is Finished,
        laws::after(ProgressView::Continue(t), replies) is Finished,
    ensures
        replies.len() == 1,
        laws::after(ProgressView::Continue(t), replies) == t.next(replies[0]),
        leads(t.action(), replies[0], states[0], states[1], ordered),
{
    reveal_with_fuel(laws::answered, 3);
    reveal_with_fuel(laws::after, 3);
    reveal_with_fuel(laws::performed, 3);
    assert(replies.len() > 0);
    assert(t.next(replies.first()) is Finished);
    assert(leads(
        laws::performed(ProgressView::Continue(t), replies)[0],
        replies[0],
        states[0],
        states[1],
        ordered,
    ));
}

/// Giving a transcript segment its speaker changes that and nothing else, and
/// reports whether there is such a segment.
pub proof fn a_new_speaker_is_all_that_changes(
    transcript_id: Seq<char>,
    speaker_id: Seq<char>,
    replies: Seq<ReplyView>,
    states: Seq<Tables>,
    ordered: Seq<SegmentView>,
    changed: bool,
)
    requires
        goes_through(
            ProgressView::Continue((TaskView::Speaker { transcript_id, speaker_id })),
            replies,
            states,
            ordered,
        ),
        laws::after(
            ProgressView::Continue((TaskView::Speaker { transcript_id, speaker_id })),
            replies,
        ) == ProgressView::Finished(Ok(OutcomeView::Changed(changed))),
    ensures
        states.last() == (Tables { transcripts: states.last().transcripts, ..states[0] }),
        respoken(states[0].transcripts, states.last().transcripts, transcript_id, speaker_id),
        changed <==> exists|i: int|
            0 <= i < states[0].transcripts.len() && (
            #[trigger] states[0].transcripts[i]).segment.id == transcript_id,
{
    let t = TaskView::Speaker { transcript_id, speaker_id };
    lemma_one_action(t, replies, states, ordered);
    assert(executes(t.action()->Execute_0, states[0], states[1], replies[0]->Affected_0));
}

/// All meetings are listed, the latest first: each as it is stored, none left
/// out and none added.
pub proof fn all_meetings_are_listed(
    replies: Seq<ReplyView>,
    states: Seq<Tables>,
    ordered: Seq<SegmentView>,
    listed: Seq<MeetingView>,
)
    requires
        goes_through(ProgressView::Continue(TaskView::Meetings), replies, states, ordered),
        laws::after(ProgressView::Continue(TaskView::Meetings), replies)
            == ProgressView::Finished(Ok(OutcomeView::Meetings(listed))),
    ensures
        latest_first(listed),
        listed.to_multiset() == states[0].meetings.to_multiset(),
{
    lemma_one_action(TaskView::Meetings, replies, states, ordered);
}

/// The meetings are listed as the database gives them: as many, in the same
/// order, and each in every part.
pub proof fn meetings_are_listed_in_the_order_of_the_reply(
    rows: Seq<MeetingModel>,
    listed: Seq<MeetingModel>,
)
    requires
        TaskView::Meetings.next(ReplyView::Meetings(models::meetings_view(rows)))
            == ProgressView::Finished(Ok(OutcomeView::Meetings(models::meetings_view(listed)))),
    ensures
        listed.len() == rows.len(),
        forall|i: int|
            0 <= i < rows.len() ==> (#[trigger] listed[i]).id@ == rows[i].id@ && listed[i].title@
                == rows[i].title@ && listed[i].created_at == rows[i].created_at
                && listed[i].updated_at == rows[i].updated_at,
        latest_first(models::meetings_view(rows)) ==> latest_first(models::meetings_view(listed)),
{
    models::stored_meetings_are_seen_whole(rows);
    models::stored_meetings_are_seen_whole(listed);
    assert forall|i: int| 0 <= i < rows.len() implies (#[trigger] listed[i]).id@ == rows[i].id@
        && listed[i].title@ == rows[i].title@ && listed[i].created_at == rows[i].created_at
        && listed[i].updated_at == rows[i].updated_at by {
        assert(models::meetings_view(rows)[i] == models::meetings_view(listed)[i]);
    }
}

/// A meeting without its transcripts is the stored one with that id, if there
/// is one.
pub proof fn the_meeting_with_the_id_is_given(
    id: Seq<char>,
    replies: Seq<ReplyView>,
    states: Seq<Tables>,
    ordered: Seq<SegmentView>,
    given: Option<MeetingView>,
)
    requires
        goes_through(
            ProgressView::Continue((TaskView::Metadata { meeting_id: id })),
            replies,
            states,
            ordered,
        ),
        laws::after(ProgressView::Continue((TaskView::Metadata { meeting_id: id })), replies)
            == ProgressView::Finished(Ok(OutcomeView::Meeting(given))),
    ensures
        match given {
            Some(m) => states[0].meetings.contains(m) && m.id == id,
            None => !has_meeting(states[0].meetings, id),
        },
        states.last() == states[0],
{
    lemma_one_action(TaskView::Metadata { meeting_id: id }, replies, states, ordered);
}

/// The metadata of a meeting are what is stored for it.
pub proof fn the_metadata_of_the_meeting_are_given(
    id: Seq<char>,
    replies: Seq<ReplyView>,
    states: Seq<Tables>,
    ordered: Seq<SegmentView>,
    given: Option<Seq<char>>,
)
    requires
        goes_through(
            ProgressView::Continue((TaskView::MetadataJson { meeting_id: id })),
            replies,
            states,
            ordered,
        ),
        laws::after(ProgressView::Continue((TaskView::MetadataJson { meeting_id: id })), replies)
            == ProgressView::Finished(Ok(OutcomeView::MetadataJson(given))),
    ensures
        has_meeting(states[0].meetings, id) ==> exists|i: int|
            0 <= i < states[0].meetings.len() && (#[trigger] states[0].meetings[i]).id == id
                && states[0].meetings[i].metadata == given,
        !has_meeting(states[0].meetings, id) ==> given is None,
        states.last() == states[0],
{
    lemma_one_action(TaskView::MetadataJson { meeting_id: id }, replies, states, ordered);
}

/// A meeting is shown with its own title, all of its transcripts and no others,
/// in the order of the table, and with the names in its own metadata; it is not
/// found exactly if it is not there.
pub proof fn a_meeting_is_shown_with_all_that_is_stored_for_it(
    id: Seq<char>,
    replies: Seq<ReplyView>,
    states: Seq<Tables>,
    ordered: Seq<SegmentView>,
)
    requires
        goes_through(
            ProgressView::Continue(
                (TaskView::Details { meeting_id: id, stage: DetailsStageView::Acquire }),
            ),
            replies,
            states,
            ordered,
        ),
    ensures
        ({
            let end = laws::after(
                ProgressView::Continue(
                    (TaskView::Details { meeting_id: id, stage: DetailsStageView::Acquire }),
                ),
                replies,
            );
            &&& end matches ProgressView::Finished(Ok(outcome)) ==> outcome matches OutcomeView::Details(
                Some(shown),
            ) && {
                &&& shown.id == id
                &&& shown.transcripts == transcripts_of(states[0].transcripts, id)
                &&& exists|i: int|
                    0 <= i < states[0].meetings.len() && (#[trigger] states[0].meetings[i]).id == id
                        && states[0].meetings[i].title == shown.title && shown.speaker_names
                        == metadata::names_in_text(states[0].meetings[i].metadata)
            }
            &&& end == ProgressView::Finished(Err(RepositoryError::RowNotFound)) ==> !has_meeting(
                states[0].meetings,
                id,
            )
            &&& end is Finished ==> states.last() == states[0]
        }),
{
    reveal_with_fuel(laws::answered, 7);
    reveal_with_fuel(laws::after, 7);
    reveal_with_fuel(laws::performed, 7);
    let start = ProgressView::Continue(
        TaskView::Details { meeting_id: id, stage: DetailsStageView::Acquire },
    );
    let run = laws::performed(start, replies);
    let n = replies.len();
    let (r1, r2) = (replies.drop_first(), replies.drop_first().drop_first());
    let (r3, r4) = (r2.drop_first(), r2.drop_first().drop_first());
    assert(n > 1 ==> r1.first() == replies[1]);
    assert(n > 2 ==> r2.first() == replies[2]);
    assert(n > 3 ==> r3.first() == replies[3]);
    assert(n > 4 ==> r4.first() == replies[4]);
    assert(n > 0 ==> leads(run[0], replies[0], states[0], states[1], ordered));
    assert(n > 1 ==> leads(run[1], replies[1], states[1], states[2], ordered));
    assert(n > 2 ==> leads(run[2], replies[2], states[2], states[3], ordered));
    assert(n > 3 ==> leads(run[3], replies[3], states[3], states[4], ordered));
    assert(n > 4 ==> leads(run[4], replies[4], states[4], states[5], ordered));
    assert(n <= 5);
    if n > 2 && replies[2] matches ReplyView::Meeting(Some(_)) {
        let m = replies[2]->Meeting_0->0;
        if states[2].meetings.contains(m) {
            let i = choose|i: int| 0 <= i < states[2].meetings.len() && states[2].meetings[i] == m;
            assert(states[2].meetings[i].id == m.id);
        }
    }
}

/// A page of transcripts asks for the caller's meeting, limit and offset,
/// whatever they are.
pub proof fn a_page_is_asked_for_by_the_callers_numbers(
    id: Seq<char>,
    limit: int,
    offset: int,
    total: int,
)
    ensures
        (TaskView::CountTranscripts { meeting_id: id, limit, offset }).next(ReplyView::Count(total))
            matches ProgressView::Continue(t) && t.action() matches ActionView::FetchTranscripts(s)
            && s.binds.len() == 3 && s.binds[0] == BindView::Text(id) && s.binds[1]
            == BindView::Integer(limit) && s.binds[2] == BindView::Integer(offset),
{
}

/// A page of transcripts holds the rows from `offset` on, as many as `limit`
/// and the rows that are there allow; with it comes how many the meeting has.
/// A limit that reaches the end gives every row.
pub proof fn a_page_holds_the_rows_that_were_asked_for(
    id: Seq<char>,
    limit: int,
    offset: int,
    replies: Seq<ReplyView>,
    states: Seq<Tables>,
    ordered: Seq<SegmentView>,
    rows: Seq<SegmentView>,
    total: int,
)
    requires
        limit >= 0,
        offset >= 0,
        ordered.to_multiset() == transcripts_of(states[0].transcripts, id).to_multiset(),
        goes_through(
            ProgressView::Continue((TaskView::CountTranscripts { meeting_id: id, limit, offset })),
            replies,
            states,
            ordered,
        ),
        laws::after(
            ProgressView::Continue((TaskView::CountTranscripts { meeting_id: id, limit, offset })),
            replies,
        ) == ProgressView::Finished(Ok(OutcomeView::Transcripts(rows, total))),
    ensures
        total == ordered.len(),
        rows.len() == if offset >= total {
            0
        } else if total - offset < limit {
            total - offset
        } else {
            limit
        },
        forall|i: int| 0 <= i < rows.len() ==> #[trigger] rows[i] == ordered[offset + i],
        offset == 0 && limit >= total ==> rows == ordered,
        states.last() == states[0],
{
    reveal_with_fuel(laws::answered, 4);
    reveal_with_fuel(laws::after, 4);
    reveal_with_fuel(laws::performed, 4);
    ordered.to_multiset_ensures();
    transcripts_of(states[0].transcripts, id).to_multiset_ensures();
    let start = ProgressView::Continue(
        TaskView::CountTranscripts { meeting_id: id, limit, offset },
    );
    let run = laws::performed(start, replies);
    let n = replies.len();
    let r1 = replies.drop_first();
    assert(n > 1 ==> r1.first() == replies[1]);
    assert(n > 0 ==> leads(run[0], replies[0], states[0], states[1], ordered));
    assert(n > 1 ==> leads(run[1], replies[1], states[1], states[2], ordered));
    assert(n == 2);
    assert(rows == page(ordered, limit, offset));
    assert(ordered.len() == transcripts_of(states[0].transcripts, id).len());
    assert(offset == 0 && limit >= total ==> rows =~= ordered);
}

/// Two pages that follow one another hold the same rows as one page of their
/// size.
pub proof fn pages_join_up(rows: Seq<SegmentView>, first: int, second: int, offset: int)
    requires
        first >= 0,
        second >= 0,
        offset >= 0,
    ensures
        page(rows, first, offset) + page(rows, second, offset + first) == page(
            rows,
            first + second,
            offset,
        ),
{
    assert(page(rows, first, offset) + page(rows, second, offset + first) =~= page(
        rows,
        first + second,
        offset,
    ));
}

/// Saving metadata stores, for the meeting with the id, the new metadata merged
/// into what was stored for it, and changes nothing else.
pub proof fn saved_metadata_are_all_that_changes(
    id: Seq<char>,
    new: Seq<char>,
    replies: Seq<ReplyView>,
    states: Seq<Tables>,
    ordered: Seq<SegmentView>,
)
    requires
        goes_through(
            ProgressView::Continue((TaskView::LoadMetadata { meeting_id: id, metadata_json: new })),
            replies,
            states,
            ordered,
        ),
        laws::after(
            ProgressView::Continue((TaskView::LoadMetadata { meeting_id: id, metadata_json: new })),
            replies,
        ) == ProgressView::Finished(Ok(OutcomeView::Saved)),
        forall|i: int, j: int|
            0 <= i < j < states[0].meetings.len() ==> (#[trigger] states[0].meetings[i]).id != (
            #[trigger] states[0].meetings[j]).id,
    ensures
        states.last() == (Tables { meetings: states.last().meetings, ..states[0] }),
        states.last().meetings.len() == states[0].meetings.len(),
        forall|i: int|
            0 <= i < states[0].meetings.len() ==> {
                let m = #[trigger] states[0].meetings[i];
                states.last().meetings[i] == if m.id == id {
                    MeetingView { metadata: Some(metadata::merged_text(m.metadata, new)), ..m }
                } else {
                    m
                }
            },
{
    reveal_with_fuel(laws::answered, 4);
    reveal_with_fuel(laws::after, 4);
    reveal_with_fuel(laws::performed, 4);
    let start = ProgressView::Continue(
        TaskView::LoadMetadata { meeting_id: id, metadata_json: new },
    );
    let run = laws::performed(start, replies);
    let n = replies.len();
    let r1 = replies.drop_first();
    assert(n > 1 ==> r1.first() == replies[1]);
    assert(n > 0 ==> leads(run[0], replies[0], states[0], states[1], ordered));
    assert(n > 1 ==> leads(run[1], replies[1], states[1], states[2], ordered));
    assert(n == 2);
    assert(executes(run[1]->Execute_0, states[1], states[2], replies[1]->Affected_0));
}

/// A deletion that reports that nothing was deleted found no such meeting.
pub proof fn nothing_is_deleted_only_if_there_is_no_such_meeting(
    id: Seq<char>,
    replies: Seq<ReplyView>,
    states: Seq<Tables>,
    ordered: Seq<SegmentView>,
)
    requires
        goes_through(task::deleting(id, DeleteStage::Acquire), replies, states, ordered),
        laws::after(task::deleting(id, DeleteStage::Acquire), replies) == ProgressView::Finished(
            Ok(OutcomeView::Changed(false)),
        ),
    ensures
        !has_meeting(states[0].meetings, id),
{
    let start = task::deleting(id, DeleteStage::Acquire);
    laws::every_reply_answers_one_action(start, replies);
    laws::a_success_is_without_failures(start, replies);
    lemma_nothing_deleted(id, DeleteStage::Acquire, replies, states, ordered);
}

proof fn lemma_nothing_deleted(
    id: Seq<char>,
    stage: DeleteStage,
    replies: Seq<ReplyView>,
    states: Seq<Tables>,
    ordered: Seq<SegmentView>,
)
    requires
        goes_through(task::deleting(id, stage), replies, states, ordered),
        stage != DeleteStage::Rollback,
        stage != DeleteStage::RollbackFailed,
        laws::after(task::deleting(id, stage), replies) == ProgressView::Finished(
            Ok(OutcomeView::Changed(false)),
        ),
        forall|i: int| 0 <= i < replies.len() ==> !(#[trigger] replies[i] is Failed),
    ensures
        !has_meeting(states[0].meetings, id),
    decreases replies.len(),
{
    let start = task::deleting(id, stage);
    let run = laws::performed(start, replies);
    assert(replies.len() > 0);
    let (r, tail) = (replies.first(), replies.drop_first());
    let next = task::delete_next(id, stage, r);
    let later = states.drop_first();
    assert(replies[0] == r);
    assert(!(r is Failed));
    assert(run[0] == task::delete_action(id, stage));
    assert(leads(run[0], replies[0], states[0], states[1], ordered));
    reveal_with_fuel(laws::after, 2);
    if next is Continue {
        let s = next->Continue_0->Delete_stage;
        assert(next == task::deleting(id, s));
        if s != DeleteStage::Rollback {
            assert(goes_through(next, tail, later, ordered)) by {
                assert(laws::answered(next, tail));
                laws::every_reply_answers_one_action(next, tail);
                assert(run == seq![task::delete_action(id, stage)] + laws::performed(next, tail));
                assert forall|i: int| 0 <= i < tail.len() implies leads(
                    laws::performed(next, tail)[i],
                    #[trigger] tail[i],
                    later[i],
                    later[i + 1],
                    ordered,
                ) by {
                    assert(tail[i] == replies[i + 1]);
                    assert(laws::performed(next, tail)[i] == run[i + 1]);
                }
            }
            assert forall|i: int| 0 <= i < tail.len() implies !(#[trigger] tail[i] is Failed) by {
                assert(tail[i] == replies[i + 1]);
            }
            lemma_nothing_deleted(id, s, tail, later, ordered);
            assert(states[1].meetings == states[0].meetings);
        }
    }
}

/// A change of title that reports no change found no such meeting.
pub proof fn no_title_is_changed_only_if_there_is_no_such_meeting(
    id: Seq<char>,
    title: Seq<char>,
    replies: Seq<ReplyView>,
    states: Seq<Tables>,
    ordered: Seq<SegmentView>,
)
    requires
        goes_through(laws::new_title(id, title), replies, states, ordered),
        laws::after(laws::new_title(id, title), replies) == ProgressView::Finished(
            Ok(OutcomeView::Changed(false)),
        ),
    ensures
        !has_meeting(states[0].meetings, id),
{
    reveal_with_fuel(laws::answered, 6);
    reveal_with_fuel(laws::after, 6);
    reveal_with_fuel(laws::performed, 6);
    let run = laws::performed(laws::new_title(id, title), replies);
    let n = replies.len();
    let (r1, r2) = (replies.drop_first(), replies.drop_first().drop_first());
    let r3 = r2.drop_first();
    assert(n > 1 ==> r1.first() == replies[1]);
    assert(n > 2 ==> r2.first() == replies[2]);
    assert(n > 3 ==> r3.first() == replies[3]);
    assert(n > 0 ==> leads(run[0], replies[0], states[0], states[1], ordered));
    assert(n > 1 ==> leads(run[1], replies[1], states[1], states[2], ordered));
    assert(n > 2 ==> leads(run[2], replies[2], states[2], states[3], ordered));
    assert(n == 4);
    assert(executes(run[2]->Execute_0, states[2], states[3], replies[2]->Affected_0));
}

/// A change of name that reports no change found no such meeting.
pub proof fn no_name_is_changed_only_if_there_is_no_such_meeting(
    id: Seq<char>,
    title: Seq<char>,
    replies: Seq<ReplyView>,
    states: Seq<Tables>,
    ordered: Seq<SegmentView>,
)
    requires
        goes_through(laws::new_name(id, title), replies, states, ordered),
        laws::after(laws::new_name(id, title), replies) == ProgressView::Finished(
            Ok(OutcomeView::Changed(false)),
        ),
    ensures
        !has_meeting(states[0].meetings, id),
{
    reveal_with_fuel(laws::answered, 6);
    reveal_with_fuel(laws::after, 6);
    reveal_with_fuel(laws::performed, 6);
    let run = laws::performed(laws::new_name(id, title), replies);
    let n = replies.len();
    let (r1, r2) = (replies.drop_first(), replies.drop_first().drop_first());
    assert(n > 1 ==> r1.first() == replies[1]);
    assert(n > 2 ==> r2.first() == replies[2]);
    assert(n > 0 ==> leads(run[0], replies[0], states[0], states[1], ordered));
    assert(n > 1 ==> leads(run[1], replies[1], states[1], states[2], ordered));
    assert(n >= 2);
    assert(executes(run[1]->Execute_0, states[1], states[2], replies[1]->Affected_0));
}

} // verus!
