//! What holds of every run of an operation, whatever the database replies.

use crate::json;
use crate::metadata;
use crate::models::{self, MeetingView, SegmentView};
use crate::repository::protocol::{
    self, ActionView, BindView, DeleteStage, NameStage, OutcomeView, ProgressView, ReplyView,
    RepositoryError, StatementView, TaskView, TitleStage,
};
use crate::repository::task;
use vstd::prelude::*;

verus! {

/// Where an operation stands after the given replies.
pub open spec fn after(start: ProgressView, replies: Seq<ReplyView>) -> ProgressView
    decreases replies.len(),
{
    match start {
        ProgressView::Continue(t) if replies.len() > 0 => after(
            t.next(replies.first()),
            replies.drop_first(),
        ),
        _ => start,
    }
}

/// The actions that the given replies answer.
pub open spec fn performed(start: ProgressView, replies: Seq<ReplyView>) -> Seq<ActionView>
    decreases replies.len(),
{
    match start {
        ProgressView::Continue(t) if replies.len() > 0 => seq![t.action()] + performed(
            t.next(replies.first()),
            replies.drop_first(),
        ),
        _ => Seq::empty(),
    }
}

/// Whether every reply is one that the action can get, and none comes after
/// the end.
pub open spec fn answered(start: ProgressView, replies: Seq<ReplyView>) -> bool
    decreases replies.len(),
{
    replies.len() > 0 ==> match start {
        ProgressView::Continue(t) => protocol::fits(t.action(), replies.first()) && answered(
            t.next(replies.first()),
            replies.drop_first(),
        ),
        ProgressView::Finished(_) => false,
    }
}

/// A bound on the number of actions that a task still takes.
pub open spec fn actions_left(t: TaskView) -> nat {
    match t {
        TaskView::Delete { stage, .. } => match stage {
            DeleteStage::Acquire => 9,
            DeleteStage::Begin => 8,
            DeleteStage::Lookup => 7,
            DeleteStage::TranscriptChunks => 6,
            DeleteStage::SummaryProcesses => 5,
            DeleteStage::MeetingNotes => 4,
            DeleteStage::Transcripts => 3,
            DeleteStage::Meeting => 2,
            _ => 1,
        },
        TaskView::Details { stage, .. } => match stage {
            protocol::DetailsStageView::Acquire => 5,
            protocol::DetailsStageView::Begin => 4,
            protocol::DetailsStageView::Lookup => 3,
            protocol::DetailsStageView::Transcripts(_) => 2,
            _ => 1,
        },
        TaskView::Title { stage, .. } => match stage {
            TitleStage::Acquire => 4,
            TitleStage::Begin => 3,
            TitleStage::Update => 2,
            _ => 1,
        },
        TaskView::Name { stage, .. } => match stage {
            NameStage::Begin => 4,
            NameStage::Update => 3,
            NameStage::UpdateChunks => 2,
            _ => 1,
        },
        TaskView::CountTranscripts { .. } => 2,
        TaskView::LoadMetadata { .. } => 2,
        _ => 1,
    }
}

/// Every reply brings an operation closer to its end, so that every operation
/// ends.
pub proof fn every_reply_is_progress(t: TaskView, reply: ReplyView)
    requires
        protocol::fits(t.action(), reply),
    ensures
        1 <= actions_left(t) <= 9,
        t.next(reply) matches ProgressView::Continue(u) ==> actions_left(u) < actions_left(t),
{
}

/// When the database fails, nothing more is asked of it but to roll back, and
/// the operation reports the failure, whatever the rollback says.
pub proof fn a_failure_ends_the_operation(t: TaskView, reply: ReplyView)
    ensures
        t.next(ReplyView::Failed) matches ProgressView::Continue(u) ==> u.action()
            == ActionView::Rollback && u.next(reply) == task::failed(),
        t.next(ReplyView::Failed) matches ProgressView::Finished(r) ==> r == Err::<
            OutcomeView,
            _,
        >(RepositoryError::Database),
{
}

/// A commit or a rollback is the last thing that an operation asks.
pub proof fn a_transaction_ends_the_operation(t: TaskView, reply: ReplyView)
    requires
        t.action() == ActionView::Commit || t.action() == ActionView::Rollback,
    ensures
        t.next(reply) is Finished,
{
}

/// Runs a statement that changes rows, with one text for its only placeholder.
pub open spec fn execute_for(sql: Seq<char>, id: Seq<char>) -> ActionView {
    ActionView::Execute(StatementView { sql, binds: seq![BindView::Text(id)] })
}

/// What a deletion asks of the database if nothing fails: the rows that depend
/// on the meeting go before the meeting.
pub open spec fn delete_script(id: Seq<char>) -> Seq<ActionView> {
    seq![
        ActionView::Acquire,
        ActionView::Begin,
        ActionView::FetchExistence(
            StatementView {
                sql: "SELECT 1 FROM meetings WHERE id = ?"@,
                binds: seq![BindView::Text(id)],
            },
        ),
        execute_for("DELETE FROM transcript_chunks WHERE meeting_id = ?"@, id),
        execute_for("DELETE FROM summary_processes WHERE meeting_id = ?"@, id),
        execute_for("DELETE FROM meeting_notes WHERE meeting_id = ?"@, id),
        execute_for("DELETE FROM transcripts WHERE meeting_id = ?"@, id),
        execute_for("DELETE FROM meetings WHERE id = ?"@, id),
        ActionView::Commit,
    ]
}

/// The place of a stage in the script of a deletion.
pub open spec fn delete_place(stage: DeleteStage) -> int {
    match stage {
        DeleteStage::Acquire => 0,
        DeleteStage::Begin => 1,
        DeleteStage::Lookup => 2,
        DeleteStage::TranscriptChunks => 3,
        DeleteStage::SummaryProcesses => 4,
        DeleteStage::MeetingNotes => 5,
        DeleteStage::Transcripts => 6,
        DeleteStage::Meeting => 7,
        DeleteStage::Commit => 8,
        DeleteStage::Rollback => 9,
        DeleteStage::RollbackFailed => 9,
    }
}

/// Every reply answers one action, and is one that the action can get.
pub proof fn every_reply_answers_one_action(start: ProgressView, replies: Seq<ReplyView>)
    requires
        answered(start, replies),
    ensures
        performed(start, replies).len() == replies.len(),
        forall|i: int|
            0 <= i < replies.len() ==> protocol::fits(
                performed(start, replies)[i],
                #[trigger] replies[i],
            ),
    decreases replies.len(),
{
    match start {
        ProgressView::Continue(t) if replies.len() > 0 => {
            let tail = replies.drop_first();
            every_reply_answers_one_action(t.next(replies.first()), tail);
            assert forall|i: int| 0 <= i < replies.len() implies protocol::fits(
                performed(start, replies)[i],
                #[trigger] replies[i],
            ) by {
                if i > 0 {
                    assert(tail[i - 1] == replies[i]);
                }
            }
        },
        _ => {},
    }
}

/// An operation succeeds only if nothing that it asks of the database fails.
pub proof fn a_success_is_without_failures(start: ProgressView, replies: Seq<ReplyView>)
    requires
        answered(start, replies),
        after(start, replies) matches ProgressView::Finished(r) && r is Ok,
    ensures
        forall|i: int| 0 <= i < replies.len() ==> !(#[trigger] replies[i] is Failed),
    decreases replies.len(),
{
    match start {
        ProgressView::Continue(t) if replies.len() > 0 => {
            let tail = replies.drop_first();
            let next = t.next(replies.first());
            if replies.first() is Failed {
                a_failure_ends_the_operation(t, tail.first());
                reveal_with_fuel(after, 3);
                assert(false);
            }
            a_success_is_without_failures(next, tail);
            assert forall|i: int| 0 <= i < replies.len() implies !(#[trigger] replies[i] is Failed) by {
                if i > 0 {
                    assert(tail[i - 1] == replies[i]);
                }
            }
        },
        _ => {},
    }
}

/// What is left of a run of which only a rollback remains.
proof fn lemma_rollback_run(id: Seq<char>, stage: DeleteStage, replies: Seq<ReplyView>)
    requires
        delete_place(stage) == 9,
        answered(task::deleting(id, stage), replies),
    ensures
        replies.len() <= 1,
        replies.len() == 1 ==> performed(task::deleting(id, stage), replies)
            == seq![ActionView::Rollback],
        after(task::deleting(id, stage), replies) != task::ok(OutcomeView::Changed(true)),
{
    reveal_with_fuel(answered, 3);
    reveal_with_fuel(performed, 3);
    reveal_with_fuel(after, 3);
    if replies.len() > 0 {
        assert(performed(task::deleting(id, stage), replies) =~= seq![ActionView::Rollback]);
    }
}

/// A run from a stage of the script follows the script from there.
proof fn lemma_delete_run(id: Seq<char>, stage: DeleteStage, replies: Seq<ReplyView>)
    requires
        delete_place(stage) <= 8,
        answered(task::deleting(id, stage), replies),
    ensures
        follows_script(
            performed(task::deleting(id, stage), replies),
            delete_script(id).skip(delete_place(stage)),
        ),
        after(task::deleting(id, stage), replies) == task::ok(OutcomeView::Changed(true)) <==> (
        performed(task::deleting(id, stage), replies) == delete_script(id).skip(
            delete_place(stage),
        ) && replies.last() == ReplyView::Done),
        after(task::deleting(id, stage), replies) == task::ok(OutcomeView::Changed(true))
            && delete_place(stage) <= 7 ==> (replies[7 - delete_place(stage)]
            matches ReplyView::Affected(n) && n > 0),
    decreases 9 - delete_place(stage),
{
    let p = delete_place(stage);
    let start = task::deleting(id, stage);
    let rest = delete_script(id).skip(p);
    let run = performed(start, replies);
    every_reply_answers_one_action(start, replies);
    assert(rest.len() == 9 - p);
    assert(rest[0] == task::delete_action(id, stage));
    if replies.len() == 0 {
        assert(run.is_prefix_of(rest));
    } else {
        let r = replies.first();
        let tail = replies.drop_first();
        let next = task::delete_next(id, stage, r);
        let more = performed(next, tail);
        let rest2 = delete_script(id).skip(p + 1);
        assert(answered(next, tail));
        assert(run == seq![rest[0]] + more);
        assert(rest =~= seq![rest[0]] + rest2);
        if next is Finished {
            assert(tail.len() == 0);
            assert(more.len() == 0);
            assert(run =~= seq![rest[0]]);
            assert(run.is_prefix_of(rest));
            reveal_with_fuel(after, 2);
            assert(after(start, replies) == next);
        } else {
            let s = next->Continue_0->Delete_stage;
            assert(next == task::deleting(id, s));
            if delete_place(s) == 9 {
                lemma_rollback_run(id, s, tail);
                if tail.len() > 0 {
                    assert(run =~= seq![rest[0], ActionView::Rollback]);
                    assert(run.drop_last() =~= seq![rest[0]]);
                    assert(run.drop_last().is_prefix_of(rest));
                } else {
                    assert(run =~= seq![rest[0]]);
                    assert(run.is_prefix_of(rest));
                }
                if run == rest {
                    assert(rest.last() == ActionView::Commit);
                    assert(run.last() != ActionView::Commit);
                }
            } else {
                assert(delete_place(s) == p + 1);
                lemma_delete_run(id, s, tail);
                lemma_prefixed_script(rest[0], more, rest2);
                if run == rest {
                    assert(more =~= run.drop_first());
                    assert(rest2 =~= rest.drop_first());
                }
                if tail.len() > 0 {
                    assert(tail.last() == replies.last());
                }
                if after(start, replies) == task::ok(OutcomeView::Changed(true)) {
                    assert(more == rest2);
                    if p < 7 {
                        assert(replies[7 - p] == tail[7 - (p + 1)]);
                    }
                }
            }
        }
    }
}

/// Whether a run follows a script, possibly up to a point only, or up to a
/// point before the commit and then rolls back.
pub open spec fn follows_script(run: Seq<ActionView>, script: Seq<ActionView>) -> bool {
    ||| run.is_prefix_of(script)
    ||| {
        &&& run.len() > 0
        &&& run.last() == ActionView::Rollback
        &&& run.drop_last().is_prefix_of(script)
        &&& !run.contains(ActionView::Commit)
    }
}

proof fn lemma_prefixed_script(a: ActionView, run: Seq<ActionView>, script: Seq<ActionView>)
    requires
        follows_script(run, script),
        a != ActionView::Commit,
    ensures
        follows_script(seq![a] + run, seq![a] + script),
{
    let longer = seq![a] + run;
    if run.is_prefix_of(script) {
        assert(longer.is_prefix_of(seq![a] + script));
    } else {
        assert(longer.drop_last() =~= seq![a] + run.drop_last());
        assert(longer.drop_last().is_prefix_of(seq![a] + script));
        assert forall|i: int| 0 <= i < longer.len() implies longer[i] != ActionView::Commit by {
            if i > 0 {
                assert(run.contains(run[i - 1]));
            }
        }
    }
}

/// A deletion is all or nothing. Whatever the database replies, a deletion
/// follows its script, possibly up to a point only, and then rolls back or
/// ends; it reports that the meeting was deleted exactly if the whole script
/// was followed and the commit at its end succeeded, and then the meeting's
/// own row was deleted; and it asks for a commit only at the end of the script.
pub proof fn deletion_is_all_or_nothing(id: Seq<char>, replies: Seq<ReplyView>)
    requires
        answered(task::deleting(id, DeleteStage::Acquire), replies),
    ensures
        ({
            let start = task::deleting(id, DeleteStage::Acquire);
            let run = performed(start, replies);
            let end = after(start, replies);
            &&& follows_script(run, delete_script(id))
            &&& end == task::ok(OutcomeView::Changed(true)) <==> (run == delete_script(id)
                && replies.last() == ReplyView::Done)
            &&& end == task::ok(OutcomeView::Changed(true)) ==> (replies[7]
                matches ReplyView::Affected(n) && n > 0)
            &&& run.contains(ActionView::Commit) ==> run == delete_script(id)
        }),
{
    let start = task::deleting(id, DeleteStage::Acquire);
    let run = performed(start, replies);
    let script = delete_script(id);
    lemma_delete_run(id, DeleteStage::Acquire, replies);
    assert(script.skip(0) =~= script);
    if run.contains(ActionView::Commit) {
        let i = choose|i: int| 0 <= i < run.len() && run[i] == ActionView::Commit;
        assert(run[i] == script[i]);
        assert(i == 8);
        assert(run =~= script);
    }
}

/// What a change of title asks of the database if nothing fails.
pub open spec fn title_script(id: Seq<char>, title: Seq<char>) -> Seq<ActionView> {
    seq![
        ActionView::Acquire,
        ActionView::Begin,
        ActionView::Execute(
            StatementView {
                sql: "UPDATE meetings SET title = ?, updated_at = ? WHERE id = ?"@,
                binds: seq![BindView::Text(title), BindView::NaiveUtcNow, BindView::Text(id)],
            },
        ),
        ActionView::Commit,
    ]
}

/// A change of title that begins.
pub open spec fn new_title(id: Seq<char>, title: Seq<char>) -> ProgressView {
    ProgressView::Continue(
        TaskView::Title { meeting_id: id, new_title: title, stage: TitleStage::Acquire },
    )
}

/// A change of title is all or nothing. Whatever the database replies, it
/// follows its script, possibly up to a point only, and then rolls back or
/// ends; it reports a change exactly if the commit at the end of the script
/// succeeded, and then a row was changed; and it asks for a commit only at the
/// end of the script.
pub proof fn a_new_title_is_all_or_nothing(
    id: Seq<char>,
    title: Seq<char>,
    replies: Seq<ReplyView>,
)
    requires
        answered(new_title(id, title), replies),
    ensures
        ({
            let run = performed(new_title(id, title), replies);
            let end = after(new_title(id, title), replies);
            let script = title_script(id, title);
            &&& follows_script(run, script)
            &&& end == task::ok(OutcomeView::Changed(true)) <==> (run.contains(ActionView::Commit)
                && replies.last() == ReplyView::Done)
            &&& end == task::ok(OutcomeView::Changed(true)) ==> (replies[2]
                matches ReplyView::Affected(n) && n > 0)
            &&& run.contains(ActionView::Commit) ==> run == script
        }),
{
    reveal_with_fuel(answered, 6);
    reveal_with_fuel(performed, 6);
    reveal_with_fuel(after, 6);
    let start = new_title(id, title);
    let script = title_script(id, title);
    let run = performed(start, replies);
    every_reply_answers_one_action(start, replies);
    let (r1, r2, r3) = (
        replies.drop_first(),
        replies.drop_first().drop_first(),
        replies.drop_first().drop_first().drop_first(),
    );
    assert(replies.len() > 0 ==> run[0] == script[0]);
    assert(replies.len() > 1 ==> run[1] == script[1] && r1.first() == replies[1]);
    assert(replies.len() > 2 ==> r2.first() == replies[2]);
    assert(replies.len() > 3 ==> r3.first() == replies[3]);
    assert(replies.len() <= 4);
    if replies.len() > 0 && run.last() == ActionView::Rollback {
        assert(run.drop_last().is_prefix_of(script));
        assert forall|i: int| 0 <= i < run.len() implies run[i] != ActionView::Commit by {}
    } else {
        assert(run.is_prefix_of(script));
        if run.len() == 4 {
            assert(run[3] == ActionView::Commit);
            assert(run =~= script);
        }
    }
}

/// What a change of name asks of the database if nothing fails.
pub open spec fn name_script(id: Seq<char>, title: Seq<char>) -> Seq<ActionView> {
    seq![
        ActionView::Begin,
        ActionView::Execute(
            StatementView {
                sql: "UPDATE meetings SET title = ?, updated_at = ? WHERE id = ?"@,
                binds: seq![BindView::Text(title), BindView::UtcNow, BindView::Text(id)],
            },
        ),
        ActionView::Execute(
            StatementView {
                sql: "UPDATE transcript_chunks SET meeting_name = ? WHERE meeting_id = ?"@,
                binds: seq![BindView::Text(title), BindView::Text(id)],
            },
        ),
        ActionView::Commit,
    ]
}

/// A change of name that begins.
pub open spec fn new_name(id: Seq<char>, title: Seq<char>) -> ProgressView {
    ProgressView::Continue(
        TaskView::Name { meeting_id: id, new_title: title, stage: NameStage::Begin },
    )
}

/// A change of name is all or nothing, the chunks of the transcript included.
/// Whatever the database replies, it follows its script, possibly up to a point
/// only, and then rolls back or ends; it reports a change exactly if the commit
/// at the end of the script succeeded, and then the meeting's row was changed;
/// and it asks for a commit only at the end of the script.
pub proof fn a_new_name_is_all_or_nothing(
    id: Seq<char>,
    title: Seq<char>,
    replies: Seq<ReplyView>,
)
    requires
        answered(new_name(id, title), replies),
    ensures
        ({
            let run = performed(new_name(id, title), replies);
            let end = after(new_name(id, title), replies);
            let script = name_script(id, title);
            &&& follows_script(run, script)
            &&& end == task::ok(OutcomeView::Changed(true)) <==> (run.contains(ActionView::Commit)
                && replies.last() == ReplyView::Done)
            &&& end == task::ok(OutcomeView::Changed(true)) ==> (replies[1]
                matches ReplyView::Affected(n) && n > 0)
            &&& run.contains(ActionView::Commit) ==> run == script
        }),
{
    reveal_with_fuel(answered, 6);
    reveal_with_fuel(performed, 6);
    reveal_with_fuel(after, 6);
    let start = new_name(id, title);
    let script = name_script(id, title);
    let run = performed(start, replies);
    every_reply_answers_one_action(start, replies);
    let (r1, r2, r3) = (
        replies.drop_first(),
        replies.drop_first().drop_first(),
        replies.drop_first().drop_first().drop_first(),
    );
    assert(replies.len() > 0 ==> run[0] == script[0]);
    assert(replies.len() > 1 ==> run[1] == script[1] && r1.first() == replies[1]);
    assert(replies.len() > 2 ==> r2.first() == replies[2]);
    assert(replies.len() > 3 ==> r3.first() == replies[3]);
    assert(replies.len() <= 4);
    if replies.len() > 0 && run.last() == ActionView::Rollback {
        assert(run.drop_last().is_prefix_of(script));
        assert forall|i: int| 0 <= i < run.len() implies run[i] != ActionView::Commit by {}
    } else {
        assert(run.is_prefix_of(script));
        if run.len() == 4 {
            assert(run[3] == ActionView::Commit);
            assert(run =~= script);
        }
    }
}

/// Whether an operation changes or deletes a meeting in a transaction.
pub open spec fn changes_a_meeting(t: TaskView) -> bool {
    t is Delete || t is Title || t is Name
}

/// That a meeting was changed is reported exactly when the commit has
/// succeeded, and that none was, exactly when the rollback has.
pub proof fn a_change_is_reported_when_it_is_committed(t: TaskView, reply: ReplyView)
    requires
        changes_a_meeting(t),
        protocol::fits(t.action(), reply),
    ensures
        t.next(reply) == task::ok(OutcomeView::Changed(true)) <==> t.action() == ActionView::Commit
            && reply == ReplyView::Done,
        t.next(reply) == task::ok(OutcomeView::Changed(false)) <==> t.action()
            == ActionView::Rollback && reply == ReplyView::Done && !(t matches TaskView::Delete {
            stage: DeleteStage::RollbackFailed,
            ..
        }),
{
}

/// A meeting that no statement found is not changed: where the statement that
/// changes or deletes the meeting's own row has changed none, a rollback
/// follows.
pub proof fn without_a_changed_row_comes_a_rollback(t: TaskView)
    requires
        ({
            ||| t matches TaskView::Delete { stage: DeleteStage::Meeting, .. }
            ||| t matches TaskView::Title { stage: TitleStage::Update, .. }
            ||| t matches TaskView::Name { stage: NameStage::Update, .. }
        }),
    ensures
        t.next(ReplyView::Affected(0)) matches ProgressView::Continue(u) && u.action()
            == ActionView::Rollback && u.next(ReplyView::Done) == task::ok(
            OutcomeView::Changed(false),
        ),
{
}

/// What saving metadata stores is what was stored, with the new metadata
/// merged into it; where nothing was stored, the new metadata as they are.
pub proof fn saving_stores_the_merged_metadata(
    id: Seq<char>,
    new: Seq<char>,
    stored: Option<Option<Seq<char>>>,
    changed: nat,
)
    ensures
        ({
            let start = ProgressView::Continue(
                TaskView::LoadMetadata { meeting_id: id, metadata_json: new },
            );
            let replies = seq![ReplyView::Metadata(stored), ReplyView::Affected(changed)];
            &&& performed(start, replies) == seq![
                ActionView::FetchMetadata(task::select_metadata(id)),
                ActionView::Execute(
                    task::about_two(
                        "UPDATE meetings SET metadata = ? WHERE id = ?"@,
                        metadata::merged_text(task::column_text(stored), new),
                        id,
                    ),
                ),
            ]
            &&& after(start, replies) == task::ok(OutcomeView::Saved)
        }),
{
    reveal_with_fuel(performed, 3);
    reveal_with_fuel(after, 3);
    let start = ProgressView::Continue(
        TaskView::LoadMetadata { meeting_id: id, metadata_json: new },
    );
    let replies = seq![ReplyView::Metadata(stored), ReplyView::Affected(changed)];
    assert(replies.drop_first() =~= seq![ReplyView::Affected(changed)]);
    assert(replies.drop_first().drop_first() =~= Seq::<ReplyView>::empty());
    assert(performed(start, replies) =~= seq![
        ActionView::FetchMetadata(task::select_metadata(id)),
        ActionView::Execute(
            task::about_two(
                "UPDATE meetings SET metadata = ? WHERE id = ?"@,
                metadata::merged_text(task::column_text(stored), new),
                id,
            ),
        ),
    ]);
}

/// The names that were saved for the speakers of a meeting are those that it
/// is shown with. `new` is the text of the names, and `loaded` where saving it
/// stands once the stored metadata came. Left out are no names at all, and
/// stored metadata that is a JSON document other than an object, which saving
/// does not change.
pub proof fn saved_names_are_shown(
    id: Seq<char>,
    names: Map<Seq<char>, Seq<char>>,
    new: Seq<char>,
    row: Option<Option<Seq<char>>>,
    loaded: ProgressView,
    meeting: MeetingView,
    segments: Seq<SegmentView>,
)
    requires
        names != Map::<Seq<char>, Seq<char>>::empty(),
        json::read_document(new) == Some(metadata::speakers_document(names)),
        task::column_text(row) matches Some(e) ==> metadata::or_empty(json::read_document(e))
            is Object,
        task::stores_what_reads_back(
            (TaskView::LoadMetadata { meeting_id: id, metadata_json: new }),
            ReplyView::Metadata(row),
            loaded,
        ),
        loaded matches ProgressView::Continue(TaskView::StoreMetadata { metadata, .. })
            && meeting.metadata == Some(metadata),
    ensures
        models::details_of(meeting, segments).speaker_names == Some(names),
{
    let stored = loaded->Continue_0->StoreMetadata_metadata;
    metadata::saved_names_are_read_back(names, task::column_text(row), new, stored);
}

/// Whether a task is rolling back because something failed.
pub open spec fn failed_before(start: ProgressView) -> bool {
    start matches ProgressView::Continue(TaskView::Delete { stage, .. }) && stage
        == DeleteStage::RollbackFailed
}

/// An operation reports a failure of the database only if something that it
/// asked failed.
pub proof fn only_failures_are_reported_as_failures(start: ProgressView, replies: Seq<ReplyView>)
    requires
        start is Continue,
        !failed_before(start),
        answered(start, replies),
        after(start, replies) == ProgressView::Finished(Err(RepositoryError::Database)),
    ensures
        exists|i: int| 0 <= i < replies.len() && #[trigger] replies[i] is Failed,
    decreases replies.len(),
{
    let t = start->Continue_0;
    if replies.len() > 0 {
        let r = replies.first();
        let tail = replies.drop_first();
        if r is Failed {
            assert(replies[0] is Failed);
        } else {
            let next = t.next(r);
            assert(!failed_before(next));
            if next is Continue {
                only_failures_are_reported_as_failures(next, tail);
                let i = choose|i: int| 0 <= i < tail.len() && #[trigger] tail[i] is Failed;
                assert(replies[i + 1] is Failed);
            } else {
                reveal_with_fuel(after, 2);
            }
        }
    }
}

/// A task can get any reply that its action can get; only metadata that it goes
/// on to read must not be longer than what can be read.
pub proof fn every_fitting_reply_is_expected(t: TaskView, reply: ReplyView)
    ensures
        !(t is Details) && !(t is LoadMetadata) ==> (t.expects(reply) <==> protocol::fits(
            t.action(),
            reply,
        )),
        t is Details && !(reply is Meeting) ==> (t.expects(reply) <==> protocol::fits(
            t.action(),
            reply,
        )),
        t is LoadMetadata && !(reply is Metadata) ==> (t.expects(reply) <==> protocol::fits(
            t.action(),
            reply,
        )),
        reply matches ReplyView::Meeting(row) && (row is None || row->0.metadata is None
            || row->0.metadata->0.len() <= 2147483647) ==> (t.expects(reply) <==> protocol::fits(
            t.action(),
            reply,
        )),
        reply matches ReplyView::Metadata(row) && (row is None || row->0 is None
            || row->0->0.len() <= 2147483647) ==> (t.expects(reply) <==> protocol::fits(
            t.action(),
            reply,
        )),
{
}

} // verus!
