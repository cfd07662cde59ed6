//! What holds of every diarization of a meeting, whatever comes of its actions.

use crate::diarization::audio::AudioFileView;
use crate::diarization::commands::{
    self, ActionView, DiarizationProgress, DiarizationResult, DiarizationView, Event, EventView,
    NoticeView, ResultView, StageView, StandingView, State, StateView,
};
use crate::diarization::labels;
use crate::diarization::overlap::{self, DiarizationSegment, Speech};
use crate::json;
use crate::metadata;
use crate::models::{self, MeetingModel, MeetingView, SegmentView, Transcript};
use crate::text;
use vstd::prelude::*;

verus! {

/// Where a diarization stands after the given events.
pub open spec fn after(start: StateView, events: Seq<EventView>) -> StateView
    decreases events.len(),
{
    match start {
        StateView::Continue(d) if events.len() > 0 => after(
            d.next(events.first()).state,
            events.drop_first(),
        ),
        _ => start,
    }
}

/// The actions that the given events are the outcomes of.
pub open spec fn performed(start: StateView, events: Seq<EventView>) -> Seq<ActionView>
    decreases events.len(),
{
    match start {
        StateView::Continue(d) if events.len() > 0 => seq![d.action()] + performed(
            d.next(events.first()).state,
            events.drop_first(),
        ),
        _ => Seq::empty(),
    }
}

/// Whether every event is one that the diarization expects, and none comes
/// after its end.
pub open spec fn expected(start: StateView, events: Seq<EventView>) -> bool
    decreases events.len(),
{
    events.len() > 0 ==> match start {
        StateView::Continue(d) => d.expects(events.first()) && expected(
            d.next(events.first()).state,
            events.drop_first(),
        ),
        StateView::Finished(_) => false,
    }
}

/// The diarization of a meeting at its beginning.
pub open spec fn beginning(meeting_id: Seq<char>, hf_token: Option<Seq<char>>) -> StateView {
    StateView::Continue(DiarizationView { meeting_id, hf_token, stage: StageView::LoadMeeting })
}

/// How many kinds of action are still before a diarization.
pub open spec fn stages_left(stage: StageView) -> nat {
    match stage {
        StageView::LoadMeeting => 7,
        StageView::FindAudio { .. } => 6,
        StageView::CreateTempDir { .. } => 5,
        StageView::RunSidecar { .. } => 4,
        StageView::LoadTranscripts { .. } => 3,
        StageView::UpdateSpeakers { .. } => 2,
        StageView::SaveMetadata { .. } => 1,
    }
}

/// How many assignments are still to be handed to the database.
pub open spec fn updates_left(stage: StageView) -> int {
    match stage {
        StageView::UpdateSpeakers { assignments, done, .. } => assignments.len() - done,
        _ => 0,
    }
}

/// Every event but a message of the sidecar brings a diarization closer to its
/// end, so that it ends once the sidecar does.
pub proof fn every_event_is_progress(d: DiarizationView, event: EventView)
    requires
        d.well_formed(),
        d.expects(event),
        !(event is Message),
    ensures
        d.next(event).state matches StateView::Continue(later) ==> {
            ||| stages_left(later.stage) < stages_left(d.stage)
            ||| stages_left(later.stage) == stages_left(d.stage) && 0 <= updates_left(later.stage)
                < updates_left(d.stage)
        },
{
}

/// A diarization that succeeds tells the frontend so, with the counts of its
/// result.
pub proof fn a_success_is_told(d: DiarizationView, event: EventView, result: ResultView)
    requires
        d.expects(event),
        d.next(event).state == StateView::Finished(Ok(result)),
    ensures
        result.status == "completed"@,
        result.error is None,
        d.next(event).notice matches Some(n) && n.status == "completed"@ && n.message == Some(
            commands::completed_message(result.speaker_count, result.chunk_count),
        ) && n.speaker_count == Some(result.speaker_count) && n.chunk_count == Some(
            result.chunk_count,
        ),
{
}

/// While a diarization goes on, the frontend is told of nothing but processing.
pub proof fn processing_is_told_on_the_way(d: DiarizationView, event: EventView)
    requires
        d.expects(event),
        d.next(event).state is Continue,
    ensures
        d.next(event).notice matches Some(n) ==> n.status == "processing"@ && n.speaker_count
            is None && n.chunk_count is None,
{
}

/// Where a diarization fails, the frontend is told of the error if the sidecar
/// was to blame, and else learns it from the result alone.
pub proof fn a_failure_of_the_sidecar_is_told(
    d: DiarizationView,
    event: EventView,
    message: Seq<char>,
)
    requires
        d.expects(event),
        d.next(event).state == StateView::Finished(Err(message)),
    ensures
        event is Segments ==> (d.next(event).notice matches Some(n) && n.status == "error"@),
        !(event is Segments) ==> d.next(event).notice is None,
{
}

/// The updates that hand assignments to the database, one for each.
pub open spec fn updates(assignments: Seq<(Seq<char>, Seq<char>)>) -> Seq<ActionView> {
    assignments.map_values(
        |a: (Seq<char>, Seq<char>)|
            ActionView::UpdateSpeaker { transcript_id: a.0, speaker_id: a.1 },
    )
}

/// Once the transcript segments are loaded, each of them is given its speaker,
/// in their order and whatever came of the updates before it; after that the
/// names are saved.
pub proof fn every_transcript_segment_gets_its_speaker(
    d: DiarizationView,
    speeches: Seq<Speech>,
    rows: Seq<SegmentView>,
    outcomes: Seq<EventView>,
)
    requires
        d.stage == (StageView::LoadTranscripts { speeches }),
        outcomes.len() == rows.len(),
        forall|i: int| 0 <= i < outcomes.len() ==> (#[trigger] outcomes[i]) is Updated,
    ensures
        ({
            let loaded = d.next(EventView::Transcripts(Ok(rows))).state;
            &&& expected(loaded, outcomes)
            &&& performed(loaded, outcomes) == updates(commands::assigned(rows, speeches))
            &&& after(loaded, outcomes) == StateView::Continue(
                DiarizationView {
                    stage: StageView::SaveMetadata {
                        speaker_count: labels::speakers(speeches).len(),
                        chunk_count: rows.len(),
                        metadata: commands::saved_metadata(speeches),
                    },
                    ..d
                },
            )
        }),
{
    let assignments = commands::assigned(rows, speeches);
    assert(assignments.skip(0) =~= assignments);
    lemma_updates(d, speeches, assignments, 0, outcomes);
}

proof fn lemma_updates(
    d: DiarizationView,
    speeches: Seq<Speech>,
    assignments: Seq<(Seq<char>, Seq<char>)>,
    done: nat,
    outcomes: Seq<EventView>,
)
    requires
        outcomes.len() + done == assignments.len(),
        forall|i: int| 0 <= i < outcomes.len() ==> (#[trigger] outcomes[i]) is Updated,
    ensures
        ({
            let start = StateView::Continue(
                DiarizationView {
                    stage: commands::after_updates(speeches, assignments, done),
                    ..d
                },
            );
            &&& expected(start, outcomes)
            &&& performed(start, outcomes) == updates(assignments.skip(done as int))
            &&& after(start, outcomes) == StateView::Continue(
                DiarizationView {
                    stage: commands::after_updates(speeches, assignments, assignments.len()),
                    ..d
                },
            )
        }),
    decreases outcomes.len(),
{
    let rest = assignments.skip(done as int);
    let start = DiarizationView {
        stage: commands::after_updates(speeches, assignments, done),
        ..d
    };
    if outcomes.len() > 0 {
        let later = outcomes.drop_first();
        assert(outcomes[0] is Updated);
        assert forall|i: int| 0 <= i < later.len() implies (#[trigger] later[i]) is Updated by {
            assert(later[i] == outcomes[i + 1]);
        }
        lemma_updates(d, speeches, assignments, done + 1, later);
        assert(rest.first() == assignments[done as int]);
        assert(rest.drop_first() =~= assignments.skip(done as int + 1));
        assert(updates(rest) =~= seq![start.action()] + updates(rest.drop_first()));
    } else {
        assert(updates(rest) =~= Seq::<ActionView>::empty());
    }
}

/// Whether an action changes what is stored.
pub open spec fn stores(action: ActionView) -> bool {
    action is UpdateSpeaker || action is SaveMetadata
}

/// Whether the sidecar has found speech.
pub open spec fn speech_found(event: EventView) -> bool {
    event matches EventView::Segments(Ok(s)) && s.len() > 0
}

/// Nothing is stored before the sidecar has found speech.
pub proof fn nothing_is_stored_without_speech(
    meeting_id: Seq<char>,
    hf_token: Option<Seq<char>>,
    events: Seq<EventView>,
)
    requires
        expected(beginning(meeting_id, hf_token), events),
        exists|i: int|
            0 <= i < performed(beginning(meeting_id, hf_token), events).len() && stores(
                #[trigger] performed(beginning(meeting_id, hf_token), events)[i],
            ),
    ensures
        exists|i: int| 0 <= i < events.len() && speech_found(#[trigger] events[i]),
{
    let d = DiarizationView { meeting_id, hf_token, stage: StageView::LoadMeeting };
    lemma_speech_first(d, events);
}

proof fn lemma_speech_first(d: DiarizationView, events: Seq<EventView>)
    requires
        stages_left(d.stage) >= 4,
        expected(StateView::Continue(d), events),
        exists|i: int|
            0 <= i < performed(StateView::Continue(d), events).len() && stores(
                #[trigger] performed(StateView::Continue(d), events)[i],
            ),
    ensures
        exists|i: int| 0 <= i < events.len() && speech_found(#[trigger] events[i]),
    decreases events.len(),
{
    let all = performed(StateView::Continue(d), events);
    let k = choose|i: int| 0 <= i < all.len() && stores(#[trigger] all[i]);
    let later = events.drop_first();
    if speech_found(events.first()) {
        assert(speech_found(events[0]));
    } else {
        let next = d.next(events.first()).state;
        assert(all == seq![d.action()] + performed(next, later));
        assert(k > 0);
        assert(performed(next, later)[k - 1] == all[k]);
        match next {
            StateView::Continue(n) => {
                lemma_speech_first(n, later);
                let i = choose|i: int| 0 <= i < later.len() && speech_found(#[trigger] later[i]);
                assert(events[i + 1] == later[i]);
            },
            StateView::Finished(_) => {},
        }
    }
}

/// Whether a folder is that of a meeting that was loaded.
pub open spec fn folder_loaded(past: Seq<EventView>, folder: Seq<char>) -> bool {
    exists|m: MeetingView|
        past.contains(EventView::Meeting(Ok(Some(m)))) && #[trigger] commands::folder_of(m)
            == Some(folder)
}

/// Whether the stage of a diarization goes by the events before it.
pub open spec fn goes_by(stage: StageView, past: Seq<EventView>) -> bool {
    match stage {
        StageView::FindAudio { folder } => folder_loaded(past, folder),
        StageView::CreateTempDir { folder, audio } => folder_loaded(past, folder)
            && past.contains(EventView::Audio(Ok(audio))),
        StageView::RunSidecar { folder, audio } => folder_loaded(past, folder) && past.contains(
            EventView::Audio(Ok(audio)),
        ),
        StageView::LoadTranscripts { speeches } => past.contains(EventView::Segments(Ok(speeches))),
        StageView::UpdateSpeakers { speeches, assignments, .. } => {
            &&& past.contains(EventView::Segments(Ok(speeches)))
            &&& exists|rows: Seq<SegmentView>|
                past.contains(EventView::Transcripts(Ok(rows))) && assignments
                    == #[trigger] commands::assigned(rows, speeches)
        },
        StageView::SaveMetadata { speaker_count, chunk_count, metadata } => exists|
            speeches: Seq<Speech>,
            rows: Seq<SegmentView>,
        |
            {
                &&& past.contains(EventView::Segments(Ok(speeches)))
                &&& past.contains(EventView::Transcripts(Ok(rows)))
                &&& #[trigger] commands::assigned(rows, speeches).len() == chunk_count
                &&& labels::speakers(speeches).len() == speaker_count
                &&& commands::saved_metadata(speeches) == metadata
            },
        _ => true,
    }
}

/// A diarization that succeeds counts the speakers that the sidecar found, and
/// the transcript segments that the meeting has.
pub proof fn a_result_counts_speakers_and_segments(
    meeting_id: Seq<char>,
    hf_token: Option<Seq<char>>,
    events: Seq<EventView>,
    result: ResultView,
)
    requires
        expected(beginning(meeting_id, hf_token), events),
        after(beginning(meeting_id, hf_token), events) == StateView::Finished(Ok(result)),
    ensures
        exists|speeches: Seq<Speech>, rows: Seq<SegmentView>|
            {
                &&& #[trigger] events.contains(EventView::Segments(Ok(speeches)))
                &&& #[trigger] events.contains(EventView::Transcripts(Ok(rows)))
                &&& result.speaker_count == labels::speakers(speeches).len()
                &&& result.chunk_count == rows.len()
            },
{
    let d = DiarizationView { meeting_id, hf_token, stage: StageView::LoadMeeting };
    assert(Seq::<EventView>::empty() + events =~= events);
    lemma_counts(d, Seq::empty(), events, result);
}

proof fn lemma_keeps_going_by(d: DiarizationView, past: Seq<EventView>, event: EventView)
    requires
        goes_by(d.stage, past),
        d.expects(event),
    ensures
        d.next(event).state matches StateView::Continue(n) ==> goes_by(n.stage, past.push(event)),
{
    let more = past.push(event);
    assert(more[past.len() as int] == event);
    assert(more.contains(event));
    assert forall|e: EventView| past.contains(e) implies #[trigger] more.contains(e) by {
        let i = choose|i: int| 0 <= i < past.len() && past[i] == e;
        assert(more[i] == e);
    }
    assert forall|folder: Seq<char>| folder_loaded(past, folder) implies folder_loaded(
        more,
        folder,
    ) by {
        let m = choose|m: MeetingView|
            past.contains(EventView::Meeting(Ok(Some(m)))) && #[trigger] commands::folder_of(m)
                == Some(folder);
        assert(more.contains(EventView::Meeting(Ok(Some(m)))));
    }
    match (d.stage, event) {
        (_, EventView::Meeting(Ok(Some(m)))) => {
            if commands::folder_of(m) is Some {
                assert(folder_loaded(more, commands::folder_of(m)->0));
            }
        },
        (StageView::LoadTranscripts { speeches }, EventView::Transcripts(Ok(rows))) => {
            assert(more.contains(EventView::Transcripts(Ok(rows))));
            assert(commands::assigned(rows, speeches).len() == rows.len());
        },
        (StageView::UpdateSpeakers { speeches, assignments, .. }, EventView::Updated(_)) => {
            let rows = choose|rows: Seq<SegmentView>|
                past.contains(EventView::Transcripts(Ok(rows))) && assignments
                    == #[trigger] commands::assigned(rows, speeches);
            assert(more.contains(EventView::Transcripts(Ok(rows))));
            assert(commands::assigned(rows, speeches) == assignments);
        },
        _ => {},
    }
}

proof fn lemma_counts(
    d: DiarizationView,
    past: Seq<EventView>,
    events: Seq<EventView>,
    result: ResultView,
)
    requires
        goes_by(d.stage, past),
        expected(StateView::Continue(d), events),
        after(StateView::Continue(d), events) == StateView::Finished(Ok(result)),
    ensures
        exists|speeches: Seq<Speech>, rows: Seq<SegmentView>|
            {
                &&& #[trigger] (past + events).contains(EventView::Segments(Ok(speeches)))
                &&& #[trigger] (past + events).contains(EventView::Transcripts(Ok(rows)))
                &&& result.speaker_count == labels::speakers(speeches).len()
                &&& result.chunk_count == rows.len()
            },
    decreases events.len(),
{
    reveal_with_fuel(after, 2);
    let event = events.first();
    let later = events.drop_first();
    lemma_keeps_going_by(d, past, event);
    assert(past.push(event) + later =~= past + events);
    match d.next(event).state {
        StateView::Continue(n) => {
            lemma_counts(n, past.push(event), later, result);
        },
        StateView::Finished(r) => {
            assert(r == Ok::<ResultView, Seq<char>>(result));
            let (speeches, rows) = choose|speeches: Seq<Speech>, rows: Seq<SegmentView>|
                {
                    &&& past.contains(EventView::Segments(Ok(speeches)))
                    &&& past.contains(EventView::Transcripts(Ok(rows)))
                    &&& #[trigger] commands::assigned(rows, speeches).len() == result.chunk_count
                    &&& labels::speakers(speeches).len() == result.speaker_count
                };
            let all = past + events;
            let i = choose|i: int|
                0 <= i < past.len() && past[i] == EventView::Segments(Ok(speeches));
            assert(all[i] == past[i]);
            let j = choose|j: int|
                0 <= j < past.len() && past[j] == EventView::Transcripts(Ok(rows));
            assert(all[j] == past[j]);
            assert(all.contains(EventView::Segments(Ok(speeches))));
            assert(all.contains(EventView::Transcripts(Ok(rows))));
        },
    }
}

/// The sidecar is run on the recording that was found, in the folder of the
/// meeting that was loaded, and with the token unless it is empty.
pub proof fn the_sidecar_runs_on_the_recording_that_was_found(
    meeting_id: Seq<char>,
    hf_token: Option<Seq<char>>,
    events: Seq<EventView>,
    k: int,
)
    requires
        expected(beginning(meeting_id, hf_token), events),
        0 <= k < performed(beginning(meeting_id, hf_token), events).len(),
        performed(beginning(meeting_id, hf_token), events)[k] is RunSidecar,
    ensures
        performed(beginning(meeting_id, hf_token), events)[k] matches ActionView::RunSidecar {
            folder,
            audio,
            hf_token: passed,
        } && {
            &&& folder_loaded(events, folder)
            &&& events.contains(EventView::Audio(Ok(audio)))
            &&& passed == (if hf_token is Some && hf_token->0.len() > 0 {
                hf_token
            } else {
                None
            })
        },
{
    let d = DiarizationView { meeting_id, hf_token, stage: StageView::LoadMeeting };
    assert(Seq::<EventView>::empty() + events =~= events);
    lemma_recording(d, Seq::empty(), events, k);
}

proof fn lemma_recording(d: DiarizationView, past: Seq<EventView>, events: Seq<EventView>, k: int)
    requires
        goes_by(d.stage, past),
        expected(StateView::Continue(d), events),
        0 <= k < performed(StateView::Continue(d), events).len(),
        performed(StateView::Continue(d), events)[k] is RunSidecar,
    ensures
        performed(StateView::Continue(d), events)[k] matches ActionView::RunSidecar {
            folder,
            audio,
            hf_token: passed,
        } && {
            &&& folder_loaded(past + events, folder)
            &&& (past + events).contains(EventView::Audio(Ok(audio)))
            &&& passed == (if d.hf_token is Some && d.hf_token->0.len() > 0 {
                d.hf_token
            } else {
                None
            })
        },
    decreases events.len(),
{
    reveal_with_fuel(performed, 2);
    let all = performed(StateView::Continue(d), events);
    let event = events.first();
    let later = events.drop_first();
    let whole = past + events;
    if k == 0 {
        assert(all[0] == d.action());
        assert forall|e: EventView| past.contains(e) implies #[trigger] whole.contains(e) by {
            let i = choose|i: int| 0 <= i < past.len() && past[i] == e;
            assert(whole[i] == e);
        }
        let folder = d.stage->RunSidecar_folder;
        let m = choose|m: MeetingView|
            past.contains(EventView::Meeting(Ok(Some(m)))) && #[trigger] commands::folder_of(m)
                == Some(folder);
        assert(whole.contains(EventView::Meeting(Ok(Some(m)))));
    } else {
        let next = d.next(event).state;
        assert(all == seq![d.action()] + performed(next, later));
        assert(all[k] == performed(next, later)[k - 1]);
        lemma_keeps_going_by(d, past, event);
        assert(past.push(event) + later =~= whole);
        match next {
            StateView::Continue(n) => {
                lemma_recording(n, past.push(event), later, k - 1);
            },
            StateView::Finished(_) => {},
        }
    }
}

/// The speaker that a transcript segment is given depends on its times and on
/// what the sidecar found alone: not on the speaker that was stored for it
/// before, on what it says, or on its time of day.
pub proof fn the_speaker_stored_before_does_not_matter(
    a: Seq<SegmentView>,
    b: Seq<SegmentView>,
    speeches: Seq<Speech>,
)
    requires
        a.len() == b.len(),
        forall|i: int|
            0 <= i < a.len() ==> (#[trigger] a[i]).id == b[i].id && a[i].audio_start_time
                == b[i].audio_start_time && a[i].audio_end_time == b[i].audio_end_time
                && a[i].duration == b[i].duration,
    ensures
        commands::assigned(a, speeches) == commands::assigned(b, speeches),
{
    assert forall|i: int| 0 <= i < a.len() implies commands::assigned(a, speeches)[i]
        == commands::assigned(b, speeches)[i] by {
        overlap::only_times_say_what_a_segment_covers(a[i], b[i]);
    }
    assert(commands::assigned(a, speeches) =~= commands::assigned(b, speeches));
}

/// What one transcript segment is given does not depend on the others: each is
/// given what it would be given alone, and none is left out or added.
pub proof fn each_segment_is_assigned_by_itself(rows: Seq<SegmentView>, speeches: Seq<Speech>)
    ensures
        commands::assigned(rows, speeches).len() == rows.len(),
        forall|i: int|
            0 <= i < rows.len() ==> #[trigger] commands::assigned(rows, speeches)[i]
                == commands::assigned(seq![rows[i]], speeches)[0],
        forall|i: int|
            0 <= i < rows.len() ==> (#[trigger] commands::assigned(rows, speeches)[i]).0 == rows[i].id
                && commands::assigned(rows, speeches)[i].1 == overlap::speaker_of(
                overlap::covered(rows[i]),
                speeches,
            ),
{
}

/// The updates after the transcript segments were loaded, one for each row in
/// the order of the rows: the row's id with the speaker of the diarization
/// segment that has the most whole seconds in common with it; of several such
/// segments, the first. `starts` and `ends` are the seconds of the segments,
/// `from` and `to` those of row `i`, which `at`, `until` and `length` give where
/// it has them.
pub proof fn each_row_is_updated_with_the_speaker_who_overlaps_most(
    d: DiarizationView,
    diarization: Seq<DiarizationSegment>,
    starts: Seq<int>,
    ends: Seq<int>,
    rows: Seq<Transcript>,
    outcomes: Seq<EventView>,
    i: int,
    at: Option<int>,
    until: Option<int>,
    length: Option<int>,
    from: int,
    to: int,
    k: int,
)
    requires
        d.stage == (StageView::LoadTranscripts { speeches: overlap::speeches(diarization) }),
        outcomes.len() == rows.len(),
        forall|j: int| 0 <= j < outcomes.len() ==> (#[trigger] outcomes[j]) is Updated,
        0 <= i < rows.len(),
        overlap::is_whole_or_none(rows[i].audio_start_time, at),
        overlap::is_whole_or_none(rows[i].audio_end_time, until),
        overlap::is_whole_or_none(rows[i].duration, length),
        from == if at is Some {
            at->0
        } else {
            0
        },
        to == if until is Some {
            until->0
        } else if length is Some {
            from + length->0
        } else {
            from + 2
        },
        starts.len() == diarization.len(),
        ends.len() == diarization.len(),
        forall|j: int|
            0 <= j < diarization.len() ==> overlap::is_whole(
                (#[trigger] diarization[j]).start_sec,
                starts[j],
            ) && overlap::is_whole(diarization[j].end_sec, ends[j]),
        0 <= k < diarization.len(),
        overlap::seconds_in_common(from, to, starts[k], ends[k]) > 0,
        forall|j: int|
            0 <= j < k ==> overlap::seconds_in_common(from, to, #[trigger] starts[j], ends[j])
                < overlap::seconds_in_common(from, to, starts[k], ends[k]),
        forall|j: int|
            k < j < diarization.len() ==> overlap::seconds_in_common(
                from,
                to,
                #[trigger] starts[j],
                ends[j],
            ) <= overlap::seconds_in_common(from, to, starts[k], ends[k]),
    ensures
        ({
            let loaded = d.next(
                EventView::Transcripts(Ok(models::segments_view(rows))),
            ).state;
            &&& performed(loaded, outcomes).len() == rows.len()
            &&& performed(loaded, outcomes)[i] == (ActionView::UpdateSpeaker {
                transcript_id: rows[i].id@,
                speaker_id: diarization[k].speaker_id@,
            })
        }),
{
    let views = models::segments_view(rows);
    let speeches = overlap::speeches(diarization);
    every_transcript_segment_gets_its_speaker(d, speeches, views, outcomes);
    overlap::a_stored_segment_covers_whole_seconds(views[i], at, until, length);
    overlap::the_most_whole_seconds_win_of(
        diarization,
        starts,
        ends,
        overlap::covered(views[i]),
        from,
        to,
        k,
    );
}

/// A row whose times have nothing in common with any segment is given to
/// nobody. The times are whole seconds, as above.
pub proof fn a_row_without_overlap_is_given_to_nobody(
    d: DiarizationView,
    diarization: Seq<DiarizationSegment>,
    starts: Seq<int>,
    ends: Seq<int>,
    rows: Seq<Transcript>,
    outcomes: Seq<EventView>,
    i: int,
    at: Option<int>,
    until: Option<int>,
    length: Option<int>,
    from: int,
    to: int,
)
    requires
        d.stage == (StageView::LoadTranscripts { speeches: overlap::speeches(diarization) }),
        outcomes.len() == rows.len(),
        forall|j: int| 0 <= j < outcomes.len() ==> (#[trigger] outcomes[j]) is Updated,
        0 <= i < rows.len(),
        overlap::is_whole_or_none(rows[i].audio_start_time, at),
        overlap::is_whole_or_none(rows[i].audio_end_time, until),
        overlap::is_whole_or_none(rows[i].duration, length),
        from == if at is Some {
            at->0
        } else {
            0
        },
        to == if until is Some {
            until->0
        } else if length is Some {
            from + length->0
        } else {
            from + 2
        },
        starts.len() == diarization.len(),
        ends.len() == diarization.len(),
        forall|j: int|
            0 <= j < diarization.len() ==> overlap::is_whole(
                (#[trigger] diarization[j]).start_sec,
                starts[j],
            ) && overlap::is_whole(diarization[j].end_sec, ends[j]),
        forall|j: int|
            0 <= j < diarization.len() ==> overlap::seconds_in_common(
                from,
                to,
                #[trigger] starts[j],
                ends[j],
            ) <= 0,
    ensures
        performed(
            d.next(EventView::Transcripts(Ok(models::segments_view(rows)))).state,
            outcomes,
        )[i] == (ActionView::UpdateSpeaker {
            transcript_id: rows[i].id@,
            speaker_id: "SPEAKER_UNKNOWN"@,
        }),
{
    let views = models::segments_view(rows);
    let speeches = overlap::speeches(diarization);
    every_transcript_segment_gets_its_speaker(d, speeches, views, outcomes);
    overlap::a_stored_segment_covers_whole_seconds(views[i], at, until, length);
    overlap::nobody_has_whole_seconds_of(
        diarization,
        starts,
        ends,
        overlap::covered(views[i]),
        from,
        to,
    );
}

/// What a diarization does, one thing after the other, as long as nothing
/// fails: it loads the meeting, looks for the recording in the meeting's folder,
/// makes room for the output, runs the sidecar on the recording, and loads all
/// transcript segments of the meeting.
pub proof fn a_diarization_does_one_thing_after_the_other(
    meeting_id: Seq<char>,
    hf_token: Option<Seq<char>>,
    meeting: MeetingView,
    folder: Seq<char>,
    audio: AudioFileView,
    message: Seq<char>,
    speeches: Seq<Speech>,
)
    requires
        meeting.folder_path == Some(folder),
        exists|i: int| 0 <= i < folder.len() && !text::white_space(#[trigger] folder[i]),
        speeches.len() > 0,
    ensures
        ({
            let d = DiarizationView { meeting_id, hf_token, stage: StageView::LoadMeeting };
            let found = d.next(EventView::Meeting(Ok(Some(meeting))));
            let making = found.state->Continue_0.next(EventView::Audio(Ok(audio)));
            let running = making.state->Continue_0.next(EventView::TempDir(Ok(())));
            let told = running.state->Continue_0.next(EventView::Message(message));
            let loading = told.state->Continue_0.next(EventView::Segments(Ok(speeches)));
            &&& d.action() == ActionView::LoadMeeting { meeting_id }
            &&& found.state is Continue
            &&& found.notice is None
            &&& found.state->Continue_0.action() == ActionView::FindAudio { folder }
            &&& making.state is Continue
            &&& making.notice is None
            &&& making.state->Continue_0.action() == ActionView::CreateTempDir
            &&& running.state is Continue
            &&& running.notice == Some(
                processing("Starting speaker identification..."@),
            )
            &&& running.state->Continue_0.action() matches ActionView::RunSidecar {
                folder: in_folder,
                audio: file,
                ..
            } && in_folder == folder && file == audio
            &&& told.state == running.state
            &&& told.notice == Some(processing(message))
            &&& loading.state is Continue
            &&& loading.notice is None
            &&& loading.state->Continue_0.action() == (ActionView::LoadTranscripts {
                meeting_id,
                limit: 0x7fff_ffff_ffff_ffff,
                offset: 0,
            })
            &&& loading.state->Continue_0.stage == (StageView::LoadTranscripts { speeches })
        }),
{
    let i = choose|i: int| 0 <= i < folder.len() && !text::white_space(#[trigger] folder[i]);
    assert(!text::blank(folder));
}

/// A notice that something is being done.
pub open spec fn processing(message: Seq<char>) -> NoticeView {
    NoticeView {
        status: "processing"@,
        message: Some(message),
        speaker_count: None,
        chunk_count: None,
    }
}

/// A notice of an error.
pub open spec fn error(message: Seq<char>) -> NoticeView {
    NoticeView { status: "error"@, message: Some(message), speaker_count: None, chunk_count: None }
}

/// Once the transcript segments are loaded, the frontend is told so. Once the
/// names are saved, it is told how many speakers there are across how many
/// segments, and the result says the same.
pub proof fn the_end_is_told_in_these_words(
    d: DiarizationView,
    speeches: Seq<Speech>,
    rows: Seq<SegmentView>,
    speaker_count: nat,
    chunk_count: nat,
    metadata: Seq<char>,
)
    ensures
        d.stage == (StageView::LoadTranscripts { speeches }) ==> d.next(
            EventView::Transcripts(Ok(rows)),
        ).notice == Some(processing("Assigning speakers to transcript segments..."@)),
        d.stage == (StageView::SaveMetadata { speaker_count, chunk_count, metadata }) ==> ({
            let end = d.next(EventView::Saved(Ok(())));
            let words = "Identified "@ + text::decimal_digits(speaker_count) + " speakers across "@
                + text::decimal_digits(chunk_count) + " segments"@;
            &&& end.notice == Some(
                NoticeView {
                    status: "completed"@,
                    message: Some(words),
                    speaker_count: Some(speaker_count),
                    chunk_count: Some(chunk_count),
                },
            )
            &&& end.state == StateView::Finished(
                Ok(ResultView { status: "completed"@, speaker_count, chunk_count, error: None }),
            )
        }),
{
}

/// Every diarization that fails says what failed, and why.
pub proof fn failures_say_what_failed(d: DiarizationView, m: MeetingView, e: Seq<char>)
    ensures
        d.next(EventView::Meeting(Err(e))).state == StateView::Finished(
            Err("Failed to load meeting: "@ + e),
        ),
        d.next(EventView::Meeting(Ok(None))).state == StateView::Finished(
            Err("Meeting not found: "@ + d.meeting_id),
        ),
        (m.folder_path is None || forall|i: int|
            0 <= i < m.folder_path->0.len() ==> text::white_space(#[trigger] m.folder_path->0[i]))
            ==> d.next(EventView::Meeting(Ok(Some(m)))).state == StateView::Finished(
            Err(
                "No recording folder found for this meeting. The meeting may not have been recorded."@,
            ),
        ),
        d.next(EventView::Audio(Err(e))).state == StateView::Finished(
            Err("No audio file found: "@ + e),
        ),
        d.next(EventView::TempDir(Err(e))).state == StateView::Finished(
            Err("Failed to create temp dir: "@ + e),
        ),
        d.next(EventView::Segments(Err(e))) == (StandingView {
            notice: Some(error("Diarization failed: "@ + e)),
            state: StateView::Finished(Err("Diarization failed: "@ + e)),
        }),
        d.next(EventView::Segments(Ok(Seq::empty()))) == (StandingView {
            notice: Some(error("No speech segments detected in the recording."@)),
            state: StateView::Finished(Err("No speech segments detected"@)),
        }),
        d.next(EventView::Transcripts(Err(e))).state == StateView::Finished(
            Err("Failed to load transcripts: "@ + e),
        ),
        d.next(EventView::Saved(Err(e))).state == StateView::Finished(
            Err("Failed to save meeting metadata: "@ + e),
        ),
{
}

/// The names are saved for the meeting that was diarized, and are those of all
/// who speak: who has `i` speakers before them in the order of their ids is
/// called by the number after `i`.
pub proof fn the_names_of_all_who_speak_are_saved(
    d: DiarizationView,
    speeches: Seq<Speech>,
    rows: Seq<SegmentView>,
    outcomes: Seq<EventView>,
    k: int,
)
    requires
        d.stage == (StageView::LoadTranscripts { speeches }),
        outcomes.len() == rows.len(),
        forall|i: int| 0 <= i < outcomes.len() ==> (#[trigger] outcomes[i]) is Updated,
        0 <= k < speeches.len(),
    ensures
        ({
            let loaded = d.next(EventView::Transcripts(Ok(rows))).state;
            let ids = labels::speakers(speeches);
            let names = labels::labels(ids);
            &&& after(loaded, outcomes) matches StateView::Continue(saving) && saving.action()
                == (ActionView::SaveMetadata {
                meeting_id: d.meeting_id,
                metadata: json::written_document(metadata::speakers_document(names)),
            })
            &&& exists|i: int|
                0 <= i < ids.len() && #[trigger] ids[i] == speeches[k].speaker
                    && names.contains_pair(
                    ids[i],
                    "Speaker "@ + text::decimal_digits((i + 1) as nat),
                )
        }),
{
    every_transcript_segment_gets_its_speaker(d, speeches, rows, outcomes);
    labels::speakers_are_those_who_speak(speeches);
    let ids = labels::speakers(speeches);
    assert(ids.contains(speeches[k].speaker)) by {
        assert(speeches[k].speaker == speeches[k].speaker);
    }
    let i = choose|i: int| 0 <= i < ids.len() && ids[i] == speeches[k].speaker;
    labels::the_first_speaker_is_speaker_one(ids, i);
}

/// Events, results and notices are seen as they are: all rows and segments, in
/// their order, every text and every number.
pub proof fn what_comes_and_goes_is_seen_whole(
    meeting: Option<MeetingModel>,
    segments: Vec<DiarizationSegment>,
    transcripts: Vec<Transcript>,
    text: String,
    result: DiarizationResult,
    notice: DiarizationProgress,
)
    ensures
        Event::Meeting(Ok(meeting))@ == EventView::Meeting(Ok(models::meeting_view(meeting))),
        Event::Segments(Ok(segments))@ == EventView::Segments(Ok(overlap::speeches(segments@))),
        Event::Transcripts(Ok(transcripts))@ == EventView::Transcripts(
            Ok(models::segments_view(transcripts@)),
        ),
        Event::Message(text)@ == EventView::Message(text@),
        Event::Meeting(Err(text))@ == EventView::Meeting(Err(text@)),
        Event::Segments(Err(text))@ == EventView::Segments(Err(text@)),
        Event::Transcripts(Err(text))@ == EventView::Transcripts(Err(text@)),
        Event::Saved(Err(text))@ == EventView::Saved(Err(text@)),
        Event::Saved(Ok(()))@ == EventView::Saved(Ok(())),
        result@.status == result.status@,
        result@.speaker_count == result.speaker_count,
        result@.chunk_count == result.chunk_count,
        models::same_optional_text(result@.error, result.error),
        notice@.status == notice.status@,
        models::same_optional_text(notice@.message, notice.message),
        notice@.speaker_count is Some <==> notice.speaker_count is Some,
        notice@.speaker_count is Some ==> notice@.speaker_count->0 == notice.speaker_count->0,
        notice@.chunk_count is Some <==> notice.chunk_count is Some,
        notice@.chunk_count is Some ==> notice@.chunk_count->0 == notice.chunk_count->0,
        State::Finished(Ok(result))@ == StateView::Finished(Ok(result@)),
        State::Finished(Err(text))@ == StateView::Finished(Err(text@)),
{
}

/// A diarization fails only if something failed, there is no such meeting or no
/// folder for it, or nobody speaks; and the meeting and the token stay what
/// they were until it ends.
pub proof fn a_diarization_fails_for_a_reason(d: DiarizationView, event: EventView)
    requires
        d.expects(event),
    ensures
        (d.next(event).state matches StateView::Finished(r) && r is Err) <==> {
            ||| event matches EventView::Meeting(r) && (r is Err || r->Ok_0 is None
                || r->Ok_0->0.folder_path is None || forall|i: int|
                0 <= i < r->Ok_0->0.folder_path->0.len() ==> text::white_space(
                    #[trigger] r->Ok_0->0.folder_path->0[i],
                ))
            ||| event matches EventView::Audio(r) && r is Err
            ||| event matches EventView::TempDir(r) && r is Err
            ||| event matches EventView::Segments(r) && (r is Err || r->Ok_0.len() == 0)
            ||| event matches EventView::Transcripts(r) && r is Err
            ||| event matches EventView::Saved(r) && r is Err
        },
        d.next(event).state matches StateView::Continue(later) ==> later.meeting_id == d.meeting_id
            && later.hf_token == d.hf_token,
{
}

/// What can come at each stage.
pub proof fn each_stage_expects_the_outcome_of_its_action(d: DiarizationView, event: EventView)
    ensures
        d.expects(event) <==> match d.action() {
            ActionView::LoadMeeting { .. } => event is Meeting,
            ActionView::FindAudio { .. } => event is Audio,
            ActionView::CreateTempDir => event is TempDir,
            ActionView::RunSidecar { .. } => event is Message || event is Segments,
            ActionView::LoadTranscripts { .. } => event is Transcripts,
            ActionView::UpdateSpeaker { .. } => event is Updated,
            ActionView::SaveMetadata { .. } => event is Saved,
        },
{
}

} // verus!
