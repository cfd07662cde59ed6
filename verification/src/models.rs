//! Meetings and transcripts, as they are stored and as they are shown.

use crate::metadata::{self, SpeakerNames};
use crate::seconds::Seconds;
use crate::timestamp::{self, Timestamp};
use vstd::prelude::*;

verus! {

/// A row of the table of meetings.
#[derive(Debug)]
pub struct MeetingModel {
    pub id: String,
    pub title: String,
    pub created_at: Timestamp,
    pub updated_at: Timestamp,
    pub folder_path: Option<String>,
    pub metadata: Option<String>,
}

/// What a row of the table of meetings says.
pub struct MeetingView {
    pub id: Seq<char>,
    pub title: Seq<char>,
    pub created_at: Timestamp,
    pub updated_at: Timestamp,
    pub folder_path: Option<Seq<char>>,
    pub metadata: Option<Seq<char>>,
}

impl View for MeetingModel {
    type V = MeetingView;

    open spec fn view(&self) -> MeetingView {
        MeetingView {
            id: self.id@,
            title: self.title@,
            created_at: self.created_at,
            updated_at: self.updated_at,
            folder_path: metadata::text_view(self.folder_path),
            metadata: metadata::text_view(self.metadata),
        }
    }
}

/// A row of the table of transcripts.
#[derive(Debug)]
pub struct Transcript {
    pub id: String,
    pub transcript: String,
    pub timestamp: String,
    pub audio_start_time: Option<Seconds>,
    pub audio_end_time: Option<Seconds>,
    pub duration: Option<Seconds>,
    pub speaker_id: Option<String>,
}

/// What a transcript segment says, stored or shown.
pub struct SegmentView {
    pub id: Seq<char>,
    pub text: Seq<char>,
    pub timestamp: Seq<char>,
    pub audio_start_time: Option<Seconds>,
    pub audio_end_time: Option<Seconds>,
    pub duration: Option<Seconds>,
    pub speaker_id: Option<Seq<char>>,
}

impl View for Transcript {
    type V = SegmentView;

    open spec fn view(&self) -> SegmentView {
        SegmentView {
            id: self.id@,
            text: self.transcript@,
            timestamp: self.timestamp@,
            audio_start_time: self.audio_start_time,
            audio_end_time: self.audio_end_time,
            duration: self.duration,
            speaker_id: metadata::text_view(self.speaker_id),
        }
    }
}

/// A transcript segment as it is shown.
#[derive(Debug)]
pub struct MeetingTranscript {
    pub id: String,
    pub text: String,
    pub timestamp: String,
    pub audio_start_time: Option<Seconds>,
    pub audio_end_time: Option<Seconds>,
    pub duration: Option<Seconds>,
    pub speaker_id: Option<String>,
}

impl View for MeetingTranscript {
    type V = SegmentView;

    open spec fn view(&self) -> SegmentView {
        SegmentView {
            id: self.id@,
            text: self.text@,
            timestamp: self.timestamp@,
            audio_start_time: self.audio_start_time,
            audio_end_time: self.audio_end_time,
            duration: self.duration,
            speaker_id: metadata::text_view(self.speaker_id),
        }
    }
}

/// A meeting with its transcript, as it is shown.
#[derive(Debug)]
pub struct MeetingDetails {
    pub id: String,
    pub title: String,
    pub created_at: String,
    pub updated_at: String,
    pub transcripts: Vec<MeetingTranscript>,
    pub speaker_names: Option<SpeakerNames>,
}

/// What a meeting with its transcript says.
pub struct DetailsView {
    pub id: Seq<char>,
    pub title: Seq<char>,
    pub created_at: Seq<char>,
    pub updated_at: Seq<char>,
    pub transcripts: Seq<SegmentView>,
    pub speaker_names: Option<Map<Seq<char>, Seq<char>>>,
}

impl View for MeetingDetails {
    type V = DetailsView;

    open spec fn view(&self) -> DetailsView {
        DetailsView {
            id: self.id@,
            title: self.title@,
            created_at: self.created_at@,
            updated_at: self.updated_at@,
            transcripts: self.transcripts@.map_values(|t: MeetingTranscript| t@),
            speaker_names: metadata::names_view(self.speaker_names),
        }
    }
}

/// What stored segments say.
pub open spec fn segments_view(rows: Seq<Transcript>) -> Seq<SegmentView> {
    rows.map_values(|t: Transcript| t@)
}

/// What stored meetings say.
pub open spec fn meetings_view(rows: Seq<MeetingModel>) -> Seq<MeetingView> {
    rows.map_values(|m: MeetingModel| m@)
}

/// What a stored meeting says, if there is one.
pub open spec fn meeting_view(row: Option<MeetingModel>) -> Option<MeetingView> {
    match row {
        Some(m) => Some(m@),
        None => None,
    }
}

/// A meeting and its segments as they are shown: times of day in the notation
/// of RFC 3339, and the names that the metadata give to the speakers.
pub open spec fn details_of(meeting: MeetingView, segments: Seq<SegmentView>) -> DetailsView {
    DetailsView {
        id: meeting.id,
        title: meeting.title,
        created_at: meeting.created_at.notation(),
        updated_at: meeting.updated_at.notation(),
        transcripts: segments,
        speaker_names: metadata::names_in_text(meeting.metadata),
    }
}

/// Whether a segment is shown as it is stored, in every part.
pub open spec fn same_segment(shown: MeetingTranscript, stored: Transcript) -> bool {
    &&& shown.id@ == stored.id@
    &&& shown.text@ == stored.transcript@
    &&& shown.timestamp@ == stored.timestamp@
    &&& shown.audio_start_time == stored.audio_start_time
    &&& shown.audio_end_time == stored.audio_end_time
    &&& shown.duration == stored.duration
    &&& shown.speaker_id is Some <==> stored.speaker_id is Some
    &&& shown.speaker_id is Some ==> shown.speaker_id->0@ == stored.speaker_id->0@
}

impl MeetingTranscript {
    /// A stored segment as it is shown.
    pub fn from_row(t: Transcript) -> (r: MeetingTranscript)
        ensures
            r@ == t@,
            same_segment(r, t),
    {
        MeetingTranscript {
            id: t.id,
            text: t.transcript,
            timestamp: t.timestamp,
            audio_start_time: t.audio_start_time,
            audio_end_time: t.audio_end_time,
            duration: t.duration,
            speaker_id: t.speaker_id,
        }
    }
}

impl MeetingDetails {
    /// A stored meeting and its stored segments as they are shown.
    pub fn from_rows(meeting: MeetingModel, rows: Vec<Transcript>) -> (r: MeetingDetails)
        requires
            metadata::readable_metadata(meeting@.metadata),
        ensures
            r@ == details_of(meeting@, segments_view(rows@)),
            r.id@ == meeting.id@,
            r.title@ == meeting.title@,
            r.transcripts@.len() == rows@.len(),
            forall|i: int|
                0 <= i < rows@.len() ==> same_segment(#[trigger] r.transcripts@[i], rows@[i]),
    {
        let speaker_names = metadata::parse_speaker_names(&meeting.metadata);
        let ghost given = rows@;
        let mut transcripts: Vec<MeetingTranscript> = Vec::new();
        for t in it: rows
            invariant
                it.seq() == given,
                transcripts@.len() == it.index(),
                forall|i: int|
                    0 <= i < transcripts@.len() ==> (#[trigger] transcripts@[i])@ == given[i]@
                        && same_segment(transcripts@[i], given[i]),
        {
            transcripts.push(MeetingTranscript::from_row(t));
        }
        let r = MeetingDetails {
            id: meeting.id,
            title: meeting.title,
            created_at: meeting.created_at.to_rfc3339(),
            updated_at: meeting.updated_at.to_rfc3339(),
            transcripts,
            speaker_names,
        };
        proof {
            assert(r@.transcripts =~= segments_view(given));
        }
        r
    }
}

/// Whether two optional texts say the same.
pub open spec fn same_optional_text(seen: Option<Seq<char>>, t: Option<String>) -> bool {
    &&& seen is Some <==> t is Some
    &&& t is Some ==> seen->0 == t->0@
}

/// What stored segments say is what each of them says, in every part, in their
/// order, and none is left out.
pub proof fn stored_segments_are_seen_whole(rows: Seq<Transcript>)
    ensures
        segments_view(rows).len() == rows.len(),
        forall|i: int|
            0 <= i < rows.len() ==> {
                let seen = #[trigger] segments_view(rows)[i];
                &&& seen.id == rows[i].id@
                &&& seen.text == rows[i].transcript@
                &&& seen.timestamp == rows[i].timestamp@
                &&& seen.audio_start_time == rows[i].audio_start_time
                &&& seen.audio_end_time == rows[i].audio_end_time
                &&& seen.duration == rows[i].duration
                &&& same_optional_text(seen.speaker_id, rows[i].speaker_id)
            },
{
}

/// What stored meetings say is what each of them says, in every part, in their
/// order, and none is left out.
pub proof fn stored_meetings_are_seen_whole(rows: Seq<MeetingModel>)
    ensures
        meetings_view(rows).len() == rows.len(),
        forall|i: int|
            0 <= i < rows.len() ==> {
                let seen = #[trigger] meetings_view(rows)[i];
                &&& seen.id == rows[i].id@
                &&& seen.title == rows[i].title@
                &&& seen.created_at == rows[i].created_at
                &&& seen.updated_at == rows[i].updated_at
                &&& same_optional_text(seen.folder_path, rows[i].folder_path)
                &&& same_optional_text(seen.metadata, rows[i].metadata)
            },
{
}

/// What one stored meeting says is what it says among others.
pub proof fn a_stored_meeting_is_seen_whole(m: MeetingModel)
    ensures
        meeting_view(None) is None,
        meeting_view(Some(m)) == Some(meetings_view(seq![m])[0]),
{
}

/// A meeting is shown under its id and title, with every segment that is
/// stored, in their order, and each as it is stored.
pub proof fn a_meeting_is_shown_with_every_segment(
    meeting: MeetingModel,
    rows: Seq<Transcript>,
    shown: MeetingDetails,
)
    requires
        shown@ == details_of(meeting@, segments_view(rows)),
    ensures
        shown.id@ == meeting.id@,
        shown.title@ == meeting.title@,
        shown.created_at@ == timestamp::rfc3339_text(
            meeting.created_at.seconds_part(),
            meeting.created_at.nanoseconds_part(),
        ),
        shown.updated_at@ == timestamp::rfc3339_text(
            meeting.updated_at.seconds_part(),
            meeting.updated_at.nanoseconds_part(),
        ),
        shown.transcripts@.len() == rows.len(),
        forall|i: int|
            0 <= i < rows.len() ==> same_segment(#[trigger] shown.transcripts@[i], rows[i]),
{
    let seen = shown@.transcripts;
    assert(seen.len() == shown.transcripts@.len());
    assert forall|i: int| 0 <= i < rows.len() implies same_segment(
        #[trigger] shown.transcripts@[i],
        rows[i],
    ) by {
        assert(seen[i] == shown.transcripts@[i]@);
        assert(segments_view(rows)[i] == rows[i]@);
    }
}

} // verus!
