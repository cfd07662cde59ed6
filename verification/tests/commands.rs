use libremeet::diarization::audio::AudioFile;
use libremeet::diarization::commands::{
    api_diarize_meeting, api_save_speaker_names, emit_progress, speaker_names_saved, Action,
    Diarization, DiarizationProgress, DiarizationResult, Event, Standing, State,
};
use libremeet::diarization::overlap::DiarizationSegment;
use libremeet::metadata::SpeakerNames;
use libremeet::models::{MeetingModel, Transcript};
use libremeet::repository::protocol::{Progress, Task};
use libremeet::seconds::Seconds;
use libremeet::timestamp::Timestamp;

fn seconds(x: f64) -> Seconds {
    Seconds::from_bits(x.to_bits())
}

fn meeting(folder: Option<&str>) -> MeetingModel {
    MeetingModel {
        id: "m1".into(),
        title: "Weekly".into(),
        created_at: Timestamp::new(0, 0).unwrap(),
        updated_at: Timestamp::new(0, 0).unwrap(),
        folder_path: folder.map(|f| f.to_string()),
        metadata: None,
    }
}

fn segment(speaker: &str, start: f64, end: f64) -> DiarizationSegment {
    DiarizationSegment {
        speaker_id: speaker.into(),
        start_sec: seconds(start),
        end_sec: seconds(end),
        text: String::new(),
    }
}

fn transcript(id: &str, start: Option<f64>, end: Option<f64>) -> Transcript {
    Transcript {
        id: id.into(),
        transcript: String::new(),
        timestamp: String::new(),
        audio_start_time: start.map(seconds),
        audio_end_time: end.map(seconds),
        duration: None,
        speaker_id: None,
    }
}

fn step(d: Diarization, event: Event) -> Standing {
    assert!(d.accepts(&event));
    d.step(event)
}

fn go(d: Diarization, event: Event) -> (Diarization, Option<DiarizationProgress>) {
    match step(d, event) {
        Standing { state: State::Continue(d), notice } => (d, notice),
        other => panic!("{:?}", other),
    }
}

fn end(d: Diarization, event: Event) -> (Result<DiarizationResult, String>, Option<DiarizationProgress>) {
    match step(d, event) {
        Standing { state: State::Finished(r), notice } => (r, notice),
        other => panic!("{:?}", other),
    }
}

/// The message of a diarization that ends without telling the frontend.
fn silent_failure(d: Diarization, event: Event) -> String {
    let (r, notice) = end(d, event);
    assert!(notice.is_none());
    r.unwrap_err()
}

fn told(notice: &Option<DiarizationProgress>) -> (String, String) {
    let n = notice.as_ref().unwrap();
    assert_eq!((n.speaker_count, n.chunk_count), (None, None));
    (n.status.clone(), n.message.clone().unwrap())
}

fn recording() -> AudioFile {
    AudioFile::Named("audio.wav".into())
}

fn begun() -> Diarization {
    api_diarize_meeting("m1".into(), Some("hf_x".into()))
}

fn finding() -> Diarization {
    go(begun(), Event::Meeting(Ok(Some(meeting(Some(" /m/1 ")))))).0
}

fn creating() -> Diarization {
    go(finding(), Event::Audio(Ok(recording()))).0
}

fn running() -> Diarization {
    go(creating(), Event::TempDir(Ok(()))).0
}

fn loading() -> Diarization {
    let segments = vec![segment("SPEAKER_01", 0.0, 5.0), segment("SPEAKER_00", 5.0, 10.0)];
    go(running(), Event::Segments(Ok(segments))).0
}

#[test]
fn events_for_the_frontend() {
    let n = emit_progress("processing", "half way", Some(2), None);
    assert_eq!(n.status, "processing");
    assert_eq!(n.message.as_deref(), Some("half way"));
    assert_eq!(n.speaker_count, Some(2));
    assert_eq!(n.chunk_count, None);
}

#[test]
fn a_diarization_that_succeeds() {
    let d = begun();
    assert!(matches!(d.action(), Action::LoadMeeting { ref meeting_id } if meeting_id == "m1"));
    let (d, notice) = go(d, Event::Meeting(Ok(Some(meeting(Some(" /m/1 "))))));
    assert!(notice.is_none());
    assert!(matches!(d.action(), Action::FindAudio { ref folder } if folder == " /m/1 "));
    let (d, notice) = go(d, Event::Audio(Ok(recording())));
    assert!(notice.is_none());
    assert!(matches!(d.action(), Action::CreateTempDir));
    let (d, notice) = go(d, Event::TempDir(Ok(())));
    assert_eq!(told(&notice), ("processing".into(), "Starting speaker identification...".into()));
    match d.action() {
        Action::RunSidecar { folder, audio, hf_token } => {
            assert_eq!(folder, " /m/1 ");
            assert!(matches!(audio, AudioFile::Named(ref n) if n == "audio.wav"));
            assert_eq!(hf_token.as_deref(), Some("hf_x"));
        }
        other => panic!("{:?}", other),
    }
    let (d, notice) = go(d, Event::Message("Loading model".into()));
    assert_eq!(told(&notice), ("processing".into(), "Loading model".into()));
    // A message changes nothing.
    assert!(matches!(d.action(), Action::RunSidecar { .. }));
    let segments = vec![
        segment("SPEAKER_01", 0.0, 5.0),
        segment("SPEAKER_00", 5.0, 10.0),
        segment("SPEAKER_01", 10.0, 12.0),
    ];
    let (d, notice) = go(d, Event::Segments(Ok(segments)));
    assert!(notice.is_none());
    match d.action() {
        Action::LoadTranscripts { meeting_id, limit, offset } => {
            assert_eq!(meeting_id, "m1");
            assert_eq!(limit, i64::MAX);
            assert_eq!(offset, 0);
        }
        other => panic!("{:?}", other),
    }
    let rows = vec![
        transcript("t1", Some(6.0), Some(8.0)),
        transcript("t2", None, None),
        transcript("t3", Some(20.0), None),
    ];
    let (mut d, notice) = go(d, Event::Transcripts(Ok(rows)));
    assert_eq!(
        told(&notice),
        ("processing".into(), "Assigning speakers to transcript segments...".into())
    );
    let outcomes = [Ok(true), Ok(false), Err("locked".to_string())];
    let wanted = [("t1", "SPEAKER_00"), ("t2", "SPEAKER_01"), ("t3", "SPEAKER_UNKNOWN")];
    for (outcome, want) in outcomes.into_iter().zip(wanted) {
        match d.action() {
            Action::UpdateSpeaker { transcript_id, speaker_id } => {
                assert_eq!((transcript_id.as_str(), speaker_id.as_str()), want);
            }
            other => panic!("{:?}", other),
        }
        // What comes of an update does not matter.
        let (next, notice) = go(d, Event::Updated(outcome));
        assert!(notice.is_none());
        d = next;
    }
    match d.action() {
        Action::SaveMetadata { meeting_id, metadata } => {
            assert_eq!(meeting_id, "m1");
            assert_eq!(
                metadata,
                r#"{"speakers":{"SPEAKER_00":"Speaker 1","SPEAKER_01":"Speaker 2"}}"#
            );
        }
        other => panic!("{:?}", other),
    }
    let (r, notice) = end(d, Event::Saved(Ok(())));
    let n = notice.unwrap();
    assert_eq!(n.status, "completed");
    assert_eq!(n.message.as_deref(), Some("Identified 2 speakers across 3 segments"));
    assert_eq!((n.speaker_count, n.chunk_count), (Some(2), Some(3)));
    let r = r.unwrap();
    assert_eq!(r.status, "completed");
    assert_eq!((r.speaker_count, r.chunk_count), (2, 3));
    assert!(r.error.is_none());
}

#[test]
fn a_meeting_without_transcripts_still_gets_its_names() {
    let (d, notice) = go(loading(), Event::Transcripts(Ok(vec![])));
    assert!(notice.is_some());
    assert!(matches!(d.action(), Action::SaveMetadata { .. }));
    let (r, _) = end(d, Event::Saved(Ok(())));
    let r = r.unwrap();
    assert_eq!((r.speaker_count, r.chunk_count), (2, 0));
}

#[test]
fn an_empty_token_is_not_passed_on() {
    for token in [None, Some(String::new())] {
        let d = api_diarize_meeting("m1".into(), token);
        let d = go(d, Event::Meeting(Ok(Some(meeting(Some("/m")))))).0;
        let d = go(d, Event::Audio(Ok(recording()))).0;
        let d = go(d, Event::TempDir(Ok(()))).0;
        assert!(matches!(d.action(), Action::RunSidecar { hf_token: None, .. }));
    }
}

#[test]
fn failures_that_the_result_tells() {
    assert_eq!(
        silent_failure(begun(), Event::Meeting(Err("disk".into()))),
        "Failed to load meeting: disk"
    );
    assert_eq!(silent_failure(begun(), Event::Meeting(Ok(None))), "Meeting not found: m1");
    for folder in [None, Some(""), Some(" \t")] {
        assert_eq!(
            silent_failure(begun(), Event::Meeting(Ok(Some(meeting(folder))))),
            "No recording folder found for this meeting. The meeting may not have been recorded."
        );
    }
    assert_eq!(
        silent_failure(finding(), Event::Audio(Err("Folder does not exist: /m".into()))),
        "No audio file found: Folder does not exist: /m"
    );
    assert_eq!(
        silent_failure(creating(), Event::TempDir(Err("full".into()))),
        "Failed to create temp dir: full"
    );
    assert_eq!(
        silent_failure(loading(), Event::Transcripts(Err("disk".into()))),
        "Failed to load transcripts: disk"
    );
    let saving = go(loading(), Event::Transcripts(Ok(vec![]))).0;
    assert_eq!(
        silent_failure(saving, Event::Saved(Err("disk".into()))),
        "Failed to save meeting metadata: disk"
    );
}

#[test]
fn failures_of_the_sidecar_are_told() {
    let (r, notice) = end(running(), Event::Segments(Err("no GPU".into())));
    assert_eq!(r.unwrap_err(), "Diarization failed: no GPU");
    assert_eq!(told(&notice), ("error".into(), "Diarization failed: no GPU".into()));
    let (r, notice) = end(running(), Event::Segments(Ok(vec![])));
    assert_eq!(r.unwrap_err(), "No speech segments detected");
    assert_eq!(
        told(&notice),
        ("error".into(), "No speech segments detected in the recording.".into())
    );
}

#[test]
fn events_are_accepted_in_turn() {
    assert!(!begun().accepts(&Event::Audio(Ok(recording()))));
    assert!(!begun().accepts(&Event::Saved(Ok(()))));
    assert!(!loading().accepts(&Event::Updated(Ok(true))));
    assert!(running().accepts(&Event::Message(String::new())));
    assert!(!creating().accepts(&Event::Message(String::new())));
}

#[test]
fn names_that_are_saved() {
    let mut names = SpeakerNames::new();
    names.insert("SPEAKER_00".into(), "Alice".into());
    match api_save_speaker_names("m1", &names) {
        Some(Progress::Continue(Task::LoadMetadata { meeting_id, metadata_json })) => {
            assert_eq!(meeting_id, "m1");
            assert_eq!(metadata_json, r#"{"speakers":{"SPEAKER_00":"Alice"}}"#);
        }
        other => panic!("{:?}", other),
    }
    assert_eq!(speaker_names_saved(Ok(())), Ok(()));
    assert_eq!(
        speaker_names_saved(Err("locked".into())),
        Err("Failed to save speaker names: locked".to_string())
    );
}

#[test]
fn copies_say_the_same() {
    let n = emit_progress("completed", "done", Some(1), Some(2)).clone();
    assert_eq!((n.status.as_str(), n.message.as_deref()), ("completed", Some("done")));
    assert_eq!((n.speaker_count, n.chunk_count), (Some(1), Some(2)));
    let s = segment("A", 1.0, 2.0).clone();
    assert_eq!(s.speaker_id, "A");
    assert_eq!((s.start_sec.to_bits(), s.end_sec.to_bits()), (1.0f64.to_bits(), 2.0f64.to_bits()));
}

#[test]
fn the_sidecar_runs_on_the_file_that_was_listed() {
    let d = go(finding(), Event::Audio(Ok(AudioFile::Listed(3)))).0;
    let d = go(d, Event::TempDir(Ok(()))).0;
    match d.action() {
        Action::RunSidecar { folder, audio, .. } => {
            assert_eq!(folder, " /m/1 ");
            assert!(matches!(audio, AudioFile::Listed(3)));
        }
        other => panic!("{:?}", other),
    }
}
