use libremeet::diarization::commands::api_save_speaker_names;
use libremeet::metadata::SpeakerNames;
use libremeet::models::{MeetingModel, Transcript};
use libremeet::repository::protocol::{
    Action, Bind, Outcome, Progress, Reply, RepositoryError, Statement, Task,
};
use libremeet::repository::task::MeetingsRepository;
use libremeet::timestamp::Timestamp;

fn meeting(metadata: Option<&str>) -> MeetingModel {
    MeetingModel {
        id: "m1".into(),
        title: "Weekly".into(),
        created_at: Timestamp::new(0, 0).unwrap(),
        updated_at: Timestamp::new(0, 0).unwrap(),
        folder_path: None,
        metadata: metadata.map(|m| m.to_string()),
    }
}

fn transcript(id: &str) -> Transcript {
    Transcript {
        id: id.into(),
        transcript: "hello".into(),
        timestamp: String::new(),
        audio_start_time: None,
        audio_end_time: None,
        duration: None,
        speaker_id: None,
    }
}

fn statement(s: &Statement) -> String {
    let binds: Vec<String> = s
        .binds
        .iter()
        .map(|b| match b {
            Bind::Text(t) => format!("'{}'", t),
            Bind::Integer(n) => n.to_string(),
            Bind::NaiveUtcNow => "naive now".to_string(),
            Bind::UtcNow => "now".to_string(),
        })
        .collect();
    let words: Vec<&str> = s.sql.split_whitespace().collect();
    format!("{} [{}]", words.join(" "), binds.join(", "))
}

fn describe(a: &Action) -> String {
    match a {
        Action::Acquire => "acquire".into(),
        Action::Begin => "begin".into(),
        Action::Commit => "commit".into(),
        Action::Rollback => "rollback".into(),
        Action::FetchMeetings(s)
        | Action::FetchMeeting(s)
        | Action::FetchExistence(s)
        | Action::FetchCount(s)
        | Action::FetchTranscripts(s)
        | Action::FetchMetadata(s)
        | Action::Execute(s) => statement(s),
    }
}

/// The actions that an operation performs with the given replies, and how it
/// ends.
fn run(start: Progress, replies: Vec<Reply>) -> (Vec<String>, Result<Outcome, RepositoryError>) {
    let mut progress = start;
    let mut actions = Vec::new();
    for reply in replies {
        match progress {
            Progress::Continue(task) => {
                let action = task.action();
                assert!(task.accepts(&reply), "{:?} {:?}", action, reply);
                actions.push(describe(&action));
                progress = task.step(reply);
            }
            Progress::Finished(_) => panic!("a reply after the end"),
        }
    }
    match progress {
        Progress::Finished(r) => (actions, r),
        Progress::Continue(t) => panic!("not at the end: {:?}", t),
    }
}

fn changed(r: Result<Outcome, RepositoryError>) -> bool {
    match r {
        Ok(Outcome::Changed(b)) => b,
        other => panic!("{:?}", other),
    }
}

const DELETIONS: [&str; 6] = [
    "SELECT 1 FROM meetings WHERE id = ? ['m1']",
    "DELETE FROM transcript_chunks WHERE meeting_id = ? ['m1']",
    "DELETE FROM summary_processes WHERE meeting_id = ? ['m1']",
    "DELETE FROM meeting_notes WHERE meeting_id = ? ['m1']",
    "DELETE FROM transcripts WHERE meeting_id = ? ['m1']",
    "DELETE FROM meetings WHERE id = ? ['m1']",
];

fn around(middle: &[&str], last: &str) -> Vec<String> {
    let mut all = vec!["acquire".to_string(), "begin".to_string()];
    all.extend(middle.iter().map(|s| s.to_string()));
    all.push(last.to_string());
    all
}

#[test]
fn a_meeting_is_deleted_with_what_belongs_to_it() {
    let (actions, r) = run(
        MeetingsRepository::delete_meeting("m1"),
        vec![
            Reply::Done,
            Reply::Done,
            Reply::Existence(true),
            Reply::Affected(3),
            Reply::Affected(0),
            Reply::Affected(1),
            Reply::Affected(9),
            Reply::Affected(1),
            Reply::Done,
        ],
    );
    assert_eq!(actions, around(&DELETIONS, "commit"));
    assert!(changed(r));
}

#[test]
fn a_meeting_that_is_not_there_is_not_deleted() {
    let (actions, r) = run(
        MeetingsRepository::delete_meeting("m1"),
        vec![Reply::Done, Reply::Done, Reply::Existence(false), Reply::Done],
    );
    assert_eq!(actions, around(&DELETIONS[..1], "rollback"));
    assert!(!changed(r));
}

#[test]
fn a_meeting_that_goes_meanwhile_is_rolled_back() {
    let (actions, r) = run(
        MeetingsRepository::delete_meeting("m1"),
        vec![
            Reply::Done,
            Reply::Done,
            Reply::Existence(true),
            Reply::Affected(0),
            Reply::Affected(0),
            Reply::Affected(0),
            Reply::Affected(0),
            Reply::Affected(0),
            Reply::Done,
        ],
    );
    assert_eq!(actions, around(&DELETIONS, "rollback"));
    assert!(!changed(r));
}

#[test]
fn a_failure_while_deleting_is_rolled_back() {
    let progress = vec![
        Reply::Done,
        Reply::Done,
        Reply::Existence(true),
        Reply::Affected(0),
        Reply::Affected(0),
        Reply::Failed,
    ];
    for rollback in [Reply::Done, Reply::Failed] {
        let mut replies = vec![];
        for r in &progress {
            replies.push(match r {
                Reply::Done => Reply::Done,
                Reply::Existence(b) => Reply::Existence(*b),
                Reply::Affected(n) => Reply::Affected(*n),
                _ => Reply::Failed,
            });
        }
        replies.push(rollback);
        let (actions, r) = run(MeetingsRepository::delete_meeting("m1"), replies);
        assert_eq!(actions, around(&DELETIONS[..4], "rollback"));
        assert_eq!(r.unwrap_err(), RepositoryError::Database);
    }
}

#[test]
fn a_blank_id_is_refused() {
    for id in ["", "  ", "\t\u{3000}"] {
        for start in [
            MeetingsRepository::delete_meeting(id),
            MeetingsRepository::get_meeting(id),
            MeetingsRepository::get_meeting_metadata(id),
            MeetingsRepository::get_meeting_transcripts_paginated(id, 1, 0),
            MeetingsRepository::update_meeting_title(id, "t"),
        ] {
            let (actions, r) = run(start, vec![]);
            assert!(actions.is_empty());
            let e = r.unwrap_err();
            assert_eq!(e, RepositoryError::EmptyMeetingId);
            assert_eq!(e.protocol_message(), Some("meeting_id cannot be empty"));
        }
    }
    assert_eq!(RepositoryError::RowNotFound.protocol_message(), None);
    assert_eq!(RepositoryError::Database.protocol_message(), None);
    // These do not look at the id.
    assert!(matches!(MeetingsRepository::update_meeting_name("", "t"), Progress::Continue(_)));
    assert!(matches!(MeetingsRepository::save_meeting_metadata("", "{}"), Progress::Continue(_)));
    assert!(matches!(MeetingsRepository::get_meeting_metadata_json(""), Progress::Continue(_)));
    assert!(matches!(MeetingsRepository::update_transcript_speaker("", ""), Progress::Continue(_)));
}

#[test]
fn all_meetings() {
    let (actions, r) = run(
        MeetingsRepository::get_meetings(),
        vec![Reply::Meetings(vec![meeting(None), meeting(None)])],
    );
    assert_eq!(
        actions,
        vec!["SELECT id, title, created_at, updated_at, folder_path, metadata FROM meetings ORDER BY created_at DESC []"]
    );
    assert!(matches!(r, Ok(Outcome::Meetings(ref m)) if m.len() == 2));
    let (_, r) = run(MeetingsRepository::get_meetings(), vec![Reply::Failed]);
    assert_eq!(r.unwrap_err(), RepositoryError::Database);
}

const SELECT_MEETING: &str = "SELECT id, title, created_at, updated_at, folder_path, metadata FROM meetings WHERE id = ? ['m1']";

#[test]
fn a_meeting_with_its_transcripts() {
    let (actions, r) = run(
        MeetingsRepository::get_meeting("m1"),
        vec![
            Reply::Done,
            Reply::Done,
            Reply::Meeting(Some(meeting(Some(r#"{"speakers":{"S":"Sue"}}"#)))),
            Reply::Transcripts(vec![transcript("t1"), transcript("t2")]),
            Reply::Done,
        ],
    );
    assert_eq!(
        actions,
        around(&[SELECT_MEETING, "SELECT * FROM transcripts WHERE meeting_id = ? ['m1']"], "commit")
    );
    match r {
        Ok(Outcome::Details(Some(d))) => {
            assert_eq!(d.id, "m1");
            assert_eq!(d.created_at, "1970-01-01T00:00:00+00:00");
            let ids: Vec<&str> = d.transcripts.iter().map(|t| t.id.as_str()).collect();
            assert_eq!(ids, vec!["t1", "t2"]);
            assert_eq!(d.speaker_names.unwrap().get("S").map(|s| s.as_str()), Some("Sue"));
        }
        other => panic!("{:?}", other),
    }
}

#[test]
fn a_meeting_that_is_not_there_cannot_be_shown() {
    let (actions, r) = run(
        MeetingsRepository::get_meeting("m1"),
        vec![Reply::Done, Reply::Done, Reply::Meeting(None), Reply::Done],
    );
    assert_eq!(actions, around(&[SELECT_MEETING], "rollback"));
    assert_eq!(r.unwrap_err(), RepositoryError::RowNotFound);
    let (_, r) = run(
        MeetingsRepository::get_meeting("m1"),
        vec![Reply::Done, Reply::Done, Reply::Meeting(None), Reply::Failed],
    );
    assert_eq!(r.unwrap_err(), RepositoryError::Database);
}

#[test]
fn a_meeting_without_its_transcripts() {
    let (actions, r) = run(
        MeetingsRepository::get_meeting_metadata("m1"),
        vec![Reply::Meeting(Some(meeting(None)))],
    );
    assert_eq!(actions, vec![SELECT_MEETING]);
    assert!(matches!(r, Ok(Outcome::Meeting(Some(ref m))) if m.id == "m1"));
    let (_, r) = run(MeetingsRepository::get_meeting_metadata("m1"), vec![Reply::Meeting(None)]);
    assert!(matches!(r, Ok(Outcome::Meeting(None))));
}

#[test]
fn a_page_of_transcripts() {
    let (actions, r) = run(
        MeetingsRepository::get_meeting_transcripts_paginated("m1", 2, 40),
        vec![Reply::Count(42), Reply::Transcripts(vec![transcript("t1"), transcript("t2")])],
    );
    assert_eq!(
        actions,
        vec![
            "SELECT COUNT(*) FROM transcripts WHERE meeting_id = ? ['m1']",
            "SELECT * FROM transcripts WHERE meeting_id = ? ORDER BY audio_start_time ASC LIMIT ? OFFSET ? ['m1', 2, 40]",
        ]
    );
    assert!(matches!(r, Ok(Outcome::Transcripts(ref t, 42)) if t.len() == 2));
}

#[test]
fn a_new_title() {
    let update = "UPDATE meetings SET title = ?, updated_at = ? WHERE id = ? ['New', naive now, 'm1']";
    let title = || MeetingsRepository::update_meeting_title("m1", "New");
    let (actions, r) =
        run(title(), vec![Reply::Done, Reply::Done, Reply::Affected(1), Reply::Done]);
    assert_eq!(actions, around(&[update], "commit"));
    assert!(changed(r));
    let (actions, r) =
        run(title(), vec![Reply::Done, Reply::Done, Reply::Affected(0), Reply::Done]);
    assert_eq!(actions, around(&[update], "rollback"));
    assert!(!changed(r));
    let (_, r) = run(title(), vec![Reply::Failed]);
    assert_eq!(r.unwrap_err(), RepositoryError::Database);
}

#[test]
fn a_new_name() {
    let update = "UPDATE meetings SET title = ?, updated_at = ? WHERE id = ? ['New', now, 'm1']";
    let chunks = "UPDATE transcript_chunks SET meeting_name = ? WHERE meeting_id = ? ['New', 'm1']";
    let name = || MeetingsRepository::update_meeting_name("m1", "New");
    let (actions, r) = run(
        name(),
        vec![Reply::Done, Reply::Affected(1), Reply::Affected(0), Reply::Done],
    );
    assert_eq!(actions, vec!["begin", update, chunks, "commit"]);
    assert!(changed(r));
    let (actions, r) = run(name(), vec![Reply::Done, Reply::Affected(0), Reply::Done]);
    assert_eq!(actions, vec!["begin", update, "rollback"]);
    assert!(!changed(r));
}

#[test]
fn the_speaker_of_a_segment() {
    let speaker = || MeetingsRepository::update_transcript_speaker("t1", "SPEAKER_00");
    let (actions, r) = run(speaker(), vec![Reply::Affected(1)]);
    assert_eq!(
        actions,
        vec!["UPDATE transcripts SET speaker_id = ? WHERE id = ? ['SPEAKER_00', 't1']"]
    );
    assert!(changed(r));
    assert!(!changed(run(speaker(), vec![Reply::Affected(0)]).1));
    assert_eq!(run(speaker(), vec![Reply::Failed]).1.unwrap_err(), RepositoryError::Database);
}

#[test]
fn metadata_are_merged_when_they_are_saved() {
    let save = || MeetingsRepository::save_meeting_metadata("m1", r#"{"b": 2}"#);
    let cases: Vec<(Option<Option<&str>>, &str)> = vec![
        (None, r#"{"b": 2}"#),
        (Some(None), r#"{"b": 2}"#),
        (Some(Some(r#"{"a": 1, "b": 1}"#)), r#"{"a":1,"b":2}"#),
        (Some(Some("broken")), r#"{"b":2}"#),
    ];
    for (existing, stored) in cases {
        let row = existing.map(|c| c.map(|t| t.to_string()));
        let (actions, r) = run(save(), vec![Reply::Metadata(row), Reply::Affected(1)]);
        assert_eq!(
            actions,
            vec![
                "SELECT metadata FROM meetings WHERE id = ? ['m1']".to_string(),
                format!("UPDATE meetings SET metadata = ? WHERE id = ? ['{}', 'm1']", stored),
            ]
        );
        // A meeting that is not there is not missed.
        assert!(matches!(r, Ok(Outcome::Saved)));
    }
    let (_, r) = run(save(), vec![Reply::Failed]);
    assert_eq!(r.unwrap_err(), RepositoryError::Database);
}

#[test]
fn metadata_as_they_are_stored() {
    let load = || MeetingsRepository::get_meeting_metadata_json("m1");
    let (actions, r) = run(load(), vec![Reply::Metadata(Some(Some("x".into())))]);
    assert_eq!(actions, vec!["SELECT metadata FROM meetings WHERE id = ? ['m1']"]);
    assert!(matches!(r, Ok(Outcome::MetadataJson(Some(ref t))) if t == "x"));
    for row in [None, Some(None)] {
        let (_, r) = run(load(), vec![Reply::Metadata(row)]);
        assert!(matches!(r, Ok(Outcome::MetadataJson(None))));
    }
}

#[test]
fn replies_to_other_actions_are_not_accepted() {
    let task = Task::Meetings;
    assert!(task.accepts(&Reply::Failed));
    assert!(task.accepts(&Reply::Meetings(vec![])));
    for r in [
        Reply::Done,
        Reply::Meeting(None),
        Reply::Existence(true),
        Reply::Count(0),
        Reply::Transcripts(vec![]),
        Reply::Metadata(None),
        Reply::Affected(0),
    ] {
        assert!(!task.accepts(&r));
    }
}

#[test]
fn saved_names_are_shown_with_the_meeting() {
    let mut names = SpeakerNames::new();
    names.insert("SPEAKER_00".into(), "Alice".into());
    let existing = r#"{"x": 1, "speakers": {"SPEAKER_00": "old", "SPEAKER_01": "gone"}}"#;
    let start = api_save_speaker_names("m1", &names).unwrap();
    let loaded = match start {
        Progress::Continue(task) => task.step(Reply::Metadata(Some(Some(existing.into())))),
        other => panic!("{:?}", other),
    };
    let stored = match loaded {
        Progress::Continue(Task::StoreMetadata { metadata, .. }) => metadata,
        other => panic!("{:?}", other),
    };
    assert_eq!(stored, r#"{"speakers":{"SPEAKER_00":"Alice"},"x":1}"#);
    let (_, r) = run(
        MeetingsRepository::get_meeting("m1"),
        vec![
            Reply::Done,
            Reply::Done,
            Reply::Meeting(Some(meeting(Some(&stored)))),
            Reply::Transcripts(vec![]),
            Reply::Done,
        ],
    );
    match r {
        Ok(Outcome::Details(Some(d))) => {
            let shown = d.speaker_names.unwrap().to_vec();
            assert_eq!(shown, vec![("SPEAKER_00".to_string(), "Alice".to_string())]);
        }
        other => panic!("{:?}", other),
    }
}

#[test]
fn a_change_is_reported_exactly_after_a_commit() {
    let title = || MeetingsRepository::update_meeting_title("m1", "New");
    let (actions, r) =
        run(title(), vec![Reply::Done, Reply::Done, Reply::Affected(1), Reply::Failed]);
    assert_eq!(actions.last().map(|s| s.as_str()), Some("commit"));
    assert_eq!(r.unwrap_err(), RepositoryError::Database);
    let name = || MeetingsRepository::update_meeting_name("m1", "New");
    let (actions, r) = run(name(), vec![Reply::Done, Reply::Affected(1), Reply::Failed]);
    assert!(!actions.contains(&"commit".to_string()));
    assert_eq!(r.unwrap_err(), RepositoryError::Database);
}
