use libremeet::diarization::overlap::DiarizationSegment;
use libremeet::diarization::run::{
    error_detail, progress_message, run_whisperx, Argument, Run, RunAction, RunEvent, RunProgress,
};
use libremeet::diarization::sidecar::{
    resolve_python, resolve_sidecar_script, sidecar_candidates, Base, SidecarPlaces,
};
use libremeet::seconds::Seconds;

#[test]
fn the_interpreter() {
    assert_eq!(resolve_python(true), "python3");
    assert_eq!(resolve_python(false), "python");
}

fn everywhere() -> SidecarPlaces {
    SidecarPlaces {
        env_override: true,
        exe_dir: true,
        app_root: true,
        manifest_dir: true,
        workspace_root: true,
    }
}

fn paths(places: SidecarPlaces) -> Vec<(Base, String)> {
    sidecar_candidates(places).iter().map(|c| (c.base, c.components.join("/"))).collect()
}

#[test]
fn the_script_is_looked_for_in_order() {
    let script = "libremeet-sidecars/whisperx_diarize.py".to_string();
    assert_eq!(
        paths(everywhere()),
        vec![
            (Base::EnvOverride, String::new()),
            (Base::AppRoot, script.clone()),
            (Base::AppRoot, format!("Resources/{}", script)),
            (Base::ExeDir, script.clone()),
            (Base::WorkspaceRoot, script.clone()),
        ]
    );
    let no_root = SidecarPlaces { app_root: false, workspace_root: false, ..everywhere() };
    assert_eq!(
        paths(no_root),
        vec![
            (Base::EnvOverride, String::new()),
            (Base::ExeDir, script.clone()),
            (Base::ManifestDir, script.clone()),
        ]
    );
    // Without the executable's directory there is none above it.
    let no_exe = SidecarPlaces { exe_dir: false, env_override: false, ..everywhere() };
    assert_eq!(paths(no_exe), vec![(Base::WorkspaceRoot, script)]);
}

#[test]
fn the_first_script_that_is_there_is_taken() {
    let found = vec![false, false, true, true, true];
    let c = resolve_sidecar_script(everywhere(), &found).unwrap();
    assert_eq!(c.base, Base::AppRoot);
    assert_eq!(c.components, vec!["Resources", "libremeet-sidecars", "whisperx_diarize.py"]);
    let c = resolve_sidecar_script(everywhere(), &vec![true; 5]).unwrap();
    assert_eq!(c.base, Base::EnvOverride);
    assert!(c.components.is_empty());
    let c = resolve_sidecar_script(everywhere(), &vec![false, false, false, false, true]).unwrap();
    assert_eq!(c.base, Base::WorkspaceRoot);
}

#[test]
fn a_script_that_is_nowhere() {
    let e = resolve_sidecar_script(everywhere(), &vec![false; 5]).unwrap_err();
    assert_eq!(
        e,
        "WhisperX sidecar script not found. Expected at libremeet-sidecars/whisperx_diarize.py \
         or set WHISPERX_SIDECAR_PATH env var."
    );
    let nowhere = SidecarPlaces {
        env_override: false,
        exe_dir: false,
        app_root: false,
        manifest_dir: false,
        workspace_root: false,
    };
    assert!(resolve_sidecar_script(nowhere, &vec![]).is_err());
}

#[test]
fn lines_that_report_progress() {
    let message = |s: &str| progress_message(s);
    assert_eq!(message("PROGRESS: Loading model").as_deref(), Some("Loading model"));
    assert_eq!(message("  \tPROGRESS:50%  \r").as_deref(), Some("50%"));
    assert_eq!(message("PROGRESS:").as_deref(), Some(""));
    assert_eq!(message("PROGRESS:  ").as_deref(), Some(""));
    assert_eq!(message("progress: x"), None);
    assert_eq!(message("some PROGRESS: x"), None);
    assert_eq!(message(""), None);
}

#[test]
fn why_a_sidecar_failed() {
    let lines = |l: &[&str]| l.iter().map(|s| s.to_string()).collect::<Vec<String>>();
    assert_eq!(error_detail(Some(2), &lines(&[])), "exit code 2");
    assert_eq!(error_detail(None, &lines(&["", "  \t"])), "exit code -1");
    assert_eq!(error_detail(Some(1), &lines(&[" no GPU ", "", "bye"])), "no GPU; bye");
    assert_eq!(error_detail(Some(-7), &lines(&["\n"])), "exit code -7");
}

fn start(token: Option<&str>, python3_runs: bool) -> Run {
    let begun = run_whisperx(
        "/m/audio.mp4".into(),
        "/tmp/out.json".into(),
        token.map(|t| t.to_string()),
        Ok("/app/whisperx_diarize.py".into()),
        python3_runs,
    );
    match begun {
        RunProgress::Continue { run, report: None } => run,
        other => panic!("{:?}", other),
    }
}

fn go(run: Run, event: RunEvent) -> Run {
    assert!(run.accepts(&event));
    match run.step(event) {
        RunProgress::Continue { run, .. } => run,
        other => panic!("{:?}", other),
    }
}

fn fail(run: Run, event: RunEvent) -> String {
    assert!(run.accepts(&event));
    match run.step(event) {
        RunProgress::Finished(Err(e)) => e,
        other => panic!("{:?}", other),
    }
}

fn reading() -> Run {
    let run = go(start(None, true), RunEvent::Audio(true));
    go(run, RunEvent::Spawned { stdout: true, stderr: true })
}

fn command(run: &Run) -> String {
    match run.action() {
        RunAction::Spawn { python, arguments } => {
            let words: Vec<String> = arguments
                .iter()
                .map(|a| match a {
                    Argument::Script => "<script>".to_string(),
                    Argument::Audio => "<audio>".to_string(),
                    Argument::Output => "<output>".to_string(),
                    Argument::Text(t) => t.clone(),
                })
                .collect();
            format!("{} {}", python, words.join(" "))
        }
        other => panic!("{:?}", other),
    }
}

#[test]
fn the_command_line() {
    let line = |token, python3_runs| command(&go(start(token, python3_runs), RunEvent::Audio(true)));
    assert_eq!(line(None, true), "python3 <script> --audio <audio> --output <output>");
    assert_eq!(line(Some(""), false), "python <script> --audio <audio> --output <output>");
    assert_eq!(
        line(Some("hf_x"), true),
        "python3 <script> --audio <audio> --output <output> --hf-token hf_x"
    );
}

#[test]
fn without_python3_python_is_run() {
    let run = go(start(None, false), RunEvent::Audio(true));
    assert_eq!(command(&run), "python <script> --audio <audio> --output <output>");
    assert_eq!(
        fail(run, RunEvent::Failed),
        "Failed to spawn Python sidecar: python /app/whisperx_diarize.py"
    );
}

#[test]
fn a_run_that_succeeds() {
    let mut run = start(None, true);
    assert!(matches!(run.action(), RunAction::CheckAudio));
    run = reading();
    assert!(matches!(run.action(), RunAction::ReadLine));
    let mut reports = Vec::new();
    for line in ["PROGRESS: a", "noise", "", "  PROGRESS:b "] {
        match run.step(RunEvent::Line(line.into())) {
            RunProgress::Continue { run: next, report } => {
                run = next;
                reports.extend(report);
            }
            other => panic!("{:?}", other),
        }
    }
    assert_eq!(reports, vec!["a", "b"]);
    run = go(run, RunEvent::EndOfLines);
    assert!(matches!(run.action(), RunAction::Wait));
    // Complaints do not matter where the sidecar ends well.
    run = go(run, RunEvent::Exited { success: true, code: Some(0), errors: vec!["warn".into()] });
    assert!(matches!(run.action(), RunAction::ReadOutput));
    run = go(run, RunEvent::OutputRead);
    assert!(matches!(run.action(), RunAction::ParseOutput));
    let segments = vec![DiarizationSegment {
        speaker_id: "SPEAKER_00".into(),
        start_sec: Seconds::zero(),
        end_sec: Seconds::zero(),
        text: "Hi".into(),
    }];
    match run.step(RunEvent::Segments(segments)) {
        RunProgress::Finished(Ok(s)) => {
            assert_eq!(s.len(), 1);
            assert_eq!(s[0].speaker_id, "SPEAKER_00");
            assert_eq!(s[0].text, "Hi");
        }
        other => panic!("{:?}", other),
    }
}

#[test]
fn runs_that_fail() {
    let begun = run_whisperx("a".into(), "o".into(), None, Err("nowhere".into()), true);
    assert!(matches!(begun, RunProgress::Finished(Err(ref e)) if e == "nowhere"));
    assert_eq!(
        fail(start(None, true), RunEvent::Audio(false)),
        "Audio file not found: /m/audio.mp4"
    );
    assert_eq!(
        fail(go(start(None, true), RunEvent::Audio(true)), RunEvent::Failed),
        "Failed to spawn Python sidecar: python3 /app/whisperx_diarize.py"
    );
    assert_eq!(
        fail(go(start(None, false), RunEvent::Audio(true)), RunEvent::Failed),
        "Failed to spawn Python sidecar: python /app/whisperx_diarize.py"
    );
    assert_eq!(
        fail(
            go(start(None, true), RunEvent::Audio(true)),
            RunEvent::Spawned { stdout: false, stderr: false }
        ),
        "Failed to capture stdout"
    );
    assert_eq!(
        fail(
            go(start(None, true), RunEvent::Audio(true)),
            RunEvent::Spawned { stdout: true, stderr: false }
        ),
        "Failed to capture stderr"
    );
    let waiting = || go(reading(), RunEvent::EndOfLines);
    assert_eq!(fail(waiting(), RunEvent::Failed), "Failed to wait for sidecar process");
    assert_eq!(
        fail(
            waiting(),
            RunEvent::Exited { success: false, code: Some(3), errors: vec![" boom ".into()] }
        ),
        "WhisperX diarization failed: boom"
    );
    assert_eq!(
        fail(waiting(), RunEvent::Exited { success: false, code: None, errors: vec![] }),
        "WhisperX diarization failed: exit code -1"
    );
    let ended = || go(waiting(), RunEvent::Exited { success: true, code: Some(0), errors: vec![] });
    assert_eq!(
        fail(ended(), RunEvent::Failed),
        "Failed to read diarization output: /tmp/out.json"
    );
    assert_eq!(
        fail(go(ended(), RunEvent::OutputRead), RunEvent::Failed),
        "Failed to parse diarization output JSON"
    );
}

#[test]
fn events_out_of_turn_are_not_accepted() {
    let run = start(None, true);
    assert!(run.accepts(&RunEvent::Audio(true)));
    for e in [
        RunEvent::Failed,
        RunEvent::Spawned { stdout: true, stderr: true },
        RunEvent::Line(String::new()),
        RunEvent::EndOfLines,
        RunEvent::Exited { success: true, code: Some(0), errors: vec![] },
        RunEvent::OutputRead,
        RunEvent::Segments(vec![]),
    ] {
        assert!(!run.accepts(&e));
    }
    assert!(!reading().accepts(&RunEvent::Failed));
}
