//! A run of the sidecar, step by step.

use crate::diarization::overlap::DiarizationSegment;
use crate::diarization::sidecar;
use crate::metadata;
use crate::text;
use vstd::prelude::*;

verus! {

/// An argument on the command line of the sidecar.
#[derive(Debug)]
pub enum Argument {
    /// The path of the script.
    Script,
    /// The path of the recording.
    Audio,
    /// The path that the sidecar writes to.
    Output,
    Text(String),
}

/// What an argument says.
pub enum ArgumentView {
    Script,
    Audio,
    Output,
    Text(Seq<char>),
}

impl View for Argument {
    type V = ArgumentView;

    open spec fn view(&self) -> ArgumentView {
        match self {
            Argument::Script => ArgumentView::Script,
            Argument::Audio => ArgumentView::Audio,
            Argument::Output => ArgumentView::Output,
            Argument::Text(t) => ArgumentView::Text(t@),
        }
    }
}

/// What arguments say.
pub open spec fn arguments_view(all: Seq<Argument>) -> Seq<ArgumentView> {
    all.map_values(|a: Argument| a@)
}

/// The command line of the sidecar. An empty token is not passed on.
pub open spec fn command_line(hf_token: Option<Seq<char>>) -> Seq<ArgumentView> {
    let files = seq![
        ArgumentView::Script,
        ArgumentView::Text("--audio"@),
        ArgumentView::Audio,
        ArgumentView::Text("--output"@),
        ArgumentView::Output,
    ];
    match hf_token {
        Some(token) if token.len() > 0 => files + seq![
            ArgumentView::Text("--hf-token"@),
            ArgumentView::Text(token),
        ],
        _ => files,
    }
}

/// The command line of the sidecar.
fn sidecar_arguments(hf_token: &Option<String>) -> (r: Vec<Argument>)
    ensures
        arguments_view(r@) == command_line(metadata::text_view(*hf_token)),
{
    let mut r: Vec<Argument> = Vec::new();
    r.push(Argument::Script);
    r.push(Argument::Text("--audio".to_owned()));
    r.push(Argument::Audio);
    r.push(Argument::Text("--output".to_owned()));
    r.push(Argument::Output);
    match hf_token {
        Some(token) => {
            if token.as_str().unicode_len() > 0 {
                r.push(Argument::Text("--hf-token".to_owned()));
                r.push(Argument::Text(token.clone()));
            }
        },
        None => {},
    }
    proof {
        assert(arguments_view(r@) =~= command_line(metadata::text_view(*hf_token)));
    }
    r
}

/// What a line that the sidecar prints reports: the rest of a line that begins
/// with `PROGRESS:`, without the white space around it.
pub open spec fn reported(line: Seq<char>) -> Option<Seq<char>> {
    let t = text::trimmed(line);
    let prefix = "PROGRESS:"@;
    if prefix.is_prefix_of(t) {
        Some(text::trimmed(t.skip(prefix.len() as int)))
    } else {
        None
    }
}

/// What a line that the sidecar prints reports.
pub fn progress_message(line: &str) -> (r: Option<String>)
    ensures
        metadata::text_view(r) == reported(line@),
{
    let trimmed = text::trim(line);
    match text::strip_prefix(trimmed, "PROGRESS:") {
        Some(progress) => Some(text::trim(progress).to_owned()),
        None => None,
    }
}

/// What the lines on the error output complain of: those that are not blank,
/// without the white space around them.
pub open spec fn complaints(lines: Seq<Seq<char>>) -> Seq<Seq<char>>
    decreases lines.len(),
{
    if lines.len() == 0 {
        Seq::empty()
    } else {
        let before = complaints(lines.drop_last());
        if text::blank(lines.last()) {
            before
        } else {
            before.push(text::trimmed(lines.last()))
        }
    }
}

/// Why a sidecar failed that ended with this code and these lines on its error
/// output.
pub open spec fn failure_detail(code: Option<int>, lines: Seq<Seq<char>>) -> Seq<char> {
    if complaints(lines).len() == 0 {
        "exit code "@ + text::decimal_number(
            match code {
                Some(c) => c,
                None => -1,
            },
        )
    } else {
        text::joined(complaints(lines), "; "@)
    }
}

/// What an exit code says.
pub open spec fn code_view(code: Option<i32>) -> Option<int> {
    match code {
        Some(c) => Some(c as int),
        None => None,
    }
}

/// What the lines on the error output complain of.
fn collect_complaints(lines: &Vec<String>) -> (r: Vec<String>)
    ensures
        text::texts(r@) == complaints(text::texts(lines@)),
{
    let ghost all = text::texts(lines@);
    let mut r: Vec<String> = Vec::new();
    let mut i: usize = 0;
    while i < lines.len()
        invariant
            i <= lines@.len(),
            all == text::texts(lines@),
            text::texts(r@) == complaints(all.take(i as int)),
        decreases lines.len() - i,
    {
        let trimmed = text::trim(lines[i].as_str());
        proof {
            text::trimmed_empty_iff_blank(lines@[i as int]@);
            assert(all.take(i + 1).drop_last() =~= all.take(i as int));
            assert(all.take(i + 1).last() == lines@[i as int]@);
        }
        if trimmed.unicode_len() > 0 {
            r.push(trimmed.to_owned());
        }
        proof {
            assert(text::texts(r@) =~= complaints(all.take(i + 1)));
        }
        i = i + 1;
    }
    proof {
        assert(all.take(i as int) =~= all);
    }
    r
}

/// Why a sidecar failed that ended with this code and these lines on its error
/// output.
pub fn error_detail(code: Option<i32>, lines: &Vec<String>) -> (r: String)
    ensures
        r@ == failure_detail(code_view(code), text::texts(lines@)),
{
    let errors = collect_complaints(lines);
    proof {
        assert(text::texts(errors@).len() == errors@.len());
    }
    if errors.len() == 0 {
        let shown: i32 = match code {
            Some(c) => c,
            None => -1,
        };
        text::followed_by("exit code ", text::signed_decimal(shown).as_str())
    } else {
        text::join(&errors, "; ")
    }
}

/// How far a run has come.
#[derive(Clone, Copy, Debug, PartialEq, Eq, Structural)]
pub enum RunStage {
    CheckAudio,
    Spawn,
    ReadLines,
    Wait,
    ReadOutput,
    ParseOutput,
}

/// A run of the sidecar that is under way. Paths are held as they are shown.
#[derive(Debug)]
pub struct Run {
    pub audio: String,
    pub output: String,
    pub script: String,
    pub hf_token: Option<String>,
    /// Whether `python3` can be run.
    pub python3_runs: bool,
    pub stage: RunStage,
}

/// What a run is about.
pub struct RunView {
    pub audio: Seq<char>,
    pub output: Seq<char>,
    pub script: Seq<char>,
    pub hf_token: Option<Seq<char>>,
    pub python3_runs: bool,
    pub stage: RunStage,
}

impl View for Run {
    type V = RunView;

    open spec fn view(&self) -> RunView {
        RunView {
            audio: self.audio@,
            output: self.output@,
            script: self.script@,
            hf_token: metadata::text_view(self.hf_token),
            python3_runs: self.python3_runs,
            stage: self.stage,
        }
    }
}

/// What is to be done next.
#[derive(Debug)]
pub enum RunAction {
    /// Ask whether the recording is there.
    CheckAudio,
    /// Start the interpreter, without input, and with both outputs at hand.
    Spawn { python: &'static str, arguments: Vec<Argument> },
    /// Read a line of the output.
    ReadLine,
    /// Wait until the sidecar ends, and take the lines of its error output.
    Wait,
    /// Read what the sidecar has written.
    ReadOutput,
    /// Take the segments out of what was read.
    ParseOutput,
}

/// What is to be done next.
pub enum RunActionView {
    CheckAudio,
    Spawn { python: Seq<char>, arguments: Seq<ArgumentView> },
    ReadLine,
    Wait,
    ReadOutput,
    ParseOutput,
}

impl View for RunAction {
    type V = RunActionView;

    open spec fn view(&self) -> RunActionView {
        match self {
            RunAction::CheckAudio => RunActionView::CheckAudio,
            RunAction::Spawn { python, arguments } => RunActionView::Spawn {
                python: python@,
                arguments: arguments_view(arguments@),
            },
            RunAction::ReadLine => RunActionView::ReadLine,
            RunAction::Wait => RunActionView::Wait,
            RunAction::ReadOutput => RunActionView::ReadOutput,
            RunAction::ParseOutput => RunActionView::ParseOutput,
        }
    }
}

/// What came of an action.
#[derive(Debug)]
pub enum RunEvent {
    /// The action failed.
    Failed,
    /// Whether the recording is there.
    Audio(bool),
    /// The sidecar has started; whether its outputs can be read.
    Spawned { stdout: bool, stderr: bool },
    Line(String),
    /// There is no further line to be read.
    EndOfLines,
    /// The sidecar has ended.
    Exited { success: bool, code: Option<i32>, errors: Vec<String> },
    OutputRead,
    Segments(Vec<DiarizationSegment>),
}

/// What an event says.
pub enum RunEventView {
    Failed,
    Audio(bool),
    Spawned { stdout: bool, stderr: bool },
    Line(Seq<char>),
    EndOfLines,
    Exited { success: bool, code: Option<int>, errors: Seq<Seq<char>> },
    OutputRead,
    Segments(Seq<DiarizationSegment>),
}

impl View for RunEvent {
    type V = RunEventView;

    open spec fn view(&self) -> RunEventView {
        match self {
            RunEvent::Failed => RunEventView::Failed,
            RunEvent::Audio(b) => RunEventView::Audio(*b),
            RunEvent::Spawned { stdout, stderr } => RunEventView::Spawned {
                stdout: *stdout,
                stderr: *stderr,
            },
            RunEvent::Line(t) => RunEventView::Line(t@),
            RunEvent::EndOfLines => RunEventView::EndOfLines,
            RunEvent::Exited { success, code, errors } => RunEventView::Exited {
                success: *success,
                code: code_view(*code),
                errors: text::texts(errors@),
            },
            RunEvent::OutputRead => RunEventView::OutputRead,
            RunEvent::Segments(s) => RunEventView::Segments(s@),
        }
    }
}

/// Where a run stands.
#[derive(Debug)]
pub enum RunProgress {
    /// The run goes on, and may have something to report.
    Continue { run: Run, report: Option<String> },
    Finished(Result<Vec<DiarizationSegment>, String>),
}

/// Where a run stands.
pub enum RunProgressView {
    Continue { run: RunView, report: Option<Seq<char>> },
    Finished(Result<Seq<DiarizationSegment>, Seq<char>>),
}

impl View for RunProgress {
    type V = RunProgressView;

    open spec fn view(&self) -> RunProgressView {
        match self {
            RunProgress::Continue { run, report } => RunProgressView::Continue {
                run: run@,
                report: metadata::text_view(*report),
            },
            RunProgress::Finished(Ok(s)) => RunProgressView::Finished(Ok(s@)),
            RunProgress::Finished(Err(e)) => RunProgressView::Finished(Err(e@)),
        }
    }
}

/// A run that ends with a message.
pub open spec fn run_failure(message: Seq<char>) -> RunProgressView {
    RunProgressView::Finished(Err(message))
}

impl RunView {
    /// What is to be done next.
    pub open spec fn action(self) -> RunActionView {
        match self.stage {
            RunStage::CheckAudio => RunActionView::CheckAudio,
            RunStage::Spawn => RunActionView::Spawn {
                python: sidecar::interpreter(self.python3_runs),
                arguments: command_line(self.hf_token),
            },
            RunStage::ReadLines => RunActionView::ReadLine,
            RunStage::Wait => RunActionView::Wait,
            RunStage::ReadOutput => RunActionView::ReadOutput,
            RunStage::ParseOutput => RunActionView::ParseOutput,
        }
    }

    /// Whether an event is one that the action can bring.
    pub open spec fn expects(self, event: RunEventView) -> bool {
        match (self.stage, event) {
            (RunStage::CheckAudio, RunEventView::Audio(_)) => true,
            (RunStage::Spawn, RunEventView::Spawned { .. }) => true,
            (RunStage::Spawn, RunEventView::Failed) => true,
            (RunStage::ReadLines, RunEventView::Line(_)) => true,
            (RunStage::ReadLines, RunEventView::EndOfLines) => true,
            (RunStage::Wait, RunEventView::Exited { .. }) => true,
            (RunStage::Wait, RunEventView::Failed) => true,
            (RunStage::ReadOutput, RunEventView::OutputRead) => true,
            (RunStage::ReadOutput, RunEventView::Failed) => true,
            (RunStage::ParseOutput, RunEventView::Segments(_)) => true,
            (RunStage::ParseOutput, RunEventView::Failed) => true,
            _ => false,
        }
    }

    /// The run at another stage, with nothing to report.
    pub open spec fn at(self, stage: RunStage) -> RunProgressView {
        RunProgressView::Continue { run: RunView { stage, ..self }, report: None }
    }

    /// Where the run stands after an event that it expects.
    pub open spec fn next(self, event: RunEventView) -> RunProgressView {
        match event {
            RunEventView::Audio(there) => if there {
                self.at(RunStage::Spawn)
            } else {
                run_failure("Audio file not found: "@ + self.audio)
            },
            RunEventView::Spawned { stdout, stderr } => if !stdout {
                run_failure("Failed to capture stdout"@)
            } else if !stderr {
                run_failure("Failed to capture stderr"@)
            } else {
                self.at(RunStage::ReadLines)
            },
            RunEventView::Line(line) => RunProgressView::Continue {
                run: self,
                report: reported(line),
            },
            RunEventView::EndOfLines => self.at(RunStage::Wait),
            RunEventView::Exited { success, code, errors } => if success {
                self.at(RunStage::ReadOutput)
            } else {
                run_failure("WhisperX diarization failed: "@ + failure_detail(code, errors))
            },
            RunEventView::OutputRead => self.at(RunStage::ParseOutput),
            RunEventView::Segments(segments) => RunProgressView::Finished(Ok(segments)),
            RunEventView::Failed => run_failure(
                match self.stage {
                    RunStage::Spawn => "Failed to spawn Python sidecar: "@ + sidecar::interpreter(
                        self.python3_runs,
                    ) + " "@ + self.script,
                    RunStage::Wait => "Failed to wait for sidecar process"@,
                    RunStage::ReadOutput => "Failed to read diarization output: "@ + self.output,
                    _ => "Failed to parse diarization output JSON"@,
                },
            ),
        }
    }
}

/// Run WhisperX diarization on an audio file.
///
/// The script is what `resolve_sidecar_script` gave; the paths are given as
/// they are shown. Where `python3` cannot be run, `python` is.
pub fn run_whisperx(
    audio: String,
    output: String,
    hf_token: Option<String>,
    script: Result<String, String>,
    python3_runs: bool,
) -> (r: RunProgress)
    ensures
        r@ == match script {
            Ok(s) => (RunView {
                audio: audio@,
                output: output@,
                script: s@,
                hf_token: metadata::text_view(hf_token),
                python3_runs,
                stage: RunStage::CheckAudio,
            }).at(RunStage::CheckAudio),
            Err(e) => run_failure(e@),
        },
{
    match script {
        Ok(script) => RunProgress::Continue {
            run: Run {
                audio,
                output,
                script,
                hf_token,
                python3_runs,
                stage: RunStage::CheckAudio,
            },
            report: None,
        },
        Err(e) => RunProgress::Finished(Err(e)),
    }
}

impl Run {
    /// What is to be done next.
    pub fn action(&self) -> (r: RunAction)
        ensures
            r@ == self@.action(),
    {
        match self.stage {
            RunStage::CheckAudio => RunAction::CheckAudio,
            RunStage::Spawn => RunAction::Spawn {
                python: sidecar::resolve_python(self.python3_runs),
                arguments: sidecar_arguments(&self.hf_token),
            },
            RunStage::ReadLines => RunAction::ReadLine,
            RunStage::Wait => RunAction::Wait,
            RunStage::ReadOutput => RunAction::ReadOutput,
            RunStage::ParseOutput => RunAction::ParseOutput,
        }
    }

    /// Whether an event is one that the action can bring.
    pub fn accepts(&self, event: &RunEvent) -> (r: bool)
        ensures
            r == self@.expects(event@),
    {
        match (self.stage, event) {
            (RunStage::CheckAudio, RunEvent::Audio(_)) => true,
            (RunStage::Spawn, RunEvent::Spawned { .. }) => true,
            (RunStage::Spawn, RunEvent::Failed) => true,
            (RunStage::ReadLines, RunEvent::Line(_)) => true,
            (RunStage::ReadLines, RunEvent::EndOfLines) => true,
            (RunStage::Wait, RunEvent::Exited { .. }) => true,
            (RunStage::Wait, RunEvent::Failed) => true,
            (RunStage::ReadOutput, RunEvent::OutputRead) => true,
            (RunStage::ReadOutput, RunEvent::Failed) => true,
            (RunStage::ParseOutput, RunEvent::Segments(_)) => true,
            (RunStage::ParseOutput, RunEvent::Failed) => true,
            _ => false,
        }
    }

    /// The run at another stage, with nothing to report.
    fn go_on(self, stage: RunStage) -> (r: RunProgress)
        ensures
            r@ == self@.at(stage),
    {
        RunProgress::Continue { run: Run { stage, ..self }, report: None }
    }

    /// The message when the action of this stage fails.
    fn failure_message(&self) -> (r: String)
        ensures
            run_failure(r@) == self@.next(RunEventView::Failed),
    {
        match self.stage {
            RunStage::Spawn => {
                let mut m = text::followed_by(
                    "Failed to spawn Python sidecar: ",
                    sidecar::resolve_python(self.python3_runs),
                );
                m.append(" ");
                m.append(self.script.as_str());
                m
            },
            RunStage::Wait => "Failed to wait for sidecar process".to_owned(),
            RunStage::ReadOutput => text::followed_by(
                "Failed to read diarization output: ",
                self.output.as_str(),
            ),
            _ => "Failed to parse diarization output JSON".to_owned(),
        }
    }

    /// Where the run stands after an event.
    pub fn step(self, event: RunEvent) -> (r: RunProgress)
        requires
            self@.expects(event@),
        ensures
            r@ == self@.next(event@),
    {
        match event {
            RunEvent::Audio(there) => if there {
                self.go_on(RunStage::Spawn)
            } else {
                RunProgress::Finished(
                    Err(text::followed_by("Audio file not found: ", self.audio.as_str())),
                )
            },
            RunEvent::Spawned { stdout, stderr } => if !stdout {
                RunProgress::Finished(Err("Failed to capture stdout".to_owned()))
            } else if !stderr {
                RunProgress::Finished(Err("Failed to capture stderr".to_owned()))
            } else {
                self.go_on(RunStage::ReadLines)
            },
            RunEvent::Line(line) => {
                let report = progress_message(line.as_str());
                RunProgress::Continue { run: self, report }
            },
            RunEvent::EndOfLines => self.go_on(RunStage::Wait),
            RunEvent::Exited { success, code, errors } => if success {
                self.go_on(RunStage::ReadOutput)
            } else {
                let detail = error_detail(code, &errors);
                RunProgress::Finished(
                    Err(text::followed_by("WhisperX diarization failed: ", detail.as_str())),
                )
            },
            RunEvent::OutputRead => self.go_on(RunStage::ParseOutput),
            RunEvent::Segments(segments) => RunProgress::Finished(Ok(segments)),
            RunEvent::Failed => RunProgress::Finished(Err(self.failure_message())),
        }
    }
}

/// Where a run stands after the given events.
pub open spec fn after(start: RunProgressView, events: Seq<RunEventView>) -> RunProgressView
    decreases events.len(),
{
    match start {
        RunProgressView::Continue { run, .. } if events.len() > 0 => after(
            run.next(events.first()),
            events.drop_first(),
        ),
        _ => start,
    }
}

/// Whether every event is one that the run expects, and none comes after its
/// end.
pub open spec fn expected(start: RunProgressView, events: Seq<RunEventView>) -> bool
    decreases events.len(),
{
    events.len() > 0 ==> match start {
        RunProgressView::Continue { run, .. } => run.expects(events.first()) && expected(
            run.next(events.first()),
            events.drop_first(),
        ),
        RunProgressView::Finished(_) => false,
    }
}

/// What a run reports in the course of the given events.
pub open spec fn reports(start: RunProgressView, events: Seq<RunEventView>) -> Seq<Seq<char>>
    decreases events.len(),
{
    match start {
        RunProgressView::Continue { run, report } => {
            let later = if events.len() > 0 {
                reports(run.next(events.first()), events.drop_first())
            } else {
                Seq::empty()
            };
            match report {
                Some(message) => seq![message] + later,
                None => later,
            }
        },
        RunProgressView::Finished(_) => Seq::empty(),
    }
}

/// The messages among the lines that the sidecar prints.
pub open spec fn messages(lines: Seq<Seq<char>>) -> Seq<Seq<char>>
    decreases lines.len(),
{
    if lines.len() == 0 {
        Seq::empty()
    } else {
        match reported(lines.first()) {
            Some(message) => seq![message] + messages(lines.drop_first()),
            None => messages(lines.drop_first()),
        }
    }
}

/// The events of lines that come in.
pub open spec fn line_events(lines: Seq<Seq<char>>) -> Seq<RunEventView> {
    lines.map_values(|line: Seq<char>| RunEventView::Line(line))
}

/// While lines come in, the run stays where it is, and reports every message
/// among them once, in their order.
pub proof fn messages_are_reported_in_order(run: RunView, lines: Seq<Seq<char>>)
    requires
        run.stage == RunStage::ReadLines,
    ensures
        expected(run.at(run.stage), line_events(lines)),
        reports(run.at(run.stage), line_events(lines)) == messages(lines),
        after(run.at(run.stage), line_events(lines)) matches RunProgressView::Continue {
            run: later,
            ..
        } && later == run,
{
    lemma_messages(run, lines, None);
}

proof fn lemma_messages(run: RunView, lines: Seq<Seq<char>>, report: Option<Seq<char>>)
    requires
        run.stage == RunStage::ReadLines,
    ensures
        ({
            let start = RunProgressView::Continue { run, report };
            let earlier = match report {
                Some(message) => seq![message],
                None => Seq::empty(),
            };
            &&& expected(start, line_events(lines))
            &&& reports(start, line_events(lines)) == earlier + messages(lines)
            &&& after(start, line_events(lines)) matches RunProgressView::Continue {
                run: later,
                ..
            } && later == run
        }),
    decreases lines.len(),
{
    let events = line_events(lines);
    if lines.len() > 0 {
        assert(events.first() == RunEventView::Line(lines.first()));
        assert(events.drop_first() =~= line_events(lines.drop_first()));
        lemma_messages(run, lines.drop_first(), reported(lines.first()));
    }
}

/// A message after `PROGRESS:` is reported without the white space around it.
pub proof fn a_message_is_what_follows_the_prefix(message: Seq<char>)
    ensures
        reported("PROGRESS:"@ + message) == Some(text::trimmed(message)),
{
    reveal_strlit("PROGRESS:");
    let prefix = "PROGRESS:"@;
    let line = prefix + message;
    assert(line.first() == 'P');
    assert(text::trim_start(line) == line);
    text::trimming_the_end_stops(prefix, message);
    let t = text::trimmed(line);
    assert(t == prefix + text::trim_end(message));
    assert(prefix.is_prefix_of(t)) by {
        assert(t.take(prefix.len() as int) =~= prefix);
    }
    assert(t.skip(prefix.len() as int) =~= text::trim_end(message));
    text::trimming_the_end_first_changes_nothing(message);
}

/// How many stages are still before a run.
pub open spec fn stages_left(stage: RunStage) -> nat {
    match stage {
        RunStage::CheckAudio => 6,
        RunStage::Spawn => 5,
        RunStage::ReadLines => 4,
        RunStage::Wait => 3,
        RunStage::ReadOutput => 2,
        RunStage::ParseOutput => 1,
    }
}

/// Every event but a line brings a run closer to its end, so that a run ends
/// once the sidecar has nothing more to print.
pub proof fn a_run_ends(run: RunView, event: RunEventView)
    requires
        run.expects(event),
        !(event is Line),
    ensures
        run.next(event) matches RunProgressView::Continue { run: later, .. } ==> stages_left(
            later.stage,
        ) < stages_left(run.stage),
{
}

/// Segments come out of a run only if the recording was there, the sidecar
/// ended well, and the segments are those that it wrote.
pub proof fn segments_come_from_a_sidecar_that_succeeded(
    run: RunView,
    events: Seq<RunEventView>,
    segments: Seq<DiarizationSegment>,
)
    requires
        run.stage == RunStage::CheckAudio,
        expected(run.at(run.stage), events),
        after(run.at(run.stage), events) == RunProgressView::Finished(Ok(segments)),
    ensures
        events.contains(RunEventView::Audio(true)),
        exists|i: int|
            0 <= i < events.len() && (#[trigger] events[i] matches RunEventView::Exited {
                success,
                ..
            } && success),
        events.len() > 0 && events.last() == RunEventView::Segments(segments),
{
    lemma_success(run, events, segments, None);
}

proof fn lemma_success(
    run: RunView,
    events: Seq<RunEventView>,
    segments: Seq<DiarizationSegment>,
    report: Option<Seq<char>>,
)
    requires
        expected((RunProgressView::Continue { run, report }), events),
        after((RunProgressView::Continue { run, report }), events) == RunProgressView::Finished(
            Ok(segments),
        ),
    ensures
        run.stage == RunStage::CheckAudio ==> events.contains(RunEventView::Audio(true)),
        stages_left(run.stage) >= 3 ==> exists|i: int|
            0 <= i < events.len() && (#[trigger] events[i] matches RunEventView::Exited {
                success,
                ..
            } && success),
        events.len() > 0 && events.last() == RunEventView::Segments(segments),
    decreases events.len(),
{
    reveal_with_fuel(expected, 2);
    reveal_with_fuel(after, 2);
    let event = events.first();
    let later = events.drop_first();
    assert(events[0] == event);
    match run.next(event) {
        RunProgressView::Continue { run: next, report: said } => {
            lemma_success(next, later, segments, said);
            assert(later.last() == events.last());
            if exists|i: int|
                0 <= i < later.len() && (#[trigger] later[i] matches RunEventView::Exited {
                    success,
                    ..
                } && success) {
                let i = choose|i: int|
                    0 <= i < later.len() && (#[trigger] later[i] matches RunEventView::Exited {
                        success,
                        ..
                    } && success);
                assert(events[i + 1] == later[i]);
            }
        },
        RunProgressView::Finished(_) => {
            assert(later.len() == 0);
            assert(events.last() == event);
        },
    }
}

/// The command line begins with the script and the two files after their flags;
/// a token follows after its flag, as it was given, exactly if it is not empty.
pub proof fn the_command_line_names_the_files_and_the_token(token: Seq<char>)
    ensures
        command_line(None).len() == 5,
        command_line(None)[0] == ArgumentView::Script,
        command_line(None)[1] == ArgumentView::Text("--audio"@),
        command_line(None)[2] == ArgumentView::Audio,
        command_line(None)[3] == ArgumentView::Text("--output"@),
        command_line(None)[4] == ArgumentView::Output,
        token.len() == 0 ==> command_line(Some(token)) == command_line(None),
        token.len() > 0 ==> command_line(Some(token)) == command_line(None).push(
            ArgumentView::Text("--hf-token"@),
        ).push(ArgumentView::Text(token)),
{
    if token.len() > 0 {
        assert(command_line(Some(token)) =~= command_line(None).push(
            ArgumentView::Text("--hf-token"@),
        ).push(ArgumentView::Text(token)));
    }
}

/// A line reports something exactly if, apart from white space before it, it
/// begins with `PROGRESS:`.
pub proof fn only_lines_with_the_prefix_report(line: Seq<char>)
    ensures
        reported(line) is Some <==> "PROGRESS:"@.is_prefix_of(text::trimmed(line)),
        reported(line) matches Some(message) ==> message == text::trimmed(
            text::trimmed(line).skip("PROGRESS:"@.len() as int),
        ),
{
}

/// The complaints are those of the lines one after the other: nothing of a
/// blank line, and of any other the line without the white space around it.
pub proof fn each_line_that_is_not_blank_is_a_complaint(
    a: Seq<Seq<char>>,
    b: Seq<Seq<char>>,
    line: Seq<char>,
)
    ensures
        complaints(a + b) == complaints(a) + complaints(b),
        text::blank(line) ==> complaints(seq![line]) == Seq::<Seq<char>>::empty(),
        !text::blank(line) ==> complaints(seq![line]) == seq![text::trimmed(line)],
    decreases b.len(),
{
    reveal_with_fuel(complaints, 2);
    assert(seq![line].drop_last() =~= Seq::<Seq<char>>::empty());
    assert(Seq::<Seq<char>>::empty().push(text::trimmed(line)) =~= seq![text::trimmed(line)]);
    if b.len() == 0 {
        assert(a + b =~= a);
        assert(complaints(a) + complaints(b) =~= complaints(a));
    } else {
        each_line_that_is_not_blank_is_a_complaint(a, b.drop_last(), line);
        assert((a + b).drop_last() =~= a + b.drop_last());
        assert((a + b).last() == b.last());
        assert(complaints(a + b) =~= complaints(a) + complaints(b));
    }
}

/// A failure is put down to the complaints, if there are any, and else to the
/// exit code, with -1 for none.
pub proof fn a_failure_is_put_down_to_the_complaints(
    code: int,
    lines: Seq<Seq<char>>,
)
    ensures
        complaints(lines).len() > 0 ==> failure_detail(Some(code), lines) == text::joined(
            complaints(lines),
            "; "@,
        ) && failure_detail(None, lines) == text::joined(complaints(lines), "; "@),
        complaints(lines).len() == 0 ==> failure_detail(Some(code), lines) == "exit code "@
            + text::decimal_number(code) && failure_detail(None, lines) == "exit code "@
            + text::decimal_number(-1),
{
}

/// Every run that fails says what failed, and on what.
pub proof fn failures_say_what_failed(
    run: RunView,
    code: Option<int>,
    errors: Seq<Seq<char>>,
    stderr: bool,
)
    ensures
        run.next(RunEventView::Audio(false)) == RunProgressView::Finished(
            Err("Audio file not found: "@ + run.audio),
        ),
        run.stage == RunStage::Spawn ==> run.next(RunEventView::Failed)
            == RunProgressView::Finished(
            Err(
                "Failed to spawn Python sidecar: "@ + (if run.python3_runs {
                    "python3"@
                } else {
                    "python"@
                }) + " "@ + run.script,
            ),
        ),
        run.next((RunEventView::Spawned { stdout: false, stderr })) == RunProgressView::Finished(
            Err("Failed to capture stdout"@),
        ),
        run.next((RunEventView::Spawned { stdout: true, stderr: false }))
            == RunProgressView::Finished(Err("Failed to capture stderr"@)),
        run.stage == RunStage::Wait ==> run.next(RunEventView::Failed) == RunProgressView::Finished(
            Err("Failed to wait for sidecar process"@),
        ),
        run.next((RunEventView::Exited { success: false, code, errors }))
            == RunProgressView::Finished(
            Err("WhisperX diarization failed: "@ + failure_detail(code, errors)),
        ),
        run.stage == RunStage::ReadOutput ==> run.next(RunEventView::Failed)
            == RunProgressView::Finished(
            Err("Failed to read diarization output: "@ + run.output),
        ),
        run.stage == RunStage::ParseOutput ==> run.next(RunEventView::Failed)
            == RunProgressView::Finished(Err("Failed to parse diarization output JSON"@)),
{
}

/// Where the recording is there, the sidecar starts, ends well, and its output
/// can be read, the run gives the segments that it wrote, all of them, whatever
/// it printed on the way.
pub proof fn a_run_gives_all_that_the_sidecar_wrote(
    run: RunView,
    lines: Seq<Seq<char>>,
    code: Option<int>,
    errors: Seq<Seq<char>>,
    segments: Seq<DiarizationSegment>,
)
    requires
        run.stage == RunStage::CheckAudio,
    ensures
        ({
            let events = seq![
                RunEventView::Audio(true),
                RunEventView::Spawned { stdout: true, stderr: true },
            ] + (line_events(lines) + seq![
                RunEventView::EndOfLines,
                RunEventView::Exited { success: true, code, errors },
                RunEventView::OutputRead,
                RunEventView::Segments(segments),
            ]);
            &&& expected(run.at(run.stage), events)
            &&& after(run.at(run.stage), events) == RunProgressView::Finished(Ok(segments))
        }),
{
    let ending = seq![
        RunEventView::EndOfLines,
        RunEventView::Exited { success: true, code, errors },
        RunEventView::OutputRead,
        RunEventView::Segments(segments),
    ];
    let rest = line_events(lines) + ending;
    let events = seq![
        RunEventView::Audio(true),
        RunEventView::Spawned { stdout: true, stderr: true },
    ] + rest;
    reveal_with_fuel(expected, 3);
    reveal_with_fuel(after, 3);
    let reading = RunView { stage: RunStage::ReadLines, ..run };
    assert(events.drop_first().drop_first() =~= rest);
    assert(events.drop_first().first() == RunEventView::Spawned { stdout: true, stderr: true });
    lemma_lines_then(reading, None, lines, code, errors, segments);
}

proof fn lemma_lines_then(
    run: RunView,
    report: Option<Seq<char>>,
    lines: Seq<Seq<char>>,
    code: Option<int>,
    errors: Seq<Seq<char>>,
    segments: Seq<DiarizationSegment>,
)
    requires
        run.stage == RunStage::ReadLines,
    ensures
        ({
            let start = RunProgressView::Continue { run, report };
            let events = line_events(lines) + seq![
                RunEventView::EndOfLines,
                RunEventView::Exited { success: true, code, errors },
                RunEventView::OutputRead,
                RunEventView::Segments(segments),
            ];
            &&& expected(start, events)
            &&& after(start, events) == RunProgressView::Finished(Ok(segments))
        }),
    decreases lines.len(),
{
    let ending = seq![
        RunEventView::EndOfLines,
        RunEventView::Exited { success: true, code, errors },
        RunEventView::OutputRead,
        RunEventView::Segments(segments),
    ];
    let events = line_events(lines) + ending;
    if lines.len() == 0 {
        reveal_with_fuel(expected, 6);
        reveal_with_fuel(after, 6);
        assert(events =~= ending);
        let (e1, e2) = (ending.drop_first(), ending.drop_first().drop_first());
        let (e3, e4) = (e2.drop_first(), e2.drop_first().drop_first());
        assert(e1.first() == ending[1] && e2.first() == ending[2] && e3.first() == ending[3]);
        assert(e4.len() == 0);
    } else {
        lemma_lines_then(run, reported(lines.first()), lines.drop_first(), code, errors, segments);
        assert(events.first() == RunEventView::Line(lines.first()));
        assert(events.drop_first() =~= line_events(lines.drop_first()) + ending);
    }
}

/// Arguments, lines and segments are seen as they are, each in its place, and
/// none is left out.
pub proof fn what_comes_and_goes_is_seen_whole(
    arguments: Seq<Argument>,
    line: String,
    errors: Vec<String>,
    segments: Vec<DiarizationSegment>,
    text: String,
    success: bool,
    code: Option<i32>,
)
    ensures
        arguments_view(arguments).len() == arguments.len(),
        forall|i: int|
            0 <= i < arguments.len() ==> #[trigger] arguments_view(arguments)[i] == arguments[i]@,
        Argument::Text(text)@ == ArgumentView::Text(text@),
        RunEvent::Line(line)@ == RunEventView::Line(line@),
        RunEvent::Segments(segments)@ == RunEventView::Segments(segments@),
        RunProgress::Finished(Ok(segments))@ == RunProgressView::Finished(Ok(segments@)),
        RunProgress::Finished(Err(line))@ == RunProgressView::Finished(Err(line@)),
        (RunEvent::Exited { success, code, errors })@ matches RunEventView::Exited {
            success: ended_well,
            code: exit,
            errors: lines,
        } && ended_well == success && (code is Some ==> exit == Some(code->0 as int)) && (code is None
            ==> exit is None) && lines == text::texts(errors@),
{
}

/// What is done at each stage, and what can come of it.
pub proof fn each_stage_does_one_thing(run: RunView, event: RunEventView)
    ensures
        match run.stage {
            RunStage::CheckAudio => run.action() is CheckAudio,
            RunStage::Spawn => run.action() == (RunActionView::Spawn {
                python: if run.python3_runs {
                    "python3"@
                } else {
                    "python"@
                },
                arguments: command_line(run.hf_token),
            }),
            RunStage::ReadLines => run.action() is ReadLine,
            RunStage::Wait => run.action() is Wait,
            RunStage::ReadOutput => run.action() is ReadOutput,
            RunStage::ParseOutput => run.action() is ParseOutput,
        },
        run.expects(event) <==> match run.stage {
            RunStage::CheckAudio => event is Audio,
            RunStage::Spawn => event is Spawned || event is Failed,
            RunStage::ReadLines => event is Line || event is EndOfLines,
            RunStage::Wait => event is Exited || event is Failed,
            RunStage::ReadOutput => event is OutputRead || event is Failed,
            RunStage::ParseOutput => event is Segments || event is Failed,
        },
{
}

/// A run fails only if something failed, the recording is not there, an output
/// cannot be read, or the sidecar ended badly; and what it was started with
/// stays as it was until it ends.
pub proof fn a_run_fails_for_a_reason(run: RunView, event: RunEventView)
    requires
        run.expects(event),
    ensures
        (run.next(event) matches RunProgressView::Finished(r) && r is Err) <==> {
            ||| event is Failed
            ||| event == RunEventView::Audio(false)
            ||| event matches RunEventView::Spawned { stdout, stderr } && !(stdout && stderr)
            ||| event matches RunEventView::Exited { success, .. } && !success
        },
        run.next(event) matches RunProgressView::Continue { run: later, report } ==> later.audio
            == run.audio && later.output == run.output && later.script == run.script
            && later.hf_token == run.hf_token && later.python3_runs == run.python3_runs && (report
            is Some ==> event is Line),
{
}

} // verus!
