# LibreMeet speaker diarization

Finds out who speaks when in a recorded meeting, and keeps the answer with the
meeting.

- `src/` is the verified library. It matches diarization segments to transcript
  segments by the time that they share (`diarization/overlap.rs`, over the exact
  binary64 arithmetic of `seconds.rs`), names the speakers
  (`diarization/labels.rs`), looks for the recording and the sidecar script
  (`diarization/audio.rs`, `diarization/sidecar.rs`), takes a run of the sidecar
  and a whole diarization step by step (`diarization/run.rs`,
  `diarization/commands.rs`), merges and reads meeting metadata (`metadata.rs`,
  `json.rs`), and takes the operations on the table of meetings step by step
  (`repository/`).
- `app/` performs the steps: the SQLite database, the sidecar process, the file
  system and the environment. A desktop shell implements `Frontend` and calls
  the two commands in `app/commands.rs`.
- `tests/` runs the library.

What holds of every run is stated and proved in `repository/laws.rs`,
`diarization/laws.rs` and beside the definitions in the other modules.
