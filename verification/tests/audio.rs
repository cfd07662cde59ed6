use libremeet::diarization::audio::{
    audio_candidates, find_audio_in_folder, is_audio_extension, AudioFile,
};

fn found(names: &[&str]) -> Vec<bool> {
    audio_candidates().iter().map(|c| names.contains(c)).collect()
}

fn listing(extensions: &[Option<&str>]) -> Vec<Option<String>> {
    extensions.iter().map(|e| e.map(|e| e.to_string())).collect()
}

fn describe(r: Result<AudioFile, String>) -> String {
    match r {
        Ok(AudioFile::Named(n)) => format!("named {}", n),
        Ok(AudioFile::Listed(i)) => format!("listed {}", i),
        Err(e) => format!("error {}", e),
    }
}

#[test]
fn the_usual_names() {
    assert_eq!(
        audio_candidates(),
        vec![
            "audio.mp4",
            "audio.m4a",
            "audio.wav",
            "audio.mp3",
            "audio.flac",
            "audio.ogg",
            "recording.mp4",
            "audio.mkv",
            "audio.webm",
            "audio.wma",
        ]
    );
}

#[test]
fn a_folder_that_is_not_there() {
    let r = find_audio_in_folder("/m/1", false, &found(&["audio.mp4"]), &listing(&[Some("mp4")]));
    assert_eq!(describe(r), "error Folder does not exist: /m/1");
}

#[test]
fn the_likeliest_name_wins() {
    let r = find_audio_in_folder("/m", true, &found(&["audio.wma", "audio.wav"]), &vec![]);
    assert_eq!(describe(r), "named audio.wav");
    let r = find_audio_in_folder("/m", true, &found(&["recording.mp4"]), &listing(&[Some("mp3")]));
    assert_eq!(describe(r), "named recording.mp4");
}

#[test]
fn any_audio_file_will_do() {
    let files = listing(&[Some("txt"), None, Some("MP3"), Some("wav")]);
    assert_eq!(describe(find_audio_in_folder("/m", true, &found(&[]), &files)), "listed 2");
    let files = listing(&[Some("M4A")]);
    assert_eq!(describe(find_audio_in_folder("/m", true, &found(&[]), &files)), "listed 0");
}

#[test]
fn a_folder_without_audio() {
    for files in [vec![], vec![None], vec![Some("txt"), Some("mp"), Some(""), Some("aac")]] {
        let r = find_audio_in_folder("/m/x", true, &found(&[]), &listing(&files));
        assert_eq!(describe(r), "error No audio file found in: /m/x");
    }
}

#[test]
fn extensions_of_audio_files() {
    for e in ["mp4", "m4a", "wav", "mp3", "flac", "ogg", "webm", "wma", "mkv"] {
        assert!(is_audio_extension(e));
        // Upper case counts too, once it is lowered.
        let r = find_audio_in_folder("/m", true, &found(&[]), &listing(&[Some(&e.to_uppercase())]));
        assert_eq!(describe(r), "listed 0");
    }
    for e in ["", "MP4", "mp", "mp44", "aac", "opus", ".mp4"] {
        assert!(!is_audio_extension(e));
    }
}

#[test]
fn capitals_and_other_letters() {
    for e in ["Mp3", "fLaC", "WEBM"] {
        let r = find_audio_in_folder("/m", true, &found(&[]), &listing(&[Some(e)]));
        assert_eq!(describe(r), "listed 0");
    }
    // The Kelvin sign is a capital k.
    let r = find_audio_in_folder("/m", true, &found(&[]), &listing(&[Some("M\u{212a}V")]));
    assert_eq!(describe(r), "listed 0");
}
