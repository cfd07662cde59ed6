//! Finding the recording in the folder of a meeting.

use crate::diarization::search;
use crate::text;
use vstd::prelude::*;

verus! {

/// The names that a recording mostly has, the likeliest first.
pub open spec fn candidate_names() -> Seq<Seq<char>> {
    seq![
        "audio.mp4"@,
        "audio.m4a"@,
        "audio.wav"@,
        "audio.mp3"@,
        "audio.flac"@,
        "audio.ogg"@,
        "recording.mp4"@,
        "audio.mkv"@,
        "audio.webm"@,
        "audio.wma"@,
    ]
}

/// The names that a recording mostly has, the likeliest first.
pub fn audio_candidates() -> (r: Vec<&'static str>)
    ensures
        r@.len() == candidate_names().len(),
        forall|i: int| 0 <= i < r@.len() ==> (#[trigger] r@[i])@ == candidate_names()[i],
{
    vec![
        "audio.mp4",
        "audio.m4a",
        "audio.wav",
        "audio.mp3",
        "audio.flac",
        "audio.ogg",
        "recording.mp4",
        "audio.mkv",
        "audio.webm",
        "audio.wma",
    ]
}

/// Whether files with this extension, in lower case, are taken for audio.
pub open spec fn audio_extension(lowered: Seq<char>) -> bool {
    ||| lowered == "mp4"@
    ||| lowered == "m4a"@
    ||| lowered == "wav"@
    ||| lowered == "mp3"@
    ||| lowered == "flac"@
    ||| lowered == "ogg"@
    ||| lowered == "webm"@
    ||| lowered == "wma"@
    ||| lowered == "mkv"@
}

/// Whether files with this extension, in lower case, are taken for audio.
pub fn is_audio_extension(lowered: &str) -> (r: bool)
    ensures
        r == audio_extension(lowered@),
{
    text::same_text(lowered, "mp4") || text::same_text(lowered, "m4a") || text::same_text(
        lowered,
        "wav",
    ) || text::same_text(lowered, "mp3") || text::same_text(lowered, "flac") || text::same_text(
        lowered,
        "ogg",
    ) || text::same_text(lowered, "webm") || text::same_text(lowered, "wma") || text::same_text(
        lowered,
        "mkv",
    )
}

/// Whether a file is taken for audio, by its extension in either case.
pub open spec fn audio_file(extension: Option<Seq<char>>) -> bool {
    match extension {
        Some(e) => audio_extension(text::lowered(e)),
        None => false,
    }
}

/// What the extensions of the files in a listing say.
pub open spec fn extensions(listing: Seq<Option<String>>) -> Seq<Option<Seq<char>>> {
    listing.map_values(
        |e: Option<String>|
            match e {
                Some(t) => Some(t@),
                None => None,
            },
    )
}

/// For each file of a listing, whether it is taken for audio.
pub open spec fn audio_files(listing: Seq<Option<Seq<char>>>) -> Seq<bool> {
    listing.map_values(|e: Option<Seq<char>>| audio_file(e))
}

/// For each file of a listing, given by its extension, whether it is taken for
/// audio.
fn flag_audio_files(listing: &Vec<Option<String>>) -> (r: Vec<bool>)
    ensures
        r@ == audio_files(extensions(listing@)),
{
    let mut r: Vec<bool> = Vec::new();
    let mut i: usize = 0;
    while i < listing.len()
        invariant
            i <= listing@.len(),
            r@ == audio_files(extensions(listing@)).take(i as int),
        decreases listing.len() - i,
    {
        let flag: bool = match &listing[i] {
            Some(e) => {
                let lowered = text::to_lowercase(e.as_str());
                is_audio_extension(lowered.as_str())
            },
            None => false,
        };
        r.push(flag);
        i = i + 1;
    }
    r
}

/// The file that is taken for the recording.
#[derive(Debug)]
pub enum AudioFile {
    /// The file with this name.
    Named(String),
    /// The file in this place of the listing.
    Listed(usize),
}

/// The file that is taken for the recording.
pub enum AudioFileView {
    Named(Seq<char>),
    Listed(int),
}

impl View for AudioFile {
    type V = AudioFileView;

    open spec fn view(&self) -> AudioFileView {
        match self {
            AudioFile::Named(n) => AudioFileView::Named(n@),
            AudioFile::Listed(i) => AudioFileView::Listed(*i as int),
        }
    }
}

impl Clone for AudioFile {
    fn clone(&self) -> (r: AudioFile)
        ensures
            r@ == self@,
    {
        match self {
            AudioFile::Named(n) => AudioFile::Named(n.clone()),
            AudioFile::Listed(i) => AudioFile::Listed(*i),
        }
    }
}

/// The recording in a folder. `found` says which of the usual names are there,
/// and `listing` has the extensions of the files in the folder.
pub open spec fn recording(
    folder: Seq<char>,
    folder_exists: bool,
    found: Seq<bool>,
    listing: Seq<Option<Seq<char>>>,
) -> Result<AudioFileView, Seq<char>> {
    if !folder_exists {
        Err("Folder does not exist: "@ + folder)
    } else {
        match search::first_set(found) {
            Some(i) => Ok(AudioFileView::Named(candidate_names()[i])),
            None => match search::first_set(audio_files(listing)) {
                Some(i) => Ok(AudioFileView::Listed(i)),
                None => Err("No audio file found in: "@ + folder),
            },
        }
    }
}

/// What the outcome of the search says.
pub open spec fn search_view(r: Result<AudioFile, String>) -> Result<AudioFileView, Seq<char>> {
    match r {
        Ok(f) => Ok(f@),
        Err(e) => Err(e@),
    }
}

/// Find an audio file in the given folder.
///
/// A file with one of the usual names is preferred to any other file with the
/// extension of an audio file.
pub fn find_audio_in_folder(
    folder: &str,
    folder_exists: bool,
    found: &Vec<bool>,
    listing: &Vec<Option<String>>,
) -> (r: Result<AudioFile, String>)
    requires
        found@.len() == candidate_names().len(),
    ensures
        search_view(r) == recording(folder@, folder_exists, found@, extensions(listing@)),
{
    if !folder_exists {
        return Err(text::followed_by("Folder does not exist: ", folder));
    }
    match search::first(found) {
        Some(i) => {
            let names = audio_candidates();
            return Ok(AudioFile::Named(names[i].to_owned()));
        },
        None => {},
    }
    let flags = flag_audio_files(listing);
    match search::first(&flags) {
        Some(i) => Ok(AudioFile::Listed(i)),
        None => Err(text::followed_by("No audio file found in: ", folder)),
    }
}

/// Where a file with a usual name is there, the other files do not matter.
pub proof fn a_usual_name_is_preferred(
    folder: Seq<char>,
    found: Seq<bool>,
    a: Seq<Option<Seq<char>>>,
    b: Seq<Option<Seq<char>>>,
)
    requires
        !search::none_set(found),
    ensures
        recording(folder, true, found, a) == recording(folder, true, found, b),
        recording(folder, true, found, a) matches Ok(AudioFileView::Named(_)),
{
}

/// A folder that is there is searched in vain exactly if none of the usual
/// names is in it and no file is taken for audio.
pub proof fn nothing_is_found_where_nothing_is(
    folder: Seq<char>,
    found: Seq<bool>,
    listing: Seq<Option<Seq<char>>>,
)
    ensures
        recording(folder, true, found, listing) is Err <==> search::none_set(found)
            && forall|i: int| 0 <= i < listing.len() ==> !audio_file(#[trigger] listing[i]),
{
    let flags = audio_files(listing);
    if search::none_set(flags) {
        assert forall|i: int| 0 <= i < listing.len() implies !audio_file(#[trigger] listing[i]) by {
            assert(!flags[i]);
        }
    } else {
        let i = choose|i: int| 0 <= i < flags.len() && #[trigger] flags[i];
        assert(audio_file(listing[i]));
    }
}

/// Whether letters are capitals does not matter to which files are taken for
/// audio.
pub proof fn case_is_ignored(a: Seq<char>, b: Seq<char>)
    requires
        text::ascii(a),
        text::ascii(b),
        text::ascii_lowercase(a) == text::ascii_lowercase(b),
    ensures
        audio_file(Some(a)) == audio_file(Some(b)),
{
}

/// A file that is found by its extension has the extension of an audio file.
pub proof fn a_listed_recording_is_audio(
    folder: Seq<char>,
    found: Seq<bool>,
    listing: Seq<Option<Seq<char>>>,
    i: int,
)
    requires
        recording(folder, true, found, listing) == Ok::<AudioFileView, Seq<char>>(
            AudioFileView::Listed(i),
        ),
    ensures
        0 <= i < listing.len(),
        audio_file(listing[i]),
        forall|j: int| 0 <= j < i ==> !audio_file(#[trigger] listing[j]),
{
    let flags = audio_files(listing);
    search::the_first_that_is_there_is_chosen(flags, i);
    assert forall|j: int| 0 <= j < i implies !audio_file(#[trigger] listing[j]) by {
        assert(!flags[j]);
    }
}

/// The usual names, the likeliest first.
pub proof fn these_are_the_usual_names()
    ensures
        candidate_names().len() == 10,
        candidate_names()[0] == "audio.mp4"@,
        candidate_names()[1] == "audio.m4a"@,
        candidate_names()[2] == "audio.wav"@,
        candidate_names()[3] == "audio.mp3"@,
        candidate_names()[4] == "audio.flac"@,
        candidate_names()[5] == "audio.ogg"@,
        candidate_names()[6] == "recording.mp4"@,
        candidate_names()[7] == "audio.mkv"@,
        candidate_names()[8] == "audio.webm"@,
        candidate_names()[9] == "audio.wma"@,
{
}

/// A file is taken for audio exactly if its extension, in lower case, is one of
/// these.
pub proof fn these_extensions_are_taken_for_audio(extension: Seq<char>)
    ensures
        audio_file(Some(extension)) <==> seq![
            "mp4"@,
            "m4a"@,
            "wav"@,
            "mp3"@,
            "flac"@,
            "ogg"@,
            "webm"@,
            "wma"@,
            "mkv"@,
        ].contains(text::lowered(extension)),
        !audio_file(None),
{
    let all = seq![
        "mp4"@,
        "m4a"@,
        "wav"@,
        "mp3"@,
        "flac"@,
        "ogg"@,
        "webm"@,
        "wma"@,
        "mkv"@,
    ];
    let l = text::lowered(extension);
    assert(all[0] == "mp4"@ && all[1] == "m4a"@ && all[2] == "wav"@ && all[3] == "mp3"@ && all[4]
        == "flac"@ && all[5] == "ogg"@ && all[6] == "webm"@ && all[7] == "wma"@ && all[8]
        == "mkv"@);
    if all.contains(l) {
        let i = choose|i: int| 0 <= i < all.len() && all[i] == l;
        assert(audio_extension(all[i]));
    }
}

/// Of the usual names, the first that is there is taken, whatever comes after
/// it.
pub proof fn the_likeliest_name_is_taken(
    folder: Seq<char>,
    found: Seq<bool>,
    listing: Seq<Option<Seq<char>>>,
    i: int,
)
    requires
        0 <= i < found.len(),
        found[i],
        forall|j: int| 0 <= j < i ==> !#[trigger] found[j],
    ensures
        recording(folder, true, found, listing) == Ok::<AudioFileView, Seq<char>>(
            AudioFileView::Named(candidate_names()[i]),
        ),
{
    search::the_first_that_is_there_is_chosen(found, i);
}

/// Where none of the usual names is there, the first file of the listing that
/// is taken for audio is taken, whatever comes after it.
pub proof fn the_first_audio_file_is_taken(
    folder: Seq<char>,
    found: Seq<bool>,
    listing: Seq<Option<Seq<char>>>,
    i: int,
)
    requires
        forall|j: int| 0 <= j < found.len() ==> !#[trigger] found[j],
        0 <= i < listing.len(),
        audio_file(listing[i]),
        forall|j: int| 0 <= j < i ==> !audio_file(#[trigger] listing[j]),
    ensures
        recording(folder, true, found, listing) == Ok::<AudioFileView, Seq<char>>(
            AudioFileView::Listed(i),
        ),
{
    let flags = audio_files(listing);
    assert forall|j: int| 0 <= j < i implies !#[trigger] flags[j] by {
        assert(!audio_file(listing[j]));
    }
    search::the_first_that_is_there_is_chosen(flags, i);
}

/// A folder that is not there, or that holds no recording, is named in the
/// message.
pub proof fn a_search_in_vain_names_the_folder(
    folder: Seq<char>,
    found: Seq<bool>,
    listing: Seq<Option<Seq<char>>>,
)
    ensures
        recording(folder, false, found, listing) == Err::<AudioFileView, Seq<char>>(
            "Folder does not exist: "@ + folder,
        ),
        recording(folder, true, found, listing) matches Err(e) ==> e == "No audio file found in: "@
            + folder,
{
}

/// Extensions are seen as they are, each in its place, and none is left out.
pub proof fn all_extensions_are_seen(listing: Seq<Option<String>>)
    ensures
        extensions(listing).len() == listing.len(),
        forall|i: int|
            0 <= i < listing.len() ==> {
                let e = #[trigger] extensions(listing)[i];
                &&& e is Some <==> listing[i] is Some
                &&& e is Some ==> e->0 == listing[i]->0@
            },
{
}

} // verus!
