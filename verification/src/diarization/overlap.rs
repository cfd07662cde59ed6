//! Matching diarization segments to transcript segments by the time that they
//! share.

use crate::models::{SegmentView, Transcript};
use crate::rounding;
use crate::seconds::{self, Seconds, TimeValue};
use vstd::arithmetic::power2;
use vstd::prelude::*;

verus! {

/// A single diarization segment.
#[derive(Debug)]
pub struct DiarizationSegment {
    pub speaker_id: String,
    pub start_sec: Seconds,
    pub end_sec: Seconds,
    pub text: String,
}

impl Clone for DiarizationSegment {
    fn clone(&self) -> (r: DiarizationSegment)
        ensures
            r@ == self@,
            r.text@ == self.text@,
    {
        DiarizationSegment {
            speaker_id: self.speaker_id.clone(),
            start_sec: self.start_sec,
            end_sec: self.end_sec,
            text: self.text.clone(),
        }
    }
}

/// What a diarization segment says of the speaker.
pub struct Speech {
    pub speaker: Seq<char>,
    pub start: TimeValue,
    pub end: TimeValue,
}

impl View for DiarizationSegment {
    type V = Speech;

    open spec fn view(&self) -> Speech {
        Speech { speaker: self.speaker_id@, start: self.start_sec@, end: self.end_sec@ }
    }
}

/// What diarization segments say of the speakers.
pub open spec fn speeches(segments: Seq<DiarizationSegment>) -> Seq<Speech> {
    segments.map_values(|s: DiarizationSegment| s@)
}

/// A stretch of the recording that a transcript segment covers.
pub struct Stretch {
    pub id: Seq<char>,
    pub start: TimeValue,
    pub end: TimeValue,
}

/// The stretch that an id, a start and an end say.
pub open spec fn stretch(range: (String, Seconds, Seconds)) -> Stretch {
    Stretch { id: range.0@, start: range.1@, end: range.2@ }
}

/// The time that a stretch and a speech share: from the later start to the
/// earlier end, and none where that is negative or no number.
pub open spec fn shared_time(t: Stretch, s: Speech) -> TimeValue {
    t.end.earlier(s.end).minus(t.start.later(s.start)).later(TimeValue::Finite(0))
}

/// Whether a stretch and a speech share any time.
pub open spec fn shares(t: Stretch, s: Speech) -> bool {
    TimeValue::Finite(0).before(shared_time(t, s))
}

/// Whether speech `i` is the first of those that share most time with the
/// stretch.
pub open spec fn shares_most(t: Stretch, all: Seq<Speech>, i: int) -> bool {
    &&& 0 <= i < all.len()
    &&& shares(t, all[i])
    &&& forall|j: int|
        0 <= j < all.len() ==> !shared_time(t, all[i]).before(
            shared_time(t, #[trigger] all[j]),
        )
    &&& forall|j: int|
        0 <= j < i ==> shared_time(t, #[trigger] all[j]).before(shared_time(t, all[i]))
}

/// The speaker of a stretch: that of the first speech among those that share
/// most time with it, or `SPEAKER_UNKNOWN` where none shares any.
pub open spec fn speaker_of(t: Stretch, all: Seq<Speech>) -> Seq<char> {
    if exists|i: int| shares_most(t, all, i) {
        all[choose|i: int| shares_most(t, all, i)].speaker
    } else {
        "SPEAKER_UNKNOWN"@
    }
}

/// No more than one speech is the first to share most time with a stretch.
pub proof fn shares_most_is_unique(t: Stretch, all: Seq<Speech>, i: int, j: int)
    requires
        shares_most(t, all, i),
        shares_most(t, all, j),
    ensures
        i == j,
{
    assert(all[i] == all[i] && all[j] == all[j]);
}

/// The time that a stretch and a diarization segment share.
fn overlap(t_start: Seconds, t_end: Seconds, segment: &DiarizationSegment) -> (r: Seconds)
    ensures
        forall|t: Stretch|
            t.start == t_start@ && t.end == t_end@ ==> r@ == #[trigger] shared_time(t, segment@),
{
    let overlap_start = t_start.later(segment.start_sec);
    let overlap_end = t_end.earlier(segment.end_sec);
    overlap_end.minus(overlap_start).later(Seconds::zero())
}

/// The speaker of one stretch.
fn assign_speaker(
    diarization: &[DiarizationSegment],
    t_start: Seconds,
    t_end: Seconds,
    Ghost(t): Ghost<Stretch>,
) -> (r: String)
    requires
        t.start == t_start@,
        t.end == t_end@,
    ensures
        r@ == speaker_of(t, speeches(diarization@)),
{
    let ghost all = speeches(diarization@);
    let mut best_speaker = "SPEAKER_UNKNOWN".to_owned();
    let mut best_overlap = Seconds::zero();
    let ghost mut best: int = -1;
    let mut i: usize = 0;
    while i < diarization.len()
        invariant
            i <= diarization@.len(),
            all == speeches(diarization@),
            t.start == t_start@,
            t.end == t_end@,
            -1 <= best < i,
            !(best_overlap@ is Nan),
            best == -1 ==> best_overlap@ == TimeValue::Finite(0) && best_speaker@
                == "SPEAKER_UNKNOWN"@,
            best >= 0 ==> best_overlap@ == shared_time(t, all[best]) && best_speaker@
                == all[best].speaker && shares(t, all[best]),
            forall|j: int| 0 <= j < i ==> !best_overlap@.before(shared_time(t, #[trigger] all[j])),
            forall|j: int|
                0 <= j < best ==> shared_time(t, #[trigger] all[j]).before(best_overlap@),
        decreases diarization.len() - i,
    {
        let overlap = overlap(t_start, t_end, &diarization[i]);
        proof {
            assert(all[i as int] == diarization@[i as int]@);
            assert(overlap@ == shared_time(t, all[i as int]));
            lemma_shared_time_is_a_number(t, all[i as int]);
            assert forall|j: int| 0 <= j < i implies !(shared_time(t, #[trigger] all[j]) is Nan) by {
                lemma_shared_time_is_a_number(t, all[j]);
            }
        }
        if best_overlap.before(overlap) {
            proof {
                assert(TimeValue::Finite(0).before(overlap@)) by {
                    if best >= 0 {
                        lemma_shared_time_is_a_number(t, all[best]);
                    }
                }
                best = i as int;
            }
            best_overlap = overlap;
            best_speaker = diarization[i].speaker_id.clone();
        }
        i = i + 1;
    }
    proof {
        if best >= 0 {
            assert(shares_most(t, all, best));
            let k = choose|k: int| shares_most(t, all, k);
            shares_most_is_unique(t, all, best, k);
        } else {
            assert forall|k: int| !shares_most(t, all, k) by {
                if 0 <= k < all.len() {
                    assert(!best_overlap@.before(shared_time(t, all[k])));
                }
            }
        }
    }
    best_speaker
}

/// The time that is shared is zero or more, and always a number.
proof fn lemma_shared_time_is_a_number(t: Stretch, s: Speech)
    ensures
        shared_time(t, s) matches TimeValue::Finite(n) ==> n >= 0,
        shared_time(t, s) is Finite || shared_time(t, s) is Infinity,
{
}

/// Match diarization segments to transcript segments by temporal overlap.
///
/// For each transcript segment, find the diarization segment with the most
/// temporal overlap and assign its speaker.
pub fn assign_speakers_by_overlap(
    diarization: &[DiarizationSegment],
    transcript_ranges: &[(String, Seconds, Seconds)],
) -> (r: Vec<(String, String)>)
    ensures
        r@.len() == transcript_ranges@.len(),
        forall|k: int|
            0 <= k < r@.len() ==> (#[trigger] r@[k]).0@ == transcript_ranges@[k].0@ && r@[k].1@
                == speaker_of(stretch(transcript_ranges@[k]), speeches(diarization@)),
{
    let mut r: Vec<(String, String)> = Vec::new();
    let mut k: usize = 0;
    while k < transcript_ranges.len()
        invariant
            k <= transcript_ranges@.len(),
            r@.len() == k,
            forall|j: int|
                0 <= j < r@.len() ==> (#[trigger] r@[j]).0@ == transcript_ranges@[j].0@ && r@[j].1@
                    == speaker_of(stretch(transcript_ranges@[j]), speeches(diarization@)),
        decreases transcript_ranges.len() - k,
    {
        let speaker = assign_speaker(
            diarization,
            transcript_ranges[k].1,
            transcript_ranges[k].2,
            Ghost(stretch(transcript_ranges@[k as int])),
        );
        r.push((transcript_ranges[k].0.clone(), speaker));
        k = k + 1;
    }
    r
}

/// Two seconds.
pub open spec fn two_seconds() -> TimeValue {
    TimeValue::Finite(power2::pow2(1075) as int)
}

/// The stretch of the recording that a stored segment covers. Without a start
/// it begins with the recording; without an end it lasts as long as its
/// duration says, or two seconds.
pub open spec fn covered(t: SegmentView) -> Stretch {
    let start = match t.audio_start_time {
        Some(s) => s@,
        None => TimeValue::Finite(0),
    };
    let duration = match t.duration {
        Some(d) => d@,
        None => two_seconds(),
    };
    let end = match t.audio_end_time {
        Some(e) => e@,
        None => start.plus(duration),
    };
    Stretch { id: t.id, start, end }
}

fn default_duration() -> (r: Seconds)
    ensures
        r@ == two_seconds(),
{
    let r = Seconds::from_bits(0x4000_0000_0000_0000);
    proof {
        rounding::lemma_pow2_small();
        power2::lemma_pow2_adds(52, 1023);
        assert(seconds::exponent_field(0x4000_0000_0000_0000) == 1024);
        assert(seconds::fraction_field(0x4000_0000_0000_0000) == 0);
    }
    r
}

/// The stretch of the recording that a stored segment covers.
pub fn transcript_range(t: &Transcript) -> (r: (String, Seconds, Seconds))
    ensures
        stretch(r) == covered(t@),
{
    let start: Seconds = match t.audio_start_time {
        Some(s) => s,
        None => Seconds::zero(),
    };
    let end: Seconds = match t.audio_end_time {
        Some(e) => e,
        None => {
            let duration: Seconds = match t.duration {
                Some(d) => d,
                None => default_duration(),
            };
            start.plus(duration)
        },
    };
    (t.id.clone(), start, end)
}

/// Where a speech shares any time with a stretch, one of the speeches is the
/// first to share most, so that a stretch is left without a speaker exactly if
/// no speech shares time with it.
pub proof fn some_speech_shares_most(t: Stretch, all: Seq<Speech>)
    ensures
        (exists|i: int| 0 <= i < all.len() && shares(t, #[trigger] all[i])) <==> (exists|i: int|
            shares_most(t, all, i)),
    decreases all.len(),
{
    if exists|i: int| 0 <= i < all.len() && shares(t, #[trigger] all[i]) {
        let fewer = all.drop_last();
        let n = all.len() - 1;
        some_speech_shares_most(t, fewer);
        assert forall|j: int| 0 <= j < all.len() implies !(shared_time(t, #[trigger] all[j]) is Nan) by {
            lemma_shared_time_is_a_number(t, all[j]);
        }
        if exists|i: int| 0 <= i < fewer.len() && shares(t, #[trigger] fewer[i]) {
            let b = choose|i: int| shares_most(t, fewer, i);
            assert(shares_most(t, fewer, b));
            assert(fewer[b] == all[b]);
            if shared_time(t, all[b]).before(shared_time(t, all[n])) {
                assert forall|j: int| 0 <= j < n implies shared_time(
                    t,
                    #[trigger] all[j],
                ).before(shared_time(t, all[n])) by {
                    assert(fewer[j] == all[j]);
                }
                assert(shares_most(t, all, n));
            } else {
                assert forall|j: int| 0 <= j < all.len() implies !shared_time(t, all[b]).before(
                    shared_time(t, #[trigger] all[j]),
                ) by {
                    if j < n {
                        assert(fewer[j] == all[j]);
                    }
                }
                assert forall|j: int| 0 <= j < b implies shared_time(
                    t,
                    #[trigger] all[j],
                ).before(shared_time(t, all[b])) by {
                    assert(fewer[j] == all[j]);
                }
                assert(shares_most(t, all, b));
            }
        } else {
            let i = choose|i: int| 0 <= i < all.len() && shares(t, #[trigger] all[i]);
            if i < n {
                assert(fewer[i] == all[i]);
            }
            assert forall|j: int| 0 <= j < n implies shared_time(t, #[trigger] all[j]).before(
                shared_time(t, all[n]),
            ) by {
                assert(fewer[j] == all[j]);
                assert(!shares(t, fewer[j]));
            }
            assert(shares_most(t, all, n));
        }
    } else {
        assert forall|i: int| !shares_most(t, all, i) by {
            if 0 <= i < all.len() {
                assert(!shares(t, all[i]));
            }
        }
    }
}

/// A speaker is one of those who speak, or `SPEAKER_UNKNOWN`.
pub proof fn a_speaker_speaks(t: Stretch, all: Seq<Speech>)
    ensures
        speaker_of(t, all) == "SPEAKER_UNKNOWN"@ || exists|i: int|
            0 <= i < all.len() && (#[trigger] all[i]).speaker == speaker_of(t, all),
{
    if exists|i: int| shares_most(t, all, i) {
        let i = choose|i: int| shares_most(t, all, i);
        assert(all[i].speaker == speaker_of(t, all));
    }
}

/// A stretch and a speech share time exactly if the later of their starts
/// comes before the earlier of their ends.
pub proof fn shared_time_is_between_the_inner_ends(t: Stretch, s: Speech)
    ensures
        shares(t, s) <==> t.start.later(s.start).before(t.end.earlier(s.end)),
{
    let a = t.start.later(s.start);
    let b = t.end.earlier(s.end);
    match (a, b) {
        (TimeValue::Finite(x), TimeValue::Finite(y)) => {
            assert(b.minus(a) == seconds::nearest(y + -x));
            let d = seconds::distance(y - x);
            if y > x {
                rounding::lemma_round_small(1);
                rounding::lemma_round_monotone(1, d);
            } else if y == x {
                rounding::lemma_round_small(0);
                power2::lemma_pow2_pos(2098);
            }
        },
        _ => {},
    }
}

/// No speech shares more time with a stretch than one that contains it.
pub proof fn a_containing_speech_shares_most(t: Stretch, s: Speech, other: Speech)
    requires
        t.start is Finite,
        t.end is Finite,
        !t.start.before(s.start),
        !s.end.before(t.end),
        !(s.start is Nan),
        !(s.end is Nan),
    ensures
        !shared_time(t, s).before(shared_time(t, other)),
{
    let (x, y) = (t.start->Finite_0, t.end->Finite_0);
    assert(t.start.later(s.start) == t.start);
    assert(t.end.earlier(s.end) == t.end);
    assert(shared_time(t, s) == seconds::nearest(y - x).later(TimeValue::Finite(0)));
    let a = t.start.later(other.start);
    let b = t.end.earlier(other.end);
    if a is Finite && b is Finite {
        let (v, w) = (a->Finite_0, b->Finite_0);
        assert(v >= x && w <= y);
        assert(shared_time(t, other) == seconds::nearest(w - v).later(TimeValue::Finite(0)));
        if w - v >= 0 {
            rounding::lemma_round_monotone(
                seconds::distance(w - v),
                seconds::distance(y - x),
            );
        }
    }
}

/// How long a transcript range and a diarization segment with finite ends have
/// in common, in units of the time format: from the greater of the starts to
/// the smaller of the ends. Where that is negative, they lie apart.
pub open spec fn common_length(range: (String, Seconds, Seconds), s: DiarizationSegment) -> int {
    length_in_common(range.1@->Finite_0, range.2@->Finite_0, s)
}

/// How long a stretch of time and a diarization segment with finite ends have
/// in common.
pub open spec fn length_in_common(from: int, to: int, s: DiarizationSegment) -> int {
    let (start, end) = (s.start_sec@->Finite_0, s.end_sec@->Finite_0);
    (if to < end {
        to
    } else {
        end
    }) - (if from > start {
        from
    } else {
        start
    })
}

/// Whether all ends are finite.
pub open spec fn all_finite(
    diarization: Seq<DiarizationSegment>,
    range: (String, Seconds, Seconds),
) -> bool {
    &&& range.1@ is Finite
    &&& range.2@ is Finite
    &&& forall|j: int|
        0 <= j < diarization.len() ==> (#[trigger] diarization[j]).start_sec@ is Finite
            && diarization[j].end_sec@ is Finite
}

/// Between finite ends the shared time is the rounded difference of the inner
/// ends, or zero, and nothing else.
proof fn lemma_shared_time_of_finite(t: Stretch, s: DiarizationSegment)
    requires
        t.start is Finite,
        t.end is Finite,
        s.start_sec@ is Finite,
        s.end_sec@ is Finite,
    ensures
        ({
            let n = length_in_common(t.start->Finite_0, t.end->Finite_0, s);
            &&& n > 0 ==> shared_time(t, s@) == seconds::nearest(n) && shares(t, s@)
            &&& n <= 0 ==> shared_time(t, s@) == TimeValue::Finite(0)
        }),
{
    let n = length_in_common(t.start->Finite_0, t.end->Finite_0, s);
    let d = seconds::distance(n);
    let v = s@;
    assert(t.end.earlier(v.end).minus(t.start.later(v.start)) == seconds::nearest(n));
    power2::lemma_pow2_pos(2098);
    if n > 0 {
        rounding::lemma_round_small(1);
        rounding::lemma_round_monotone(1, d);
    } else if n == 0 {
        rounding::lemma_round_small(0);
    }
}

/// A transcript range is given the speaker of the segment with which it has
/// the greatest length in common, as the time format rounds it; of several
/// such segments, that of the first.
pub proof fn the_longest_overlap_wins(
    diarization: Seq<DiarizationSegment>,
    range: (String, Seconds, Seconds),
    i: int,
)
    requires
        all_finite(diarization, range),
        0 <= i < diarization.len(),
        common_length(range, diarization[i]) > 0,
        forall|j: int|
            0 <= j < i && common_length(range, #[trigger] diarization[j]) > 0 ==> seconds::nearest(
                common_length(range, diarization[j]),
            ).before(seconds::nearest(common_length(range, diarization[i]))),
        forall|j: int|
            i < j < diarization.len() && common_length(range, #[trigger] diarization[j]) > 0
                ==> !seconds::nearest(common_length(range, diarization[i])).before(
                seconds::nearest(common_length(range, diarization[j])),
            ),
    ensures
        speaker_of(stretch(range), speeches(diarization)) == diarization[i].speaker_id@,
{
    let (t, all) = (stretch(range), speeches(diarization));
    assert forall|j: int| 0 <= j < all.len() implies all[j] == diarization[j]@ && (
    common_length(range, diarization[j]) > 0 ==> shared_time(t, #[trigger] all[j])
        == seconds::nearest(common_length(range, diarization[j])) && shares(t, all[j])) && (
    common_length(range, diarization[j]) <= 0 ==> shared_time(t, all[j]) == TimeValue::Finite(
        0,
    )) by {
        lemma_shared_time_of_finite(t, diarization[j]);
    }
    assert(all[i] == diarization[i]@);
    assert(!shared_time(t, all[i]).before(shared_time(t, all[i])));
    assert forall|j: int| 0 <= j < all.len() implies !shared_time(t, all[i]).before(
        shared_time(t, #[trigger] all[j]),
    ) by {
        assert(diarization[j] == diarization[j]);
    }
    assert forall|j: int| 0 <= j < i implies shared_time(t, #[trigger] all[j]).before(
        shared_time(t, all[i]),
    ) by {
        assert(diarization[j] == diarization[j]);
    }
    assert(shares_most(t, all, i));
    let k = choose|k: int| shares_most(t, all, k);
    shares_most_is_unique(t, all, i, k);
}

/// A transcript range that has no length in common with any segment is given
/// to nobody.
pub proof fn without_overlap_the_speaker_is_unknown(
    diarization: Seq<DiarizationSegment>,
    range: (String, Seconds, Seconds),
)
    requires
        all_finite(diarization, range),
        forall|j: int|
            0 <= j < diarization.len() ==> common_length(range, #[trigger] diarization[j]) <= 0,
    ensures
        speaker_of(stretch(range), speeches(diarization)) == "SPEAKER_UNKNOWN"@,
{
    let (t, all) = (stretch(range), speeches(diarization));
    assert forall|k: int| !shares_most(t, all, k) by {
        if 0 <= k < all.len() {
            assert(all[k] == diarization[k]@);
            lemma_shared_time_of_finite(t, diarization[k]);
        }
    }
}

/// Whether a time is a whole number of seconds.
pub open spec fn is_whole(t: Seconds, n: int) -> bool {
    t@ == TimeValue::Finite(n * power2::pow2(1074)) && -0x10_0000_0000_0000 < n
        < 0x10_0000_0000_0000
}

/// Among times in whole seconds, the speaker of a transcript range is that of
/// the segment with the most seconds in common; of several such segments, that
/// of the first. `starts` and `ends` are the seconds at which the segments start
/// and end, and `from` and `to` those of the transcript range.
pub proof fn the_most_whole_seconds_win(
    diarization: Seq<DiarizationSegment>,
    starts: Seq<int>,
    ends: Seq<int>,
    range: (String, Seconds, Seconds),
    from: int,
    to: int,
    i: int,
)
    requires
        is_whole(range.1, from),
        is_whole(range.2, to),
        starts.len() == diarization.len(),
        ends.len() == diarization.len(),
        forall|j: int|
            0 <= j < diarization.len() ==> is_whole(
                (#[trigger] diarization[j]).start_sec,
                starts[j],
            ) && is_whole(diarization[j].end_sec, ends[j]),
        0 <= i < diarization.len(),
        seconds_in_common(from, to, starts[i], ends[i]) > 0,
        forall|j: int|
            0 <= j < i ==> seconds_in_common(from, to, #[trigger] starts[j], ends[j])
                < seconds_in_common(from, to, starts[i], ends[i]),
        forall|j: int|
            i < j < diarization.len() ==> seconds_in_common(from, to, #[trigger] starts[j], ends[j])
                <= seconds_in_common(from, to, starts[i], ends[i]),
    ensures
        speaker_of(stretch(range), speeches(diarization)) == diarization[i].speaker_id@,
{
    the_most_whole_seconds_win_of(diarization, starts, ends, stretch(range), from, to, i);
}

/// The same of any stretch of the recording between whole seconds.
pub proof fn the_most_whole_seconds_win_of(
    diarization: Seq<DiarizationSegment>,
    starts: Seq<int>,
    ends: Seq<int>,
    t: Stretch,
    from: int,
    to: int,
    i: int,
)
    requires
        t.start == TimeValue::Finite(from * power2::pow2(1074)),
        t.end == TimeValue::Finite(to * power2::pow2(1074)),
        starts.len() == diarization.len(),
        ends.len() == diarization.len(),
        forall|j: int|
            0 <= j < diarization.len() ==> is_whole(
                (#[trigger] diarization[j]).start_sec,
                starts[j],
            ) && is_whole(diarization[j].end_sec, ends[j]),
        0 <= i < diarization.len(),
        seconds_in_common(from, to, starts[i], ends[i]) > 0,
        forall|j: int|
            0 <= j < i ==> seconds_in_common(from, to, #[trigger] starts[j], ends[j])
                < seconds_in_common(from, to, starts[i], ends[i]),
        forall|j: int|
            i < j < diarization.len() ==> seconds_in_common(from, to, #[trigger] starts[j], ends[j])
                <= seconds_in_common(from, to, starts[i], ends[i]),
    ensures
        speaker_of(t, speeches(diarization)) == diarization[i].speaker_id@,
{
    let all = speeches(diarization);
    let unit = power2::pow2(1074) as int;
    let c = seconds_in_common(from, to, starts[i], ends[i]);
    assert forall|j: int| 0 <= j < all.len() implies {
        let n = seconds_in_common(from, to, starts[j], ends[j]);
        &&& (#[trigger] all[j]) == diarization[j]@
        &&& n > 0 ==> shared_time(t, all[j]) == TimeValue::Finite(n * unit) && n * unit > 0
        &&& n <= 0 ==> shared_time(t, all[j]) == TimeValue::Finite(0)
        &&& n < c ==> n * unit < c * unit
        &&& n <= c ==> n * unit <= c * unit
    } by {
        lemma_shared_whole(t, diarization[j], from, to, starts[j], ends[j]);
        let n = seconds_in_common(from, to, starts[j], ends[j]);
        power2::lemma_pow2_pos(1074);
        assert((n > 0 ==> n * unit > 0) && (n < c ==> n * unit < c * unit) && (n <= c ==> n * unit
            <= c * unit)) by (nonlinear_arith)
            requires
                unit > 0,
        ;
    }
    assert(all[i] == diarization[i]@);
    assert forall|j: int| 0 <= j < all.len() implies !shared_time(t, all[i]).before(
        shared_time(t, #[trigger] all[j]),
    ) by {
        assert(j == i || seconds_in_common(from, to, starts[j], ends[j]) <= c);
    }
    assert forall|j: int| 0 <= j < i implies shared_time(t, #[trigger] all[j]).before(
        shared_time(t, all[i]),
    ) by {
        assert(seconds_in_common(from, to, starts[j], ends[j]) < c);
    }
    assert(shares_most(t, all, i));
    let k = choose|k: int| shares_most(t, all, k);
    shares_most_is_unique(t, all, i, k);
}

/// A stretch between whole seconds that has none of them in common with any
/// segment is given to nobody.
pub proof fn nobody_has_whole_seconds_of(
    diarization: Seq<DiarizationSegment>,
    starts: Seq<int>,
    ends: Seq<int>,
    t: Stretch,
    from: int,
    to: int,
)
    requires
        t.start == TimeValue::Finite(from * power2::pow2(1074)),
        t.end == TimeValue::Finite(to * power2::pow2(1074)),
        starts.len() == diarization.len(),
        ends.len() == diarization.len(),
        forall|j: int|
            0 <= j < diarization.len() ==> is_whole(
                (#[trigger] diarization[j]).start_sec,
                starts[j],
            ) && is_whole(diarization[j].end_sec, ends[j]),
        forall|j: int|
            0 <= j < diarization.len() ==> seconds_in_common(
                from,
                to,
                #[trigger] starts[j],
                ends[j],
            ) <= 0,
    ensures
        speaker_of(t, speeches(diarization)) == "SPEAKER_UNKNOWN"@,
{
    let all = speeches(diarization);
    assert forall|k: int| !shares_most(t, all, k) by {
        if 0 <= k < all.len() {
            assert(all[k] == diarization[k]@);
            lemma_shared_whole(t, diarization[k], from, to, starts[k], ends[k]);
        }
    }
}

/// The seconds between the greater of two starts and the smaller of two ends.
pub open spec fn seconds_in_common(from: int, to: int, start: int, end: int) -> int {
    (if to < end {
        to
    } else {
        end
    }) - (if from > start {
        from
    } else {
        start
    })
}

proof fn lemma_shared_whole(
    t: Stretch,
    s: DiarizationSegment,
    from: int,
    to: int,
    start: int,
    end: int,
)
    requires
        t.start == TimeValue::Finite(from * power2::pow2(1074)),
        t.end == TimeValue::Finite(to * power2::pow2(1074)),
        is_whole(s.start_sec, start),
        is_whole(s.end_sec, end),
    ensures
        ({
            let n = seconds_in_common(from, to, start, end);
            &&& n > 0 ==> shared_time(t, s@) == TimeValue::Finite(n * power2::pow2(1074))
            &&& n <= 0 ==> shared_time(t, s@) == TimeValue::Finite(0)
        }),
{
    let unit = power2::pow2(1074) as int;
    power2::lemma_pow2_pos(1074);
    assert((to < end <==> to * unit < end * unit) && (from > start <==> from * unit > start * unit))
        by (nonlinear_arith)
        requires
            unit > 0,
    ;
    let b = if to < end {
        to
    } else {
        end
    };
    let a = if from > start {
        from
    } else {
        start
    };
    let n = b - a;
    assert(b * unit - a * unit == n * unit && (n > 0 <==> n * unit > 0)) by (nonlinear_arith)
        requires
            unit > 0,
            n == b - a,
    ;
    lemma_shared_time_of_finite(t, s);
    if n > 0 {
        seconds::whole_seconds_are_exact(n);
        seconds::numbers_of_the_format_are_kept(n * unit);
    }
}

/// An end of a segment that is no number does not bound the time that it
/// shares with a transcript range: it is as good as a start before all times,
/// or an end after all of them.
pub proof fn what_is_no_number_does_not_bound(t: Stretch, s: Speech)
    requires
        !(t.start is Nan),
        !(t.end is Nan),
    ensures
        shared_time(t, (Speech { start: TimeValue::Nan, ..s })) == shared_time(
            t,
            (Speech { start: TimeValue::NegInfinity, ..s }),
        ),
        shared_time(t, (Speech { end: TimeValue::Nan, ..s })) == shared_time(
            t,
            (Speech { end: TimeValue::Infinity, ..s }),
        ),
{
}

/// It does not matter which of the two, transcript range or segment, has which
/// ends, nor what the texts are: the time that they share is the same.
pub proof fn shared_time_is_mutual(t: Stretch, s: Speech)
    ensures
        shared_time(t, s) == shared_time(
            (Stretch { start: s.start, end: s.end, ..t }),
            (Speech { start: t.start, end: t.end, ..s }),
        ),
{
}

/// Ranges and segments that have the same length in common share the same
/// time, wherever in the recording they lie and whatever they say.
pub proof fn only_lengths_matter(
    range: (String, Seconds, Seconds),
    s: DiarizationSegment,
    other_range: (String, Seconds, Seconds),
    other: DiarizationSegment,
)
    requires
        range.1@ is Finite,
        range.2@ is Finite,
        s.start_sec@ is Finite,
        s.end_sec@ is Finite,
        other_range.1@ is Finite,
        other_range.2@ is Finite,
        other.start_sec@ is Finite,
        other.end_sec@ is Finite,
        common_length(range, s) == common_length(other_range, other),
    ensures
        shared_time(stretch(range), s@) == shared_time(stretch(other_range), other@),
{
    lemma_shared_time_of_finite(stretch(range), s);
    lemma_shared_time_of_finite(stretch(other_range), other);
}

/// Whether an optional time is that optional whole number of seconds.
pub open spec fn is_whole_or_none(t: Option<Seconds>, n: Option<int>) -> bool {
    match (t, n) {
        (Some(t), Some(n)) => is_whole(t, n),
        (None, None) => true,
        _ => false,
    }
}

/// A stored segment starts at its start, or with the recording; it ends at its
/// end, or else as long after its start as its duration says, or two seconds.
/// Stated in whole seconds.
pub proof fn a_stored_segment_covers_whole_seconds(
    t: SegmentView,
    start: Option<int>,
    end: Option<int>,
    duration: Option<int>,
)
    requires
        is_whole_or_none(t.audio_start_time, start),
        is_whole_or_none(t.audio_end_time, end),
        is_whole_or_none(t.duration, duration),
    ensures
        ({
            let from = if start is Some {
                start->0
            } else {
                0
            };
            let to = if end is Some {
                end->0
            } else if duration is Some {
                from + duration->0
            } else {
                from + 2
            };
            &&& covered(t).id == t.id
            &&& covered(t).start == TimeValue::Finite(from * power2::pow2(1074))
            &&& covered(t).end == TimeValue::Finite(to * power2::pow2(1074))
        }),
{
    let unit = power2::pow2(1074) as int;
    let from = if start is Some {
        start->0
    } else {
        0
    };
    let length = if duration is Some {
        duration->0
    } else {
        2
    };
    power2::lemma_pow2_unfold(1075);
    assert(0 * unit == 0 && from * unit + length * unit == (from + length) * unit)
        by (nonlinear_arith);
    if end is None {
        seconds::whole_seconds_are_exact(from + length);
        seconds::numbers_of_the_format_are_kept((from + length) * unit);
    }
}

/// What a stored segment covers does not depend on what it says, on the speaker
/// that it was given before, or on its time of day; nor on its duration, if its
/// end is known.
pub proof fn only_times_say_what_a_segment_covers(a: SegmentView, b: SegmentView)
    requires
        a.id == b.id,
        a.audio_start_time == b.audio_start_time,
        a.audio_end_time == b.audio_end_time,
        a.audio_end_time is None ==> a.duration == b.duration,
    ensures
        covered(a) == covered(b),
{
}

/// A stored segment with known ends covers the stretch between them, at any
/// times; without an end it ends where its start and its duration add up to.
pub proof fn a_stored_segment_covers_the_stretch_between_its_ends(
    t: SegmentView,
    start: Seconds,
    end: Seconds,
    duration: Seconds,
)
    requires
        t.audio_start_time == Some(start),
    ensures
        covered(t).id == t.id,
        covered(t).start == start@,
        t.audio_end_time == Some(end) ==> covered(t).end == end@,
        t.audio_end_time is None && t.duration == Some(duration) ==> covered(t).end == start@.plus(
            duration@,
        ),
{
}

/// What the segments say of the speakers is what each of them says, in their
/// order, and none is left out.
pub proof fn all_speeches_are_seen(segments: Seq<DiarizationSegment>)
    ensures
        speeches(segments).len() == segments.len(),
        forall|i: int|
            0 <= i < segments.len() ==> {
                let s = #[trigger] speeches(segments)[i];
                &&& s.speaker == segments[i].speaker_id@
                &&& s.start == segments[i].start_sec@
                &&& s.end == segments[i].end_sec@
            },
{
}

} // verus!
