//! The speakers of a recording, and the names that they get at first.

use crate::diarization::overlap::{self, DiarizationSegment, Speech};
use crate::metadata::SpeakerNames;
use crate::text;
use vstd::prelude::*;

verus! {

/// A sorted sequence of texts with `x` put in its place, if it is not there.
pub open spec fn inserted(sorted: Seq<Seq<char>>, x: Seq<char>) -> Seq<Seq<char>>
    decreases sorted.len(),
{
    if sorted.len() == 0 {
        seq![x]
    } else if x == sorted.first() {
        sorted
    } else if text::precedes(x, sorted.first()) {
        seq![x] + sorted
    } else {
        seq![sorted.first()] + inserted(sorted.drop_first(), x)
    }
}

/// The speakers of the speeches, sorted, each once.
pub open spec fn speakers(all: Seq<Speech>) -> Seq<Seq<char>>
    decreases all.len(),
{
    if all.len() == 0 {
        Seq::empty()
    } else {
        inserted(speakers(all.drop_last()), all.last().speaker)
    }
}

/// Whether texts stand in strictly ascending order.
pub open spec fn ascending(s: Seq<Seq<char>>) -> bool {
    forall|i: int, j: int|
        0 <= i < j < s.len() ==> text::precedes(#[trigger] s[i], #[trigger] s[j])
}

/// Putting a text in its place keeps the order, and adds that text alone.
proof fn lemma_inserted(sorted: Seq<Seq<char>>, x: Seq<char>)
    requires
        ascending(sorted),
    ensures
        ascending(inserted(sorted, x)),
        forall|y: Seq<char>| #[trigger]
            inserted(sorted, x).contains(y) <==> sorted.contains(y) || y == x,
        inserted(sorted, x).len() <= sorted.len() + 1,
    decreases sorted.len(),
{
    let r = inserted(sorted, x);
    if sorted.len() == 0 {
        assert(r[0] == x);
    } else {
        let first = sorted.first();
        let rest = sorted.drop_first();
        assert forall|i: int, j: int| 0 <= i < j < rest.len() implies text::precedes(
            #[trigger] rest[i],
            #[trigger] rest[j],
        ) by {
            assert(rest[i] == sorted[i + 1] && rest[j] == sorted[j + 1]);
        }
        if x == first {
            assert(sorted[0] == x);
        } else if text::precedes(x, first) {
            assert forall|i: int, j: int| 0 <= i < j < r.len() implies text::precedes(
                #[trigger] r[i],
                #[trigger] r[j],
            ) by {
                if i == 0 {
                    assert(r[j] == sorted[j - 1]);
                    if j > 1 {
                        assert(text::precedes(sorted[0], sorted[j - 1]));
                        text::precedes_transitive(x, first, sorted[j - 1]);
                    }
                } else {
                    assert(r[i] == sorted[i - 1] && r[j] == sorted[j - 1]);
                }
            }
            assert forall|y: Seq<char>| #[trigger] r.contains(y) <==> sorted.contains(y) || y
                == x by {
                if sorted.contains(y) {
                    let i = choose|i: int| 0 <= i < sorted.len() && sorted[i] == y;
                    assert(r[i + 1] == y);
                }
                assert(r[0] == x);
                if r.contains(y) && y != x {
                    let i = choose|i: int| 0 <= i < r.len() && r[i] == y;
                    assert(sorted[i - 1] == y);
                }
            }
        } else {
            text::precedes_total(x, first);
            lemma_inserted(rest, x);
            let more = inserted(rest, x);
            assert(r == seq![first] + more);
            assert forall|i: int, j: int| 0 <= i < j < r.len() implies text::precedes(
                #[trigger] r[i],
                #[trigger] r[j],
            ) by {
                assert(r[j] == more[j - 1]);
                if i == 0 {
                    let y = more[j - 1];
                    assert(more.contains(y));
                    if y != x {
                        let k = choose|k: int| 0 <= k < rest.len() && rest[k] == y;
                        assert(sorted[k + 1] == y);
                        assert(text::precedes(sorted[0], sorted[k + 1]));
                    }
                } else {
                    assert(r[i] == more[i - 1]);
                }
            }
            assert forall|y: Seq<char>| #[trigger] r.contains(y) <==> sorted.contains(y) || y
                == x by {
                if r.contains(y) {
                    let i = choose|i: int| 0 <= i < r.len() && r[i] == y;
                    if i == 0 {
                        assert(sorted[0] == y);
                    } else {
                        assert(more[i - 1] == y);
                        assert(more.contains(y));
                        if y != x {
                            let k = choose|k: int| 0 <= k < rest.len() && rest[k] == y;
                            assert(sorted[k + 1] == y);
                        }
                    }
                }
                if sorted.contains(y) || y == x {
                    if y == first && y != x {
                        assert(r[0] == y);
                    } else {
                        if y != x {
                            let k = choose|k: int| 0 <= k < sorted.len() && sorted[k] == y;
                            assert(rest[k - 1] == y);
                        }
                        assert(more.contains(y));
                        let k = choose|k: int| 0 <= k < more.len() && more[k] == y;
                        assert(r[k + 1] == y);
                    }
                }
            }
        }
    }
}

/// The list of speakers is sorted, so that it names nobody twice, and it names
/// exactly those who speak.
pub proof fn speakers_are_those_who_speak(all: Seq<Speech>)
    ensures
        ascending(speakers(all)),
        forall|y: Seq<char>| #[trigger]
            speakers(all).contains(y) <==> exists|i: int|
                0 <= i < all.len() && (#[trigger] all[i]).speaker == y,
        speakers(all).len() <= all.len(),
    decreases all.len(),
{
    if all.len() > 0 {
        let fewer = all.drop_last();
        speakers_are_those_who_speak(fewer);
        lemma_inserted(speakers(fewer), all.last().speaker);
        assert forall|y: Seq<char>| #[trigger] speakers(all).contains(y) <==> exists|i: int|
            0 <= i < all.len() && (#[trigger] all[i]).speaker == y by {
            if speakers(fewer).contains(y) {
                let i = choose|i: int| 0 <= i < fewer.len() && (#[trigger] fewer[i]).speaker == y;
                assert(all[i].speaker == y);
            }
            if exists|i: int| 0 <= i < all.len() && (#[trigger] all[i]).speaker == y {
                let i = choose|i: int| 0 <= i < all.len() && (#[trigger] all[i]).speaker == y;
                if i < fewer.len() {
                    assert(fewer[i].speaker == y);
                }
            }
        }
    }
}

/// Puts a text in its place in a sorted list, if it is not there.
fn insert_speaker(sorted: &mut Vec<String>, x: &String)
    requires
        ascending(text::texts(old(sorted)@)),
    ensures
        text::texts(final(sorted)@) == inserted(text::texts(old(sorted)@), x@),
{
    let ghost s = text::texts(sorted@);
    let mut i: usize = 0;
    proof {
        assert(s.skip(0) =~= s);
        assert(s.take(0) + inserted(s, x@) =~= inserted(s, x@));
    }
    while i < sorted.len() && text::comes_before(sorted[i].as_str(), x.as_str())
        invariant
            i <= sorted@.len(),
            sorted@ == old(sorted)@,
            s == text::texts(sorted@),
            ascending(s),
            inserted(s, x@) == s.take(i as int) + inserted(s.skip(i as int), x@),
        decreases sorted.len() - i,
    {
        proof {
            let rest = s.skip(i as int);
            assert(rest.first() == sorted@[i as int]@);
            text::precedes_irreflexive(x@);
            if text::precedes(x@, rest.first()) {
                text::precedes_transitive(x@, rest.first(), x@);
            }
            assert(rest.drop_first() =~= s.skip(i + 1));
            assert(s.take(i as int) + (seq![rest.first()] + inserted(s.skip(i + 1), x@)) =~= s.take(
                i + 1,
            ) + inserted(s.skip(i + 1), x@));
        }
        i = i + 1;
    }
    let ghost rest = s.skip(i as int);
    proof {
        assert(s =~= s.take(i as int) + rest);
    }
    if i < sorted.len() {
        proof {
            assert(rest.first() == sorted@[i as int]@);
        }
        if text::same_text(sorted[i].as_str(), x.as_str()) {
            return;
        }
        proof {
            text::precedes_total(x@, rest.first());
        }
    }
    sorted.insert(i, x.clone());
    proof {
        assert(inserted(rest, x@) =~= seq![x@] + rest);
        assert(text::texts(sorted@) =~= s.take(i as int) + (seq![x@] + rest));
    }
}

/// The speakers of the segments, sorted, each once.
pub fn unique_speakers(segments: &Vec<DiarizationSegment>) -> (r: Vec<String>)
    ensures
        text::texts(r@) == speakers(overlap::speeches(segments@)),
{
    let ghost all = overlap::speeches(segments@);
    let mut r: Vec<String> = Vec::new();
    let mut i: usize = 0;
    proof {
        assert(text::texts(r@) =~= speakers(all.take(0)));
    }
    while i < segments.len()
        invariant
            i <= segments@.len(),
            all == overlap::speeches(segments@),
            text::texts(r@) == speakers(all.take(i as int)),
        decreases segments.len() - i,
    {
        proof {
            speakers_are_those_who_speak(all.take(i as int));
            assert(all.take(i + 1).drop_last() =~= all.take(i as int));
            assert(all.take(i + 1).last() == segments@[i as int]@);
        }
        insert_speaker(&mut r, &segments[i].speaker_id);
        i = i + 1;
    }
    proof {
        assert(all.take(i as int) =~= all);
    }
    r
}

/// The name that the speaker in place `i` of the list gets, counting from one.
pub open spec fn label(i: int) -> Seq<char> {
    "Speaker "@ + text::decimal_digits((i + 1) as nat)
}

/// The names that the speakers of a list get.
pub open spec fn labels(ids: Seq<Seq<char>>) -> Map<Seq<char>, Seq<char>> {
    Map::new(|k: Seq<char>| ids.contains(k), |k: Seq<char>| label(ids.index_of(k)))
}

/// The names that the speakers of a sorted list get.
pub fn speaker_labels(ids: &Vec<String>) -> (r: SpeakerNames)
    requires
        ascending(text::texts(ids@)),
    ensures
        r@ == labels(text::texts(ids@)),
{
    let ghost all = text::texts(ids@);
    let mut names = SpeakerNames::new();
    let mut i: usize = 0;
    proof {
        assert(names@ =~= labels(all.take(0)));
    }
    while i < ids.len()
        invariant
            i <= ids@.len(),
            all == text::texts(ids@),
            ascending(all),
            names@ == labels(all.take(i as int)),
        decreases ids.len() - i,
    {
        let mut name = "Speaker ".to_owned();
        name.append(text::decimal(i as u64 + 1).as_str());
        proof {
            let done = all.take(i as int);
            let more = all.take(i + 1);
            let k = all[i as int];
            assert(k == ids@[i as int]@);
            assert(more =~= done.push(k));
            assert(more[i as int] == k);
            assert forall|a: int, b: int| 0 <= a < b < all.len() implies all[a] != all[b] by {
                text::precedes_irreflexive(all[a]);
                assert(text::precedes(all[a], all[b]));
            }
            assert(name@ == label(i as int));
            assert(more.index_of(k) == i) by {
                let j = more.index_of(k);
                assert(more.contains(k));
                assert(0 <= j < more.len() && more[j] == k);
                assert(all[j] == all[i as int]);
            }
            let longer = labels(done).insert(k, name@);
            assert forall|y: Seq<char>| labels(more).contains_key(y) <==> longer.contains_key(
                y,
            ) by {
                if done.contains(y) {
                    let j = choose|j: int| 0 <= j < done.len() && done[j] == y;
                    assert(more[j] == y);
                }
                if more.contains(y) && y != k {
                    let j = choose|j: int| 0 <= j < more.len() && more[j] == y;
                    assert(done[j] == y);
                }
            }
            assert forall|y: Seq<char>| labels(more).contains_key(y) implies labels(more)[y]
                == longer[y] by {
                if y != k {
                    let j = more.index_of(y);
                    assert(more.contains(y));
                    assert(0 <= j < more.len() && more[j] == y);
                    assert(done[j] == y);
                    let l = done.index_of(y);
                    assert(done.contains(y));
                    assert(0 <= l < done.len() && done[l] == y);
                    assert(all[j] == all[l]);
                }
            }
            assert(labels(more) =~= longer);
        }
        names.insert(ids[i].clone(), name);
        i = i + 1;
    }
    proof {
        assert(all.take(i as int) =~= all);
    }
    names
}

/// Everybody who speaks gets a name, and nobody else.
pub proof fn everybody_who_speaks_gets_a_name(all: Seq<Speech>, k: Seq<char>)
    ensures
        labels(speakers(all)).contains_key(k) <==> exists|i: int|
            0 <= i < all.len() && (#[trigger] all[i]).speaker == k,
{
    speakers_are_those_who_speak(all);
}

/// The speaker that a stretch of the recording is given has a name, unless
/// nobody speaks in it.
pub proof fn an_assigned_speaker_has_a_name(t: overlap::Stretch, all: Seq<Speech>)
    ensures
        overlap::speaker_of(t, all) == "SPEAKER_UNKNOWN"@ || labels(speakers(all)).contains_key(
            overlap::speaker_of(t, all),
        ),
{
    overlap::a_speaker_speaks(t, all);
    everybody_who_speaks_gets_a_name(all, overlap::speaker_of(t, all));
}

proof fn lemma_decimal_injective(a: nat, b: nat)
    requires
        text::decimal_digits(a) == text::decimal_digits(b),
    ensures
        a == b,
    decreases a,
{
    let (x, y) = (text::decimal_digits(a), text::decimal_digits(b));
    lemma_decimal_length(a);
    lemma_decimal_length(b);
    if a < 10 {
        if b >= 10 {
            lemma_decimal_length(b / 10);
            assert(y.len() == text::decimal_digits(b / 10).len() + 1);
        } else {
            assert(x[0] == text::digit(a) && y[0] == text::digit(b));
        }
    } else if b < 10 {
        lemma_decimal_length(a / 10);
        assert(x.len() == text::decimal_digits(a / 10).len() + 1);
    } else {
        assert(x.drop_last() =~= text::decimal_digits(a / 10));
        assert(y.drop_last() =~= text::decimal_digits(b / 10));
        assert(x.last() == text::digit(a % 10) && y.last() == text::digit(b % 10));
        lemma_decimal_injective(a / 10, b / 10);
    }
}

proof fn lemma_decimal_length(a: nat)
    ensures
        text::decimal_digits(a).len() >= 1,
    decreases a,
{
    if a >= 10 {
        lemma_decimal_length(a / 10);
    }
}

/// Two speakers never get the same name.
pub proof fn names_are_different(all: Seq<Speech>, a: Seq<char>, b: Seq<char>)
    requires
        labels(speakers(all)).contains_key(a),
        labels(speakers(all)).contains_key(b),
        a != b,
    ensures
        labels(speakers(all))[a] != labels(speakers(all))[b],
{
    let ids = speakers(all);
    let (i, j) = (ids.index_of(a), ids.index_of(b));
    assert(ids.contains(a) && ids.contains(b));
    assert(0 <= i < ids.len() && ids[i] == a);
    assert(0 <= j < ids.len() && ids[j] == b);
    if label(i) == label(j) {
        let prefix = "Speaker "@;
        assert(label(i).skip(prefix.len() as int) =~= text::decimal_digits((i + 1) as nat));
        assert(label(j).skip(prefix.len() as int) =~= text::decimal_digits((j + 1) as nat));
        lemma_decimal_injective((i + 1) as nat, (j + 1) as nat);
    }
}

/// The speakers are named by their place in the list, counting from one: who
/// has `i` speakers before them is called by the number after `i`.
pub proof fn the_first_speaker_is_speaker_one(ids: Seq<Seq<char>>, i: int)
    requires
        ascending(ids),
        0 <= i < ids.len(),
    ensures
        labels(ids).contains_key(ids[i]),
        exists|digits: Seq<char>| #[trigger]
            text::number_said(digits) == i + 1 && digits == text::decimal_digits((i + 1) as nat)
                && labels(ids)[ids[i]] == "Speaker "@ + digits,
{
    let k = ids.index_of(ids[i]);
    assert(ids.contains(ids[i]));
    assert(0 <= k < ids.len() && ids[k] == ids[i]);
    if k != i {
        text::precedes_irreflexive(ids[i]);
        if k < i {
            assert(text::precedes(ids[k], ids[i]));
        } else {
            assert(text::precedes(ids[i], ids[k]));
        }
    }
    text::digits_say_the_number((i + 1) as nat);
    assert(text::number_said(text::decimal_digits((i + 1) as nat)) == i + 1);
}

/// Nobody gets a name who is not in the list.
pub proof fn only_listed_speakers_are_named(ids: Seq<Seq<char>>, k: Seq<char>)
    ensures
        labels(ids).contains_key(k) <==> exists|i: int| 0 <= i < ids.len() && #[trigger] ids[i] == k,
{
    if exists|i: int| 0 <= i < ids.len() && #[trigger] ids[i] == k {
        let i = choose|i: int| 0 <= i < ids.len() && #[trigger] ids[i] == k;
        assert(ids.contains(k));
    }
}

/// The list of speakers does not depend on the order of the speeches, nor on
/// how often somebody speaks.
pub proof fn the_order_of_speeches_does_not_matter(a: Seq<Speech>, b: Seq<Speech>)
    requires
        forall|i: int|
            0 <= i < a.len() ==> exists|j: int|
                0 <= j < b.len() && (#[trigger] b[j]).speaker == (#[trigger] a[i]).speaker,
        forall|j: int|
            0 <= j < b.len() ==> exists|i: int|
                0 <= i < a.len() && (#[trigger] a[i]).speaker == (#[trigger] b[j]).speaker,
    ensures
        speakers(a) == speakers(b),
{
    speakers_are_those_who_speak(a);
    speakers_are_those_who_speak(b);
    let (x, y) = (speakers(a), speakers(b));
    assert forall|k: Seq<char>| #[trigger] x.contains(k) <==> y.contains(k) by {
        if x.contains(k) {
            let i = choose|i: int| 0 <= i < a.len() && (#[trigger] a[i]).speaker == k;
            assert(a[i].speaker == k);
        }
        if y.contains(k) {
            let j = choose|j: int| 0 <= j < b.len() && (#[trigger] b[j]).speaker == k;
            assert(b[j].speaker == k);
        }
    }
    lemma_sorted_lists_agree(x, y);
}

/// Two sorted lists of the same texts are the same list.
proof fn lemma_sorted_lists_agree(x: Seq<Seq<char>>, y: Seq<Seq<char>>)
    requires
        ascending(x),
        ascending(y),
        forall|k: Seq<char>| #[trigger] x.contains(k) <==> y.contains(k),
    ensures
        x == y,
    decreases x.len(),
{
    if x.len() == 0 {
        if y.len() > 0 {
            assert(y.contains(y[0]));
            assert(x.contains(y[0]));
        }
        assert(x =~= y);
    } else {
        assert(x.contains(x.last()));
        assert(y.contains(x.last()));
        let j = choose|j: int| 0 <= j < y.len() && y[j] == x.last();
        assert(y.contains(y.last()));
        assert(x.contains(y.last()));
        let i = choose|i: int| 0 <= i < x.len() && x[i] == y.last();
        assert(j == y.len() - 1) by {
            if j < y.len() - 1 {
                assert(text::precedes(y[j], y.last()));
                if i < x.len() - 1 {
                    assert(text::precedes(x[i], x.last()));
                    text::precedes_transitive(x.last(), y.last(), x.last());
                }
                text::precedes_irreflexive(x.last());
            }
        }
        let (a, b) = (x.drop_last(), y.drop_last());
        assert forall|k: Seq<char>| #[trigger] a.contains(k) <==> b.contains(k) by {
            if a.contains(k) {
                let p = choose|p: int| 0 <= p < a.len() && a[p] == k;
                assert(x[p] == k);
                assert(x.contains(k));
                assert(text::precedes(x[p], x.last()));
                text::precedes_irreflexive(x.last());
                let q = choose|q: int| 0 <= q < y.len() && y[q] == k;
                assert(q < y.len() - 1);
                assert(b[q] == k);
            }
            if b.contains(k) {
                let q = choose|q: int| 0 <= q < b.len() && b[q] == k;
                assert(y[q] == k);
                assert(y.contains(k));
                assert(x.contains(k));
                assert(text::precedes(y[q], y.last()));
                text::precedes_irreflexive(y.last());
                let p = choose|p: int| 0 <= p < x.len() && x[p] == k;
                assert(p < x.len() - 1);
                assert(a[p] == k);
            }
        }
        lemma_sorted_lists_agree(a, b);
        assert(x =~= a.push(x.last()));
        assert(y =~= b.push(y.last()));
    }
}

} // verus!
