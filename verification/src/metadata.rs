//! The metadata of a meeting: a JSON object that holds, among other things,
//! the names of the speakers.

use crate::json::{self, Json};
use crate::text;
use vstd::prelude::*;

verus! {

/// Display names by speaker.
#[derive(Debug)]
pub struct SpeakerNames {
    entries: Vec<(String, String)>,
}

/// Whether some entry is for speaker `k`.
pub open spec fn names_speaker(entries: Seq<(String, String)>, k: Seq<char>) -> bool {
    exists|i: int| 0 <= i < entries.len() && (#[trigger] entries[i]).0@ == k
}

/// The name that an entry gives to speaker `k`.
pub open spec fn name_of_speaker(entries: Seq<(String, String)>, k: Seq<char>) -> Seq<char> {
    let i = choose|i: int| 0 <= i < entries.len() && (#[trigger] entries[i]).0@ == k;
    entries[i].1@
}

/// The names that the entries give.
pub open spec fn names_by_speaker(entries: Seq<(String, String)>) -> Map<Seq<char>, Seq<char>> {
    Map::new(|k: Seq<char>| names_speaker(entries, k), |k: Seq<char>| name_of_speaker(entries, k))
}

/// Whether no speaker has two entries.
pub open spec fn one_entry_each(entries: Seq<(String, String)>) -> bool {
    forall|i: int, j: int|
        0 <= i < j < entries.len() ==> (#[trigger] entries[i]).0@ != (#[trigger] entries[j]).0@
}

impl View for SpeakerNames {
    type V = Map<Seq<char>, Seq<char>>;

    closed spec fn view(&self) -> Map<Seq<char>, Seq<char>> {
        names_by_speaker(self.entries@)
    }
}

proof fn lemma_name_of_entry(entries: Seq<(String, String)>, i: int)
    requires
        one_entry_each(entries),
        0 <= i < entries.len(),
    ensures
        names_by_speaker(entries).contains_key(entries[i].0@),
        names_by_speaker(entries)[entries[i].0@] == entries[i].1@,
{
}

proof fn lemma_push_names(entries: Seq<(String, String)>, e: (String, String))
    requires
        one_entry_each(entries),
        !names_speaker(entries, e.0@),
    ensures
        one_entry_each(entries.push(e)),
        names_by_speaker(entries.push(e)) == names_by_speaker(entries).insert(e.0@, e.1@),
{
    let more = entries.push(e);
    assert(one_entry_each(more));
    assert(more[entries.len() as int] == e);
    assert forall|k: Seq<char>|
        names_by_speaker(more).contains_key(k) <==> names_by_speaker(entries).insert(
            e.0@,
            e.1@,
        ).contains_key(k) by {
        if names_speaker(entries, k) {
            let i = choose|i: int| 0 <= i < entries.len() && (#[trigger] entries[i]).0@ == k;
            assert(more[i].0@ == k);
        }
    }
    assert forall|k: Seq<char>| names_by_speaker(more).contains_key(k) implies names_by_speaker(
        more,
    )[k] == names_by_speaker(entries).insert(e.0@, e.1@)[k] by {
        let i = choose|i: int| 0 <= i < more.len() && (#[trigger] more[i]).0@ == k;
        lemma_name_of_entry(more, i);
        if i < entries.len() {
            assert(entries[i] == more[i]);
            lemma_name_of_entry(entries, i);
        }
    }
    assert(names_by_speaker(more) =~= names_by_speaker(entries).insert(e.0@, e.1@));
}

proof fn lemma_remove_names(entries: Seq<(String, String)>, i: int)
    requires
        one_entry_each(entries),
        0 <= i < entries.len(),
    ensures
        one_entry_each(entries.remove(i)),
        !names_speaker(entries.remove(i), entries[i].0@),
        names_by_speaker(entries.remove(i)) == names_by_speaker(entries).remove(entries[i].0@),
{
    let fewer = entries.remove(i);
    let gone = entries[i].0@;
    assert forall|j: int| 0 <= j < fewer.len() implies (#[trigger] fewer[j]) == entries[if j < i {
        j
    } else {
        j + 1
    }] by {}
    assert(one_entry_each(fewer));
    assert forall|k: Seq<char>|
        names_by_speaker(fewer).contains_key(k) <==> names_by_speaker(entries).remove(
            gone,
        ).contains_key(k) by {
        if names_speaker(entries, k) && k != gone {
            let j = choose|j: int| 0 <= j < entries.len() && (#[trigger] entries[j]).0@ == k;
            let m = if j < i { j } else { j - 1 };
            assert(fewer[m].0@ == k);
        }
        if names_speaker(fewer, k) {
            let j = choose|j: int| 0 <= j < fewer.len() && (#[trigger] fewer[j]).0@ == k;
            assert(entries[if j < i { j } else { j + 1 }].0@ == k);
        }
    }
    assert forall|k: Seq<char>| names_by_speaker(fewer).contains_key(k) implies names_by_speaker(
        fewer,
    )[k] == names_by_speaker(entries).remove(gone)[k] by {
        let j = choose|j: int| 0 <= j < fewer.len() && (#[trigger] fewer[j]).0@ == k;
        lemma_name_of_entry(fewer, j);
        lemma_name_of_entry(entries, if j < i { j } else { j + 1 });
    }
    assert(names_by_speaker(fewer) =~= names_by_speaker(entries).remove(gone));
}

impl SpeakerNames {
    #[verifier::type_invariant]
    spec fn well_formed(self) -> bool {
        one_entry_each(self.entries@)
    }

    /// No names.
    pub fn new() -> (r: SpeakerNames)
        ensures
            r@ == Map::<Seq<char>, Seq<char>>::empty(),
    {
        let r = SpeakerNames { entries: Vec::new() };
        assert(r@ =~= Map::<Seq<char>, Seq<char>>::empty());
        r
    }

    /// Gives a speaker a name, in place of any earlier one.
    pub fn insert(&mut self, speaker: String, name: String)
        ensures
            final(self)@ == old(self)@.insert(speaker@, name@),
    {
        proof {
            use_type_invariant(&*self);
        }
        let mut entries: Vec<(String, String)> = Vec::new();
        std::mem::swap(&mut entries, &mut self.entries);
        let ghost before = entries@;
        let mut i: usize = 0;
        while i < entries.len()
            invariant
                i <= entries@.len(),
                entries@ == before,
                forall|j: int| 0 <= j < i ==> (#[trigger] entries@[j]).0@ != speaker@,
            ensures
                i <= entries@.len(),
                entries@ == before,
                forall|j: int| 0 <= j < i ==> (#[trigger] entries@[j]).0@ != speaker@,
                i < entries@.len() ==> entries@[i as int].0@ == speaker@,
            decreases entries.len() - i,
        {
            if entries[i].0 == speaker {
                break;
            }
            i = i + 1;
        }
        if i < entries.len() {
            proof {
                lemma_remove_names(before, i as int);
            }
            entries.remove(i);
        }
        proof {
            lemma_push_names(entries@, (speaker, name));
            assert(names_by_speaker(entries@).insert(speaker@, name@) =~= names_by_speaker(
                before,
            ).insert(speaker@, name@));
        }
        entries.push((speaker, name));
        self.entries = entries;
    }

    /// Whether there are no names.
    pub fn is_empty(&self) -> (r: bool)
        ensures
            r == (self@ == Map::<Seq<char>, Seq<char>>::empty()),
    {
        proof {
            use_type_invariant(self);
            if self.entries@.len() > 0 {
                lemma_name_of_entry(self.entries@, 0);
            } else {
                assert(self@ =~= Map::<Seq<char>, Seq<char>>::empty());
            }
        }
        self.entries.len() == 0
    }

    /// The name of a speaker.
    pub fn get(&self, speaker: &str) -> (r: Option<&String>)
        ensures
            r is Some <==> self@.contains_key(speaker@),
            r matches Some(name) ==> name@ == self@[speaker@],
    {
        proof {
            use_type_invariant(self);
        }
        let mut i: usize = 0;
        while i < self.entries.len()
            invariant
                i <= self.entries@.len(),
                one_entry_each(self.entries@),
                forall|j: int| 0 <= j < i ==> (#[trigger] self.entries@[j]).0@ != speaker@,
            decreases self.entries.len() - i,
        {
            if text::same_text(self.entries[i].0.as_str(), speaker) {
                proof {
                    lemma_name_of_entry(self.entries@, i as int);
                }
                return Some(&self.entries[i].1);
            }
            i = i + 1;
        }
        None
    }

    /// The speakers with their names, each speaker once.
    pub fn to_vec(&self) -> (r: Vec<(String, String)>)
        ensures
            one_entry_each(r@),
            self@ == names_by_speaker(r@),
    {
        proof {
            use_type_invariant(self);
        }
        let mut r: Vec<(String, String)> = Vec::new();
        let mut i: usize = 0;
        while i < self.entries.len()
            invariant
                i <= self.entries@.len(),
                r@ == self.entries@.take(i as int),
            decreases self.entries.len() - i,
        {
            r.push((self.entries[i].0.clone(), self.entries[i].1.clone()));
            i = i + 1;
        }
        proof {
            assert(r@ =~= self.entries@);
        }
        r
    }
}

/// The members of an object that are texts.
pub open spec fn text_members(o: Map<Seq<char>, Json>) -> Map<Seq<char>, Seq<char>> {
    Map::new(|k: Seq<char>| o.contains_key(k) && o[k] is Text, |k: Seq<char>| o[k]->Text_0)
}

/// The speaker names in a metadata document: the text members of its member
/// "speakers", if that is an object with any.
pub open spec fn names_in(j: Json) -> Option<Map<Seq<char>, Seq<char>>> {
    match j {
        Json::Object(m) => if m.contains_key("speakers"@) {
            match m["speakers"@] {
                Json::Object(o) => if text_members(o) == Map::<Seq<char>, Seq<char>>::empty() {
                    None
                } else {
                    Some(text_members(o))
                },
                _ => None,
            }
        } else {
            None
        },
        _ => None,
    }
}

/// The speaker names in a metadata text, if there is one that can be read.
pub open spec fn names_in_text(metadata: Option<Seq<char>>) -> Option<Map<Seq<char>, Seq<char>>> {
    match metadata {
        Some(t) => match json::read_document(t) {
            Some(j) => names_in(j),
            None => None,
        },
        None => None,
    }
}

/// The names of a speaker map that may be absent.
pub open spec fn names_view(names: Option<SpeakerNames>) -> Option<Map<Seq<char>, Seq<char>>> {
    match names {
        Some(n) => Some(n@),
        None => None,
    }
}

/// What an optional text says.
pub open spec fn text_view(t: Option<String>) -> Option<Seq<char>> {
    match t {
        Some(s) => Some(s@),
        None => None,
    }
}

/// Metadata that is short enough to be read.
pub open spec fn readable_metadata(metadata: Option<Seq<char>>) -> bool {
    metadata matches Some(t) ==> json::readable_length(t)
}

/// The text members of an object.
fn collect_texts(o: &serde_json::Map<String, serde_json::Value>) -> (r: SpeakerNames)
    requires
        json::within_depth(Json::Object(json::members(*o)), json::MAX_DEPTH as nat),
    ensures
        r@ == text_members(json::members(*o)),
{
    let all: Vec<(String, serde_json::Value)> = json::entries(o);
    let ghost m = json::members(*o);
    let mut names = SpeakerNames::new();
    let mut i: usize = 0;
    while i < all.len()
        invariant
            i <= all@.len(),
            m == json::members(*o),
            forall|a: int, b: int|
                0 <= a < b < all@.len() ==> (#[trigger] all@[a]).0@ != (#[trigger] all@[b]).0@,
            forall|a: int|
                0 <= a < all@.len() ==> m.contains_key((#[trigger] all@[a]).0@) && m[all@[a].0@]
                    == json::document(all@[a].1),
            forall|k: Seq<char>| #[trigger]
                names@.contains_key(k) <==> exists|a: int|
                    0 <= a < i && (#[trigger] all@[a]).0@ == k && m[k] is Text,
            forall|k: Seq<char>| #[trigger] names@.contains_key(k) ==> names@[k] == m[k]->Text_0,
        decreases all.len() - i,
    {
        let ghost before = names@;
        let key: &String = &all[i].0;
        let value: Option<&str> = all[i].1.as_str();
        match value {
            Some(s) => {
                names.insert(key.clone(), s.to_owned());
            },
            None => {},
        }
        proof {
            assert(all@[i as int].0@ == key@);
            assert forall|k: Seq<char>| #[trigger] names@.contains_key(k) implies exists|a: int|
                0 <= a < i + 1 && (#[trigger] all@[a]).0@ == k && m[k] is Text by {
                if k == key@ && m[k] is Text {
                    assert(all@[i as int].0@ == k);
                } else {
                    assert(before.contains_key(k));
                    let a = choose|a: int|
                        0 <= a < i && (#[trigger] all@[a]).0@ == k && m[k] is Text;
                    assert(all@[a].0@ == k);
                }
            }
            assert forall|k: Seq<char>|
                (exists|a: int|
                    0 <= a < i + 1 && (#[trigger] all@[a]).0@ == k && m[k] is Text) implies #[trigger] names@.contains_key(
                k,
            ) by {
                let a = choose|a: int|
                    0 <= a < i + 1 && (#[trigger] all@[a]).0@ == k && m[k] is Text;
                if a < i {
                    assert(before.contains_key(k));
                }
            }
        }
        i = i + 1;
    }
    proof {
        assert forall|k: Seq<char>|
            names@.contains_key(k) <==> text_members(m).contains_key(k) by {
            if m.contains_key(k) {
                let a = choose|a: int| 0 <= a < all@.len() && (#[trigger] all@[a]).0@ == k;
                assert(all@[a].0@ == k);
            }
        }
        assert(names@ =~= text_members(m));
    }
    names
}

/// The speaker names in a metadata document.
pub fn speaker_names_in(metadata: &serde_json::Value) -> (r: Option<SpeakerNames>)
    requires
        json::within_depth(json::document(*metadata), json::MAX_DEPTH as nat),
    ensures
        names_view(r) == names_in(json::document(*metadata)),
{
    match json::get(metadata, "speakers") {
        Some(speakers) => match speakers.as_object() {
            Some(o) => {
                proof {
                    let m = json::document(*metadata)->Object_0;
                    let levels = json::MAX_DEPTH as nat;
                    assert(json::within_depth(m["speakers"@], (levels - 1) as nat));
                    json::depth_can_be_exceeded(m["speakers"@], (levels - 1) as nat, levels);
                }
                let names = collect_texts(o);
                if names.is_empty() {
                    None
                } else {
                    Some(names)
                }
            },
            None => None,
        },
        None => None,
    }
}

/// Parse speaker name mappings from meeting metadata JSON.
///
/// Expected format: `{"speakers": {"SPEAKER_00": "Alice", "SPEAKER_01": "Bob"}}`.
/// Returns `None` if there is no metadata, or no name in it.
pub fn parse_speaker_names(metadata: &Option<String>) -> (r: Option<SpeakerNames>)
    requires
        readable_metadata(text_view(*metadata)),
    ensures
        names_view(r) == names_in_text(text_view(*metadata)),
{
    match metadata {
        Some(t) => match json::read(t.as_str()) {
            Some(v) => speaker_names_in(&v),
            None => None,
        },
        None => None,
    }
}

/// What a document says, or the empty object where there is none.
pub open spec fn or_empty(j: Option<Json>) -> Json {
    match j {
        Some(v) => v,
        None => Json::Object(json::no_members()),
    }
}

/// The document `existing` with the members of `new` put into it, if both are
/// objects; else `existing`.
pub open spec fn merged(existing: Json, new: Json) -> Json {
    match (existing, new) {
        (Json::Object(e), Json::Object(n)) => Json::Object(e.union_prefer_right(n)),
        _ => existing,
    }
}

/// The document that the metadata say after `new` has been merged into
/// `existing`.
pub open spec fn merged_document(existing: Seq<char>, new: Seq<char>) -> Json {
    merged(or_empty(json::read_document(existing)), or_empty(json::read_document(new)))
}

/// The metadata to store when `new` is saved over `existing`.
pub open spec fn merged_text(existing: Option<Seq<char>>, new: Seq<char>) -> Seq<char> {
    match existing {
        Some(e) => json::written_document(merged_document(e, new)),
        None => new,
    }
}

proof fn lemma_merged_depth(existing: Json, new: Json, levels: nat)
    requires
        json::within_depth(existing, levels),
        json::within_depth(new, levels),
    ensures
        json::within_depth(merged(existing, new), levels),
{
    match (existing, new) {
        (Json::Object(e), Json::Object(n)) => {
            let u = e.union_prefer_right(n);
            assert forall|k: Seq<char>| u.contains_key(k) implies json::within_depth(
                #[trigger] u[k],
                (levels - 1) as nat,
            ) by {
                if n.contains_key(k) {
                    assert(json::within_depth(n[k], (levels - 1) as nat));
                } else {
                    assert(json::within_depth(e[k], (levels - 1) as nat));
                }
            }
        },
        _ => {},
    }
}

/// Puts the members of one document into another, if both are objects.
pub fn merge_documents(existing: serde_json::Value, new: serde_json::Value) -> (r:
    serde_json::Value)
    requires
        json::within_depth(json::document(new), json::MAX_DEPTH as nat),
    ensures
        json::document(r) == merged(json::document(existing), json::document(new)),
{
    match json::into_object(existing) {
        Ok(target) => {
            let mut target = target;
            let ghost e = json::members(target);
            match new.as_object() {
                Some(source) => {
                    let ghost n = json::members(*source);
                    let all: Vec<(String, serde_json::Value)> = json::entries(source);
                    insert_all(&mut target, all, Ghost(n));
                },
                None => {},
            }
            json::object_document(target)
        },
        Err(other) => other,
    }
}

/// Inserts the given members one after the other.
fn insert_all(
    target: &mut serde_json::Map<String, serde_json::Value>,
    all: Vec<(String, serde_json::Value)>,
    Ghost(n): Ghost<Map<Seq<char>, Json>>,
)
    requires
        forall|a: int, b: int|
            0 <= a < b < all@.len() ==> (#[trigger] all@[a]).0@ != (#[trigger] all@[b]).0@,
        forall|a: int|
            0 <= a < all@.len() ==> n.contains_key((#[trigger] all@[a]).0@) && n[all@[a].0@]
                == json::document(all@[a].1),
        forall|k: Seq<char>| #[trigger]
            n.contains_key(k) ==> exists|i: int| 0 <= i < all@.len() && #[trigger] all@[i].0@ == k,
    ensures
        json::members(*final(target)) == json::members(*old(target)).union_prefer_right(n),
{
    let ghost e = json::members(*target);
    let ghost given = all@;
    let mut rest = all;
    while rest.len() > 0
        invariant
            rest@.len() <= given.len(),
            rest@ == given.take(rest@.len() as int),
            forall|a: int, b: int|
                0 <= a < b < given.len() ==> (#[trigger] given[a]).0@ != (#[trigger] given[b]).0@,
            forall|a: int|
                0 <= a < given.len() ==> n.contains_key((#[trigger] given[a]).0@)
                    && n[given[a].0@] == json::document(given[a].1),
            forall|k: Seq<char>| #[trigger]
                json::members(*target).contains_key(k) <==> e.contains_key(k) || exists|a: int|
                    rest@.len() <= a < given.len() && (#[trigger] given[a]).0@ == k,
            forall|a: int|
                rest@.len() <= a < given.len() ==> json::members(*target)[(
                #[trigger] given[a]).0@] == n[given[a].0@],
            forall|k: Seq<char>|
                e.contains_key(k) && (forall|a: int|
                    rest@.len() <= a < given.len() ==> (#[trigger] given[a]).0@ != k)
                    ==> #[trigger] json::members(*target)[k] == e[k],
        decreases rest.len(),
    {
        let ghost before = json::members(*target);
        let ghost i = rest@.len() - 1;
        let last: Option<(String, serde_json::Value)> = rest.pop();
        match last {
            Some((k, v)) => {
                proof {
                    assert(given[i] == (k, v));
                }
                let _ = target.insert(k, v);
                proof {
                    assert(json::members(*target) == before.insert(k@, json::document(v)));
                    assert(given[i].0@ == k@);
                }
            },
            None => {},
        }
    }
    proof {
        let u = e.union_prefer_right(n);
        let t = json::members(*target);
        assert forall|k: Seq<char>| t.contains_key(k) <==> u.contains_key(k) by {
            if n.contains_key(k) {
                let a = choose|a: int| 0 <= a < given.len() && (#[trigger] given[a]).0@ == k;
                assert(given[a].0@ == k);
            }
        }
        assert forall|k: Seq<char>| t.contains_key(k) implies t[k] == u[k] by {
            if n.contains_key(k) {
                let a = choose|a: int| 0 <= a < given.len() && (#[trigger] given[a]).0@ == k;
                assert(given[a].0@ == k);
            }
        }
        assert(t =~= u);
    }
}

/// Reads a metadata text, with the empty object where it cannot be read.
fn read_or_empty(t: &str) -> (r: serde_json::Value)
    requires
        json::readable_length(t@),
    ensures
        json::document(r) == or_empty(json::read_document(t@)),
        json::within_depth(json::document(r), json::MAX_DEPTH as nat),
{
    match json::read(t) {
        Some(v) => v,
        None => json::object_document(serde_json::Map::new()),
    }
}

/// Whether `stored` can be read again as what saving `new` over `existing`
/// stores.
pub open spec fn holds_merged(
    existing: Option<Seq<char>>,
    new: Seq<char>,
    stored: Seq<char>,
) -> bool {
    match existing {
        Some(e) => json::read_document(stored) is Some && json::agree(
            merged_document(e, new),
            json::read_document(stored)->0,
            json::MAX_DEPTH as nat,
        ),
        None => stored == new,
    }
}

/// The metadata to store when `metadata_json` is saved over what is stored:
/// members of the same name are replaced, the others are kept.
pub fn merge_metadata(existing: &Option<String>, metadata_json: &str) -> (r: String)
    requires
        readable_metadata(text_view(*existing)),
        json::readable_length(metadata_json@),
    ensures
        r@ == merged_text(text_view(*existing), metadata_json@),
        holds_merged(text_view(*existing), metadata_json@, r@),
{
    match existing {
        Some(e) => {
            let old_map = read_or_empty(e.as_str());
            let new_map = read_or_empty(metadata_json);
            proof {
                lemma_merged_depth(
                    json::document(old_map),
                    json::document(new_map),
                    json::MAX_DEPTH as nat,
                );
            }
            json::write(&merge_documents(old_map, new_map))
        },
        None => metadata_json.to_owned(),
    }
}

/// An object of texts.
pub open spec fn text_object(names: Map<Seq<char>, Seq<char>>) -> Map<Seq<char>, Json> {
    names.map_values(|v: Seq<char>| Json::Text(v))
}

/// The metadata document that holds the given speaker names and nothing else.
pub open spec fn speakers_document(names: Map<Seq<char>, Seq<char>>) -> Json {
    Json::Object(json::no_members().insert("speakers"@, Json::Object(text_object(names))))
}

/// What agrees with a document of speaker names is that document.
proof fn lemma_agree_speakers(names: Map<Seq<char>, Seq<char>>, j: Json, levels: nat)
    requires
        json::agree(speakers_document(names), j, levels),
        levels >= 2,
    ensures
        j == speakers_document(names),
{
    let d = speakers_document(names);
    let m = d->Object_0;
    let k = "speakers"@;
    assert(m.contains_key(k));
    let x = j->Object_0;
    assert(json::agree(m[k], x[k], (levels - 1) as nat));
    let o = m[k]->Object_0;
    let y = x[k]->Object_0;
    assert(o =~= y) by {
        assert forall|s: Seq<char>| o.contains_key(s) implies o[s] == y[s] by {
            assert(json::agree(o[s], y[s], (levels - 2) as nat));
        }
    }
    assert(m =~= x);
}

/// The names put into a document.
pub fn speakers_value(names: &SpeakerNames) -> (r: serde_json::Value)
    ensures
        json::document(r) == speakers_document(names@),
{
    let all: Vec<(String, String)> = names.to_vec();
    let mut inner: serde_json::Map<String, serde_json::Value> = serde_json::Map::new();
    let mut i: usize = 0;
    proof {
        assert(json::members(inner) =~= text_object(names_by_speaker(all@.take(0))));
    }
    while i < all.len()
        invariant
            i <= all@.len(),
            one_entry_each(all@),
            json::members(inner) == text_object(names_by_speaker(all@.take(i as int))),
        decreases all.len() - i,
    {
        proof {
            let done = all@.take(i as int);
            let e = all@[i as int];
            if names_speaker(done, e.0@) {
                let a = choose|a: int| 0 <= a < done.len() && (#[trigger] done[a]).0@ == e.0@;
                assert(all@[a].0@ == all@[i as int].0@);
            }
            assert(one_entry_each(done)) by {
                assert forall|a: int, b: int| 0 <= a < b < done.len() implies (
                #[trigger] done[a]).0@ != (#[trigger] done[b]).0@ by {
                    assert(all@[a].0@ != all@[b].0@);
                }
            }
            lemma_push_names(done, e);
            assert(all@.take(i + 1) =~= done.push(e));
            assert(text_object(names_by_speaker(all@.take(i + 1))) =~= text_object(
                names_by_speaker(done),
            ).insert(e.0@, Json::Text(e.1@)));
        }
        let _ = inner.insert(all[i].0.clone(), json::text_document(all[i].1.clone()));
        i = i + 1;
    }
    proof {
        assert(all@.take(i as int) =~= all@);
    }
    let mut outer: serde_json::Map<String, serde_json::Value> = serde_json::Map::new();
    let _ = outer.insert("speakers".to_owned(), json::object_document(inner));
    json::object_document(outer)
}

/// The metadata text that holds the given speaker names and nothing else.
pub fn speakers_metadata(names: &SpeakerNames) -> (r: String)
    ensures
        r@ == json::written_document(speakers_document(names@)),
        json::read_document(r@) == Some(speakers_document(names@)),
{
    let v = speakers_value(names);
    proof {
        let d = speakers_document(names@);
        let m = d->Object_0;
        assert forall|k: Seq<char>| m.contains_key(k) implies json::within_depth(
            #[trigger] m[k],
            (json::MAX_DEPTH - 1) as nat,
        ) by {
            let o = m[k]->Object_0;
            assert forall|s: Seq<char>| o.contains_key(s) implies json::within_depth(
                #[trigger] o[s],
                (json::MAX_DEPTH - 2) as nat,
            ) by {}
        }
    }
    let r = json::write(&v);
    proof {
        lemma_agree_speakers(names@, json::read_document(r@)->0, json::MAX_DEPTH as nat);
    }
    r
}

/// Speaker names that were saved are what is read: where `new` says the names
/// and nothing else, and `stored` is what saving it over `existing` stores, the
/// names in `stored` are the saved ones, if there are any. Left out is stored
/// metadata that is a JSON document other than an object, which saving does
/// not change.
pub proof fn saved_names_are_read_back(
    names: Map<Seq<char>, Seq<char>>,
    existing: Option<Seq<char>>,
    new: Seq<char>,
    stored: Seq<char>,
)
    requires
        json::read_document(new) == Some(speakers_document(names)),
        existing matches Some(e) ==> or_empty(json::read_document(e)) is Object,
        holds_merged(existing, new, stored),
    ensures
        names_in_text(Some(stored)) == (if names == Map::<Seq<char>, Seq<char>>::empty() {
            None
        } else {
            Some(names)
        }),
{
    let k = "speakers"@;
    let levels = json::MAX_DEPTH as nat;
    let j = json::read_document(stored)->0;
    let inner = text_object(names);
    assert(j->Object_0[k] == Json::Object(inner)) by {
        if existing is Some {
            let d = merged_document(existing->0, new)->Object_0;
            assert(d.contains_key(k));
            assert(d[k] == Json::Object(inner));
            let x = j->Object_0;
            assert(json::agree(d[k], x[k], (levels - 1) as nat));
            let y = x[k]->Object_0;
            assert(inner =~= y) by {
                assert forall|s: Seq<char>| inner.contains_key(s) implies inner[s] == y[s] by {
                    assert(json::agree(inner[s], y[s], (levels - 2) as nat));
                }
            }
        }
    }
    assert(j->Object_0.contains_key(k));
    assert(text_members(inner) =~= names);
}

/// Merging keeps the members that the new metadata do not name.
pub proof fn merging_keeps_other_members(existing: Json, new: Json, k: Seq<char>)
    requires
        existing is Object,
        new matches Json::Object(n) ==> !n.contains_key(k),
    ensures
        merged(existing, new) is Object,
        merged(existing, new)->Object_0.contains_key(k) == existing->Object_0.contains_key(k),
        existing->Object_0.contains_key(k) ==> merged(existing, new)->Object_0[k]
            == existing->Object_0[k],
{
}

/// After a merge of two objects, every member of the new one is in the result
/// as the new one has it.
pub proof fn merging_takes_new_members(existing: Json, new: Json, k: Seq<char>)
    requires
        existing is Object,
        new is Object,
        new->Object_0.contains_key(k),
    ensures
        merged(existing, new) is Object,
        merged(existing, new)->Object_0.contains_key(k),
        merged(existing, new)->Object_0[k] == new->Object_0[k],
{
}

/// Saving the same metadata again changes nothing.
pub proof fn merging_again_changes_nothing(existing: Json, new: Json)
    ensures
        merged(merged(existing, new), new) == merged(existing, new),
{
    if existing is Object && new is Object {
        let e = existing->Object_0;
        let n = new->Object_0;
        assert(e.union_prefer_right(n).union_prefer_right(n) =~= e.union_prefer_right(n));
    }
}

/// The members of a document that can be read, with none where it cannot.
pub open spec fn members_read(text: Seq<char>) -> Map<Seq<char>, Json> {
    match json::read_document(text) {
        Some(Json::Object(m)) => m,
        _ => Map::empty(),
    }
}

/// Whether a text is read as a document other than an object.
pub open spec fn read_as_no_object(text: Seq<char>) -> bool {
    json::read_document(text) matches Some(j) && !(j is Object)
}

/// What is stored when metadata are saved over stored ones, read again: every
/// member of the new metadata, every other member of those stored before, and
/// nothing else. Metadata that cannot be read count as having no members. Where
/// a document other than an object was stored, it stays.
pub proof fn saving_adds_to_what_is_stored(existing: Seq<char>, new: Seq<char>, stored: Seq<char>)
    requires
        holds_merged(Some(existing), new, stored),
    ensures
        !read_as_no_object(existing) ==> (json::read_document(stored) matches Some(Json::Object(z))
            && forall|k: Seq<char>|
            {
                let levels = (json::MAX_DEPTH - 1) as nat;
                &&& #[trigger] z.contains_key(k) <==> members_read(existing).contains_key(k)
                    || members_read(new).contains_key(k)
                &&& members_read(new).contains_key(k) ==> json::agree(
                    members_read(new)[k],
                    z[k],
                    levels,
                )
                &&& members_read(existing).contains_key(k) && !members_read(new).contains_key(k)
                    ==> json::agree(members_read(existing)[k], z[k], levels)
            }),
        read_as_no_object(existing) ==> json::read_document(stored) is Some && json::agree(
            json::read_document(existing)->0,
            json::read_document(stored)->0,
            json::MAX_DEPTH as nat,
        ),
{
    if !read_as_no_object(existing) {
        let levels = (json::MAX_DEPTH - 1) as nat;
        let d = merged_document(existing, new);
        let u = d->Object_0;
        let z = json::read_document(stored)->0->Object_0;
        let (x, y) = (members_read(existing), members_read(new));
        assert(x.union_prefer_right(Map::<Seq<char>, Json>::empty()) =~= x);
        assert(u == x.union_prefer_right(y));
        assert forall|k: Seq<char>|
            {
                &&& #[trigger] z.contains_key(k) <==> x.contains_key(k) || y.contains_key(k)
                &&& y.contains_key(k) ==> json::agree(y[k], z[k], levels)
                &&& x.contains_key(k) && !y.contains_key(k) ==> json::agree(x[k], z[k], levels)
            } by {
            assert(u.dom() == z.dom());
            assert(z.contains_key(k) == u.contains_key(k));
            if u.contains_key(k) {
                assert(json::agree(u[k], z[k], levels));
            }
        }
    }
}

/// Where nothing was stored, the new metadata are stored as they are, whatever
/// they say.
pub proof fn the_first_metadata_are_stored_as_they_are(new: Seq<char>, stored: Seq<char>)
    requires
        holds_merged(None, new, stored),
    ensures
        stored == new,
        merged_text(None, new) == new,
{
}

/// The names in a metadata text are exactly the texts among the members of its
/// member "speakers"; without any there are no names.
pub proof fn names_are_the_texts_among_the_speakers(
    text: Seq<char>,
    m: Map<Seq<char>, Json>,
    o: Map<Seq<char>, Json>,
)
    requires
        json::read_document(text) == Some(Json::Object(m)),
        m.contains_key("speakers"@),
        m["speakers"@] == Json::Object(o),
    ensures
        names_in_text(Some(text)) is None <==> forall|k: Seq<char>|
            o.contains_key(k) ==> !(#[trigger] o[k] is Text),
        names_in_text(Some(text)) matches Some(names) ==> forall|k: Seq<char>, v: Seq<char>|
            (#[trigger] names.contains_pair(k, v)) <==> o.contains_pair(k, Json::Text(v)),
{
    let t = text_members(o);
    if names_in_text(Some(text)) is None {
        assert forall|k: Seq<char>| o.contains_key(k) implies !(#[trigger] o[k] is Text) by {
            if o[k] is Text {
                assert(t.contains_key(k));
            }
        }
    } else {
        if forall|k: Seq<char>| o.contains_key(k) ==> !(#[trigger] o[k] is Text) {
            assert(t =~= Map::empty());
        }
    }
}

/// There are no names without metadata, nor in metadata that cannot be read, are
/// no object, have no member "speakers", or have one that is no object.
pub proof fn without_speakers_there_are_no_names(text: Seq<char>)
    ensures
        names_in_text(None) is None,
        !members_read(text).contains_key("speakers"@) ==> names_in_text(Some(text)) is None,
        !(members_read(text)["speakers"@] is Object) ==> names_in_text(Some(text)) is None,
{
}

/// The metadata of names hold one member, "speakers", which holds the name of
/// every speaker and nothing else.
pub proof fn metadata_of_names_hold_the_names(names: Map<Seq<char>, Seq<char>>)
    ensures
        speakers_document(names) matches Json::Object(m) && {
            &&& forall|k: Seq<char>| #[trigger] m.contains_key(k) <==> k == "speakers"@
            &&& m["speakers"@] is Object
            &&& forall|k: Seq<char>, v: Seq<char>|
                (#[trigger] m["speakers"@]->Object_0.contains_pair(k, Json::Text(v)))
                    <==> names.contains_pair(k, v)
            &&& forall|k: Seq<char>| #[trigger]
                m["speakers"@]->Object_0.contains_key(k) ==> m["speakers"@]->Object_0[k] is Text
        },
{
}

/// Entries with one for each speaker give each speaker the name in the entry,
/// and name nobody else.
pub proof fn entries_name_their_speakers(entries: Seq<(String, String)>)
    requires
        one_entry_each(entries),
    ensures
        forall|i: int|
            0 <= i < entries.len() ==> names_by_speaker(entries).contains_pair(
                (#[trigger] entries[i]).0@,
                entries[i].1@,
            ),
        forall|k: Seq<char>| #[trigger]
            names_by_speaker(entries).contains_key(k) ==> exists|i: int|
                0 <= i < entries.len() && (#[trigger] entries[i]).0@ == k,
{
    assert forall|i: int| 0 <= i < entries.len() implies names_by_speaker(entries).contains_pair(
        (#[trigger] entries[i]).0@,
        entries[i].1@,
    ) by {
        lemma_name_of_entry(entries, i);
    }
}

/// What an optional text says is what the text says.
pub proof fn an_optional_text_is_seen(t: String)
    ensures
        text_view(Some(t)) == Some(t@),
        text_view(None) is None,
{
}

} // verus!
