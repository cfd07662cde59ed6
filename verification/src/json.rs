//! JSON documents, as `serde_json` reads, holds and writes them.

use vstd::prelude::*;

verus! {

/// What a JSON document says. A number is known by its notation.
pub enum Json {
    Null,
    Bool(bool),
    Number(Seq<char>),
    Text(Seq<char>),
    Array(Seq<Json>),
    Object(Map<Seq<char>, Json>),
}

/// Arrays and objects inside one another, at most this many, are read.
pub const MAX_DEPTH: u32 = 127;

/// Longer documents are not read.
pub const MAX_LENGTH: usize = 0x7fff_ffff;

/// A text short enough to be read as a JSON document.
pub open spec fn readable_length(text: Seq<char>) -> bool {
    text.len() <= MAX_LENGTH
}

/// Whether a text is short enough to be read as a JSON document.
pub fn is_readable(text: &str) -> (r: bool)
    ensures
        r == readable_length(text@),
{
    text.unicode_len() <= MAX_LENGTH
}

/// Whether no more than `levels` arrays and objects lie inside one another.
pub open spec fn within_depth(j: Json, levels: nat) -> bool
    decreases levels,
{
    match j {
        Json::Array(items) => levels > 0 && forall|i: int|
            0 <= i < items.len() ==> within_depth(#[trigger] items[i], (levels - 1) as nat),
        Json::Object(members) => levels > 0 && forall|k: Seq<char>|
            members.contains_key(k) ==> within_depth(#[trigger] members[k], (levels - 1) as nat),
        _ => true,
    }
}

/// What lies within some levels lies within more.
pub proof fn depth_can_be_exceeded(j: Json, levels: nat, more: nat)
    requires
        within_depth(j, levels),
        levels <= more,
    ensures
        within_depth(j, more),
    decreases levels,
{
    match j {
        Json::Array(items) => {
            assert forall|i: int| 0 <= i < items.len() implies within_depth(
                #[trigger] items[i],
                (more - 1) as nat,
            ) by {
                depth_can_be_exceeded(items[i], (levels - 1) as nat, (more - 1) as nat);
            }
        },
        Json::Object(members) => {
            assert forall|k: Seq<char>| members.contains_key(k) implies within_depth(
                #[trigger] members[k],
                (more - 1) as nat,
            ) by {
                depth_can_be_exceeded(members[k], (levels - 1) as nat, (more - 1) as nat);
            }
        },
        _ => {},
    }
}

/// Whether a number is written with a sign and digits only.
pub open spec fn whole(notation: Seq<char>) -> bool {
    forall|i: int|
        0 <= i < notation.len() ==> (#[trigger] notation[i]) == '-' || '0' <= notation[i] <= '9'
}

/// Whether two documents say the same down to `levels` levels, apart from the
/// notation of numbers with a fraction or an exponent.
pub open spec fn agree(a: Json, b: Json, levels: nat) -> bool
    decreases levels,
{
    match (a, b) {
        (Json::Number(x), Json::Number(y)) => whole(x) ==> x == y,
        (Json::Array(x), Json::Array(y)) => {
            &&& x.len() == y.len()
            &&& levels > 0 ==> forall|i: int|
                0 <= i < x.len() ==> agree(#[trigger] x[i], y[i], (levels - 1) as nat)
        },
        (Json::Object(x), Json::Object(y)) => {
            &&& x.dom() == y.dom()
            &&& levels > 0 ==> forall|k: Seq<char>|
                x.contains_key(k) ==> agree(#[trigger] x[k], y[k], (levels - 1) as nat)
        },
        (x, y) => x == y,
    }
}

/// The members of the empty object.
pub open spec fn no_members() -> Map<Seq<char>, Json> {
    Map::empty()
}

/// A JSON document in memory.
#[verifier::external_type_specification]
#[verifier::external_body]
pub struct ExValue(serde_json::Value);

/// The members of a JSON object in memory.
#[verifier::external_type_specification]
#[verifier::external_body]
#[verifier::reject_recursive_types(K)]
#[verifier::reject_recursive_types(V)]
pub struct ExObject<K, V>(serde_json::Map<K, V>);

/// What a document in memory says.
pub uninterp spec fn document(v: serde_json::Value) -> Json;

/// What the members of an object in memory are.
pub uninterp spec fn members(m: serde_json::Map<String, serde_json::Value>) -> Map<
    Seq<char>,
    Json,
>;

/// What `serde_json::from_str` reads in a text: a document, or `None` where it
/// reports an error.
pub uninterp spec fn read_document(text: Seq<char>) -> Option<Json>;

/// What a document looks like as compact text.
pub uninterp spec fn written_document(j: Json) -> Seq<char>;

/// `serde_json::from_str`, the error dropped. What it makes of a text depends
/// on the text alone, and a document that it reads is at most `MAX_DEPTH` deep.
/// Texts with a number of more than two thousand million digits, on which its
/// digit counter overflows, are left out.
///
/// This holds of `serde_json` without its feature `raw_value`, which has an
/// object with a certain key read by a `from_str` of its own, to a depth of its
/// own. No dependency of this crate turns that feature on; `sqlx` does by its
/// default features, which are off for that.
#[verifier::external_body]
pub(crate) fn read(text: &str) -> (r: Option<serde_json::Value>)
    requires
        readable_length(text@),
    ensures
        r is Some <==> read_document(text@) is Some,
        r matches Some(v) ==> read_document(text@) == Some(document(v)) && within_depth(
            document(v),
            MAX_DEPTH as nat,
        ),
{
    serde_json::from_str(text).ok()
}

/// `serde_json::Value::to_string`: the document as compact text, which depends
/// on what it says alone. Read again, the text says the same, except that a
/// number with a fraction or an exponent may come back rounded otherwise.
///
/// This holds of `serde_json` without its features `preserve_order`, by which
/// the text goes by the order of insertion too, and `raw_value` and
/// `arbitrary_precision`, by which an object with a certain key is read as
/// something else. No dependency of this crate turns them on; `sqlx` does turn
/// `raw_value` on by its default features, which are off for that.
#[verifier::external_body]
pub(crate) fn write(v: &serde_json::Value) -> (r: String)
    requires
        within_depth(document(*v), MAX_DEPTH as nat),
    ensures
        r@ == written_document(document(*v)),
        read_document(r@) is Some,
        agree(document(*v), read_document(r@)->0, MAX_DEPTH as nat),
{
    v.to_string()
}

/// `serde_json::Value::get` with a name: that member, if the document is an
/// object that has it.
#[verifier::external_body]
pub(crate) fn get<'a>(v: &'a serde_json::Value, name: &str) -> (r: Option<&'a serde_json::Value>)
    ensures
        r is Some <==> (document(*v) matches Json::Object(m) && m.contains_key(name@)),
        r matches Some(w) ==> document(*v)->Object_0[name@] == document(*w),
{
    v.get(name)
}

/// `serde_json::Value::as_object`: the members, if the document is an object.
pub assume_specification[ serde_json::Value::as_object ](v: &serde_json::Value) -> (r: Option<
    &serde_json::Map<String, serde_json::Value>,
>)
    ensures
        r is Some <==> document(*v) is Object,
        r matches Some(m) ==> document(*v) == Json::Object(members(*m)),
;

/// `serde_json::Value::as_str`: the text, if the document is one.
pub assume_specification[ serde_json::Value::as_str ](v: &serde_json::Value) -> (r: Option<&str>)
    ensures
        r is Some <==> document(*v) is Text,
        r matches Some(s) ==> document(*v) == Json::Text(s@),
;

/// `serde_json::Map::new`: no members.
pub assume_specification[ serde_json::Map::<String, serde_json::Value>::new ]() -> (r:
    serde_json::Map<String, serde_json::Value>)
    ensures
        members(r) == no_members(),
;

/// `serde_json::Map::insert`: the member of that name is now `v`, the others
/// stay; the member that it replaces, if any, is returned.
pub assume_specification[ serde_json::Map::<String, serde_json::Value>::insert ](
    m: &mut serde_json::Map<String, serde_json::Value>,
    k: String,
    v: serde_json::Value,
) -> (r: Option<serde_json::Value>)
    ensures
        members(*final(m)) == members(*old(m)).insert(k@, document(v)),
        r is Some <==> members(*old(m)).contains_key(k@),
        r matches Some(w) ==> members(*old(m))[k@] == document(w),
;

/// `serde_json::Map::iter`: each member once, with its name. The members are
/// copied level by level; more than `MAX_DEPTH` levels are left out.
#[verifier::external_body]
pub(crate) fn entries(m: &serde_json::Map<String, serde_json::Value>) -> (r: Vec<
    (String, serde_json::Value),
>)
    requires
        within_depth(Json::Object(members(*m)), MAX_DEPTH as nat),
    ensures
        forall|i: int, j: int| 0 <= i < j < r@.len() ==> (#[trigger] r@[i]).0@ != (#[trigger] r@[j]).0@,
        forall|i: int|
            0 <= i < r@.len() ==> members(*m).contains_key((#[trigger] r@[i]).0@) && members(
                *m,
            )[r@[i].0@] == document(r@[i].1),
        forall|k: Seq<char>| #[trigger]
            members(*m).contains_key(k) ==> exists|i: int| 0 <= i < r@.len() && #[trigger] r@[i].0@ == k,
{
    m.iter().map(|(k, v)| (k.clone(), v.clone())).collect()
}

/// Tells an object, whose members come out, from any other document.
#[verifier::external_body]
pub(crate) fn into_object(v: serde_json::Value) -> (r: Result<
    serde_json::Map<String, serde_json::Value>,
    serde_json::Value,
>)
    ensures
        r is Ok <==> document(v) is Object,
        r matches Ok(m) ==> document(v) == Json::Object(members(m)),
        r matches Err(w) ==> w == v,
{
    match v {
        serde_json::Value::Object(m) => Ok(m),
        other => Err(other),
    }
}

/// `serde_json::Value::from` on a string.
#[verifier::external_body]
pub(crate) fn text_document(s: String) -> (r: serde_json::Value)
    ensures
        document(r) == Json::Text(s@),
{
    serde_json::Value::from(s)
}

/// `serde_json::Value::from` on the members of an object.
#[verifier::external_body]
pub(crate) fn object_document(m: serde_json::Map<String, serde_json::Value>) -> (r:
    serde_json::Value)
    ensures
        document(r) == Json::Object(members(m)),
{
    serde_json::Value::from(m)
}

/// Texts of up to two thousand million characters and some are read.
pub proof fn long_texts_are_read(text: Seq<char>)
    ensures
        readable_length(text) <==> text.len() <= 2147483647,
{
}

} // verus!
