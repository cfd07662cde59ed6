//! Text: white space, prefixes, order, decimal numbers.

use vstd::prelude::*;

verus! {

/// Whether a character has the Unicode property White_Space.
pub open spec fn white_space(c: char) -> bool {
    let n = c as int;
    ||| 0x09 <= n <= 0x0d
    ||| n == 0x20
    ||| n == 0x85
    ||| n == 0xa0
    ||| n == 0x1680
    ||| 0x2000 <= n <= 0x200a
    ||| n == 0x2028
    ||| n == 0x2029
    ||| n == 0x202f
    ||| n == 0x205f
    ||| n == 0x3000
}

/// `s` without its leading white space.
pub open spec fn trim_start(s: Seq<char>) -> Seq<char>
    decreases s.len(),
{
    if s.len() > 0 && white_space(s.first()) {
        trim_start(s.drop_first())
    } else {
        s
    }
}

/// `s` without its trailing white space.
pub open spec fn trim_end(s: Seq<char>) -> Seq<char>
    decreases s.len(),
{
    if s.len() > 0 && white_space(s.last()) {
        trim_end(s.drop_last())
    } else {
        s
    }
}

/// `s` without white space on either side.
pub open spec fn trimmed(s: Seq<char>) -> Seq<char> {
    trim_end(trim_start(s))
}

/// Whether `s` holds nothing but white space.
pub open spec fn blank(s: Seq<char>) -> bool {
    forall|i: int| 0 <= i < s.len() ==> white_space(#[trigger] s[i])
}

/// `str::trim`: the text without leading and trailing characters of the
/// Unicode property White_Space.
#[verifier::external_body]
pub(crate) fn trim(s: &str) -> (r: &str)
    ensures
        r@ == trimmed(s@),
{
    s.trim()
}

/// What `str::to_lowercase` makes of a text.
pub uninterp spec fn lowercase_of(s: Seq<char>) -> Seq<char>;

/// Whether all characters are ASCII.
pub open spec fn ascii(s: Seq<char>) -> bool {
    forall|i: int| 0 <= i < s.len() ==> (#[trigger] s[i] as int) < 0x80
}

/// An ASCII letter in lower case, and any other character as it is.
pub open spec fn ascii_lower(c: char) -> char {
    if 'A' <= c <= 'Z' {
        (c as int + 32) as char
    } else {
        c
    }
}

/// A text with its ASCII letters in lower case.
pub open spec fn ascii_lowercase(s: Seq<char>) -> Seq<char> {
    s.map_values(|c: char| ascii_lower(c))
}

/// A text in lower case.
pub open spec fn lowered(s: Seq<char>) -> Seq<char> {
    if ascii(s) {
        ascii_lowercase(s)
    } else {
        lowercase_of(s)
    }
}

/// `str::to_lowercase`: the lowercase equivalent by the Unicode tables, which
/// depends on the text alone. Of ASCII text it has the letters in lower case
/// and the rest as it is. What the tables hold beyond ASCII is not stated.
#[verifier::external_body]
pub(crate) fn to_lowercase(s: &str) -> (r: String)
    ensures
        r@ == lowercase_of(s@),
        ascii(s@) ==> r@ == ascii_lowercase(s@),
{
    s.to_lowercase()
}

proof fn lemma_trim_start_blank(s: Seq<char>)
    ensures
        blank(s) ==> trim_start(s).len() == 0,
        !blank(s) ==> trim_start(s).len() > 0 && !white_space(trim_start(s).first()),
    decreases s.len(),
{
    if s.len() > 0 && white_space(s.first()) {
        let rest = s.drop_first();
        lemma_trim_start_blank(rest);
        if blank(rest) {
            assert forall|i: int| 0 <= i < s.len() implies white_space(#[trigger] s[i]) by {
                if i > 0 {
                    assert(white_space(rest[i - 1]));
                }
            }
        } else {
            let i = choose|i: int| 0 <= i < rest.len() && !white_space(#[trigger] rest[i]);
            assert(!white_space(s[i + 1]));
        }
    } else if s.len() > 0 {
        assert(!white_space(s[0]));
    }
}

proof fn lemma_trim_end_keeps_first(s: Seq<char>)
    requires
        s.len() > 0,
        !white_space(s.first()),
    ensures
        trim_end(s).len() > 0,
    decreases s.len(),
{
    if white_space(s.last()) {
        lemma_trim_end_keeps_first(s.drop_last());
    }
}

/// Trimming leaves nothing exactly of a text that is all white space.
pub proof fn trimmed_empty_iff_blank(s: Seq<char>)
    ensures
        trimmed(s).len() == 0 <==> blank(s),
{
    lemma_trim_start_blank(s);
    if !blank(s) {
        lemma_trim_end_keeps_first(trim_start(s));
    }
}

/// White space at the end of a text does not matter to what is left of it at
/// the start.
proof fn lemma_trim_start_of_longer(s: Seq<char>, c: char)
    requires
        !blank(s),
    ensures
        trim_start(s.push(c)) == trim_start(s).push(c),
    decreases s.len(),
{
    assert(s.push(c).first() == s.first());
    if white_space(s.first()) {
        assert(s.push(c).drop_first() =~= s.drop_first().push(c));
        let i = choose|i: int| 0 <= i < s.len() && !white_space(#[trigger] s[i]);
        assert(s.drop_first()[i - 1] == s[i]);
        lemma_trim_start_of_longer(s.drop_first(), c);
    }
}

/// White space after a text does not matter to what trimming leaves of it.
pub proof fn trimming_the_end_first_changes_nothing(s: Seq<char>)
    ensures
        trimmed(trim_end(s)) == trimmed(s),
    decreases s.len(),
{
    if s.len() > 0 && white_space(s.last()) {
        let shorter = s.drop_last();
        trimming_the_end_first_changes_nothing(shorter);
        assert(s =~= shorter.push(s.last()));
        if blank(shorter) {
            assert(blank(s)) by {
                assert forall|i: int| 0 <= i < s.len() implies white_space(#[trigger] s[i]) by {
                    if i < shorter.len() {
                        assert(white_space(shorter[i]));
                    }
                }
            }
            trimmed_empty_iff_blank(s);
            trimmed_empty_iff_blank(shorter);
            assert(trimmed(s) =~= trimmed(shorter));
        } else {
            lemma_trim_start_of_longer(shorter, s.last());
            assert(trim_start(s).drop_last() =~= trim_start(shorter));
        }
    }
}

/// Trimming the end of a text does not reach past a character that is no white
/// space.
pub proof fn trimming_the_end_stops(head: Seq<char>, tail: Seq<char>)
    requires
        head.len() > 0,
        !white_space(head.last()),
    ensures
        trim_end(head + tail) == head + trim_end(tail),
    decreases tail.len(),
{
    if tail.len() == 0 {
        assert(head + tail =~= head);
    } else {
        assert((head + tail).last() == tail.last());
        if white_space(tail.last()) {
            assert((head + tail).drop_last() =~= head + tail.drop_last());
            trimming_the_end_stops(head, tail.drop_last());
        }
    }
}

/// Whether a text holds nothing but white space.
pub fn is_blank(s: &str) -> (r: bool)
    ensures
        r == blank(s@),
{
    proof {
        trimmed_empty_iff_blank(s@);
    }
    trim(s).is_empty()
}

/// The characters of a text.
pub fn characters(s: &str) -> (r: Vec<char>)
    ensures
        r@ == s@,
{
    let mut r: Vec<char> = Vec::new();
    for c in it: s.chars()
        invariant
            it.seq() == s@,
            r@ == s@.take(it.index() as int),
    {
        r.push(c);
    }
    r
}

/// Whether two texts hold the same characters.
pub fn same_text(a: &str, b: &str) -> (r: bool)
    ensures
        r == (a@ == b@),
{
    a.to_owned() == b.to_owned()
}

/// What follows `prefix` in `s`, if `s` begins with it.
pub fn strip_prefix<'a>(s: &'a str, prefix: &str) -> (r: Option<&'a str>)
    ensures
        r is Some <==> prefix@.is_prefix_of(s@),
        r matches Some(rest) ==> rest@ == s@.skip(prefix@.len() as int),
{
    let n: usize = s.unicode_len();
    let k: usize = prefix.unicode_len();
    if k <= n && same_text(s.substring_char(0, k), prefix) {
        Some(s.substring_char(k, n))
    } else {
        None
    }
}

/// Whether `a` comes before `b` in the order of their code points.
pub open spec fn precedes(a: Seq<char>, b: Seq<char>) -> bool
    decreases a.len(),
{
    if b.len() == 0 {
        false
    } else if a.len() == 0 {
        true
    } else if a.first() == b.first() {
        precedes(a.drop_first(), b.drop_first())
    } else {
        (a.first() as int) < (b.first() as int)
    }
}

/// No text comes before itself.
pub proof fn precedes_irreflexive(a: Seq<char>)
    ensures
        !precedes(a, a),
    decreases a.len(),
{
    if a.len() > 0 {
        precedes_irreflexive(a.drop_first());
    }
}

/// What comes before a text comes before all that the text comes before.
pub proof fn precedes_transitive(a: Seq<char>, b: Seq<char>, c: Seq<char>)
    requires
        precedes(a, b),
        precedes(b, c),
    ensures
        precedes(a, c),
    decreases a.len(),
{
    if a.len() > 0 && a.first() == b.first() && b.first() == c.first() {
        precedes_transitive(a.drop_first(), b.drop_first(), c.drop_first());
    }
}

/// Of two different texts one comes before the other.
pub proof fn precedes_total(a: Seq<char>, b: Seq<char>)
    ensures
        a == b || precedes(a, b) || precedes(b, a),
    decreases a.len(),
{
    if a.len() > 0 && b.len() > 0 && a.first() == b.first() {
        precedes_total(a.drop_first(), b.drop_first());
        if a.drop_first() == b.drop_first() {
            assert(a =~= seq![a.first()] + a.drop_first());
            assert(b =~= seq![b.first()] + b.drop_first());
        }
    } else if a.len() == 0 && b.len() == 0 {
        assert(a =~= b);
    }
}

/// Whether one text comes before another in the order of their code points.
pub fn comes_before(a: &str, b: &str) -> (r: bool)
    ensures
        r == precedes(a@, b@),
{
    let x: Vec<char> = characters(a);
    let y: Vec<char> = characters(b);
    let mut i: usize = 0;
    proof {
        assert(a@.skip(0) =~= a@);
        assert(b@.skip(0) =~= b@);
    }
    while i < x.len() && i < y.len() && x[i] == y[i]
        invariant
            x@ == a@,
            y@ == b@,
            i <= x@.len(),
            i <= y@.len(),
            precedes(a@, b@) == precedes(a@.skip(i as int), b@.skip(i as int)),
        decreases x.len() - i,
    {
        proof {
            assert(a@.skip(i as int).drop_first() =~= a@.skip(i + 1));
            assert(b@.skip(i as int).drop_first() =~= b@.skip(i + 1));
        }
        i = i + 1;
    }
    if i == y.len() {
        false
    } else if i == x.len() {
        true
    } else {
        x[i] < y[i]
    }
}

/// The decimal digit for `d`.
pub open spec fn digit(d: nat) -> char {
    (('0' as int) + d) as char
}

/// `n` in decimal notation.
pub open spec fn decimal_digits(n: nat) -> Seq<char>
    decreases n,
{
    if n < 10 {
        seq![digit(n)]
    } else {
        decimal_digits(n / 10).push(digit(n % 10))
    }
}

/// `n` in decimal notation, with a sign if it is negative.
pub open spec fn decimal_number(n: int) -> Seq<char> {
    if n < 0 {
        seq!['-'] + decimal_digits((-n) as nat)
    } else {
        decimal_digits(n as nat)
    }
}

fn digit_text(d: u64) -> (r: &'static str)
    requires
        d < 10,
    ensures
        r@ == seq![digit(d as nat)],
{
    proof {
        reveal_strlit("0");
        reveal_strlit("1");
        reveal_strlit("2");
        reveal_strlit("3");
        reveal_strlit("4");
        reveal_strlit("5");
        reveal_strlit("6");
        reveal_strlit("7");
        reveal_strlit("8");
        reveal_strlit("9");
    }
    match d {
        0 => "0",
        1 => "1",
        2 => "2",
        3 => "3",
        4 => "4",
        5 => "5",
        6 => "6",
        7 => "7",
        8 => "8",
        _ => "9",
    }
}

/// `n` in decimal notation.
pub fn decimal(n: u64) -> (r: String)
    ensures
        r@ == decimal_digits(n as nat),
    decreases n,
{
    if n < 10 {
        digit_text(n).to_owned()
    } else {
        let mut r = decimal(n / 10);
        r.append(digit_text(n % 10));
        r
    }
}

/// `n` in decimal notation, with a sign if it is negative.
pub fn signed_decimal(n: i32) -> (r: String)
    ensures
        r@ == decimal_number(n as int),
{
    if n < 0 {
        proof {
            reveal_strlit("-");
        }
        let mut r = "-".to_owned();
        let m: u64 = (-(n as i64)) as u64;
        r.append(decimal(m).as_str());
        r
    } else {
        decimal(n as u64)
    }
}

/// The texts of a sequence of strings.
pub open spec fn texts(parts: Seq<String>) -> Seq<Seq<char>> {
    parts.map_values(|s: String| s@)
}

/// The parts in a row, with `separator` between neighbours.
pub open spec fn joined(parts: Seq<Seq<char>>, separator: Seq<char>) -> Seq<char>
    decreases parts.len(),
{
    if parts.len() == 0 {
        Seq::empty()
    } else {
        let before = parts.drop_last();
        if before.len() == 0 {
            parts.last()
        } else {
            joined(before, separator) + separator + parts.last()
        }
    }
}

/// The parts in a row, with `separator` between neighbours.
pub fn join(parts: &Vec<String>, separator: &str) -> (r: String)
    ensures
        r@ == joined(texts(parts@), separator@),
{
    let mut r = String::new();
    let ghost all = texts(parts@);
    let mut i: usize = 0;
    while i < parts.len()
        invariant
            i <= parts@.len(),
            all == texts(parts@),
            r@ == joined(all.take(i as int), separator@),
        decreases parts.len() - i,
    {
        if i > 0 {
            r.append(separator);
        }
        r.append(parts[i].as_str());
        proof {
            assert(all.take(i + 1).drop_last() =~= all.take(i as int));
            assert(all.take(0) =~= Seq::<Seq<char>>::empty());
        }
        i = i + 1;
    }
    proof {
        assert(all.take(i as int) =~= all);
    }
    r
}

/// Two texts in a row.
pub fn followed_by(a: &str, b: &str) -> (r: String)
    ensures
        r@ == a@ + b@,
{
    let mut r = a.to_owned();
    r.append(b);
    r
}

/// One text comes before another exactly if, after a part that they have in
/// common, it ends where the other goes on, or goes on with the smaller
/// character.
pub proof fn texts_are_ordered_by_their_first_difference(a: Seq<char>, b: Seq<char>)
    ensures
        precedes(a, b) <==> exists|p: int| #[trigger] differ_first_at(a, b, p) && (p == a.len() || (
        p < b.len() && (a[p] as int) < (b[p] as int))),
    decreases a.len(),
{
    if a.len() == 0 {
        if b.len() > 0 {
            assert(differ_first_at(a, b, 0));
        }
    } else if b.len() > 0 {
        if a[0] == b[0] {
            let (x, y) = (a.drop_first(), b.drop_first());
            texts_are_ordered_by_their_first_difference(x, y);
            if precedes(x, y) {
                let p = choose|p: int| #[trigger] differ_first_at(x, y, p) && (p == x.len() || (p
                    < y.len() && (x[p] as int) < (y[p] as int)));
                assert forall|i: int| 0 <= i < p + 1 implies a[i] == b[i] by {
                    if i > 0 {
                        assert(x[i - 1] == y[i - 1]);
                    }
                }
                assert(differ_first_at(a, b, p + 1));
            }
            if exists|p: int| #[trigger] differ_first_at(a, b, p) && (p == a.len() || (p < b.len()
                && (a[p] as int) < (b[p] as int))) {
                let p = choose|p: int| #[trigger] differ_first_at(a, b, p) && (p == a.len() || (p
                    < b.len() && (a[p] as int) < (b[p] as int)));
                assert(p > 0);
                assert forall|i: int| 0 <= i < p - 1 implies x[i] == y[i] by {
                    assert(a[i + 1] == b[i + 1]);
                }
                assert(differ_first_at(x, y, p - 1));
            }
        } else {
            assert(differ_first_at(a, b, 0));
            if exists|p: int| #[trigger] differ_first_at(a, b, p) && (p == a.len() || (p < b.len()
                && (a[p] as int) < (b[p] as int))) {
                let p = choose|p: int| #[trigger] differ_first_at(a, b, p) && (p == a.len() || (p
                    < b.len() && (a[p] as int) < (b[p] as int)));
                if p > 0 {
                    assert(a[0] == b[0]);
                }
            }
        }
    }
}

/// Whether two texts are the same up to place `p` and not beyond.
pub open spec fn differ_first_at(a: Seq<char>, b: Seq<char>, p: int) -> bool {
    &&& 0 <= p <= a.len()
    &&& p <= b.len()
    &&& forall|i: int| 0 <= i < p ==> a[i] == b[i]
    &&& p < a.len() && p < b.len() ==> a[p] != b[p]
    &&& p == a.len() ==> p < b.len()
}

/// The number that a row of digits says.
pub open spec fn number_said(s: Seq<char>) -> int
    decreases s.len(),
{
    if s.len() == 0 {
        0
    } else {
        10 * number_said(s.drop_last()) + (s.last() as int - '0' as int)
    }
}

/// The digits of a number say that number, and begin with no zero unless it is
/// zero.
pub proof fn digits_say_the_number(n: nat)
    ensures
        number_said(decimal_digits(n)) == n,
        decimal_digits(n).len() > 0,
        forall|i: int|
            0 <= i < decimal_digits(n).len() ==> '0' <= #[trigger] decimal_digits(n)[i] <= '9',
        n > 0 ==> decimal_digits(n)[0] != '0',
        n == 0 ==> decimal_digits(n).len() == 1,
    decreases n,
{
    let s = decimal_digits(n);
    if n < 10 {
        assert(s.drop_last() =~= Seq::<char>::empty());
        assert(s.last() as int - '0' as int == n);
        reveal_with_fuel(number_said, 2);
    } else {
        digits_say_the_number(n / 10);
        assert(s.drop_last() =~= decimal_digits(n / 10));
        assert(s.last() as int - '0' as int == n % 10);
        assert(s[0] == decimal_digits(n / 10)[0]);
        assert forall|i: int| 0 <= i < s.len() implies '0' <= #[trigger] s[i] <= '9' by {
            if i < s.len() - 1 {
                assert(s[i] == decimal_digits(n / 10)[i]);
            }
        }
    }
}

/// A negative number is written as its opposite after a minus sign.
pub proof fn negative_numbers_have_a_sign(n: nat)
    ensures
        decimal_number(n as int) == decimal_digits(n),
        n > 0 ==> decimal_number(-(n as int)) == seq!['-'] + decimal_digits(n),
{
}

/// Joining leaves one part as it is, and puts one separator between what comes
/// before and what comes after any place.
pub proof fn joined_parts_stand_in_a_row(
    a: Seq<Seq<char>>,
    b: Seq<Seq<char>>,
    part: Seq<char>,
    separator: Seq<char>,
)
    ensures
        joined(Seq::empty(), separator) == Seq::<char>::empty(),
        joined(seq![part], separator) == part,
        a.len() > 0 && b.len() > 0 ==> joined(a + b, separator) == joined(a, separator) + separator
            + joined(b, separator),
    decreases b.len(),
{
    assert(seq![part].drop_last() =~= Seq::<Seq<char>>::empty());
    if a.len() > 0 && b.len() > 0 {
        let shorter = b.drop_last();
        assert((a + b).drop_last() =~= a + shorter);
        assert((a + b).last() == b.last());
        if shorter.len() == 0 {
            assert(a + shorter =~= a);
        } else {
            joined_parts_stand_in_a_row(a, shorter, part, separator);
            assert(joined(a + b, separator) =~= joined(a, separator) + separator + joined(
                b,
                separator,
            ));
        }
    }
}

/// The texts of a sequence of strings are those of each, in their order.
pub proof fn all_texts_are_seen(parts: Seq<String>)
    ensures
        texts(parts).len() == parts.len(),
        forall|i: int| 0 <= i < parts.len() ==> #[trigger] texts(parts)[i] == parts[i]@,
{
}

/// Lower case has as many characters, none of them a capital, and differs from
/// the text in capitals only, each by the same step in the character table.
pub proof fn ascii_lower_case_has_no_capitals(s: Seq<char>)
    requires
        ascii(s),
    ensures
        lowered(s).len() == s.len(),
        forall|i: int|
            0 <= i < s.len() ==> {
                let c = #[trigger] lowered(s)[i];
                &&& !('A' <= c <= 'Z')
                &&& 'A' <= s[i] <= 'Z' ==> c as int == s[i] as int + ('a' as int - 'A' as int)
                &&& !('A' <= s[i] <= 'Z') ==> c == s[i]
            },
{
}

} // verus!
