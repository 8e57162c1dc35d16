//! Text normalisation: trimming of whitespace, removal of literal markers,
//! decimal rendering of small numbers and the order of texts.

use vstd::prelude::*;
use vstd::utf8::{encode_utf8, encode_utf8_decode_utf8};

verus! {

/// `String::push` appends one character to the string.
pub assume_specification[ String::push ](s: &mut String, c: char)
    ensures
        final(s)@ == old(s)@.push(c),
;

/// The characters that carry the Unicode property `White_Space`.
pub open spec fn white_space(c: char) -> bool {
    let code = c as u32;
    ||| 0x09 <= code <= 0x0D
    ||| code == 0x20
    ||| code == 0x85
    ||| code == 0xA0
    ||| code == 0x1680
    ||| 0x2000 <= code <= 0x200A
    ||| code == 0x2028
    ||| code == 0x2029
    ||| code == 0x202F
    ||| code == 0x205F
    ||| code == 0x3000
}

/// `s` without its leading whitespace.
pub open spec fn trim_start(s: Seq<char>) -> Seq<char>
    decreases s.len(),
{
    if s.len() > 0 && white_space(s.first()) {
        trim_start(s.drop_first())
    } else {
        s
    }
}

/// `s` without its trailing whitespace.
pub open spec fn trim_end(s: Seq<char>) -> Seq<char>
    decreases s.len(),
{
    if s.len() > 0 && white_space(s.last()) {
        trim_end(s.drop_last())
    } else {
        s
    }
}

/// `s` without its leading and trailing whitespace.
pub open spec fn trimmed(s: Seq<char>) -> Seq<char> {
    trim_end(trim_start(s))
}

/// `s` begins with `marker`.
pub open spec fn starts_with(s: Seq<char>, marker: Seq<char>) -> bool {
    marker.len() <= s.len() && s.take(marker.len() as int) == marker
}

/// `s` with every occurrence of `marker` taken out, reading from the left:
/// where `marker` begins it is skipped whole, elsewhere one character is
/// kept. What is left is not looked at again, so pieces that only meet once a
/// marker between them is gone stay.
pub open spec fn without(s: Seq<char>, marker: Seq<char>) -> Seq<char>
    decreases s.len(),
{
    if marker.len() == 0 || s.len() == 0 {
        s
    } else if starts_with(s, marker) {
        without(s.skip(marker.len() as int), marker)
    } else {
        seq![s.first()] + without(s.drop_first(), marker)
    }
}

/// How many occurrences of `marker` the reading of `without` skips in `s`.
pub open spec fn occurrences(s: Seq<char>, marker: Seq<char>) -> nat
    decreases s.len(),
{
    if marker.len() == 0 || s.len() == 0 {
        0
    } else if starts_with(s, marker) {
        1 + occurrences(s.skip(marker.len() as int), marker)
    } else {
        occurrences(s.drop_first(), marker)
    }
}

/// How one text stands to another.
#[derive(Clone, Copy, PartialEq, Eq, Structural, Debug)]
pub enum Order {
    Less,
    Equal,
    Greater,
}

/// How `a` stands to `b` when the two are read byte by byte: the first byte
/// in which they differ decides, and where one ends before any differs the
/// shorter one is less.
pub open spec fn lexical(a: Seq<u8>, b: Seq<u8>) -> Order
    decreases a.len(),
{
    if a.len() == 0 && b.len() == 0 {
        Order::Equal
    } else if a.len() == 0 {
        Order::Less
    } else if b.len() == 0 {
        Order::Greater
    } else if a.first() < b.first() {
        Order::Less
    } else if a.first() > b.first() {
        Order::Greater
    } else {
        lexical(a.drop_first(), b.drop_first())
    }
}

/// How the text `a` stands to the text `b`: as their UTF-8 bytes do.
pub open spec fn text_order(a: Seq<char>, b: Seq<char>) -> Order {
    lexical(encode_utf8(a), encode_utf8(b))
}

/// The character that writes the digit `d`.
pub open spec fn digit(d: nat) -> char {
    if d == 0 {
        '0'
    } else if d == 1 {
        '1'
    } else if d == 2 {
        '2'
    } else if d == 3 {
        '3'
    } else if d == 4 {
        '4'
    } else if d == 5 {
        '5'
    } else if d == 6 {
        '6'
    } else if d == 7 {
        '7'
    } else if d == 8 {
        '8'
    } else {
        '9'
    }
}

/// `n` written in decimal, without leading zeros.
pub open spec fn decimal(n: nat) -> Seq<char>
    decreases n,
{
    if n < 10 {
        seq![digit(n)]
    } else {
        decimal(n / 10).push(digit(n % 10))
    }
}

/// Every character of `s` is whitespace.
pub open spec fn blank(s: Seq<char>) -> bool {
    forall|k: int| 0 <= k < s.len() ==> white_space(#[trigger] s[k])
}

/// Trimming at the start removes a run of whitespace and nothing else: what
/// is returned is `s` without the run, and it does not begin with
/// whitespace.
pub proof fn trim_start_parts(s: Seq<char>) -> (lead: Seq<char>)
    ensures
        s == lead + trim_start(s),
        blank(lead),
        trim_start(s).len() > 0 ==> !white_space(trim_start(s).first()),
    decreases s.len(),
{
    if s.len() > 0 && white_space(s.first()) {
        let rest = trim_start_parts(s.drop_first());
        let lead = seq![s.first()] + rest;
        assert(s =~= seq![s.first()] + s.drop_first());
        assert(trim_start(s) == trim_start(s.drop_first()));
        assert(s =~= lead + trim_start(s));
        lead
    } else {
        assert(s =~= Seq::<char>::empty() + trim_start(s));
        Seq::empty()
    }
}

/// Trimming at the end removes a run of whitespace and nothing else: what is
/// returned is `s` without the run, and it does not end with whitespace.
pub proof fn trim_end_parts(s: Seq<char>) -> (trail: Seq<char>)
    ensures
        s == trim_end(s) + trail,
        blank(trail),
        trim_end(s).len() > 0 ==> !white_space(trim_end(s).last()),
    decreases s.len(),
{
    if s.len() > 0 && white_space(s.last()) {
        let rest = trim_end_parts(s.drop_last());
        let trail = rest.push(s.last());
        assert(s =~= s.drop_last().push(s.last()));
        assert(trim_end(s) == trim_end(s.drop_last()));
        assert(s =~= trim_end(s) + trail);
        trail
    } else {
        assert(s =~= trim_end(s) + Seq::<char>::empty());
        Seq::empty()
    }
}

/// A text is its trimmed form between two runs of whitespace, and the
/// trimmed form neither begins nor ends with whitespace.
pub proof fn trimmed_parts(s: Seq<char>) -> (ends: (Seq<char>, Seq<char>))
    ensures
        s == ends.0 + trimmed(s) + ends.1,
        blank(ends.0),
        blank(ends.1),
        trimmed(s).len() > 0 ==> !white_space(trimmed(s).first()) && !white_space(
            trimmed(s).last(),
        ),
{
    let lead = trim_start_parts(s);
    let trail = trim_end_parts(trim_start(s));
    assert(s =~= lead + trimmed(s) + trail);
    if trimmed(s).len() > 0 {
        assert(trimmed(s).first() == trim_start(s).first());
    }
    (lead, trail)
}

/// A text that neither begins nor ends with whitespace is its own trimmed
/// form.
pub proof fn trimmed_keeps_clean_text(s: Seq<char>)
    requires
        s.len() > 0 ==> !white_space(s.first()) && !white_space(s.last()),
    ensures
        trimmed(s) == s,
{
}

/// Trimming twice is trimming once.
pub proof fn trimmed_is_idempotent(s: Seq<char>)
    ensures
        trimmed(trimmed(s)) == trimmed(s),
{
    let _ = trimmed_parts(s);
    trimmed_keeps_clean_text(trimmed(s));
}

/// Removal takes out each occurrence that it reads exactly once: the result
/// is shorter than the text by the marker's length for every occurrence.
/// Nothing is said of what the result then holds: pieces that meet where a
/// marker was may form the marker anew.
pub proof fn removal_takes_each_occurrence_once(s: Seq<char>, marker: Seq<char>)
    ensures
        without(s, marker).len() + occurrences(s, marker) * marker.len() == s.len(),
        occurrences(s, marker) == 0 ==> without(s, marker) == s,
    decreases s.len(),
{
    if marker.len() == 0 || s.len() == 0 {
    } else if starts_with(s, marker) {
        let rest = s.skip(marker.len() as int);
        removal_takes_each_occurrence_once(rest, marker);
        assert((1 + occurrences(rest, marker)) * marker.len() == marker.len() + occurrences(
            rest,
            marker,
        ) * marker.len()) by (nonlinear_arith);
    } else {
        removal_takes_each_occurrence_once(s.drop_first(), marker);
        if occurrences(s, marker) == 0 {
            assert(seq![s.first()] + s.drop_first() =~= s);
        }
    }
}

/// `marker` begins nowhere in `s`.
pub open spec fn free_of(s: Seq<char>, marker: Seq<char>) -> bool {
    forall|i: int| 0 <= i <= s.len() ==> !starts_with(#[trigger] s.skip(i), marker)
}

/// A text in which the marker begins nowhere is left as it is.
pub proof fn removal_keeps_text_without_marker(s: Seq<char>, marker: Seq<char>)
    requires
        free_of(s, marker),
    ensures
        without(s, marker) == s,
        occurrences(s, marker) == 0,
    decreases s.len(),
{
    if marker.len() > 0 && s.len() > 0 {
        assert(s.skip(0) =~= s);
        let rest = s.drop_first();
        assert forall|i: int| 0 <= i <= rest.len() implies !starts_with(
            #[trigger] rest.skip(i),
            marker,
        ) by {
            assert(rest.skip(i) =~= s.skip(i + 1));
        }
        removal_keeps_text_without_marker(rest, marker);
        assert(seq![s.first()] + rest =~= s);
    } else if marker.len() == 0 {
        assert(s.skip(0) =~= s);
        assert(s.take(0) =~= marker);
    }
}

/// The leftmost occurrence of the marker is taken out whole and once: where
/// the marker begins nowhere before the end of `before`, the text `before`,
/// marker, `after` loses that marker, keeps `before`, and goes on with
/// `after`.
pub proof fn removal_takes_leftmost_occurrence(
    before: Seq<char>,
    marker: Seq<char>,
    after: Seq<char>,
)
    requires
        marker.len() > 0,
        forall|i: int|
            0 <= i < before.len() ==> !starts_with(
                #[trigger] (before + marker + after).skip(i),
                marker,
            ),
    ensures
        without(before + marker + after, marker) == before + without(after, marker),
        occurrences(before + marker + after, marker) == 1 + occurrences(after, marker),
    decreases before.len(),
{
    let whole = before + marker + after;
    if before.len() == 0 {
        assert(whole.take(marker.len() as int) =~= marker);
        assert(whole.skip(marker.len() as int) =~= after);
        assert(before + without(after, marker) =~= without(after, marker));
    } else {
        assert(whole.skip(0) =~= whole);
        let rest = before.drop_first();
        assert(whole.drop_first() =~= rest + marker + after);
        assert forall|i: int| 0 <= i < rest.len() implies !starts_with(
            #[trigger] (rest + marker + after).skip(i),
            marker,
        ) by {
            assert((rest + marker + after).skip(i) =~= whole.skip(i + 1));
        }
        removal_takes_leftmost_occurrence(rest, marker, after);
        assert(seq![whole.first()] + (rest + without(after, marker)) =~= before + without(
            after,
            marker,
        ));
    }
}

/// Two byte sequences stand equal exactly when they are the same.
pub proof fn lexical_equal_is_same(a: Seq<u8>, b: Seq<u8>)
    ensures
        lexical(a, b) == Order::Equal <==> a == b,
    decreases a.len(),
{
    if a.len() > 0 && b.len() > 0 && a.first() == b.first() {
        lexical_equal_is_same(a.drop_first(), b.drop_first());
        if a.drop_first() == b.drop_first() {
            assert(a =~= seq![a.first()] + a.drop_first());
            assert(b =~= seq![b.first()] + b.drop_first());
        }
    } else if a.len() == 0 && b.len() == 0 {
        assert(a =~= b);
    }
}

/// Turning two byte sequences round turns their order round.
pub proof fn lexical_turns_round(a: Seq<u8>, b: Seq<u8>)
    ensures
        lexical(a, b) == Order::Less <==> lexical(b, a) == Order::Greater,
        lexical(a, b) == Order::Equal <==> lexical(b, a) == Order::Equal,
    decreases a.len(),
{
    if a.len() > 0 && b.len() > 0 && a.first() == b.first() {
        lexical_turns_round(a.drop_first(), b.drop_first());
    }
}

/// What is less than something less than `c` is less than `c`.
pub proof fn lexical_is_transitive(a: Seq<u8>, b: Seq<u8>, c: Seq<u8>)
    requires
        lexical(a, b) == Order::Less,
        lexical(b, c) == Order::Less,
    ensures
        lexical(a, c) == Order::Less,
    decreases a.len(),
{
    if a.len() > 0 && b.len() > 0 && c.len() > 0 && a.first() == b.first() && b.first()
        == c.first() {
        lexical_is_transitive(a.drop_first(), b.drop_first(), c.drop_first());
    }
}

/// Two texts stand equal exactly when they are the same text.
pub proof fn text_order_equal_is_same(a: Seq<char>, b: Seq<char>)
    ensures
        text_order(a, b) == Order::Equal <==> a == b,
{
    lexical_equal_is_same(encode_utf8(a), encode_utf8(b));
    encode_utf8_decode_utf8(a);
    encode_utf8_decode_utf8(b);
}

/// Tells whether `c` is a whitespace character.
pub fn is_white_space(c: char) -> (answer: bool)
    ensures
        answer == white_space(c),
{
    let code: u32 = c as u32;
    (0x09 <= code && code <= 0x0D) || code == 0x20 || code == 0x85 || code == 0xA0 || code
        == 0x1680 || (0x2000 <= code && code <= 0x200A) || code == 0x2028 || code == 0x2029
        || code == 0x202F || code == 0x205F || code == 0x3000
}

/// The characters of `s`, in order.
pub fn characters(s: &str) -> (chars: Vec<char>)
    ensures
        chars@ == s@,
{
    let mut chars: Vec<char> = Vec::new();
    for c in it: s.chars()
        invariant
            it.seq() == s@,
            chars@ == s@.take(it.index() as int),
    {
        chars.push(c);
    }
    chars
}

/// The text made of the characters of `chars` from `from` up to `to`.
fn text_between(chars: &Vec<char>, from: usize, to: usize) -> (text: String)
    requires
        from <= to <= chars.len(),
    ensures
        text@ == chars@.subrange(from as int, to as int),
{
    let mut text = String::new();
    let mut at: usize = from;
    while at < to
        invariant
            from <= at <= to <= chars.len(),
            text@ == chars@.subrange(from as int, at as int),
        decreases to - at,
    {
        text.push(chars[at]);
        at += 1;
        assert(chars@.subrange(from as int, at as int) == chars@.subrange(
            from as int,
            at - 1,
        ).push(chars@[at - 1]));
    }
    text
}

/// `s` with the whitespace at both of its ends removed.
pub fn trim(s: &str) -> (text: String)
    ensures
        text@ == trimmed(s@),
{
    let chars = characters(s);
    let mut start: usize = 0;
    proof {
        assert(chars@.skip(0) == chars@);
    }
    while start < chars.len() && is_white_space(chars[start])
        invariant
            start <= chars.len(),
            trim_start(chars@) == trim_start(chars@.skip(start as int)),
        decreases chars.len() - start,
    {
        proof {
            assert(chars@.skip(start as int).drop_first() == chars@.skip(start + 1));
        }
        start += 1;
    }
    let mut end: usize = chars.len();
    proof {
        assert(chars@.skip(start as int) == chars@.subrange(start as int, end as int));
    }
    while end > start && is_white_space(chars[end - 1])
        invariant
            start <= end <= chars.len(),
            trim_end(chars@.skip(start as int)) == trim_end(
                chars@.subrange(start as int, end as int),
            ),
        decreases end - start,
    {
        proof {
            assert(chars@.subrange(start as int, end as int).drop_last() == chars@.subrange(
                start as int,
                end - 1,
            ));
        }
        end -= 1;
    }
    text_between(&chars, start, end)
}

/// How `a` stands to `b`.
pub fn order_texts(a: &str, b: &str) -> (order: Order)
    ensures
        order == text_order(a@, b@),
{
    let left = a.as_bytes();
    let right = b.as_bytes();
    let mut at: usize = 0;
    proof {
        assert(left@.skip(0) == left@);
        assert(right@.skip(0) == right@);
    }
    while at < left.len() && at < right.len()
        invariant
            at <= left.len(),
            at <= right.len(),
            left@ == encode_utf8(a@),
            right@ == encode_utf8(b@),
            lexical(left@, right@) == lexical(left@.skip(at as int), right@.skip(at as int)),
        decreases left.len() - at,
    {
        if left[at] < right[at] {
            return Order::Less;
        }
        if left[at] > right[at] {
            return Order::Greater;
        }
        proof {
            assert(left@.skip(at as int).drop_first() == left@.skip(at + 1));
            assert(right@.skip(at as int).drop_first() == right@.skip(at + 1));
        }
        at += 1;
    }
    if at < right.len() {
        Order::Less
    } else if at < left.len() {
        Order::Greater
    } else {
        Order::Equal
    }
}

/// Tells whether `marker` stands in `chars` at `at`.
fn stands_at(chars: &Vec<char>, at: usize, marker: &Vec<char>) -> (answer: bool)
    requires
        at <= chars.len(),
    ensures
        answer == starts_with(chars@.skip(at as int), marker@),
{
    if marker.len() > chars.len() - at {
        return false;
    }
    let mut k: usize = 0;
    while k < marker.len()
        invariant
            k <= marker.len() <= chars.len() - at,
            forall|j: int| 0 <= j < k ==> chars@[at + j] == marker@[j],
        decreases marker.len() - k,
    {
        if chars[at + k] != marker[k] {
            proof {
                assert(chars@.skip(at as int).take(marker.len() as int)[k as int] != marker@[k as int]);
            }
            return false;
        }
        k += 1;
    }
    proof {
        assert(chars@.skip(at as int).take(marker.len() as int) =~= marker@);
    }
    true
}

/// `s` with every occurrence of `marker` removed, reading from the left.
pub fn remove_all(s: &str, marker: &str) -> (text: String)
    ensures
        text@ == without(s@, marker@),
{
    let chars = characters(s);
    let mark = characters(marker);
    if mark.len() == 0 {
        return text_between(&chars, 0, chars.len());
    }
    let mut text = String::new();
    let mut at: usize = 0;
    proof {
        assert(chars@.skip(0) == chars@);
    }
    while at < chars.len()
        invariant
            at <= chars.len(),
            mark.len() > 0,
            without(chars@, mark@) == text@ + without(chars@.skip(at as int), mark@),
        decreases chars.len() - at,
    {
        let ghost rest = chars@.skip(at as int);
        if stands_at(&chars, at, &mark) {
            proof {
                assert(rest.skip(mark.len() as int) == chars@.skip(at + mark.len()));
            }
            at += mark.len();
        } else {
            let ghost before = text@;
            text.push(chars[at]);
            proof {
                let tail = without(rest.drop_first(), mark@);
                assert(rest.drop_first() == chars@.skip(at + 1));
                assert(before + (seq![rest.first()] + tail) =~= text@ + tail);
            }
            at += 1;
        }
    }
    text
}

} // verus!
