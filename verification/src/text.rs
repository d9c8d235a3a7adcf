//! Text as sequences of characters: ASCII case, substrings, joining, trimming
//! and numbers in decimal and hexadecimal.

use vstd::prelude::*;
use vstd::slice::{slice_subrange, slice_to_vec};
use vstd::string::StringExecFns;
use vstd::utf8::{decode_utf8, valid_utf8};

verus! {

/// `std::string::String::push` appends one character to the end of the string.
pub assume_specification[ String::push ](s: &mut String, c: char)
    ensures
        final(s)@ == old(s)@.push(c),
;

/// The error of decoding UTF-8.
#[verifier::external_type_specification]
#[verifier::external_body]
pub struct ExFromUtf8Error(std::string::FromUtf8Error);

/// `std::string::String::from_utf8` decodes UTF-8 and refuses exactly the byte
/// sequences that are not valid UTF-8.
pub assume_specification[ String::from_utf8 ](bytes: Vec<u8>) -> (res: Result<
    String,
    std::string::FromUtf8Error,
>)
    ensures
        res is Ok <==> valid_utf8(bytes@),
        res matches Ok(text) ==> text@ == decode_utf8(bytes@),
;

/// The lower-case form of an ASCII letter; every other character as it is.
pub open spec fn ascii_lower_char(c: char) -> char {
    if 'A' <= c <= 'Z' {
        (c as u32 + 32) as char
    } else {
        c
    }
}

/// `text` with its ASCII letters in lower case.
pub open spec fn ascii_lower(text: Seq<char>) -> Seq<char> {
    Seq::new(text.len(), |i: int| ascii_lower_char(text[i]))
}

/// `needle` stands in `hay` from position `at` on.
pub open spec fn occurs_at(hay: Seq<char>, needle: Seq<char>, at: int) -> bool {
    &&& 0 <= at
    &&& at + needle.len() <= hay.len()
    &&& hay.subrange(at, at + needle.len()) == needle
}

/// `needle` stands somewhere in `hay`.
pub open spec fn contains(hay: Seq<char>, needle: Seq<char>) -> bool {
    exists|at: int| occurs_at(hay, needle, at)
}

/// One of `markers` stands in `text`, whatever the case of its ASCII letters.
pub open spec fn mentions_any(text: Seq<char>, markers: Seq<Seq<char>>) -> bool {
    exists|k: int| 0 <= k < markers.len() && contains(ascii_lower(text), #[trigger] markers[k])
}

/// The two texts are the same but for the case of ASCII letters.
pub open spec fn equal_ignoring_ascii_case(a: Seq<char>, b: Seq<char>) -> bool {
    ascii_lower(a) == ascii_lower(b)
}

/// The parts one after the other, with `separator` between neighbours.
pub open spec fn join(parts: Seq<Seq<char>>, separator: Seq<char>) -> Seq<char>
    decreases parts.len(),
{
    if parts.len() == 0 {
        Seq::empty()
    } else if parts.len() == 1 {
        parts[0]
    } else {
        join(parts.drop_last(), separator) + separator + parts.last()
    }
}

/// `text` without the longest prefix of characters that satisfy `drop`.
pub open spec fn trim_start(text: Seq<char>, drop: spec_fn(char) -> bool) -> Seq<char>
    decreases text.len(),
{
    if text.len() > 0 && drop(text[0]) {
        trim_start(text.drop_first(), drop)
    } else {
        text
    }
}

/// `text` without the longest suffix of characters that satisfy `drop`.
pub open spec fn trim_end(text: Seq<char>, drop: spec_fn(char) -> bool) -> Seq<char>
    decreases text.len(),
{
    if text.len() > 0 && drop(text.last()) {
        trim_end(text.drop_last(), drop)
    } else {
        text
    }
}

/// `text` without the characters at both ends that satisfy `drop`.
pub open spec fn trim(text: Seq<char>, drop: spec_fn(char) -> bool) -> Seq<char> {
    trim_end(trim_start(text, drop), drop)
}

/// The character has the Unicode property `White_Space`.
pub open spec fn is_white_space(c: char) -> bool {
    ||| '\u{9}' <= c <= '\u{d}'
    ||| c == ' '
    ||| c == '\u{85}'
    ||| c == '\u{a0}'
    ||| c == '\u{1680}'
    ||| '\u{2000}' <= c <= '\u{200a}'
    ||| c == '\u{2028}'
    ||| c == '\u{2029}'
    ||| c == '\u{202f}'
    ||| c == '\u{205f}'
    ||| c == '\u{3000}'
}

/// The character with code zero.
pub open spec fn is_nul(c: char) -> bool {
    c == '\0'
}

/// What is left of a fixed-width system string: first the zero characters at
/// its ends go, then the white space.
pub open spec fn trim_system_text(text: Seq<char>) -> Seq<char> {
    trim(trim(text, |c: char| is_nul(c)), |c: char| is_white_space(c))
}

/// `text`, or nothing where it is empty.
pub open spec fn non_empty(text: Seq<char>) -> Option<Seq<char>> {
    if text.len() == 0 {
        None
    } else {
        Some(text)
    }
}

/// The digit character for a value below sixteen, letters in upper case.
pub open spec fn hex_digit(value: u32) -> char {
    if value < 10 {
        ('0' as u32 + value) as char
    } else {
        ('A' as u32 + (value - 10)) as char
    }
}

/// `value` in hexadecimal, eight upper-case digits.
pub open spec fn hex8(value: u32) -> Seq<char> {
    Seq::new(8, |i: int| hex_digit((value >> ((28 - 4 * i) as u32)) & 0xf))
}

/// `value` in decimal, without leading zeros.
pub open spec fn decimal(value: nat) -> Seq<char>
    decreases value,
{
    if value < 10 {
        seq![('0' as u32 + value) as char]
    } else {
        decimal(value / 10).push(('0' as u32 + value % 10) as char)
    }
}

/// The views of a list of string slices.
pub open spec fn views(parts: Seq<&str>) -> Seq<Seq<char>> {
    Seq::new(parts.len(), |i: int| parts[i]@)
}

/// The views of a list of strings.
pub open spec fn string_views(parts: Seq<String>) -> Seq<Seq<char>> {
    Seq::new(parts.len(), |i: int| parts[i]@)
}

/// The view of an optional string.
pub open spec fn opt_view(text: Option<String>) -> Option<Seq<char>> {
    match text {
        Some(t) => Some(t@),
        None => None,
    }
}

/// The characters of a string slice.
pub(crate) fn chars_of(text: &str) -> (chars: Vec<char>)
    ensures
        chars@ == text@,
{
    let mut chars: Vec<char> = Vec::new();
    for c in it: text.chars()
        invariant
            chars@ == it.seq().take(it.index() as int),
            it.seq() == text@,
    {
        chars.push(c);
        assert(it.seq().take(it.index() + 1) =~= it.seq().take(it.index() as int).push(c));
    }
    assert(text@.take(text@.len() as int) =~= text@);
    chars
}

fn lower_char(c: char) -> (lower: char)
    ensures
        lower == ascii_lower_char(c),
{
    if 'A' <= c && c <= 'Z' {
        ((c as u8) + 32u8) as char
    } else {
        c
    }
}

/// The characters of a string slice, ASCII letters in lower case.
pub(crate) fn lower_chars_of(text: &str) -> (chars: Vec<char>)
    ensures
        chars@ == ascii_lower(text@),
{
    let source: Vec<char> = chars_of(text);
    let mut chars: Vec<char> = Vec::new();
    let mut i: usize = 0;
    while i < source.len()
        invariant
            i <= source.len(),
            source@ == text@,
            chars@.len() == i,
            forall|j: int| 0 <= j < i ==> chars@[j] == ascii_lower_char(source@[j]),
        decreases source.len() - i,
    {
        chars.push(lower_char(source[i]));
        i += 1;
    }
    assert(chars@ =~= ascii_lower(text@));
    chars
}

fn occurs_at_exec(hay: &Vec<char>, needle: &Vec<char>, at: usize) -> (found: bool)
    requires
        at + needle@.len() <= hay@.len(),
    ensures
        found == occurs_at(hay@, needle@, at as int),
{
    let total: usize = hay.len();
    let mut i: usize = 0;
    while i < needle.len()
        invariant
            i <= needle.len(),
            total == hay@.len(),
            at + needle@.len() <= total,
            forall|j: int| 0 <= j < i ==> hay@[at + j] == needle@[j],
        decreases needle.len() - i,
    {
        if hay[at + i] != needle[i] {
            assert(hay@.subrange(at as int, at + needle@.len())[i as int] != needle@[i as int]);
            return false;
        }
        i += 1;
    }
    assert(hay@.subrange(at as int, at + needle@.len()) =~= needle@);
    true
}

/// Whether `needle` stands somewhere in `hay`.
pub(crate) fn contains_exec(hay: &Vec<char>, needle: &Vec<char>) -> (found: bool)
    ensures
        found == contains(hay@, needle@),
{
    if needle.len() > hay.len() {
        return false;
    }
    let last: usize = hay.len() - needle.len();
    let mut at: usize = 0;
    while at <= last
        invariant
            needle@.len() <= hay@.len(),
            last == hay@.len() - needle@.len(),
            at <= last + 1,
            forall|j: int| 0 <= j < at ==> !occurs_at(hay@, needle@, j),
        decreases last + 1 - at,
    {
        if occurs_at_exec(hay, needle, at) {
            return true;
        }
        if at == last {
            return false;
        }
        at += 1;
    }
    false
}

/// Whether one of `markers` stands in `text`, ASCII letters of `text` taken in
/// lower case.
pub(crate) fn mentions_any_exec(text: &str, markers: &Vec<&str>) -> (found: bool)
    ensures
        found == mentions_any(text@, views(markers@)),
{
    let lower: Vec<char> = lower_chars_of(text);
    let ghost all = views(markers@);
    let mut k: usize = 0;
    while k < markers.len()
        invariant
            k <= markers.len(),
            all == views(markers@),
            lower@ == ascii_lower(text@),
            forall|j: int| 0 <= j < k ==> !contains(lower@, #[trigger] all[j]),
        decreases markers.len() - k,
    {
        let marker: Vec<char> = chars_of(markers[k]);
        assert(all[k as int] == marker@);
        if contains_exec(&lower, &marker) {
            return true;
        }
        k += 1;
    }
    false
}

/// Whether `text` holds `needle`.
pub(crate) fn text_contains(text: &str, needle: &str) -> (found: bool)
    ensures
        found == contains(text@, needle@),
{
    contains_exec(&chars_of(text), &chars_of(needle))
}

/// Whether two texts are the same but for the case of ASCII letters.
pub(crate) fn equal_ignoring_ascii_case_exec(a: &str, b: &str) -> (equal: bool)
    ensures
        equal == equal_ignoring_ascii_case(a@, b@),
{
    let left: Vec<char> = lower_chars_of(a);
    let right: Vec<char> = lower_chars_of(b);
    if left.len() != right.len() {
        return false;
    }
    let same: bool = occurs_at_exec(&left, &right, 0);
    assert(left@.subrange(0, left@.len() as int) =~= left@);
    same
}

/// Whether two texts are the same.
pub(crate) fn same_text(a: &str, b: &str) -> (same: bool)
    ensures
        same == (a@ == b@),
{
    let left: Vec<char> = chars_of(a);
    let right: Vec<char> = chars_of(b);
    if left.len() != right.len() {
        return false;
    }
    let same: bool = occurs_at_exec(&left, &right, 0);
    assert(left@.subrange(0, left@.len() as int) =~= left@);
    same
}

/// A copy of an optional string.
pub(crate) fn copy_of(text: &Option<String>) -> (copy: Option<String>)
    ensures
        opt_view(copy) == opt_view(*text),
{
    match text {
        Some(t) => Some(t.as_str().to_owned()),
        None => None,
    }
}

/// A string of the given characters.
pub(crate) fn string_of(chars: &Vec<char>) -> (text: String)
    ensures
        text@ == chars@,
{
    let mut text: String = String::new();
    let mut i: usize = 0;
    while i < chars.len()
        invariant
            i <= chars.len(),
            text@ == chars@.take(i as int),
        decreases chars.len() - i,
    {
        text.push(chars[i]);
        i += 1;
        assert(chars@.take(i as int) =~= chars@.take(i - 1).push(chars@[i - 1]));
    }
    assert(chars@.take(chars@.len() as int) =~= chars@);
    text
}

fn is_white_space_exec(c: char) -> (white: bool)
    ensures
        white == is_white_space(c),
{
    ('\u{9}' <= c && c <= '\u{d}') || c == ' ' || c == '\u{85}' || c == '\u{a0}' || c == '\u{1680}'
        || ('\u{2000}' <= c && c <= '\u{200a}') || c == '\u{2028}' || c == '\u{2029}'
        || c == '\u{202f}' || c == '\u{205f}' || c == '\u{3000}'
}

/// Which characters [`trim_ends`] takes away.
spec fn dropped(white: bool) -> spec_fn(char) -> bool {
    if white {
        |c: char| is_white_space(c)
    } else {
        |c: char| is_nul(c)
    }
}

fn is_dropped(c: char, white: bool) -> (yes: bool)
    ensures
        yes == dropped(white)(c),
{
    if white {
        is_white_space_exec(c)
    } else {
        c == '\0'
    }
}

/// The characters without those at both ends that are zero, or with `white`
/// those that are white space.
fn trim_ends(chars: &Vec<char>, white: bool) -> (left: Vec<char>)
    ensures
        left@ == trim(chars@, dropped(white)),
{
    let ghost drop = dropped(white);
    let mut start: usize = 0;
    assert(chars@.skip(0) =~= chars@);
    while start < chars.len() && is_dropped(chars[start], white)
        invariant
            start <= chars.len(),
            drop == dropped(white),
            trim_start(chars@.skip(start as int), drop) == trim_start(chars@, drop),
        decreases chars.len() - start,
    {
        assert(chars@.skip(start as int).drop_first() =~= chars@.skip(start + 1));
        start += 1;
    }
    let ghost middle = chars@.skip(start as int);
    assert(middle == trim_start(chars@, drop));
    let mut end: usize = chars.len();
    assert(chars@.subrange(start as int, end as int) =~= middle);
    while end > start && is_dropped(chars[end - 1], white)
        invariant
            start <= end <= chars.len(),
            drop == dropped(white),
            trim_end(chars@.subrange(start as int, end as int), drop) == trim_end(middle, drop),
        decreases end,
    {
        assert(chars@.subrange(start as int, end as int).drop_last() =~= chars@.subrange(
            start as int,
            end - 1,
        ));
        end -= 1;
    }
    slice_to_vec(slice_subrange(chars.as_slice(), start, end))
}

/// What is left of a fixed-width system string, or nothing.
pub(crate) fn trimmed_system_text(text: &str) -> (left: Option<String>)
    ensures
        opt_view(left) == non_empty(trim_system_text(text@)),
{
    let bare: Vec<char> = trim_ends(&chars_of(text), false);
    let chars: Vec<char> = trim_ends(&bare, true);
    if chars.len() == 0 {
        None
    } else {
        Some(string_of(&chars))
    }
}

/// `a` followed by `b`.
pub(crate) fn concat(a: &str, b: &str) -> (text: String)
    ensures
        text@ == a@ + b@,
{
    let mut text: String = a.to_owned();
    text.append(b);
    text
}

/// `a` followed by `b` and `c`.
pub(crate) fn concat3(a: &str, b: &str, c: &str) -> (text: String)
    ensures
        text@ == a@ + b@ + c@,
{
    let mut text: String = concat(a, b);
    text.append(c);
    text
}

fn hex_digit_exec(value: u32) -> (digit: char)
    requires
        value < 16,
    ensures
        digit == hex_digit(value),
{
    if value < 10 {
        (48u8 + value as u8) as char
    } else {
        (65u8 + (value - 10) as u8) as char
    }
}

/// `value` in hexadecimal, eight upper-case digits.
pub(crate) fn hex8_exec(value: u32) -> (text: String)
    ensures
        text@ == hex8(value),
{
    let mut text: String = String::new();
    let mut i: u32 = 0;
    while i < 8
        invariant
            i <= 8,
            text@ == hex8(value).take(i as int),
        decreases 8 - i,
    {
        let shift: u32 = 28 - 4 * i;
        let nibble: u32 = (value >> shift) & 0xf;
        assert((value >> shift) & 0xf < 16) by (bit_vector);
        text.push(hex_digit_exec(nibble));
        i += 1;
        assert(hex8(value).take(i as int) =~= hex8(value).take(i - 1).push(hex8(value)[i - 1]));
    }
    assert(hex8(value).take(8) =~= hex8(value));
    text
}

/// `value` in decimal.
pub(crate) fn decimal_exec(value: u64) -> (text: String)
    ensures
        text@ == decimal(value as nat),
    decreases value,
{
    let digit: char = (48u8 + (value % 10) as u8) as char;
    let mut text: String = if value < 10 {
        String::new()
    } else {
        decimal_exec(value / 10)
    };
    text.push(digit);
    assert(value < 10 ==> text@ =~= decimal(value as nat));
    text
}

/// The parts one after the other, with `separator` between neighbours.
pub(crate) fn join_exec(parts: &Vec<String>, separator: &str) -> (text: String)
    ensures
        text@ == join(string_views(parts@), separator@),
{
    let ghost all = string_views(parts@);
    let mut text: String = String::new();
    let mut i: usize = 0;
    while i < parts.len()
        invariant
            i <= parts.len(),
            all == string_views(parts@),
            text@ == join(all.take(i as int), separator@),
        decreases parts.len() - i,
    {
        if i > 0 {
            text.append(separator);
        }
        text.append(parts[i].as_str());
        proof {
            let prefix = all.take(i + 1);
            assert(prefix.drop_last() =~= all.take(i as int));
            assert(prefix.last() == parts@[i as int]@);
            if i == 0 {
                assert(prefix[0] == parts@[0]@);
                assert(text@ =~= join(prefix, separator@));
            }
        }
        i += 1;
    }
    assert(all.take(all.len() as int) =~= all);
    text
}

/// What stands in a text still stands in it after more text is put around it.
pub proof fn contains_survives_embedding(
    before: Seq<char>,
    text: Seq<char>,
    after: Seq<char>,
    needle: Seq<char>,
)
    requires
        contains(text, needle),
    ensures
        contains(before + text + after, needle),
{
    let at = choose|at: int| occurs_at(text, needle, at);
    let whole = before + text + after;
    let place = before.len() + at;
    assert(whole.subrange(place, place + needle.len()) =~= text.subrange(at, at + needle.len()));
    assert(occurs_at(whole, needle, place));
}

/// A text that mentions a marker still does so after more text is put around it.
pub proof fn mention_survives_embedding(
    before: Seq<char>,
    text: Seq<char>,
    after: Seq<char>,
    markers: Seq<Seq<char>>,
)
    requires
        mentions_any(text, markers),
    ensures
        mentions_any(before + text + after, markers),
{
    let k = choose|k: int|
        0 <= k < markers.len() && contains(ascii_lower(text), #[trigger] markers[k]);
    contains_survives_embedding(
        ascii_lower(before),
        ascii_lower(text),
        ascii_lower(after),
        markers[k],
    );
    assert(ascii_lower(before + text + after) =~= ascii_lower(before) + ascii_lower(text)
        + ascii_lower(after));
}

/// Each part stands in the joined text, with something before and after it.
pub proof fn join_holds_each_part(parts: Seq<Seq<char>>, separator: Seq<char>, k: int) -> (around: (
    Seq<char>,
    Seq<char>,
))
    requires
        0 <= k < parts.len(),
    ensures
        join(parts, separator) == around.0 + parts[k] + around.1,
    decreases parts.len(),
{
    let whole = join(parts, separator);
    if parts.len() == 1 {
        let around = (Seq::<char>::empty(), Seq::<char>::empty());
        assert(whole =~= around.0 + parts[k] + around.1);
        around
    } else if k == parts.len() - 1 {
        let around = (join(parts.drop_last(), separator) + separator, Seq::<char>::empty());
        assert(whole =~= around.0 + parts[k] + around.1);
        around
    } else {
        let inner = join_holds_each_part(parts.drop_last(), separator, k);
        let around = (inner.0, inner.1 + separator + parts.last());
        assert(whole =~= around.0 + parts[k] + around.1);
        around
    }
}

/// A text holds a needle exactly if it is the needle with something before and
/// something after it.
pub proof fn contains_iff_it_splits(hay: Seq<char>, needle: Seq<char>)
    ensures
        contains(hay, needle) <==> exists|before: Seq<char>, after: Seq<char>|
            hay == #[trigger] (before + needle + after),
{
    if contains(hay, needle) {
        let at = choose|at: int| occurs_at(hay, needle, at);
        let before = hay.take(at);
        let after = hay.skip(at + needle.len());
        assert(hay =~= before + needle + after);
    }
    if exists|before: Seq<char>, after: Seq<char>| hay == #[trigger] (before + needle + after) {
        let (before, after) = choose|before: Seq<char>, after: Seq<char>|
            hay == #[trigger] (before + needle + after);
        assert(hay.subrange(
            before.len() as int,
            (before.len() + needle.len()) as int,
        ) =~= needle);
        assert(occurs_at(hay, needle, before.len() as int));
    }
}

/// Lower case changes the letters A to Z and nothing else: each moves up by
/// thirty-two places, and the text keeps its length.
pub proof fn lower_case_moves_ascii_letters(text: Seq<char>)
    ensures
        ascii_lower(text).len() == text.len(),
        forall|i: int|
            0 <= i < text.len() ==> #[trigger] ascii_lower(text)[i] as u32 == if 65 <= text[i] as u32
                <= 90 {
                text[i] as u32 + 32
            } else {
                text[i] as int
            },
{
    assert forall|i: int| 0 <= i < text.len() implies #[trigger] ascii_lower(text)[i] as u32 == if 65
        <= text[i] as u32 <= 90 {
        text[i] as u32 + 32
    } else {
        text[i] as int
    } by {
        lemma_lower_char(text[i]);
    }
}

proof fn lemma_lower_char(c: char)
    ensures
        ascii_lower_char(c) as u32 == if 65 <= c as u32 <= 90 {
            c as u32 + 32
        } else {
            c as int
        },
{
}

/// Two texts are the same but for case exactly if they are as long as each other
/// and differ at most between an ASCII letter and its other case.
pub proof fn same_but_for_case_iff(a: Seq<char>, b: Seq<char>)
    ensures
        equal_ignoring_ascii_case(a, b) <==> {
            &&& a.len() == b.len()
            &&& forall|i: int|
                0 <= i < a.len() ==> {
                    ||| #[trigger] a[i] == b[i]
                    ||| 65 <= a[i] as u32 <= 90 && b[i] as u32 == a[i] as u32 + 32
                    ||| 65 <= b[i] as u32 <= 90 && a[i] as u32 == b[i] as u32 + 32
                }
        },
{
    if equal_ignoring_ascii_case(a, b) {
        assert(ascii_lower(a).len() == ascii_lower(b).len());
        assert forall|i: int| 0 <= i < a.len() implies {
            ||| #[trigger] a[i] == b[i]
            ||| 65 <= a[i] as u32 <= 90 && b[i] as u32 == a[i] as u32 + 32
            ||| 65 <= b[i] as u32 <= 90 && a[i] as u32 == b[i] as u32 + 32
        } by {
            assert(ascii_lower(a)[i] == ascii_lower(b)[i]);
            lemma_case_pair(a[i], b[i]);
        }
    }
    if a.len() == b.len() && forall|i: int|
        0 <= i < a.len() ==> {
            ||| #[trigger] a[i] == b[i]
            ||| 65 <= a[i] as u32 <= 90 && b[i] as u32 == a[i] as u32 + 32
            ||| 65 <= b[i] as u32 <= 90 && a[i] as u32 == b[i] as u32 + 32
        } {
        assert forall|i: int| 0 <= i < a.len() implies ascii_lower(a)[i] == ascii_lower(b)[i] by {
            assert(a[i] == a[i]);
            lemma_case_pair(a[i], b[i]);
        }
        assert(ascii_lower(a) =~= ascii_lower(b));
    }
}

proof fn lemma_case_pair(a: char, b: char)
    ensures
        ascii_lower_char(a) == ascii_lower_char(b) <==> {
            ||| a == b
            ||| 65 <= a as u32 <= 90 && b as u32 == a as u32 + 32
            ||| 65 <= b as u32 <= 90 && a as u32 == b as u32 + 32
        },
{
}

/// A text mentions one of some markers exactly if its lower-case form is one of
/// them with something before and after it.
pub proof fn mentions_iff_lower_case_splits(text: Seq<char>, markers: Seq<Seq<char>>)
    ensures
        mentions_any(text, markers) <==> exists|k: int, before: Seq<char>, after: Seq<char>|
            0 <= k < markers.len() && ascii_lower(text) == #[trigger] (before + markers[k] + after),
{
    if mentions_any(text, markers) {
        let k = choose|k: int|
            0 <= k < markers.len() && contains(ascii_lower(text), #[trigger] markers[k]);
        contains_iff_it_splits(ascii_lower(text), markers[k]);
    }
    if exists|k: int, before: Seq<char>, after: Seq<char>|
        0 <= k < markers.len() && ascii_lower(text) == #[trigger] (before + markers[k] + after) {
        let (k, before, after) = choose|k: int, before: Seq<char>, after: Seq<char>|
            0 <= k < markers.len() && ascii_lower(text) == #[trigger] (before + markers[k] + after);
        contains_iff_it_splits(ascii_lower(text), markers[k]);
        assert(contains(ascii_lower(text), markers[k]));
    }
}

/// Nothing joined is nothing, one part joined is that part, and each further part
/// comes behind a separator.
pub proof fn joining_adds_separator_and_part(
    parts: Seq<Seq<char>>,
    separator: Seq<char>,
    part: Seq<char>,
)
    ensures
        join(Seq::empty(), separator) == Seq::<char>::empty(),
        join(seq![part], separator) == part,
        parts.len() > 0 ==> join(parts.push(part), separator) == join(parts, separator) + separator
            + part,
{
    assert(parts.push(part).drop_last() =~= parts);
}

/// The views of lists and of optional strings are those of their members.
pub proof fn views_show_the_members(
    parts: Seq<&str>,
    strings: Seq<String>,
    i: int,
    text: Option<String>,
)
    ensures
        views(parts).len() == parts.len(),
        0 <= i < parts.len() ==> views(parts)[i] == parts[i]@,
        string_views(strings).len() == strings.len(),
        0 <= i < strings.len() ==> string_views(strings)[i] == strings[i]@,
        opt_view(text) is Some <==> text is Some,
        text matches Some(t) ==> opt_view(text) == Some(t@),
{
}

proof fn lemma_trim_start(text: Seq<char>, drop: spec_fn(char) -> bool) -> (front: Seq<char>)
    ensures
        text == front + trim_start(text, drop),
        forall|i: int| 0 <= i < front.len() ==> drop(#[trigger] front[i]),
        trim_start(text, drop).len() > 0 ==> !drop(trim_start(text, drop)[0]),
    decreases text.len(),
{
    if text.len() > 0 && drop(text[0]) {
        let rest = lemma_trim_start(text.drop_first(), drop);
        let front = seq![text[0]] + rest;
        let left = trim_start(text.drop_first(), drop);
        assert(text =~= seq![text[0]] + text.drop_first());
        assert(seq![text[0]] + (rest + left) =~= front + left);
        assert(text =~= front + trim_start(text, drop));
        front
    } else {
        assert(text =~= Seq::<char>::empty() + text);
        Seq::empty()
    }
}

proof fn lemma_trim_end(text: Seq<char>, drop: spec_fn(char) -> bool) -> (back: Seq<char>)
    ensures
        text == trim_end(text, drop) + back,
        forall|i: int| 0 <= i < back.len() ==> drop(#[trigger] back[i]),
        trim_end(text, drop).len() > 0 ==> !drop(trim_end(text, drop).last()),
    decreases text.len(),
{
    if text.len() > 0 && drop(text.last()) {
        let rest = lemma_trim_end(text.drop_last(), drop);
        let back = rest.push(text.last());
        let left = trim_end(text.drop_last(), drop);
        assert(text =~= text.drop_last().push(text.last()));
        assert((left + rest).push(text.last()) =~= left + back);
        assert(text =~= trim_end(text, drop) + back);
        back
    } else {
        assert(text =~= text + Seq::<char>::empty());
        Seq::empty()
    }
}

proof fn lemma_trim(text: Seq<char>, drop: spec_fn(char) -> bool) -> (around: (Seq<char>, Seq<char>))
    ensures
        text == around.0 + trim(text, drop) + around.1,
        forall|i: int| 0 <= i < around.0.len() ==> drop(#[trigger] around.0[i]),
        forall|i: int| 0 <= i < around.1.len() ==> drop(#[trigger] around.1[i]),
        trim(text, drop).len() > 0 ==> !drop(trim(text, drop)[0]) && !drop(trim(text, drop).last()),
{
    let front = lemma_trim_start(text, drop);
    let middle = trim_start(text, drop);
    let back = lemma_trim_end(middle, drop);
    let left = trim_end(middle, drop);
    assert(text =~= front + left + back);
    if left.len() > 0 {
        assert(left[0] == middle[0]);
    }
    (front, back)
}

/// The characters of the Unicode property `White_Space`, by their numbers.
pub proof fn white_space_by_number(c: char)
    ensures
        is_white_space(c) <==> {
            let n = c as u32;
            ||| 9 <= n <= 13
            ||| n == 32
            ||| n == 0x85
            ||| n == 0xa0
            ||| n == 0x1680
            ||| 0x2000 <= n <= 0x200a
            ||| n == 0x2028
            ||| n == 0x2029
            ||| n == 0x202f
            ||| n == 0x205f
            ||| n == 0x3000
        },
{
}

/// A system text is what is left of it with zeros at both ends outside and white
/// space inside of them, and nothing more is taken: what is left has no white
/// space at its ends, and what stood between the zeros has none of them at its
/// ends.
pub proof fn system_text_is_trimmed_and_no_more(text: Seq<char>) -> (around: (
    Seq<char>,
    Seq<char>,
    Seq<char>,
    Seq<char>,
))
    ensures
        text == around.0 + (around.1 + trim_system_text(text) + around.2) + around.3,
        forall|i: int| 0 <= i < around.0.len() ==> #[trigger] around.0[i] as u32 == 0,
        forall|i: int| 0 <= i < around.3.len() ==> #[trigger] around.3[i] as u32 == 0,
        forall|i: int| 0 <= i < around.1.len() ==> is_white_space(#[trigger] around.1[i]),
        forall|i: int| 0 <= i < around.2.len() ==> is_white_space(#[trigger] around.2[i]),
        ({
            let left = trim_system_text(text);
            let middle = around.1 + left + around.2;
            &&& left.len() > 0 ==> !is_white_space(left[0]) && !is_white_space(left.last())
            &&& middle.len() > 0 ==> middle[0] as u32 != 0 && middle.last() as u32 != 0
        }),
{
    let nul = |c: char| is_nul(c);
    let white = |c: char| is_white_space(c);
    let outer = lemma_trim(text, nul);
    let middle = trim(text, nul);
    let inner = lemma_trim(middle, white);
    assert forall|i: int| 0 <= i < outer.0.len() implies #[trigger] outer.0[i] as u32 == 0 by {
        assert(nul(outer.0[i]));
    }
    assert forall|i: int| 0 <= i < outer.1.len() implies #[trigger] outer.1[i] as u32 == 0 by {
        assert(nul(outer.1[i]));
    }
    assert forall|i: int| 0 <= i < inner.0.len() implies is_white_space(#[trigger] inner.0[i]) by {
        assert(white(inner.0[i]));
    }
    assert forall|i: int| 0 <= i < inner.1.len() implies is_white_space(#[trigger] inner.1[i]) by {
        assert(white(inner.1[i]));
    }
    if middle.len() > 0 {
        lemma_nul_number(middle[0]);
        lemma_nul_number(middle.last());
    }
    (outer.0, inner.0, inner.1, outer.1)
}

proof fn lemma_nul_number(c: char)
    ensures
        is_nul(c) <==> c as u32 == 0,
{
}

/// Only an empty text is none.
pub proof fn only_empty_text_is_none(text: Seq<char>)
    ensures
        text.len() == 0 ==> non_empty(text) is None,
        text.len() > 0 ==> non_empty(text) == Some(text),
{
}

/// The number that decimal digits stand for.
pub open spec fn digits_value(digits: Seq<char>) -> int
    decreases digits.len(),
{
    if digits.len() == 0 {
        0
    } else {
        10 * digits_value(digits.drop_last()) + (digits.last() as int - 48)
    }
}

/// A number in decimal consists of digits, has no zero in front unless it is
/// zero, and stands for the number.
pub proof fn decimal_stands_for_its_number(value: nat)
    ensures
        digits_value(decimal(value)) == value,
        decimal(value).len() > 0,
        forall|i: int| 0 <= i < decimal(value).len() ==> 48 <= #[trigger] decimal(value)[i] as u32 <= 57,
        value > 0 ==> decimal(value)[0] as u32 != 48,
        value == 0 ==> decimal(value).len() == 1,
    decreases value,
{
    reveal_with_fuel(digits_value, 2);
    if value >= 10 {
        let front = decimal(value / 10);
        decimal_stands_for_its_number(value / 10);
        assert(decimal(value).drop_last() =~= front);
        assert(decimal(value)[0] == front[0]);
    } else {
        assert(decimal(value).drop_last() =~= Seq::<char>::empty());
    }
}

/// The value of a hexadecimal digit, letters in upper case.
pub open spec fn hex_value(digit: char) -> int {
    if 48 <= digit as int <= 57 {
        digit as int - 48
    } else {
        digit as int - 55
    }
}

/// Eight hexadecimal digits stand for the number, the most significant first, and
/// each is a decimal digit or an upper-case letter up to F.
pub proof fn hex_stands_for_its_number(value: u32)
    ensures
        hex8(value).len() == 8,
        forall|i: int|
            0 <= i < 8 ==> {
                ||| 48 <= #[trigger] hex8(value)[i] as u32 <= 57
                ||| 65 <= hex8(value)[i] as u32 <= 70
            },
        value == 0x1000_0000 * hex_value(hex8(value)[0]) + 0x100_0000 * hex_value(hex8(value)[1])
            + 0x10_0000 * hex_value(hex8(value)[2]) + 0x1_0000 * hex_value(hex8(value)[3]) + 0x1000
            * hex_value(hex8(value)[4]) + 0x100 * hex_value(hex8(value)[5]) + 0x10 * hex_value(
            hex8(value)[6],
        ) + hex_value(hex8(value)[7]),
{
    assert((value >> 28u32) & 0xf < 16 && (value >> 24u32) & 0xf < 16 && (value >> 20u32) & 0xf < 16
        && (value >> 16u32) & 0xf < 16 && (value >> 12u32) & 0xf < 16 && (value >> 8u32) & 0xf < 16
        && (value >> 4u32) & 0xf < 16 && (value >> 0u32) & 0xf < 16) by (bit_vector);
    assert(value == 0x1000_0000 * ((value >> 28u32) & 0xf) + 0x100_0000 * ((value >> 24u32) & 0xf)
        + 0x10_0000 * ((value >> 20u32) & 0xf) + 0x1_0000 * ((value >> 16u32) & 0xf) + 0x1000 * ((value
        >> 12u32) & 0xf) + 0x100 * ((value >> 8u32) & 0xf) + 0x10 * ((value >> 4u32) & 0xf) + ((value
        >> 0u32) & 0xf)) by (bit_vector);
    assert forall|i: int| 0 <= i < 8 implies {
        ||| 48 <= #[trigger] hex8(value)[i] as u32 <= 57
        ||| 65 <= hex8(value)[i] as u32 <= 70
    } by {
        let shift = (28 - 4 * i) as u32;
        assert((value >> shift) & 0xf < 16) by (bit_vector);
    }
}

} // verus!
