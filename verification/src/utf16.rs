//! UTF-16, as the Windows interfaces take and give it.

use crate::text::chars_of;
use vstd::prelude::*;

verus! {

/// The error of decoding UTF-16.
#[verifier::external_type_specification]
#[verifier::external_body]
pub struct ExFromUtf16Error(std::string::FromUtf16Error);

/// `std::string::String::from_utf16` decodes UTF-16 and refuses exactly the
/// sequences with a surrogate that has no partner.
pub assume_specification[ String::from_utf16 ](units: &[u16]) -> (res: Result<
    String,
    std::string::FromUtf16Error,
>)
    ensures
        res is Ok <==> utf16_decode(units@) is Some,
        res matches Ok(text) ==> utf16_decode(units@) == Some(text@),
;

/// The first half of a surrogate pair.
pub open spec fn is_high_surrogate(unit: u16) -> bool {
    0xd800 <= unit < 0xdc00
}

/// The second half of a surrogate pair.
pub open spec fn is_low_surrogate(unit: u16) -> bool {
    0xdc00 <= unit < 0xe000
}

/// The code units of one character: one of the basic plane is its own number,
/// any other a surrogate pair.
pub open spec fn utf16_encode_char(c: char) -> Seq<u16> {
    let n = c as u32;
    if n < 0x1_0000 {
        seq![n as u16]
    } else {
        seq![(0xd800 + (n - 0x1_0000) / 0x400) as u16, (0xdc00 + (n - 0x1_0000) % 0x400) as u16]
    }
}

/// The code units of a text.
pub open spec fn utf16_encode(text: Seq<char>) -> Seq<u16>
    decreases text.len(),
{
    if text.len() == 0 {
        Seq::empty()
    } else {
        utf16_encode_char(text[0]) + utf16_encode(text.drop_first())
    }
}

/// The character of a surrogate pair.
pub open spec fn pair_char(high: u16, low: u16) -> char {
    (0x1_0000 + (high - 0xd800) * 0x400 + (low - 0xdc00)) as char
}

/// The text of code units, or nothing where a surrogate has no partner.
pub open spec fn utf16_decode(units: Seq<u16>) -> Option<Seq<char>>
    decreases units.len(),
{
    if units.len() == 0 {
        Some(Seq::empty())
    } else if !is_high_surrogate(units[0]) && !is_low_surrogate(units[0]) {
        match utf16_decode(units.drop_first()) {
            Some(rest) => Some(seq![units[0] as char] + rest),
            None => None,
        }
    } else if is_high_surrogate(units[0]) && units.len() > 1 && is_low_surrogate(units[1]) {
        match utf16_decode(units.skip(2)) {
            Some(rest) => Some(seq![pair_char(units[0], units[1])] + rest),
            None => None,
        }
    } else {
        None
    }
}

/// Appends the code units of one character.
fn push_char(units: &mut Vec<u16>, c: char)
    ensures
        final(units)@ == old(units)@ + utf16_encode_char(c),
{
    let n: u32 = c as u32;
    if n < 0x1_0000 {
        units.push(n as u16);
    } else {
        let m: u32 = n - 0x1_0000;
        units.push((0xd800 + m / 0x400) as u16);
        units.push((0xdc00 + m % 0x400) as u16);
    }
    assert(units@ =~= old(units)@ + utf16_encode_char(c));
}

/// A text as the Windows interfaces take it: its code units and a zero.
pub fn wide_null(value: &str) -> (units: Vec<u16>)
    ensures
        units@ == utf16_encode(value@).push(0),
{
    let chars: Vec<char> = chars_of(value);
    let mut units: Vec<u16> = Vec::new();
    let mut i: usize = 0;
    assert(chars@.skip(0) =~= chars@);
    while i < chars.len()
        invariant
            i <= chars@.len(),
            units@ + utf16_encode(chars@.skip(i as int)) =~= utf16_encode(chars@),
        decreases chars@.len() - i,
    {
        let ghost before = units@;
        push_char(&mut units, chars[i]);
        assert(chars@.skip(i as int).drop_first() =~= chars@.skip(i + 1));
        assert(units@ + utf16_encode(chars@.skip(i + 1)) =~= before + utf16_encode(
            chars@.skip(i as int),
        ));
        i += 1;
    }
    units.push(0);
    units
}

/// The code units of one character give the character back.
proof fn lemma_char_round_trip(c: char)
    ensures
        ({
            let units = utf16_encode_char(c);
            if (c as u32) < 0x1_0000 {
                &&& units.len() == 1
                &&& !is_high_surrogate(units[0])
                &&& !is_low_surrogate(units[0])
                &&& units[0] as char == c
            } else {
                &&& units.len() == 2
                &&& is_high_surrogate(units[0])
                &&& is_low_surrogate(units[1])
                &&& pair_char(units[0], units[1]) == c
            }
        }),
{
    let n = c as u32;
    assert(n < 0xd800 || 0xe000 <= n < 0x11_0000);
    if n >= 0x1_0000 {
        let m = n - 0x1_0000;
        assert(m == 0x400 * (m / 0x400) + m % 0x400);
    }
}

/// Decoding the code units of a text gives the text.
pub proof fn utf16_round_trip(text: Seq<char>)
    ensures
        utf16_decode(utf16_encode(text)) == Some(text),
    decreases text.len(),
{
    if text.len() > 0 {
        let c = text[0];
        let rest = text.drop_first();
        let units = utf16_encode(text);
        lemma_char_round_trip(c);
        utf16_round_trip(rest);
        if (c as u32) < 0x1_0000 {
            assert(units.drop_first() =~= utf16_encode(rest));
        } else {
            assert(units.skip(2) =~= utf16_encode(rest));
        }
        assert(seq![c] + rest =~= text);
    }
}

/// A character of the basic plane is one code unit, its number. Any other is two:
/// a high and a low surrogate that hold its number less 0x10000, ten bits each.
pub proof fn units_of_a_character(c: char)
    ensures
        ({
            let units = utf16_encode(seq![c]);
            let n = c as u32;
            if n < 0x1_0000 {
                units.len() == 1 && units[0] == n
            } else {
                &&& units.len() == 2
                &&& 0xd800 <= units[0] <= 0xdbff
                &&& 0xdc00 <= units[1] <= 0xdfff
                &&& n - 0x1_0000 == 0x400 * (units[0] - 0xd800) + (units[1] - 0xdc00)
            }
        }),
{
    lemma_char_round_trip(c);
    assert(seq![c].drop_first() =~= Seq::empty());
    assert(utf16_encode(Seq::empty()) == Seq::<u16>::empty());
    assert(utf16_encode(seq![c]) =~= utf16_encode_char(c));
    let n = c as u32;
    if n >= 0x1_0000 {
        let m = n - 0x1_0000;
        assert(m == 0x400 * (m / 0x400) + m % 0x400);
    }
}

/// The code units of one text behind another are those of the one behind those
/// of the other.
pub proof fn units_of_texts_in_a_row(a: Seq<char>, b: Seq<char>)
    ensures
        utf16_encode(a + b) == utf16_encode(a) + utf16_encode(b),
        utf16_encode(Seq::empty()) == Seq::<u16>::empty(),
    decreases a.len(),
{
    if a.len() == 0 {
        assert(a + b =~= b);
        assert(utf16_encode(a) + utf16_encode(b) =~= utf16_encode(b));
    } else {
        units_of_texts_in_a_row(a.drop_first(), b);
        assert((a + b).drop_first() =~= a.drop_first() + b);
        assert(utf16_encode(a + b) =~= utf16_encode(a) + utf16_encode(b));
    }
}

proof fn lemma_unit_round_trip(unit: u16)
    requires
        !is_high_surrogate(unit),
        !is_low_surrogate(unit),
    ensures
        utf16_encode_char(unit as char) == seq![unit],
{
    assert(unit as char as u32 == unit);
}

proof fn lemma_pair_round_trip(high: u16, low: u16)
    requires
        is_high_surrogate(high),
        is_low_surrogate(low),
    ensures
        utf16_encode_char(pair_char(high, low)) == seq![high, low],
{
    let m: int = (high - 0xd800) * 0x400 + (low - 0xdc00);
    assert(0 <= m < 0x10_0000);
    assert(pair_char(high, low) as u32 == 0x1_0000 + m);
    assert(m / 0x400 == high - 0xd800);
    assert(m % 0x400 == low - 0xdc00);
}

/// What code units decode to has these code units: they decode to a text exactly
/// if they are the code units of that text.
pub proof fn decoded_text_has_these_units(units: Seq<u16>, text: Seq<char>)
    ensures
        utf16_decode(units) == Some(text) <==> units == utf16_encode(text),
    decreases units.len(),
{
    utf16_round_trip(text);
    if utf16_decode(units) == Some(text) && units.len() == 0 {
        assert(text.len() == 0);
        assert(units =~= utf16_encode(text));
    } else if utf16_decode(units) == Some(text) {
        if !is_high_surrogate(units[0]) && !is_low_surrogate(units[0]) {
            let rest = utf16_decode(units.drop_first())->0;
            decoded_text_has_these_units(units.drop_first(), rest);
            assert(text.drop_first() =~= rest);
            lemma_unit_round_trip(units[0]);
            assert(text[0] == units[0] as char);
            assert(units =~= utf16_encode(text));
        } else {
            let rest = utf16_decode(units.skip(2))->0;
            decoded_text_has_these_units(units.skip(2), rest);
            assert(text.drop_first() =~= rest);
            lemma_pair_round_trip(units[0], units[1]);
            assert(text[0] == pair_char(units[0], units[1]));
            assert(units =~= utf16_encode(text));
        }
    }
}

} // verus!
