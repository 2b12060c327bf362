use vstd::prelude::*;

use crate::grammar::{
    at, char_len, file_spec, is_hex_digit, is_short_escape, value_spec, ws_len,
};
use crate::roundtrip::{closes, lay, lemma_value_fwd, lemma_value_valid};
use crate::serializer::{ser, ser_pairs, ser_values};
use crate::value::JValue;

verus! {

/// Every escape form of the grammar is one `char` of a string, and a string
/// that holds it is kept, escape and all, as the value and in its text.
pub proof fn lemma_escapes_kept(e: char, h1: char, h2: char, h3: char, h4: char)
    requires
        is_hex_digit(h1) && is_hex_digit(h2) && is_hex_digit(h3) && is_hex_digit(h4),
    ensures
        is_short_escape(e) ==> char_len(seq!['\\', e], 0) == Some(2nat),
        char_len(seq!['\\', 'u', h1, h2, h3, h4], 0) == Some(6nat),
        is_short_escape(e) ==> value_spec(seq!['"', '\\', e, '"'], 0) == Some(
            (JValue::Str(seq!['\\', e]), 4nat),
        ),
        value_spec(seq!['"', '\\', 'u', h1, h2, h3, h4, '"'], 0) == Some(
            (JValue::Str(seq!['\\', 'u', h1, h2, h3, h4]), 8nat),
        ),
        ser(JValue::Str(seq!['\\', e])) == seq!['"', '\\', e, '"'],
        ser(JValue::Str(seq!['\\', 'u', h1, h2, h3, h4])) == seq![
            '"',
            '\\',
            'u',
            h1,
            h2,
            h3,
            h4,
            '"',
        ],
{
    let s = seq!['"', '\\', e, '"'];
    let u = seq!['"', '\\', 'u', h1, h2, h3, h4, '"'];
    reveal_with_fuel(crate::grammar::inner_len, 3);
    assert(s.subrange(1, 3) =~= seq!['\\', e]);
    assert(u.subrange(1, 7) =~= seq!['\\', 'u', h1, h2, h3, h4]);
    assert(ser(JValue::Str(seq!['\\', e])) =~= s);
    assert(ser(JValue::Str(seq!['\\', 'u', h1, h2, h3, h4])) =~= u);
}

/// Parsing a document, serializing the value and parsing that text again
/// gives the same value: the round trip is exact on values.
pub proof fn lemma_round_trip(s: Seq<char>)
    requires
        file_spec(s) is Some,
    ensures
        file_spec(ser(file_spec(s)->Some_0)) == file_spec(s),
{
    let j = ws_len(s, 0) as int;
    let v = file_spec(s)->Some_0;
    lemma_value_valid(s, j);
    let t = ser(v);
    assert(t.subrange(0, t.len() as int) =~= t);
    assert(lay(t, 0, t) && closes(t, t.len() as int));
    lemma_value_fwd(t, 0, v);
    match v {
        JValue::Object(ps) => {
            assert((seq!['{'] + ser_pairs(ps) + seq!['}'])[0] == '{');
        },
        JValue::Array(vs) => {
            assert((seq!['['] + ser_values(vs) + seq![']'])[0] == '[');
        },
        _ => {},
    }
    assert(at(t, 0, '{') || at(t, 0, '['));
    assert(ws_len(t, 0) == 0);
    assert(ws_len(t, t.len() as int) == 0);
}

/// A document must be an object or an array: text whose first character
/// after the leading whitespace opens neither, such as a bare string, number,
/// boolean or null, is rejected.
pub proof fn lemma_scalar_document_rejected(s: Seq<char>)
    requires
        !(at(s, ws_len(s, 0) as int, '{') || at(s, ws_len(s, 0) as int, '[')),
    ensures
        file_spec(s) is None,
{
}

} // verus!
