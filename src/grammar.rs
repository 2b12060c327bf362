use vstd::prelude::*;

use crate::value::JValue;

verus! {

// Lexical rules of the grammar. Each rule is stated as the number of
// characters it matches at position `i` of `s`; a rule that cannot match
// yields `None` (or zero for the repetitions, which always match).

pub open spec fn is_ws(c: char) -> bool {
    c == ' ' || c == '\t' || c == '\r' || c == '\n'
}

pub open spec fn is_digit(c: char) -> bool {
    '0' <= c && c <= '9'
}

pub open spec fn is_hex_digit(c: char) -> bool {
    is_digit(c) || ('a' <= c && c <= 'f') || ('A' <= c && c <= 'F')
}

/// The characters that may follow a backslash to form a short escape.
pub open spec fn is_short_escape(c: char) -> bool {
    c == '"' || c == '\\' || c == '/' || c == 'b' || c == 'f' || c == 'n' || c == 'r' || c == 't'
}

/// Whether `s[i]` exists and is `c`.
pub open spec fn at(s: Seq<char>, i: int, c: char) -> bool {
    0 <= i < s.len() && s[i] == c
}

/// Length of the run of whitespace at `i`.
pub open spec fn ws_len(s: Seq<char>, i: int) -> nat
    decreases s.len() - i,
{
    if 0 <= i < s.len() && is_ws(s[i]) {
        1 + ws_len(s, i + 1)
    } else {
        0
    }
}

/// Length of the run of decimal digits at `i`.
pub open spec fn digits_len(s: Seq<char>, i: int) -> nat
    decreases s.len() - i,
{
    if 0 <= i < s.len() && is_digit(s[i]) {
        1 + digits_len(s, i + 1)
    } else {
        0
    }
}

/// `int = "0" | nonzero-digit digit*`
pub open spec fn int_len(s: Seq<char>, i: int) -> Option<nat> {
    if at(s, i, '0') {
        Some(1)
    } else if 0 <= i < s.len() && is_digit(s[i]) {
        Some(1 + digits_len(s, i + 1))
    } else {
        None
    }
}

/// `frac = "." digit+`
pub open spec fn frac_len(s: Seq<char>, i: int) -> Option<nat> {
    if at(s, i, '.') && digits_len(s, i + 1) > 0 {
        Some(1 + digits_len(s, i + 1))
    } else {
        None
    }
}

/// Length of the optional sign at `i`.
pub open spec fn sign_len(s: Seq<char>, i: int) -> nat {
    if at(s, i, '+') || at(s, i, '-') {
        1
    } else {
        0
    }
}

/// `exp = ("e" | "E") ("+" | "-")? digit+`
pub open spec fn exp_len(s: Seq<char>, i: int) -> Option<nat> {
    if (at(s, i, 'e') || at(s, i, 'E')) && digits_len(s, i + 1 + sign_len(s, i + 1)) > 0 {
        Some(1 + sign_len(s, i + 1) + digits_len(s, i + 1 + sign_len(s, i + 1)))
    } else {
        None
    }
}

/// `number = "-"? int frac? exp?`
pub open spec fn number_len(s: Seq<char>, i: int) -> Option<nat> {
    let m: nat = if at(s, i, '-') { 1 } else { 0 };
    match int_len(s, i + m) {
        None => None,
        Some(a) => {
            let f: nat = match frac_len(s, i + m + a) {
                Some(f) => f,
                None => 0,
            };
            let e: nat = match exp_len(s, i + m + a + f) {
                Some(e) => e,
                None => 0,
            };
            Some(m + a + f + e)
        },
    }
}

/// `char`: any character but a quote or a backslash, a backslash and a
/// short escape, or a backslash, `u` and four hex digits.
pub open spec fn char_len(s: Seq<char>, i: int) -> Option<nat> {
    if !(0 <= i < s.len()) {
        None
    } else if s[i] != '"' && s[i] != '\\' {
        Some(1)
    } else if s[i] == '\\' && i + 1 < s.len() && is_short_escape(s[i + 1]) {
        Some(2)
    } else if s[i] == '\\' && i + 5 < s.len() && s[i + 1] == 'u' && is_hex_digit(s[i + 2])
        && is_hex_digit(s[i + 3]) && is_hex_digit(s[i + 4]) && is_hex_digit(s[i + 5]) {
        Some(6)
    } else {
        None
    }
}

/// `inner = char*`
pub open spec fn inner_len(s: Seq<char>, i: int) -> nat
    decreases s.len() - i,
{
    match char_len(s, i) {
        Some(n) => if n > 0 {
            n + inner_len(s, i + n)
        } else {
            0
        },
        None => 0,
    }
}

/// `string = "\"" inner "\""`
pub open spec fn string_len(s: Seq<char>, i: int) -> Option<nat> {
    if at(s, i, '"') && at(s, i + 1 + inner_len(s, i + 1), '"') {
        Some(inner_len(s, i + 1) + 2)
    } else {
        None
    }
}

/// Whether the characters of `w` stand in `s` from `i` on.
pub open spec fn has_word(s: Seq<char>, i: int, w: Seq<char>) -> bool {
    0 <= i && i + w.len() <= s.len() && s.subrange(i, i + w.len()) == w
}

/// A key and its value, as an object holds them.
pub type JPair = (Seq<char>, JValue);

/// `value = object | array | string | number | boolean | null`, matched at
/// `i`; the alternatives start with distinct characters, so the first
/// character picks the only one that can match.
pub open spec fn value_spec(s: Seq<char>, i: int) -> Option<(JValue, nat)>
    decreases s.len() - i, 1nat,
{
    if !(0 <= i < s.len()) {
        None
    } else if s[i] == '{' {
        object_spec(s, i)
    } else if s[i] == '[' {
        array_spec(s, i)
    } else if s[i] == '"' {
        match string_len(s, i) {
            Some(n) => Some((JValue::Str(s.subrange(i + 1, i + n - 1)), n)),
            None => None,
        }
    } else if s[i] == '-' || is_digit(s[i]) {
        match number_len(s, i) {
            Some(n) => Some((JValue::Num(s.subrange(i, i + n)), n)),
            None => None,
        }
    } else if has_word(s, i, seq!['t', 'r', 'u', 'e']) {
        Some((JValue::Bool(true), 4))
    } else if has_word(s, i, seq!['f', 'a', 'l', 's', 'e']) {
        Some((JValue::Bool(false), 5))
    } else if has_word(s, i, seq!['n', 'u', 'l', 'l']) {
        Some((JValue::Null, 4))
    } else {
        None
    }
}

/// `pair = string ":" value`
pub open spec fn pair_spec(s: Seq<char>, i: int) -> Option<(JPair, nat)>
    decreases s.len() - i, 1nat,
{
    match string_len(s, i) {
        None => None,
        Some(n) => {
            let j = i + n + ws_len(s, i + n);
            let k = j + 1 + ws_len(s, j + 1);
            if at(s, j, ':') && k < s.len() {
                match value_spec(s, k) {
                    Some((v, m)) => Some(((s.subrange(i + 1, i + n - 1), v), (k + m - i) as nat)),
                    None => None,
                }
            } else {
                None
            }
        },
    }
}

/// `("," pair)* "}"` after the pairs `acc` of an object: the pairs and the
/// position after the closing brace.
pub open spec fn members_spec(s: Seq<char>, i: int, acc: Seq<JPair>) -> Option<(Seq<JPair>, int)>
    decreases (if i <= s.len() { s.len() - i } else { 0 }), 1nat,
{
    let j = i + ws_len(s, i);
    let k = j + 1 + ws_len(s, j + 1);
    if at(s, j, ',') && 0 <= i && k < s.len() {
        match pair_spec(s, k) {
            Some((p, n)) => members_spec(s, k + n, acc.push(p)),
            None => None,
        }
    } else if at(s, j, '}') {
        Some((acc, j + 1))
    } else {
        None
    }
}

/// `object = "{" "}" | "{" pair ("," pair)* "}"`
pub open spec fn object_spec(s: Seq<char>, i: int) -> Option<(JValue, nat)>
    decreases s.len() - i, 0nat,
{
    let j = i + 1 + ws_len(s, i + 1);
    if !at(s, i, '{') || !(j < s.len()) {
        None
    } else if s[j] == '}' {
        Some((JValue::Object(Seq::empty()), (j + 1 - i) as nat))
    } else {
        match pair_spec(s, j) {
            Some((p, n)) => match members_spec(s, j + n, seq![p]) {
                Some((ps, e)) => Some((JValue::Object(ps), (e - i) as nat)),
                None => None,
            },
            None => None,
        }
    }
}

/// `("," value)* "]"` after the values `acc` of an array: the values and
/// the position after the closing bracket.
pub open spec fn elements_spec(s: Seq<char>, i: int, acc: Seq<JValue>) -> Option<(Seq<JValue>, int)>
    decreases (if i <= s.len() { s.len() - i } else { 0 }), 1nat,
{
    let j = i + ws_len(s, i);
    let k = j + 1 + ws_len(s, j + 1);
    if at(s, j, ',') && 0 <= i && k < s.len() {
        match value_spec(s, k) {
            Some((v, n)) => elements_spec(s, k + n, acc.push(v)),
            None => None,
        }
    } else if at(s, j, ']') {
        Some((acc, j + 1))
    } else {
        None
    }
}

/// `array = "[" "]" | "[" value ("," value)* "]"`
pub open spec fn array_spec(s: Seq<char>, i: int) -> Option<(JValue, nat)>
    decreases s.len() - i, 0nat,
{
    let j = i + 1 + ws_len(s, i + 1);
    if !at(s, i, '[') || !(j < s.len()) {
        None
    } else if s[j] == ']' {
        Some((JValue::Array(Seq::empty()), (j + 1 - i) as nat))
    } else {
        match value_spec(s, j) {
            Some((v, n)) => match elements_spec(s, j + n, seq![v]) {
                Some((vs, e)) => Some((JValue::Array(vs), (e - i) as nat)),
                None => None,
            },
            None => None,
        }
    }
}

/// `file = start-of-input (object | array) end-of-input`, with whitespace
/// allowed around the document.
pub open spec fn file_spec(s: Seq<char>) -> Option<JValue> {
    let j = ws_len(s, 0) as int;
    if at(s, j, '{') || at(s, j, '[') {
        match value_spec(s, j) {
            Some((v, n)) => if j + n + ws_len(s, j + n) == s.len() {
                Some(v)
            } else {
                None
            },
            None => None,
        }
    } else {
        None
    }
}

} // verus!
