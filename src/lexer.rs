use vstd::prelude::*;

use crate::grammar::{
    at, char_len, digits_len, exp_len, frac_len, has_word, inner_len, int_len, is_digit,
    is_hex_digit, is_short_escape, is_ws, number_len, string_len, ws_len,
};

verus! {

broadcast use vstd::std_specs::vec::group_vec_axioms;

pub(crate) fn is_ws_char(c: char) -> (r: bool)
    ensures
        r == is_ws(c),
{
    c == ' ' || c == '\t' || c == '\r' || c == '\n'
}

pub(crate) fn is_digit_char(c: char) -> (r: bool)
    ensures
        r == is_digit(c),
{
    '0' <= c && c <= '9'
}

fn is_hex_char(c: char) -> (r: bool)
    ensures
        r == is_hex_digit(c),
{
    ('0' <= c && c <= '9') || ('a' <= c && c <= 'f') || ('A' <= c && c <= 'F')
}

fn is_short_escape_char(c: char) -> (r: bool)
    ensures
        r == is_short_escape(c),
{
    c == '"' || c == '\\' || c == '/' || c == 'b' || c == 'f' || c == 'n' || c == 'r' || c == 't'
}

/// Whether `s[i]` exists and is `c`.
pub(crate) fn char_at(s: &Vec<char>, i: usize, c: char) -> (r: bool)
    ensures
        r == at(s@, i as int, c),
        r ==> i < s.len(),
{
    i < s.len() && s[i] == c
}

/// The position after the whitespace at `i`.
pub(crate) fn ws_end(s: &Vec<char>, i: usize) -> (r: usize)
    requires
        i <= s@.len(),
    ensures
        r == i + ws_len(s@, i as int),
        r <= s@.len(),
{
    let mut j = i;
    while j < s.len() && is_ws_char(s[j])
        invariant
            i <= j <= s@.len(),
            ws_len(s@, i as int) == (j - i) + ws_len(s@, j as int),
        decreases s@.len() - j,
    {
        j += 1;
    }
    j
}

/// The position after the digits at `i`.
fn digits_end(s: &Vec<char>, i: usize) -> (r: usize)
    requires
        i <= s@.len(),
    ensures
        r == i + digits_len(s@, i as int),
        r <= s@.len(),
{
    let mut j = i;
    while j < s.len() && is_digit_char(s[j])
        invariant
            i <= j <= s@.len(),
            digits_len(s@, i as int) == (j - i) + digits_len(s@, j as int),
        decreases s@.len() - j,
    {
        j += 1;
    }
    j
}

pub(crate) fn int_end(s: &Vec<char>, i: usize) -> (r: Option<usize>)
    requires
        i <= s@.len(),
    ensures
        r is Some <==> int_len(s@, i as int) is Some,
        r is Some ==> r->Some_0 == i + int_len(s@, i as int)->Some_0 && r->Some_0 <= s@.len(),
{
    if char_at(s, i, '0') {
        Some(i + 1)
    } else if i < s.len() && is_digit_char(s[i]) {
        Some(digits_end(s, i + 1))
    } else {
        None
    }
}

pub(crate) fn frac_end(s: &Vec<char>, i: usize) -> (r: Option<usize>)
    requires
        i <= s@.len(),
    ensures
        r is Some <==> frac_len(s@, i as int) is Some,
        r is Some ==> r->Some_0 == i + frac_len(s@, i as int)->Some_0 && r->Some_0 <= s@.len(),
{
    if char_at(s, i, '.') {
        let d = digits_end(s, i + 1);
        if d > i + 1 {
            return Some(d);
        }
    }
    None
}

pub(crate) fn exp_end(s: &Vec<char>, i: usize) -> (r: Option<usize>)
    requires
        i <= s@.len(),
    ensures
        r is Some <==> exp_len(s@, i as int) is Some,
        r is Some ==> r->Some_0 == i + exp_len(s@, i as int)->Some_0 && r->Some_0 <= s@.len(),
{
    if char_at(s, i, 'e') || char_at(s, i, 'E') {
        let j = if char_at(s, i + 1, '+') || char_at(s, i + 1, '-') {
            i + 2
        } else {
            i + 1
        };
        let d = digits_end(s, j);
        if d > j {
            return Some(d);
        }
    }
    None
}

pub(crate) fn number_end(s: &Vec<char>, i: usize) -> (r: Option<usize>)
    requires
        i <= s@.len(),
    ensures
        r is Some <==> number_len(s@, i as int) is Some,
        r is Some ==> r->Some_0 == i + number_len(s@, i as int)->Some_0 && r->Some_0 <= s@.len(),
{
    let j = if char_at(s, i, '-') {
        i + 1
    } else {
        i
    };
    match int_end(s, j) {
        None => None,
        Some(a) => {
            let f = match frac_end(s, a) {
                Some(f) => f,
                None => a,
            };
            match exp_end(s, f) {
                Some(e) => Some(e),
                None => Some(f),
            }
        },
    }
}

pub(crate) fn char_end(s: &Vec<char>, i: usize) -> (r: Option<usize>)
    requires
        i <= s@.len(),
    ensures
        r is Some <==> char_len(s@, i as int) is Some,
        r is Some ==> r->Some_0 == i + char_len(s@, i as int)->Some_0 && r->Some_0 <= s@.len(),
{
    if i >= s.len() {
        None
    } else if s[i] != '"' && s[i] != '\\' {
        Some(i + 1)
    } else if s[i] == '\\' && s.len() - i > 1 && is_short_escape_char(s[i + 1]) {
        Some(i + 2)
    } else if s[i] == '\\' && s.len() - i > 5 && s[i + 1] == 'u' && is_hex_char(s[i + 2])
        && is_hex_char(s[i + 3]) && is_hex_char(s[i + 4]) && is_hex_char(s[i + 5]) {
        Some(i + 6)
    } else {
        None
    }
}

pub(crate) fn inner_end(s: &Vec<char>, i: usize) -> (r: usize)
    requires
        i <= s@.len(),
    ensures
        r == i + inner_len(s@, i as int),
        r <= s@.len(),
{
    let mut j = i;
    loop
        invariant
            i <= j <= s@.len(),
            inner_len(s@, i as int) == (j - i) + inner_len(s@, j as int),
        decreases s@.len() - j,
    {
        match char_end(s, j) {
            Some(k) => {
                j = k;
            },
            None => {
                return j;
            },
        }
    }
}

pub(crate) fn string_end(s: &Vec<char>, i: usize) -> (r: Option<usize>)
    requires
        i <= s@.len(),
    ensures
        r is Some <==> string_len(s@, i as int) is Some,
        r is Some ==> r->Some_0 == i + string_len(s@, i as int)->Some_0 && r->Some_0 <= s@.len(),
{
    if char_at(s, i, '"') {
        let j = inner_end(s, i + 1);
        if char_at(s, j, '"') {
            return Some(j + 1);
        }
    }
    None
}

/// Whether the characters of `w` stand in `s` from `i` on.
pub(crate) fn word_at(s: &Vec<char>, i: usize, w: &Vec<char>) -> (r: bool)
    ensures
        r == has_word(s@, i as int, w@),
{
    if i > s.len() || w.len() > s.len() - i {
        return false;
    }
    let mut k: usize = 0;
    while k < w.len()
        invariant
            k <= w@.len(),
            i + w.len() <= s.len(),
            s@.subrange(i as int, i + k) == w@.subrange(0, k as int),
        decreases w@.len() - k,
    {
        if s[i + k] != w[k] {
            assert(s@.subrange(i as int, i + w@.len())[k as int] != w@[k as int]);
            return false;
        }
        k += 1;
        assert(s@.subrange(i as int, i + k) =~= w@.subrange(0, k as int));
    }
    assert(w@.subrange(0, k as int) =~= w@);
    true
}

} // verus!
