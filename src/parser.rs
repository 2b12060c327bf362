use vstd::prelude::*;

use crate::grammar::{
    array_spec, char_len, elements_spec, exp_len, file_spec, frac_len, has_word, inner_len,
    int_len, members_spec, number_len, object_spec, pair_spec, string_len, value_spec, ws_len,
    JPair,
};
use crate::lexer::{
    char_at, char_end, exp_end, frac_end, inner_end, int_end, is_digit_char, number_end,
    string_end, word_at, ws_end,
};
use crate::text::{chars_of, span_string};
use crate::value::{JSONValue, JValue};

verus! {

broadcast use vstd::std_specs::vec::group_vec_axioms;

/// The models of the pairs of an object, in order.
pub open spec fn pairs_model(ps: Seq<(String, JSONValue)>) -> Seq<JPair> {
    Seq::new(ps.len(), |k: int| (ps[k].0@, ps[k].1.model()))
}

/// The models of the values of an array, in order.
pub open spec fn values_model(vs: Seq<JSONValue>) -> Seq<JValue> {
    Seq::new(vs.len(), |k: int| vs[k].model())
}

proof fn lemma_object_model(ps: Vec<(String, JSONValue)>)
    ensures
        JSONValue::Object(ps).model() == JValue::Object(pairs_model(ps@)),
{
    assert(pairs_model(ps@) =~= match JSONValue::Object(ps).model() {
        JValue::Object(m) => m,
        _ => Seq::empty(),
    });
}

proof fn lemma_array_model(vs: Vec<JSONValue>)
    ensures
        JSONValue::Array(vs).model() == JValue::Array(values_model(vs@)),
{
    assert(values_model(vs@) =~= match JSONValue::Array(vs).model() {
        JValue::Array(m) => m,
        _ => Seq::empty(),
    });
}

/// What a recognizer of the value rules returns, against the rule's
/// statement `spec`: on success the value and the position after it, on
/// failure a position in the input.
pub open spec fn value_result(
    r: Result<(JSONValue, usize), usize>,
    spec: Option<(JValue, nat)>,
    i: int,
    len: int,
) -> bool {
    match r {
        Ok((v, e)) => spec == Some((v.model(), (e - i) as nat)) && i < e <= len,
        Err(p) => spec is None && p <= len,
    }
}

fn parse_value(s: &Vec<char>, i: usize) -> (r: Result<(JSONValue, usize), usize>)
    requires
        i <= s@.len(),
    ensures
        value_result(r, value_spec(s@, i as int), i as int, s@.len() as int),
    decreases s@.len() - i, 1nat,
{
    if i >= s.len() {
        return Err(i);
    }
    let c = s[i];
    if c == '{' {
        parse_object(s, i)
    } else if c == '[' {
        parse_array(s, i)
    } else if c == '"' {
        match string_end(s, i) {
            Some(e) => Ok((JSONValue::String(span_string(s, i + 1, e - 1)), e)),
            None => Err(i),
        }
    } else if c == '-' || is_digit_char(c) {
        match number_end(s, i) {
            Some(e) => Ok((JSONValue::Number(span_string(s, i, e)), e)),
            None => Err(i),
        }
    } else if word_at(s, i, &vec!['t', 'r', 'u', 'e']) {
        Ok((JSONValue::Boolean(true), i + 4))
    } else if word_at(s, i, &vec!['f', 'a', 'l', 's', 'e']) {
        Ok((JSONValue::Boolean(false), i + 5))
    } else if word_at(s, i, &vec!['n', 'u', 'l', 'l']) {
        Ok((JSONValue::Null, i + 4))
    } else {
        Err(i)
    }
}

fn parse_pair(s: &Vec<char>, i: usize) -> (r: Result<((String, JSONValue), usize), usize>)
    requires
        i <= s@.len(),
    ensures
        match r {
            Ok((p, e)) => pair_spec(s@, i as int) == Some(((p.0@, p.1.model()), (e - i) as nat))
                && i < e <= s@.len(),
            Err(q) => pair_spec(s@, i as int) is None && q <= s@.len(),
        },
    decreases s@.len() - i, 1nat,
{
    let n = match string_end(s, i) {
        Some(n) => n,
        None => return Err(i),
    };
    let j = ws_end(s, n);
    if !char_at(s, j, ':') {
        return Err(j);
    }
    let k = ws_end(s, j + 1);
    if k >= s.len() {
        return Err(k);
    }
    match parse_value(s, k) {
        Ok((v, e)) => Ok(((span_string(s, i + 1, n - 1), v), e)),
        Err(q) => Err(q),
    }
}

fn parse_object(s: &Vec<char>, i: usize) -> (r: Result<(JSONValue, usize), usize>)
    requires
        i <= s@.len(),
    ensures
        value_result(r, object_spec(s@, i as int), i as int, s@.len() as int),
    decreases s@.len() - i, 0nat,
{
    if !char_at(s, i, '{') {
        return Err(i);
    }
    let j = ws_end(s, i + 1);
    if j >= s.len() {
        return Err(j);
    }
    if s[j] == '}' {
        let empty = Vec::new();
        proof {
            lemma_object_model(empty);
            assert(pairs_model(empty@) =~= Seq::empty());
        }
        return Ok((JSONValue::Object(empty), j + 1));
    }
    let (first, mut pos) = match parse_pair(s, j) {
        Ok(x) => x,
        Err(q) => return Err(q),
    };
    let mut pairs: Vec<(String, JSONValue)> = Vec::new();
    pairs.push(first);
    assert(pairs_model(pairs@) =~= seq![(first.0@, first.1.model())]);
    loop
        invariant
            i < pos <= s@.len(),
            object_spec(s@, i as int) == match members_spec(s@, pos as int, pairs_model(pairs@)) {
                Some((ps, e)) => Some((JValue::Object(ps), (e - i) as nat)),
                None => None,
            },
        decreases s@.len() - pos,
    {
        let j2 = ws_end(s, pos);
        if char_at(s, j2, ',') {
            let k = ws_end(s, j2 + 1);
            if k >= s.len() {
                return Err(k);
            }
            match parse_pair(s, k) {
                Ok((p, e)) => {
                    let ghost old_pairs = pairs@;
                    pairs.push(p);
                    assert(pairs_model(pairs@) =~= pairs_model(old_pairs).push((p.0@, p.1.model())));
                    pos = e;
                },
                Err(q) => return Err(q),
            }
        } else if char_at(s, j2, '}') {
            proof {
                lemma_object_model(pairs);
            }
            return Ok((JSONValue::Object(pairs), j2 + 1));
        } else {
            return Err(j2);
        }
    }
}

fn parse_array(s: &Vec<char>, i: usize) -> (r: Result<(JSONValue, usize), usize>)
    requires
        i <= s@.len(),
    ensures
        value_result(r, array_spec(s@, i as int), i as int, s@.len() as int),
    decreases s@.len() - i, 0nat,
{
    if !char_at(s, i, '[') {
        return Err(i);
    }
    let j = ws_end(s, i + 1);
    if j >= s.len() {
        return Err(j);
    }
    if s[j] == ']' {
        let empty = Vec::new();
        proof {
            lemma_array_model(empty);
            assert(values_model(empty@) =~= Seq::empty());
        }
        return Ok((JSONValue::Array(empty), j + 1));
    }
    let (first, mut pos) = match parse_value(s, j) {
        Ok(x) => x,
        Err(q) => return Err(q),
    };
    let mut values: Vec<JSONValue> = Vec::new();
    values.push(first);
    assert(values_model(values@) =~= seq![first.model()]);
    loop
        invariant
            i < pos <= s@.len(),
            array_spec(s@, i as int) == match elements_spec(s@, pos as int, values_model(values@)) {
                Some((vs, e)) => Some((JValue::Array(vs), (e - i) as nat)),
                None => None,
            },
        decreases s@.len() - pos,
    {
        let j2 = ws_end(s, pos);
        if char_at(s, j2, ',') {
            let k = ws_end(s, j2 + 1);
            if k >= s.len() {
                return Err(k);
            }
            match parse_value(s, k) {
                Ok((v, e)) => {
                    let ghost old_values = values@;
                    values.push(v);
                    assert(values_model(values@) =~= values_model(old_values).push(v.model()));
                    pos = e;
                },
                Err(q) => return Err(q),
            }
        } else if char_at(s, j2, ']') {
            proof {
                lemma_array_model(values);
            }
            return Ok((JSONValue::Array(values), j2 + 1));
        } else {
            return Err(j2);
        }
    }
}

/// The rules of the grammar that can be matched on their own.
#[derive(Debug, Clone, Copy, PartialEq, Eq)]
pub enum Rule {
    File,
    Object,
    Array,
    Pair,
    Value,
    String,
    Inner,
    Char,
    Int,
    Frac,
    Exp,
    Number,
    Boolean,
    Null,
}

/// A failure to match a rule: the rule asked for and the character offset
/// at which matching stopped.
#[derive(Debug, Clone, Copy)]
pub struct SyntaxError {
    pub rule: Rule,
    pub offset: usize,
}

/// Why a document could not be turned into a value.
#[derive(Debug, Clone, Copy)]
pub enum JSONError {
    /// The text is not a `file` of the grammar.
    Syntax(SyntaxError),
}

/// The number of characters that `rule` matches at the start of `s`.
pub open spec fn rule_len(rule: Rule, s: Seq<char>) -> Option<nat> {
    match rule {
        Rule::File => match file_spec(s) {
            Some(_) => Some(ws_len(s, 0) + value_spec(s, ws_len(s, 0) as int)->Some_0.1),
            None => None,
        },
        Rule::Object => match object_spec(s, 0) {
            Some((_, n)) => Some(n),
            None => None,
        },
        Rule::Array => match array_spec(s, 0) {
            Some((_, n)) => Some(n),
            None => None,
        },
        Rule::Pair => match pair_spec(s, 0) {
            Some((_, n)) => Some(n),
            None => None,
        },
        Rule::Value => match value_spec(s, 0) {
            Some((_, n)) => Some(n),
            None => None,
        },
        Rule::String => string_len(s, 0),
        Rule::Inner => Some(inner_len(s, 0)),
        Rule::Char => char_len(s, 0),
        Rule::Int => int_len(s, 0),
        Rule::Frac => frac_len(s, 0),
        Rule::Exp => exp_len(s, 0),
        Rule::Number => number_len(s, 0),
        Rule::Boolean => if has_word(s, 0, seq!['t', 'r', 'u', 'e']) {
            Some(4)
        } else if has_word(s, 0, seq!['f', 'a', 'l', 's', 'e']) {
            Some(5)
        } else {
            None
        },
        Rule::Null => if has_word(s, 0, seq!['n', 'u', 'l', 'l']) {
            Some(4)
        } else {
            None
        },
    }
}

/// Where the text that a match of `rule` reports starts: a `file` reports
/// its document without the whitespace before it, every other rule starts
/// at the beginning.
pub open spec fn rule_start(rule: Rule, s: Seq<char>) -> nat {
    if rule == Rule::File {
        ws_len(s, 0)
    } else {
        0
    }
}

/// Where the text that a match of `rule` reports ends.
pub open spec fn rule_end(rule: Rule, s: Seq<char>) -> int {
    if rule == Rule::File {
        (ws_len(s, 0) + value_spec(s, ws_len(s, 0) as int)->Some_0.1) as int
    } else {
        rule_len(rule, s)->Some_0 as int
    }
}

fn end_of(r: Result<(JSONValue, usize), usize>) -> (e: Option<usize>)
    ensures
        match r {
            Ok((_, n)) => e == Some(n),
            Err(_) => e is None,
        },
{
    match r {
        Ok((_, n)) => Some(n),
        Err(_) => None,
    }
}

/// The recognizer of the grammar.
pub struct JSONParser {}

impl JSONParser {
    /// Matches `rule` at the start of `input` and returns the text that the
    /// match covers; the rest of the input is left unread, but for `file`,
    /// which must take all of it.
    pub fn parse(rule: Rule, input: &str) -> (r: Result<String, SyntaxError>)
        ensures
            r is Ok <==> rule_len(rule, input@) is Some,
            r is Ok ==> r->Ok_0@ == input@.subrange(
                rule_start(rule, input@) as int,
                rule_end(rule, input@),
            ),
            r is Err ==> r->Err_0.rule == rule && r->Err_0.offset <= input@.len(),
    {
        let s = chars_of(input);
        let end: Option<usize> = match rule {
            Rule::File => {
                return match parse_json_file_chars(&s) {
                    Ok((_, a, b)) => Ok(span_string(&s, a, b)),
                    Err(p) => Err(SyntaxError { rule, offset: p }),
                };
            },
            Rule::Object => end_of(parse_object(&s, 0)),
            Rule::Array => end_of(parse_array(&s, 0)),
            Rule::Pair => match parse_pair(&s, 0) {
                Ok((_, n)) => Some(n),
                Err(_) => None,
            },
            Rule::Value => end_of(parse_value(&s, 0)),
            Rule::String => string_end(&s, 0),
            Rule::Inner => Some(inner_end(&s, 0)),
            Rule::Char => char_end(&s, 0),
            Rule::Int => int_end(&s, 0),
            Rule::Frac => frac_end(&s, 0),
            Rule::Exp => exp_end(&s, 0),
            Rule::Number => number_end(&s, 0),
            Rule::Boolean => if word_at(&s, 0, &vec!['t', 'r', 'u', 'e']) {
                Some(4)
            } else if word_at(&s, 0, &vec!['f', 'a', 'l', 's', 'e']) {
                Some(5)
            } else {
                None
            },
            Rule::Null => if word_at(&s, 0, &vec!['n', 'u', 'l', 'l']) {
                Some(4)
            } else {
                None
            },
        };
        match end {
            Some(e) => Ok(span_string(&s, 0, e)),
            None => Err(SyntaxError { rule, offset: 0 }),
        }
    }
}

/// Recognizes a whole document in `s`: its value and where the value
/// starts and ends, or the offset at which recognition stopped.
fn parse_json_file_chars(s: &Vec<char>) -> (r: Result<(JSONValue, usize, usize), usize>)
    ensures
        r is Ok <==> file_spec(s@) is Some,
        r is Ok ==> {
            let (v, a, b) = r->Ok_0;
            &&& file_spec(s@) == Some(v.model())
            &&& a == ws_len(s@, 0)
            &&& b == a + value_spec(s@, a as int)->Some_0.1
        },
        r is Err ==> r->Err_0 <= s@.len(),
{
    let j = ws_end(s, 0);
    if !(char_at(s, j, '{') || char_at(s, j, '[')) {
        return Err(j);
    }
    match parse_value(s, j) {
        Ok((v, e)) => {
            let k = ws_end(s, e);
            if k == s.len() {
                Ok((v, j, e))
            } else {
                Err(k)
            }
        },
        Err(p) => Err(p),
    }
}

/// Parses a document: an object or an array, with whitespace allowed
/// between tokens and around the document. Strings keep their escapes
/// undecoded and numbers keep the text of their literal.
pub fn parse_json_file(input: &str) -> (r: Result<JSONValue, JSONError>)
    ensures
        r is Ok <==> file_spec(input@) is Some,
        r is Ok ==> file_spec(input@) == Some(r->Ok_0.model()),
{
    let s = chars_of(input);
    match parse_json_file_chars(&s) {
        Ok((v, _, _)) => Ok(v),
        Err(p) => Err(JSONError::Syntax(SyntaxError { rule: Rule::File, offset: p })),
    }
}

} // verus!
