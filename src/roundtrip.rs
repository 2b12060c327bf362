use vstd::prelude::*;

use crate::grammar::{
    array_spec, at, char_len, digits_len, elements_spec, inner_len, int_len, is_digit,
    members_spec, number_len, object_spec, pair_spec, sign_len, string_len, value_spec, ws_len,
    JPair, frac_len,
};
use crate::serializer::{ser, ser_pairs, ser_values};
use crate::value::JValue;

verus! {

broadcast use vstd::seq::group_seq_axioms;

/// `w` stands in `s` from position `i` on.
pub open spec fn lay(s: Seq<char>, i: int, w: Seq<char>) -> bool {
    0 <= i && i + w.len() <= s.len() && s.subrange(i, i + w.len()) == w
}

/// Position `p` of `s` is the end, or holds what may follow a value in
/// compact text: a comma or a closing bracket or brace.
pub open spec fn closes(s: Seq<char>, p: int) -> bool {
    p == s.len() || (0 <= p < s.len() && (s[p] == ',' || s[p] == ']' || s[p] == '}'))
}

pub proof fn lemma_lay_at(s: Seq<char>, i: int, w: Seq<char>)
    requires
        lay(s, i, w),
    ensures
        forall|j: int| 0 <= j < w.len() ==> s[i + j] == #[trigger] w[j],
{
    assert forall|j: int| 0 <= j < w.len() implies s[i + j] == #[trigger] w[j] by {
        assert(s.subrange(i, i + w.len())[j] == w[j]);
    }
}

pub proof fn lemma_lay_split(s: Seq<char>, i: int, a: Seq<char>, b: Seq<char>)
    requires
        lay(s, i, a + b),
    ensures
        lay(s, i, a),
        lay(s, i + a.len(), b),
{
    lemma_lay_at(s, i, a + b);
    assert forall|j: int| 0 <= j < a.len() implies s.subrange(i, i + a.len())[j] == a[j] by {
        assert((a + b)[j] == a[j]);
    }
    assert(s.subrange(i, i + a.len()) =~= a);
    assert forall|j: int| 0 <= j < b.len() implies s.subrange(
        i + a.len(),
        i + a.len() + b.len(),
    )[j] == b[j] by {
        assert((a + b)[a.len() + j] == b[j]);
    }
    assert(s.subrange(i + a.len(), i + a.len() + b.len()) =~= b);
}

/// A run of digits of `t` ends where it ends in `s`, which holds `t` at `i`
/// followed by something other than a digit.
proof fn lemma_digits_fwd(s: Seq<char>, i: int, t: Seq<char>, k: int)
    requires
        lay(s, i, t),
        0 <= k <= t.len(),
        !(0 <= i + t.len() < s.len() && is_digit(s[i + t.len()])),
    ensures
        digits_len(s, i + k) == digits_len(t, k),
    decreases t.len() - k,
{
    lemma_lay_at(s, i, t);
    if k < t.len() {
        lemma_digits_fwd(s, i, t, k + 1);
    }
}

/// A number literal `t` followed in `s` by what may close a value is read
/// in `s` as exactly `t`.
pub proof fn lemma_number_fwd(s: Seq<char>, i: int, t: Seq<char>)
    requires
        lay(s, i, t),
        number_len(t, 0) == Some(t.len()),
        closes(s, i + t.len()),
    ensures
        number_len(s, i) == Some(t.len()),
{
    lemma_lay_at(s, i, t);
    let l = t.len() as int;
    let m: int = if at(t, 0, '-') { 1 } else { 0 };
    let a = int_len(t, m)->Some_0 as int;
    if m + 1 <= l {
        lemma_digits_fwd(s, i, t, m + 1);
    }
    let p = m + a;
    if p + 1 <= l {
        lemma_digits_fwd(s, i, t, p + 1);
    }
    let f: int = match frac_len(t, p) {
        Some(f) => f as int,
        None => 0,
    };
    let q = p + f;
    let g = sign_len(t, q + 1) as int;
    if q + 1 + g <= l {
        lemma_digits_fwd(s, i, t, q + 1 + g);
    }
    if q + 1 <= l {
        lemma_digits_fwd(s, i, t, q + 1);
    }
}

/// A `char` matched in one sequence is matched, with the same length, in
/// another that holds the same characters there.
proof fn lemma_char_agree(s1: Seq<char>, a1: int, s2: Seq<char>, a2: int)
    requires
        char_len(s1, a1) is Some,
        0 <= a2,
        a2 + char_len(s1, a1)->Some_0 <= s2.len(),
        forall|j: int| 0 <= j < char_len(s1, a1)->Some_0 ==> #[trigger] s1[a1 + j] == s2[a2 + j],
    ensures
        char_len(s2, a2) == char_len(s1, a1),
{
    let m = char_len(s1, a1)->Some_0 as int;
    assert(s1[a1 + 0] == s2[a2 + 0]);
    if m >= 2 {
        assert(s1[a1 + 1] == s2[a2 + 1]);
    }
    if m == 6 {
        assert(s1[a1 + 2] == s2[a2 + 2]);
        assert(s1[a1 + 3] == s2[a2 + 3]);
        assert(s1[a1 + 4] == s2[a2 + 4]);
        assert(s1[a1 + 5] == s2[a2 + 5]);
    }
}

/// The characters of `t`, all matched by `inner`, are matched the same way
/// in `s`, which holds `t` at `i` followed by a quote.
pub proof fn lemma_inner_fwd(s: Seq<char>, i: int, t: Seq<char>, k: int)
    requires
        lay(s, i, t),
        0 <= k <= t.len(),
        inner_len(t, k) == t.len() - k,
        at(s, i + t.len(), '"'),
    ensures
        inner_len(s, i + k) == t.len() - k,
    decreases t.len() - k,
{
    lemma_lay_at(s, i, t);
    if k < t.len() {
        let m = char_len(t, k)->Some_0 as int;
        assert forall|j: int| 0 <= j < m implies #[trigger] t[k + j] == s[(i + k) + j] by {
            assert(t[k + j] == s[i + (k + j)]);
        }
        lemma_char_agree(t, k, s, i + k);
        lemma_inner_fwd(s, i, t, k + m);
    }
}

/// A value that the grammar could have produced: every string and key is
/// made of `char`s and every number is one whole number literal.
pub open spec fn valid(v: JValue) -> bool
    decreases v,
{
    match v {
        JValue::Object(ps) => forall|k: int|
            0 <= k < ps.len() ==> inner_len(#[trigger] ps[k].0, 0) == ps[k].0.len() && valid(
                ps[k].1,
            ),
        JValue::Array(vs) => forall|k: int| 0 <= k < vs.len() ==> valid(#[trigger] vs[k]),
        JValue::Str(t) => inner_len(t, 0) == t.len(),
        JValue::Num(t) => number_len(t, 0) == Some(t.len()),
        _ => true,
    }
}

/// The characters that can start the text of a value.
pub open spec fn starts_value(c: char) -> bool {
    c == '{' || c == '[' || c == '"' || c == 't' || c == 'f' || c == 'n' || c == '-' || is_digit(c)
}

proof fn lemma_ser_first(v: JValue)
    requires
        valid(v),
    ensures
        ser(v).len() > 0,
        starts_value(ser(v)[0]),
{
    match v {
        JValue::Num(t) => {
            if !at(t, 0, '-') {
                assert(int_len(t, 0) is Some);
            }
        },
        _ => {},
    }
}

/// The text of the first `k` values is the start of the text of all.
proof fn lemma_values_prefix(vs: Seq<JValue>, k: int)
    requires
        0 <= k <= vs.len(),
    ensures
        ser_values(vs.take(k)).len() <= ser_values(vs).len(),
        ser_values(vs) =~= ser_values(vs.take(k)) + ser_values(vs).subrange(
            ser_values(vs.take(k)).len() as int,
            ser_values(vs).len() as int,
        ),
    decreases vs.len(),
{
    if k < vs.len() {
        let w = vs.subrange(0, vs.len() - 1);
        assert(w.take(k) =~= vs.take(k));
        lemma_values_prefix(w, k);
    } else {
        assert(vs.take(k) =~= vs);
    }
}

/// The text of the first `k` pairs is the start of the text of all.
proof fn lemma_pairs_prefix(ps: Seq<JPair>, k: int)
    requires
        0 <= k <= ps.len(),
    ensures
        ser_pairs(ps.take(k)).len() <= ser_pairs(ps).len(),
        ser_pairs(ps) =~= ser_pairs(ps.take(k)) + ser_pairs(ps).subrange(
            ser_pairs(ps.take(k)).len() as int,
            ser_pairs(ps).len() as int,
        ),
    decreases ps.len(),
{
    if k < ps.len() {
        let w = ps.subrange(0, ps.len() - 1);
        assert(w.take(k) =~= ps.take(k));
        lemma_pairs_prefix(w, k);
    } else {
        assert(ps.take(k) =~= ps);
    }
}

proof fn lemma_values_step(vs: Seq<JValue>, k: int)
    requires
        0 <= k < vs.len(),
    ensures
        ser_values(vs.take(k + 1)) == ser_values(vs.take(k)) + (if k > 0 {
            seq![',']
        } else {
            Seq::empty()
        }) + ser(vs[k]),
{
    assert(vs.take(k + 1).subrange(0, k) =~= vs.take(k));
}

proof fn lemma_pairs_step(ps: Seq<JPair>, k: int)
    requires
        0 <= k < ps.len(),
    ensures
        ser_pairs(ps.take(k + 1)) == ser_pairs(ps.take(k)) + (if k > 0 {
            seq![',']
        } else {
            Seq::empty()
        }) + seq!['"'] + ps[k].0 + seq!['"', ':'] + ser(ps[k].1),
{
    assert(ps.take(k + 1).subrange(0, k) =~= ps.take(k));
}

/// In the text of an array at `i`, the `k`-th value starts after the text
/// of the values before it and its comma, and is read back as itself.
proof fn lemma_element_fwd(s: Seq<char>, i: int, vs: Seq<JValue>, k: int)
    requires
        0 <= k < vs.len(),
        forall|t: int| 0 <= t < vs.len() ==> valid(#[trigger] vs[t]),
        lay(s, i, ser(JValue::Array(vs))),
    ensures
        ({
            let pos = i + 1 + ser_values(vs.take(k)).len() + (if k > 0 {
                1int
            } else {
                0
            });
            &&& k > 0 ==> s[pos - 1] == ','
            &&& value_spec(s, pos) == Some((vs[k], ser(vs[k]).len()))
            &&& pos + ser(vs[k]).len() == i + 1 + ser_values(vs.take(k + 1)).len()
            &&& lay(s, pos, ser(vs[k]))
        }),
    decreases vs, 0int,
{
    let all = ser_values(vs);
    lemma_lay_split(s, i, seq!['['] + all, seq![']']);
    lemma_lay_split(s, i, seq!['['], all);
    lemma_values_prefix(vs, k + 1);
    lemma_values_step(vs, k);
    let upto_k1 = ser_values(vs.take(k + 1));
    lemma_lay_split(s, i + 1, upto_k1, all.subrange(upto_k1.len() as int, all.len() as int));
    let sep: Seq<char> = if k > 0 {
        seq![',']
    } else {
        Seq::empty()
    };
    lemma_lay_split(s, i + 1, ser_values(vs.take(k)) + sep, ser(vs[k]));
    lemma_lay_split(s, i + 1, ser_values(vs.take(k)), sep);
    lemma_lay_at(s, i + 1 + ser_values(vs.take(k)).len(), sep);
    assert(seq![','][0] == ',');
    let pos = i + 1 + ser_values(vs.take(k)).len() + sep.len();
    assert(k > 0 ==> s[pos - 1] == ',');
    assert(lay(s, pos, ser(vs[k])));
    let after = pos + ser(vs[k]).len();
    if k + 1 < vs.len() {
        lemma_values_prefix(vs, k + 2);
        lemma_values_step(vs, k + 1);
        let upto_k2 = ser_values(vs.take(k + 2));
        lemma_lay_split(s, i + 1, upto_k2, all.subrange(upto_k2.len() as int, all.len() as int));
        assert(upto_k2 == upto_k1 + seq![','] + ser(vs[k + 1]));
        assert(lay(s, i + 1, upto_k2));
        lemma_lay_split(s, i + 1, upto_k1 + seq![','], ser(vs[k + 1]));
        lemma_lay_split(s, i + 1, upto_k1, seq![',']);
        lemma_lay_at(s, i + 1 + upto_k1.len(), seq![',']);
        assert(seq![','][0] == ',');
        assert(s[after] == ',');
    } else {
        assert(vs.take(k + 1) =~= vs);
        lemma_lay_at(s, i + 1 + all.len(), seq![']']);
        assert(seq![']'][0] == ']');
        assert(s[after] == ']');
    }
    assert(closes(s, after));
    lemma_value_fwd(s, pos, vs[k]);
    assert(value_spec(s, pos) == Some((vs[k], ser(vs[k]).len())));
    assert(after == i + 1 + ser_values(vs.take(k + 1)).len());
}

/// The values from the `k`-th on, then the closing bracket, are read back
/// after the first `k`.
proof fn lemma_elements_fwd(s: Seq<char>, i: int, vs: Seq<JValue>, k: int)
    requires
        1 <= k <= vs.len(),
        forall|t: int| 0 <= t < vs.len() ==> valid(#[trigger] vs[t]),
        lay(s, i, ser(JValue::Array(vs))),
    ensures
        elements_spec(s, i + 1 + ser_values(vs.take(k)).len(), vs.take(k)) == Some(
            (vs, i + ser(JValue::Array(vs)).len()),
        ),
    decreases vs, vs.len() - k + 1,
{
    let all = ser_values(vs);
    lemma_lay_split(s, i, seq!['['] + all, seq![']']);
    lemma_lay_split(s, i, seq!['['], all);
    let pos = i + 1 + ser_values(vs.take(k)).len();
    if k == vs.len() {
        assert(vs.take(k) =~= vs);
        lemma_lay_at(s, i + 1 + all.len(), seq![']']);
        assert(seq![']'][0] == ']');
        assert(s[pos] == ']');
        assert(ws_len(s, pos) == 0);
    } else {
        lemma_element_fwd(s, i, vs, k);
        lemma_ser_first(vs[k]);
        lemma_lay_at(s, pos + 1, ser(vs[k]));
        assert(s[pos + 1 + 0] == ser(vs[k])[0]);
        assert(s[pos] == ',');
        assert(ws_len(s, pos) == 0);
        assert(ws_len(s, pos + 1) == 0);
        assert(vs.take(k).push(vs[k]) =~= vs.take(k + 1));
        lemma_elements_fwd(s, i, vs, k + 1);
    }
}

/// In the text of an object at `i`, the `k`-th pair starts after the text
/// of the pairs before it and its comma, and is read back as itself.
#[verifier::rlimit(50)]
proof fn lemma_member_fwd(s: Seq<char>, i: int, ps: Seq<JPair>, k: int)
    requires
        0 <= k < ps.len(),
        valid(JValue::Object(ps)),
        lay(s, i, ser(JValue::Object(ps))),
    ensures
        ({
            let pos = i + 1 + ser_pairs(ps.take(k)).len() + (if k > 0 {
                1int
            } else {
                0
            });
            let n = ps[k].0.len() + 3 + ser(ps[k].1).len();
            &&& k > 0 ==> s[pos - 1] == ','
            &&& s[pos] == '"'
            &&& pos + n <= s.len()
            &&& pair_spec(s, pos) == Some((ps[k], n as nat))
            &&& pos + n == i + 1 + ser_pairs(ps.take(k + 1)).len()
        }),
    decreases ps, 0int,
{
    let all = ser_pairs(ps);
    let key = ps[k].0;
    let val = ps[k].1;
    assert(inner_len(ps[k].0, 0) == ps[k].0.len() && valid(ps[k].1));
    lemma_lay_split(s, i, seq!['{'] + all, seq!['}']);
    lemma_lay_split(s, i, seq!['{'], all);
    lemma_pairs_prefix(ps, k + 1);
    lemma_pairs_step(ps, k);
    let upto_k1 = ser_pairs(ps.take(k + 1));
    lemma_lay_split(s, i + 1, upto_k1, all.subrange(upto_k1.len() as int, all.len() as int));
    let sep: Seq<char> = if k > 0 {
        seq![',']
    } else {
        Seq::empty()
    };
    let pre = ser_pairs(ps.take(k));
    let a1 = pre + sep;
    let a2 = a1 + seq!['"'];
    let a3 = a2 + key;
    let a4 = a3 + seq!['"', ':'];
    assert(upto_k1 == a4 + ser(val));
    lemma_lay_split(s, i + 1, a4, ser(val));
    lemma_lay_split(s, i + 1, a3, seq!['"', ':']);
    lemma_lay_split(s, i + 1, a2, key);
    lemma_lay_split(s, i + 1, a1, seq!['"']);
    lemma_lay_split(s, i + 1, pre, sep);
    lemma_lay_at(s, i + 1 + pre.len(), sep);
    lemma_lay_at(s, i + 1 + a1.len(), seq!['"']);
    lemma_lay_at(s, i + 1 + a3.len(), seq!['"', ':']);
    assert(seq![','][0] == ',');
    assert(seq!['"'][0] == '"');
    assert(seq!['"', ':'][0] == '"');
    assert(seq!['"', ':'][1] == ':');
    let pos = i + 1 + a1.len();
    let vpos = i + 1 + a4.len();
    let after = vpos + ser(val).len();
    assert(k > 0 ==> s[pos - 1] == ',');
    assert(s[pos] == '"');
    assert(s[pos + 1 + key.len()] == '"');
    lemma_inner_fwd(s, pos + 1, key, 0);
    assert(string_len(s, pos) == Some((key.len() + 2) as nat));
    assert(s.subrange(pos + 1, pos + 1 + key.len()) =~= key);
    assert(s[pos + key.len() + 2] == ':');
    assert(ws_len(s, pos + key.len() + 2) == 0);
    lemma_ser_first(val);
    lemma_lay_at(s, vpos, ser(val));
    assert(s[vpos + 0] == ser(val)[0]);
    assert(ws_len(s, vpos) == 0);
    if k + 1 < ps.len() {
        lemma_pairs_prefix(ps, k + 2);
        lemma_pairs_step(ps, k + 1);
        let upto_k2 = ser_pairs(ps.take(k + 2));
        lemma_lay_split(s, i + 1, upto_k2, all.subrange(upto_k2.len() as int, all.len() as int));
        let b1 = upto_k1 + seq![','];
        let b2 = b1 + seq!['"'];
        let b3 = b2 + ps[k + 1].0;
        let b4 = b3 + seq!['"', ':'];
        assert(upto_k2 == b4 + ser(ps[k + 1].1));
        lemma_lay_split(s, i + 1, b4, ser(ps[k + 1].1));
        lemma_lay_split(s, i + 1, b3, seq!['"', ':']);
        lemma_lay_split(s, i + 1, b2, ps[k + 1].0);
        lemma_lay_split(s, i + 1, b1, seq!['"']);
        lemma_lay_split(s, i + 1, upto_k1, seq![',']);
        lemma_lay_at(s, i + 1 + upto_k1.len(), seq![',']);
        assert(s[after] == ',');
    } else {
        assert(ps.take(k + 1) =~= ps);
        lemma_lay_at(s, i + 1 + all.len(), seq!['}']);
        assert(seq!['}'][0] == '}');
        assert(s[after] == '}');
    }
    assert(closes(s, after));
    lemma_value_fwd(s, vpos, val);
    assert(ps[k] == (key, val));
}

/// The pairs from the `k`-th on, then the closing brace, are read back
/// after the first `k`.
proof fn lemma_members_fwd(s: Seq<char>, i: int, ps: Seq<JPair>, k: int)
    requires
        1 <= k <= ps.len(),
        valid(JValue::Object(ps)),
        lay(s, i, ser(JValue::Object(ps))),
    ensures
        members_spec(s, i + 1 + ser_pairs(ps.take(k)).len(), ps.take(k)) == Some(
            (ps, i + ser(JValue::Object(ps)).len()),
        ),
    decreases ps, ps.len() - k + 1,
{
    let all = ser_pairs(ps);
    lemma_lay_split(s, i, seq!['{'] + all, seq!['}']);
    lemma_lay_split(s, i, seq!['{'], all);
    let pos = i + 1 + ser_pairs(ps.take(k)).len();
    if k == ps.len() {
        assert(ps.take(k) =~= ps);
        lemma_lay_at(s, i + 1 + all.len(), seq!['}']);
        assert(seq!['}'][0] == '}');
        assert(s[pos] == '}');
        assert(ws_len(s, pos) == 0);
    } else {
        lemma_member_fwd(s, i, ps, k);
        assert(s[pos] == ',');
        assert(ws_len(s, pos) == 0);
        assert(ws_len(s, pos + 1) == 0);
        assert(ps.take(k).push(ps[k]) =~= ps.take(k + 1));
        lemma_members_fwd(s, i, ps, k + 1);
    }
}

proof fn lemma_array_fwd(s: Seq<char>, i: int, vs: Seq<JValue>)
    requires
        valid(JValue::Array(vs)),
        lay(s, i, ser(JValue::Array(vs))),
        closes(s, i + ser(JValue::Array(vs)).len()),
    ensures
        value_spec(s, i) == Some((JValue::Array(vs), ser(JValue::Array(vs)).len())),
    decreases vs, vs.len() + 2,
{
    lemma_lay_at(s, i, ser(JValue::Array(vs)));
    assert((seq!['['] + ser_values(vs) + seq![']'])[0] == '[');
    assert(s[i + 0] == ser(JValue::Array(vs))[0]);
    assert(s[i] == '[');
    if vs.len() == 0 {
        assert(ser_values(vs).len() == 0);
        assert((seq!['['] + ser_values(vs) + seq![']'])[1] == ']');
        assert(vs =~= Seq::<JValue>::empty());
        assert(s[i + 1] == ser(JValue::Array(vs))[1]);
        assert(ws_len(s, i + 1) == 0);
    } else {
        assert(vs.take(0) =~= Seq::<JValue>::empty());
        lemma_element_fwd(s, i, vs, 0);
        lemma_ser_first(vs[0]);
        lemma_lay_at(s, i + 1, ser(vs[0]));
        assert(s[i + 1 + 0] == ser(vs[0])[0]);
        assert(ws_len(s, i + 1) == 0);
        assert(seq![vs[0]] =~= vs.take(1));
        lemma_elements_fwd(s, i, vs, 1);
        let n0 = ser(vs[0]).len();
        assert(ser_values(vs.take(0)).len() == 0);
        assert(value_spec(s, i + 1) == Some((vs[0], n0)));
        assert(s[i + 1] != ']');
        assert(elements_spec(s, i + 1 + n0, seq![vs[0]]) == Some(
            (vs, i + ser(JValue::Array(vs)).len()),
        ));
        assert(array_spec(s, i) == Some((JValue::Array(vs), ser(JValue::Array(vs)).len())));
    }
}

proof fn lemma_object_fwd(s: Seq<char>, i: int, ps: Seq<JPair>)
    requires
        valid(JValue::Object(ps)),
        lay(s, i, ser(JValue::Object(ps))),
        closes(s, i + ser(JValue::Object(ps)).len()),
    ensures
        value_spec(s, i) == Some((JValue::Object(ps), ser(JValue::Object(ps)).len())),
    decreases ps, ps.len() + 2,
{
    lemma_lay_at(s, i, ser(JValue::Object(ps)));
    assert((seq!['{'] + ser_pairs(ps) + seq!['}'])[0] == '{');
    assert(s[i + 0] == ser(JValue::Object(ps))[0]);
    assert(s[i] == '{');
    if ps.len() == 0 {
        assert(ser_pairs(ps).len() == 0);
        assert((seq!['{'] + ser_pairs(ps) + seq!['}'])[1] == '}');
        assert(ps =~= Seq::<JPair>::empty());
        assert(s[i + 1] == ser(JValue::Object(ps))[1]);
        assert(ws_len(s, i + 1) == 0);
    } else {
        assert(ps.take(0) =~= Seq::<JPair>::empty());
        lemma_member_fwd(s, i, ps, 0);
        assert(ws_len(s, i + 1) == 0);
        assert(seq![ps[0]] =~= ps.take(1));
        lemma_members_fwd(s, i, ps, 1);
        let n0 = ps[0].0.len() + 3 + ser(ps[0].1).len();
        assert(ser_pairs(ps.take(0)).len() == 0);
        assert(pair_spec(s, i + 1) == Some((ps[0], n0 as nat)));
        assert(s[i + 1] != '}');
        assert(members_spec(s, i + 1 + n0, seq![ps[0]]) == Some(
            (ps, i + ser(JValue::Object(ps)).len()),
        ));
        assert(object_spec(s, i) == Some((JValue::Object(ps), ser(JValue::Object(ps)).len())));
    }
}

/// The text of a valid value, followed by what may close a value, is read
/// back as that value.
pub proof fn lemma_value_fwd(s: Seq<char>, i: int, v: JValue)
    requires
        valid(v),
        lay(s, i, ser(v)),
        closes(s, i + ser(v).len()),
    ensures
        value_spec(s, i) == Some((v, ser(v).len())),
    decreases v, 0int,
{
    lemma_lay_at(s, i, ser(v));
    match v {
        JValue::Array(vs) => {
            lemma_array_fwd(s, i, vs);
        },
        JValue::Str(t) => {
            lemma_lay_split(s, i, seq!['"'] + t, seq!['"']);
            lemma_lay_split(s, i, seq!['"'], t);
            lemma_lay_at(s, i + 1 + t.len(), seq!['"']);
            assert(seq!['"'][0] == '"');
            lemma_inner_fwd(s, i + 1, t, 0);
        },
        JValue::Num(t) => {
            lemma_ser_first(v);
            lemma_number_fwd(s, i, t);
            assert(s.subrange(i, i + t.len()) =~= t);
        },
        JValue::Bool(b) => {
            if b {
                assert(s.subrange(i, i + 4) =~= seq!['t', 'r', 'u', 'e']);
            } else {
                assert(s.subrange(i, i + 5) =~= seq!['f', 'a', 'l', 's', 'e']);
            }
        },
        JValue::Null => {
            assert(s.subrange(i, i + 4) =~= seq!['n', 'u', 'l', 'l']);
        },
        JValue::Object(ps) => {
            lemma_object_fwd(s, i, ps);
        },
    }
}

/// A run of digits that `s` holds within `t`, placed at `i`, is the same run
/// in `t`.
proof fn lemma_digits_bwd(s: Seq<char>, i: int, t: Seq<char>, k: int)
    requires
        lay(s, i, t),
        0 <= k <= t.len(),
        k + digits_len(s, i + k) <= t.len(),
    ensures
        digits_len(t, k) == digits_len(s, i + k),
    decreases t.len() - k,
{
    lemma_lay_at(s, i, t);
    if k < t.len() && is_digit(s[i + k]) {
        lemma_digits_bwd(s, i, t, k + 1);
    }
}

proof fn lemma_digits_bound(s: Seq<char>, i: int)
    requires
        0 <= i,
    ensures
        digits_len(s, i) == 0 || i + digits_len(s, i) <= s.len(),
    decreases s.len() - i,
{
    if 0 <= i < s.len() && is_digit(s[i]) {
        lemma_digits_bound(s, i + 1);
    }
}

/// The text of a number matched in `s` is one whole number literal.
#[verifier::rlimit(60)]
proof fn lemma_number_bwd(s: Seq<char>, i: int)
    requires
        number_len(s, i) is Some,
        0 <= i,
    ensures
        number_len(s.subrange(i, i + number_len(s, i)->Some_0), 0) == number_len(s, i),
        i + number_len(s, i)->Some_0 <= s.len(),
{
    let n = number_len(s, i)->Some_0 as int;
    let t = s.subrange(i, i + n);
    let m: int = if at(s, i, '-') { 1 } else { 0 };
    let a0 = int_len(s, i + m)->Some_0 as int;
    lemma_digits_bound(s, i + m + 1);
    let p0 = m + a0;
    lemma_digits_bound(s, i + p0 + 1);
    let f0: int = match frac_len(s, i + p0) {
        Some(f) => f as int,
        None => 0,
    };
    let q0 = p0 + f0;
    lemma_digits_bound(s, i + q0 + 1 + sign_len(s, i + q0 + 1));
    assert(i + n <= s.len());
    assert(lay(s, i, t));
    lemma_lay_at(s, i, t);
    let a = int_len(s, i + m)->Some_0 as int;
    if m + 1 <= n && m + 1 + digits_len(s, i + m + 1) <= n {
        lemma_digits_bwd(s, i, t, m + 1);
    }
    let p = m + a;
    if p + 1 <= n && p + 1 + digits_len(s, i + p + 1) <= n {
        lemma_digits_bwd(s, i, t, p + 1);
    }
    let f: int = match frac_len(s, i + p) {
        Some(f) => f as int,
        None => 0,
    };
    let q = p + f;
    let g = sign_len(s, i + q + 1) as int;
    if q + 1 + g <= n && q + 1 + g + digits_len(s, i + q + 1 + g) <= n {
        lemma_digits_bwd(s, i, t, q + 1 + g);
    }
    if q + 1 <= n && q + 1 + digits_len(s, i + q + 1) <= n {
        lemma_digits_bwd(s, i, t, q + 1);
    }
}

/// The characters that `inner` matched in `s` are all matched by `inner`
/// on their own.
proof fn lemma_inner_bwd(s: Seq<char>, i: int, l: int, k: int)
    requires
        0 <= i,
        0 <= k <= l,
        i + l <= s.len(),
        inner_len(s, i + k) == l - k,
    ensures
        inner_len(s.subrange(i, i + l), k) == l - k,
    decreases l - k,
{
    let t = s.subrange(i, i + l);
    if k < l {
        let m = char_len(s, i + k)->Some_0 as int;
        assert forall|j: int| 0 <= j < m implies #[trigger] s[(i + k) + j] == t[k + j] by {}
        lemma_char_agree(s, i + k, t, k);
        lemma_inner_bwd(s, i, l, k + m);
    }
}

/// Whether a key and its value are as the grammar produces them.
pub open spec fn pair_ok(p: JPair) -> bool {
    inner_len(p.0, 0) == p.0.len() && valid(p.1)
}

proof fn lemma_string_bwd(s: Seq<char>, i: int)
    requires
        string_len(s, i) is Some,
    ensures
        ({
            let n = string_len(s, i)->Some_0;
            let t = s.subrange(i + 1, i + n - 1);
            inner_len(t, 0) == t.len()
        }),
{
    let l = inner_len(s, i + 1) as int;
    lemma_inner_bwd(s, i + 1, l, 0);
}

/// Every value that the grammar matches is valid.
pub proof fn lemma_value_valid(s: Seq<char>, i: int)
    requires
        value_spec(s, i) is Some,
    ensures
        valid(value_spec(s, i)->Some_0.0),
    decreases s.len() - i, 1nat,
{
    if s[i] == '{' {
        lemma_object_valid(s, i);
    } else if s[i] == '[' {
        lemma_array_valid(s, i);
    } else if s[i] == '"' {
        lemma_string_bwd(s, i);
    } else if s[i] == '-' || is_digit(s[i]) {
        lemma_number_bwd(s, i);
    }
}

proof fn lemma_pair_valid(s: Seq<char>, i: int)
    requires
        pair_spec(s, i) is Some,
    ensures
        pair_ok(pair_spec(s, i)->Some_0.0),
    decreases s.len() - i, 1nat,
{
    lemma_string_bwd(s, i);
    let n = string_len(s, i)->Some_0;
    let j = i + n + ws_len(s, i + n);
    let k = j + 1 + ws_len(s, j + 1);
    lemma_value_valid(s, k);
}

proof fn lemma_members_valid(s: Seq<char>, i: int, acc: Seq<JPair>)
    requires
        members_spec(s, i, acc) is Some,
        forall|t: int| 0 <= t < acc.len() ==> pair_ok(#[trigger] acc[t]),
    ensures
        ({
            let ps = members_spec(s, i, acc)->Some_0.0;
            forall|t: int| 0 <= t < ps.len() ==> pair_ok(#[trigger] ps[t])
        }),
    decreases (if i <= s.len() {
        s.len() - i
    } else {
        0
    }), 1nat,
{
    let j = i + ws_len(s, i);
    let k = j + 1 + ws_len(s, j + 1);
    if at(s, j, ',') && 0 <= i && k < s.len() {
        let (p, n) = pair_spec(s, k)->Some_0;
        lemma_pair_valid(s, k);
        let acc2 = acc.push(p);
        assert forall|t: int| 0 <= t < acc2.len() implies pair_ok(#[trigger] acc2[t]) by {
            if t < acc.len() {
                assert(acc2[t] == acc[t]);
            }
        }
        lemma_members_valid(s, k + n, acc2);
    }
}

proof fn lemma_object_valid(s: Seq<char>, i: int)
    requires
        object_spec(s, i) is Some,
    ensures
        valid(object_spec(s, i)->Some_0.0),
    decreases s.len() - i, 0nat,
{
    let j = i + 1 + ws_len(s, i + 1);
    if s[j] != '}' {
        let (p, n) = pair_spec(s, j)->Some_0;
        lemma_pair_valid(s, j);
        assert(seq![p][0] == p);
        lemma_members_valid(s, j + n, seq![p]);
        let ps = members_spec(s, j + n, seq![p])->Some_0.0;
        assert forall|k: int| 0 <= k < ps.len() implies inner_len(#[trigger] ps[k].0, 0)
            == ps[k].0.len() && valid(ps[k].1) by {
            assert(pair_ok(ps[k]));
        }
    }
}

proof fn lemma_elements_valid(s: Seq<char>, i: int, acc: Seq<JValue>)
    requires
        elements_spec(s, i, acc) is Some,
        forall|t: int| 0 <= t < acc.len() ==> valid(#[trigger] acc[t]),
    ensures
        ({
            let vs = elements_spec(s, i, acc)->Some_0.0;
            forall|t: int| 0 <= t < vs.len() ==> valid(#[trigger] vs[t])
        }),
    decreases (if i <= s.len() {
        s.len() - i
    } else {
        0
    }), 1nat,
{
    let j = i + ws_len(s, i);
    let k = j + 1 + ws_len(s, j + 1);
    if at(s, j, ',') && 0 <= i && k < s.len() {
        let (v, n) = value_spec(s, k)->Some_0;
        lemma_value_valid(s, k);
        let acc2 = acc.push(v);
        assert forall|t: int| 0 <= t < acc2.len() implies valid(#[trigger] acc2[t]) by {
            if t < acc.len() {
                assert(acc2[t] == acc[t]);
            }
        }
        lemma_elements_valid(s, k + n, acc2);
    }
}

proof fn lemma_array_valid(s: Seq<char>, i: int)
    requires
        array_spec(s, i) is Some,
    ensures
        valid(array_spec(s, i)->Some_0.0),
    decreases s.len() - i, 0nat,
{
    let j = i + 1 + ws_len(s, i + 1);
    if s[j] != ']' {
        let (v, n) = value_spec(s, j)->Some_0;
        lemma_value_valid(s, j);
        assert(seq![v][0] == v);
        lemma_elements_valid(s, j + n, seq![v]);
    }
}

} // verus!
