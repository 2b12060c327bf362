use vstd::prelude::*;

use crate::grammar::JPair;
use crate::text::{chars_of, string_from};
use crate::value::{JSONValue, JValue};

verus! {

broadcast use {vstd::std_specs::vec::group_vec_axioms, vstd::seq::group_seq_axioms};

/// The compact text of a value: no whitespace, strings and numbers as held.
pub open spec fn ser(v: JValue) -> Seq<char>
    decreases v,
{
    match v {
        JValue::Object(ps) => seq!['{'] + ser_pairs(ps) + seq!['}'],
        JValue::Array(vs) => seq!['['] + ser_values(vs) + seq![']'],
        JValue::Str(t) => seq!['"'] + t + seq!['"'],
        JValue::Num(n) => n,
        JValue::Bool(b) => if b {
            seq!['t', 'r', 'u', 'e']
        } else {
            seq!['f', 'a', 'l', 's', 'e']
        },
        JValue::Null => seq!['n', 'u', 'l', 'l'],
    }
}

/// The pairs of an object, each as `"key":value`, joined by commas.
pub open spec fn ser_pairs(ps: Seq<JPair>) -> Seq<char>
    decreases ps,
{
    if ps.len() == 0 {
        Seq::empty()
    } else {
        let last = ps[ps.len() - 1];
        ser_pairs(ps.subrange(0, ps.len() - 1)) + (if ps.len() > 1 {
            seq![',']
        } else {
            Seq::empty()
        }) + seq!['"'] + last.0 + seq!['"', ':'] + ser(last.1)
    }
}

/// The values of an array joined by commas.
pub open spec fn ser_values(vs: Seq<JValue>) -> Seq<char>
    decreases vs,
{
    if vs.len() == 0 {
        Seq::empty()
    } else {
        ser_values(vs.subrange(0, vs.len() - 1)) + (if vs.len() > 1 {
            seq![',']
        } else {
            Seq::empty()
        }) + ser(vs[vs.len() - 1])
    }
}

/// Appends the characters of `cs` to `out`.
fn push_all(out: &mut Vec<char>, cs: &Vec<char>)
    ensures
        final(out)@ == old(out)@ + cs@,
{
    let ghost start = out@;
    let mut k: usize = 0;
    while k < cs.len()
        invariant
            k <= cs@.len(),
            out@ == start + cs@.subrange(0, k as int),
        decreases cs@.len() - k,
    {
        out.push(cs[k]);
        k += 1;
        assert(out@ =~= start + cs@.subrange(0, k as int));
    }
    assert(cs@.subrange(0, k as int) =~= cs@);
}

/// Appends the compact text of `v` to `out`.
fn write_value(v: &JSONValue, out: &mut Vec<char>)
    ensures
        final(out)@ == old(out)@ + ser(v.model()),
    decreases v,
{
    let ghost start = out@;
    match v {
        JSONValue::Object(ps) => {
            let ghost m = v.model()->Object_0;
            out.push('{');
            let mut k: usize = 0;
            while k < ps.len()
                invariant
                    k <= ps@.len(),
                    *v == JSONValue::Object(*ps),
                    m.len() == ps@.len(),
                    forall|t: int| 0 <= t < ps@.len() ==> m[t] == (#[trigger] ps@[t].0@, ps@[t].1.model()),
                    out@ == start + seq!['{'] + ser_pairs(m.subrange(0, k as int)),
                decreases ps@.len() - k,
            {
                if k > 0 {
                    out.push(',');
                }
                out.push('"');
                push_all(out, &chars_of(ps[k].0.as_str()));
                out.push('"');
                out.push(':');
                proof {
                    assert(decreases_to!(*v => v->Object_0));
                    assert(decreases_to!(ps => ps@));
                    assert(decreases_to!(ps@ => ps@[k as int]));
                    assert(decreases_to!(ps@[k as int] => ps@[k as int].1));
                    assert(decreases_to!(*v => ps@[k as int].1));
                }
                write_value(&ps[k].1, out);
                k += 1;
                assert(m.subrange(0, k as int).subrange(0, k - 1) =~= m.subrange(0, k - 1));
                assert(out@ =~= start + seq!['{'] + ser_pairs(m.subrange(0, k as int)));
            }
            out.push('}');
            assert(m.subrange(0, k as int) =~= m);
            assert(out@ =~= start + ser(v.model()));
        },
        JSONValue::Array(vs) => {
            let ghost m = v.model()->Array_0;
            out.push('[');
            let mut k: usize = 0;
            while k < vs.len()
                invariant
                    k <= vs@.len(),
                    *v == JSONValue::Array(*vs),
                    m.len() == vs@.len(),
                    forall|t: int| 0 <= t < vs@.len() ==> m[t] == (#[trigger] vs@[t]).model(),
                    out@ == start + seq!['['] + ser_values(m.subrange(0, k as int)),
                decreases vs@.len() - k,
            {
                if k > 0 {
                    out.push(',');
                }
                proof {
                    assert(decreases_to!(*v => v->Array_0));
                    assert(decreases_to!(vs => vs@));
                    assert(decreases_to!(vs@ => vs@[k as int]));
                    assert(decreases_to!(*v => vs@[k as int]));
                }
                write_value(&vs[k], out);
                k += 1;
                assert(m.subrange(0, k as int).subrange(0, k - 1) =~= m.subrange(0, k - 1));
                assert(out@ =~= start + seq!['['] + ser_values(m.subrange(0, k as int)));
            }
            out.push(']');
            assert(m.subrange(0, k as int) =~= m);
            assert(out@ =~= start + ser(v.model()));
        },
        JSONValue::String(t) => {
            out.push('"');
            push_all(out, &chars_of(t.as_str()));
            out.push('"');
            assert(out@ =~= start + ser(v.model()));
        },
        JSONValue::Number(n) => {
            push_all(out, &chars_of(n.as_str()));
        },
        JSONValue::Boolean(b) => {
            if *b {
                out.push('t');
                out.push('r');
                out.push('u');
                out.push('e');
            } else {
                out.push('f');
                out.push('a');
                out.push('l');
                out.push('s');
                out.push('e');
            }
            assert(out@ =~= start + ser(v.model()));
        },
        JSONValue::Null => {
            out.push('n');
            out.push('u');
            out.push('l');
            out.push('l');
            assert(out@ =~= start + ser(v.model()));
        },
    }
}

/// Renders `val` as compact JSON text: no inserted whitespace, the pairs and
/// values in their order, strings and numbers exactly as held.
pub fn serialize_jsonvalue(val: &JSONValue) -> (r: String)
    ensures
        r@ == ser(val.model()),
{
    let mut out: Vec<char> = Vec::new();
    write_value(val, &mut out);
    assert(out@ =~= ser(val.model()));
    string_from(&out)
}

} // verus!
