use vstd::prelude::*;

verus! {

broadcast use vstd::std_specs::vec::group_vec_axioms;

/// The mathematical model of a JSON value: strings and numbers are the raw
/// character spans that the grammar accepted.
pub enum JValue {
    Object(Seq<(Seq<char>, JValue)>),
    Array(Seq<JValue>),
    Str(Seq<char>),
    Num(Seq<char>),
    Bool(bool),
    Null,
}

/// A JSON value tree. `String` holds the undecoded text between the quotes;
/// `Number` holds the numeric literal exactly as it was written.
#[derive(Debug)]
pub enum JSONValue {
    Object(Vec<(String, JSONValue)>),
    Array(Vec<JSONValue>),
    String(String),
    Number(String),
    Boolean(bool),
    Null,
}

impl JSONValue {
    pub open spec fn model(self) -> JValue
        decreases self,
    {
        match self {
            JSONValue::Object(ps) => JValue::Object(
                Seq::new(
                    ps@.len(),
                    |i: int|
                        if 0 <= i < ps.len() {
                            (ps[i].0@, ps[i].1.model())
                        } else {
                            (Seq::empty(), JValue::Null)
                        },
                ),
            ),
            JSONValue::Array(vs) => JValue::Array(
                Seq::new(
                    vs@.len(),
                    |i: int|
                        if 0 <= i < vs.len() {
                            vs[i].model()
                        } else {
                            JValue::Null
                        },
                ),
            ),
            JSONValue::String(s) => JValue::Str(s@),
            JSONValue::Number(n) => JValue::Num(n@),
            JSONValue::Boolean(b) => JValue::Bool(b),
            JSONValue::Null => JValue::Null,
        }
    }
}

} // verus!
