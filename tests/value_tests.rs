use json_parser::{JSONParser, Rule};

#[test]
fn test_boolean() {
    let res1 = JSONParser::parse(Rule::Boolean, "true").unwrap();
    assert_eq!("true", res1.as_str());

    let res2 = JSONParser::parse(Rule::Boolean, "false").unwrap();
    assert_eq!("false", res2.as_str());
}

#[test]
fn test_null() {
    let res1 = JSONParser::parse(Rule::Null, "null").unwrap();
    assert_eq!("null", res1.as_str());
}

#[test]
fn test_pair() {
    let res1 = JSONParser::parse(Rule::Pair, "\"age\": 42").unwrap();
    assert_eq!("\"age\": 42", res1.as_str());
}

#[test]
fn test_object() {
    let res1 = JSONParser::parse(Rule::Object, "{\"age\": 42}").unwrap();
    assert_eq!("{\"age\": 42}", res1.as_str());
}

#[test]
fn test_array() {
    let res1 = JSONParser::parse(Rule::Array, "[1,2,3]").unwrap();
    assert_eq!("[1,2,3]", res1.as_str());
}

#[test]
fn test_file() {
    let res1 = JSONParser::parse(Rule::File, "[1,2,3]").unwrap();
    assert_eq!("[1,2,3]", res1.as_str());
    let res2 = JSONParser::parse(Rule::File, "{\"age\": 42}").unwrap();
    assert_eq!("{\"age\": 42}", res2.as_str());
}
