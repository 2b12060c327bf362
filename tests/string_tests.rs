use json_parser::{JSONParser, Rule};

#[test]
fn test_char() {
    let res1 = JSONParser::parse(Rule::Char, "0f").unwrap();
    assert_eq!("0", res1.as_str());
}

#[test]
fn test_char_is_backslash() {
    let res1 = JSONParser::parse(Rule::Char, r"\");
    assert!(res1.is_err());
}

#[test]
fn test_char_is_quote() {
    let res1 = JSONParser::parse(Rule::Char, "\"");
    assert!(res1.is_err());
}

#[test]
fn test_char_is_escaped() {
    let escaped_chars = vec![r"\/", r"\b", r"\r", r"\n", r"\f", r"\t", r"\u1111"];

    for char in escaped_chars {
        let res = JSONParser::parse(Rule::Char, char).unwrap();
        assert_eq!(char, res.as_str());
    }
}

#[test]
fn test_inner() {
    let res = JSONParser::parse(Rule::Inner, "abc").unwrap();
    assert_eq!("abc", res.as_str());
}

#[test]
fn test_string() {
    let res = JSONParser::parse(Rule::String, r#""abc def""#).unwrap();
    assert_eq!(r#""abc def""#, res.as_str());
}
