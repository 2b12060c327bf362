use json_parser::{parse_json_file, serialize_jsonvalue, JSONError, JSONParser, JSONValue, Rule};

fn number(v: &JSONValue) -> &str {
    match v {
        JSONValue::Number(n) => n.as_str(),
        _ => panic!("not a number"),
    }
}

#[test]
fn empty_object_parses_and_serializes() {
    let v = parse_json_file("{}").unwrap();
    match &v {
        JSONValue::Object(ps) => assert!(ps.is_empty()),
        _ => panic!("not an object"),
    }
    assert_eq!(serialize_jsonvalue(&v), "{}");
}

#[test]
fn array_of_numbers_parses_and_serializes() {
    let v = parse_json_file("[1,2,3]").unwrap();
    match &v {
        JSONValue::Array(vs) => {
            assert_eq!(vs.len(), 3);
            assert_eq!(number(&vs[0]), "1");
            assert_eq!(number(&vs[1]), "2");
            assert_eq!(number(&vs[2]), "3");
        }
        _ => panic!("not an array"),
    }
    assert_eq!(serialize_jsonvalue(&v), "[1,2,3]");
}

#[test]
fn object_with_one_pair_parses_and_serializes() {
    let v = parse_json_file("{\"age\": 42}").unwrap();
    match &v {
        JSONValue::Object(ps) => {
            assert_eq!(ps.len(), 1);
            assert_eq!(ps[0].0, "age");
            assert_eq!(number(&ps[0].1), "42");
        }
        _ => panic!("not an object"),
    }
    assert_eq!(serialize_jsonvalue(&v), "{\"age\":42}");
}

#[test]
fn bare_scalars_are_rejected() {
    for text in ["\"hello\"", "42", "true", "null", "", "   "] {
        let r = parse_json_file(text);
        assert!(matches!(r, Err(JSONError::Syntax(_))), "{text} was accepted");
    }
}

#[test]
fn error_reports_the_file_rule() {
    match parse_json_file("[1,") {
        Err(JSONError::Syntax(e)) => {
            assert_eq!(e.rule, Rule::File);
            assert!(e.offset <= 3);
        }
        _ => panic!("accepted"),
    }
}

#[test]
fn unterminated_string_and_lone_backslash_fail() {
    assert!(JSONParser::parse(Rule::String, "\"").is_err());
    assert!(JSONParser::parse(Rule::Char, "\\").is_err());
    assert!(parse_json_file("[\"abc]").is_err());
    assert!(parse_json_file("[\"a\\qb\"]").is_err());
    assert!(parse_json_file("[\"\\u12G4\"]").is_err());
}

#[test]
fn escapes_survive_serialization() {
    let text = r#"["\"","\\","\/","\b","\f","\n","\r","\t","\u00e9"]"#;
    let v = parse_json_file(text).unwrap();
    match &v {
        JSONValue::Array(vs) => match &vs[8] {
            JSONValue::String(s) => assert_eq!(s, r"\u00e9"),
            _ => panic!("not a string"),
        },
        _ => panic!("not an array"),
    }
    assert_eq!(serialize_jsonvalue(&v), text);
}

#[test]
fn round_trip_is_stable() {
    let text = " { \"a\" : [ 1 , -2.5e+3 , true , false , null , { } , [ ] ] ,\n\t\"a\" : \"x y\" } ";
    let v = parse_json_file(text).unwrap();
    let out = serialize_jsonvalue(&v);
    assert_eq!(out, "{\"a\":[1,-2.5e+3,true,false,null,{},[]],\"a\":\"x y\"}");
    let w = parse_json_file(&out).unwrap();
    assert_eq!(serialize_jsonvalue(&w), out);
}

#[test]
fn duplicate_keys_are_all_kept() {
    let v = parse_json_file("{\"k\":1,\"k\":2}").unwrap();
    match &v {
        JSONValue::Object(ps) => {
            assert_eq!(ps.len(), 2);
            assert_eq!(number(&ps[1].1), "2");
        }
        _ => panic!("not an object"),
    }
}

#[test]
fn number_rule_edges() {
    assert_eq!(JSONParser::parse(Rule::Number, "-0.5E-07x").unwrap(), "-0.5E-07");
    assert_eq!(JSONParser::parse(Rule::Number, "1.e5").unwrap(), "1");
    assert!(JSONParser::parse(Rule::Number, "-").is_err());
    assert!(JSONParser::parse(Rule::Frac, ".").is_err());
    assert!(JSONParser::parse(Rule::Exp, "e+").is_err());
    assert!(parse_json_file("[023]").is_err());
    assert!(parse_json_file("[0e3.4]").is_err());
}

#[test]
fn whitespace_only_between_tokens() {
    assert_eq!(JSONParser::parse(Rule::File, "\n [ 1 ] \r\n").unwrap(), "[ 1 ]");
    assert!(JSONParser::parse(Rule::Object, " {}").is_err());
    let v = parse_json_file("[\" a \"]").unwrap();
    assert_eq!(serialize_jsonvalue(&v), "[\" a \"]");
}

#[test]
fn multibyte_characters_are_kept() {
    let v = parse_json_file("{\"clé\":\"日本\"}").unwrap();
    assert_eq!(serialize_jsonvalue(&v), "{\"clé\":\"日本\"}");
    assert_eq!(JSONParser::parse(Rule::Char, "é!").unwrap(), "é");
}

#[test]
fn trailing_text_is_rejected() {
    assert!(parse_json_file("[1] x").is_err());
    assert!(parse_json_file("[1,]").is_err());
    assert!(parse_json_file("{\"a\"}").is_err());
    assert!(parse_json_file("{\"a\":1,}").is_err());
}
