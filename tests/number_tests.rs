use json_parser::{JSONParser, Rule};

#[test]
fn test_int() {
    let res1 = JSONParser::parse(Rule::Int, "12321");
    assert!(res1.is_ok());
    assert_eq!(res1.unwrap().as_str(), "12321");

    let res2 = JSONParser::parse(Rule::Int, "0").unwrap();
    assert_eq!(res2.as_str(), "0");

    let res3 = JSONParser::parse(Rule::Int, "023").unwrap();
    assert_eq!(res3.as_str(), "0");
}

#[test]
fn test_frac() {
    let res1 = JSONParser::parse(Rule::Frac, ".00").unwrap();
    assert_eq!(res1.as_str(), ".00");
}

#[test]
fn test_exp() {
    let res1 = JSONParser::parse(Rule::Exp, "e2").unwrap();
    assert_eq!(res1.as_str(), "e2");

    let res2 = JSONParser::parse(Rule::Exp, "E2").unwrap();
    assert_eq!(res2.as_str(), "E2");
}

#[test]
fn test_number() {
    let res1 = JSONParser::parse(Rule::Number, "123.1e34").unwrap();
    assert_eq!(res1.as_str(), "123.1e34");

    let res2 = JSONParser::parse(Rule::Number, "123.1").unwrap();
    assert_eq!(res2.as_str(), "123.1");

    let res3 = JSONParser::parse(Rule::Number, "0.1").unwrap();
    assert_eq!(res3.as_str(), "0.1");

    let res4 = JSONParser::parse(Rule::Number, "0e3.4").unwrap();
    assert_eq!(res4.as_str(), "0e3");
}
