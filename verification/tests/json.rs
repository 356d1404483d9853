use tokamak::binary64::Binary64;
use tokamak::json::{
    as_float, as_items, as_text, as_whole, at, get, json_float, json_text, json_whole, parse_json,
    parse_json_list, Json,
};

#[test]
fn documents_are_read_level_by_level() {
    let j = parse_json(r#"{"a":[1,-2,2.5,"x",true,null,{"b":"c"}],"n":18446744073709551615}"#)
        .unwrap();
    let a = get(Some(&j), "a");
    assert_eq!(as_items(a).map(|v| v.len()), Some(7));
    assert_eq!(as_whole(at(a, 0)), Some(1));
    assert_eq!(as_whole(at(a, 1)), None);
    assert_eq!(as_float(at(a, 1)).map(|x| f64::from_bits(x.bits)), Some(-2.0));
    assert_eq!(as_float(at(a, 2)).map(|x| f64::from_bits(x.bits)), Some(2.5));
    assert_eq!(as_whole(at(a, 2)), None);
    assert_eq!(as_text(at(a, 3)).map(String::as_str), Some("x"));
    assert!(matches!(at(a, 4), Some(Json::Bool(true))));
    assert!(matches!(at(a, 5), Some(Json::Null)));
    assert_eq!(as_text(get(at(a, 6), "b")).map(String::as_str), Some("c"));
    assert!(at(a, 7).is_none());
    assert!(get(a, "b").is_none());
    assert_eq!(as_whole(get(Some(&j), "n")), Some(u64::MAX));
}

#[test]
fn what_is_no_document_is_an_error() {
    let message = parse_json("{").unwrap_err();
    assert!(message.contains("EOF"), "{message}");
    assert!(parse_json_list("{}").is_err());
    assert_eq!(parse_json_list("[1,2]").unwrap().len(), 2);
    // of a repeated key the last value counts
    let j = parse_json(r#"{"k":1,"k":2}"#).unwrap();
    assert_eq!(as_whole(get(Some(&j), "k")), Some(2));
}

#[test]
fn values_are_made() {
    assert_eq!(as_whole(Some(&json_whole(7))), Some(7));
    assert_eq!(as_text(Some(&json_text("x"))).map(String::as_str), Some("x"));
    let x = Binary64 { bits: 0.5f64.to_bits() };
    assert_eq!(as_float(Some(&json_float(x))), Some(x));
    let nan = Binary64 { bits: f64::NAN.to_bits() };
    assert!(matches!(json_float(nan), Json::Null));
}
