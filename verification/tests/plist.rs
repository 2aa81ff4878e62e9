use am_osx_status::plist::{parse, Error, Value, PRELUDE};

fn document(body: &str) -> String {
    format!("{PRELUDE}{body}")
}

#[test]
fn reads_a_dictionary() {
    let text = document(
        "<plist version=\"1.0\">\n<dict>\n\t<key>name</key>\n\t<string>Alice &amp; Bob</string>\n\t<key>loved</key>\n\t<true/>\n\t<key>plays</key>\n\t<array>\n\t\t<integer>12</integer>\n\t\t<false/>\n\t</array>\n</dict>\n</plist>\n",
    );
    let value = parse(&text).unwrap().unwrap();
    assert_eq!(value.get("name").and_then(Value::as_str), Some("Alice & Bob"));
    assert!(matches!(value.get("loved"), Some(Value::Bool(true))));
    match value.get("plays") {
        Some(Value::Array(items)) => {
            assert_eq!(items.len(), 2);
            assert_eq!(items[0].as_str(), Some("12"));
            assert!(matches!(items[1], Value::Bool(false)));
        }
        _ => panic!("expected an array"),
    }
    assert!(value.get("missing").is_none());
    assert!(Value::Bool(true).get("name").is_none());
    assert!(Value::Bool(true).as_str().is_none());
}

#[test]
fn needs_the_header() {
    assert!(matches!(parse("<plist><true/></plist>"), Err(Error::MissingPrelude)));
}

#[test]
fn nothing_after_the_header() {
    assert!(parse(PRELUDE).unwrap().is_none());
}

#[test]
fn refuses_what_property_lists_do_not_hold() {
    assert!(matches!(parse(&document("<plist><data>AAAA</data></plist>")), Err(Error::UnsupportedData)));
    assert!(matches!(parse(&document("<plist><frob/></plist>")), Err(Error::UnknownTag("frob"))));
    assert!(matches!(parse(&document("<plist><true>yes</true></plist>")), Err(Error::ExpectedEmpty("true"))));
    assert!(matches!(parse(&document("<plist><dict><string>a</string><true/></dict></plist>")), Err(Error::ExpectedKey)));
    assert!(matches!(parse(&document("<plist><dict><key>a</key></dict></plist>")), Err(Error::ExpectedValue)));
    assert!(matches!(parse(&document("<plist><dict></dict></plist>")), Err(Error::EmptyContainer)));
    assert!(matches!(parse(&document("<plist><true/><true/></plist>")), Err(Error::ExpectedOnlyOneChild)));
}

#[test]
fn compact_array_in_order() {
    let value = parse(&document("<plist><array><true/><false/></array></plist>")).unwrap().unwrap();
    match value {
        Value::Array(items) => {
            assert_eq!(items.len(), 2);
            assert!(matches!(items[0], Value::Bool(true)));
            assert!(matches!(items[1], Value::Bool(false)));
        }
        _ => panic!("expected an array"),
    }
}

#[test]
fn one_pair_dictionary() {
    let value = parse(&document("<plist>\n<dict>\n<key>a</key>\n<string>x</string>\n</dict>\n</plist>")).unwrap().unwrap();
    match &value {
        Value::Dict(entries) => {
            assert_eq!(entries.len(), 1);
            assert_eq!(entries[0].0, "a");
            assert_eq!(entries[0].1.as_str(), Some("x"));
        }
        _ => panic!("expected a dictionary"),
    }
}

#[test]
fn single_values_and_their_errors() {
    assert!(matches!(parse(&document("<plist><false/></plist>")), Ok(Some(Value::Bool(false)))));
    assert!(matches!(parse(&document("<plist><true/></plist>")), Ok(Some(Value::Bool(true)))));
    assert!(matches!(parse(&document("<plist><foo/></plist>")), Err(Error::UnknownTag("foo"))));
    assert!(matches!(parse(&document("<plist><true></true></plist>")), Err(Error::ExpectedEmpty("true"))));
    assert!(matches!(parse(&document("<plist><true/><false/></plist>")), Err(Error::ExpectedOnlyOneChild)));
    assert!(matches!(parse(PRELUDE), Ok(None)));
}
