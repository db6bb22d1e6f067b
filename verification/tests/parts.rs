use gigroom_signalling::config::{tls_files, FileTimes, IncompleteTls};
use gigroom_signalling::ids::{sorted_ids, sorted_keys};
use gigroom_signalling::json::{find, find_str, parse, take, Json};
use gigroom_signalling::text::{after_prefix, same_text};
use std::collections::{BTreeMap, BTreeSet};

#[test]
fn json_there_and_back() {
    let text = r#"{"b":[null,true,1,-2,2.5,"x\n"],"a":{}}"#;
    assert_eq!(
        parse(text).unwrap().to_text(),
        r#"{"a":{},"b":[null,true,1,-2,2.5,"x\n"]}"#
    );
    assert!(parse("").is_none());
    assert!(parse("[1,]").is_none());
    assert!(parse("1 2").is_none());
    assert_eq!(Json::Uint(u64::MAX).to_text(), "18446744073709551615");
}

#[test]
fn json_parts() {
    assert_eq!(parse("\"a\"").unwrap().as_str(), Some("a"));
    assert_eq!(parse("1").unwrap().as_str(), None);
    assert_eq!(parse("[1,2]").unwrap().into_array().unwrap().len(), 2);
    assert!(parse("{}").unwrap().into_array().is_none());
    assert!(parse("[]").unwrap().into_object().is_none());
    let fields = vec![
        ("k".to_string(), Json::text("old")),
        ("k".to_string(), Json::text("new")),
        ("n".to_string(), Json::Bool(true)),
    ];
    assert_eq!(find(&fields, "k").unwrap().as_str(), Some("new"));
    assert!(find(&fields, "x").is_none());
    assert_eq!(find_str(&fields, "k"), Some("new".to_string()));
    assert_eq!(find_str(&fields, "n"), None);
    assert_eq!(take(fields, "k").unwrap().as_str(), Some("new"));
    assert!(take(vec![], "k").is_none());
    assert_eq!(Json::array(vec![Json::Null]).to_text(), "[null]");
    assert_eq!(Json::object(vec![("a".to_string(), Json::Null)]).to_text(), r#"{"a":null}"#);
}

#[test]
fn texts() {
    assert!(same_text("", ""));
    assert!(same_text("h\u{e9}", "h\u{e9}"));
    assert!(!same_text("a", "b"));
    assert!(!same_text("a", "ab"));
    assert_eq!(after_prefix("IDENTIFY x y", "IDENTIFY "), Some("x y"));
    assert_eq!(after_prefix("IDENTIFY", "IDENTIFY "), None);
    assert_eq!(after_prefix("\u{e9}\u{e9}a", "\u{e9}"), Some("\u{e9}a"));
}

#[test]
fn identifiers_in_order() {
    let ids: BTreeSet<u128> = [5, 1, u128::MAX, 3].into_iter().collect();
    assert_eq!(sorted_ids(&ids), vec![1, 3, 5, u128::MAX]);
    let map: BTreeMap<u128, &str> = [(2, "b"), (1, "a")].into_iter().collect();
    assert_eq!(sorted_keys(&map), vec![1, 2]);
}

#[test]
fn both_tls_files_or_neither() {
    let files = tls_files(Some("c".to_string()), Some("k".to_string())).unwrap().unwrap();
    assert_eq!((files.chain.as_str(), files.key.as_str()), ("c", "k"));
    assert!(tls_files(None, None).unwrap().is_none());
    assert_eq!(tls_files(Some("c".to_string()), None).unwrap_err(), IncompleteTls);
    assert_eq!(tls_files(None, Some("k".to_string())).unwrap_err(), IncompleteTls);
}

#[test]
fn changed_files_are_loaded_again() {
    let mut times = FileTimes { chain: 10, key: 10 };
    assert!(!times.reload(Some(10), Some(9)));
    assert!(!times.reload(None, None));
    assert!(times.reload(Some(11), Some(12)));
    assert_eq!((times.chain, times.key), (11, 10));
    assert!(times.reload(Some(11), Some(12)));
    assert_eq!((times.chain, times.key), (11, 12));
    assert!(!times.reload(Some(11), Some(12)));
}
