use std::collections::BTreeMap;

use mnemo::metadata::{
    metadata_from_json, metadata_of_pairs, parse_metadata_entries, parse_metadata_env, Metadata,
};

fn strings(list: &[&str]) -> Vec<String> {
    list.iter().map(|s| s.to_string()).collect()
}

fn pairs(list: &[(&str, &str)]) -> Vec<(String, String)> {
    list.iter()
        .map(|(k, v)| (k.to_string(), v.to_string()))
        .collect()
}

#[test]
fn keys_stay_distinct_and_in_order() {
    let mut metadata = Metadata::new();
    assert!(metadata.is_empty());
    let mut model = BTreeMap::new();
    for (k, v) in [("m", "1"), ("a", "2"), ("z", "3"), ("m", "4"), ("é", "5"), ("a", "6")] {
        metadata.insert(k.to_string(), v.to_string());
        model.insert(k.to_string(), v.to_string());
        let expected: Vec<(String, String)> = model.clone().into_iter().collect();
        assert_eq!(metadata.entries(), &expected);
    }
    assert!(!metadata.is_empty());
}

#[test]
fn entries_are_split_at_the_first_equals_sign() {
    let metadata = parse_metadata_entries(strings(&["source=mnemo", "q=a=b", "empty="]))
        .unwrap()
        .unwrap();
    assert_eq!(
        metadata.entries(),
        &pairs(&[("empty", ""), ("q", "a=b"), ("source", "mnemo")])
    );
}

#[test]
fn the_later_of_two_entries_counts() {
    let metadata = parse_metadata_entries(strings(&["k=1", "k=2"])).unwrap().unwrap();
    assert_eq!(metadata.entries(), &pairs(&[("k", "2")]));
}

#[test]
fn no_entries_are_no_metadata() {
    assert!(parse_metadata_entries(Vec::new()).unwrap().is_none());
}

#[test]
fn bad_entries_are_refused() {
    let error = parse_metadata_entries(strings(&["a=1", "oops", "=x"])).unwrap_err();
    assert_eq!(
        error.message(),
        "metadata entries must use KEY=VALUE format: oops"
    );
    let error = parse_metadata_entries(strings(&["=x", "oops"])).unwrap_err();
    assert_eq!(error.message(), "metadata keys cannot be empty");
    assert_eq!(error.cause(), None);
}

#[test]
fn the_variable_holds_a_json_object_of_strings() {
    let text = "{\"b\":\"2\",\"a\":\"\\u00e9\\n\", \"b\" : \"3\"}";
    let metadata = parse_metadata_env(Some(text.to_string())).unwrap().unwrap();
    assert_eq!(metadata.entries(), &pairs(&[("a", "é\n"), ("b", "3")]));
    let empty = parse_metadata_env(Some("{}".to_string())).unwrap().unwrap();
    assert!(empty.is_empty());
    assert!(parse_metadata_env(None).unwrap().is_none());
}

#[test]
fn bad_json_is_refused_with_its_reason() {
    for text in ["", "null", "[]", "{\"a\":1}", "{", "{\"a\":\"b\"} x"] {
        let error = parse_metadata_env(Some(text.to_string())).unwrap_err();
        assert_eq!(error.message(), "failed to parse MNEMO_METADATA JSON");
        let reason = serde_json::from_str::<BTreeMap<String, String>>(text)
            .unwrap_err()
            .to_string();
        assert_eq!(error.cause(), Some(reason));
    }
}

#[test]
fn what_was_read_becomes_metadata() {
    let metadata = metadata_from_json(Ok(pairs(&[("b", "1"), ("a", "2"), ("b", "3")])))
        .unwrap()
        .unwrap();
    assert_eq!(metadata.entries(), &pairs(&[("a", "2"), ("b", "3")]));
    let error = metadata_from_json(Err("no".to_string())).unwrap_err();
    assert_eq!(error.cause(), Some("no".to_string()));
    let same = metadata_of_pairs(pairs(&[("a", "2"), ("b", "3")]));
    assert_eq!(same.entries(), metadata.entries());
}
