use adresse_check::query::{build_query, interpret_response};
use adresse_check::record::decode_input_row;
use adresse_check::score::score_meets_threshold;

fn verdict(body: &str) -> bool {
    interpret_response(&body.as_bytes().to_vec())
}

fn meets(t: &str) -> bool {
    score_meets_threshold(&t.as_bytes().to_vec())
}

#[test]
fn high_score_passes() {
    assert!(verdict(r#"{"features":[{"properties":{"score":0.95}}]}"#));
}

#[test]
fn threshold_is_inclusive() {
    assert!(verdict(r#"{"features":[{"properties":{"score":0.7}}]}"#));
}

#[test]
fn low_score_fails() {
    assert!(!verdict(r#"{"features":[{"properties":{"score":0.4}}]}"#));
}

#[test]
fn just_below_threshold_fails() {
    assert!(!verdict(r#"{"features":[{"properties":{"score":0.699}}]}"#));
}

#[test]
fn integer_score_passes() {
    assert!(verdict(r#"{"features":[{"properties":{"score":1}}]}"#));
}

#[test]
fn zero_score_fails() {
    assert!(!verdict(r#"{"features":[{"properties":{"score":0}}]}"#));
}

#[test]
fn absent_features_fails() {
    assert!(!verdict(r#"{"type":"FeatureCollection"}"#));
}

#[test]
fn empty_features_fails() {
    assert!(!verdict(r#"{"features":[]}"#));
}

#[test]
fn missing_score_fails() {
    assert!(!verdict(r#"{"features":[{"properties":{"label":"x"}}]}"#));
}

#[test]
fn non_numeric_score_fails() {
    assert!(!verdict(r#"{"features":[{"properties":{"score":"0.9"}}]}"#));
}

#[test]
fn malformed_body_fails() {
    assert!(!verdict("not json at all"));
}

#[test]
fn empty_body_fails() {
    assert!(!verdict(""));
}

#[test]
fn extra_fields_are_ignored() {
    assert!(verdict(
        r#"{"type":"FeatureCollection","version":"draft","features":[{"type":"Feature","geometry":{"type":"Point","coordinates":[2.33,48.87]},"properties":{"label":"1 Rue de la Paix 75002 Paris","score":0.87,"id":"75102_7884_00001"}}],"attribution":"BAN"}"#
    ));
}

#[test]
fn only_first_candidate_counts() {
    assert!(!verdict(
        r#"{"features":[{"properties":{"score":0.2}},{"properties":{"score":0.99}}]}"#
    ));
}

#[test]
fn negative_score_fails() {
    assert!(!verdict(r#"{"features":[{"properties":{"score":-0.8}}]}"#));
}

#[test]
fn threshold_on_plain_texts() {
    assert!(meets("0.7"));
    assert!(meets("0.70"));
    assert!(meets("0.75"));
    assert!(meets("0.9999"));
    assert!(meets("1"));
    assert!(meets("1.0"));
    assert!(meets("2.5"));
    assert!(meets("10.2"));
    assert!(!meets("0.69"));
    assert!(!meets("0.6999"));
    assert!(!meets("0"));
    assert!(!meets("0.0"));
    assert!(!meets("0.1"));
    assert!(!meets(""));
    assert!(!meets("."));
    assert!(!meets("0."));
    assert!(!meets(".7"));
    assert!(!meets("-0.8"));
    assert!(!meets("1e3"));
    assert!(!meets("0.7.1"));
    assert!(!meets("abc"));
}

#[test]
fn query_text_shape() {
    let r = b"Jean Dupont\t1 Rue de la Paix\t75002\tParis\t0600000000".to_vec();
    let rec = decode_input_row(&r).unwrap();
    assert_eq!(build_query(&rec), b"1 Rue de la Paix, 75002 Paris".to_vec());
}
