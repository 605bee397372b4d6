use std::collections::HashMap;

use travis_pipeline::buildkite::AgentSeed;
use travis_pipeline::exclusion::{any_matches, is_allowed_failure};
use travis_pipeline::key_value::{decode_key_values, split_key_value, split_pairs};
use travis_pipeline::{
    env_for_travis_env, pipeline_for_travis_config, pipeline_with_agent_seed, unresolved_combinations,
    Buildkite, Case, Rust, StringMap, TranslateError, Travis,
};

fn strings(v: &[&str]) -> Vec<String> {
    v.iter().map(|s| s.to_string()).collect()
}

fn entries(m: &StringMap) -> Vec<(String, String)> {
    m.entries().clone()
}

fn owned(p: &[(&str, &str)]) -> Vec<(String, String)> {
    p.iter().map(|(k, v)| (k.to_string(), v.to_string())).collect()
}

fn travis(versions: &[&str], envs: &[&str], matrix: Option<Vec<(String, Vec<Case>)>>) -> Travis {
    Travis {
        language: "rust".to_string(),
        rust: strings(versions),
        env: strings(envs),
        script: strings(&["cargo test"]),
        matrix,
    }
}

fn labels(b: &Buildkite) -> Vec<String> {
    b.steps.iter().map(|s| s.label.clone().unwrap()).collect()
}

fn allowed(b: &Buildkite) -> Vec<bool> {
    b.steps.iter().map(|s| !s.soft_fail.is_empty()).collect()
}

fn nightly_case() -> Case {
    Case { rust: Some("nightly".to_string()), env: None }
}

#[test]
fn matrix_is_expanded_in_row_major_order() {
    let t = travis(&["stable", "1.42.0", "nightly"], &["A=1", "A=2"], None);
    let b = pipeline_for_travis_config(t, None).unwrap();
    assert_eq!(b.steps.len(), 6);
    assert_eq!(
        labels(&b),
        strings(&[
            ":rust: stable, A=1",
            ":rust: stable, A=2",
            ":rust: 1.42.0, A=1",
            ":rust: 1.42.0, A=2",
            ":rust: nightly, A=1",
            ":rust: nightly, A=2",
        ])
    );
    assert_eq!(entries(&b.steps[2].agents), owned(&[("image", "rust:1.42.0")]));
    assert_eq!(entries(&b.steps[3].env), owned(&[("A", "2")]));
    assert_eq!(b.steps[5].commands, strings(&["cargo test"]));
}

#[test]
fn decoding_encoded_pairs_gives_them_back() {
    let m = decode_key_values(&strings(&["A=1", "B=x=y", "C="])).unwrap();
    assert_eq!(entries(&m), owned(&[("A", "1"), ("B", "x=y"), ("C", "")]));
    let encoded: Vec<String> = m.entries().iter().map(|(k, v)| format!("{}={}", k, v)).collect();
    assert_eq!(encoded, strings(&["A=1", "B=x=y", "C="]));
    let again = decode_key_values(&encoded).unwrap();
    assert_eq!(entries(&again), entries(&m));
}

#[test]
fn later_key_overwrites_earlier_in_place() {
    let m = decode_key_values(&strings(&["A=1", "B=2", "A=3"])).unwrap();
    assert_eq!(entries(&m), owned(&[("A", "3"), ("B", "2")]));
}

#[test]
fn adding_a_case_only_affects_what_it_matches() {
    let v = "nightly".to_string();
    let other = "stable".to_string();
    let e = "A=1".to_string();
    let mut cases = vec![Case { rust: None, env: Some("A=2".to_string()) }];
    assert!(!any_matches(&cases, &v, &e));
    assert!(!any_matches(&cases, &other, &e));
    cases.push(nightly_case());
    assert!(any_matches(&cases, &v, &e));
    assert!(!any_matches(&cases, &other, &e));
    assert!(any_matches(&cases, &other, &"A=2".to_string()));
}

#[test]
fn case_without_fields_matches_everything() {
    let cases = vec![Case { rust: None, env: None }];
    assert!(any_matches(&cases, &"beta".to_string(), &"X=1".to_string()));
}

#[test]
fn only_the_allow_failures_category_counts() {
    let v = "nightly".to_string();
    let e = "A=1".to_string();
    let other = Some(vec![("fast_finish".to_string(), vec![nightly_case()])]);
    assert!(!is_allowed_failure(&other, &v, &e));
    assert!(!is_allowed_failure(&None, &v, &e));
    let listed = Some(vec![("allow_failures".to_string(), vec![nightly_case()])]);
    assert!(is_allowed_failure(&listed, &v, &e));
}

#[test]
fn overrides_win_over_seeded_placement() {
    let mut placement = StringMap::new();
    placement.insert("a".to_string(), "1".to_string());
    let overrides = split_pairs(&strings(&["a=2", "b=3"])).unwrap();
    placement.extend(&overrides);
    assert_eq!(entries(&placement), owned(&[("a", "2"), ("b", "3")]));
}

#[test]
fn caller_rules_override_the_image() {
    let t = travis(&["stable"], &["A=1"], None);
    let b = pipeline_for_travis_config(t, Some(vec!["image=custom", "queue=q"])).unwrap();
    assert_eq!(entries(&b.steps[0].agents), owned(&[("image", "custom"), ("queue", "q")]));
}

#[test]
fn versions_resolve_to_images() {
    assert_eq!(Rust::from_version("stable").image(), Some("rust:latest".to_string()));
    assert_eq!(Rust::from_version("nightly").image(), Some("rustlang/rust:nightly".to_string()));
    assert_eq!(Rust::from_version("beta").image(), None);
    assert_eq!(Rust::from_version("1.42.0").image(), Some("rust:1.42.0".to_string()));
    assert_eq!("beta".parse::<Rust>(), Ok(Rust::Beta));
    assert_eq!("1.42.0".parse::<Rust>(), Ok(Rust::Release("1.42.0".to_string())));
    assert_eq!("stable".parse::<Rust>(), Ok(Rust::Stable));
    assert_eq!("nightly".parse::<Rust>(), Ok(Rust::Nightly));
    assert_eq!("Stable".parse::<Rust>(), Ok(Rust::Release("Stable".to_string())));
    assert_eq!("Stable".parse::<Rust>().unwrap().image(), Some("rust:Stable".to_string()));
}

#[test]
fn end_to_end_nightly_allowed_to_fail() {
    let matrix = Some(vec![("allow_failures".to_string(), vec![nightly_case()])]);
    let t = travis(&["stable", "nightly"], &["CRATE=a", "CRATE=b"], matrix);
    let b = pipeline_for_travis_config(t, None).unwrap();
    assert_eq!(
        labels(&b),
        strings(&[
            ":rust: stable, CRATE=a",
            ":rust: stable, CRATE=b",
            ":rust: nightly, CRATE=a",
            ":rust: nightly, CRATE=b",
        ])
    );
    assert_eq!(allowed(&b), vec![false, false, true, true]);
    assert_eq!(entries(&b.steps[2].soft_fail[0]), owned(&[("exit_status", "*")]));
}

#[test]
fn quoted_value_stays_one_word() {
    let m = env_for_travis_env("CRATE=boards/x EXAMPLES=\"--example=a --example=b\"").unwrap();
    assert_eq!(
        entries(&m),
        owned(&[("CRATE", "boards/x"), ("EXAMPLES", "--example=a --example=b")])
    );
}

#[test]
fn word_without_separator_fails_the_translation() {
    let missing = |input: &str, word: &str| TranslateError::MissingSeparator {
        input: input.to_string(),
        word: word.to_string(),
    };
    assert_eq!(env_for_travis_env("FOO"), Err(missing("FOO", "FOO")));
    assert_eq!(env_for_travis_env("A=1 FOO B=2"), Err(missing("A=1 FOO B=2", "FOO")));
    let t = travis(&["stable", "nightly"], &["A=1", "FOO"], None);
    assert_eq!(pipeline_for_travis_config(t, None), Err(missing("FOO", "FOO")));
}

#[test]
fn unbalanced_quotes_fail_the_translation() {
    let bad = "A=\"unterminated";
    assert_eq!(
        env_for_travis_env(bad),
        Err(TranslateError::MalformedShellSyntax(bad.to_string()))
    );
    let t = travis(&["stable"], &[bad], None);
    assert_eq!(
        pipeline_for_travis_config(t, None),
        Err(TranslateError::MalformedShellSyntax(bad.to_string()))
    );
}

#[test]
fn rule_without_separator_fails_the_translation() {
    let t = travis(&["stable"], &["A=1"], None);
    assert_eq!(
        pipeline_for_travis_config(t, Some(vec!["queue"])),
        Err(TranslateError::MissingSeparator {
            input: "queue".to_string(),
            word: "queue".to_string(),
        })
    );
}

#[test]
fn beta_is_skipped_and_reported() {
    let t = travis(&["beta", "stable"], &["A=1", "A=2"], None);
    assert_eq!(
        unresolved_combinations(&t),
        owned(&[("beta", "A=1"), ("beta", "A=2")])
    );
    let b = pipeline_for_travis_config(t, None).unwrap();
    assert_eq!(labels(&b), strings(&[":rust: stable, A=1", ":rust: stable, A=2"]));
}

#[test]
fn no_env_strings_gives_no_steps() {
    let t = travis(&["stable"], &[], None);
    let b = pipeline_for_travis_config(t, None).unwrap();
    assert!(b.steps.is_empty());
}

#[test]
fn version_seed_records_the_identifier() {
    let t = travis(&["1.42.0"], &["A=1"], None);
    let b = pipeline_with_agent_seed(t, None, AgentSeed::Version).unwrap();
    assert_eq!(
        entries(&b.steps[0].agents),
        owned(&[("rust", "1.42.0"), ("rust:embedded", "true")])
    );
}

#[test]
fn split_at_first_separator() {
    assert_eq!(split_key_value("=v"), Some(("".to_string(), "v".to_string())));
    assert_eq!(split_key_value("k=a=b"), Some(("k".to_string(), "a=b".to_string())));
    assert_eq!(split_key_value("k"), None);
}

#[test]
fn shell_escapes_are_resolved() {
    let m = env_for_travis_env("A=b\\ c B='x y'").unwrap();
    assert_eq!(entries(&m), owned(&[("A", "b c"), ("B", "x y")]));
    let as_hash: HashMap<String, String> = m.entries().iter().cloned().collect();
    assert_eq!(as_hash.len(), 2);
}

#[test]
fn adding_a_case_changes_only_matching_steps() {
    let env_case = Case { rust: None, env: Some("A=2".to_string()) };
    let before = Some(vec![("allow_failures".to_string(), vec![nightly_case()])]);
    let after = Some(vec![("allow_failures".to_string(), vec![nightly_case(), env_case])]);
    let b1 = pipeline_for_travis_config(travis(&["stable", "nightly"], &["A=1", "A=2"], before), None).unwrap();
    let b2 = pipeline_for_travis_config(travis(&["stable", "nightly"], &["A=1", "A=2"], after), None).unwrap();
    assert_eq!(allowed(&b1), vec![false, false, true, true]);
    assert_eq!(allowed(&b2), vec![false, true, true, true]);
    assert_eq!(labels(&b1), labels(&b2));
    for (s1, s2) in b1.steps.iter().zip(b2.steps.iter()) {
        assert_eq!(entries(&s1.agents), entries(&s2.agents));
        assert_eq!(entries(&s1.env), entries(&s2.env));
    }
}
