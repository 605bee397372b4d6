use std::collections::HashMap;

use travis_pipeline::{
    env_for_travis_env, pipeline_for_travis_config, pipeline_with_agent_seed, AgentSeed, Buildkite,
    Case, StringMap, Travis,
};

#[derive(Debug, PartialEq, Eq)]
struct ExpectedStep {
    commands: Vec<String>,
    label: Option<String>,
    agents: HashMap<String, String>,
    env: HashMap<String, String>,
    soft_fail: Vec<HashMap<String, String>>,
}

fn as_map(m: &StringMap) -> HashMap<String, String> {
    m.entries().iter().cloned().collect()
}

fn as_expected(b: &Buildkite) -> Vec<ExpectedStep> {
    b.steps
        .iter()
        .map(|s| ExpectedStep {
            commands: s.commands.clone(),
            label: s.label.clone(),
            agents: as_map(&s.agents),
            env: as_map(&s.env),
            soft_fail: s.soft_fail.iter().map(as_map).collect(),
        })
        .collect()
}

fn pairs(p: &[(&str, &str)]) -> HashMap<String, String> {
    p.iter().map(|(k, v)| (k.to_string(), v.to_string())).collect()
}

fn sample_travis() -> Travis {
    Travis {
        language: "rust".to_string(),
        rust: vec!["stable".to_string(), "nightly".to_string()],
        env: vec![
            "CRATE=boards/feather_m4 EXAMPLES=\"--example=blinky_basic --example=blinky_rtfm\"".to_string(),
            "CRATE=boards/gemma_m0 FEATURES=\"--features=unproven\"".to_string(),
        ],
        script: vec![
            "cd $CRATE".to_string(),
            "cargo build ${EXAMPLES:---examples} $FEATURES".to_string(),
        ],
        matrix: Some(vec![(
            "allow_failures".to_string(),
            vec![Case { rust: Some("nightly".to_string()), env: None }],
        )]),
    }
}

fn script() -> Vec<String> {
    vec![
        "cd $CRATE".to_string(),
        "cargo build ${EXAMPLES:---examples} $FEATURES".to_string(),
    ]
}

fn feather_env() -> HashMap<String, String> {
    pairs(&[
        ("CRATE", "boards/feather_m4"),
        ("EXAMPLES", "--example=blinky_basic --example=blinky_rtfm"),
    ])
}

fn gemma_env() -> HashMap<String, String> {
    pairs(&[("CRATE", "boards/gemma_m0"), ("FEATURES", "--features=unproven")])
}

fn check_convert_env() {
    let travis_env = "CRATE=boards/feather_m4 EXAMPLES=\"--example=blinky_basic --example=blinky_rtfm\"";
    let buildkite_env = env_for_travis_env(travis_env).expect("env parses");
    assert_eq!(as_map(&buildkite_env), feather_env());
}

#[test]
fn main_convert_env() {
    check_convert_env();
}

#[test]
fn buildkite_convert_env() {
    check_convert_env();
}

#[test]
fn buildkite_translate() {
    let buildkite = pipeline_for_travis_config(
        sample_travis(),
        Some(vec!["queue=ecs/agents", "task-definition=rust-embedded"]),
    )
    .expect("translates");

    let agents = |image: &str| {
        pairs(&[("queue", "ecs/agents"), ("image", image), ("task-definition", "rust-embedded")])
    };
    let any_exit = vec![pairs(&[("exit_status", "*")])];

    assert_eq!(
        as_expected(&buildkite),
        vec![
            ExpectedStep {
                commands: script(),
                label: Some(":rust: stable, CRATE=boards/feather_m4 EXAMPLES=\"--example=blinky_basic --example=blinky_rtfm\"".to_string()),
                agents: agents("rust:latest"),
                env: feather_env(),
                soft_fail: Vec::new(),
            },
            ExpectedStep {
                commands: script(),
                label: Some(":rust: stable, CRATE=boards/gemma_m0 FEATURES=\"--features=unproven\"".to_string()),
                agents: agents("rust:latest"),
                env: gemma_env(),
                soft_fail: Vec::new(),
            },
            ExpectedStep {
                commands: script(),
                label: Some(":rust: nightly, CRATE=boards/feather_m4 EXAMPLES=\"--example=blinky_basic --example=blinky_rtfm\"".to_string()),
                agents: agents("rustlang/rust:nightly"),
                env: feather_env(),
                soft_fail: any_exit.clone(),
            },
            ExpectedStep {
                commands: script(),
                label: Some(":rust: nightly, CRATE=boards/gemma_m0 FEATURES=\"--features=unproven\"".to_string()),
                agents: agents("rustlang/rust:nightly"),
                env: gemma_env(),
                soft_fail: any_exit,
            },
        ]
    );
}

#[test]
fn main_translate() {
    let buildkite = pipeline_with_agent_seed(
        sample_travis(),
        Some(vec!["queue=ecs/agents", "rust:embedded=true"]),
        AgentSeed::Version,
    )
    .expect("translates");

    let agents = |rust: &str| pairs(&[("queue", "ecs/agents"), ("rust", rust), ("rust:embedded", "true")]);
    let any_exit = vec![pairs(&[("exit_status", "*")])];

    assert_eq!(
        as_expected(&buildkite),
        vec![
            ExpectedStep {
                commands: script(),
                label: Some(":rust: stable, CRATE=boards/feather_m4 EXAMPLES=\"--example=blinky_basic --example=blinky_rtfm\"".to_string()),
                agents: agents("stable"),
                env: feather_env(),
                soft_fail: Vec::new(),
            },
            ExpectedStep {
                commands: script(),
                label: Some(":rust: stable, CRATE=boards/gemma_m0 FEATURES=\"--features=unproven\"".to_string()),
                agents: agents("stable"),
                env: gemma_env(),
                soft_fail: Vec::new(),
            },
            ExpectedStep {
                commands: script(),
                label: Some(":rust: nightly, CRATE=boards/feather_m4 EXAMPLES=\"--example=blinky_basic --example=blinky_rtfm\"".to_string()),
                agents: agents("nightly"),
                env: feather_env(),
                soft_fail: any_exit.clone(),
            },
            ExpectedStep {
                commands: script(),
                label: Some(":rust: nightly, CRATE=boards/gemma_m0 FEATURES=\"--features=unproven\"".to_string()),
                agents: agents("nightly"),
                env: gemma_env(),
                soft_fail: any_exit,
            },
        ]
    );
}
