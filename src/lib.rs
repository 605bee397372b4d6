//! Translation of a matrix-based Travis CI configuration into a step-based
//! Buildkite pipeline.

pub mod buildkite;
pub mod error;
pub mod exclusion;
pub mod key_value;
pub mod laws;
pub mod shell;
pub mod string_map;
pub mod travis;

pub use error::TranslateError;
pub use string_map::StringMap;
pub use buildkite::{
    env_for_travis_env, pipeline_for_travis_config, pipeline_with_agent_seed, unresolved_combinations,
    AgentSeed, Buildkite, Step,
};
pub use travis::{Case, Rust, Travis};
