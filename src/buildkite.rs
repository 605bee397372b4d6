//! The Buildkite pipeline and its construction from a Travis configuration.

use vstd::prelude::*;
use vstd::string::*;
use crate::error::{ErrorView, TranslateError};
use crate::exclusion::{allows_failure, is_allowed_failure};
use crate::key_value::{decode_words, split_all, split_pairs, views};
use crate::shell::{shell_words_of, split_shell_words};
use crate::string_map::{insert_all, pair_views, Entries, StringMap};
use crate::travis::rust::image_for_version;
use crate::travis::{Rust, Travis};

verus! {

/// Where the agent rules of each step start from, before the caller's rules
/// are written over them.
#[derive(Debug, Clone, Copy, PartialEq, Eq)]
pub enum AgentSeed {
    /// `image` set to the Docker image of the step's toolchain.
    Image,
    /// `rust` set to the toolchain's version identifier, with the marker
    /// `rust:embedded` set to `true`.
    Version,
}

/// One Buildkite command step.
#[derive(Debug, PartialEq, Eq)]
pub struct Step {
    pub commands: Vec<String>,
    pub label: Option<String>,
    /// Agent query rules that select where the step runs.
    pub agents: StringMap,
    pub env: StringMap,
    /// Exit conditions under which a failure of the step is tolerated.
    pub soft_fail: Vec<StringMap>,
}

/// Abstract value of a [`Step`].
pub struct StepView {
    pub commands: Seq<Seq<char>>,
    pub label: Option<Seq<char>>,
    pub agents: Entries,
    pub env: Entries,
    pub soft_fail: Seq<Entries>,
}

impl View for Step {
    type V = StepView;

    open spec fn view(&self) -> StepView {
        StepView {
            commands: views(self.commands@),
            label: match self.label {
                Some(l) => Some(l@),
                None => None,
            },
            agents: self.agents@,
            env: self.env@,
            soft_fail: self.soft_fail@.map_values(|m: StringMap| m@),
        }
    }
}

impl Step {
    /// Each map of the step keeps its keys distinct.
    pub open spec fn wf(&self) -> bool {
        &&& self.agents.wf()
        &&& self.env.wf()
        &&& forall|i: int| 0 <= i < self.soft_fail@.len() ==> (#[trigger] self.soft_fail@[i]).wf()
    }
}

/// A Buildkite pipeline.
#[derive(Debug, PartialEq, Eq)]
pub struct Buildkite {
    pub steps: Vec<Step>,
}

/// Abstract values of a sequence of steps.
pub open spec fn step_views(s: Seq<Step>) -> Seq<StepView> {
    s.map_values(|st: Step| st@)
}

/// What an environment string decodes to: its shell words, each a
/// `KEY=VALUE` pair.
pub open spec fn decode_env(s: Seq<char>) -> Result<Entries, ErrorView> {
    match shell_words_of(s) {
        None => Err(ErrorView::MalformedShellSyntax(s)),
        Some(words) => match decode_words(words) {
            Ok(m) => Ok(m),
            Err(w) => Err(ErrorView::MissingSeparator(s, w)),
        },
    }
}

/// The error of the first environment string that does not decode.
pub open spec fn first_env_error(envs: Seq<Seq<char>>) -> Option<ErrorView>
    decreases envs.len(),
{
    if envs.len() == 0 {
        None
    } else {
        match first_env_error(envs.drop_last()) {
            Some(err) => Some(err),
            None => match decode_env(envs.last()) {
                Err(err) => Some(err),
                Ok(_) => None,
            },
        }
    }
}

/// The decoded environment of a step.
pub open spec fn env_entries(s: Seq<char>) -> Entries {
    match decode_env(s) {
        Ok(m) => m,
        Err(_) => Seq::empty(),
    }
}

pub open spec fn label_for(v: Seq<char>, e: Seq<char>) -> Seq<char> {
    ":rust: "@ + v + ", "@ + e
}

/// The agent rules a step starts from.
pub open spec fn seed_pairs(seed: AgentSeed, v: Seq<char>, image: Seq<char>) -> Entries {
    match seed {
        AgentSeed::Image => seq![("image"@, image)],
        AgentSeed::Version => seq![("rust"@, v), ("rust:embedded"@, "true"@)],
    }
}

/// The seeded agent rules with the caller's rules written over them.
pub open spec fn agents_for(seed: AgentSeed, v: Seq<char>, image: Seq<char>, rules: Entries) -> Entries {
    insert_all(insert_all(Seq::empty(), seed_pairs(seed, v, image)), rules)
}

/// A step that may fail tolerates any exit status.
pub open spec fn soft_fail_for(allowed: bool) -> Seq<Entries> {
    if allowed {
        seq![seq![("exit_status"@, "*"@)]]
    } else {
        Seq::empty()
    }
}

/// The step for version `v`, whose image is `image`, and environment string
/// `e`.
pub open spec fn step_for(
    t: Travis,
    seed: AgentSeed,
    rules: Entries,
    v: Seq<char>,
    image: Seq<char>,
    e: Seq<char>,
) -> StepView {
    StepView {
        commands: views(t.script@),
        label: Some(label_for(v, e)),
        agents: agents_for(seed, v, image, rules),
        env: env_entries(e),
        soft_fail: soft_fail_for(allows_failure(t.matrix, v, e)),
    }
}

/// The steps of version `v`, one per environment string in order; none
/// where the version has no image.
pub open spec fn version_steps(t: Travis, seed: AgentSeed, rules: Entries, v: Seq<char>) -> Seq<StepView> {
    match image_for_version(v) {
        Some(image) => views(t.env@).map_values(|e: Seq<char>| step_for(t, seed, rules, v, image, e)),
        None => Seq::empty(),
    }
}

/// The steps of the versions `vs`, the environment strings varying fastest.
pub open spec fn steps_for_versions(
    t: Travis,
    seed: AgentSeed,
    rules: Entries,
    vs: Seq<Seq<char>>,
) -> Seq<StepView>
    decreases vs.len(),
{
    if vs.len() == 0 {
        Seq::empty()
    } else {
        steps_for_versions(t, seed, rules, vs.drop_last()) + version_steps(t, seed, rules, vs.last())
    }
}

/// The whole translation: the first environment string that does not
/// decode fails it, then the first caller rule without `=`; otherwise every
/// combination of a version that has an image with an environment string
/// gives a step.
pub open spec fn translate(t: Travis, seed: AgentSeed, rules: Seq<Seq<char>>) -> Result<Seq<StepView>, ErrorView> {
    match first_env_error(views(t.env@)) {
        Some(err) => Err(err),
        None => match split_all(rules) {
            Err(w) => Err(ErrorView::MissingSeparator(w, w)),
            Ok(pairs) => Ok(steps_for_versions(t, seed, pairs, views(t.rust@))),
        },
    }
}

/// The caller's agent rules; none given is the same as an empty list.
pub open spec fn rule_words(rules: Option<Vec<&str>>) -> Seq<Seq<char>> {
    match rules {
        Some(r) => r@.map_values(|w: &str| w@),
        None => Seq::empty(),
    }
}

/// The combinations whose version has no image, in matrix order.
pub open spec fn unresolved(vs: Seq<Seq<char>>, es: Seq<Seq<char>>) -> Entries
    decreases vs.len(),
{
    if vs.len() == 0 {
        Seq::empty()
    } else {
        let v = vs.last();
        unresolved(vs.drop_last(), es) + if image_for_version(v) is None {
            es.map_values(|e: Seq<char>| (v, e))
        } else {
            Seq::empty()
        }
    }
}

/// Splits an environment string into its `KEY=VALUE` pairs.
fn env_pairs(env: &str) -> (r: Result<Vec<(String, String)>, TranslateError>)
    ensures
        match r {
            Ok(p) => decode_env(env@) == Ok::<Entries, ErrorView>(insert_all(Seq::empty(), pair_views(p@))),
            Err(e) => decode_env(env@) == Err::<Entries, ErrorView>(e@),
        },
{
    match split_shell_words(env) {
        Err(_) => Err(TranslateError::MalformedShellSyntax(String::from_str(env))),
        Ok(words) => match split_pairs(&words) {
            Err(TranslateError::MissingSeparator { word, .. }) => Err(
                TranslateError::MissingSeparator { input: String::from_str(env), word },
            ),
            other => other,
        },
    }
}

/// Decodes an environment string into its variables.
pub fn env_for_travis_env(env: &str) -> (r: Result<StringMap, TranslateError>)
    ensures
        match r {
            Ok(m) => decode_env(env@) == Ok::<Entries, ErrorView>(m@) && m.wf(),
            Err(e) => decode_env(env@) == Err::<Entries, ErrorView>(e@),
        },
{
    let pairs = env_pairs(env)?;
    let mut map = StringMap::new();
    map.extend(&pairs);
    Ok(map)
}

/// Decodes every environment string, stopping at the first that fails.
fn decode_envs(envs: &Vec<String>) -> (r: Result<Vec<Vec<(String, String)>>, TranslateError>)
    ensures
        match r {
            Ok(ps) => {
                &&& first_env_error(views(envs@)) is None
                &&& ps@.len() == envs@.len()
                &&& forall|j: int|
                    0 <= j < envs@.len() ==> decode_env(#[trigger] envs@[j]@) == Ok::<
                        Entries,
                        ErrorView,
                    >(insert_all(Seq::empty(), pair_views(ps@[j]@)))
            },
            Err(e) => first_env_error(views(envs@)) == Some(e@),
        },
{
    let mut decoded: Vec<Vec<(String, String)>> = Vec::new();
    let mut j: usize = 0;
    proof {
        assert(views(envs@).take(0) =~= Seq::<Seq<char>>::empty());
    }
    while j < envs.len()
        invariant
            j <= envs@.len(),
            decoded@.len() == j,
            first_env_error(views(envs@).take(j as int)) is None,
            forall|k: int|
                0 <= k < j ==> decode_env(#[trigger] envs@[k]@) == Ok::<Entries, ErrorView>(
                    insert_all(Seq::empty(), pair_views(decoded@[k]@)),
                ),
        decreases envs.len() - j,
    {
        proof {
            let next = views(envs@).take(j + 1);
            assert(next.drop_last() =~= views(envs@).take(j as int));
            assert(next.last() == envs@[j as int]@);
        }
        match env_pairs(envs[j].as_str()) {
            Ok(p) => {
                decoded.push(p);
            },
            Err(e) => {
                proof {
                    lemma_env_error_prefix(views(envs@), j + 1);
                }
                return Err(e);
            },
        }
        j = j + 1;
    }
    proof {
        assert(views(envs@).take(envs@.len() as int) =~= views(envs@));
    }
    Ok(decoded)
}

/// An error among the first environment strings is the first error of all
/// of them.
proof fn lemma_env_error_prefix(es: Seq<Seq<char>>, n: int)
    requires
        0 <= n <= es.len(),
        first_env_error(es.take(n)) is Some,
    ensures
        first_env_error(es) == first_env_error(es.take(n)),
    decreases es.len() - n,
{
    if n < es.len() {
        assert(es.take(n + 1).drop_last() =~= es.take(n));
        lemma_env_error_prefix(es, n + 1);
    } else {
        assert(es.take(n) =~= es);
    }
}

/// The agent rules a step starts from.
fn seed_rules(seed: AgentSeed, version: &String, image: &String) -> (r: Vec<(String, String)>)
    ensures
        pair_views(r@) == seed_pairs(seed, version@, image@),
{
    let mut r: Vec<(String, String)> = Vec::new();
    match seed {
        AgentSeed::Image => {
            r.push((String::from_str("image"), image.clone()));
        },
        AgentSeed::Version => {
            r.push((String::from_str("rust"), version.clone()));
            r.push((String::from_str("rust:embedded"), String::from_str("true")));
        },
    }
    proof {
        assert(pair_views(r@) =~= seed_pairs(seed, version@, image@));
    }
    r
}

/// Copies a list of strings.
fn copy_strings(v: &Vec<String>) -> (r: Vec<String>)
    ensures
        views(r@) == views(v@),
{
    let mut r: Vec<String> = Vec::new();
    let mut i: usize = 0;
    while i < v.len()
        invariant
            i <= v@.len(),
            views(r@) == views(v@).take(i as int),
        decreases v.len() - i,
    {
        let ghost before = views(r@);
        let s = v[i].clone();
        r.push(s);
        proof {
            assert(views(r@) =~= before.push(v@[i as int]@));
            assert(views(r@) =~= views(v@).take(i + 1));
        }
        i = i + 1;
    }
    proof {
        assert(views(v@).take(v@.len() as int) =~= views(v@));
    }
    r
}

/// Builds the step for one version and one environment string.
fn make_step(
    travis: &Travis,
    seed: AgentSeed,
    rules: &Vec<(String, String)>,
    version: &String,
    image: &String,
    env: &String,
    env_pairs: &Vec<(String, String)>,
) -> (r: Step)
    requires
        decode_env(env@) == Ok::<Entries, ErrorView>(insert_all(Seq::empty(), pair_views(env_pairs@))),
    ensures
        r@ == step_for(*travis, seed, pair_views(rules@), version@, image@, env@),
        r.wf(),
{
    let label = String::from_str(":rust: ").concat(version.as_str()).concat(", ").concat(env.as_str());
    let mut agents = StringMap::new();
    agents.extend(&seed_rules(seed, version, image));
    agents.extend(rules);
    let mut env_map = StringMap::new();
    env_map.extend(env_pairs);
    let mut soft_fail: Vec<StringMap> = Vec::new();
    if is_allowed_failure(&travis.matrix, version, env) {
        let mut any_status = StringMap::new();
        any_status.insert(String::from_str("exit_status"), String::from_str("*"));
        soft_fail.push(any_status);
    }
    let step = Step {
        commands: copy_strings(&travis.script),
        label: Some(label),
        agents,
        env: env_map,
        soft_fail,
    };
    proof {
        assert(step@.soft_fail =~= soft_fail_for(allows_failure(travis.matrix, version@, env@)));
        assert(step@ == step_for(*travis, seed, pair_views(rules@), version@, image@, env@));
    }
    step
}

/// Builds the steps of every version that has an image, the environment
/// strings varying fastest.
fn assemble(
    travis: &Travis,
    seed: AgentSeed,
    env_pairs: &Vec<Vec<(String, String)>>,
    rules: &Vec<(String, String)>,
) -> (r: Vec<Step>)
    requires
        env_pairs@.len() == travis.env@.len(),
        forall|j: int|
            0 <= j < travis.env@.len() ==> decode_env(#[trigger] travis.env@[j]@) == Ok::<
                Entries,
                ErrorView,
            >(insert_all(Seq::empty(), pair_views(env_pairs@[j]@))),
    ensures
        step_views(r@) == steps_for_versions(*travis, seed, pair_views(rules@), views(travis.rust@)),
        forall|i: int| 0 <= i < r@.len() ==> (#[trigger] r@[i]).wf(),
{
    let ghost rv = pair_views(rules@);
    let mut steps: Vec<Step> = Vec::new();
    let mut i: usize = 0;
    proof {
        assert(views(travis.rust@).take(0) =~= Seq::<Seq<char>>::empty());
        assert(step_views(steps@) =~= Seq::<StepView>::empty());
    }
    while i < travis.rust.len()
        invariant
            i <= travis.rust@.len(),
            rv == pair_views(rules@),
            env_pairs@.len() == travis.env@.len(),
            forall|j: int|
                0 <= j < travis.env@.len() ==> decode_env(#[trigger] travis.env@[j]@) == Ok::<
                    Entries,
                    ErrorView,
                >(insert_all(Seq::empty(), pair_views(env_pairs@[j]@))),
            step_views(steps@) == steps_for_versions(*travis, seed, rv, views(travis.rust@).take(i as int)),
            forall|k: int| 0 <= k < steps@.len() ==> (#[trigger] steps@[k]).wf(),
        decreases travis.rust.len() - i,
    {
        let version = &travis.rust[i];
        let ghost base = step_views(steps@);
        proof {
            let next = views(travis.rust@).take(i + 1);
            assert(next.drop_last() =~= views(travis.rust@).take(i as int));
            assert(next.last() == version@);
        }
        match Rust::from_version(version.as_str()).image() {
            None => {
                proof {
                    assert(step_views(steps@) =~= base + version_steps(*travis, seed, rv, version@));
                }
            },
            Some(image) => {
                let ghost es = views(travis.env@);
                let mut j: usize = 0;
                proof {
                    assert(step_views(steps@) =~= base + es.take(0).map_values(
                        |e: Seq<char>| step_for(*travis, seed, rv, version@, image@, e),
                    ));
                }
                while j < travis.env.len()
                    invariant
                        j <= travis.env@.len(),
                        es == views(travis.env@),
                        rv == pair_views(rules@),
                        image_for_version(version@) == Some(image@),
                        env_pairs@.len() == travis.env@.len(),
                        forall|k: int|
                            0 <= k < travis.env@.len() ==> decode_env(#[trigger] travis.env@[k]@)
                                == Ok::<Entries, ErrorView>(
                                insert_all(Seq::empty(), pair_views(env_pairs@[k]@)),
                            ),
                        step_views(steps@) == base + es.take(j as int).map_values(
                            |e: Seq<char>| step_for(*travis, seed, rv, version@, image@, e),
                        ),
                        forall|k: int| 0 <= k < steps@.len() ==> (#[trigger] steps@[k]).wf(),
                    decreases travis.env.len() - j,
                {
                    let step = make_step(travis, seed, rules, version, &image, &travis.env[j], &env_pairs[j]);
                    let ghost before = step_views(steps@);
                    steps.push(step);
                    proof {
                        assert(step_views(steps@) =~= before.push(step@));
                        assert(es.take(j + 1) =~= es.take(j as int).push(travis.env@[j as int]@));
                        assert(step_views(steps@) =~= base + es.take(j + 1).map_values(
                            |e: Seq<char>| step_for(*travis, seed, rv, version@, image@, e),
                        ));
                    }
                    j = j + 1;
                }
                proof {
                    assert(es.take(es.len() as int) =~= es);
                }
            },
        }
        i = i + 1;
    }
    proof {
        assert(views(travis.rust@).take(travis.rust@.len() as int) =~= views(travis.rust@));
    }
    steps
}

/// Copies the caller's agent rules into owned strings.
fn rule_strings(agent_query_rules: &Option<Vec<&str>>) -> (r: Vec<String>)
    ensures
        views(r@) == rule_words(*agent_query_rules),
{
    let mut r: Vec<String> = Vec::new();
    match agent_query_rules {
        None => {
            proof {
                assert(views(r@) =~= rule_words(*agent_query_rules));
            }
        },
        Some(rules) => {
            let ghost ws = rules@.map_values(|w: &str| w@);
            let mut i: usize = 0;
            proof {
                assert(views(r@) =~= ws.take(0));
            }
            while i < rules.len()
                invariant
                    i <= rules@.len(),
                    ws == rules@.map_values(|w: &str| w@),
                    views(r@) == ws.take(i as int),
                decreases rules.len() - i,
            {
                let ghost before = views(r@);
                r.push(String::from_str(rules[i]));
                proof {
                    assert(views(r@) =~= before.push(rules@[i as int]@));
                    assert(views(r@) =~= ws.take(i + 1));
                }
                i = i + 1;
            }
            proof {
                assert(ws.take(ws.len() as int) =~= ws);
            }
        },
    }
    r
}

impl Buildkite {
    /// Translates a Travis configuration into a pipeline with the agent
    /// rules of `seed` and no others.
    pub fn from_travis(travis: &Travis, seed: AgentSeed) -> (r: Result<Buildkite, TranslateError>)
        ensures
            match r {
                Ok(b) => {
                    &&& translate(*travis, seed, Seq::empty()) == Ok::<Seq<StepView>, ErrorView>(
                        step_views(b.steps@),
                    )
                    &&& forall|i: int| 0 <= i < b.steps@.len() ==> (#[trigger] b.steps@[i]).wf()
                },
                Err(e) => translate(*travis, seed, Seq::empty()) == Err::<Seq<StepView>, ErrorView>(e@),
            },
    {
        let envs = decode_envs(&travis.env)?;
        let no_rules: Vec<(String, String)> = Vec::new();
        let steps = assemble(travis, seed, &envs, &no_rules);
        proof {
            assert(pair_views(no_rules@) =~= Seq::<(Seq<char>, Seq<char>)>::empty());
        }
        Ok(Buildkite { steps })
    }
}

/// Translates a Travis configuration into a pipeline whose steps start from
/// the agent rules of `seed`, with the caller's `KEY=VALUE` agent rules
/// written over them in order.
pub fn pipeline_with_agent_seed(
    travis: Travis,
    agent_query_rules: Option<Vec<&str>>,
    seed: AgentSeed,
) -> (r: Result<Buildkite, TranslateError>)
    ensures
        match r {
            Ok(b) => {
                &&& translate(travis, seed, rule_words(agent_query_rules)) == Ok::<Seq<StepView>, ErrorView>(
                    step_views(b.steps@),
                )
                &&& forall|i: int| 0 <= i < b.steps@.len() ==> (#[trigger] b.steps@[i]).wf()
            },
            Err(e) => translate(travis, seed, rule_words(agent_query_rules)) == Err::<Seq<StepView>, ErrorView>(e@),
        },
{
    let envs = decode_envs(&travis.env)?;
    let words = rule_strings(&agent_query_rules);
    let rules = split_pairs(&words)?;
    let steps = assemble(&travis, seed, &envs, &rules);
    Ok(Buildkite { steps })
}

/// Translates a Travis configuration into a pipeline: each step's agents
/// hold the `image` of its toolchain, with the caller's `KEY=VALUE` agent
/// rules written over it in order.
pub fn pipeline_for_travis_config(travis: Travis, agent_query_rules: Option<Vec<&str>>) -> (r: Result<
    Buildkite,
    TranslateError,
>)
    ensures
        match r {
            Ok(b) => {
                &&& translate(travis, AgentSeed::Image, rule_words(agent_query_rules)) == Ok::<
                    Seq<StepView>,
                    ErrorView,
                >(step_views(b.steps@))
                &&& forall|i: int| 0 <= i < b.steps@.len() ==> (#[trigger] b.steps@[i]).wf()
            },
            Err(e) => translate(travis, AgentSeed::Image, rule_words(agent_query_rules)) == Err::<
                Seq<StepView>,
                ErrorView,
            >(e@),
        },
{
    pipeline_with_agent_seed(travis, agent_query_rules, AgentSeed::Image)
}

/// The combinations of version and environment string that get no step
/// because the version has no image, in matrix order.
pub fn unresolved_combinations(travis: &Travis) -> (r: Vec<(String, String)>)
    ensures
        pair_views(r@) == unresolved(views(travis.rust@), views(travis.env@)),
{
    let ghost vs = views(travis.rust@);
    let ghost es = views(travis.env@);
    let mut r: Vec<(String, String)> = Vec::new();
    let mut i: usize = 0;
    proof {
        assert(vs.take(0) =~= Seq::<Seq<char>>::empty());
        assert(pair_views(r@) =~= Seq::<(Seq<char>, Seq<char>)>::empty());
    }
    while i < travis.rust.len()
        invariant
            i <= travis.rust@.len(),
            vs == views(travis.rust@),
            es == views(travis.env@),
            pair_views(r@) == unresolved(vs.take(i as int), es),
        decreases travis.rust.len() - i,
    {
        let version = &travis.rust[i];
        let ghost base = pair_views(r@);
        proof {
            assert(vs.take(i + 1).drop_last() =~= vs.take(i as int));
            assert(vs.take(i + 1).last() == version@);
        }
        if Rust::from_version(version.as_str()).image().is_none() {
            let mut j: usize = 0;
            proof {
                assert(pair_views(r@) =~= base + es.take(0).map_values(|e: Seq<char>| (version@, e)));
            }
            while j < travis.env.len()
                invariant
                    j <= travis.env@.len(),
                    es == views(travis.env@),
                    pair_views(r@) == base + es.take(j as int).map_values(|e: Seq<char>| (version@, e)),
                decreases travis.env.len() - j,
            {
                let ghost before = pair_views(r@);
                r.push((version.clone(), travis.env[j].clone()));
                proof {
                    assert(pair_views(r@) =~= before.push((version@, travis.env@[j as int]@)));
                    assert(es.take(j + 1) =~= es.take(j as int).push(travis.env@[j as int]@));
                    assert(pair_views(r@) =~= base + es.take(j + 1).map_values(|e: Seq<char>| (version@, e)));
                }
                j = j + 1;
            }
            proof {
                assert(es.take(es.len() as int) =~= es);
            }
        } else {
            proof {
                assert(pair_views(r@) =~= base + Seq::<(Seq<char>, Seq<char>)>::empty());
            }
        }
        i = i + 1;
    }
    proof {
        assert(vs.take(vs.len() as int) =~= vs);
    }
    r
}

} // verus!
