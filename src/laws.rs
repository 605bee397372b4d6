//! Properties of the translation that relate several of its parts.

use vstd::prelude::*;
use crate::buildkite::{
    soft_fail_for, step_for, steps_for_versions, translate, version_steps, AgentSeed, StepView,
};
use crate::error::ErrorView;
use crate::exclusion::{allow_failures_name, allows_failure, any_case_matches, case_matches};
use crate::key_value::{decode_words, is_separator_at, split_all, split_once, views};
use crate::string_map::{
    has_key, insert_all, insert_entry, keys_unique, lemma_insert_all_unique, lookup, Entries,
};
use crate::travis::rust::image_for_version;
use crate::travis::{Case, Travis};

verus! {

/// The steps of versions that all have an image: one per combination, the
/// combination of the `i`-th version with the `j`-th environment string at
/// position `i * n + j`.
proof fn lemma_steps_row_major(t: Travis, seed: AgentSeed, rules: Entries, vs: Seq<Seq<char>>)
    requires
        forall|i: int| 0 <= i < vs.len() ==> image_for_version(#[trigger] vs[i]) is Some,
    ensures
        steps_for_versions(t, seed, rules, vs).len() == vs.len() * t.env@.len(),
        forall|i: int, j: int|
            0 <= i < vs.len() && 0 <= j < t.env@.len() ==> #[trigger] steps_for_versions(
                t,
                seed,
                rules,
                vs,
            )[i * t.env@.len() + j] == step_for(
                t,
                seed,
                rules,
                vs[i],
                image_for_version(vs[i])->0,
                t.env@[j]@,
            ),
    decreases vs.len(),
{
    let n = t.env@.len() as int;
    if vs.len() > 0 {
        let m = vs.len() as int;
        let prefix = vs.drop_last();
        assert forall|i: int| 0 <= i < prefix.len() implies image_for_version(
            #[trigger] prefix[i],
        ) is Some by {
            assert(prefix[i] == vs[i]);
        }
        lemma_steps_row_major(t, seed, rules, prefix);
        let head = steps_for_versions(t, seed, rules, prefix);
        let tail = version_steps(t, seed, rules, vs.last());
        let all = steps_for_versions(t, seed, rules, vs);
        assert(all == head + tail);
        assert(tail.len() == n);
        assert((m - 1) * n + n == m * n) by (nonlinear_arith);
        assert forall|i: int, j: int| 0 <= i < m && 0 <= j < n implies #[trigger] all[i * n + j]
            == step_for(t, seed, rules, vs[i], image_for_version(vs[i])->0, t.env@[j]@) by {
            if i < m - 1 {
                assert(i * n + j < (m - 1) * n) by (nonlinear_arith)
                    requires
                        0 <= i < m - 1,
                        0 <= j < n,
                ;
                assert(0 <= i * n) by (nonlinear_arith)
                    requires
                        0 <= i,
                        0 <= n,
                ;
                assert(all[i * n + j] == head[i * n + j]);
                assert(prefix[i] == vs[i]);
            } else {
                assert(i * n + j == (m - 1) * n + j);
                assert(all[i * n + j] == tail[j]);
            }
        }
    }
}

/// When every version has an image, a successful translation has exactly
/// one step per combination of version and environment string, in
/// row-major order: the step of the `i`-th version with the `j`-th
/// environment string stands at position `i * n + j`, where `n` is the
/// number of environment strings.
pub proof fn law_matrix_row_major(t: Travis, seed: AgentSeed, rules: Seq<Seq<char>>)
    requires
        forall|i: int| 0 <= i < t.rust@.len() ==> image_for_version(#[trigger] t.rust@[i]@) is Some,
        translate(t, seed, rules) is Ok,
    ensures
        ({
            let steps = translate(t, seed, rules)->Ok_0;
            let pairs = split_all(rules)->Ok_0;
            &&& steps.len() == t.rust@.len() * t.env@.len()
            &&& forall|i: int, j: int|
                0 <= i < t.rust@.len() && 0 <= j < t.env@.len() ==> #[trigger] steps[i * t.env@.len()
                    + j] == step_for(
                    t,
                    seed,
                    pairs,
                    t.rust@[i]@,
                    image_for_version(t.rust@[i]@)->0,
                    t.env@[j]@,
                )
        }),
{
    let vs = views(t.rust@);
    assert forall|i: int| 0 <= i < vs.len() implies image_for_version(#[trigger] vs[i]) is Some by {
        assert(vs[i] == t.rust@[i]@);
    }
    lemma_steps_row_major(t, seed, split_all(rules)->Ok_0, vs);
}

/// Writes each entry as `KEY=VALUE`.
pub open spec fn encode_entries(m: Entries) -> Seq<Seq<char>> {
    m.map_values(|kv: (Seq<char>, Seq<char>)| kv.0 + seq!['='] + kv.1)
}

/// A key without `=` followed by `=` and a value splits back into that key
/// and value.
proof fn lemma_split_encoded(k: Seq<char>, v: Seq<char>)
    requires
        !k.contains('='),
    ensures
        split_once(k + seq!['='] + v) == Some((k, v)),
{
    let w = k + seq!['='] + v;
    let i = k.len() as int;
    assert(w[i] == '=');
    assert forall|j: int| 0 <= j < i implies w[j] != '=' by {
        assert(w[j] == k[j]);
    }
    assert(is_separator_at(w, i));
    let c = choose|c: int| is_separator_at(w, c);
    assert(c == i);
    assert(w.subrange(0, i) =~= k);
    assert(w.subrange(i + 1, w.len() as int) =~= v);
}

proof fn lemma_split_all_encoded(m: Entries)
    requires
        forall|i: int| 0 <= i < m.len() ==> !(#[trigger] m[i]).0.contains('='),
    ensures
        split_all(encode_entries(m)) == Ok::<Entries, Seq<char>>(m),
    decreases m.len(),
{
    if m.len() > 0 {
        let ws = encode_entries(m);
        assert(ws.drop_last() =~= encode_entries(m.drop_last()));
        assert forall|i: int| 0 <= i < m.drop_last().len() implies !(
        #[trigger] m.drop_last()[i]).0.contains('=') by {
            assert(m.drop_last()[i] == m[i]);
        }
        lemma_split_all_encoded(m.drop_last());
        assert(m[m.len() - 1] == m.last());
        lemma_split_encoded(m.last().0, m.last().1);
        assert(ws.last() == m.last().0 + seq!['='] + m.last().1);
        assert(m.drop_last().push(m.last()) =~= m);
    } else {
        assert(m =~= Seq::<(Seq<char>, Seq<char>)>::empty());
        assert(encode_entries(m).len() == 0);
    }
}

/// Entries whose keys are distinct are rebuilt as they are by inserting
/// them in order.
proof fn lemma_insert_all_distinct(m: Entries)
    requires
        keys_unique(m),
    ensures
        insert_all(Seq::empty(), m) == m,
    decreases m.len(),
{
    if m.len() > 0 {
        let prefix = m.drop_last();
        assert(keys_unique(prefix));
        lemma_insert_all_distinct(prefix);
        assert(!has_key(prefix, m.last().0)) by {
            if has_key(prefix, m.last().0) {
                let i = choose|i: int| 0 <= i < prefix.len() && prefix[i].0 == m.last().0;
                assert(m[i].0 == m[m.len() - 1].0);
            }
        }
        assert(prefix.push((m.last().0, m.last().1)) =~= m);
    }
}

/// Decoding the `KEY=VALUE` words of a mapping gives back the mapping, where
/// its keys are distinct and hold no `=`.
pub proof fn law_decode_encode(m: Entries)
    requires
        keys_unique(m),
        forall|i: int| 0 <= i < m.len() ==> !(#[trigger] m[i]).0.contains('='),
    ensures
        decode_words(encode_entries(m)) == Ok::<Entries, Seq<char>>(m),
{
    lemma_split_all_encoded(m);
    lemma_insert_all_distinct(m);
}

/// Adding a case to an exclusion list can only make the combinations that
/// the new case matches allowed failures; every other combination keeps
/// its status.
pub proof fn law_exclusion_monotonic(cases: Seq<Case>, extra: Case, v: Seq<char>, e: Seq<char>)
    ensures
        any_case_matches(cases.push(extra), v, e) == (any_case_matches(cases, v, e) || case_matches(
            extra,
            v,
            e,
        )),
        !case_matches(extra, v, e) ==> any_case_matches(cases.push(extra), v, e) == any_case_matches(
            cases,
            v,
            e,
        ),
{
    let grown = cases.push(extra);
    if any_case_matches(cases, v, e) {
        let i = choose|i: int| 0 <= i < cases.len() && case_matches(#[trigger] cases[i], v, e);
        assert(grown[i] == cases[i]);
    }
    if case_matches(extra, v, e) {
        assert(grown[cases.len() as int] == extra);
    }
    if any_case_matches(grown, v, e) {
        let i = choose|i: int| 0 <= i < grown.len() && case_matches(#[trigger] grown[i], v, e);
        if i < cases.len() {
            assert(grown[i] == cases[i]);
        }
    }
}

/// Adding a case to the `allow_failures` list of a matrix can only turn
/// the combinations that the new case matches into allowed failures; every
/// other combination keeps its status.
pub proof fn law_allowed_failures_monotonic(
    before: Vec<(String, Vec<Case>)>,
    after: Vec<(String, Vec<Case>)>,
    k: int,
    extra: Case,
    v: Seq<char>,
    e: Seq<char>,
)
    requires
        before@.len() == after@.len(),
        0 <= k < before@.len(),
        before@[k].0@ == allow_failures_name(),
        after@[k].0@ == allow_failures_name(),
        after@[k].1@ == before@[k].1@.push(extra),
        forall|i: int| 0 <= i < before@.len() && i != k ==> after@[i] == before@[i],
    ensures
        allows_failure(Some(after), v, e) == (allows_failure(Some(before), v, e) || case_matches(
            extra,
            v,
            e,
        )),
{
    law_exclusion_monotonic(before@[k].1@, extra, v, e);
    if allows_failure(Some(before), v, e) {
        let i = choose|i: int|
            0 <= i < before@.len() && (#[trigger] before@[i]).0@ == allow_failures_name()
                && any_case_matches(before@[i].1@, v, e);
        if i != k {
            assert(after@[i] == before@[i]);
        }
    }
    if case_matches(extra, v, e) {
        assert(any_case_matches(after@[k].1@, v, e));
    }
    if allows_failure(Some(after), v, e) {
        let i = choose|i: int|
            0 <= i < after@.len() && (#[trigger] after@[i]).0@ == allow_failures_name()
                && any_case_matches(after@[i].1@, v, e);
        if i != k {
            assert(after@[i] == before@[i]);
        }
    }
}

/// The value of the last pair with key `k`, if any.
pub open spec fn last_value(pairs: Entries, k: Seq<char>) -> Option<Seq<char>>
    decreases pairs.len(),
{
    if pairs.len() == 0 {
        None
    } else if pairs.last().0 == k {
        Some(pairs.last().1)
    } else {
        last_value(pairs.drop_last(), k)
    }
}

proof fn lemma_lookup_insert_entry(e: Entries, k: Seq<char>, v: Seq<char>, q: Seq<char>)
    requires
        keys_unique(e),
    ensures
        lookup(insert_entry(e, k, v), q) == if q == k {
            Some(v)
        } else {
            lookup(e, q)
        },
{
    let r = insert_entry(e, k, v);
    crate::string_map::lemma_insert_entry_unique(e, k, v);
    if has_key(e, k) {
        let i = choose|i: int| 0 <= i < e.len() && e[i].0 == k;
        assert(r == e.update(i, (k, v)));
    } else {
        assert(r == e.push((k, v)));
        assert(r[e.len() as int] == (k, v));
    }
    if has_key(r, q) {
        let c = choose|c: int| 0 <= c < r.len() && r[c].0 == q;
        if q != k {
            assert(e[c] == r[c]);
            assert(has_key(e, q));
            let d = choose|d: int| 0 <= d < e.len() && e[d].0 == q;
            assert(r[d] == e[d]);
        }
    } else {
        if q != k && has_key(e, q) {
            let d = choose|d: int| 0 <= d < e.len() && e[d].0 == q;
            assert(r[d] == e[d]);
        }
    }
}

/// Writing override pairs over seeded entries is right-biased: a key that
/// some override names takes the value of its last override, and every
/// other key keeps its seeded value.
pub proof fn law_overrides_win(seeded: Entries, overrides: Entries, k: Seq<char>)
    requires
        keys_unique(seeded),
    ensures
        lookup(insert_all(seeded, overrides), k) == match last_value(overrides, k) {
            Some(v) => Some(v),
            None => lookup(seeded, k),
        },
    decreases overrides.len(),
{
    if overrides.len() > 0 {
        law_overrides_win(seeded, overrides.drop_last(), k);
        crate::string_map::lemma_insert_all_unique(seeded, overrides.drop_last());
        lemma_lookup_insert_entry(
            insert_all(seeded, overrides.drop_last()),
            overrides.last().0,
            overrides.last().1,
            k,
        );
    }
}

/// Step `a` of one translation and step `b` of another are built from the
/// same combination of a version that has an image with an environment
/// string.
pub open spec fn same_combination(
    t1: Travis,
    r1: Entries,
    t2: Travis,
    r2: Entries,
    seed: AgentSeed,
    a: StepView,
    b: StepView,
) -> bool {
    exists|v: Seq<char>, e: Seq<char>|
        image_for_version(v) is Some && a == #[trigger] step_for(
            t1,
            seed,
            r1,
            v,
            image_for_version(v)->0,
            e,
        ) && b == step_for(t2, seed, r2, v, image_for_version(v)->0, e)
}

/// Two configurations with the same environment strings expand the same
/// versions into steps of the same combinations, position by position.
proof fn lemma_steps_pointwise(
    t1: Travis,
    r1: Entries,
    t2: Travis,
    r2: Entries,
    seed: AgentSeed,
    vs: Seq<Seq<char>>,
)
    requires
        views(t1.env@) == views(t2.env@),
    ensures
        steps_for_versions(t1, seed, r1, vs).len() == steps_for_versions(t2, seed, r2, vs).len(),
        forall|i: int|
            0 <= i < steps_for_versions(t1, seed, r1, vs).len() ==> same_combination(
                t1,
                r1,
                t2,
                r2,
                seed,
                #[trigger] steps_for_versions(t1, seed, r1, vs)[i],
                steps_for_versions(t2, seed, r2, vs)[i],
            ),
    decreases vs.len(),
{
    if vs.len() > 0 {
        let prefix = vs.drop_last();
        lemma_steps_pointwise(t1, r1, t2, r2, seed, prefix);
        let v = vs.last();
        let h1 = steps_for_versions(t1, seed, r1, prefix);
        let h2 = steps_for_versions(t2, seed, r2, prefix);
        let tl1 = version_steps(t1, seed, r1, v);
        let tl2 = version_steps(t2, seed, r2, v);
        let s1 = steps_for_versions(t1, seed, r1, vs);
        let s2 = steps_for_versions(t2, seed, r2, vs);
        assert(s1 == h1 + tl1);
        assert(s2 == h2 + tl2);
        assert(tl1.len() == tl2.len());
        assert forall|i: int| 0 <= i < s1.len() implies same_combination(
            t1,
            r1,
            t2,
            r2,
            seed,
            #[trigger] s1[i],
            s2[i],
        ) by {
            if i < h1.len() {
                assert(s1[i] == h1[i]);
                assert(s2[i] == h2[i]);
            } else {
                let j = i - h1.len();
                let e = views(t1.env@)[j];
                assert(views(t2.env@)[j] == e);
                assert(s1[i] == tl1[j]);
                assert(s2[i] == tl2[j]);
                assert(s1[i] == step_for(t1, seed, r1, v, image_for_version(v)->0, e));
                assert(s2[i] == step_for(t2, seed, r2, v, image_for_version(v)->0, e));
            }
        }
    }
}

/// `s` with its tolerated failures replaced by `f`.
pub open spec fn with_soft_fail(s: StepView, f: Seq<Entries>) -> StepView {
    StepView { commands: s.commands, label: s.label, agents: s.agents, env: s.env, soft_fail: f }
}

/// Step `b` is step `a`, built from a combination of `t`, except that it
/// also tolerates failure where `extra` matches that combination.
pub open spec fn failure_only_added(
    t: Travis,
    extra: Case,
    seed: AgentSeed,
    pairs: Entries,
    a: StepView,
    b: StepView,
) -> bool {
    exists|v: Seq<char>, e: Seq<char>|
        image_for_version(v) is Some && a == #[trigger] step_for(
            t,
            seed,
            pairs,
            v,
            image_for_version(v)->0,
            e,
        ) && b == with_soft_fail(
            a,
            soft_fail_for(allows_failure(t.matrix, v, e) || case_matches(extra, v, e)),
        )
}

/// Two configurations that differ only in allowed failures, the second
/// allowing also what `extra` matches, translate alike but for that.
proof fn lemma_translation_monotonic(
    t1: Travis,
    t2: Travis,
    extra: Case,
    seed: AgentSeed,
    rules: Seq<Seq<char>>,
)
    requires
        t2.rust == t1.rust,
        t2.env == t1.env,
        t2.script == t1.script,
        forall|v: Seq<char>, e: Seq<char>|
            #[trigger] allows_failure(t2.matrix, v, e) == (allows_failure(t1.matrix, v, e)
                || case_matches(extra, v, e)),
    ensures
        translate(t1, seed, rules) is Err ==> translate(t2, seed, rules) == translate(t1, seed, rules),
        translate(t1, seed, rules) is Ok ==> ({
            let s1 = translate(t1, seed, rules)->Ok_0;
            let s2 = translate(t2, seed, rules)->Ok_0;
            &&& translate(t2, seed, rules) is Ok
            &&& s2.len() == s1.len()
            &&& forall|i: int|
                0 <= i < s1.len() ==> failure_only_added(
                    t1,
                    extra,
                    seed,
                    split_all(rules)->Ok_0,
                    #[trigger] s1[i],
                    s2[i],
                )
        }),
{
    if translate(t1, seed, rules) is Ok {
        let pairs = split_all(rules)->Ok_0;
        let vs = views(t1.rust@);
        assert(views(t2.rust@) == vs);
        lemma_steps_pointwise(t1, pairs, t2, pairs, seed, vs);
        let s1 = translate(t1, seed, rules)->Ok_0;
        let s2 = translate(t2, seed, rules)->Ok_0;
        assert forall|i: int| 0 <= i < s1.len() implies failure_only_added(
            t1,
            extra,
            seed,
            pairs,
            #[trigger] s1[i],
            s2[i],
        ) by {
            assert(same_combination(t1, pairs, t2, pairs, seed, s1[i], s2[i]));
            let (v, e) = choose|v: Seq<char>, e: Seq<char>|
                image_for_version(v) is Some && s1[i] == #[trigger] step_for(
                    t1,
                    seed,
                    pairs,
                    v,
                    image_for_version(v)->0,
                    e,
                ) && s2[i] == step_for(t2, seed, pairs, v, image_for_version(v)->0, e);
            assert(allows_failure(t2.matrix, v, e) == (allows_failure(t1.matrix, v, e)
                || case_matches(extra, v, e)));
            assert(s2[i] == with_soft_fail(
                s1[i],
                soft_fail_for(allows_failure(t1.matrix, v, e) || case_matches(extra, v, e)),
            ));
        }
    }
}

/// Appending a case to the `allow_failures` list of a configuration's
/// matrix changes its translation only in the steps whose combination the
/// new case matches, and there only from not tolerating failure to
/// tolerating it.
pub proof fn law_translation_failures_monotonic(
    t1: Travis,
    t2: Travis,
    before: Vec<(String, Vec<Case>)>,
    after: Vec<(String, Vec<Case>)>,
    k: int,
    extra: Case,
    seed: AgentSeed,
    rules: Seq<Seq<char>>,
)
    requires
        t2.rust == t1.rust,
        t2.env == t1.env,
        t2.script == t1.script,
        t1.matrix == Some(before),
        t2.matrix == Some(after),
        before@.len() == after@.len(),
        0 <= k < before@.len(),
        before@[k].0@ == allow_failures_name(),
        after@[k].0@ == allow_failures_name(),
        after@[k].1@ == before@[k].1@.push(extra),
        forall|i: int| 0 <= i < before@.len() && i != k ==> after@[i] == before@[i],
    ensures
        translate(t1, seed, rules) is Err ==> translate(t2, seed, rules) == translate(t1, seed, rules),
        translate(t1, seed, rules) is Ok ==> ({
            let s1 = translate(t1, seed, rules)->Ok_0;
            let s2 = translate(t2, seed, rules)->Ok_0;
            &&& translate(t2, seed, rules) is Ok
            &&& s2.len() == s1.len()
            &&& forall|i: int|
                0 <= i < s1.len() ==> failure_only_added(
                    t1,
                    extra,
                    seed,
                    split_all(rules)->Ok_0,
                    #[trigger] s1[i],
                    s2[i],
                )
        }),
{
    assert forall|v: Seq<char>, e: Seq<char>|
        #[trigger] allows_failure(t2.matrix, v, e) == (allows_failure(t1.matrix, v, e)
            || case_matches(extra, v, e)) by {
        law_allowed_failures_monotonic(before, after, k, extra, v, e);
    }
    lemma_translation_monotonic(t1, t2, extra, seed, rules);
}

/// Giving a configuration an `allow_failures` category that holds only
/// `extra`, where the matrix had none or had other categories only, changes
/// its translation only in the steps whose combination `extra` matches,
/// and there only from not tolerating failure to tolerating it.
pub proof fn law_new_allow_failures_monotonic(
    t1: Travis,
    t2: Travis,
    after: Vec<(String, Vec<Case>)>,
    extra: Case,
    seed: AgentSeed,
    rules: Seq<Seq<char>>,
)
    requires
        t2.rust == t1.rust,
        t2.env == t1.env,
        t2.script == t1.script,
        t2.matrix == Some(after),
        after@.len() > 0,
        after@.last().0@ == allow_failures_name(),
        after@.last().1@ == seq![extra],
        match t1.matrix {
            None => after@.len() == 1,
            Some(before) => after@.drop_last() == before@,
        },
    ensures
        translate(t1, seed, rules) is Err ==> translate(t2, seed, rules) == translate(t1, seed, rules),
        translate(t1, seed, rules) is Ok ==> ({
            let s1 = translate(t1, seed, rules)->Ok_0;
            let s2 = translate(t2, seed, rules)->Ok_0;
            &&& translate(t2, seed, rules) is Ok
            &&& s2.len() == s1.len()
            &&& forall|i: int|
                0 <= i < s1.len() ==> failure_only_added(
                    t1,
                    extra,
                    seed,
                    split_all(rules)->Ok_0,
                    #[trigger] s1[i],
                    s2[i],
                )
        }),
{
    let last = after@.len() - 1;
    assert forall|v: Seq<char>, e: Seq<char>|
        #[trigger] allows_failure(t2.matrix, v, e) == (allows_failure(t1.matrix, v, e)
            || case_matches(extra, v, e)) by {
        let listed = after@[last].1@;
        assert(after@[last] == after@.last());
        if case_matches(extra, v, e) {
            assert(listed[0] == extra);
            assert(any_case_matches(listed, v, e));
        }
        if any_case_matches(listed, v, e) {
            let c = choose|c: int| 0 <= c < listed.len() && case_matches(#[trigger] listed[c], v, e);
            assert(listed[c] == extra);
        }
        match t1.matrix {
            None => {
                if allows_failure(t2.matrix, v, e) {
                    let i = choose|i: int|
                        0 <= i < after@.len() && (#[trigger] after@[i]).0@ == allow_failures_name()
                            && any_case_matches(after@[i].1@, v, e);
                    assert(i == last);
                }
            },
            Some(before) => {
                if allows_failure(t1.matrix, v, e) {
                    let i = choose|i: int|
                        0 <= i < before@.len() && (#[trigger] before@[i]).0@ == allow_failures_name()
                            && any_case_matches(before@[i].1@, v, e);
                    assert(after@[i] == after@.drop_last()[i]);
                }
                if allows_failure(t2.matrix, v, e) {
                    let i = choose|i: int|
                        0 <= i < after@.len() && (#[trigger] after@[i]).0@ == allow_failures_name()
                            && any_case_matches(after@[i].1@, v, e);
                    if i < last {
                        assert(after@[i] == before@[i]);
                    }
                }
            },
        }
    }
    lemma_translation_monotonic(t1, t2, extra, seed, rules);
}

/// The caller's agent rules are written over every step of the translation
/// without them, and nothing else changes: each step's agents are the
/// rule-less ones with the split rules inserted in order, so a key that a
/// rule names takes the value of its last rule and every other key keeps
/// its seeded value.
pub proof fn law_rules_override_every_step(t: Travis, seed: AgentSeed, rules: Seq<Seq<char>>, k: Seq<char>)
    requires
        translate(t, seed, rules) is Ok,
    ensures
        translate(t, seed, Seq::empty()) is Ok,
        ({
            let s = translate(t, seed, rules)->Ok_0;
            let s0 = translate(t, seed, Seq::empty())->Ok_0;
            let pairs = split_all(rules)->Ok_0;
            &&& s.len() == s0.len()
            &&& forall|i: int|
                0 <= i < s.len() ==> (#[trigger] s[i]).agents == insert_all(s0[i].agents, pairs)
                    && s[i].commands == s0[i].commands && s[i].label == s0[i].label && s[i].env
                    == s0[i].env && s[i].soft_fail == s0[i].soft_fail
            &&& forall|i: int|
                0 <= i < s.len() ==> lookup((#[trigger] s[i]).agents, k) == match last_value(pairs, k) {
                    Some(v) => Some(v),
                    None => lookup(s0[i].agents, k),
                }
        }),
{
    let empty = Seq::<Seq<char>>::empty();
    let none = Seq::<(Seq<char>, Seq<char>)>::empty();
    assert(split_all(empty) == Ok::<Entries, Seq<char>>(none));
    let pairs = split_all(rules)->Ok_0;
    let vs = views(t.rust@);
    lemma_steps_pointwise(t, pairs, t, none, seed, vs);
    let s = translate(t, seed, rules)->Ok_0;
    let s0 = translate(t, seed, empty)->Ok_0;
    assert forall|i: int| 0 <= i < s.len() implies (#[trigger] s[i]).agents == insert_all(
        s0[i].agents,
        pairs,
    ) && s[i].commands == s0[i].commands && s[i].label == s0[i].label && s[i].env == s0[i].env
        && s[i].soft_fail == s0[i].soft_fail && lookup(s[i].agents, k) == match last_value(pairs, k) {
        Some(v) => Some(v),
        None => lookup(s0[i].agents, k),
    } by {
        assert(same_combination(t, pairs, t, none, seed, s[i], s0[i]));
        let (v, e) = choose|v: Seq<char>, e: Seq<char>|
            image_for_version(v) is Some && s[i] == #[trigger] step_for(
                t,
                seed,
                pairs,
                v,
                image_for_version(v)->0,
                e,
            ) && s0[i] == step_for(t, seed, none, v, image_for_version(v)->0, e);
        let seeded = insert_all(none, crate::buildkite::seed_pairs(seed, v, image_for_version(v)->0));
        assert(insert_all(seeded, none) == seeded);
        assert(s0[i].agents == seeded);
        assert(keys_unique(none));
        lemma_insert_all_unique(none, crate::buildkite::seed_pairs(seed, v, image_for_version(v)->0));
        law_overrides_win(seeded, pairs, k);
    }
}

} // verus!
