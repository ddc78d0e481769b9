//! Environment classifier and output projector: builds exactly one output
//! document from one (merged) application record, splitting its environments
//! into a non-production and a production block and deduplicating its API
//! references by (name, version) pair.

use vstd::prelude::*;

use crate::model::{
    AppView, DocView, EnvBlockView, SubView, XmlApplication, YamlApi, YamlApiSubscription,
    YamlApplication, YamlEnvironment, YamlEnvironmentName, YamlSubscription, non_prod_plane_url,
    prod_name, prod_plane_url, spec_non_prod_plane_url, spec_prod_plane_url,
};

verus! {

/// All environment entries of the subscriptions, flattened in document
/// order, duplicates kept.
pub open spec fn all_envs(subs: Seq<SubView>) -> Seq<Seq<char>>
    decreases subs.len(),
{
    if subs.len() == 0 {
        Seq::empty()
    } else {
        all_envs(subs.drop_last()) + subs.last().env
    }
}

/// The entries of `envs` that are not the production environment, in order,
/// duplicates kept.
pub open spec fn keep_non_prod(envs: Seq<Seq<char>>) -> Seq<Seq<char>>
    decreases envs.len(),
{
    if envs.len() == 0 {
        Seq::empty()
    } else if envs.last() == prod_name() {
        keep_non_prod(envs.drop_last())
    } else {
        keep_non_prod(envs.drop_last()).push(envs.last())
    }
}

/// `s` with every repeated element removed, keeping the first occurrence of
/// each, in first-occurrence order.
pub open spec fn dedup<A>(s: Seq<A>) -> Seq<A>
    decreases s.len(),
{
    if s.len() == 0 {
        Seq::empty()
    } else if dedup(s.drop_last()).contains(s.last()) {
        dedup(s.drop_last())
    } else {
        dedup(s.drop_last()).push(s.last())
    }
}

/// The distinct non-production environment names of an application, in
/// first-occurrence order.
pub open spec fn non_prod_env_list(subs: Seq<SubView>) -> Seq<Seq<char>> {
    dedup(keep_non_prod(all_envs(subs)))
}

/// Whether any subscription lists the production environment.
pub open spec fn has_prod(subs: Seq<SubView>) -> bool {
    all_envs(subs).contains(prod_name())
}

/// The (apiName, apiVersion) pair of each subscription, in document order,
/// duplicates kept.
pub open spec fn sub_pairs(subs: Seq<SubView>) -> Seq<(Seq<char>, Seq<char>)>
    decreases subs.len(),
{
    if subs.len() == 0 {
        Seq::empty()
    } else {
        sub_pairs(subs.drop_last()).push((subs.last().api_name, subs.last().api_version))
    }
}

/// The distinct (apiName, apiVersion) pairs of an application, in
/// first-occurrence order.
pub open spec fn api_list(subs: Seq<SubView>) -> Seq<(Seq<char>, Seq<char>)> {
    dedup(sub_pairs(subs))
}

/// The environment blocks of the output document: the non-production block
/// (present iff some non-production environment occurs) followed by the
/// production block (present iff the production environment occurs).
pub open spec fn env_blocks(subs: Seq<SubView>) -> Seq<EnvBlockView> {
    let np = EnvBlockView {
        control_plane_url: spec_non_prod_plane_url(),
        environments: non_prod_env_list(subs),
    };
    let p = EnvBlockView {
        control_plane_url: spec_prod_plane_url(),
        environments: seq![prod_name()],
    };
    if non_prod_env_list(subs).len() > 0 && has_prod(subs) {
        seq![np, p]
    } else if non_prod_env_list(subs).len() > 0 {
        seq![np]
    } else if has_prod(subs) {
        seq![p]
    } else {
        Seq::empty()
    }
}

/// The output document owed for one (merged) application record.
pub open spec fn project_view(app: AppView) -> DocView {
    DocView {
        environments: env_blocks(app.subs),
        name: app.name,
        description: app.name + "-subscription"@,
        apis: api_list(app.subs),
    }
}

/// Membership in a pushed sequence: the pushed element, or a member of the
/// original.
pub proof fn lemma_push_contains<A>(s: Seq<A>, y: A, x: A)
    ensures
        s.push(y).contains(x) == (s.contains(x) || x == y),
{
    if s.contains(x) {
        let w = choose|w: int| 0 <= w < s.len() && s[w] == x;
        assert(s.push(y)[w] == x);
    }
    if x == y {
        assert(s.push(y)[s.len() as int] == x);
    }
    if s.push(y).contains(x) {
        let w = choose|w: int| 0 <= w < s.push(y).len() && s.push(y)[w] == x;
        if w < s.len() {
            assert(s[w] == x);
        }
    }
}

/// Deduplication keeps membership and removes every duplicate.
pub proof fn lemma_dedup_props<A>(s: Seq<A>)
    ensures
        dedup(s).no_duplicates(),
        forall|x: A| dedup(s).contains(x) == s.contains(x),
    decreases s.len(),
{
    if s.len() == 0 {
        assert forall|x: A| dedup(s).contains(x) == s.contains(x) by {}
    } else {
        let pre = s.drop_last();
        lemma_dedup_props(pre);
        assert(s =~= pre.push(s.last()));
        assert forall|x: A| dedup(s).contains(x) == s.contains(x) by {
            lemma_push_contains(pre, s.last(), x);
            if !dedup(pre).contains(s.last()) {
                lemma_push_contains(dedup(pre), s.last(), x);
            }
        }
        if !dedup(pre).contains(s.last()) {
            assert(dedup(s) =~= dedup(pre).push(s.last()));
            assert forall|i: int, j: int|
                0 <= i < dedup(s).len() && 0 <= j < dedup(s).len() && i != j implies dedup(s)[i]
                != dedup(s)[j] by {
                if i < dedup(pre).len() && j < dedup(pre).len() {
                } else if i == dedup(pre).len() {
                    assert(dedup(pre)[j] == dedup(s)[j]);
                    if dedup(s)[i] == dedup(s)[j] {
                        assert(dedup(pre).contains(s.last()));
                    }
                } else {
                    assert(dedup(pre)[i] == dedup(s)[i]);
                    if dedup(s)[i] == dedup(s)[j] {
                        assert(dedup(pre).contains(s.last()));
                    }
                }
            }
        }
    }
}

/// Membership in a concatenation: a member of either part.
pub proof fn lemma_concat_contains<A>(s: Seq<A>, t: Seq<A>, x: A)
    ensures
        (s + t).contains(x) == (s.contains(x) || t.contains(x)),
{
    if s.contains(x) {
        let w = choose|w: int| 0 <= w < s.len() && s[w] == x;
        assert((s + t)[w] == x);
    }
    if t.contains(x) {
        let w = choose|w: int| 0 <= w < t.len() && t[w] == x;
        assert((s + t)[s.len() + w] == x);
    }
    if (s + t).contains(x) {
        let w = choose|w: int| 0 <= w < (s + t).len() && (s + t)[w] == x;
        if w < s.len() {
            assert(s[w] == x);
        } else {
            assert(t[w - s.len()] == x);
        }
    }
}

/// The flattened environment entries are exactly the entries of the
/// individual subscriptions.
pub proof fn lemma_all_envs_contains(subs: Seq<SubView>, x: Seq<char>)
    ensures
        all_envs(subs).contains(x) == exists|i: int|
            0 <= i < subs.len() && #[trigger] subs[i].env.contains(x),
    decreases subs.len(),
{
    if subs.len() == 0 {
    } else {
        let pre = subs.drop_last();
        lemma_all_envs_contains(pre, x);
        lemma_concat_contains(all_envs(pre), subs.last().env, x);
        if exists|i: int| 0 <= i < pre.len() && #[trigger] pre[i].env.contains(x) {
            let i = choose|i: int| 0 <= i < pre.len() && #[trigger] pre[i].env.contains(x);
            assert(subs[i].env.contains(x));
        }
        if subs.last().env.contains(x) {
            assert(subs[subs.len() - 1].env.contains(x));
        }
        if exists|i: int| 0 <= i < subs.len() && #[trigger] subs[i].env.contains(x) {
            let i = choose|i: int| 0 <= i < subs.len() && #[trigger] subs[i].env.contains(x);
            if i < pre.len() {
                assert(pre[i].env.contains(x));
            }
        }
    }
}

/// The non-production entries are exactly the entries other than the
/// production name.
pub proof fn lemma_keep_non_prod_contains(envs: Seq<Seq<char>>, x: Seq<char>)
    ensures
        keep_non_prod(envs).contains(x) == (envs.contains(x) && x != prod_name()),
    decreases envs.len(),
{
    if envs.len() == 0 {
    } else {
        let pre = envs.drop_last();
        lemma_keep_non_prod_contains(pre, x);
        assert(envs =~= pre.push(envs.last()));
        lemma_push_contains(pre, envs.last(), x);
        if envs.last() != prod_name() {
            lemma_push_contains(keep_non_prod(pre), envs.last(), x);
        }
    }
}

/// The subscriptions' pairs are exactly the (apiName, apiVersion) pairs of
/// the individual subscriptions.
pub proof fn lemma_sub_pairs_contains(subs: Seq<SubView>, p: (Seq<char>, Seq<char>))
    ensures
        sub_pairs(subs).contains(p) == exists|i: int|
            0 <= i < subs.len() && (#[trigger] subs[i].api_name, subs[i].api_version) == p,
    decreases subs.len(),
{
    if subs.len() == 0 {
    } else {
        let pre = subs.drop_last();
        lemma_sub_pairs_contains(pre, p);
        lemma_push_contains(sub_pairs(pre), (subs.last().api_name, subs.last().api_version), p);
        if exists|i: int| 0 <= i < pre.len() && (#[trigger] pre[i].api_name, pre[i].api_version)
            == p {
            let i = choose|i: int|
                0 <= i < pre.len() && (#[trigger] pre[i].api_name, pre[i].api_version) == p;
            assert((subs[i].api_name, subs[i].api_version) == p);
        }
        if (subs.last().api_name, subs.last().api_version) == p {
            assert((subs[subs.len() - 1].api_name, subs[subs.len() - 1].api_version) == p);
        }
        if exists|i: int| 0 <= i < subs.len() && (#[trigger] subs[i].api_name, subs[i].api_version)
            == p {
            let i = choose|i: int|
                0 <= i < subs.len() && (#[trigger] subs[i].api_name, subs[i].api_version) == p;
            if i < pre.len() {
                assert((pre[i].api_name, pre[i].api_version) == p);
            }
        }
    }
}

/// For an application that lists the production environment and at least
/// one other environment, the output holds exactly two environment blocks:
/// the non-production block first, each with its fixed control-plane URL,
/// the non-production block carrying every distinct environment name other
/// than the production name exactly once, and the production block carrying
/// the production name alone.
pub proof fn lemma_environment_split(app: AppView)
    requires
        has_prod(app.subs),
        exists|i: int, j: int|
            0 <= i < app.subs.len() && 0 <= j < app.subs[i].env.len()
                && #[trigger] app.subs[i].env[j] != prod_name(),
    ensures
        project_view(app).environments.len() == 2,
        project_view(app).environments[0].control_plane_url == spec_non_prod_plane_url(),
        project_view(app).environments[1].control_plane_url == spec_prod_plane_url(),
        project_view(app).environments[0].environments.no_duplicates(),
        forall|e: Seq<char>|
            project_view(app).environments[0].environments.contains(e) == (e != prod_name()
                && exists|i: int| 0 <= i < app.subs.len() && #[trigger] app.subs[i].env.contains(
                e,
            )),
        project_view(app).environments[1].environments == seq![prod_name()],
{
    let envs = all_envs(app.subs);
    lemma_dedup_props(keep_non_prod(envs));
    let (i, j) = choose|i: int, j: int|
        0 <= i < app.subs.len() && 0 <= j < app.subs[i].env.len() && #[trigger] app.subs[i].env[j]
            != prod_name();
    let e0 = app.subs[i].env[j];
    assert(app.subs[i].env.contains(e0));
    lemma_all_envs_contains(app.subs, e0);
    lemma_keep_non_prod_contains(envs, e0);
    assert(non_prod_env_list(app.subs).contains(e0));
    assert(non_prod_env_list(app.subs).len() > 0);
    assert forall|e: Seq<char>|
        project_view(app).environments[0].environments.contains(e) == (e != prod_name() && exists|
            i: int,
        | 0 <= i < app.subs.len() && #[trigger] app.subs[i].env.contains(e)) by {
        lemma_keep_non_prod_contains(envs, e);
        lemma_all_envs_contains(app.subs, e);
    }
}

/// The output's API references hold each distinct (apiName, apiVersion)
/// pair of the application's subscriptions exactly once, however many
/// subscription entries named that pair.
pub proof fn lemma_apis_dedup(app: AppView)
    ensures
        project_view(app).apis.no_duplicates(),
        forall|p: (Seq<char>, Seq<char>)|
            project_view(app).apis.contains(p) == exists|i: int|
                0 <= i < app.subs.len() && (#[trigger] app.subs[i].api_name,
                app.subs[i].api_version) == p,
{
    lemma_dedup_props(sub_pairs(app.subs));
    assert forall|p: (Seq<char>, Seq<char>)|
        project_view(app).apis.contains(p) == exists|i: int|
            0 <= i < app.subs.len() && (#[trigger] app.subs[i].api_name, app.subs[i].api_version)
                == p by {
        lemma_sub_pairs_contains(app.subs, p);
    }
}

/// Projection is a function of the application record alone: projecting the
/// same record twice yields the same document.
pub proof fn lemma_projection_idempotent(a: AppView, b: AppView)
    requires
        a == b,
    ensures
        project_view(a) == project_view(b),
{
}

/// Whether a list of environment-name entries already holds `x`.
#[verifier::loop_isolation(false)]
fn contains_env_name(v: &Vec<YamlEnvironmentName>, x: &String) -> (r: bool)
    ensures
        r == v@.map_values(|n: YamlEnvironmentName| n.name@).contains(x@),
{
    let ghost names = v@.map_values(|n: YamlEnvironmentName| n.name@);
    let mut i: usize = 0;
    while i < v.len()
        invariant
            0 <= i <= v.len(),
            forall|k: int| 0 <= k < i ==> names[k] != x@,
        decreases v.len() - i,
    {
        if v[i].name == *x {
            proof {
                assert(names[i as int] == x@);
            }
            return true;
        }
        i = i + 1;
    }
    false
}

/// Whether a list of API references already holds the (name, version) pair.
#[verifier::loop_isolation(false)]
fn contains_api(v: &Vec<YamlApi>, name: &String, version: &String) -> (r: bool)
    ensures
        r == v@.map_values(|a: YamlApi| (a.name@, a.version@)).contains((name@, version@)),
{
    let ghost pairs = v@.map_values(|a: YamlApi| (a.name@, a.version@));
    let mut i: usize = 0;
    while i < v.len()
        invariant
            0 <= i <= v.len(),
            forall|k: int| 0 <= k < i ==> pairs[k] != (name@, version@),
        decreases v.len() - i,
    {
        if v[i].name == *name && v[i].version == *version {
            proof {
                assert(pairs[i as int] == (name@, version@));
            }
            return true;
        }
        i = i + 1;
    }
    false
}

/// Projects one (merged) application record into its output document, as
/// `project_view` describes.
#[verifier::loop_isolation(false)]
pub fn project_application(app: &XmlApplication) -> (r: YamlApiSubscription)
    ensures
        r@ == project_view(app@),
{
    proof {
        reveal_strlit("prod");
    }
    let prod_key: String = "prod".to_owned();
    let ghost subs = app@.subs;

    let mut non_prod: Vec<YamlEnvironmentName> = Vec::new();
    let mut saw_prod: bool = false;
    let mut apis: Vec<YamlApi> = Vec::new();
    proof {
        assert(subs.take(0) =~= Seq::<SubView>::empty());
        assert(non_prod@.map_values(|n: YamlEnvironmentName| n.name@) =~= Seq::<Seq<char>>::empty());
        assert(apis@.map_values(|a: YamlApi| (a.name@, a.version@)) =~= Seq::<
            (Seq<char>, Seq<char>),
        >::empty());
    }
    let mut i: usize = 0;
    while i < app.apis.len()
        invariant
            0 <= i <= app.apis.len(),
            subs == app@.subs,
            subs.len() == app.apis.len(),
            forall|k: int| 0 <= k < app.apis.len() ==> subs[k] == app.apis@[k]@,
            prod_key@ == prod_name(),
            non_prod@.map_values(|n: YamlEnvironmentName| n.name@) == non_prod_env_list(
                subs.take(i as int),
            ),
            saw_prod == has_prod(subs.take(i as int)),
            apis@.map_values(|a: YamlApi| (a.name@, a.version@)) == api_list(subs.take(i as int)),
        decreases app.apis.len() - i,
    {
        proof {
            assert(subs.take(i + 1).drop_last() =~= subs.take(i as int));
            assert(subs.take(i + 1).last() == subs[i as int]);
        }
        let sub = &app.apis[i];
        let ghost env_seq = subs[i as int].env;
        let ghost base = all_envs(subs.take(i as int));
        let mut j: usize = 0;
        proof {
            assert(base + env_seq.take(0) =~= base);
        }
        while j < sub.env.len()
            invariant
                0 <= j <= sub.env.len(),
                env_seq.len() == sub.env.len(),
                forall|k: int| 0 <= k < sub.env.len() ==> env_seq[k] == sub.env@[k]@,
                non_prod@.map_values(|n: YamlEnvironmentName| n.name@) == dedup(
                    keep_non_prod(base + env_seq.take(j as int)),
                ),
                saw_prod == (base + env_seq.take(j as int)).contains(prod_name()),
            decreases sub.env.len() - j,
        {
            let ghost cur = base + env_seq.take(j as int);
            proof {
                assert((base + env_seq.take(j + 1)) =~= cur.push(env_seq[j as int]));
                assert(cur.push(env_seq[j as int]).drop_last() =~= cur);
                lemma_push_contains(cur, env_seq[j as int], prod_name());
            }
            let e = &sub.env[j];
            if *e == prod_key {
                saw_prod = true;
            } else {
                proof {
                    assert(keep_non_prod(cur.push(env_seq[j as int])) == keep_non_prod(cur).push(
                        env_seq[j as int],
                    ));
                    assert(keep_non_prod(cur).push(env_seq[j as int]).drop_last()
                        =~= keep_non_prod(cur));
                }
                if !contains_env_name(&non_prod, e) {
                    let ghost prev = non_prod@;
                    non_prod.push(YamlEnvironmentName { name: e.clone() });
                    proof {
                        assert(non_prod@.map_values(|n: YamlEnvironmentName| n.name@) =~= prev
                            .map_values(|n: YamlEnvironmentName| n.name@).push(env_seq[j as int]));
                        lemma_dedup_props(keep_non_prod(cur));
                    }
                } else {
                    proof {
                        lemma_dedup_props(keep_non_prod(cur));
                    }
                }
            }
            j = j + 1;
        }
        proof {
            assert(env_seq.take(env_seq.len() as int) =~= env_seq);
            assert(all_envs(subs.take(i + 1)) == base + env_seq);
        }
        let ghost pairs_pre = sub_pairs(subs.take(i as int));
        proof {
            assert(sub_pairs(subs.take(i + 1)) == pairs_pre.push(
                (subs[i as int].api_name, subs[i as int].api_version),
            ));
            assert(pairs_pre.push((subs[i as int].api_name, subs[i as int].api_version)).drop_last()
                =~= pairs_pre);
            lemma_dedup_props(pairs_pre);
        }
        if !contains_api(&apis, &sub.api_name, &sub.api_version) {
            let ghost prev = apis@;
            apis.push(YamlApi { name: sub.api_name.clone(), version: sub.api_version.clone() });
            proof {
                assert(apis@.map_values(|a: YamlApi| (a.name@, a.version@)) =~= prev.map_values(
                    |a: YamlApi| (a.name@, a.version@),
                ).push((subs[i as int].api_name, subs[i as int].api_version)));
            }
        }
        i = i + 1;
    }
    proof {
        assert(subs.take(subs.len() as int) =~= subs);
    }

    let mut description: String = app.name.clone();
    description.append("-subscription");

    let mut environments: Vec<YamlEnvironment> = Vec::new();
    let has_non_prod = non_prod.len() > 0;
    if has_non_prod {
        environments.push(
            YamlEnvironment {
                control_plane_url: non_prod_plane_url().to_owned(),
                environments: non_prod,
            },
        );
    }
    if saw_prod {
        let mut prod_names: Vec<YamlEnvironmentName> = Vec::new();
        prod_names.push(YamlEnvironmentName { name: prod_key });
        proof {
            assert(prod_names@.map_values(|n: YamlEnvironmentName| n.name@) =~= seq![prod_name()]);
        }
        environments.push(
            YamlEnvironment {
                control_plane_url: prod_plane_url().to_owned(),
                environments: prod_names,
            },
        );
    }

    let r = YamlApiSubscription {
        environments,
        subscription: YamlSubscription {
            application: YamlApplication { name: app.name.clone(), description, apis },
        },
    };
    proof {
        assert(r@.environments =~= env_blocks(subs));
        assert(r@ =~~= project_view(app@));
    }
    r
}

} // verus!
