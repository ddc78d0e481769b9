//! Application merger: combines application records sharing a name into one
//! record per distinct name, in first-seen order, concatenating their
//! subscription lists and keeping the first record's token fields.

use vstd::prelude::*;

use crate::model::{AppView, XmlApplication, XmlSubscription, apps_view};
use crate::project::project_view;

verus! {

/// The index of the first group named `n`, or a negative value where none
/// is.
pub open spec fn find_name(gs: Seq<AppView>, n: Seq<char>) -> int
    decreases gs.len(),
{
    if gs.len() == 0 {
        -1
    } else if gs[0].name == n {
        0
    } else {
        let r = find_name(gs.drop_first(), n);
        if r < 0 {
            -1
        } else {
            r + 1
        }
    }
}

/// `find_name` finds the first group with the name, and fails exactly when
/// no group has it.
pub proof fn lemma_find_name_props(gs: Seq<AppView>, n: Seq<char>)
    ensures
        find_name(gs, n) < 0 ==> forall|k: int| 0 <= k < gs.len() ==> (#[trigger] gs[k]).name != n,
        find_name(gs, n) >= 0 ==> 0 <= find_name(gs, n) < gs.len() && gs[find_name(gs, n)].name
            == n && forall|k: int| 0 <= k < find_name(gs, n) ==> (#[trigger] gs[k]).name != n,
    decreases gs.len(),
{
    if gs.len() > 0 && gs[0].name != n {
        let tail = gs.drop_first();
        lemma_find_name_props(tail, n);
        let r = find_name(tail, n);
        if r < 0 {
            assert forall|k: int| 0 <= k < gs.len() implies (#[trigger] gs[k]).name != n by {
                if k > 0 {
                    assert(tail[k - 1] == gs[k]);
                }
            }
        } else {
            assert(tail[r] == gs[r + 1]);
            assert forall|k: int| 0 <= k < r + 1 implies (#[trigger] gs[k]).name != n by {
                if k > 0 {
                    assert(tail[k - 1] == gs[k]);
                }
            }
        }
    }
}

/// Folds one record into the groups built so far: a record whose name is
/// new opens its own group; otherwise its subscriptions are appended to the
/// first group with that name.
pub open spec fn merge_step(gs: Seq<AppView>, a: AppView) -> Seq<AppView> {
    let i = find_name(gs, a.name);
    if i < 0 {
        gs.push(a)
    } else {
        gs.update(
            i,
            AppView {
                name: gs[i].name,
                token_type: gs[i].token_type,
                token_validity: gs[i].token_validity,
                subs: gs[i].subs + a.subs,
            },
        )
    }
}

/// The merged groups of a record sequence: one record per distinct name, in
/// first-seen order, with the concatenated subscriptions of every record
/// sharing the name and the token fields of the first such record.
pub open spec fn merge_view(apps: Seq<AppView>) -> Seq<AppView>
    decreases apps.len(),
{
    if apps.len() == 0 {
        Seq::empty()
    } else {
        merge_step(merge_view(apps.drop_last()), apps.last())
    }
}

/// Copies a subscription record.
fn clone_subscription(s: &XmlSubscription) -> (r: XmlSubscription)
    ensures
        r@ == s@,
{
    let mut env: Vec<String> = Vec::new();
    let mut i: usize = 0;
    while i < s.env.len()
        invariant
            0 <= i <= s.env.len(),
            env@ == s.env@.take(i as int),
        decreases s.env.len() - i,
    {
        env.push(s.env[i].clone());
        proof {
            assert(env@ =~= s.env@.take(i + 1));
        }
        i = i + 1;
    }
    proof {
        assert(s.env@.take(s.env@.len() as int) =~= s.env@);
    }
    XmlSubscription { api_name: s.api_name.clone(), api_version: s.api_version.clone(), env }
}

/// Appends a copy of each of `src`'s subscriptions to `dst`.
fn extend_subscriptions(dst: &mut Vec<XmlSubscription>, src: &Vec<XmlSubscription>)
    ensures
        final(dst)@.map_values(|s: XmlSubscription| s@) == old(dst)@.map_values(
            |s: XmlSubscription| s@,
        ) + src@.map_values(|s: XmlSubscription| s@),
{
    let ghost base = dst@.map_values(|s: XmlSubscription| s@);
    let ghost add = src@.map_values(|s: XmlSubscription| s@);
    let mut i: usize = 0;
    proof {
        assert(base + add.take(0) =~= base);
    }
    while i < src.len()
        invariant
            0 <= i <= src.len(),
            add.len() == src.len(),
            forall|k: int| 0 <= k < src.len() ==> add[k] == src@[k]@,
            dst@.map_values(|s: XmlSubscription| s@) == base + add.take(i as int),
        decreases src.len() - i,
    {
        let ghost prev = dst@;
        dst.push(clone_subscription(&src[i]));
        proof {
            assert(dst@.map_values(|s: XmlSubscription| s@) =~= prev.map_values(
                |s: XmlSubscription| s@,
            ).push(add[i as int]));
            assert(base + add.take(i + 1) =~= (base + add.take(i as int)).push(add[i as int]));
        }
        i = i + 1;
    }
    proof {
        assert(add.take(add.len() as int) =~= add);
    }
}

/// The index of the first group whose name is `name`, if any, together
/// with the knowledge that no earlier group has it.
#[verifier::loop_isolation(false)]
fn find_group(groups: &Vec<XmlApplication>, name: &String) -> (r: Option<usize>)
    ensures
        r matches Some(j) ==> j < groups.len() && apps_view(groups@)[j as int].name == name@
            && forall|k: int| 0 <= k < j ==> apps_view(groups@)[k].name != name@,
        r is None ==> forall|k: int| 0 <= k < groups.len() ==> apps_view(groups@)[k].name != name@,
{
    let ghost gs = apps_view(groups@);
    let mut j: usize = 0;
    while j < groups.len()
        invariant
            0 <= j <= groups.len(),
            forall|k: int| 0 <= k < j ==> gs[k].name != name@,
        decreases groups.len() - j,
    {
        if groups[j].name == *name {
            proof {
                assert(gs[j as int].name == name@);
            }
            return Some(j);
        }
        j = j + 1;
    }
    None
}

/// Merges the record sequence into one record per distinct name, as
/// `merge_view` describes.
#[verifier::loop_isolation(false)]
pub fn merge_applications(apps: &Vec<XmlApplication>) -> (r: Vec<XmlApplication>)
    ensures
        apps_view(r@) == merge_view(apps_view(apps@)),
{
    let ghost av = apps_view(apps@);
    let mut groups: Vec<XmlApplication> = Vec::new();
    proof {
        assert(av.take(0) =~= Seq::<AppView>::empty());
        assert(apps_view(groups@) =~= Seq::<AppView>::empty());
    }
    let mut i: usize = 0;
    while i < apps.len()
        invariant
            0 <= i <= apps.len(),
            av == apps_view(apps@),
            av.len() == apps.len(),
            forall|k: int| 0 <= k < apps.len() ==> av[k] == apps@[k]@,
            apps_view(groups@) == merge_view(av.take(i as int)),
        decreases apps.len() - i,
    {
        proof {
            assert(av.take(i + 1).drop_last() =~= av.take(i as int));
            assert(av.take(i + 1).last() == av[i as int]);
        }
        let app = &apps[i];
        let ghost gs = apps_view(groups@);
        match find_group(&groups, &app.name) {
            None => {
                proof {
                    lemma_find_name_props(gs, app.name@);
                    if find_name(gs, app.name@) >= 0 {
                        assert(gs[find_name(gs, app.name@)].name == app.name@);
                    }
                }
                let mut subs: Vec<XmlSubscription> = Vec::new();
                proof {
                    assert(subs@.map_values(|s: XmlSubscription| s@) =~= Seq::<
                        crate::model::SubView,
                    >::empty());
                }
                extend_subscriptions(&mut subs, &app.apis);
                let g = XmlApplication {
                    name: app.name.clone(),
                    token_type: app.token_type.clone(),
                    token_validity: app.token_validity,
                    apis: subs,
                };
                proof {
                    assert(g@.subs =~= app@.subs);
                    assert(g@ == app@);
                }
                groups.push(g);
                proof {
                    assert(apps_view(groups@) =~= gs.push(app@));
                }
            },
            Some(j) => {
                proof {
                    lemma_find_name_props(gs, app.name@);
                    if find_name(gs, app.name@) < 0 {
                        assert(gs[j as int].name != app.name@);
                    }
                    assert(find_name(gs, app.name@) == j);
                }
                let mut g = groups.remove(j);
                let ghost g_before = g@;
                extend_subscriptions(&mut g.apis, &app.apis);
                proof {
                    assert(g@.subs =~= g_before.subs + app@.subs);
                }
                groups.insert(j, g);
                proof {
                    assert(apps_view(groups@) =~= gs.update(
                        j as int,
                        AppView {
                            name: gs[j as int].name,
                            token_type: gs[j as int].token_type,
                            token_validity: gs[j as int].token_validity,
                            subs: gs[j as int].subs + app@.subs,
                        },
                    ));
                }
            },
        }
        i = i + 1;
    }
    proof {
        assert(av.take(av.len() as int) =~= av);
    }
    groups
}

/// Merging two records with the same name yields one record whose
/// subscription list is the concatenation of both lists in group order, and
/// projecting it gives the same document as projecting a single record that
/// already held the concatenated list.
pub proof fn lemma_merge_concat_projects(a: AppView, b: AppView)
    requires
        a.name == b.name,
    ensures
        merge_view(seq![a, b]).len() == 1,
        merge_view(seq![a, b])[0].subs == a.subs + b.subs,
        project_view(merge_view(seq![a, b])[0]) == project_view(
            AppView {
                name: a.name,
                token_type: a.token_type,
                token_validity: a.token_validity,
                subs: a.subs + b.subs,
            },
        ),
{
    let two = seq![a, b];
    assert(two.drop_last() =~= seq![a]);
    assert(seq![a].drop_last() =~= Seq::<AppView>::empty());
    assert(seq![a].len() == 1 && seq![a][0] == a && seq![a].last() == a);
    assert(two.len() == 2 && two.last() == b);
    assert(merge_view(Seq::<AppView>::empty()) =~= Seq::<AppView>::empty());
    assert(merge_view(seq![a]) == merge_step(Seq::<AppView>::empty(), a));
    assert(find_name(Seq::<AppView>::empty(), a.name) == -1);
    assert(merge_view(seq![a]) =~= seq![a]);
    assert(find_name(seq![a], b.name) == 0);
    assert(merge_view(two) == merge_step(seq![a], b));
    assert(merge_view(two) =~= seq![
        AppView {
            name: a.name,
            token_type: a.token_type,
            token_validity: a.token_validity,
            subs: a.subs + b.subs,
        },
    ]);
}

} // verus!
