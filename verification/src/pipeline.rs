//! Output assembler: the single-document and bulk flows, and the verified
//! decisions of the write boundary.
//!
//! The single flow projects each parsed application record independently,
//! even when names repeat within one document; the bulk flow concatenates
//! the records of every document, merges records sharing a name, and
//! projects each merged record.  Both fail fast: the first parse error
//! aborts the whole run before anything is handed to the write boundary.

use vstd::prelude::*;

use crate::merge::{merge_applications, merge_view};
use crate::model::{
    AppView, DocView, ErrView, MigrateError, XmlApplication, YamlApiSubscription, apps_view,
    docs_view,
};
use crate::parse::{model_of, parse_err_matches, parse_xml_file, parses_ok};
use crate::project::{project_application, project_view};

verus! {

/// The documents owed by the bulk flow for a merged record sequence: one
/// projection per merged record.
pub open spec fn unify_view(apps: Seq<AppView>) -> Seq<DocView> {
    merge_view(apps).map_values(|a: AppView| project_view(a))
}

/// The documents owed by the single flow: one projection per record, with
/// no merge step, even for repeated names.
pub open spec fn single_view(apps: Seq<AppView>) -> Seq<DocView> {
    apps.map_values(|a: AppView| project_view(a))
}

/// Projects each record of a sequence independently.
#[verifier::loop_isolation(false)]
fn project_each(apps: &Vec<XmlApplication>) -> (r: Vec<YamlApiSubscription>)
    ensures
        docs_view(r@) == single_view(apps_view(apps@)),
{
    let ghost av = apps_view(apps@);
    let mut out: Vec<YamlApiSubscription> = Vec::new();
    proof {
        assert(docs_view(out@) =~= av.take(0).map_values(|a: AppView| project_view(a)));
    }
    let mut i: usize = 0;
    while i < apps.len()
        invariant
            0 <= i <= apps.len(),
            av == apps_view(apps@),
            av.len() == apps.len(),
            forall|k: int| 0 <= k < apps.len() ==> av[k] == apps@[k]@,
            docs_view(out@) == av.take(i as int).map_values(|a: AppView| project_view(a)),
        decreases apps.len() - i,
    {
        let ghost prev = out@;
        let doc = project_application(&apps[i]);
        out.push(doc);
        proof {
            assert(docs_view(out@) =~= docs_view(prev).push(project_view(av[i as int])));
            assert(av.take(i + 1).map_values(|a: AppView| project_view(a)) =~= av.take(
                i as int,
            ).map_values(|a: AppView| project_view(a)).push(project_view(av[i as int])));
        }
        i = i + 1;
    }
    proof {
        assert(av.take(av.len() as int) =~= av);
    }
    out
}

/// Merges the record sequence by name and projects each merged record: the
/// heart of the bulk flow, usable on records gathered from any number of
/// documents.
pub fn unify_applilcations(applications: &Vec<XmlApplication>) -> (r: Vec<YamlApiSubscription>)
    ensures
        docs_view(r@) == unify_view(apps_view(applications@)),
{
    let merged = merge_applications(applications);
    project_each(&merged)
}

/// The single flow on one document's bytes: parse, then project each
/// record independently (no merge, even for repeated names).
pub fn single_documents(input: &[u8]) -> (r: Result<Vec<YamlApiSubscription>, MigrateError>)
    ensures
        (r is Ok) == parses_ok(input@),
        r matches Ok(docs) ==> docs_view(docs@) == single_view(model_of(input@)),
        r matches Err(e) ==> parse_err_matches(input@, e@),
{
    match parse_xml_file(input) {
        Ok(apps) => Ok(project_each(&apps)),
        Err(e) => Err(e),
    }
}

/// The view of a sequence of byte buffers.
pub open spec fn bytes_view(inputs: Seq<Vec<u8>>) -> Seq<Seq<u8>> {
    inputs.map_values(|v: Vec<u8>| v@)
}

/// Whether every input document parses.
pub open spec fn all_parse_ok(inputs: Seq<Seq<u8>>) -> bool {
    forall|i: int| 0 <= i < inputs.len() ==> parses_ok(#[trigger] inputs[i])
}

/// The concatenation of every input document's records, in input order.
pub open spec fn models_concat(inputs: Seq<Seq<u8>>) -> Seq<AppView>
    decreases inputs.len(),
{
    if inputs.len() == 0 {
        Seq::empty()
    } else {
        models_concat(inputs.drop_last()) + model_of(inputs.last())
    }
}

/// The bulk flow on the bytes of any number of documents: parse each,
/// concatenate the records, merge by name, and project each merged record.
/// The first document that fails to parse aborts the flow with its error.
#[verifier::loop_isolation(false)]
pub fn bulk_documents(inputs: &Vec<Vec<u8>>) -> (r: Result<Vec<YamlApiSubscription>, MigrateError>)
    ensures
        (r is Ok) == all_parse_ok(bytes_view(inputs@)),
        r matches Ok(docs) ==> docs_view(docs@) == unify_view(models_concat(bytes_view(inputs@))),
        r matches Err(e) ==> exists|i: int|
            0 <= i < inputs@.len() && parse_err_matches(#[trigger] bytes_view(inputs@)[i], e@) && (
            forall|k: int| 0 <= k < i ==> parses_ok(#[trigger] bytes_view(inputs@)[k])),
{
    let ghost bv = bytes_view(inputs@);
    let mut staged: Vec<XmlApplication> = Vec::new();
    proof {
        assert(apps_view(staged@) =~= Seq::<AppView>::empty());
        assert(models_concat(bv.take(0)) =~= Seq::<AppView>::empty());
    }
    let mut i: usize = 0;
    while i < inputs.len()
        invariant
            0 <= i <= inputs.len(),
            bv == bytes_view(inputs@),
            bv.len() == inputs.len(),
            forall|k: int| 0 <= k < inputs.len() ==> bv[k] == inputs@[k]@,
            forall|k: int| 0 <= k < i ==> parses_ok(#[trigger] bv[k]),
            apps_view(staged@) == models_concat(bv.take(i as int)),
        decreases inputs.len() - i,
    {
        proof {
            assert(bv.take(i + 1).drop_last() =~= bv.take(i as int));
            assert(bv.take(i + 1).last() == bv[i as int]);
        }
        match parse_xml_file(inputs[i].as_slice()) {
            Ok(mut apps) => {
                let ghost staged_pre = apps_view(staged@);
                let ghost apps_v = apps_view(apps@);
                staged.append(&mut apps);
                proof {
                    assert(apps_view(staged@) =~= staged_pre + apps_v);
                }
            },
            Err(e) => {
                return Err(e);
            },
        }
        i = i + 1;
    }
    proof {
        assert(bv.take(bv.len() as int) =~= bv);
    }
    Ok(unify_applilcations(&staged))
}

/// The directory name owed for an application: its name followed by the
/// subscription suffix.
pub fn output_dir_name(name: &String) -> (r: String)
    ensures
        r@ == name@ + "-subscription"@,
{
    let mut dir = name.clone();
    dir.append("-subscription");
    dir
}

/// The write boundary's overwrite decision: writing to a destination that
/// already exists without the overwrite option is refused with
/// `OutputConflict`, and allowed in every other case, so a caller that
/// checks before writing leaves an existing destination untouched.
pub fn check_write_conflict(dest_exists: bool, force: bool) -> (r: Result<(), MigrateError>)
    ensures
        (r is Err) == (dest_exists && !force),
        r matches Err(e) ==> e@ == ErrView::OutputConflict,
{
    if dest_exists && !force {
        Err(MigrateError::OutputConflict)
    } else {
        Ok(())
    }
}

} // verus!
