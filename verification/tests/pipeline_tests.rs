use migrator::model::{MigrateError, XmlApplication, XmlSubscription, YamlApiSubscription};
use migrator::parse::{parse_i32, parse_subscription, parse_xml_file};
use migrator::pipeline::{
    bulk_documents, check_write_conflict, output_dir_name, single_documents, unify_applilcations,
};
use migrator::project::project_application;

const NON_PROD_URL: &str = "https://non-prod.control-plane.com";
const PROD_URL: &str = "https://prod.control-plane.com";

fn sub(api_name: &str, api_version: &str, envs: &[&str]) -> XmlSubscription {
    XmlSubscription {
        api_name: api_name.to_owned(),
        api_version: api_version.to_owned(),
        env: envs.iter().map(|e| (*e).to_owned()).collect(),
    }
}

fn app(name: &str, subs: Vec<XmlSubscription>) -> XmlApplication {
    XmlApplication {
        name: name.to_owned(),
        token_type: "jwt".to_owned(),
        token_validity: 3600,
        apis: subs,
    }
}

fn env_names(doc: &YamlApiSubscription, block: usize) -> Vec<String> {
    doc.environments[block]
        .environments
        .iter()
        .map(|n| n.name.clone())
        .collect()
}

#[test]
fn scenario_single_prod_only() {
    let xml = br#"<root>
        <application name="Orders" tokenType="jwt" tokenValidity="3600">
            <subscription apiName="orders-api" apiVersion="v1" environment="prod"/>
        </application>
    </root>"#;
    let docs = single_documents(xml).expect("well-formed input must parse");
    assert_eq!(docs.len(), 1);
    let doc = &docs[0];
    assert_eq!(doc.environments.len(), 1);
    assert_eq!(doc.environments[0].control_plane_url, PROD_URL);
    assert_eq!(env_names(doc, 0), vec!["prod".to_owned()]);
    assert_eq!(doc.subscription.application.name, "Orders");
    assert_eq!(doc.subscription.application.description, "Orders-subscription");
    assert_eq!(doc.subscription.application.apis.len(), 1);
    assert_eq!(doc.subscription.application.apis[0].name, "orders-api");
    assert_eq!(doc.subscription.application.apis[0].version, "v1");
}

#[test]
fn scenario_single_mixed_environments() {
    let xml = br#"<root>
        <application name="Orders">
            <subscription apiName="orders-api" apiVersion="v1" environment="dev"/>
            <subscription apiName="orders-api" apiVersion="v2" environment="prod"/>
        </application>
    </root>"#;
    let docs = single_documents(xml).expect("well-formed input must parse");
    assert_eq!(docs.len(), 1);
    let doc = &docs[0];
    assert_eq!(doc.environments.len(), 2);
    assert_eq!(doc.environments[0].control_plane_url, NON_PROD_URL);
    assert_eq!(env_names(doc, 0), vec!["dev".to_owned()]);
    assert_eq!(doc.environments[1].control_plane_url, PROD_URL);
    assert_eq!(env_names(doc, 1), vec!["prod".to_owned()]);
    let apis = &doc.subscription.application.apis;
    assert_eq!(apis.len(), 2);
    assert_eq!((apis[0].name.as_str(), apis[0].version.as_str()), ("orders-api", "v1"));
    assert_eq!((apis[1].name.as_str(), apis[1].version.as_str()), ("orders-api", "v2"));
}

#[test]
fn scenario_bulk_merges_same_name() {
    let one = br#"<r><application name="Billing">
        <subscription apiName="invoices" apiVersion="v1" environment="dev"/>
    </application></r>"#;
    let two = br#"<r><application name="Billing">
        <subscription apiName="payments" apiVersion="v3" environment="prod"/>
    </application></r>"#;
    let docs = bulk_documents(&vec![one.to_vec(), two.to_vec()]).expect("both must parse");
    assert_eq!(docs.len(), 1);
    let doc = &docs[0];
    assert_eq!(doc.subscription.application.name, "Billing");
    assert_eq!(doc.subscription.application.description, "Billing-subscription");
    let apis = &doc.subscription.application.apis;
    assert_eq!(apis.len(), 2);
    assert_eq!((apis[0].name.as_str(), apis[0].version.as_str()), ("invoices", "v1"));
    assert_eq!((apis[1].name.as_str(), apis[1].version.as_str()), ("payments", "v3"));
    assert_eq!(doc.environments.len(), 2);
    assert_eq!(env_names(doc, 0), vec!["dev".to_owned()]);
    assert_eq!(env_names(doc, 1), vec!["prod".to_owned()]);
}

#[test]
fn environment_split_dedups_names() {
    let a = app(
        "Mix",
        vec![
            sub("a", "v1", &["dev", "prod", "test"]),
            sub("b", "v1", &["dev", "qa"]),
        ],
    );
    let doc = project_application(&a);
    assert_eq!(doc.environments.len(), 2);
    assert_eq!(doc.environments[0].control_plane_url, NON_PROD_URL);
    assert_eq!(
        env_names(&doc, 0),
        vec!["dev".to_owned(), "test".to_owned(), "qa".to_owned()]
    );
    assert_eq!(doc.environments[1].control_plane_url, PROD_URL);
    assert_eq!(env_names(&doc, 1), vec!["prod".to_owned()]);
}

#[test]
fn apis_dedup_by_pair() {
    let a = app(
        "Dup",
        vec![
            sub("same", "v1", &["dev"]),
            sub("same", "v1", &["test"]),
            sub("same", "v2", &["dev"]),
            sub("other", "v1", &["dev"]),
        ],
    );
    let doc = project_application(&a);
    let apis = &doc.subscription.application.apis;
    assert_eq!(apis.len(), 3);
    assert_eq!((apis[0].name.as_str(), apis[0].version.as_str()), ("same", "v1"));
    assert_eq!((apis[1].name.as_str(), apis[1].version.as_str()), ("same", "v2"));
    assert_eq!((apis[2].name.as_str(), apis[2].version.as_str()), ("other", "v1"));
}

#[test]
fn merge_concatenates_disjoint_subscriptions() {
    let first = app("Same", vec![sub("a", "v1", &["dev"])]);
    let second = app("Same", vec![sub("b", "v2", &["prod"])]);
    let union = app("Same", vec![sub("a", "v1", &["dev"]), sub("b", "v2", &["prod"])]);
    let merged_docs = unify_applilcations(&vec![first, second]);
    assert_eq!(merged_docs.len(), 1);
    let direct = project_application(&union);
    assert_eq!(merged_docs[0], direct);
}

#[test]
fn projection_is_deterministic() {
    let a = app(
        "Twice",
        vec![sub("a", "v1", &["dev", "prod"]), sub("b", "v2", &["qa"])],
    );
    let once = project_application(&a);
    let again = project_application(&a);
    assert_eq!(once, again);
}

#[test]
fn write_conflict_refused_without_force() {
    assert_eq!(check_write_conflict(true, false), Err(MigrateError::OutputConflict));
    assert_eq!(check_write_conflict(true, true), Ok(()));
    assert_eq!(check_write_conflict(false, false), Ok(()));
    assert_eq!(check_write_conflict(false, true), Ok(()));
}

#[test]
fn malformed_xml_is_reported() {
    let xml = b"<root><application name=\"X\">";
    match single_documents(xml) {
        Err(MigrateError::MalformedXml { .. }) => {}
        other => panic!("expected a MalformedXml error, got {:?}", other),
    }
}

#[test]
fn invalid_token_validity_is_reported() {
    let xml = br#"<r><application name="X" tokenValidity="abc"></application></r>"#;
    match single_documents(xml) {
        Err(MigrateError::InvalidAttribute { detail }) => {
            assert_eq!(detail, "invalid tokenValidity: abc");
        }
        other => panic!("expected an InvalidAttribute error, got {:?}", other),
    }
}

#[test]
fn nested_application_is_reported() {
    let xml = br#"<r><application name="A"><application name="B"/></application></r>"#;
    match single_documents(xml) {
        Err(MigrateError::MalformedXml { detail }) => {
            assert_eq!(detail, "malformed input: nested application");
        }
        other => panic!("expected a MalformedXml error, got {:?}", other),
    }
}

#[test]
fn bulk_fails_fast_on_first_bad_document() {
    let good = br#"<r><application name="A"/></r>"#.to_vec();
    let bad = b"<r><broken".to_vec();
    match bulk_documents(&vec![good, bad]) {
        Err(MigrateError::MalformedXml { .. }) => {}
        other => panic!("expected a MalformedXml error, got {:?}", other),
    }
}

#[test]
fn application_without_subscriptions_yields_empty_document() {
    let xml = br#"<r><application name="Empty" tokenType="t" tokenValidity="1"></application></r>"#;
    let docs = single_documents(xml).expect("well-formed input must parse");
    assert_eq!(docs.len(), 1);
    assert!(docs[0].environments.is_empty());
    assert!(docs[0].subscription.application.apis.is_empty());
    assert_eq!(docs[0].subscription.application.description, "Empty-subscription");
}

#[test]
fn single_flow_does_not_merge_repeated_names() {
    let xml = br#"<r>
        <application name="Twin"><subscription apiName="a" apiVersion="v1" environment="dev"/></application>
        <application name="Twin"><subscription apiName="b" apiVersion="v1" environment="dev"/></application>
    </r>"#;
    let docs = single_documents(xml).expect("well-formed input must parse");
    assert_eq!(docs.len(), 2);
    assert_eq!(docs[0].subscription.application.apis[0].name, "a");
    assert_eq!(docs[1].subscription.application.apis[0].name, "b");
}

#[test]
fn bulk_flow_merges_repeated_names_within_one_document() {
    let xml = br#"<r>
        <application name="Twin"><subscription apiName="a" apiVersion="v1" environment="dev"/></application>
        <application name="Twin"><subscription apiName="b" apiVersion="v1" environment="dev"/></application>
    </r>"#.to_vec();
    let docs = bulk_documents(&vec![xml]).expect("well-formed input must parse");
    assert_eq!(docs.len(), 1);
    let apis = &docs[0].subscription.application.apis;
    assert_eq!(apis.len(), 2);
}

#[test]
fn token_validity_range_edges() {
    let ok = br#"<r><application name="X" tokenValidity="-2147483648"/></r>"#;
    assert!(single_documents(ok).is_ok());
    let over = br#"<r><application name="X" tokenValidity="2147483648"/></r>"#;
    match single_documents(over) {
        Err(MigrateError::InvalidAttribute { detail }) => {
            assert_eq!(detail, "invalid tokenValidity: 2147483648");
        }
        other => panic!("expected an InvalidAttribute error, got {:?}", other),
    }
}

#[test]
fn parse_i32_accepts_and_rejects() {
    assert_eq!(parse_i32("0"), Some(0));
    assert_eq!(parse_i32("+42"), Some(42));
    assert_eq!(parse_i32("-7"), Some(-7));
    assert_eq!(parse_i32("2147483647"), Some(i32::MAX));
    assert_eq!(parse_i32("-2147483648"), Some(i32::MIN));
    assert_eq!(parse_i32("2147483648"), None);
    assert_eq!(parse_i32(""), None);
    assert_eq!(parse_i32("-"), None);
    assert_eq!(parse_i32("12a"), None);
    assert_eq!(parse_i32("99999999999999999999"), None);
}

#[test]
fn subscription_attributes_collect_environments() {
    let attrs = vec![
        ("apiName".to_owned(), "a".to_owned()),
        ("environment".to_owned(), "dev".to_owned()),
        ("apiVersion".to_owned(), "v1".to_owned()),
        ("environment".to_owned(), "prod".to_owned()),
        ("unknown".to_owned(), "ignored".to_owned()),
    ];
    let s = parse_subscription(&attrs);
    assert_eq!(s.api_name, "a");
    assert_eq!(s.api_version, "v1");
    assert_eq!(s.env, vec!["dev".to_owned(), "prod".to_owned()]);
}

#[test]
fn unknown_elements_are_ignored() {
    let xml = br#"<r><noise/><application name="X"><metadata/>
        <subscription apiName="a" apiVersion="v1" environment="dev"/>
    </application><noise/></r>"#;
    let docs = single_documents(xml).expect("well-formed input must parse");
    assert_eq!(docs.len(), 1);
    assert_eq!(docs[0].subscription.application.apis.len(), 1);
}

#[test]
fn parse_keeps_token_fields() {
    let xml = br#"<r><application name="X" tokenType="oauth" tokenValidity="1200"/></r>"#;
    let apps = parse_xml_file(xml).expect("well-formed input must parse");
    assert_eq!(apps.len(), 1);
    assert_eq!(apps[0].name, "X");
    assert_eq!(apps[0].token_type, "oauth");
    assert_eq!(apps[0].token_validity, 1200);
    assert!(apps[0].apis.is_empty());
}

#[test]
fn output_dir_name_appends_suffix() {
    assert_eq!(output_dir_name(&"Orders".to_owned()), "Orders-subscription");
}
