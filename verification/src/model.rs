//! Data model: source records parsed from XML, output documents ready for
//! the YAML write boundary, and the library's error type, together with the
//! mathematical views that the contracts speak of.

use vstd::prelude::*;

verus! {

/// One API subscription as it appears in the source XML: an API identified
/// by name and version, bound to a list of environment names.  The list may
/// repeat an environment; duplicates are removed only during projection.
pub struct XmlSubscription {
    pub api_name: String,
    pub api_version: String,
    pub env: Vec<String>,
}

/// One application record from the source XML.  `apis` holds the
/// subscriptions owned by the application.  `token_type` and
/// `token_validity` are carried through for input fidelity but never appear
/// in the output projection.
pub struct XmlApplication {
    pub name: String,
    pub token_type: String,
    pub token_validity: i32,
    pub apis: Vec<XmlSubscription>,
}

/// Mathematical view of a subscription.
pub ghost struct SubView {
    pub api_name: Seq<char>,
    pub api_version: Seq<char>,
    pub env: Seq<Seq<char>>,
}

/// Mathematical view of an application record.
pub ghost struct AppView {
    pub name: Seq<char>,
    pub token_type: Seq<char>,
    pub token_validity: int,
    pub subs: Seq<SubView>,
}

impl View for XmlSubscription {
    type V = SubView;

    open spec fn view(&self) -> SubView {
        SubView {
            api_name: self.api_name@,
            api_version: self.api_version@,
            env: self.env@.map_values(|e: String| e@),
        }
    }
}

impl View for XmlApplication {
    type V = AppView;

    open spec fn view(&self) -> AppView {
        AppView {
            name: self.name@,
            token_type: self.token_type@,
            token_validity: self.token_validity as int,
            subs: self.apis@.map_values(|s: XmlSubscription| s@),
        }
    }
}

/// The view of a sequence of application records.
pub open spec fn apps_view(v: Seq<XmlApplication>) -> Seq<AppView> {
    v.map_values(|a: XmlApplication| a@)
}

/// One distinct environment name inside an environment block.
#[derive(Debug, PartialEq)]
pub struct YamlEnvironmentName {
    pub name: String,
}

/// One control-plane block of the output: the fixed control-plane URL and
/// the distinct environment names routed to it.
#[derive(Debug, PartialEq)]
pub struct YamlEnvironment {
    pub control_plane_url: String,
    pub environments: Vec<YamlEnvironmentName>,
}

/// One API reference of the output: a distinct (name, version) pair.
#[derive(Debug, PartialEq)]
pub struct YamlApi {
    pub name: String,
    pub version: String,
}

/// The application section of the output document.
#[derive(Debug, PartialEq)]
pub struct YamlApplication {
    pub name: String,
    pub description: String,
    pub apis: Vec<YamlApi>,
}

/// Wrapper matching the output schema's `subscriptions` key.
#[derive(Debug, PartialEq)]
pub struct YamlSubscription {
    pub application: YamlApplication,
}

/// One output document, produced once per (merged) application.
#[derive(Debug, PartialEq)]
pub struct YamlApiSubscription {
    pub environments: Vec<YamlEnvironment>,
    pub subscription: YamlSubscription,
}

/// Mathematical view of one environment block.
pub ghost struct EnvBlockView {
    pub control_plane_url: Seq<char>,
    pub environments: Seq<Seq<char>>,
}

/// Mathematical view of one output document, with the nesting flattened:
/// `name` and `description` stand for `subscription.application.name` and
/// `subscription.application.description`, and each API reference is a
/// (name, version) pair.
pub ghost struct DocView {
    pub environments: Seq<EnvBlockView>,
    pub name: Seq<char>,
    pub description: Seq<char>,
    pub apis: Seq<(Seq<char>, Seq<char>)>,
}

impl View for YamlEnvironment {
    type V = EnvBlockView;

    open spec fn view(&self) -> EnvBlockView {
        EnvBlockView {
            control_plane_url: self.control_plane_url@,
            environments: self.environments@.map_values(|n: YamlEnvironmentName| n.name@),
        }
    }
}

impl View for YamlApiSubscription {
    type V = DocView;

    open spec fn view(&self) -> DocView {
        DocView {
            environments: self.environments@.map_values(|b: YamlEnvironment| b@),
            name: self.subscription.application.name@,
            description: self.subscription.application.description@,
            apis: self.subscription.application.apis@.map_values(
                |a: YamlApi| (a.name@, a.version@),
            ),
        }
    }
}

/// The view of a sequence of output documents.
pub open spec fn docs_view(v: Seq<YamlApiSubscription>) -> Seq<DocView> {
    v.map_values(|d: YamlApiSubscription| d@)
}

/// Mathematical view of a pipeline error.
pub ghost enum ErrView {
    MalformedXml { detail: Seq<char> },
    InvalidAttribute { detail: Seq<char> },
    OutputConflict,
}

/// An error of the transformation pipeline.  `MalformedXml` wraps the
/// underlying XML parser diagnostic or reports structurally invalid nesting;
/// `InvalidAttribute` reports a non-integer `tokenValidity` value;
/// `OutputConflict` reports a destination that already exists while
/// overwriting was not requested.
#[derive(Debug, PartialEq)]
pub enum MigrateError {
    MalformedXml { detail: String },
    InvalidAttribute { detail: String },
    OutputConflict,
}

impl View for MigrateError {
    type V = ErrView;

    open spec fn view(&self) -> ErrView {
        match self {
            MigrateError::MalformedXml { detail } => ErrView::MalformedXml { detail: detail@ },
            MigrateError::InvalidAttribute { detail } => ErrView::InvalidAttribute {
                detail: detail@,
            },
            MigrateError::OutputConflict => ErrView::OutputConflict,
        }
    }
}

/// The fixed control-plane URL of the production block.
pub open spec fn spec_prod_plane_url() -> Seq<char> {
    "https://prod.control-plane.com"@
}

/// The fixed control-plane URL of the non-production block.
pub open spec fn spec_non_prod_plane_url() -> Seq<char> {
    "https://non-prod.control-plane.com"@
}

/// The environment name that is classified as production.
pub open spec fn prod_name() -> Seq<char> {
    "prod"@
}

/// The production control-plane URL as an executable string.
pub fn prod_plane_url() -> (r: &'static str)
    ensures
        r@ == spec_prod_plane_url(),
{
    "https://prod.control-plane.com"
}

/// The non-production control-plane URL as an executable string.
pub fn non_prod_plane_url() -> (r: &'static str)
    ensures
        r@ == spec_non_prod_plane_url(),
{
    "https://non-prod.control-plane.com"
}

} // verus!
