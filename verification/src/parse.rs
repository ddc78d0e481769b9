//! XML model parser: turns the byte stream of a source document into the
//! ordered sequence of application records.
//!
//! The underlying XML tokenization is done by the `xml` crate behind one
//! trusted wrapper; everything built on top of the resulting event list —
//! attribute handling, integer parsing, and the application/subscription
//! state machine — is verified against the spec functions below.

use vstd::prelude::*;

use crate::model::{
    AppView, ErrView, MigrateError, SubView, XmlApplication, XmlSubscription, apps_view,
};

verus! {

/// One XML event, reduced to what the model parser reads: element start
/// tags with their attributes as (local name, value) pairs, element end
/// tags, and a marker for every other event kind.
pub enum XmlNode {
    Start { name: String, attributes: Vec<(String, String)> },
    End { name: String },
    Other,
}

/// Mathematical view of an `XmlNode`.
pub ghost enum NodeView {
    Start { name: Seq<char>, attributes: Seq<(Seq<char>, Seq<char>)> },
    End { name: Seq<char> },
    Other,
}

impl View for XmlNode {
    type V = NodeView;

    open spec fn view(&self) -> NodeView {
        match self {
            XmlNode::Start { name, attributes } => NodeView::Start {
                name: name@,
                attributes: attributes@.map_values(|p: (String, String)| (p.0@, p.1@)),
            },
            XmlNode::End { name } => NodeView::End { name: name@ },
            XmlNode::Other => NodeView::Other,
        }
    }
}

/// The event list that the XML tokenizer produces for a given byte stream,
/// or `None` where the bytes are not well-formed XML.  The result depends
/// on the bytes alone.
pub uninterp spec fn xml_events_of(bytes: Seq<u8>) -> Option<Seq<NodeView>>;

/// Relies on `xml::EventReader`: tokenizing a byte stream is deterministic,
/// so the events (and whether tokenization fails) are a function of the
/// bytes alone.  Start and end element events are kept with their local
/// names and attribute (local name, value) pairs; every other event kind is
/// kept as `Other`; the first tokenizer error ends the stream.
#[verifier::external_body]
fn read_xml_events(input: &[u8]) -> (r: Result<Vec<XmlNode>, String>)
    ensures
        (r is Ok) == (xml_events_of(input@) is Some),
        r matches Ok(v) ==> Some(v@.map_values(|n: XmlNode| n@)) == xml_events_of(input@),
{
    let mut out = Vec::new();
    for ev in xml::EventReader::new(input) {
        out.push(match ev {
            Ok(xml::reader::XmlEvent::StartElement { name, attributes, .. }) => XmlNode::Start {
                name: name.local_name,
                attributes: attributes.into_iter().map(|a| (a.name.local_name, a.value)).collect(),
            },
            Ok(xml::reader::XmlEvent::EndElement { name }) => XmlNode::End { name: name.local_name },
            Ok(_) => XmlNode::Other,
            Err(e) => return Err(e.to_string()),
        });
    }
    Ok(out)
}

/// Whether `c` is a decimal digit.
pub open spec fn is_digit(c: char) -> bool {
    48 <= c as u32 <= 57
}

/// The value of `c` as a decimal digit.
pub open spec fn digit_val(c: char) -> int {
    c as u32 - 48
}

/// Whether every character of `s` is a decimal digit.
pub open spec fn all_digits(s: Seq<char>) -> bool {
    forall|i: int| 0 <= i < s.len() ==> is_digit(#[trigger] s[i])
}

/// The value of a digit string read in base 10.
pub open spec fn digits_val(s: Seq<char>) -> int
    decreases s.len(),
{
    if s.len() == 0 {
        0
    } else {
        digits_val(s.drop_last()) * 10 + digit_val(s.last())
    }
}

/// Whether the integer literal `s` starts with a minus sign.
pub open spec fn int_is_neg(s: Seq<char>) -> bool {
    s.len() > 0 && s[0] == '-'
}

/// The digits of the integer literal `s`, after any single leading sign.
pub open spec fn int_body(s: Seq<char>) -> Seq<char> {
    if s.len() > 0 && (s[0] == '-' || s[0] == '+') {
        s.drop_first()
    } else {
        s
    }
}

/// Whether `s` is a base-10 `i32` literal: an optional sign, at least one
/// digit, and a value within the `i32` range.
pub open spec fn is_i32_string(s: Seq<char>) -> bool {
    &&& int_body(s).len() > 0
    &&& all_digits(int_body(s))
    &&& if int_is_neg(s) {
        digits_val(int_body(s)) <= 2147483648
    } else {
        digits_val(int_body(s)) <= 2147483647
    }
}

/// The value of the base-10 integer literal `s`.
pub open spec fn str_int_val(s: Seq<char>) -> int {
    if int_is_neg(s) {
        -digits_val(int_body(s))
    } else {
        digits_val(int_body(s))
    }
}

/// A digit string never has a negative value.
proof fn lemma_digits_val_nonneg(s: Seq<char>)
    requires
        all_digits(s),
    ensures
        digits_val(s) >= 0,
    decreases s.len(),
{
    if s.len() > 0 {
        assert(all_digits(s.drop_last()));
        lemma_digits_val_nonneg(s.drop_last());
    }
}

/// Extending a digit string never shrinks its value.
proof fn lemma_digits_val_prefix(s: Seq<char>, i: int)
    requires
        all_digits(s),
        0 <= i <= s.len(),
    ensures
        digits_val(s) >= digits_val(s.take(i)),
    decreases s.len() - i,
{
    if i < s.len() {
        lemma_digits_val_prefix(s, i + 1);
        assert(s.take(i + 1).drop_last() =~= s.take(i));
        assert(all_digits(s.take(i)));
        lemma_digits_val_nonneg(s.take(i));
        assert(digits_val(s.take(i + 1)) >= digits_val(s.take(i)));
    } else {
        assert(s.take(i) =~= s);
    }
}

/// Parses a base-10 `i32` literal, accepting exactly the strings that
/// `is_i32_string` describes and returning their value.
#[verifier::loop_isolation(false)]
pub fn parse_i32(s: &str) -> (r: Option<i32>)
    ensures
        (r is Some) == is_i32_string(s@),
        r matches Some(v) ==> v as int == str_int_val(s@),
{
    let n = s.unicode_len();
    if n == 0 {
        return None;
    }
    let c0 = s.get_char(0);
    let neg = c0 == '-';
    let start: usize = if c0 == '-' || c0 == '+' {
        1
    } else {
        0
    };
    proof {
        assert(int_body(s@) =~= s@.subrange(start as int, n as int));
    }
    if start == n {
        return None;
    }
    let mut acc: i64 = 0;
    let mut i: usize = start;
    while i < n
        invariant
            start <= i <= n,
            n == s@.len(),
            int_body(s@) =~= s@.subrange(start as int, n as int),
            all_digits(s@.subrange(start as int, i as int)),
            acc == digits_val(s@.subrange(start as int, i as int)),
            0 <= acc <= 2147483648,
        decreases n - i,
    {
        let c = s.get_char(i);
        let cv = c as u32;
        if cv < 48 || cv > 57 {
            proof {
                assert(int_body(s@)[i - start] == s@[i as int]);
                assert(!is_digit(s@[i as int]));
                assert(!all_digits(int_body(s@)));
            }
            return None;
        }
        proof {
            assert(s@.subrange(start as int, i + 1).drop_last() =~= s@.subrange(
                start as int,
                i as int,
            ));
        }
        acc = acc * 10 + ((cv - 48) as i64);
        i = i + 1;
        if acc > 2147483648 {
            proof {
                if all_digits(int_body(s@)) {
                    lemma_digits_val_prefix(int_body(s@), i - start);
                    assert(int_body(s@).take(i - start) =~= s@.subrange(start as int, i as int));
                    assert(digits_val(int_body(s@)) > 2147483648);
                }
                assert(!is_i32_string(s@));
            }
            return None;
        }
    }
    proof {
        assert(s@.subrange(start as int, n as int) =~= int_body(s@));
    }
    if neg {
        Some((0 - acc) as i32)
    } else if acc > 2147483647 {
        None
    } else {
        Some(acc as i32)
    }
}

/// The value of the last attribute named `key`, or `dflt` where none
/// occurs: attributes are read in document order and a later occurrence
/// replaces an earlier one.
pub open spec fn attr_last(
    attrs: Seq<(Seq<char>, Seq<char>)>,
    key: Seq<char>,
    dflt: Seq<char>,
) -> Seq<char>
    decreases attrs.len(),
{
    if attrs.len() == 0 {
        dflt
    } else if attrs.last().0 == key {
        attrs.last().1
    } else {
        attr_last(attrs.drop_last(), key, dflt)
    }
}

/// The values of every attribute named `key`, in document order.
pub open spec fn attr_all(attrs: Seq<(Seq<char>, Seq<char>)>, key: Seq<char>) -> Seq<Seq<char>>
    decreases attrs.len(),
{
    if attrs.len() == 0 {
        Seq::empty()
    } else if attrs.last().0 == key {
        attr_all(attrs.drop_last(), key).push(attrs.last().1)
    } else {
        attr_all(attrs.drop_last(), key)
    }
}

/// The subscription record read from a `subscription` start tag: `apiName`
/// and `apiVersion` with empty-string defaults, and one environment entry
/// per `environment` attribute occurrence.
pub open spec fn sub_of_attrs(attrs: Seq<(Seq<char>, Seq<char>)>) -> SubView {
    SubView {
        api_name: attr_last(attrs, "apiName"@, Seq::empty()),
        api_version: attr_last(attrs, "apiVersion"@, Seq::empty()),
        env: attr_all(attrs, "environment"@),
    }
}

/// Whether every `tokenValidity` attribute of an `application` start tag
/// holds a base-10 `i32` literal.
pub open spec fn app_attrs_ok(attrs: Seq<(Seq<char>, Seq<char>)>) -> bool {
    forall|i: int|
        0 <= i < attr_all(attrs, "tokenValidity"@).len() ==> is_i32_string(
            #[trigger] attr_all(attrs, "tokenValidity"@)[i],
        )
}

/// The token validity read from an `application` start tag: the value of
/// the last `tokenValidity` attribute, or zero where none occurs.
pub open spec fn app_token_validity(attrs: Seq<(Seq<char>, Seq<char>)>) -> int {
    let vs = attr_all(attrs, "tokenValidity"@);
    if vs.len() == 0 {
        0
    } else {
        str_int_val(vs.last())
    }
}

/// The application record read from an `application` start tag, before any
/// subscriptions are attached.
pub open spec fn app_of_attrs(attrs: Seq<(Seq<char>, Seq<char>)>) -> AppView {
    AppView {
        name: attr_last(attrs, "name"@, Seq::empty()),
        token_type: attr_last(attrs, "tokenType"@, Seq::empty()),
        token_validity: app_token_validity(attrs),
        subs: Seq::empty(),
    }
}

/// The first element of `vs` that is not an `i32` literal (the empty
/// sequence where all are).
pub open spec fn first_bad_int(vs: Seq<Seq<char>>) -> Seq<char>
    decreases vs.len(),
{
    if vs.len() == 0 {
        Seq::empty()
    } else if !is_i32_string(vs[0]) {
        vs[0]
    } else {
        first_bad_int(vs.drop_first())
    }
}

/// Splitting an attribute list splits each key's value list.
proof fn lemma_attr_all_concat(a: Seq<(Seq<char>, Seq<char>)>, b: Seq<(Seq<char>, Seq<char>)>, key: Seq<char>)
    ensures
        attr_all(a + b, key) == attr_all(a, key) + attr_all(b, key),
    decreases b.len(),
{
    if b.len() == 0 {
        assert(a + b =~= a);
        assert(attr_all(a, key) + attr_all(b, key) =~= attr_all(a, key));
    } else {
        lemma_attr_all_concat(a, b.drop_last(), key);
        assert((a + b).drop_last() =~= a + b.drop_last());
        assert((a + b).last() == b.last());
        if b.last().0 == key {
            assert(attr_all(a, key) + attr_all(b, key) =~= (attr_all(a, key) + attr_all(
                b.drop_last(),
                key,
            )).push(b.last().1));
        } else {
            assert(attr_all(a, key) + attr_all(b, key) =~= attr_all(a, key) + attr_all(
                b.drop_last(),
                key,
            ));
        }
    }
}

/// In a value list made of well-formed values, then one bad value, then
/// anything, the first bad element is that value.
proof fn lemma_first_bad_int(good: Seq<Seq<char>>, v: Seq<char>, rest: Seq<Seq<char>>)
    requires
        forall|i: int| 0 <= i < good.len() ==> is_i32_string(#[trigger] good[i]),
        !is_i32_string(v),
    ensures
        first_bad_int(good.push(v) + rest) == v,
    decreases good.len(),
{
    let vs = good.push(v) + rest;
    if good.len() == 0 {
        assert(vs[0] == v);
    } else {
        assert(vs[0] == good[0]);
        lemma_first_bad_int(good.drop_first(), v, rest);
        assert(vs.drop_first() =~= good.drop_first().push(v) + rest);
    }
}

/// Reads an `application` start tag's attributes into an application
/// record, reporting a non-integer `tokenValidity` value as an
/// `InvalidAttribute` error.
#[verifier::loop_isolation(false)]
pub fn parse_application(attrs: &Vec<(String, String)>) -> (r: Result<
    XmlApplication,
    MigrateError,
>)
    ensures
        (r is Ok) == app_attrs_ok(attrs_seq_view(attrs@)),
        r matches Ok(a) ==> a@ == app_of_attrs(attrs_seq_view(attrs@)),
        r matches Err(e) ==> e@ == (ErrView::InvalidAttribute {
            detail: "invalid tokenValidity: "@ + first_bad_int(
                attr_all(attrs_seq_view(attrs@), "tokenValidity"@),
            ),
        }),
{
    proof {
        reveal_strlit("name");
        reveal_strlit("tokenType");
        reveal_strlit("tokenValidity");
        assert("name"@.len() == 4);
        assert("tokenType"@.len() == 9);
        assert("tokenValidity"@.len() == 13);
        assert("name"@ != "tokenType"@ && "name"@ != "tokenValidity"@ && "tokenType"@
            != "tokenValidity"@);
    }
    let ghost av = attrs_seq_view(attrs@);
    let key_name: String = "name".to_owned();
    let key_token_type: String = "tokenType".to_owned();
    let key_token_validity: String = "tokenValidity".to_owned();
    let mut name: String = String::new();
    let mut token_type: String = String::new();
    let mut token_validity: i32 = 0;
    let mut i: usize = 0;
    while i < attrs.len()
        invariant
            0 <= i <= attrs.len(),
            av == attrs_seq_view(attrs@),
            av.len() == attrs.len(),
            forall|k: int| 0 <= k < i ==> av[k] == (attrs@[k].0@, attrs@[k].1@),
            key_name@ == "name"@,
            key_token_type@ == "tokenType"@,
            key_token_validity@ == "tokenValidity"@,
            name@ == attr_last(av.take(i as int), "name"@, Seq::empty()),
            token_type@ == attr_last(av.take(i as int), "tokenType"@, Seq::empty()),
            app_attrs_ok(av.take(i as int)),
            token_validity as int == app_token_validity(av.take(i as int)),
        decreases attrs.len() - i,
    {
        proof {
            assert(av[i as int] == (attrs@[i as int].0@, attrs@[i as int].1@));
            assert(av.take(i + 1).drop_last() =~= av.take(i as int));
            assert(av.take(i + 1).last() == av[i as int]);
        }
        let a = &attrs[i];
        if a.0 == key_name {
            name = a.1.clone();
        } else if a.0 == key_token_type {
            token_type = a.1.clone();
        } else if a.0 == key_token_validity {
            match parse_i32(a.1.as_str()) {
                Some(v) => {
                    proof {
                        lemma_attr_all_concat(av.take(i + 1), av.skip(i + 1), "tokenValidity"@);
                        assert(av.take(i + 1) + av.skip(i + 1) =~= av);
                        assert(attr_all(av.take(i + 1), "tokenValidity"@) == attr_all(
                            av.take(i as int),
                            "tokenValidity"@,
                        ).push(a.1@));
                    }
                    token_validity = v;
                },
                None => {
                    proof {
                        lemma_attr_all_concat(av.take(i + 1), av.skip(i + 1), "tokenValidity"@);
                        assert(av.take(i + 1) + av.skip(i + 1) =~= av);
                        assert(attr_all(av.take(i + 1), "tokenValidity"@) == attr_all(
                            av.take(i as int),
                            "tokenValidity"@,
                        ).push(a.1@));
                        lemma_first_bad_int(
                            attr_all(av.take(i as int), "tokenValidity"@),
                            a.1@,
                            attr_all(av.skip(i + 1), "tokenValidity"@),
                        );
                        assert(!app_attrs_ok(av)) by {
                            let vs = attr_all(av, "tokenValidity"@);
                            let j = attr_all(av.take(i as int), "tokenValidity"@).len() as int;
                            assert(vs[j] == a.1@);
                        }
                    }
                    let mut detail: String = "invalid tokenValidity: ".to_owned();
                    detail.append(a.1.as_str());
                    return Err(MigrateError::InvalidAttribute { detail });
                },
            }
        }
        i = i + 1;
    }
    let app = XmlApplication { name, token_type, token_validity, apis: Vec::new() };
    proof {
        assert(av.take(av.len() as int) =~= av);
        assert(app@.subs =~= Seq::<SubView>::empty());
    }
    Ok(app)
}

/// The view of an attribute list.
pub open spec fn attrs_seq_view(attrs: Seq<(String, String)>) -> Seq<(Seq<char>, Seq<char>)> {
    attrs.map_values(|p: (String, String)| (p.0@, p.1@))
}

/// Reads a `subscription` start tag's attributes into a subscription
/// record.
#[verifier::loop_isolation(false)]
pub fn parse_subscription(attrs: &Vec<(String, String)>) -> (r: XmlSubscription)
    ensures
        r@ == sub_of_attrs(attrs_seq_view(attrs@)),
{
    proof {
        reveal_strlit("apiName");
        reveal_strlit("apiVersion");
        reveal_strlit("environment");
        assert("apiName"@.len() == 7);
        assert("apiVersion"@.len() == 10);
        assert("environment"@.len() == 11);
        assert("apiName"@ != "apiVersion"@);
        assert("apiName"@ != "environment"@);
        assert("apiVersion"@ != "environment"@);
    }
    let ghost av = attrs_seq_view(attrs@);
    let key_api_name: String = "apiName".to_owned();
    let key_api_version: String = "apiVersion".to_owned();
    let key_environment: String = "environment".to_owned();
    let mut api_name: String = String::new();
    let mut api_version: String = String::new();
    let mut env: Vec<String> = Vec::new();
    let mut i: usize = 0;
    while i < attrs.len()
        invariant
            0 <= i <= attrs.len(),
            av == attrs_seq_view(attrs@),
            av.len() == attrs.len(),
            forall|k: int| 0 <= k < i ==> av[k] == (attrs@[k].0@, attrs@[k].1@),
            key_api_name@ == "apiName"@,
            key_api_version@ == "apiVersion"@,
            key_environment@ == "environment"@,
            api_name@ == attr_last(av.take(i as int), "apiName"@, Seq::empty()),
            api_version@ == attr_last(av.take(i as int), "apiVersion"@, Seq::empty()),
            env@.map_values(|e: String| e@) == attr_all(av.take(i as int), "environment"@),
        decreases attrs.len() - i,
    {
        proof {
            assert(av[i as int] == (attrs@[i as int].0@, attrs@[i as int].1@));
            assert(av.take(i + 1).drop_last() =~= av.take(i as int));
            assert(av.take(i + 1).last() == av[i as int]);
        }
        let a = &attrs[i];
        if a.0 == key_api_name {
            api_name = a.1.clone();
        } else if a.0 == key_api_version {
            api_version = a.1.clone();
        } else if a.0 == key_environment {
            env.push(a.1.clone());
            proof {
                assert(env@.map_values(|e: String| e@) =~= attr_all(
                    av.take(i + 1),
                    "environment"@,
                ));
            }
        }
        proof {
            if av[i as int].0 != "environment"@ {
                assert(env@.map_values(|e: String| e@) == attr_all(av.take(i + 1), "environment"@));
            }
        }
        i = i + 1;
    }
    proof {
        assert(av.take(av.len() as int) =~= av);
    }
    XmlSubscription { api_name, api_version, env }
}

/// The parser's running state: the completed records so far, and the
/// application whose end tag has not yet been seen, if any, carrying its
/// pending subscriptions.
pub ghost struct ParseState {
    pub done: Seq<AppView>,
    pub open: Option<AppView>,
}

/// One transition of the model-building state machine.  An `application`
/// start tag opens a record (an already open one is malformed nesting); a
/// `subscription` start tag appends to the open record and is ignored
/// outside one; an `application` end tag completes the open record.  Every
/// other element and event kind is ignored.
pub open spec fn step(st: ParseState, n: NodeView) -> Result<ParseState, ErrView> {
    match n {
        NodeView::Start { name, attributes } => {
            if name == "application"@ {
                if st.open is Some {
                    Err(ErrView::MalformedXml { detail: "malformed input: nested application"@ })
                } else if !app_attrs_ok(attributes) {
                    Err(ErrView::InvalidAttribute {
                        detail: "invalid tokenValidity: "@ + first_bad_int(
                            attr_all(attributes, "tokenValidity"@),
                        ),
                    })
                } else {
                    Ok(ParseState { done: st.done, open: Some(app_of_attrs(attributes)) })
                }
            } else if name == "subscription"@ {
                match st.open {
                    Some(a) => Ok(
                        ParseState {
                            done: st.done,
                            open: Some(
                                AppView {
                                    name: a.name,
                                    token_type: a.token_type,
                                    token_validity: a.token_validity,
                                    subs: a.subs.push(sub_of_attrs(attributes)),
                                },
                            ),
                        },
                    ),
                    None => Ok(st),
                }
            } else {
                Ok(st)
            }
        },
        NodeView::End { name } => {
            if name == "application"@ {
                match st.open {
                    Some(a) => Ok(ParseState { done: st.done.push(a), open: None }),
                    None => Ok(st),
                }
            } else {
                Ok(st)
            }
        },
        NodeView::Other => Ok(st),
    }
}

/// Runs the state machine over an event list, failing at the first
/// transition that fails.
pub open spec fn run(events: Seq<NodeView>) -> Result<ParseState, ErrView>
    decreases events.len(),
{
    if events.len() == 0 {
        Ok(ParseState { done: Seq::empty(), open: None })
    } else {
        match run(events.drop_last()) {
            Err(e) => Err(e),
            Ok(st) => step(st, events.last()),
        }
    }
}

/// The application records built from an event list: the completed records
/// in document order.  A record whose end tag is missing is not emitted.
pub open spec fn build_model(events: Seq<NodeView>) -> Result<Seq<AppView>, ErrView> {
    match run(events) {
        Err(e) => Err(e),
        Ok(st) => Ok(st.done),
    }
}

/// The view of an event list.
pub open spec fn events_seq_view(events: Seq<XmlNode>) -> Seq<NodeView> {
    events.map_values(|n: XmlNode| n@)
}

/// Once a prefix of the event list fails, the whole list fails with the
/// same error.
proof fn lemma_run_err(events: Seq<NodeView>, j: int)
    requires
        0 <= j <= events.len(),
        run(events.take(j)) is Err,
    ensures
        run(events) == run(events.take(j)),
    decreases events.len() - j,
{
    if j < events.len() {
        assert(events.take(j + 1).drop_last() =~= events.take(j));
        lemma_run_err(events, j + 1);
    } else {
        assert(events.take(j) =~= events);
    }
}

/// Builds the application records from an event list, exactly as
/// `build_model` describes.
pub fn build_applications(events: &Vec<XmlNode>) -> (r: Result<Vec<XmlApplication>, MigrateError>)
    ensures
        (r is Ok) == (build_model(events_seq_view(events@)) is Ok),
        r matches Ok(apps) ==> build_model(events_seq_view(events@)) == Ok::<_, ErrView>(
            apps_view(apps@),
        ),
        r matches Err(e) ==> build_model(events_seq_view(events@)) == Err::<Seq<AppView>, _>(e@),
{
    let ghost ev = events_seq_view(events@);
    let tag_application: String = "application".to_owned();
    let tag_subscription: String = "subscription".to_owned();
    let mut done: Vec<XmlApplication> = Vec::new();
    let mut has_open: bool = false;
    let mut cur: XmlApplication = XmlApplication {
        name: String::new(),
        token_type: String::new(),
        token_validity: 0,
        apis: Vec::new(),
    };
    let mut i: usize = 0;
    proof {
        assert(ev.take(0) =~= Seq::<NodeView>::empty());
        assert(apps_view(done@) =~= Seq::<AppView>::empty());
    }
    while i < events.len()
        invariant
            0 <= i <= events.len(),
            ev == events_seq_view(events@),
            ev.len() == events.len(),
            forall|k: int| 0 <= k < events.len() ==> ev[k] == events@[k]@,
            tag_application@ == "application"@,
            tag_subscription@ == "subscription"@,
            run(ev.take(i as int)) == Ok::<ParseState, ErrView>(
                ParseState {
                    done: apps_view(done@),
                    open: if has_open {
                        Some(cur@)
                    } else {
                        None
                    },
                },
            ),
        decreases events.len() - i,
    {
        proof {
            assert(ev.take(i + 1).drop_last() =~= ev.take(i as int));
            assert(ev.take(i + 1).last() == ev[i as int]);
        }
        let node = &events[i];
        match node {
            XmlNode::Start { name, attributes } => {
                if *name == tag_application {
                    if has_open {
                        proof {
                            lemma_run_err(ev, i + 1);
                        }
                        return Err(
                            MigrateError::MalformedXml {
                                detail: "malformed input: nested application".to_owned(),
                            },
                        );
                    }
                    match parse_application(attributes) {
                        Ok(a) => {
                            cur = a;
                            has_open = true;
                        },
                        Err(e) => {
                            proof {
                                lemma_run_err(ev, i + 1);
                            }
                            return Err(e);
                        },
                    }
                } else if *name == tag_subscription {
                    if has_open {
                        let ghost prev = cur@;
                        let sub = parse_subscription(attributes);
                        cur.apis.push(sub);
                        proof {
                            assert(cur@.subs =~= prev.subs.push(sub@));
                        }
                    }
                }
            },
            XmlNode::End { name } => {
                if *name == tag_application {
                    if has_open {
                        let ghost prev_done = apps_view(done@);
                        let ghost prev_cur = cur@;
                        done.push(cur);
                        cur = XmlApplication {
                            name: String::new(),
                            token_type: String::new(),
                            token_validity: 0,
                            apis: Vec::new(),
                        };
                        has_open = false;
                        proof {
                            assert(apps_view(done@) =~= prev_done.push(prev_cur));
                        }
                    }
                }
            },
            XmlNode::Other => {},
        }
        i = i + 1;
    }
    proof {
        assert(ev.take(ev.len() as int) =~= ev);
    }
    Ok(done)
}

/// Whether the byte stream tokenizes and builds into a model without error.
pub open spec fn parses_ok(bytes: Seq<u8>) -> bool {
    match xml_events_of(bytes) {
        Some(evs) => build_model(evs) is Ok,
        None => false,
    }
}

/// The application records of a byte stream (meaningful where `parses_ok`
/// holds).
pub open spec fn model_of(bytes: Seq<u8>) -> Seq<AppView> {
    match xml_events_of(bytes) {
        Some(evs) => match build_model(evs) {
            Ok(m) => m,
            Err(_) => Seq::empty(),
        },
        None => Seq::empty(),
    }
}

/// Whether `e` is the error that parsing the byte stream owes: a
/// `MalformedXml` error where tokenization fails, and the model builder's
/// own error where building fails.
pub open spec fn parse_err_matches(bytes: Seq<u8>, e: ErrView) -> bool {
    match xml_events_of(bytes) {
        None => e is MalformedXml,
        Some(evs) => match build_model(evs) {
            Err(e2) => e == e2,
            Ok(_) => false,
        },
    }
}

/// Parses one XML document into its application records: tokenizes the
/// bytes, then runs the model-building state machine over the events.
pub fn parse_xml_file(input: &[u8]) -> (r: Result<Vec<XmlApplication>, MigrateError>)
    ensures
        (r is Ok) == parses_ok(input@),
        r matches Ok(apps) ==> apps_view(apps@) == model_of(input@),
        r matches Err(e) ==> parse_err_matches(input@, e@),
{
    match read_xml_events(input) {
        Err(detail) => Err(MigrateError::MalformedXml { detail }),
        Ok(events) => build_applications(&events),
    }
}

} // verus!
