//! Adapting a checkout of a CodinGame referee to the arena: the exclude entry
//! for Maven's build output, the command-line entry point, and the Maven
//! project file, held as a tree of XML nodes.
use vstd::prelude::*;
use xmltree::{Element, Namespace, XMLNode};
use crate::text::{
    chars_of, concat_str, contains_text, contains_text_vec, contains_trimmed_line, has_trimmed_line, str_equal,
};

verus! {

/// A node of an XML document.
pub enum PomNode {
    Element(PomElement),
    Comment(String),
    CData(String),
    Text(String),
    /// Target and data of a processing instruction.
    ProcessingInstruction(String, Option<String>),
}

/// An XML element.
pub struct PomElement {
    pub prefix: Option<String>,
    pub namespace: Option<String>,
    /// The namespaces in scope, as (prefix, URI), ordered by prefix.
    pub namespaces: Option<Vec<(String, String)>>,
    /// The local name.
    pub name: String,
    /// The attributes, as (name, value); each name occurs once.
    pub attributes: Vec<(String, String)>,
    pub children: Vec<PomNode>,
}

/// `i` is the first index of `s` whose item satisfies `p`.
pub open spec fn is_first<A>(s: Seq<A>, p: spec_fn(A) -> bool, i: int) -> bool {
    &&& 0 <= i < s.len()
    &&& p(s[i])
    &&& forall|j: int| 0 <= j < i ==> !p(#[trigger] s[j])
}

/// The first index of `s` whose item satisfies `p`.
pub open spec fn first_index<A>(s: Seq<A>, p: spec_fn(A) -> bool) -> Option<int> {
    if exists|i: int| is_first(s, p, i) {
        Some(choose|i: int| is_first(s, p, i))
    } else {
        None
    }
}

proof fn lemma_first_index_at<A>(s: Seq<A>, p: spec_fn(A) -> bool, i: int)
    requires
        is_first(s, p, i),
    ensures
        first_index(s, p) == Some(i),
{
    let c = choose|k: int| is_first(s, p, k);
    assert(is_first(s, p, c));
    if c < i {
        assert(!p(s[c]));
    } else if c > i {
        assert(!p(s[i]));
    }
}

proof fn lemma_first_index_none<A>(s: Seq<A>, p: spec_fn(A) -> bool)
    requires
        forall|j: int| 0 <= j < s.len() ==> !p(#[trigger] s[j]),
    ensures
        first_index(s, p) is None,
{
    if exists|i: int| is_first(s, p, i) {
        let c = choose|k: int| is_first(s, p, k);
        assert(p(s[c]));
    }
}

/// The node is an element with local name `name`.
pub open spec fn is_element_named(node: PomNode, name: Seq<char>) -> bool {
    match node {
        PomNode::Element(e) => e.name@ == name,
        _ => false,
    }
}

/// The element that the node is (any element where it is none).
pub open spec fn element_of(node: PomNode) -> PomElement {
    match node {
        PomNode::Element(e) => e,
        _ => arbitrary(),
    }
}

/// Index of the first child element with local name `name`.
pub open spec fn first_named(children: Seq<PomNode>, name: Seq<char>) -> Option<int> {
    first_index(children, |n: PomNode| is_element_named(n, name))
}

/// What `first_named` gives: the first child element with the name, or none
/// where no child element has it.
proof fn lemma_first_named(children: Seq<PomNode>, name: Seq<char>)
    ensures
        match first_named(children, name) {
            Some(i) => {
                &&& 0 <= i < children.len()
                &&& is_element_named(children[i], name)
                &&& forall|j: int| 0 <= j < i ==> !is_element_named(#[trigger] children[j], name)
            },
            None => forall|j: int| 0 <= j < children.len() ==> !is_element_named(#[trigger] children[j], name),
        },
{
    let p = |n: PomNode| is_element_named(n, name);
    lemma_first_index(children, p);
    match first_named(children, name) {
        Some(i) => {
            assert forall|j: int| 0 <= j < i implies !is_element_named(#[trigger] children[j], name) by {
                assert(!p(children[j]));
            }
        },
        None => {
            assert forall|j: int| 0 <= j < children.len() implies !is_element_named(#[trigger] children[j], name) by {
                assert(!p(children[j]));
            }
        },
    }
}

/// Finds the first child element with local name `name`.
pub fn find_child(children: &Vec<PomNode>, name: &str) -> (r: Option<usize>)
    ensures
        match r {
            Some(i) => first_named(children@, name@) == Some(i as int),
            None => first_named(children@, name@) is None,
        },
{
    let ghost p = |n: PomNode| is_element_named(n, name@);
    let mut i: usize = 0;
    while i < children.len()
        invariant
            0 <= i <= children@.len(),
            p == (|n: PomNode| is_element_named(n, name@)),
            forall|j: int| 0 <= j < i ==> !p(#[trigger] children@[j]),
        decreases children@.len() - i,
    {
        let found = match &children[i] {
            PomNode::Element(e) => str_equal(e.name.as_str(), name),
            _ => false,
        };
        if found {
            proof {
                lemma_first_index_at(children@, p, i as int);
            }
            return Some(i);
        }
        i = i + 1;
    }
    proof {
        lemma_first_index_none(children@, p);
    }
    None
}

/// The texts of the text and CDATA nodes, in order.
pub open spec fn text_pieces(children: Seq<PomNode>) -> Seq<Seq<char>>
    decreases children.len(),
{
    if children.len() == 0 {
        Seq::empty()
    } else {
        let rest = text_pieces(children.drop_last());
        match children.last() {
            PomNode::Text(t) => rest.push(t@),
            PomNode::CData(t) => rest.push(t@),
            _ => rest,
        }
    }
}

/// The pieces written one after another.
pub open spec fn joined(pieces: Seq<Seq<char>>) -> Seq<char>
    decreases pieces.len(),
{
    if pieces.len() == 0 {
        Seq::empty()
    } else {
        joined(pieces.drop_last()) + pieces.last()
    }
}

/// The text of an element: its text and CDATA children joined, or none
/// where it has no such child.
pub open spec fn element_text(e: PomElement) -> Option<Seq<char>> {
    let pieces = text_pieces(e.children@);
    if pieces.len() == 0 {
        None
    } else {
        Some(joined(pieces))
    }
}

/// The text of an element.
pub fn text_of(e: &PomElement) -> (r: Option<String>)
    ensures
        match r {
            Some(s) => element_text(*e) == Some(s@),
            None => element_text(*e) is None,
        },
{
    let mut acc = String::new();
    let mut count: usize = 0;
    let mut i: usize = 0;
    while i < e.children.len()
        invariant
            0 <= i <= e.children@.len(),
            count <= i,
            count == text_pieces(e.children@.take(i as int)).len(),
            acc@ == joined(text_pieces(e.children@.take(i as int))),
        decreases e.children@.len() - i,
    {
        let ghost before = text_pieces(e.children@.take(i as int));
        assert(e.children@.take(i as int + 1).drop_last() =~= e.children@.take(i as int));
        match &e.children[i] {
            PomNode::Text(t) => {
                acc = concat_str(acc.as_str(), t.as_str());
                count = count + 1;
                assert(before.push(t@).drop_last() =~= before);
            },
            PomNode::CData(t) => {
                acc = concat_str(acc.as_str(), t.as_str());
                count = count + 1;
                assert(before.push(t@).drop_last() =~= before);
            },
            _ => {},
        }
        i = i + 1;
    }
    assert(e.children@.take(e.children@.len() as int) =~= e.children@);
    if count == 0 {
        None
    } else {
        Some(acc)
    }
}

/// The text of the element's first `artifactId` child, where it has one
/// with a text.
pub open spec fn artifact_of(e: PomElement) -> Option<Seq<char>> {
    match first_named(e.children@, "artifactId"@) {
        Some(i) => element_text(element_of(e.children@[i])),
        None => None,
    }
}

/// The artifact of a node that is an element.
pub open spec fn node_artifact(node: PomNode) -> Option<Seq<char>> {
    match node {
        PomNode::Element(d) => artifact_of(d),
        _ => None,
    }
}

/// Some child element of `e` names the artifact `artifact`.
pub open spec fn contains_artifact(e: PomElement, artifact: Seq<char>) -> bool {
    exists|i: int| 0 <= i < e.children@.len() && #[trigger] node_artifact(e.children@[i]) == Some(artifact)
}

/// The artifact that an element names.
pub fn artifact_id(e: &PomElement) -> (r: Option<String>)
    ensures
        match r {
            Some(s) => artifact_of(*e) == Some(s@),
            None => artifact_of(*e) is None,
        },
{
    match find_child(&e.children, "artifactId") {
        Some(i) => match &e.children[i] {
            PomNode::Element(a) => text_of(a),
            _ => None,
        },
        None => None,
    }
}

/// Whether some child element of `e` names the artifact `artifact`.
pub fn has_artifact(e: &PomElement, artifact: &str) -> (r: bool)
    ensures
        r == contains_artifact(*e, artifact@),
{
    let mut i: usize = 0;
    while i < e.children.len()
        invariant
            0 <= i <= e.children@.len(),
            forall|j: int| 0 <= j < i ==> #[trigger] node_artifact(e.children@[j]) != Some(artifact@),
        decreases e.children@.len() - i,
    {
        let named = match &e.children[i] {
            PomNode::Element(d) => match artifact_id(d) {
                Some(a) => str_equal(a.as_str(), artifact),
                None => false,
            },
            _ => false,
        };
        if named {
            assert(node_artifact(e.children@[i as int]) == Some(artifact@));
            return true;
        }
        i = i + 1;
    }
    false
}

proof fn lemma_first_exists<A>(s: Seq<A>, p: spec_fn(A) -> bool, j: int)
    requires
        0 <= j < s.len(),
        p(s[j]),
    ensures
        exists|i: int| is_first(s, p, i),
    decreases j,
{
    if exists|k: int| 0 <= k < j && p(s[k]) {
        let k = choose|k: int| 0 <= k < j && p(s[k]);
        lemma_first_exists(s, p, k);
    } else {
        assert(is_first(s, p, j));
    }
}

/// What `first_index` gives: the first satisfying index, or none where no
/// item satisfies `p`.
proof fn lemma_first_index<A>(s: Seq<A>, p: spec_fn(A) -> bool)
    ensures
        match first_index(s, p) {
            Some(i) => is_first(s, p, i),
            None => forall|j: int| 0 <= j < s.len() ==> !p(#[trigger] s[j]),
        },
{
    if !exists|i: int| is_first(s, p, i) {
        assert forall|j: int| 0 <= j < s.len() implies !p(#[trigger] s[j]) by {
            if p(s[j]) {
                lemma_first_exists(s, p, j);
            }
        }
    }
}

/// Two sequences whose items satisfy `p` at the same indices have the same
/// first satisfying index.
proof fn lemma_first_index_same<A>(a: Seq<A>, b: Seq<A>, p: spec_fn(A) -> bool)
    requires
        a.len() == b.len(),
        forall|j: int| 0 <= j < a.len() ==> p(#[trigger] a[j]) == p(b[j]),
    ensures
        first_index(a, p) == first_index(b, p),
{
    lemma_first_index(a, p);
    match first_index(a, p) {
        Some(i) => {
            assert forall|j: int| 0 <= j < i implies !p(#[trigger] b[j]) by {
                assert(p(a[j]) == p(b[j]));
            }
            lemma_first_index_at(b, p, i);
        },
        None => {
            assert forall|j: int| 0 <= j < b.len() implies !p(#[trigger] b[j]) by {
                assert(p(a[j]) == p(b[j]));
            }
            lemma_first_index_none(b, p);
        },
    }
}

/// Why a Maven project file cannot be adapted.
#[derive(Debug, Clone, Copy, PartialEq, Eq, Structural)]
pub enum PomError {
    /// The root element is not `project`.
    NotProject,
    /// The project has no `dependencies` element.
    NoDependencies,
    /// The maintained build section has no `plugins` element.
    NoMaintainedPlugins,
    /// The project file is not XML that `xmltree` reads.
    UnreadableProject,
    /// The maintained build section is not XML that `xmltree` reads.
    UnreadableFragment,
    /// The adapted project cannot be written out.
    Unwritable,
}

/// The namespace of XML Schema instance attributes.
pub const SCHEMA_INSTANCE: &'static str = "http://www.w3.org/2001/XMLSchema-instance";

/// A namespace binding of a named prefix to XML Schema instance.
pub open spec fn is_schema_binding(n: (String, String)) -> bool {
    n.0@.len() > 0 && n.1@ == SCHEMA_INSTANCE@
}

/// The first named prefix bound to XML Schema instance.
pub open spec fn schema_prefix(namespaces: Option<Vec<(String, String)>>) -> Option<Seq<char>> {
    match namespaces {
        None => None,
        Some(v) => match first_index(v@, |n: (String, String)| is_schema_binding(n)) {
            Some(i) => Some(v@[i].0@),
            None => None,
        },
    }
}

fn find_schema_prefix(namespaces: &Option<Vec<(String, String)>>) -> (r: Option<String>)
    ensures
        match r {
            Some(p) => schema_prefix(*namespaces) == Some(p@),
            None => schema_prefix(*namespaces) is None,
        },
{
    match namespaces {
        None => None,
        Some(v) => {
            let ghost p = |n: (String, String)| is_schema_binding(n);
            let mut i: usize = 0;
            while i < v.len()
                invariant
                    0 <= i <= v@.len(),
                    *namespaces == Some(*v),
                    p == (|n: (String, String)| is_schema_binding(n)),
                    forall|j: int| 0 <= j < i ==> !p(#[trigger] v@[j]),
                decreases v@.len() - i,
            {
                if chars_of(v[i].0.as_str()).len() > 0 && str_equal(v[i].1.as_str(), SCHEMA_INSTANCE) {
                    proof {
                        lemma_first_index_at(v@, p, i as int);
                    }
                    return Some(v[i].0.clone());
                }
                i = i + 1;
            }
            proof {
                lemma_first_index_none(v@, p);
            }
            None
        },
    }
}

/// The attributes as (name, value) texts.
pub open spec fn attribute_views(attrs: Seq<(String, String)>) -> Seq<(Seq<char>, Seq<char>)> {
    attrs.map_values(|a: (String, String)| (a.0@, a.1@))
}

/// Index of the attribute named `name`.
pub open spec fn attribute_index(attrs: Seq<(Seq<char>, Seq<char>)>, name: Seq<char>) -> Option<int> {
    first_index(attrs, |a: (Seq<char>, Seq<char>)| a.0 == name)
}

/// The attributes with `name` set to `value`: the value replaced where the
/// name is there, the attribute added last where it is not.
pub open spec fn put_attribute(
    attrs: Seq<(Seq<char>, Seq<char>)>,
    name: Seq<char>,
    value: Seq<char>,
) -> Seq<(Seq<char>, Seq<char>)> {
    match attribute_index(attrs, name) {
        Some(i) => attrs.update(i, (name, value)),
        None => attrs.push((name, value)),
    }
}

/// The attributes with an unprefixed `schemaLocation` moved under the XML
/// Schema instance prefix, where the element binds one.
pub open spec fn relocated_attributes(
    attrs: Seq<(Seq<char>, Seq<char>)>,
    prefix: Option<Seq<char>>,
) -> Seq<(Seq<char>, Seq<char>)> {
    match prefix {
        None => attrs,
        Some(p) => match attribute_index(attrs, "schemaLocation"@) {
            None => attrs,
            Some(i) => put_attribute(attrs.remove(i), p + ":schemaLocation"@, attrs[i].1),
        },
    }
}

fn find_attribute(attrs: &Vec<(String, String)>, name: &str) -> (r: Option<usize>)
    ensures
        match r {
            Some(i) => attribute_index(attribute_views(attrs@), name@) == Some(i as int),
            None => attribute_index(attribute_views(attrs@), name@) is None,
        },
{
    let ghost views = attribute_views(attrs@);
    let ghost p = |a: (Seq<char>, Seq<char>)| a.0 == name@;
    let mut i: usize = 0;
    while i < attrs.len()
        invariant
            0 <= i <= attrs@.len(),
            views == attribute_views(attrs@),
            p == (|a: (Seq<char>, Seq<char>)| a.0 == name@),
            forall|j: int| 0 <= j < i ==> !p(#[trigger] views[j]),
        decreases attrs@.len() - i,
    {
        if str_equal(attrs[i].0.as_str(), name) {
            proof {
                lemma_first_index_at(views, p, i as int);
            }
            return Some(i);
        }
        i = i + 1;
    }
    proof {
        lemma_first_index_none(views, p);
    }
    None
}

fn relocate_schema_location(namespaces: &Option<Vec<(String, String)>>, attrs: Vec<(String, String)>) -> (r: Vec<(String, String)>)
    ensures
        attribute_views(r@) == relocated_attributes(attribute_views(attrs@), schema_prefix(*namespaces)),
{
    let mut attrs = attrs;
    let ghost before = attribute_views(attrs@);
    let prefix = match find_schema_prefix(namespaces) {
        Some(p) => p,
        None => return attrs,
    };
    let i = match find_attribute(&attrs, "schemaLocation") {
        Some(i) => i,
        None => return attrs,
    };
    let (_, value) = attrs.remove(i);
    assert(attribute_views(attrs@) =~= before.remove(i as int));
    let name = concat_str(prefix.as_str(), ":schemaLocation");
    let ghost removed = attribute_views(attrs@);
    match find_attribute(&attrs, name.as_str()) {
        Some(k) => {
            attrs.set(k, (name, value));
            assert(attribute_views(attrs@) =~= removed.update(k as int, (name@, value@)));
        },
        None => {
            attrs.push((name, value));
            assert(attribute_views(attrs@) =~= removed.push((name@, value@)));
        },
    }
    attrs
}

/// A fresh element: a local name and no namespace or attribute.
pub open spec fn is_bare(e: PomElement, name: Seq<char>) -> bool {
    &&& e.prefix is None
    &&& e.namespace is None
    &&& e.namespaces is None
    &&& e.name@ == name
    &&& e.attributes@.len() == 0
}

/// An element of one text.
pub open spec fn is_text_element(e: PomElement, name: Seq<char>, text: Seq<char>) -> bool {
    &&& is_bare(e, name)
    &&& e.children@.len() == 1
    &&& e.children@[0] matches PomNode::Text(t) && t@ == text
}

/// The dependency on commons-cli 1.3.1, which the arena's entry point uses.
pub open spec fn is_cli_dependency(e: PomElement) -> bool {
    &&& is_bare(e, "dependency"@)
    &&& e.children@.len() == 3
    &&& e.children@[0] matches PomNode::Element(g) && is_text_element(g, "groupId"@, "commons-cli"@)
    &&& e.children@[1] matches PomNode::Element(a) && is_text_element(a, "artifactId"@, "commons-cli"@)
    &&& e.children@[2] matches PomNode::Element(v) && is_text_element(v, "version"@, "1.3.1"@)
}

fn bare_element(name: &str, children: Vec<PomNode>) -> (r: PomElement)
    ensures
        is_bare(r, name@),
        r.children == children,
{
    PomElement {
        prefix: None,
        namespace: None,
        namespaces: None,
        name: name.to_string(),
        attributes: Vec::new(),
        children,
    }
}

fn text_element(name: &str, text: &str) -> (r: PomElement)
    ensures
        is_text_element(r, name@, text@),
{
    let mut children: Vec<PomNode> = Vec::new();
    children.push(PomNode::Text(text.to_string()));
    bare_element(name, children)
}

fn cli_dependency() -> (r: PomElement)
    ensures
        is_cli_dependency(r),
{
    let mut children: Vec<PomNode> = Vec::new();
    children.push(PomNode::Element(text_element("groupId", "commons-cli")));
    children.push(PomNode::Element(text_element("artifactId", "commons-cli")));
    children.push(PomNode::Element(text_element("version", "1.3.1")));
    bare_element("dependency", children)
}

/// Same element but for its children.
pub open spec fn same_header(a: PomElement, b: PomElement) -> bool {
    &&& a.prefix == b.prefix
    &&& a.namespace == b.namespace
    &&& a.namespaces == b.namespaces
    &&& a.name == b.name
    &&& a.attributes == b.attributes
}

/// `after` is `before` with `added` after its children.
pub open spec fn extended(before: PomElement, after: PomElement, added: Seq<PomNode>) -> bool {
    same_header(before, after) && after.children@ == before.children@ + added
}

/// The project's dependencies, completed with commons-cli where no
/// dependency names that artifact.
pub open spec fn dependencies_completed(before: PomElement, after: PomElement) -> bool {
    if contains_artifact(before, "commons-cli"@) {
        after == before
    } else {
        &&& same_header(before, after)
        &&& after.children@.len() == before.children@.len() + 1
        &&& after.children@.drop_last() == before.children@
        &&& after.children@.last() matches PomNode::Element(c) && is_cli_dependency(c)
    }
}

/// Some node of `nodes` is an element that names the artifact `artifact`.
pub open spec fn names_artifact(nodes: Seq<PomNode>, artifact: Seq<char>) -> bool {
    exists|i: int| 0 <= i < nodes.len() && #[trigger] node_artifact(nodes[i]) == Some(artifact)
}

/// The maintained plugins that the project lacks: in order, those of
/// `maintained` that name an artifact that no node of `existing` names.
pub open spec fn missing_plugins(maintained: Seq<PomNode>, existing: Seq<PomNode>) -> Seq<PomNode>
    decreases maintained.len(),
{
    if maintained.len() == 0 {
        Seq::empty()
    } else {
        let rest = missing_plugins(maintained.drop_last(), existing);
        match node_artifact(maintained.last()) {
            Some(a) => if names_artifact(existing, a) {
                rest
            } else {
                rest.push(maintained.last())
            },
            None => rest,
        }
    }
}

/// The children of a build element after its plugins were completed: the
/// first `plugins` element extended by the missing maintained plugins, or a
/// new `plugins` element of them added last.
pub open spec fn plugins_completed(before: Seq<PomNode>, after: Seq<PomNode>, maintained: Seq<PomNode>) -> bool {
    match first_named(before, "plugins"@) {
        Some(k) => {
            &&& after.len() == before.len()
            &&& forall|j: int| 0 <= j < before.len() && j != k ==> after[j] == before[j]
            &&& after[k] matches PomNode::Element(p) && extended(
                element_of(before[k]),
                p,
                missing_plugins(maintained, element_of(before[k]).children@),
            )
        },
        None => {
            &&& after.len() == before.len() + 1
            &&& after.drop_last() == before
            &&& after.last() matches PomNode::Element(p) && is_bare(p, "plugins"@) && p.children@ == missing_plugins(
                maintained,
                Seq::empty(),
            )
        },
    }
}

/// The project file adapted to the arena: the schema location under its
/// prefix, commons-cli among the dependencies, and the maintained plugins in
/// the build (each element created where it is missing).
pub open spec fn adapted_project(before: PomElement, maintained: PomElement, after: PomElement) -> bool {
    let n = before.children@.len() as int;
    let d = first_named(before.children@, "dependencies"@)->0;
    let b = first_named(before.children@, "build"@);
    &&& after.prefix == before.prefix
    &&& after.namespace == before.namespace
    &&& after.namespaces == before.namespaces
    &&& after.name == before.name
    &&& attribute_views(after.attributes@) == relocated_attributes(
        attribute_views(before.attributes@),
        schema_prefix(before.namespaces),
    )
    &&& after.children@.len() == if b is Some { n } else { n + 1 }
    &&& forall|j: int| 0 <= j < n && j != d && b != Some(j) ==> after.children@[j] == before.children@[j]
    &&& after.children@[d] matches PomNode::Element(deps) && dependencies_completed(element_of(before.children@[d]), deps)
    &&& match b {
        Some(b) => after.children@[b] matches PomNode::Element(build) && same_header(element_of(before.children@[b]), build)
            && plugins_completed(element_of(before.children@[b]).children@, build.children@, maintained.children@),
        None => after.children@[n] matches PomNode::Element(build) && is_bare(build, "build"@) && plugins_completed(
            Seq::empty(),
            build.children@,
            maintained.children@,
        ),
    }
}

/// The first child element named `name`, added as a fresh empty element
/// where there is none: the children and that child's index.
fn ensure_child(children: Vec<PomNode>, name: &str) -> (r: (Vec<PomNode>, usize))
    ensures
        first_named(r.0@, name@) == Some(r.1 as int),
        match first_named(children@, name@) {
            Some(k) => r.0@ == children@ && r.1 == k,
            None => {
                &&& r.0@.len() == children@.len() + 1
                &&& r.0@.drop_last() == children@
                &&& r.0@.last() matches PomNode::Element(e) && is_bare(e, name@) && e.children@.len() == 0
                &&& r.1 == children@.len()
            },
        },
{
    let mut children = children;
    match find_child(&children, name) {
        Some(k) => (children, k),
        None => {
            let ghost before = children@;
            let i = children.len();
            children.push(PomNode::Element(bare_element(name, Vec::new())));
            proof {
                let p = |n: PomNode| is_element_named(n, name@);
                lemma_first_index(before, p);
                assert forall|j: int| 0 <= j < i implies !p(#[trigger] children@[j]) by {
                    assert(children@[j] == before[j]);
                }
                lemma_first_index_at(children@, p, i as int);
                assert(children@.drop_last() =~= before);
            }
            (children, i)
        },
    }
}

/// Moves the element at `i` out of the children.
fn take_element(children: Vec<PomNode>, i: usize) -> (r: (Vec<PomNode>, PomElement))
    requires
        i < children@.len(),
        children@[i as int] is Element,
    ensures
        r.0@ == children@.remove(i as int),
        r.1 == element_of(children@[i as int]),
{
    let mut children = children;
    let node = children.remove(i);
    match node {
        PomNode::Element(e) => (children, e),
        _ => (children, bare_element("", Vec::new())),
    }
}

/// The dependencies with commons-cli added last where none names it.
fn complete_dependencies(dependencies: PomElement) -> (r: PomElement)
    ensures
        dependencies_completed(dependencies, r),
{
    if has_artifact(&dependencies, "commons-cli") {
        return dependencies;
    }
    let PomElement { prefix, namespace, namespaces, name, attributes, children } = dependencies;
    let mut children = children;
    let ghost before = children@;
    children.push(PomNode::Element(cli_dependency()));
    assert(children@.drop_last() =~= before);
    PomElement { prefix, namespace, namespaces, name, attributes, children }
}

/// Whether some node of `nodes` names the artifact `artifact`.
fn nodes_name_artifact(nodes: &Vec<PomNode>, artifact: &str) -> (r: bool)
    ensures
        r == names_artifact(nodes@, artifact@),
{
    let mut i: usize = 0;
    while i < nodes.len()
        invariant
            0 <= i <= nodes@.len(),
            forall|j: int| 0 <= j < i ==> #[trigger] node_artifact(nodes@[j]) != Some(artifact@),
        decreases nodes@.len() - i,
    {
        let named = match &nodes[i] {
            PomNode::Element(d) => match artifact_id(d) {
                Some(a) => str_equal(a.as_str(), artifact),
                None => false,
            },
            _ => false,
        };
        if named {
            assert(node_artifact(nodes@[i as int]) == Some(artifact@));
            return true;
        }
        i = i + 1;
    }
    false
}

/// The artifact that a node names.
fn node_artifact_id(node: &PomNode) -> (r: Option<String>)
    ensures
        match r {
            Some(s) => node_artifact(*node) == Some(s@),
            None => node_artifact(*node) is None,
        },
{
    match node {
        PomNode::Element(d) => artifact_id(d),
        _ => None,
    }
}

/// The plugins element extended by the maintained plugins that it lacks.
fn add_missing_plugins(plugins: PomElement, maintained: Vec<PomNode>) -> (r: PomElement)
    ensures
        extended(plugins, r, missing_plugins(maintained@, plugins.children@)),
{
    let PomElement { prefix, namespace, namespaces, name, attributes, children } = plugins;
    let ghost existing = children@;
    let ghost all = maintained@;
    let mut rest = maintained;
    let mut added: Vec<PomNode> = Vec::new();
    let mut i: usize = 0;
    let total = rest.len();
    assert(total == all.len());
    assert(all.skip(0) =~= all);
    assert(all.take(0) =~= Seq::<PomNode>::empty());
    while rest.len() > 0
        invariant
            existing == children@,
            all.len() <= usize::MAX,
            i + rest@.len() == all.len(),
            rest@ == all.skip(i as int),
            added@ == missing_plugins(all.take(i as int), existing),
        decreases rest@.len(),
    {
        let node = rest.remove(0);
        assert(node == all[i as int]);
        assert(all.take(i as int + 1).drop_last() =~= all.take(i as int));
        assert(all.take(i as int + 1).last() == node);
        match node_artifact_id(&node) {
            Some(a) => {
                if !nodes_name_artifact(&children, a.as_str()) {
                    added.push(node);
                }
            },
            None => {},
        }
        i = i + 1;
        assert(rest@ =~= all.skip(i as int));
    }
    assert(all.take(i as int) =~= all);
    let mut children = children;
    children.append(&mut added);
    PomElement { prefix, namespace, namespaces, name, attributes, children }
}

/// The build element with its plugins completed.
fn complete_build(build: PomElement, maintained: Vec<PomNode>) -> (r: PomElement)
    ensures
        same_header(build, r),
        plugins_completed(build.children@, r.children@, maintained@),
{
    let PomElement { prefix, namespace, namespaces, name, attributes, children } = build;
    let ghost before = children@;
    let (children, k) = ensure_child(children, "plugins");
    proof {
        lemma_first_named(children@, "plugins"@);
    }
    let (children, plugins) = take_element(children, k);
    let ghost old_plugins = plugins;
    let plugins = add_missing_plugins(plugins, maintained);
    let mut children = children;
    let ghost taken = children@;
    children.insert(k, PomNode::Element(plugins));
    let r = PomElement { prefix, namespace, namespaces, name, attributes, children };
    proof {
        match first_named(before, "plugins"@) {
            Some(j) => {
                assert(r.children@ =~= before.update(j, PomNode::Element(plugins)));
            },
            None => {
                assert(old_plugins.children@ =~= Seq::<PomNode>::empty());
                assert(r.children@.drop_last() =~= before);
            },
        }
    }
    r
}

proof fn lemma_build_is_not_dependencies()
    ensures
        "build"@ != "dependencies"@,
{
    reveal_strlit("build");
    reveal_strlit("dependencies");
    assert("build"@[0] != "dependencies"@[0]);
}

/// Adapts a referee's Maven project file to the arena: the unprefixed
/// `schemaLocation` attribute of the project moves under the prefix bound to
/// XML Schema instance, commons-cli joins the dependencies unless one names
/// it, and each plugin of the maintained build section (`fragment`) whose
/// artifact the build's plugins do not name yet is added to them, the
/// `build` and `plugins` elements being created where missing.
pub fn adapt_pom(project: PomElement, fragment: PomElement) -> (r: Result<PomElement, PomError>)
    ensures
        project.name@ != "project"@ ==> r == Err::<PomElement, PomError>(PomError::NotProject),
        project.name@ == "project"@ && first_named(project.children@, "dependencies"@) is None ==> r == Err::<
            PomElement,
            PomError,
        >(PomError::NoDependencies),
        project.name@ == "project"@ && first_named(project.children@, "dependencies"@) is Some && first_named(
            fragment.children@,
            "plugins"@,
        ) is None ==> r == Err::<PomElement, PomError>(PomError::NoMaintainedPlugins),
        project.name@ == "project"@ && first_named(project.children@, "dependencies"@) is Some && first_named(
            fragment.children@,
            "plugins"@,
        ) is Some ==> (r matches Ok(after) && adapted_project(
            project,
            element_of(fragment.children@[first_named(fragment.children@, "plugins"@)->0]),
            after,
        )),
{
    if !str_equal(project.name.as_str(), "project") {
        return Err(PomError::NotProject);
    }
    let ghost before = project;
    let PomElement { prefix, namespace, namespaces, name, attributes, children } = project;
    let attributes = relocate_schema_location(&namespaces, attributes);
    let d = match find_child(&children, "dependencies") {
        Some(d) => d,
        None => return Err(PomError::NoDependencies),
    };
    proof {
        lemma_first_named(children@, "dependencies"@);
    }
    let (children, dependencies) = take_element(children, d);
    let ghost old_dependencies = dependencies;
    let dependencies = complete_dependencies(dependencies);
    let mut children = children;
    children.insert(d, PomNode::Element(dependencies));
    assert(children@ =~= before.children@.update(d as int, PomNode::Element(dependencies)));
    let pi = match find_child(&fragment.children, "plugins") {
        Some(i) => i,
        None => return Err(PomError::NoMaintainedPlugins),
    };
    proof {
        lemma_first_named(fragment.children@, "plugins"@);
    }
    let PomElement { children: fragment_children, .. } = fragment;
    let (_, maintained) = take_element(fragment_children, pi);
    let ghost maintained_element = maintained;
    proof {
        lemma_first_index_same(
            before.children@,
            children@,
            |n: PomNode| is_element_named(n, "build"@),
        );
    }
    let ghost with_dependencies = children@;
    let (children, b) = ensure_child(children, "build");
    proof {
        lemma_first_named(children@, "build"@);
    }
    let ghost ensured = children@;
    let (children, build) = take_element(children, b);
    let ghost old_build = build;
    let build = complete_build(build, maintained.children);
    let mut children = children;
    children.insert(b, PomNode::Element(build));
    assert(children@ =~= ensured.update(b as int, PomNode::Element(build)));
    let r = PomElement { prefix, namespace, namespaces, name, attributes, children };
    proof {
        assert(old_dependencies == element_of(before.children@[d as int]));
        assert(is_element_named(before.children@[d as int], "dependencies"@));
        assert(with_dependencies[d as int] == PomNode::Element(dependencies));
        assert(ensured[d as int] == PomNode::Element(dependencies));
        assert(dependencies.name@ == "dependencies"@);
        lemma_build_is_not_dependencies();
        assert(is_element_named(ensured[b as int], "build"@));
        assert(is_element_named(ensured[d as int], "dependencies"@));
        assert(b != d);
        assert(r.children@[d as int] == PomNode::Element(dependencies));
        match first_named(before.children@, "build"@) {
            Some(k) => {
                assert(ensured == with_dependencies);
                assert(b == k);
                assert(with_dependencies[k] == before.children@[k]);
                assert(old_build == element_of(before.children@[k]));
            },
            None => {
                assert(b as int == before.children@.len());
                assert(old_build.children@ =~= Seq::<PomNode>::empty());
            },
        }
    }
    Ok(r)
}

proof fn lemma_names_artifact_concat(a: Seq<PomNode>, b: Seq<PomNode>, artifact: Seq<char>)
    requires
        names_artifact(a, artifact) || names_artifact(b, artifact),
    ensures
        names_artifact(a + b, artifact),
{
    if names_artifact(a, artifact) {
        let i = choose|i: int| 0 <= i < a.len() && #[trigger] node_artifact(a[i]) == Some(artifact);
        assert((a + b)[i] == a[i]);
    } else {
        let i = choose|i: int| 0 <= i < b.len() && #[trigger] node_artifact(b[i]) == Some(artifact);
        assert((a + b)[a.len() + i] == b[i]);
    }
}

/// Each maintained plugin that names an artifact is named afterwards: by
/// the existing plugins or by the added ones.
proof fn lemma_missing_plugins_cover(maintained: Seq<PomNode>, existing: Seq<PomNode>, m: int, artifact: Seq<char>)
    requires
        0 <= m < maintained.len(),
        node_artifact(maintained[m]) == Some(artifact),
    ensures
        names_artifact(existing + missing_plugins(maintained, existing), artifact),
    decreases maintained.len(),
{
    let rest = missing_plugins(maintained.drop_last(), existing);
    if m < maintained.len() - 1 {
        lemma_missing_plugins_cover(maintained.drop_last(), existing, m, artifact);
        assert(maintained.drop_last()[m] == maintained[m]);
        let full = missing_plugins(maintained, existing);
        if names_artifact(existing + rest, artifact) {
            let i = choose|i: int| 0 <= i < (existing + rest).len() && #[trigger] node_artifact((existing + rest)[i])
                == Some(artifact);
            if i < existing.len() {
                assert((existing + full)[i] == (existing + rest)[i]);
            } else {
                assert(full.len() >= rest.len());
                assert(full[i - existing.len()] == rest[i - existing.len()]);
                assert((existing + full)[i] == (existing + rest)[i]);
            }
        }
    } else {
        if !names_artifact(existing, artifact) {
            let full = missing_plugins(maintained, existing);
            assert(full == rest.push(maintained.last()));
            assert(node_artifact(full[full.len() - 1]) == Some(artifact));
            lemma_names_artifact_concat(existing, full, artifact);
        } else {
            lemma_names_artifact_concat(existing, missing_plugins(maintained, existing), artifact);
        }
    }
}

/// Nothing is missing where every maintained plugin that names an artifact
/// is named already.
proof fn lemma_missing_plugins_none(maintained: Seq<PomNode>, existing: Seq<PomNode>)
    requires
        forall|m: int| 0 <= m < maintained.len() && (#[trigger] node_artifact(maintained[m])) is Some ==> names_artifact(
            existing,
            node_artifact(maintained[m])->0,
        ),
    ensures
        missing_plugins(maintained, existing).len() == 0,
    decreases maintained.len(),
{
    if maintained.len() > 0 {
        assert forall|m: int|
            0 <= m < maintained.drop_last().len() && (#[trigger] node_artifact(maintained.drop_last()[m])) is Some implies names_artifact(
            existing,
            node_artifact(maintained.drop_last()[m])->0,
        ) by {
            assert(maintained.drop_last()[m] == maintained[m]);
        }
        lemma_missing_plugins_none(maintained.drop_last(), existing);
        assert(node_artifact(maintained[maintained.len() - 1]) == node_artifact(maintained.last()));
    }
}

proof fn lemma_cli_dependency_artifact(c: PomElement)
    requires
        is_cli_dependency(c),
    ensures
        artifact_of(c) == Some("commons-cli"@),
{
    reveal_strlit("groupId");
    reveal_strlit("artifactId");
    let children = c.children@;
    assert(!is_element_named(children[0], "artifactId"@)) by {
        assert("groupId"@[0] != "artifactId"@[0]);
    }
    assert(is_element_named(children[1], "artifactId"@));
    lemma_first_index_at(children, |n: PomNode| is_element_named(n, "artifactId"@), 1);
    let a = element_of(children[1]);
    assert(text_pieces(a.children@.drop_last()) =~= Seq::<Seq<char>>::empty());
    assert(text_pieces(a.children@) =~= seq!["commons-cli"@]);
    let pieces = seq!["commons-cli"@];
    assert(pieces.drop_last() =~= Seq::<Seq<char>>::empty());
    assert(joined(pieces.drop_last()) == Seq::<char>::empty());
    assert(pieces.last() == "commons-cli"@);
    assert(joined(pieces) == joined(pieces.drop_last()) + pieces.last());
    assert(joined(pieces) =~= "commons-cli"@);
}

/// The first child named `name` stays where it was when children are only
/// replaced by others of the same names and further children are added.
proof fn lemma_first_named_kept(before: Seq<PomNode>, after: Seq<PomNode>, name: Seq<char>)
    requires
        before.len() <= after.len(),
        forall|j: int| 0 <= j < before.len() ==> is_element_named(#[trigger] after[j], name) == is_element_named(
            before[j],
            name,
        ),
        first_named(before, name) is Some,
    ensures
        first_named(after, name) == first_named(before, name),
{
    lemma_first_named(before, name);
    let i = first_named(before, name)->0;
    assert forall|j: int| 0 <= j < i implies !(|n: PomNode| is_element_named(n, name))(#[trigger] after[j]) by {
        assert(is_element_named(after[j], name) == is_element_named(before[j], name));
    }
    lemma_first_index_at(after, |n: PomNode| is_element_named(n, name), i);
}

/// Adapting an adapted project adds nothing: its dependencies name
/// commons-cli, and its build has a `plugins` element that lacks none of
/// the maintained plugins.
pub proof fn lemma_adaptation_adds_nothing_twice(project: PomElement, maintained: PomElement, once: PomElement)
    requires
        first_named(project.children@, "dependencies"@) is Some,
        adapted_project(project, maintained, once),
    ensures
        first_named(once.children@, "dependencies"@) == first_named(project.children@, "dependencies"@),
        contains_artifact(
            element_of(once.children@[first_named(once.children@, "dependencies"@)->0]),
            "commons-cli"@,
        ),
        first_named(once.children@, "build"@) is Some,
        first_named(element_of(once.children@[first_named(once.children@, "build"@)->0]).children@, "plugins"@) is Some,
        missing_plugins(
            maintained.children@,
            element_of(
                element_of(once.children@[first_named(once.children@, "build"@)->0]).children@[first_named(
                    element_of(once.children@[first_named(once.children@, "build"@)->0]).children@,
                    "plugins"@,
                )->0],
            ).children@,
        ).len() == 0,
{
    let before = project.children@;
    let after = once.children@;
    let n = before.len() as int;
    let d = first_named(before, "dependencies"@)->0;
    let b = first_named(before, "build"@);
    lemma_first_named(before, "dependencies"@);
    lemma_first_named(before, "build"@);
    lemma_build_is_not_dependencies();
    let deps = element_of(after[d]);
    assert(deps.name == element_of(before[d]).name);
    // Names are kept at every index of the original children.
    assert forall|j: int| 0 <= j < n implies #[trigger] element_name_kept(before[j], after[j]) by {
        if j == d {
        } else if b == Some(j) {
        } else {
            assert(after[j] == before[j]);
        }
    }
    assert forall|j: int| 0 <= j < n implies is_element_named(#[trigger] after[j], "dependencies"@)
        == is_element_named(before[j], "dependencies"@) by {
        assert(element_name_kept(before[j], after[j]));
    }
    lemma_first_named_kept(before, after, "dependencies"@);
    // The dependencies name commons-cli.
    let old_deps = element_of(before[d]);
    if !contains_artifact(old_deps, "commons-cli"@) {
        let last = deps.children@.len() - 1;
        assert(deps.children@[last] == deps.children@.last());
        lemma_cli_dependency_artifact(element_of(deps.children@.last()));
        assert(node_artifact(deps.children@[last]) == Some("commons-cli"@));
    }
    // The build and its plugins.
    let m = maintained.children@;
    match b {
        Some(k) => {
            assert forall|j: int| 0 <= j < n implies is_element_named(#[trigger] after[j], "build"@)
                == is_element_named(before[j], "build"@) by {
                assert(element_name_kept(before[j], after[j]));
            }
            lemma_first_named_kept(before, after, "build"@);
            let old_build = element_of(before[k]);
            let build = element_of(after[k]);
            lemma_plugins_stable(old_build.children@, build.children@, m);
        },
        None => {
            assert forall|j: int| 0 <= j < n implies !(|x: PomNode| is_element_named(x, "build"@))(#[trigger] after[j]) by {
                assert(element_name_kept(before[j], after[j]));
            }
            lemma_first_index_at(after, |x: PomNode| is_element_named(x, "build"@), n);
            let build = element_of(after[n]);
            lemma_plugins_stable(Seq::empty(), build.children@, m);
        },
    }
}

/// The node is an element exactly when the other is, with the same name.
pub open spec fn element_name_kept(a: PomNode, b: PomNode) -> bool {
    &&& (a is Element) == (b is Element)
    &&& a is Element ==> element_of(a).name == element_of(b).name
}

proof fn lemma_plugins_stable(before: Seq<PomNode>, after: Seq<PomNode>, maintained: Seq<PomNode>)
    requires
        plugins_completed(before, after, maintained),
    ensures
        first_named(after, "plugins"@) is Some,
        missing_plugins(maintained, element_of(after[first_named(after, "plugins"@)->0]).children@).len() == 0,
{
    lemma_first_named(before, "plugins"@);
    let (k, existing) = match first_named(before, "plugins"@) {
        Some(k) => {
            assert forall|j: int| 0 <= j < k implies !(|x: PomNode| is_element_named(x, "plugins"@))(#[trigger] after[j]) by {
                assert(after[j] == before[j]);
            }
            lemma_first_index_at(after, |x: PomNode| is_element_named(x, "plugins"@), k);
            (k, element_of(before[k]).children@)
        },
        None => {
            let n = before.len() as int;
            assert forall|j: int| 0 <= j < n implies !(|x: PomNode| is_element_named(x, "plugins"@))(#[trigger] after[j]) by {
                assert(after[j] == after.drop_last()[j]);
            }
            assert(after[n] == after.last());
            lemma_first_index_at(after, |x: PomNode| is_element_named(x, "plugins"@), n);
            (n, Seq::<PomNode>::empty())
        },
    };
    let now = element_of(after[k]).children@;
    assert(now == existing + missing_plugins(maintained, existing)) by {
        if first_named(before, "plugins"@) is None {
            assert(existing + missing_plugins(maintained, existing) =~= missing_plugins(maintained, existing));
        }
    }
    assert forall|i: int| 0 <= i < maintained.len() && (#[trigger] node_artifact(maintained[i])) is Some implies names_artifact(
        now,
        node_artifact(maintained[i])->0,
    ) by {
        lemma_missing_plugins_cover(maintained, existing, i, node_artifact(maintained[i])->0);
    }
    lemma_missing_plugins_none(maintained, now);
}

#[verifier::external_type_specification]
#[verifier::external_body]
pub struct ExXmlElement(xmltree::Element);

#[verifier::external_type_specification]
#[verifier::external_body]
pub struct ExXmlNode(xmltree::XMLNode);

/// The element tree that `xmltree` reads from `source`, or none where it
/// refuses it.
pub uninterp spec fn pom_parse(source: Seq<u8>) -> Option<PomElement>;

/// The bytes that `xmltree` writes for the element tree, or none where it
/// fails.
pub uninterp spec fn pom_render(p: PomElement) -> Option<Seq<u8>>;

/// Carries an element of `xmltree` over, node for node, into the
/// library's tree (attributes in `xmltree`'s name order).
#[verifier::external_body]
fn pom_from_xml(e: Element) -> PomElement {
    let namespaces = e.namespaces.map(|n| n.0.into_iter().collect());
    let children = e.children.into_iter().map(node_from_xml).collect();
    PomElement { prefix: e.prefix, namespace: e.namespace, namespaces, name: e.name,
        attributes: e.attributes.into_iter().collect(), children }
}

/// Carries a node of `xmltree` over into the library's tree.
#[verifier::external_body]
fn node_from_xml(c: XMLNode) -> PomNode {
    match c {
        XMLNode::Element(c) => PomNode::Element(pom_from_xml(c)),
        XMLNode::Comment(t) => PomNode::Comment(t),
        XMLNode::CData(t) => PomNode::CData(t),
        XMLNode::Text(t) => PomNode::Text(t),
        XMLNode::ProcessingInstruction(t, d) => PomNode::ProcessingInstruction(t, d),
    }
}

/// Carries the library's tree back, node for node, into `xmltree`.
#[verifier::external_body]
fn pom_to_xml(p: &PomElement) -> Element {
    let namespaces = p.namespaces.as_ref().map(|n| Namespace(n.iter().cloned().collect()));
    let children = p.children.iter().map(node_to_xml).collect();
    Element { prefix: p.prefix.clone(), namespace: p.namespace.clone(), namespaces, name: p.name.clone(),
        attributes: p.attributes.iter().cloned().collect(), children }
}

/// Carries a node of the library's tree back into `xmltree`.
#[verifier::external_body]
fn node_to_xml(c: &PomNode) -> XMLNode {
    match c {
        PomNode::Element(c) => XMLNode::Element(pom_to_xml(c)),
        PomNode::Comment(t) => XMLNode::Comment(t.clone()),
        PomNode::CData(t) => XMLNode::CData(t.clone()),
        PomNode::Text(t) => XMLNode::Text(t.clone()),
        PomNode::ProcessingInstruction(t, d) => XMLNode::ProcessingInstruction(t.clone(), d.clone()),
    }
}

/// Reads a Maven project file with `xmltree::Element::parse`: the tree of
/// its root element, or none where `xmltree` refuses the bytes.
#[verifier::external_body]
pub fn parse_pom(source: &[u8]) -> (r: Option<PomElement>)
    ensures
        r == pom_parse(source@),
{
    Element::parse(source).ok().map(pom_from_xml)
}

/// Writes the tree out with `xmltree::Element::write`, or none where
/// `xmltree` fails.
#[verifier::external_body]
pub fn render_pom(p: &PomElement) -> (r: Option<Vec<u8>>)
    ensures
        match r {
            Some(bytes) => pom_render(*p) == Some(bytes@),
            None => pom_render(*p) is None,
        },
{
    let mut out: Vec<u8> = Vec::new();
    pom_to_xml(p).write(&mut out).ok().map(|_| out)
}

/// The adaptation of a project file's bytes: what `adapt_pom` makes of the
/// trees that `xmltree` reads from `source` and from the maintained build
/// section `fragment`, written back out.
pub open spec fn adapted_source(source: Seq<u8>, fragment: Seq<u8>, r: Result<Vec<u8>, PomError>) -> bool {
    match pom_parse(source) {
        None => r == Err::<Vec<u8>, PomError>(PomError::UnreadableProject),
        Some(project) => if project.name@ != "project"@ {
            r == Err::<Vec<u8>, PomError>(PomError::NotProject)
        } else if first_named(project.children@, "dependencies"@) is None {
            r == Err::<Vec<u8>, PomError>(PomError::NoDependencies)
        } else {
            match pom_parse(fragment) {
                None => r == Err::<Vec<u8>, PomError>(PomError::UnreadableFragment),
                Some(f) => if first_named(f.children@, "plugins"@) is None {
                    r == Err::<Vec<u8>, PomError>(PomError::NoMaintainedPlugins)
                } else {
                    exists|after: PomElement| #![trigger pom_render(after)]
                        adapted_project(project, element_of(f.children@[first_named(f.children@, "plugins"@)->0]), after)
                        && match pom_render(after) {
                            Some(bytes) => r matches Ok(v) && v@ == bytes,
                            None => r == Err::<Vec<u8>, PomError>(PomError::Unwritable),
                        }
                },
            }
        },
    }
}

/// Adapts the bytes of a Maven project file to the arena, given the bytes
/// of the maintained build section; see `adapt_pom`.
pub fn adapt_pom_source(source: &[u8], fragment: &[u8]) -> (r: Result<Vec<u8>, PomError>)
    ensures
        adapted_source(source@, fragment@, r),
{
    let project = match parse_pom(source) {
        Some(p) => p,
        None => return Err(PomError::UnreadableProject),
    };
    if !str_equal(project.name.as_str(), "project") {
        return Err(PomError::NotProject);
    }
    if find_child(&project.children, "dependencies").is_none() {
        return Err(PomError::NoDependencies);
    }
    let maintained = match parse_pom(fragment) {
        Some(f) => f,
        None => return Err(PomError::UnreadableFragment),
    };
    if find_child(&maintained.children, "plugins").is_none() {
        return Err(PomError::NoMaintainedPlugins);
    }
    let ghost before = project;
    let ghost section = maintained;
    let adapted = match adapt_pom(project, maintained) {
        Ok(a) => a,
        Err(e) => return Err(e),
    };
    proof {
        assert(adapted_project(before, element_of(section.children@[first_named(section.children@, "plugins"@)->0]), adapted));
    }
    match render_pom(&adapted) {
        Some(bytes) => Ok(bytes),
        None => Err(PomError::Unwritable),
    }
}

/// The exclude entry that keeps Maven's build output out of the checkout's
/// status.
pub const TARGET_EXCLUDE: &'static str = "/target/";

/// The checkout's exclude file with the build output entry added, or none
/// where some line of it, trimmed, is that entry already.
pub fn exclude_with_target(contents: &str) -> (r: Option<String>)
    ensures
        has_trimmed_line(contents@, TARGET_EXCLUDE@) ==> r is None,
        !has_trimmed_line(contents@, TARGET_EXCLUDE@) ==> (r matches Some(s) && s@ == contents@ + "\n/target/\n"@),
{
    if contains_trimmed_line(contents, TARGET_EXCLUDE) {
        None
    } else {
        Some(concat_str(contents, "\n/target/\n"))
    }
}

/// Where the arena's command-line entry point lives in the checkout.
pub const CLI_PATH: &'static str = "src/main/java/com/codingame/gameengine/runner/CommandLineInterface.java";

/// The text by which the arena's own entry point is recognised.
pub const CLI_MARKER: &'static str = "CGARENA_COMPATIBILITY_VERSION";

/// Whether the entry point must be written: the file is absent (`None`) or
/// its contents lack the marker.
pub fn cli_needs_write(current: Option<&str>) -> (r: bool)
    ensures
        r == match current {
            None => true,
            Some(c) => !contains_text(c@, CLI_MARKER@),
        },
{
    match current {
        None => true,
        Some(c) => !contains_text_vec(&chars_of(c), &chars_of(CLI_MARKER)),
    }
}

} // verus!
