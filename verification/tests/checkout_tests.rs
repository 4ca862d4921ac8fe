use cgarena::referee_checkout::{
    adapt_pom, cli_needs_write, exclude_with_target, PomElement, PomError, PomNode, SCHEMA_INSTANCE,
};

fn element(name: &str, attributes: Vec<(&str, &str)>, children: Vec<PomNode>) -> PomElement {
    PomElement {
        prefix: None,
        namespace: None,
        namespaces: None,
        name: name.to_string(),
        attributes: attributes.into_iter().map(|(k, v)| (k.to_string(), v.to_string())).collect(),
        children,
    }
}

fn text(name: &str, value: &str) -> PomNode {
    PomNode::Element(element(name, vec![], vec![PomNode::Text(value.to_string())]))
}

fn plugin(artifact: &str) -> PomNode {
    PomNode::Element(element("plugin", vec![], vec![text("groupId", "org.example"), text("artifactId", artifact)]))
}

fn fragment(plugins: Vec<PomNode>) -> PomElement {
    element("build", vec![], vec![PomNode::Element(element("plugins", vec![], plugins))])
}

fn child<'a>(e: &'a PomElement, name: &str) -> &'a PomElement {
    e.children
        .iter()
        .find_map(|n| match n {
            PomNode::Element(c) if c.name == name => Some(c),
            _ => None,
        })
        .unwrap()
}

fn artifacts(e: &PomElement) -> Vec<String> {
    e.children
        .iter()
        .filter_map(|n| match n {
            PomNode::Element(c) => Some(child(c, "artifactId")),
            _ => None,
        })
        .map(|a| match &a.children[0] {
            PomNode::Text(t) => t.clone(),
            _ => String::new(),
        })
        .collect()
}

fn namespaced_project() -> PomElement {
    let mut project = element(
        "project",
        vec![("schemaLocation", "http://maven.apache.org/POM/4.0.0 http://maven.apache.org/xsd/maven-4.0.0.xsd")],
        vec![text("modelVersion", "4.0.0"), PomNode::Element(element("dependencies", vec![], vec![]))],
    );
    project.namespaces = Some(vec![
        ("".to_string(), "http://maven.apache.org/POM/4.0.0".to_string()),
        ("xml".to_string(), "http://www.w3.org/XML/1998/namespace".to_string()),
        ("xmlns".to_string(), "http://www.w3.org/2000/xmlns/".to_string()),
        ("xsi".to_string(), SCHEMA_INSTANCE.to_string()),
    ]);
    project
}

#[test]
fn adaptation_preserves_namespaced_schema_location() {
    let adapted = adapt_pom(namespaced_project(), fragment(vec![plugin("maven-shade-plugin")])).unwrap();
    assert_eq!(
        adapted.attributes,
        vec![(
            "xsi:schemaLocation".to_string(),
            "http://maven.apache.org/POM/4.0.0 http://maven.apache.org/xsd/maven-4.0.0.xsd".to_string()
        )]
    );
    assert!(!adapted.attributes.iter().any(|(k, _)| k == "schemaLocation"));
}

#[test]
fn adaptation_adds_cli_dependency_build_and_plugins() {
    let adapted = adapt_pom(namespaced_project(), fragment(vec![plugin("a"), plugin("b")])).unwrap();
    assert_eq!(adapted.children.len(), 3);
    let dependencies = child(&adapted, "dependencies");
    assert_eq!(artifacts(dependencies), vec!["commons-cli".to_string()]);
    let version = child(match &dependencies.children[0] {
        PomNode::Element(d) => d,
        _ => panic!("dependency expected"),
    }, "version");
    assert!(matches!(&version.children[0], PomNode::Text(t) if t == "1.3.1"));
    let plugins = child(child(&adapted, "build"), "plugins");
    assert_eq!(artifacts(plugins), vec!["a".to_string(), "b".to_string()]);
}

#[test]
fn adaptation_keeps_existing_dependency_and_plugins() {
    let project = element(
        "project",
        vec![],
        vec![
            PomNode::Element(element("dependencies", vec![], vec![PomNode::Element(element(
                "dependency",
                vec![],
                vec![text("artifactId", "commons-cli")],
            ))])),
            PomNode::Element(element("build", vec![], vec![PomNode::Element(element("plugins", vec![], vec![plugin("a")]))])),
        ],
    );
    let adapted = adapt_pom(project, fragment(vec![plugin("a"), plugin("c")])).unwrap();
    assert_eq!(adapted.children.len(), 2);
    assert_eq!(artifacts(child(&adapted, "dependencies")), vec!["commons-cli".to_string()]);
    let plugins = child(child(&adapted, "build"), "plugins");
    assert_eq!(artifacts(plugins), vec!["a".to_string(), "c".to_string()]);
    assert!(adapted.attributes.is_empty());
}

#[test]
fn adaptation_without_schema_prefix_leaves_attributes() {
    let project = element(
        "project",
        vec![("schemaLocation", "x")],
        vec![PomNode::Element(element("dependencies", vec![], vec![]))],
    );
    let adapted = adapt_pom(project, fragment(vec![])).unwrap();
    assert_eq!(adapted.attributes, vec![("schemaLocation".to_string(), "x".to_string())]);
}

#[test]
fn adaptation_errors() {
    let not_project = element("projects", vec![], vec![]);
    assert_eq!(adapt_pom(not_project, fragment(vec![])).err(), Some(PomError::NotProject));
    let no_dependencies = element("project", vec![], vec![text("modelVersion", "4.0.0")]);
    assert_eq!(adapt_pom(no_dependencies, fragment(vec![])).err(), Some(PomError::NoDependencies));
    let project = element("project", vec![], vec![PomNode::Element(element("dependencies", vec![], vec![]))]);
    assert_eq!(adapt_pom(project, element("build", vec![], vec![])).err(), Some(PomError::NoMaintainedPlugins));
}

#[test]
fn exclude_gains_target_entry_once() {
    assert_eq!(exclude_with_target("# comment\n*.log"), Some("# comment\n*.log\n/target/\n".to_string()));
    assert_eq!(exclude_with_target("a\n  /target/  \nb"), None);
    assert_eq!(exclude_with_target(""), Some("\n/target/\n".to_string()));
}

#[test]
fn cli_is_rewritten_unless_marked() {
    assert!(cli_needs_write(None));
    assert!(cli_needs_write(Some("class CommandLineInterface {}")));
    assert!(!cli_needs_write(Some("String v = CGARENA_COMPATIBILITY_VERSION;")));
}

#[test]
fn second_adaptation_adds_nothing() {
    let once = adapt_pom(namespaced_project(), fragment(vec![plugin("a"), plugin("b"), plugin("a")])).unwrap();
    let twice = adapt_pom(once, fragment(vec![plugin("a"), plugin("b"), plugin("a")])).unwrap();
    assert_eq!(twice.children.len(), 3);
    assert_eq!(artifacts(child(&twice, "dependencies")), vec!["commons-cli".to_string()]);
    let plugins = child(child(&twice, "build"), "plugins");
    assert_eq!(artifacts(plugins), vec!["a".to_string(), "b".to_string(), "a".to_string()]);
    assert_eq!(twice.attributes.len(), 1);
    assert_eq!(twice.attributes[0].0, "xsi:schemaLocation");
}

#[test]
fn project_bytes_are_adapted() {
    let source = br#"<project xmlns="http://maven.apache.org/POM/4.0.0" xmlns:xsi="http://www.w3.org/2001/XMLSchema-instance" xsi:schemaLocation="a b"><modelVersion>4.0.0</modelVersion><dependencies></dependencies></project>"#;
    let fragment = b"<build><plugins><plugin><artifactId>shade</artifactId></plugin></plugins></build>";
    let out = String::from_utf8(cgarena::referee_checkout::adapt_pom_source(source, fragment).unwrap()).unwrap();
    assert!(out.contains(r#"xsi:schemaLocation=""#), "{out}");
    assert!(!out.contains(r#" schemaLocation=""#), "{out}");
    assert!(out.contains("commons-cli"));
    assert!(out.contains("shade"));
    assert_eq!(
        cgarena::referee_checkout::adapt_pom_source(b"<notxml", fragment).err(),
        Some(PomError::UnreadableProject)
    );
    assert_eq!(
        cgarena::referee_checkout::adapt_pom_source(source, b"<build/>").err(),
        Some(PomError::NoMaintainedPlugins)
    );
    let parsed = cgarena::referee_checkout::parse_pom(fragment).unwrap();
    assert_eq!(parsed.name, "build");
}
