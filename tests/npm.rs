use repo_trust::npm::{strip_decorations, Npm};

const JS_YAML: &str = "{\"name\":\"js-yaml\",\"repository\":{\"type\":\"git\",\"url\":\"git+https://github.com/nodeca/js-yaml.git\"}}";

#[test]
fn no_url() {
    assert!(Npm::with_url("", JS_YAML).is_none());
}

#[test]
fn npm_bad_url() {
    assert!(Npm::with_url("https://www.youtube.com/", JS_YAML).is_none());
}

#[test]
fn good_url() {
    assert!(Npm::with_url("https://www.npmjs.com/package/js-yaml", JS_YAML).is_some());
}

#[test]
fn registry_resolution_strips_decorations() {
    let doc = "{\"repository\":{\"url\":\"git+https://github.com/owner/name.git\"}}";
    let n = Npm::with_url("https://www.npmjs.com/package/name", doc).unwrap();
    assert_eq!(n.github().owner(), "owner");
    assert_eq!(n.github().repo(), "name");
    assert_eq!(n.github().link(), "https://github.com/owner/name");
}

#[test]
fn registry_resolution_failures() {
    let page = "https://www.npmjs.com/package/name";
    assert!(Npm::with_url(page, "{\"name\":\"name\"}").is_none());
    assert!(Npm::with_url(page, "<html></html>").is_none());
    let elsewhere = "{\"repository\":{\"url\":\"git+https://gitlab.com/owner/name.git\"}}";
    assert!(Npm::with_url(page, elsewhere).is_none());
}

#[test]
fn registry_document_address() {
    assert_eq!(
        Npm::registry_url("https://www.npmjs.com/package/js-yaml").as_deref(),
        Some("https://registry.npmjs.org/js-yaml")
    );
    assert_eq!(
        Npm::registry_url("https://www.npmjs.com/package/@scope/pkg").as_deref(),
        Some("https://registry.npmjs.org/@scope/pkg")
    );
    assert!(Npm::registry_url("https://www.npmjs.com/package/").is_none());
    assert!(Npm::registry_url("https://www.npmjs.com/search?q=x").is_none());
    assert!(Npm::registry_url("https://github.com/package/x").is_none());
}

#[test]
fn decorations() {
    assert_eq!(strip_decorations("git+https://github.com/a/b.git"), "https://github.com/a/b");
    assert_eq!(strip_decorations("https://github.com/a/b"), "https://github.com/a/b");
    assert_eq!(strip_decorations("https://github.com/a/my.github.io"), "https://github.com/a/my.github.io");
    assert_eq!(strip_decorations("git+"), "");
    assert_eq!(strip_decorations(".git"), "");
}
