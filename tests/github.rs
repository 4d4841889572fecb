use repo_trust::github::Github;

#[test]
fn construct_with_url() {
    let a = Github::with_url("https://github.com/lee3445/ECE461_Team19_CLI").unwrap();

    assert_eq!(a.owner(), "lee3445");
    assert_eq!(a.repo(), "ECE461_Team19_CLI");
}

#[test]
fn construct_with_bad_url() {
    // not an url
    assert!(Github::with_url("not an url").is_none());

    // not a github url
    assert!(Github::with_url("https://127.0.0.1/").is_none());
    assert!(Github::with_url(
        "https://doc.rust-lang.org/rust-by-example/testing/unit_testing.html"
    )
    .is_none());

    // not a repo url
    assert!(Github::with_url("https://github.com").is_none());
    assert!(Github::with_url("https://github.com/rust-lang").is_none());
}

#[test]
fn identity_ignores_extra_segments_and_query() {
    let g = Github::with_url("https://github.com/owner/name/tree/main?tab=readme").unwrap();
    assert_eq!(g.owner(), "owner");
    assert_eq!(g.repo(), "name");
    assert_eq!(g.link(), "https://github.com/owner/name/tree/main?tab=readme");
    assert!(Github::with_url("http://github.com/owner/name").is_some());
    assert!(Github::with_url("https://github.com/owner/").is_none());
    assert!(Github::with_url("ftp://github.com/owner/name").is_none());
    assert!(Github::with_url("https://gitlab.com/owner/name").is_none());
}

#[test]
fn page_count_without_header() {
    assert_eq!(Github::rest_page_count(None, "[{\"id\":1}]"), Some(1));
    assert_eq!(Github::rest_page_count(None, "[]"), Some(0));
    assert_eq!(Github::rest_page_count(None, "{\"message\":\"Not Found\"}"), None);
}

#[test]
fn page_count_from_last_relation() {
    let h = "<https://api.github.com/repositories/1/issues?state=all&per_page=1&page=2>; rel=\"next\", <https://api.github.com/repositories/1/issues?state=all&per_page=1&page=7>; rel=\"last\"";
    assert_eq!(Github::rest_page_count(Some(h), ""), Some(7));
    let h = "<https://api.github.com/repositories/1/issues?per_page=1&page=7>; rel=\"last\", <https://api.github.com/repositories/1/issues?per_page=1&page=2>; rel=\"next\"";
    assert_eq!(Github::rest_page_count(Some(h), ""), Some(7));
    let h = "<https://x/issues?page=3&per_page=1>; rel=\"prev\",<https://x/issues?page=1&per_page=1>;   rel=\"first\" ,  <https://x/issues?per_page=1&page=1234>;rel=\"last\"";
    assert_eq!(Github::rest_page_count(Some(h), ""), Some(1234));
}

#[test]
fn page_count_from_unusable_header() {
    let no_last = "<https://x/issues?per_page=1&page=2>; rel=\"next\"";
    assert_eq!(Github::rest_page_count(Some(no_last), "[1]"), None);
    let too_big = "<https://x/issues?per_page=1&page=99999999999>; rel=\"last\"";
    assert_eq!(Github::rest_page_count(Some(too_big), ""), None);
    let no_digits = "<https://x/issues?per_page=1&page=>; rel=\"last\"";
    assert_eq!(Github::rest_page_count(Some(no_digits), ""), None);
}

#[test]
fn queries_name_the_repository() {
    let g = Github::with_url("https://github.com/octo/cat").unwrap();
    assert_eq!(
        g.bus_factor_query(),
        "{\"query\" : \"query { repository(owner:\\\"octo\\\", name:\\\"cat\\\") { mentionableUsers { totalCount } } }\" }"
    );
    assert_eq!(
        g.responsiveness_query("2024-01-31"),
        "{\"query\" : \"query { search(query: \\\"repo:octo/cat is:pr updated:>=2024-01-31\\\" type:ISSUE) { issueCount } }\" }"
    );
    assert_eq!(
        g.rest_url("issues?state=all&per_page=1"),
        "https://api.github.com/repos/octo/cat/issues?state=all&per_page=1"
    );
}
