use repo_trust::metrics::{
    bus_factor_from_response, calc_bus_factor, calc_compatibility, calc_correctness,
    compatibility_from_response, correctness_from_counts, readme_line_count,
    recent_pulls_from_response, Score,
};

#[test]
fn working() {}

#[test]
fn correctness_edge_cases() {
    assert!(calc_correctness(0, 0).millionths() == 0);
    assert!(calc_correctness(100, 0).millionths() == 0);
    assert!(calc_correctness(100, 100).millionths() == 1_000_000);
    assert!(calc_correctness(0, 100).millionths() == 0);
}

#[test]
fn correctness_normal_cases() {
    assert!(calc_correctness(2000, 1900).millionths() as f64 / 1_000_000.0 == 1900.0 / 2000.0);
    assert!(calc_correctness(2000, 100).millionths() as f64 / 1_000_000.0 == 100.0 / 2000.0);
}

#[test]
fn correctness_ratio_is_exact() {
    assert_eq!(calc_correctness(2000, 1900).millionths(), 950_000);
    assert_eq!(calc_correctness(3, 1).millionths(), 333_333);
    assert_eq!(calc_correctness(0, 7).millionths(), 0);
}

#[test]
fn correctness_from_page_counts() {
    // 30 issues and pull requests in all, 10 of them pull requests; 25 closed, 5 of them pulls.
    let s = correctness_from_counts(Some(30), Some(10), Some(25), Some(5));
    assert_eq!(s.millionths(), 1_000_000);
    let s = correctness_from_counts(Some(30), Some(10), Some(15), Some(5));
    assert_eq!(s.millionths(), 500_000);
    assert_eq!(correctness_from_counts(None, Some(10), Some(15), Some(5)).millionths(), 0);
    assert_eq!(correctness_from_counts(Some(3), Some(10), Some(15), Some(5)).millionths(), 0);
    assert_eq!(correctness_from_counts(Some(0), Some(0), Some(0), Some(0)).millionths(), 0);
}

#[test]
fn compatibility_tests() {
    assert!(calc_compatibility("MIT").millionths() == 1_000_000);
    assert!(calc_compatibility("LGPL-2.1").millionths() == 1_000_000);
    assert!(calc_compatibility("notMIT").millionths() == 0);
    assert!(calc_compatibility("").millionths() == 0);
}

#[test]
fn compatibility_of_whole_allow_list() {
    for id in [
        "LGPL-2.1-only",
        "LGPL-2.1",
        "LGPL-2.1-or-later",
        "LGPL-3.0-only",
        "LGPL-3.0",
        "BSD-3-Clause",
        "MIT",
        "X11",
        "CC0-1.0",
        "Unlicense",
    ] {
        assert_eq!(calc_compatibility(id).millionths(), 1_000_000, "{}", id);
    }
    assert_eq!(calc_compatibility("Apache-2.0").millionths(), 0);
    assert_eq!(calc_compatibility("mit").millionths(), 0);
}

#[test]
fn compatibility_from_license_answer() {
    let mit = "{\"name\":\"LICENSE\",\"license\":{\"key\":\"mit\",\"spdx_id\":\"MIT\"}}";
    assert_eq!(compatibility_from_response(mit).millionths(), 1_000_000);
    let apache = "{\"license\":{\"key\":\"apache-2.0\",\"spdx_id\":\"Apache-2.0\"}}";
    assert_eq!(compatibility_from_response(apache).millionths(), 0);
    let absent = "{\"message\":\"Not Found\"}";
    assert_eq!(compatibility_from_response(absent).millionths(), 0);
    assert_eq!(compatibility_from_response("{\"license\":null}").millionths(), 0);
    assert_eq!(compatibility_from_response("not json").millionths(), 0);
}

#[test]
fn bus_factor_boundaries() {
    assert_eq!(calc_bus_factor(0).millionths(), 0);
    assert_eq!(calc_bus_factor(1).millionths(), 0);
    assert_eq!(calc_bus_factor(3).millionths(), 500_000);
    assert_eq!(calc_bus_factor(9).millionths(), 800_000);
    let big = calc_bus_factor(u64::MAX).millionths();
    assert!(big < 1_000_000);
    assert!(big >= 999_999);
}

#[test]
fn bus_factor_from_query_answer() {
    let body = "{\"data\":{\"repository\":{\"mentionableUsers\":{\"totalCount\":3}}}}";
    assert_eq!(bus_factor_from_response(body).millionths(), 500_000);
    let errors = "{\"errors\":[{\"message\":\"Could not resolve\"}]}";
    assert_eq!(bus_factor_from_response(errors).millionths(), 0);
}

#[test]
fn recent_pulls_from_query_answer() {
    let body = "{\"data\":{\"search\":{\"issueCount\":42}}}";
    assert_eq!(recent_pulls_from_response(body), Some(42));
    assert_eq!(recent_pulls_from_response("{\"data\":null}"), None);
}

#[test]
fn readme_lines() {
    assert_eq!(readme_line_count(""), 0);
    assert_eq!(readme_line_count("# title"), 1);
    assert_eq!(readme_line_count("# title\n"), 1);
    assert_eq!(readme_line_count("a\nb\n\nc"), 4);
    assert_eq!(readme_line_count("\n\n"), 2);
}

#[test]
fn score_is_capped_at_one() {
    assert_eq!(Score::from_millionths(2_000_000).millionths(), 1_000_000);
    assert_eq!(Score::from_millionths(123).millionths(), 123);
    assert_eq!(Score::zero().millionths(), 0);
}
