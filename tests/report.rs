use repo_trust::input::{read_targets, InputError, Target};
use repo_trust::metrics::Score;
use repo_trust::report::{rank, render_line, report_lines, ScoreRecord};

fn uniform(url: &str, m: u64) -> ScoreRecord {
    ScoreRecord::new(
        url.to_string(),
        Score::from_millionths(m),
        Score::from_millionths(m),
        Score::from_millionths(m),
        Score::from_millionths(m),
        Score::from_millionths(m),
    )
}

#[test]
fn net_score_weights() {
    let r = ScoreRecord::new(
        "u".to_string(),
        Score::from_millionths(1_000_000),
        Score::zero(),
        Score::zero(),
        Score::zero(),
        Score::zero(),
    );
    assert_eq!(r.net_score().millionths(), 50_000);
    let r = ScoreRecord::new(
        "u".to_string(),
        Score::zero(),
        Score::zero(),
        Score::zero(),
        Score::zero(),
        Score::from_millionths(1_000_000),
    );
    assert_eq!(r.net_score().millionths(), 500_000);
    assert_eq!(uniform("u", 1_000_000).net_score().millionths(), 1_000_000);
}

#[test]
fn ranking_by_net_score() {
    let records = vec![uniform("a", 900_000), uniform("b", 300_000), uniform("c", 600_000)];
    let ranked = rank(records);
    let urls: Vec<&str> = ranked.iter().map(|r| r.url()).collect();
    assert_eq!(urls, vec!["a", "c", "b"]);

    let records = vec![uniform("b", 300_000), uniform("c", 600_000), uniform("a", 900_000)];
    let lines = report_lines(records);
    assert_eq!(lines.len(), 3);
    assert!(lines[0].contains("\"NET_SCORE\":0.90"));
    assert!(lines[1].contains("\"NET_SCORE\":0.60"));
    assert!(lines[2].contains("\"NET_SCORE\":0.30"));
}

#[test]
fn ranking_keeps_order_of_ties() {
    let records = vec![uniform("x", 500_000), uniform("y", 700_000), uniform("z", 500_000)];
    let urls: Vec<String> = rank(records).iter().map(|r| r.url().to_string()).collect();
    assert_eq!(urls, vec!["y", "x", "z"]);
}

#[test]
fn line_format() {
    let r = ScoreRecord::new(
        "https://github.com/a/b".to_string(),
        Score::from_millionths(1_000_000),
        Score::from_millionths(954_999),
        Score::from_millionths(5_000),
        Score::from_millionths(4_999),
        Score::zero(),
    );
    assert_eq!(
        render_line(&r),
        "{\"URL\":\"https://github.com/a/b\", \"NET_SCORE\":0.15, \"RAMP_UP_SCORE\":1.00, \"CORRECTNESS_SCORE\":0.95, \"BUS_FACTOR_SCORE\":0.01, \"RESPONSIVE_MAINTAINER_SCORE\":0.00, \"LICENSE_SCORE\":0.00}"
    );
}

#[test]
fn blank_and_unsupported_lines_give_no_report() {
    let targets = match read_targets("\nhttps://www.example.com/some/page\n") {
        Ok(t) => t,
        Err(_) => panic!("the input is valid"),
    };
    assert!(targets.is_empty());
    assert!(report_lines(Vec::new()).is_empty());
}

#[test]
fn invalid_line_is_refused() {
    match read_targets("https://github.com/a/b\nnot a url\n") {
        Err(InputError::InvalidUrl(line)) => assert_eq!(line, "not a url"),
        Ok(_) => panic!("a line that is no URL must be refused"),
    }
}

#[test]
fn targets_in_input_order() {
    let text = "  https://github.com/a/b  \r\nhttps://www.npmjs.com/package/js-yaml\n\nhttps://example.org/x";
    let targets = match read_targets(text) {
        Ok(t) => t,
        Err(_) => panic!("the input is valid"),
    };
    assert_eq!(targets.len(), 2);
    match &targets[0] {
        Target::Repository(g) => {
            assert_eq!(g.owner(), "a");
            assert_eq!(g.repo(), "b");
            assert_eq!(g.link(), "https://github.com/a/b");
        }
        Target::Package { .. } => panic!("a repository was expected"),
    }
    match &targets[1] {
        Target::Package { url, document } => {
            assert_eq!(url, "https://www.npmjs.com/package/js-yaml");
            assert_eq!(document, "https://registry.npmjs.org/js-yaml");
        }
        Target::Repository(_) => panic!("a package was expected"),
    }
}
