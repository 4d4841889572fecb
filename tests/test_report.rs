use repo_trust::test_report::test_cases;

#[test]
fn counts_tests_and_passes() {
    assert_eq!(test_cases("ok 1 - a\nnot ok 2 - b\nok 3\r\n"), (3, 2));
    assert_eq!(test_cases(""), (0, 0));
    assert_eq!(test_cases("ok"), (1, 1));
    assert_eq!(test_cases("okay\n"), (1, 0));
    assert_eq!(test_cases("ok\r\n\n"), (2, 1));
    assert_eq!(test_cases(" ok\nok\r"), (2, 0));
}
