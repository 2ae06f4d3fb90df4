use taoki::mcp::tools::is_test_filename;

#[test]
fn mcp_test_data_path_detected() {
    assert!(is_test_filename("project/tests/data/cases/pep_654.py"));
    assert!(is_test_filename("project/testdata/input.go"));
    assert!(is_test_filename("project/test/fixtures/sample.ts"));
    assert!(is_test_filename("project/__fixtures__/mock.js"));
    assert!(is_test_filename("project/src/test/resources/Config.java"));
}

#[test]
fn mcp_non_test_data_path_not_detected() {
    assert!(!is_test_filename("src/data/models.py"));
    assert!(!is_test_filename("src/fixtures.rs"));
    assert!(!is_test_filename("lib/data/parser.ts"));
    assert!(!is_test_filename("src/fixtures/models.py"));
    assert!(!is_test_filename("app/fixtures/seed.ts"));
}

#[test]
fn tools_test_data_path_detected() {
    assert!(is_test_filename("project/tests/data/cases/pep_654.py"));
    assert!(is_test_filename("project/testdata/input.go"));
    assert!(is_test_filename("project/test/fixtures/sample.ts"));
    assert!(is_test_filename("project/__fixtures__/mock.js"));
    assert!(is_test_filename("project/src/test/resources/Config.java"));
}

#[test]
fn tools_non_test_data_path_not_detected() {
    assert!(!is_test_filename("src/data/models.py"));
    assert!(!is_test_filename("src/fixtures.rs"));
    assert!(!is_test_filename("lib/data/parser.ts"));
    assert!(!is_test_filename("src/fixtures/models.py"));
    assert!(!is_test_filename("app/fixtures/seed.ts"));
}
