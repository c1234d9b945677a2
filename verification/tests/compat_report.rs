use patina::compat::exclusions::{Exclusion, Reason};
use patina::compat::report::{render, to_sexp};
use patina::compat::run::{PackageResult, Status};
use patina::compat::sexp::escape_string;

fn two_results() -> Vec<PackageResult> {
    vec![
        PackageResult {
            slug: "a".into(),
            mode: "test",
            status: Status::Pass,
        },
        PackageResult {
            slug: "b".into(),
            mode: "probe",
            status: Status::OutOfScope(vec!["chibi ast".into()]),
        },
    ]
}

fn excluding(slug: &str, expect: &str) -> Vec<Exclusion> {
    vec![Exclusion {
        slug: slug.into(),
        reason: Reason::Ffi,
        expect: expect.into(),
        note: "needs libfoo".into(),
    }]
}

#[test]
fn report_headline_keeps_the_raw_number() {
    let report = render(&two_results(), "vm", &[], true);
    assert!(report.contains("**1 of 2 packages pass.**"), "{}", report);
    assert!(!report.contains("in scope**"), "{}", report);
}

#[test]
fn an_exclusion_narrows_only_the_scoped_number() {
    let report = render(&two_results(), "vm", &excluding("b", "out-of-scope"), true);
    assert!(report.contains("**1 of 2 packages pass.**"), "{}", report);
    assert!(report.contains("**1 of 1 in scope**"), "{}", report);
    assert!(
        report.contains("Needs a foreign-function interface (1)"),
        "{}",
        report
    );
}

#[test]
fn an_exclusion_that_no_longer_matches_is_reported_as_drift() {
    let report = render(&two_results(), "vm", &excluding("a", "out-of-scope"), true);
    assert!(
        report.contains("Exclusions that have drifted"),
        "{}",
        report
    );
    assert!(report.contains("no longer match"), "{}", report);
}

#[test]
fn the_bundling_queue_ignores_excluded_packages() {
    let results = vec![PackageResult {
        slug: "b".into(),
        mode: "probe",
        status: Status::MissingLibrary(vec!["srfi 160 base".into()]),
    }];
    let queued = render(&results, "vm", &[], true);
    assert!(queued.contains("(srfi 160 base)"), "{}", queued);
    let dropped = render(&results, "vm", &excluding("b", "missing-library"), true);
    assert!(!dropped.contains("| (srfi 160 base) |"), "{}", dropped);
}

#[test]
fn a_full_run_reports_an_exclusion_that_matches_nothing() {
    let report = render(
        &two_results(),
        "vm",
        &excluding("gone-from-corpus", "pass"),
        true,
    );
    assert!(report.contains("no longer has"), "{}", report);
    assert!(report.contains("gone-from-corpus"), "{}", report);
}

#[test]
fn an_exclusion_for_an_unrun_package_changes_nothing() {
    let report = render(
        &two_results(),
        "vm",
        &excluding("not-in-this-run", "pass"),
        false,
    );
    assert!(report.contains("**1 of 2 packages pass.**"), "{}", report);
    assert!(!report.contains("in scope**"), "{}", report);
}

#[test]
fn histogram_rows_go_most_blocked_first() {
    let results = vec![
        PackageResult {
            slug: "p".into(),
            mode: "probe",
            status: Status::MissingLibrary(vec!["srfi 1".into(), "srfi 2".into()]),
        },
        PackageResult {
            slug: "q".into(),
            mode: "probe",
            status: Status::MissingLibrary(vec!["srfi 2".into()]),
        },
    ];
    let report = render(&results, "vm", &[], true);
    let two = report.find("| (srfi 2) | 2 |").expect("srfi 2 row");
    let one = report.find("| (srfi 1) | 1 |").expect("srfi 1 row");
    assert!(two < one, "{}", report);
}

#[test]
fn the_matrix_names_each_package_scope() {
    let report = render(&two_results(), "tree-walker", &excluding("b", "out-of-scope"), true);
    assert!(report.starts_with("# Patina third-party compatibility (tree-walker backend)\n\n"));
    assert!(report.contains("| a | test | pass | in scope |"), "{}", report);
    assert!(report.contains("| b | probe | out-of-scope | ffi |"), "{}", report);
    assert!(report.contains("| out-of-scope | 1 | 0 |"), "{}", report);
}

#[test]
fn the_snapshot_writes_each_row_with_its_names() {
    let text = to_sexp(&two_results(), "vm");
    assert!(text.contains(" (backend \"vm\")\n"), "{}", text);
    assert!(text.contains("  ((slug \"a\") (mode test) (status pass))\n"), "{}", text);
    assert!(
        text.contains("  ((slug \"b\") (mode probe) (status out-of-scope) (missing \"chibi ast\"))\n"),
        "{}",
        text
    );
    assert!(text.ends_with(" ))\n"));
}

#[test]
fn escaping_covers_quotes_backslashes_and_newlines() {
    assert_eq!(escape_string("a\"b\\c\nd"), "a\\\"b\\\\c\\nd");
    assert_eq!(escape_string("plain"), "plain");
}

#[test]
fn reasons_read_back_from_their_keys() {
    for r in Reason::ALL {
        assert_eq!(Reason::from_key(r.key()), Some(r));
    }
    assert_eq!(Reason::from_key("because"), None);
    assert_eq!(Reason::Ffi.heading(), "Needs a foreign-function interface");
}

#[test]
fn drift_alone_never_says_the_corpus_lost_a_package() {
    let drifted = render(&two_results(), "vm", &excluding("a", "out-of-scope"), true);
    assert!(!drifted.contains("no longer has"), "{}", drifted);
    let partial = render(&two_results(), "vm", &excluding("gone-from-corpus", "pass"), false);
    assert!(!partial.contains("no longer has"), "{}", partial);
    assert!(!partial.contains("in scope**"), "{}", partial);
}
