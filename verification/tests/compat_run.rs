use patina::compat::run::{classify, status_key_list, test_suite_failed, Captured, Status};

fn captured(stdout: &str, stderr: &str, exit_ok: bool) -> Captured {
    Captured {
        stdout: stdout.to_string(),
        stderr: stderr.to_string(),
        exit_ok,
        timed_out: false,
    }
}

#[test]
fn classifies_missing_library() {
    let out = captured("", "Error: Library (foo bar) not found", false);
    assert_eq!(
        classify(&out, "probe"),
        Status::MissingLibrary(vec!["foo bar".to_string()])
    );
}

#[test]
fn classifies_ffi_bound_as_out_of_scope() {
    let out = captured("", "Error: Library (chibi ast) not found", false);
    assert_eq!(
        classify(&out, "probe"),
        Status::OutOfScope(vec!["chibi ast".to_string()])
    );
}

#[test]
fn classifies_reached_ffi_stub_as_out_of_scope() {
    let out = captured(
        "",
        "Error: requires FFI, unavailable in Patina: duplicate-file-descriptor",
        false,
    );
    assert_eq!(
        classify(&out, "probe"),
        Status::OutOfScope(vec!["duplicate-file-descriptor".to_string()])
    );
}

#[test]
fn unbound_identifier_beats_a_later_ffi_stub() {
    let out = captured(
        "",
        "Error: Undefined variable: frobnicate\n\
         Error: requires FFI, unavailable in Patina: open",
        false,
    );
    assert_eq!(
        classify(&out, "probe"),
        Status::UnboundIdentifier(vec!["frobnicate".to_string()])
    );
}

#[test]
fn mixed_missing_stays_missing() {
    let out = captured(
        "",
        "Error: Library (chibi ast) not found\nError: Library (foo) not found",
        false,
    );
    assert!(matches!(classify(&out, "probe"), Status::MissingLibrary(_)));
}

#[test]
fn parse_error_beats_downstream_unbound() {
    let out = captured(
        "",
        "Error: Parse error in /x/chibi/match-test.sld: LexError(UnexpectedChar('@'))\n\
         Error: unbound variable: `run-tests`",
        false,
    );
    assert_eq!(
        classify(&out, "test"),
        Status::ParseError(vec!["LexError(UnexpectedChar('@'))".to_string()])
    );
}

#[test]
fn export_failure_is_load_error_not_parse_error() {
    let out = captured(
        "",
        "Error: Parse error in /x/lib.sld: Exported identifier 'begin' not defined",
        false,
    );
    assert_eq!(
        classify(&out, "probe"),
        Status::LoadError(vec!["Exported identifier 'begin' not defined".to_string()])
    );
}

#[test]
fn real_parse_error_wins_over_load_error() {
    let out = captured(
        "",
        "Error: Parse error in /x/a.sld: LexError(UnexpectedChar('@'))\n\
         Error: Parse error in /x/b.sld: Exported identifier 'f' not defined",
        false,
    );
    assert!(matches!(classify(&out, "probe"), Status::ParseError(_)));
}

#[test]
fn an_included_file_that_will_not_lex_is_a_parse_error() {
    let out = captured(
        "",
        "Error: desugar error: Invalid syntax: include: parse error in \
         '/x/srfi-197.scm': Lexer error: Unexpected character: \u{2026}",
        false,
    );
    assert_eq!(
        classify(&out, "test"),
        Status::ParseError(vec![
            "Lexer error: Unexpected character: \u{2026}".to_string()
        ])
    );
}

#[test]
fn classifies_unbound_identifier() {
    let out = captured("", "Error: Undefined variable: string-index", false);
    assert_eq!(
        classify(&out, "probe"),
        Status::UnboundIdentifier(vec!["string-index".to_string()])
    );
}

#[test]
fn classifies_test_failures_despite_exit_zero() {
    let out = captured("52 out of 53 tests passed.\n1 failure (1.9%).\n", "", true);
    assert_eq!(classify(&out, "test"), Status::WrongResult);
}

#[test]
fn passing_suite_with_error_free_summary_passes() {
    let out = captured(
        "53 out of 53 (100.0%) tests passed in 0.1 seconds.\n",
        "",
        true,
    );
    assert_eq!(classify(&out, "test"), Status::Pass);
}

#[test]
fn strict_probe_failure_is_runtime_error() {
    let out = captured("", "Error: something else entirely", false);
    assert_eq!(classify(&out, "probe"), Status::RuntimeError);
}

#[test]
fn timeout_wins() {
    let out = Captured {
        stdout: String::new(),
        stderr: "Error: Library (foo) not found".to_string(),
        exit_ok: false,
        timed_out: true,
    };
    assert_eq!(classify(&out, "probe"), Status::Timeout);
}

#[test]
fn missing_libraries_come_out_sorted_and_once() {
    let out = captured(
        "Library (zeta) not found\r\nLibrary (alpha) not found\n",
        "Error: Library (zeta) not found",
        false,
    );
    assert_eq!(
        classify(&out, "probe"),
        Status::MissingLibrary(vec!["alpha".to_string(), "zeta".to_string()])
    );
}

#[test]
fn stub_names_lose_their_quotes() {
    let out = captured("", "requires FFI, unavailable in Patina: \"open\"  ", true);
    assert_eq!(
        classify(&out, "test"),
        Status::OutOfScope(vec!["open".to_string()])
    );
}

#[test]
fn an_unbound_marker_takes_the_next_word_across_lines() {
    let out = captured("", "unbound variable:  \nError: x", false);
    assert_eq!(
        classify(&out, "probe"),
        Status::UnboundIdentifier(vec!["Error:".to_string()])
    );
}

#[test]
fn suite_summary_needs_a_digit_before_the_keyword() {
    assert!(test_suite_failed("2 errors."));
    assert!(test_suite_failed("FAIL: case"));
    assert!(!test_suite_failed("line-errors-test passed"));
    assert!(!test_suite_failed(" failure at start"));
}

#[test]
fn a_probe_that_exits_cleanly_passes_even_with_failure_words() {
    let out = captured("1 failure", "", true);
    assert_eq!(classify(&out, "probe"), Status::Pass);
}

#[test]
fn status_keys_are_in_display_order() {
    assert_eq!(
        status_key_list(),
        vec![
            "pass",
            "missing-library",
            "parse-error",
            "load-error",
            "unbound-identifier",
            "wrong-result",
            "runtime-error",
            "timeout",
            "out-of-scope"
        ]
    );
    assert_eq!(Status::LoadError(vec![]).key(), "load-error");
}
