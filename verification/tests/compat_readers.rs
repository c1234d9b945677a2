use patina::compat::exclusions::{parse, Reason};
use patina::compat::report::from_sexp;
use patina::compat::run::Status;
use patina::compat::sexp::{
    clause_argument, cond_expand_bodies, document_rows, library_name, list_elements, row_field,
    row_string, row_symbol, string_value, symbol_name, tagged_form,
};
use patina::heap::Heap;
use patina::tagged_value::TaggedValue;

fn sym(h: &mut Heap, s: &str) -> TaggedValue {
    h.intern_symbol(s)
}

fn st(h: &mut Heap, s: &str) -> TaggedValue {
    h.alloc_str(s)
}

fn list(h: &mut Heap, items: Vec<TaggedValue>) -> TaggedValue {
    h.list_from_iter(items)
}

/// `(key value)`.
fn clause(h: &mut Heap, key: &str, value: TaggedValue) -> TaggedValue {
    let k = sym(h, key);
    list(h, vec![k, value])
}

/// An exclusion row with the given fields, each `(key value)`.
fn exclusion_row(h: &mut Heap, slug: &str, reason: &str, expect: &str, note: &str) -> TaggedValue {
    let s = st(h, slug);
    let r = sym(h, reason);
    let e = sym(h, expect);
    let n = st(h, note);
    let c1 = clause(h, "slug", s);
    let c2 = clause(h, "reason", r);
    let c3 = clause(h, "expect", e);
    let c4 = clause(h, "note", n);
    list(h, vec![c1, c2, c3, c4])
}

/// `(patina-compat-exclusions (version 1) (exclusions row ...))`.
fn exclusions_doc(h: &mut Heap, rows: Vec<TaggedValue>) -> Vec<TaggedValue> {
    let head = sym(h, "patina-compat-exclusions");
    let version = clause(h, "version", TaggedValue::fixnum(1));
    let ex = sym(h, "exclusions");
    let mut section = vec![ex];
    section.extend(rows);
    let section = list(h, section);
    vec![list(h, vec![head, version, section])]
}

#[test]
fn reads_an_exclusion_entry() {
    let mut h = Heap::new();
    let row = exclusion_row(
        &mut h,
        "chibi-mecab",
        "ffi",
        "out-of-scope",
        "chibi/mecab.sld is (include-shared \"mecab\") over libmecab",
    );
    let forms = exclusions_doc(&mut h, vec![row]);
    let got = parse(&forms, &h).unwrap();
    assert_eq!(got.len(), 1);
    assert_eq!(got[0].slug, "chibi-mecab");
    assert_eq!(got[0].reason, Reason::Ffi);
    assert_eq!(got[0].expect, "out-of-scope");
    assert!(got[0].note.contains("include-shared"));
}

#[test]
fn an_exclusion_with_an_unknown_reason_is_refused() {
    let mut h = Heap::new();
    let row = exclusion_row(&mut h, "x", "because-i-said-so", "timeout", "n");
    let forms = exclusions_doc(&mut h, vec![row]);
    assert_eq!(
        parse(&forms, &h).unwrap_err(),
        "x: unknown reason `because-i-said-so`"
    );
}

#[test]
fn an_exclusion_with_an_unknown_status_is_refused() {
    let mut h = Heap::new();
    let row = exclusion_row(&mut h, "x", "ffi", "flaky", "n");
    let forms = exclusions_doc(&mut h, vec![row]);
    assert_eq!(
        parse(&forms, &h).unwrap_err(),
        "x: unknown expected status `flaky`"
    );
}

#[test]
fn an_exclusion_with_a_blank_note_is_refused() {
    let mut h = Heap::new();
    let row = exclusion_row(&mut h, "x", "ffi", "timeout", "  \t");
    let forms = exclusions_doc(&mut h, vec![row]);
    assert_eq!(parse(&forms, &h).unwrap_err(), "x: empty note");
}

#[test]
fn an_exclusion_without_a_note_is_refused() {
    let mut h = Heap::new();
    let s = st(&mut h, "x");
    let r = sym(&mut h, "ffi");
    let e = sym(&mut h, "timeout");
    let c1 = clause(&mut h, "slug", s);
    let c2 = clause(&mut h, "reason", r);
    let c3 = clause(&mut h, "expect", e);
    let row = list(&mut h, vec![c1, c2, c3]);
    let forms = exclusions_doc(&mut h, vec![row]);
    assert_eq!(parse(&forms, &h).unwrap_err(), "x: no note");
}

#[test]
fn a_slug_excluded_twice_is_refused() {
    let mut h = Heap::new();
    let a = exclusion_row(&mut h, "dup", "ffi", "timeout", "one");
    let b = exclusion_row(&mut h, "other", "ffi", "timeout", "two");
    let c = exclusion_row(&mut h, "dup", "ffi", "timeout", "three");
    let forms = exclusions_doc(&mut h, vec![a, b, c]);
    assert_eq!(
        parse(&forms, &h).unwrap_err(),
        "duplicate exclusion for dup"
    );
}

#[test]
fn a_document_with_another_head_is_not_an_exclusion_list() {
    let mut h = Heap::new();
    let head = sym(&mut h, "something-else");
    let forms = vec![list(&mut h, vec![head])];
    assert_eq!(
        parse(&forms, &h).unwrap_err(),
        "not a patina-compat-exclusions file"
    );
    assert_eq!(
        parse(&[], &h).unwrap_err(),
        "not a patina-compat-exclusions file"
    );
}

/// `(patina-compat-results (version 1) (backend "b") (results row ...))`.
fn results_doc(h: &mut Heap, backend: &str, rows: Vec<TaggedValue>) -> Vec<TaggedValue> {
    let head = sym(h, "patina-compat-results");
    let version = clause(h, "version", TaggedValue::fixnum(1));
    let b = st(h, backend);
    let be = clause(h, "backend", b);
    let res = sym(h, "results");
    let mut section = vec![res];
    section.extend(rows);
    let section = list(h, section);
    vec![list(h, vec![head, version, be, section])]
}

#[test]
fn results_read_back_with_their_names() {
    let mut h = Heap::new();
    let slug = st(&mut h, "srfi-1");
    let c1 = clause(&mut h, "slug", slug);
    let test = sym(&mut h, "test");
    let c2 = clause(&mut h, "mode", test);
    let ml = sym(&mut h, "missing-library");
    let c3 = clause(&mut h, "status", ml);
    let missing = sym(&mut h, "missing");
    let n1 = st(&mut h, "srfi 8");
    let n2 = st(&mut h, "srfi 9");
    let c4 = list(&mut h, vec![missing, n1, n2]);
    let row1 = list(&mut h, vec![c1, c2, c3, c4]);

    let slug2 = st(&mut h, "plain");
    let d1 = clause(&mut h, "slug", slug2);
    let pass = sym(&mut h, "pass");
    let d2 = clause(&mut h, "status", pass);
    let row2 = list(&mut h, vec![d1, d2]);

    let forms = results_doc(&mut h, "tree-walker", vec![row1, row2]);
    let (rs, backend) = from_sexp(&forms, &h).unwrap();
    assert_eq!(backend, "tree-walker");
    assert_eq!(rs.len(), 2);
    assert_eq!(rs[0].slug, "srfi-1");
    assert_eq!(rs[0].mode, "test");
    assert_eq!(
        rs[0].status,
        Status::MissingLibrary(vec!["srfi 8".to_string(), "srfi 9".to_string()])
    );
    assert_eq!(rs[1].mode, "probe");
    assert_eq!(rs[1].status, Status::Pass);
}

#[test]
fn an_unknown_status_is_named_in_the_error() {
    let mut h = Heap::new();
    let slug = st(&mut h, "p");
    let c1 = clause(&mut h, "slug", slug);
    let bogus = sym(&mut h, "bogus");
    let c2 = clause(&mut h, "status", bogus);
    let row = list(&mut h, vec![c1, c2]);
    let forms = results_doc(&mut h, "vm", vec![row]);
    assert_eq!(
        from_sexp(&forms, &h).unwrap_err(),
        "unknown status Some(\"bogus\")"
    );

    let slug = st(&mut h, "q");
    let c1 = clause(&mut h, "slug", slug);
    let row = list(&mut h, vec![c1]);
    let forms = results_doc(&mut h, "vm", vec![row]);
    assert_eq!(from_sexp(&forms, &h).unwrap_err(), "unknown status None");
}

#[test]
fn a_snapshot_without_a_backend_was_measured_on_the_vm() {
    let mut h = Heap::new();
    let head = sym(&mut h, "patina-compat-results");
    let res = sym(&mut h, "results");
    let section = list(&mut h, vec![res]);
    let forms = vec![list(&mut h, vec![head, section])];
    let (rs, backend) = from_sexp(&forms, &h).unwrap();
    assert!(rs.is_empty());
    assert_eq!(backend, "vm");
}

#[test]
fn library_names_join_their_parts() {
    let mut h = Heap::new();
    let chibi = sym(&mut h, "chibi");
    let m = sym(&mut h, "match");
    let name = list(&mut h, vec![chibi, m]);
    assert_eq!(library_name(name, &h), Some("chibi match".to_string()));
    let srfi = sym(&mut h, "srfi");
    let one = list(&mut h, vec![srfi, TaggedValue::fixnum(1)]);
    assert_eq!(library_name(one, &h), Some("srfi 1".to_string()));
    let s = st(&mut h, "str");
    let bad = list(&mut h, vec![srfi, s]);
    assert_eq!(library_name(bad, &h), None);
    assert_eq!(library_name(TaggedValue::NULL, &h), None);
}

#[test]
fn cond_expand_pools_every_branch() {
    let mut h = Heap::new();
    let ce = sym(&mut h, "cond-expand");
    let chibi = sym(&mut h, "chibi");
    let a = sym(&mut h, "a");
    let els = sym(&mut h, "else");
    let b = sym(&mut h, "b");
    let c = sym(&mut h, "c");
    let k1 = list(&mut h, vec![chibi, a]);
    let k2 = list(&mut h, vec![els, b, c]);
    let k3 = list(&mut h, vec![chibi]);
    let form = list(&mut h, vec![ce, k1, k2, k3]);
    assert_eq!(cond_expand_bodies(form, &h), Some(vec![a, b, c]));
    assert_eq!(cond_expand_bodies(a, &h), None);
}

#[test]
fn clauses_are_found_by_their_head() {
    let mut h = Heap::new();
    let p = st(&mut h, "chibi/match.sld");
    let path = clause(&mut h, "path", p);
    assert_eq!(clause_argument(path, "path", &h), Some(p));
    assert_eq!(clause_argument(path, "name", &h), None);
    assert_eq!(tagged_form(path, "path", &h), Some(vec![p]));
    assert_eq!(list_elements(TaggedValue::fixnum(3), &h), None);
    let x = sym(&mut h, "x");
    let name = clause(&mut h, "name", x);
    let fields = vec![path, name];
    assert_eq!(row_field(&fields, "name", &h), Some(x));
    assert_eq!(row_symbol(&fields, "name", &h), Some("x".to_string()));
    assert_eq!(row_string(&fields, "path", &h), Some("chibi/match.sld".to_string()));
    assert_eq!(row_string(&fields, "name", &h), None);
    assert_eq!(symbol_name(x, &h), Some("x".to_string()));
    assert_eq!(string_value(x, &h), None);
}

#[test]
fn document_rows_gathers_every_row_section() {
    let mut h = Heap::new();
    let head = sym(&mut h, "doc");
    let rows_head = sym(&mut h, "rows");
    let r1 = TaggedValue::fixnum(1);
    let r2 = TaggedValue::fixnum(2);
    let s1 = list(&mut h, vec![rows_head, r1]);
    let s2 = list(&mut h, vec![rows_head, r2]);
    let doc = list(&mut h, vec![head, s1, s2]);
    let (sections, rows) = document_rows(&[doc], "doc", "rows", &h).unwrap();
    assert_eq!(sections, vec![s1, s2]);
    assert_eq!(rows, vec![r1, r2]);
    assert_eq!(
        document_rows(&[doc], "other", "rows", &h).unwrap_err(),
        "not a other file"
    );
}

const SAMPLE_NOTE: &str = "chibi/mecab.sld is (include-shared \"mecab\") over libmecab";

/// The one-entry sample list, with the fields given.
fn sample(h: &mut Heap, slug: &str, reason: &str, expect: &str, note: &str) -> Vec<TaggedValue> {
    let row = exclusion_row(h, slug, reason, expect, note);
    exclusions_doc(h, vec![row])
}

#[test]
fn reads_an_entry() {
    let mut h = Heap::new();
    let forms = sample(&mut h, "chibi-mecab", "ffi", "out-of-scope", SAMPLE_NOTE);
    let got = parse(&forms, &h).unwrap();
    assert_eq!(got.len(), 1);
    assert_eq!(got[0].slug, "chibi-mecab");
    assert_eq!(got[0].reason, Reason::Ffi);
    assert_eq!(got[0].expect, "out-of-scope");
    assert!(got[0].note.contains("include-shared"));
}

#[test]
fn rejects_an_unknown_reason() {
    let mut h = Heap::new();
    let forms = sample(&mut h, "chibi-mecab", "because-i-said-so", "out-of-scope", SAMPLE_NOTE);
    let err = parse(&forms, &h).unwrap_err();
    assert!(err.contains("unknown reason"), "{}", err);
}

#[test]
fn rejects_an_unknown_expected_status() {
    let mut h = Heap::new();
    let forms = sample(&mut h, "chibi-mecab", "ffi", "mostly-fine", SAMPLE_NOTE);
    let err = parse(&forms, &h).unwrap_err();
    assert!(err.contains("unknown expected status"), "{}", err);
}

#[test]
fn rejects_an_entry_with_no_note() {
    let mut h = Heap::new();
    let forms = sample(&mut h, "chibi-mecab", "ffi", "out-of-scope", "");
    let err = parse(&forms, &h).unwrap_err();
    assert!(err.contains("empty note"), "{}", err);
}

#[test]
fn rejects_a_duplicate_slug() {
    let mut h = Heap::new();
    let first = exclusion_row(&mut h, "chibi-mecab", "ffi", "out-of-scope", "x");
    let second = exclusion_row(&mut h, "chibi-mecab", "ffi", "out-of-scope", SAMPLE_NOTE);
    let forms = exclusions_doc(&mut h, vec![first, second]);
    let err = parse(&forms, &h).unwrap_err();
    assert!(err.contains("duplicate exclusion"), "{}", err);
}
