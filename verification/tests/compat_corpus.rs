use patina::compat::corpus::{declared_off_path, name_relative_path, providers, Package};
use std::path::PathBuf;

fn package(slug: &str, provides: &[&str]) -> Package {
    Package {
        slug: slug.to_string(),
        root: PathBuf::from(slug),
        provides: provides.iter().map(|s| s.to_string()).collect(),
        depends: Vec::new(),
        test_depends: Vec::new(),
        test_script: None,
        off_path_libraries: Vec::new(),
    }
}

#[test]
fn name_relative_path_is_the_sld_convention() {
    assert_eq!(
        name_relative_path("chibi irregex"),
        PathBuf::from("chibi/irregex.sld")
    );
    assert_eq!(
        name_relative_path("srfi 197"),
        PathBuf::from("srfi/197.sld")
    );
    assert_eq!(name_relative_path("foo"), PathBuf::from("foo.sld"));
}

#[test]
fn a_three_part_name_nests_two_directories() {
    assert_eq!(
        name_relative_path("a b c"),
        PathBuf::from("a/b/c.sld")
    );
}

#[test]
fn the_first_provider_in_order_wins() {
    let packages = vec![
        package("alpha", &["chibi match", "shared lib"]),
        package("beta", &["shared lib", "beta only"]),
    ];
    let map = providers(&packages);
    assert_eq!(map.len(), 3);
    assert_eq!(map.get("chibi match"), Some(&0));
    assert_eq!(map.get("shared lib"), Some(&0));
    assert_eq!(map.get("beta only"), Some(&1));
}

#[test]
fn no_packages_provide_nothing() {
    assert!(providers(&[]).is_empty());
}

use patina::compat::corpus::{
    collect_component, collect_imports, import_spec_library, package_decls, search_closure,
    sorted_unique,
};
use patina::compat::run::probe_source;
use patina::heap::Heap;
use patina::tagged_value::TaggedValue;

fn sym(h: &mut Heap, s: &str) -> TaggedValue {
    h.intern_symbol(s)
}

fn list(h: &mut Heap, items: Vec<TaggedValue>) -> TaggedValue {
    h.list_from_iter(items)
}

/// `(a b ...)` of symbols.
fn name(h: &mut Heap, parts: &[&str]) -> TaggedValue {
    let items = parts.iter().map(|p| h.intern_symbol(p)).collect();
    list(h, items)
}

#[test]
fn a_wrapped_import_spec_names_its_library() {
    let mut h = Heap::new();
    let lib = name(&mut h, &["chibi", "test"]);
    let except = sym(&mut h, "except");
    let te = sym(&mut h, "test-equal");
    let inner = list(&mut h, vec![except, lib, te]);
    let rename = sym(&mut h, "rename");
    let pair = name(&mut h, &["test", "test-equal"]);
    let outer = list(&mut h, vec![rename, inner, pair]);
    assert_eq!(import_spec_library(outer, &h), Some("chibi test".to_string()));
    assert_eq!(import_spec_library(lib, &h), Some("chibi test".to_string()));
}

#[test]
fn imports_are_found_through_cond_expand_and_begin() {
    let mut h = Heap::new();
    let import = sym(&mut h, "import");
    let base = name(&mut h, &["scheme", "base"]);
    let srfi = sym(&mut h, "srfi");
    let s64 = list(&mut h, vec![srfi, TaggedValue::fixnum(64)]);
    let imp = list(&mut h, vec![import, base, s64]);
    let chibi = sym(&mut h, "chibi");
    let clause = list(&mut h, vec![chibi, imp]);
    let ce = sym(&mut h, "cond-expand");
    let form = list(&mut h, vec![ce, clause]);
    let begin = sym(&mut h, "begin");
    let one = list(&mut h, vec![srfi, TaggedValue::fixnum(1)]);
    let imp2 = list(&mut h, vec![import, one]);
    let wrapped = list(&mut h, vec![begin, imp2]);

    let mut found = Vec::new();
    collect_imports(form, &mut found, &h);
    collect_imports(wrapped, &mut found, &h);
    assert_eq!(found, vec!["scheme base", "srfi 64", "srfi 1"]);
}

#[test]
fn a_component_names_itself_and_its_dependencies() {
    let mut h = Heap::new();
    let n = sym(&mut h, "name");
    let lib = name(&mut h, &["chibi", "match"]);
    let name_clause = list(&mut h, vec![n, lib]);
    let deps = sym(&mut h, "depends");
    let base = name(&mut h, &["scheme", "base"]);
    let dep_clause = list(&mut h, vec![deps, base]);
    let chibi = name(&mut h, &["chibi"]);
    let inner_dep = list(&mut h, vec![deps, chibi]);
    let cond = sym(&mut h, "chibi");
    let branch = list(&mut h, vec![cond, inner_dep]);
    let ce = sym(&mut h, "cond-expand");
    let ce_clause = list(&mut h, vec![ce, branch]);

    let mut provides = Vec::new();
    let mut depends = Vec::new();
    collect_component(&[name_clause, dep_clause, ce_clause], &mut provides, &mut depends, &h);
    assert_eq!(provides, vec!["chibi match"]);
    assert_eq!(depends, vec!["scheme base", "chibi"]);
}

#[test]
fn package_declarations_are_read_from_the_forms() {
    let mut h = Heap::new();
    let package = sym(&mut h, "package");
    let library = sym(&mut h, "library");
    let n = sym(&mut h, "name");
    let irregex = name(&mut h, &["chibi", "irregex"]);
    let name_clause = list(&mut h, vec![n, irregex]);
    let path = sym(&mut h, "path");
    let p = h.alloc_str("irregex.sld");
    let path_clause = list(&mut h, vec![path, p]);
    let lib = list(&mut h, vec![library, name_clause, path_clause]);
    let td = sym(&mut h, "test-depends");
    let srfi = sym(&mut h, "srfi");
    let s64 = list(&mut h, vec![srfi, TaggedValue::fixnum(64)]);
    let td_clause = list(&mut h, vec![td, s64]);
    let test = sym(&mut h, "test");
    let t = h.alloc_str("run-tests.scm");
    let test_clause = list(&mut h, vec![test, t]);
    let pkg = list(&mut h, vec![package, lib, td_clause, test_clause]);
    let other = sym(&mut h, "ignored");

    let decls = package_decls(&[other, pkg], &h);
    assert_eq!(decls.provides, vec!["chibi irregex"]);
    assert!(decls.depends.is_empty());
    assert_eq!(decls.test_depends, vec!["srfi 64"]);
    assert_eq!(decls.tests, vec!["run-tests.scm"]);
    assert_eq!(
        decls.library_paths,
        vec![("chibi irregex".to_string(), "irregex.sld".to_string())]
    );
    // The declared path is not the one the name implies.
    assert_ne!(
        name_relative_path(&decls.library_paths[0].0),
        PathBuf::from(&decls.library_paths[0].1)
    );
}

#[test]
fn sorted_unique_sorts_and_drops_repeats() {
    let names: Vec<String> = ["srfi 8", "scheme base", "srfi 8", "chibi"]
        .iter()
        .map(|s| s.to_string())
        .collect();
    assert_eq!(sorted_unique(&names), vec!["chibi", "scheme base", "srfi 8"]);
}

fn pkg(slug: &str, provides: &[&str], depends: &[&str], test_depends: &[&str]) -> Package {
    let mut p = package(slug, provides);
    p.depends = depends.iter().map(|s| s.to_string()).collect();
    p.test_depends = test_depends.iter().map(|s| s.to_string()).collect();
    p
}

#[test]
fn the_closure_follows_dependencies_transitively() {
    let all = vec![
        pkg("a", &["lib a"], &["lib b"], &["lib t"]),
        pkg("b", &["lib b"], &["lib c", "scheme base"], &[]),
        pkg("c", &["lib c"], &["lib b"], &[]),
        pkg("t", &["lib t"], &[], &[]),
        pkg("unrelated", &["lib u"], &[], &[]),
    ];
    let providers = providers(&all);
    let mut got = search_closure(&all[0], &all, &providers, false);
    got.sort();
    assert_eq!(got, vec![1, 2]);
    let mut got = search_closure(&all[0], &all, &providers, true);
    got.sort();
    assert_eq!(got, vec![1, 2, 3]);
    // Test dependencies are not followed out of a dependency.
    let mut got = search_closure(&all[1], &all, &providers, true);
    got.sort();
    assert_eq!(got, vec![2]);
}

#[test]
fn the_probe_imports_every_provided_library() {
    let provides = vec!["chibi match".to_string(), "srfi 1".to_string()];
    assert_eq!(
        probe_source(&provides),
        "(import (scheme base) (chibi match) (srfi 1))\n(display \"patina-compat probe ok\")\n(newline)\n"
    );
}

#[test]
fn a_library_declared_where_its_name_puts_it_is_not_off_path() {
    assert!(!declared_off_path("chibi irregex", "chibi/irregex.sld"));
    assert!(declared_off_path("chibi irregex", "irregex.sld"));
    assert!(declared_off_path("srfi 1", "lib/srfi/1.sld"));
}
