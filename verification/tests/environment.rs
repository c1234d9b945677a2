use patina::environment::{BindingLocation, Environments, IntroducedDefinition, ScopedSetError};
use patina::heap::Heap;
use patina::scope::ScopeSet;
use patina::tagged_value::TaggedValue;

fn n(i: i64) -> TaggedValue {
    TaggedValue::fixnum(i)
}

fn zero() -> TaggedValue {
    TaggedValue::fixnum(0)
}

#[test]
fn test_define_and_get() {
    let mut envs = Environments::new();
    let env = envs.new_env();
    envs.define(env, "x", TaggedValue::fixnum(42));
    assert_eq!(envs.get(env, "x"), Some(TaggedValue::fixnum(42)));
}

#[test]
fn test_slot_stability_across_redefine() {
    let mut envs = Environments::new();
    let env = envs.new_env();
    envs.define(env, "x", TaggedValue::fixnum(1));
    let slot = envs.local_slot(env, "x").unwrap();

    envs.define(env, "x", TaggedValue::fixnum(2));
    assert_eq!(envs.local_slot(env, "x"), Some(slot));
    assert_eq!(envs.slot_value(env, slot), TaggedValue::fixnum(2));

    envs.set_slot_value(env, slot, TaggedValue::fixnum(3));
    assert_eq!(envs.get(env, "x"), Some(TaggedValue::fixnum(3)));
    envs.set(env, "x", TaggedValue::fixnum(4)).unwrap();
    assert_eq!(envs.slot_value(env, slot), TaggedValue::fixnum(4));

    envs.define(env, "y", TaggedValue::fixnum(10));
    assert_ne!(envs.local_slot(env, "y"), Some(slot));
    assert_eq!(envs.slot_value(env, slot), TaggedValue::fixnum(4));
}

#[test]
fn test_local_slot_ignores_parent() {
    let mut envs = Environments::new();
    let parent = envs.new_env();
    envs.define(parent, "x", TaggedValue::fixnum(42));
    let child = envs.with_parent(parent);
    assert_eq!(envs.get(child, "x"), Some(TaggedValue::fixnum(42)));
    assert_eq!(envs.local_slot(child, "x"), None);
}

#[test]
fn linear_and_indexed_frames_agree_on_slots() {
    let mut envs = Environments::new();
    let env = envs.new_env();
    let names: Vec<String> = (0..10).map(|i| format!("v{i}")).collect();
    for (i, name) in names.iter().enumerate() {
        envs.define(env, name.as_str(), TaggedValue::fixnum(i as i64));
    }
    for (i, name) in names.iter().enumerate() {
        assert_eq!(envs.local_slot(env, name), Some(i as u32), "slot of {name}");
        assert_eq!(envs.get(env, name), Some(TaggedValue::fixnum(i as i64)));
    }
    envs.define(env, "v0", TaggedValue::fixnum(99));
    assert_eq!(envs.local_slot(env, "v0"), Some(0));
    assert_eq!(envs.get(env, "v0"), Some(TaggedValue::fixnum(99)));
    assert_eq!(envs.bindings(env).len(), names.len());
}

#[test]
fn test_env_ids_unique_and_nonzero() {
    let mut envs = Environments::new();
    let a = envs.new_env();
    let b = envs.new_env();
    assert_ne!(envs.env_id(a), 0);
    assert_ne!(envs.env_id(a), envs.env_id(b));
    let alias = a;
    assert_eq!(envs.env_id(alias), envs.env_id(a));
}

#[test]
fn test_parent_lookup() {
    let mut envs = Environments::new();
    let parent = envs.new_env();
    envs.define(parent, "x", TaggedValue::fixnum(42));
    let child = envs.with_parent(parent);
    assert_eq!(envs.get(child, "x"), Some(TaggedValue::fixnum(42)));
}

#[test]
fn test_bindings() {
    let mut envs = Environments::new();
    let env = envs.new_env();
    envs.define(env, "x", TaggedValue::fixnum(42));
    envs.define(env, "y", TaggedValue::boolean(true));
    envs.define(env, "z", TaggedValue::fixnum(100));

    let bindings = envs.bindings(env);
    assert_eq!(bindings.len(), 3);

    let names: Vec<String> = bindings.iter().map(|(k, _)| k.clone()).collect();
    assert!(names.contains(&"x".to_string()));
    assert!(names.contains(&"y".to_string()));
    assert!(names.contains(&"z".to_string()));

    for (name, tv) in &bindings {
        match name.as_str() {
            "x" => assert_eq!(*tv, TaggedValue::fixnum(42)),
            "y" => assert_eq!(*tv, TaggedValue::boolean(true)),
            "z" => assert_eq!(*tv, TaggedValue::fixnum(100)),
            _ => panic!("Unexpected binding: {}", name),
        }
    }
}

#[test]
fn test_bindings_excludes_parent() {
    let mut envs = Environments::new();
    let parent = envs.new_env();
    envs.define(parent, "x", TaggedValue::fixnum(42));
    envs.define(parent, "y", TaggedValue::fixnum(100));

    let child = envs.with_parent(parent);
    envs.define(child, "z", TaggedValue::boolean(true));

    let bindings = envs.bindings(child);
    assert_eq!(bindings.len(), 1);
    assert_eq!(bindings[0].0, "z");
    assert_eq!(bindings[0].1, TaggedValue::boolean(true));
}

/// A library environment holding `count`, and an importer.
fn library_and_importer(envs: &mut Environments) -> (usize, usize) {
    let library = envs.new_env();
    envs.define(library, "count", n(0));
    let importer = envs.new_env();
    (library, importer)
}

#[test]
fn a_shared_binding_reads_what_its_owner_holds_now() {
    let mut envs = Environments::new();
    let (library, importer) = library_and_importer(&mut envs);
    assert!(envs.share_binding(importer, "count", library, "count"));
    envs.set(library, "count", n(2)).unwrap();

    assert_eq!(envs.get(importer, "count"), Some(n(2)));
    let slot = envs.local_slot(importer, "count").unwrap();
    assert_eq!(envs.slot_value(importer, slot), n(2));
    assert_eq!(envs.bindings(importer), vec![("count".to_string(), n(2))]);
}

#[test]
fn a_write_to_a_shared_binding_lands_in_its_owner() {
    let mut envs = Environments::new();
    let (library, importer) = library_and_importer(&mut envs);
    envs.share_binding(importer, "count", library, "count");

    envs.set(importer, "count", n(10)).unwrap();
    assert_eq!(envs.get(library, "count"), Some(n(10)));

    let slot = envs.local_slot(importer, "count").unwrap();
    envs.set_slot_value(importer, slot, n(11));
    assert_eq!(envs.get(library, "count"), Some(n(11)));
    assert_eq!(envs.get(importer, "count"), Some(n(11)));
}

#[test]
fn a_definition_over_a_shared_binding_is_the_importers_own() {
    let mut envs = Environments::new();
    let (library, importer) = library_and_importer(&mut envs);
    envs.share_binding(importer, "count", library, "count");
    let slot = envs.local_slot(importer, "count").unwrap();

    envs.define(importer, "count", n(99));
    assert_eq!(envs.get(importer, "count"), Some(n(99)));
    assert_eq!(envs.get(library, "count"), Some(n(0)));
    assert_eq!(envs.local_slot(importer, "count"), Some(slot));

    envs.set(importer, "count", n(100)).unwrap();
    assert_eq!(envs.get(library, "count"), Some(n(0)));
}

#[test]
fn sharing_over_a_definition_replaces_it_in_place() {
    let mut envs = Environments::new();
    let (library, importer) = library_and_importer(&mut envs);
    envs.define(importer, "count", n(7));
    let slot = envs.local_slot(importer, "count").unwrap();

    envs.share_binding(importer, "count", library, "count");
    assert_eq!(envs.local_slot(importer, "count"), Some(slot));
    assert_eq!(envs.slot_value(importer, slot), n(0));
}

#[test]
fn a_re_export_forwards_to_the_owner_and_not_to_the_library_between() {
    let mut envs = Environments::new();
    let (library, relay) = library_and_importer(&mut envs);
    envs.share_binding(relay, "relayed", library, "count");
    let importer = envs.new_env();
    envs.share_binding(importer, "again", relay, "relayed");

    envs.set(library, "count", n(3)).unwrap();
    assert_eq!(envs.get(importer, "again"), Some(n(3)));

    envs.define(relay, "relayed", n(-1));
    envs.set(library, "count", n(4)).unwrap();
    assert_eq!(envs.get(importer, "again"), Some(n(4)));

    assert_eq!(envs.shared_owners(importer), vec![library]);
}

#[test]
fn a_staging_environment_carries_a_binding_without_owning_it() {
    let mut envs = Environments::new();
    let (library, staging) = library_and_importer(&mut envs);
    envs.share_binding(staging, "count", library, "count");
    envs.define(staging, "loose", n(5));

    let importer = envs.new_env();
    assert!(envs.copy_binding(importer, "c:count", staging, "count"));
    assert!(envs.copy_binding(importer, "c:loose", staging, "loose"));
    assert!(!envs.copy_binding(importer, "c:absent", staging, "absent"));
    assert_eq!(envs.get(importer, "c:absent"), None);

    envs.set(library, "count", n(2)).unwrap();
    assert_eq!(envs.get(importer, "c:count"), Some(n(2)));

    envs.set(staging, "loose", n(6)).unwrap();
    assert_eq!(envs.get(importer, "c:loose"), Some(n(5)));
    assert_eq!(envs.shared_owners(importer), vec![library]);
}

#[test]
fn a_re_exported_binding_is_one_location_whoever_assigns_and_whenever() {
    let mut envs = Environments::new();
    let (primitives, base) = library_and_importer(&mut envs);
    envs.share_binding(base, "count", primitives, "count");
    let early = envs.new_env();
    envs.share_binding(early, "count", base, "count");

    envs.set(base, "count", n(50)).unwrap();
    let late = envs.new_env();
    envs.share_binding(late, "count", base, "count");

    for env in [primitives, base, early, late] {
        assert_eq!(envs.get(env, "count"), Some(n(50)));
    }
    envs.set(early, "count", n(51)).unwrap();
    for env in [primitives, base, early, late] {
        assert_eq!(envs.get(env, "count"), Some(n(51)));
    }
}

#[test]
fn the_collector_is_shown_each_owner_once() {
    let mut envs = Environments::new();
    let (library, importer) = library_and_importer(&mut envs);
    envs.define(library, "other", n(1));
    let second = envs.new_env();
    envs.define(second, "third", n(2));
    envs.share_binding(importer, "count", library, "count");
    envs.share_binding(importer, "third", second, "third");
    envs.share_binding(importer, "other", library, "other");

    assert_eq!(envs.shared_owners(importer), vec![library, second]);
}

#[test]
fn a_name_the_source_does_not_bind_plainly_is_left_to_the_caller() {
    let mut envs = Environments::new();
    let (library, importer) = library_and_importer(&mut envs);
    assert!(!envs.share_binding(importer, "missing", library, "missing"));
    assert_eq!(envs.get(importer, "missing"), None);

    let child = envs.with_parent(library);
    assert!(!envs.share_binding(importer, "count", child, "count"));
}

#[test]
fn an_environment_never_forwards_to_itself() {
    let mut envs = Environments::new();
    let (library, _) = library_and_importer(&mut envs);
    assert!(envs.share_binding(library, "count", library, "count"));
    assert!(envs.share_binding(library, "also", library, "count"));
    assert_eq!(envs.get(library, "count"), Some(n(0)));
    assert_eq!(envs.get(library, "also"), Some(n(0)));

    assert_eq!(envs.shared_owners(library).len(), 0, "a self-reference would leak the environment");
}

#[test]
fn equal_values_in_two_environments_are_two_locations() {
    let mut envs = Environments::new();
    let library = envs.new_env();
    envs.define(library, "X", zero());
    let program = envs.new_env();
    envs.define(program, "X", zero());

    assert_eq!(envs.get(library, "X"), envs.get(program, "X"));
    assert_ne!(envs.binding_location(library, "X"), envs.binding_location(program, "X"));
    assert_eq!(envs.binding_location(program, "missing"), None);
}

#[test]
fn an_import_is_its_librarys_location_by_any_route_and_any_name() {
    let mut envs = Environments::new();
    let library = envs.new_env();
    envs.define(library, "X", zero());
    let relay = envs.new_env();
    envs.share_binding(relay, "relayed", library, "X");
    let program = envs.new_env();
    envs.share_binding(program, "direct", library, "X");
    envs.share_binding(program, "through-relay", relay, "relayed");

    let home = envs.binding_location(library, "X");
    assert!(home.is_some());
    assert_eq!(envs.binding_location(program, "direct"), home);
    assert_eq!(envs.binding_location(program, "through-relay"), home);
    assert_eq!(envs.binding_location(relay, "relayed"), home);

    envs.define(program, "direct", zero());
    assert_ne!(envs.binding_location(program, "direct"), home);
}

#[test]
fn the_walk_is_gets_walk() {
    let mut envs = Environments::new();
    let root = envs.new_env();
    envs.define(root, "X", zero());
    let child = envs.with_parent(root);
    assert_eq!(envs.binding_location(child, "X"), envs.binding_location(root, "X"));

    let library = envs.new_env();
    envs.define(library, "helper", zero());
    envs.define_alias(root, "helper.1", library, "helper");
    assert_eq!(envs.binding_location(child, "helper.1"), envs.binding_location(library, "helper"));

    envs.define(root, "renamed.7", zero());
    envs.define_alias(root, "bare", root, "renamed.7");
    assert_eq!(envs.get(child, "bare"), Some(zero()));
    assert_eq!(envs.binding_location(child, "bare"), envs.binding_location(root, "renamed.7"));
    envs.define_alias(root, "dangling", root, "nowhere");
    assert_eq!(envs.get(child, "dangling"), None);
    assert_eq!(envs.binding_location(child, "dangling"), None);

    envs.define(child, "X", zero());
    assert_ne!(envs.binding_location(child, "X"), envs.binding_location(root, "X"));
}

#[test]
fn has_and_root_follow_the_parent_chain() {
    let mut envs = Environments::new();
    let root = envs.new_env();
    envs.define(root, "x", n(1));
    let mid = envs.with_parent(root);
    let leaf = envs.with_parent(mid);
    assert!(envs.has(leaf, "x"));
    assert!(!envs.has(leaf, "y"));
    assert_eq!(envs.root(leaf), root);
    assert_eq!(envs.root_id(leaf), envs.env_id(root));
    assert_eq!(envs.parent(leaf), Some(mid));
    assert_eq!(envs.parent(root), None);
}

#[test]
fn a_write_to_an_unbound_name_reports_the_name() {
    let mut envs = Environments::new();
    let env = envs.new_env();
    assert_eq!(envs.set(env, "nothing", n(1)), Err("nothing".to_string()));
    envs.define_alias(env, "dangling", env, "nowhere");
    assert_eq!(envs.set(env, "dangling", n(1)), Err("nowhere".to_string()));
}

#[test]
fn a_cycle_of_aliases_answers_nothing() {
    let mut envs = Environments::new();
    let a = envs.new_env();
    let b = envs.new_env();
    envs.define_alias(a, "x", b, "y");
    envs.define_alias(b, "y", a, "x");
    assert_eq!(envs.get(a, "x"), None);
    assert!(envs.set(a, "x", n(1)).is_err());
}

#[test]
fn alias_targets_and_local_values_list_what_the_collector_traces() {
    let mut envs = Environments::new();
    let env = envs.new_env();
    let library = envs.new_env();
    envs.define(env, "a", n(1));
    envs.define(env, "b", n(2));
    envs.define_alias(env, "h", library, "helper");
    envs.define_alias(env, "self", env, "a");
    assert_eq!(envs.alias_targets(env), vec![library]);
    let values = envs.local_values(env);
    assert!(values.contains(&n(1)));
    assert!(values.contains(&n(2)));
    assert_eq!(envs.local_names(env), vec!["a".to_string(), "b".to_string()]);
}

fn scopes(ids: &[u64]) -> ScopeSet {
    let mut set = ScopeSet::new();
    for id in ids {
        set.insert(*id);
    }
    set
}

fn same_scopes(a: &ScopeSet, b: &ScopeSet) -> bool {
    a.same_as(b)
}

#[test]
fn test_scoped_bindings_basic() {
    let mut envs = Environments::new();
    let env = envs.new_env();
    let s = scopes(&[1]);
    envs.define_with_scopes(env, "x", scopes(&[1]), TaggedValue::fixnum(42));

    let result = envs.get_with_scopes(env, "x", &s).unwrap();
    assert_eq!(result, Some(TaggedValue::fixnum(42)));

    let larger = scopes(&[1, 2]);
    let result = envs.get_with_scopes(env, "x", &larger).unwrap();
    assert_eq!(result, Some(TaggedValue::fixnum(42)));
}

#[test]
fn test_scoped_bindings_hygiene_example() {
    let mut heap = Heap::new();
    let mut envs = Environments::new();
    let env = envs.new_env();

    let outer_tv = heap.intern_symbol("outer");
    envs.define_with_scopes(env, "x", scopes(&[1]), outer_tv);
    let inner_tv = heap.intern_symbol("inner");
    envs.define_with_scopes(env, "x", scopes(&[1, 2, 3]), inner_tv);

    let macro_x_scopes = scopes(&[1, 2]);
    let result_tv = envs.get_with_scopes(env, "x", &macro_x_scopes).unwrap().unwrap();
    let name = heap.get_symbol_name(result_tv).map(|s| s.to_string());
    assert_eq!(name.as_deref(), Some("outer"));
}

#[test]
fn test_scoped_bindings_most_specific() {
    let mut envs = Environments::new();
    let env = envs.new_env();
    envs.define_with_scopes(env, "x", scopes(&[1]), TaggedValue::fixnum(1));
    envs.define_with_scopes(env, "x", scopes(&[1, 2]), TaggedValue::fixnum(2));

    assert_eq!(envs.get_with_scopes(env, "x", &scopes(&[1, 2])).unwrap(), Some(TaggedValue::fixnum(2)));
    assert_eq!(envs.get_with_scopes(env, "x", &scopes(&[1])).unwrap(), Some(TaggedValue::fixnum(1)));
}

#[test]
fn test_scoped_bindings_fallback_to_unmarked() {
    let mut heap = Heap::new();
    let mut envs = Environments::new();
    let env = envs.new_env();
    let tv = heap.intern_symbol("primitive-cons");
    envs.define(env, "cons", tv);

    let result_tv = envs.get_with_scopes(env, "cons", &scopes(&[1])).unwrap().unwrap();
    let name = heap.get_symbol_name(result_tv).map(|s| s.to_string());
    assert_eq!(name.as_deref(), Some("primitive-cons"));
}

#[test]
fn two_unordered_bindings_do_not_resolve() {
    let mut envs = Environments::new();
    let env = envs.new_env();
    envs.define_with_scopes(env, "x", scopes(&[1]), TaggedValue::fixnum(1));
    envs.define_with_scopes(env, "x", scopes(&[2]), TaggedValue::fixnum(2));

    let both = scopes(&[1, 2]);
    let err = envs.get_with_scopes(env, "x", &both).expect_err("neither binding contains the other");
    assert_eq!(err.name, "x");

    assert_eq!(envs.get_with_scopes(env, "x", &scopes(&[1])).unwrap(), Some(TaggedValue::fixnum(1)));
    assert_eq!(envs.get_with_scopes(env, "x", &scopes(&[2])).unwrap(), Some(TaggedValue::fixnum(2)));
}

#[test]
fn an_ambiguous_write_reports_ambiguity() {
    let mut envs = Environments::new();
    let env = envs.new_env();
    envs.define_with_scopes(env, "x", scopes(&[1]), TaggedValue::fixnum(1));
    envs.define_with_scopes(env, "x", scopes(&[2]), TaggedValue::fixnum(2));
    match envs.set_with_scopes(env, "x", &scopes(&[1, 2]), TaggedValue::fixnum(9)) {
        Err(ScopedSetError::Ambiguous(e)) => assert_eq!(e.name, "x"),
        other => panic!("expected an ambiguity, got {other:?}"),
    }
    assert_eq!(envs.get_with_scopes(env, "x", &scopes(&[1])).unwrap(), Some(TaggedValue::fixnum(1)));
    assert_eq!(envs.get_with_scopes(env, "x", &scopes(&[2])).unwrap(), Some(TaggedValue::fixnum(2)));
}

#[test]
fn a_write_to_nothing_reports_undefined() {
    let mut envs = Environments::new();
    let env = envs.new_env();
    match envs.set_with_scopes(env, "absent", &scopes(&[1]), TaggedValue::fixnum(9)) {
        Err(ScopedSetError::Undefined(name)) => assert_eq!(name, "absent"),
        other => panic!("expected undefined, got {other:?}"),
    }
}

#[test]
fn both_arms_render_a_message() {
    let mut envs = Environments::new();
    let env = envs.new_env();
    let undefined = envs
        .set_with_scopes(env, "absent", &scopes(&[1]), TaggedValue::fixnum(9))
        .unwrap_err()
        .to_display_string();
    assert!(undefined.contains("undefined variable"), "{undefined}");
    assert!(undefined.contains("absent"), "{undefined}");

    envs.define_with_scopes(env, "x", scopes(&[1]), TaggedValue::fixnum(1));
    envs.define_with_scopes(env, "x", scopes(&[2]), TaggedValue::fixnum(2));
    let ambiguous = envs
        .set_with_scopes(env, "x", &scopes(&[1, 2]), TaggedValue::fixnum(9))
        .unwrap_err()
        .to_display_string();
    assert!(ambiguous.contains("ambiguous reference"), "{ambiguous}");
}

fn recorded(envs: &Environments, env: usize, name: &str) -> Vec<(ScopeSet, String)> {
    let mut out = envs.introduced_globals(env, name);
    out.sort_by_key(|(scopes, _)| scopes.len());
    out
}

#[test]
fn a_name_with_no_introduced_definition_yields_nothing() {
    let mut envs = Environments::new();
    let env = envs.new_env();
    envs.define_introduced_global(env, "x", scopes(&[1]), "x #1");
    assert!(recorded(&envs, env, "y").is_empty());
}

#[test]
fn two_expansions_of_one_spelling_are_two_entries() {
    let mut envs = Environments::new();
    let env = envs.new_env();
    envs.define_introduced_global(env, "count", scopes(&[1]), "count #1");
    envs.define_introduced_global(env, "count", scopes(&[2]), "count #2");
    let entries = recorded(&envs, env, "count");
    assert_eq!(entries.len(), 2);
    assert!(entries.iter().any(|(s, n)| same_scopes(s, &scopes(&[1])) && n == "count #1"));
    assert!(entries.iter().any(|(s, n)| same_scopes(s, &scopes(&[2])) && n == "count #2"));
}

#[test]
fn the_same_identity_recorded_twice_overwrites() {
    let mut envs = Environments::new();
    let env = envs.new_env();
    envs.define_introduced_global(env, "count", scopes(&[1, 2]), "stale");
    envs.define_introduced_global(env, "count", scopes(&[1, 2]), "fresh");
    let entries = recorded(&envs, env, "count");
    assert_eq!(entries.len(), 1);
    assert!(same_scopes(&entries[0].0, &scopes(&[1, 2])));
    assert_eq!(entries[0].1, "fresh");
}

#[test]
fn entries_are_local_to_the_environment_that_recorded_them() {
    let mut envs = Environments::new();
    let parent = envs.new_env();
    envs.define_introduced_global(parent, "x", scopes(&[1]), "x #1");
    let child = envs.with_parent(parent);
    assert!(recorded(&envs, child, "x").is_empty());
    assert_eq!(recorded(&envs, parent, "x").len(), 1);
}

fn reaches(envs: &Environments, env: usize, name: &str, ids: &[u64]) -> bool {
    envs.name_reaches_binding_of(env, name, &scopes(ids)).expect("not ambiguous")
}

#[test]
fn the_name_reaches_only_the_latest_of_two_introduced_definitions() {
    let mut envs = Environments::new();
    let env = envs.new_env();
    envs.define_scoped_definition(env, "count", scopes(&[1]), zero());
    envs.define_scoped_definition(env, "count", scopes(&[2]), zero());
    assert!(!reaches(&envs, env, "count", &[1]));
    assert!(reaches(&envs, env, "count", &[2]));
}

#[test]
fn a_plain_sibling_takes_the_name_from_an_introduced_definition() {
    let mut envs = Environments::new();
    let env = envs.new_env();
    envs.define(env, "x", zero());
    envs.define_scoped_definition(env, "x", scopes(&[1]), zero());
    assert!(!reaches(&envs, env, "x", &[1]));
    assert!(reaches(&envs, env, "x", &[]));
    assert!(reaches(&envs, env, "x", &[7]));
}

#[test]
fn a_bare_alias_is_the_introduced_global_it_was_installed_for() {
    let mut envs = Environments::new();
    let env = envs.new_env();
    for (id, renamed) in [(1, "count #1"), (2, "count #2")] {
        envs.define(env, renamed, zero());
        envs.define_introduced_global(env, "count", scopes(&[id]), renamed);
        envs.define_alias(env, "count", env, renamed);
    }
    assert!(!reaches(&envs, env, "count", &[1]));
    assert!(reaches(&envs, env, "count", &[2]));
}

#[test]
fn the_walk_continues_into_the_parent() {
    let mut envs = Environments::new();
    let parent = envs.new_env();
    envs.define(parent, "x", zero());
    envs.define_scoped_definition(parent, "x", scopes(&[1]), zero());
    let child = envs.with_parent(parent);
    assert!(!reaches(&envs, child, "x", &[1]));
    assert!(reaches(&envs, child, "x", &[2]));
}

#[test]
fn a_macro_introduced_definition_has_a_location_of_its_own() {
    let mut envs = Environments::new();
    let env = envs.new_env();
    envs.define_scoped_definition(env, "X", scopes(&[1]), zero());
    let other = envs.new_env();
    envs.define(other, "X", zero());

    assert_eq!(envs.get(env, "X"), Some(zero()));
    let here = envs.binding_location(env, "X");
    assert!(matches!(here, Some(BindingLocation::Scoped(..))));
    assert_ne!(here, envs.binding_location(other, "X"));

    envs.define(env, "X", zero());
    assert!(matches!(envs.binding_location(env, "X"), Some(BindingLocation::Slot(..))));
}

fn tree_walker_library(envs: &mut Environments) -> usize {
    let library = envs.new_env();
    envs.define(library, "count", n(100));
    envs.define_scoped_definition(library, "count", scopes(&[1]), n(10));
    envs.define_scoped_definition(library, "count", scopes(&[2]), n(20));
    library
}

#[test]
fn a_mentions_scopes_select_its_own_generators_definition() {
    let mut envs = Environments::new();
    let library = tree_walker_library(&mut envs);
    for (mention, run) in [(scopes(&[1, 7]), 1u64), (scopes(&[2, 8]), 2u64)] {
        let (home, found) = envs.introduced_definition(library, "count", &mention).unwrap();
        assert_eq!(home, library);
        match found {
            IntroducedDefinition::Scoped(s) => assert!(same_scopes(&s, &scopes(&[run]))),
            other => panic!("expected a scoped definition, got {other:?}"),
        }
    }
    assert!(envs.introduced_definition(library, "count", &scopes(&[9])).is_none());
    assert!(envs.introduced_definition(library, "other", &scopes(&[1])).is_none());
    assert!(envs.has_introduced_definition(library, "count"));
    assert!(!envs.has_introduced_definition(library, "other"));
}

#[test]
fn a_scoped_alias_reads_writes_and_locates_that_definition() {
    let mut envs = Environments::new();
    let library = tree_walker_library(&mut envs);
    let program = envs.new_env();
    envs.define(program, "count", n(-1));
    envs.define_scoped_alias(program, "count.1", library, "count", scopes(&[1]));
    envs.define_scoped_alias(program, "count.2", library, "count", scopes(&[2]));

    assert_eq!(envs.get(program, "count.1"), Some(n(10)));
    assert_eq!(envs.get(program, "count.2"), Some(n(20)));

    envs.set(program, "count.1", n(11)).unwrap();
    assert_eq!(envs.get(program, "count.1"), Some(n(11)));
    assert_eq!(envs.get(program, "count.2"), Some(n(20)));
    assert_eq!(envs.get(library, "count"), Some(n(100)));
    assert_eq!(envs.get(program, "count"), Some(n(-1)));

    let first = envs.binding_location(program, "count.1");
    assert!(matches!(first, Some(BindingLocation::Scoped(..))));
    assert_ne!(first, envs.binding_location(program, "count.2"));
    assert_ne!(first, envs.binding_location(library, "count"));
}

#[test]
fn a_scoped_alias_never_falls_back_to_the_spelling() {
    let mut envs = Environments::new();
    let library = tree_walker_library(&mut envs);
    let program = envs.new_env();
    envs.define_scoped_alias(program, "count.9", library, "count", scopes(&[9]));

    assert_eq!(envs.get(program, "count.9"), None);
    assert_eq!(envs.binding_location(program, "count.9"), None);
    assert_eq!(envs.set(program, "count.9", n(1)), Err("count".to_string()));
    assert_eq!(envs.get(library, "count"), Some(n(100)));
}

#[test]
fn the_vms_renamed_global_is_found_by_the_same_question() {
    let mut envs = Environments::new();
    let library = envs.new_env();
    for (run, renamed, value) in [(1u64, "count.g1", 10i64), (2, "count.g2", 20)] {
        envs.define(library, renamed, n(value));
        envs.define_introduced_global(library, "count", scopes(&[run]), renamed);
        envs.define_alias(library, "count", library, renamed);
    }
    let (home, found) = envs.introduced_definition(library, "count", &scopes(&[1, 7])).unwrap();
    assert_eq!(home, library);
    match found {
        IntroducedDefinition::Renamed(name) => assert_eq!(name, "count.g1"),
        other => panic!("expected a renamed global, got {other:?}"),
    }
    assert!(envs.has_introduced_definition(library, "count"));
}

#[test]
fn a_lexical_binding_is_not_an_introduced_definition() {
    let mut envs = Environments::new();
    let library = envs.new_env();
    let body = envs.with_parent(library);
    envs.define_with_scopes(body, "f", scopes(&[3]), n(1));
    assert!(envs.introduced_definition(body, "f", &scopes(&[3, 7])).is_none());
    assert!(!envs.has_introduced_definition(body, "f"));

    envs.define_scoped_definition(library, "g", scopes(&[4]), n(2));
    let (home, _) = envs.introduced_definition(body, "g", &scopes(&[4, 7])).unwrap();
    assert_eq!(home, library);
}

fn library_and_program(envs: &mut Environments) -> (usize, usize) {
    let library = envs.new_env();
    envs.define(library, "count", n(0));
    let program = envs.new_env();
    envs.share_binding(program, "count", library, "count");
    (library, program)
}

#[test]
fn the_alias_outlives_a_definition_over_the_import() {
    let mut envs = Environments::new();
    let (library, program) = library_and_program(&mut envs);
    let alias = envs.import_alias(program, "count", || "count.alias".to_string()).unwrap();

    envs.define(program, "count", n(100));
    envs.set(library, "count", n(1)).unwrap();

    assert_eq!(envs.get(program, "count"), Some(n(100)));
    assert_eq!(envs.get(program, &alias), Some(n(1)));
    envs.set(program, &alias, n(2)).unwrap();
    assert_eq!(envs.get(library, "count"), Some(n(2)));
    assert_eq!(envs.get(program, "count"), Some(n(100)));
    assert_eq!(envs.binding_location(program, &alias), envs.binding_location(library, "count"));
}

#[test]
fn one_name_has_one_alias_however_often_it_is_asked_for() {
    let mut envs = Environments::new();
    let (_, program) = library_and_program(&mut envs);
    let mut minted = 0;
    let first = envs
        .import_alias(program, "count", || {
            minted += 1;
            format!("count.{minted}")
        })
        .unwrap();
    let again = envs
        .import_alias(program, "count", || {
            minted += 1;
            format!("count.{minted}")
        })
        .unwrap();
    assert_eq!(first, again);
    assert_eq!(minted, 1, "an alias per name, not per request");
}

#[test]
fn a_second_name_for_the_location_has_an_alias_of_its_own() {
    let mut envs = Environments::new();
    let (library, program) = library_and_program(&mut envs);
    let mut minted = 0;
    let first = envs
        .import_alias(program, "count", || {
            minted += 1;
            format!("alias.{minted}")
        })
        .unwrap();

    envs.share_binding(program, "c:count", library, "count");
    let prefixed = envs
        .import_alias(program, "c:count", || {
            minted += 1;
            format!("alias.{minted}")
        })
        .unwrap();
    assert_ne!(first, prefixed);
    assert_eq!(
        envs.import_alias(program, "c:count", || {
            minted += 1;
            format!("alias.{minted}")
        })
        .unwrap(),
        prefixed
    );
    assert_eq!(
        envs.import_alias(program, "count", || {
            minted += 1;
            format!("alias.{minted}")
        })
        .unwrap(),
        first
    );
    assert_eq!(minted, 2);

    envs.set(library, "count", n(9)).unwrap();
    assert_eq!(envs.get(program, &first), Some(n(9)));
    assert_eq!(envs.get(program, &prefixed), Some(n(9)));
    assert_eq!(envs.local_names(program), ["count", "c:count"]);
}

#[test]
fn an_alias_is_not_among_the_names_a_program_bound() {
    let mut envs = Environments::new();
    let (_, program) = library_and_program(&mut envs);
    envs.define(program, "before", n(1));
    envs.import_alias(program, "count", || "count.alias".to_string()).unwrap();
    envs.define(program, "after", n(2));

    assert_eq!(envs.local_names(program), ["count", "before", "after"]);
    assert_eq!(
        envs.bindings(program),
        [("count".to_string(), n(0)), ("before".to_string(), n(1)), ("after".to_string(), n(2)),]
    );
}

#[test]
fn an_alias_defined_over_is_replaced_not_handed_out_again() {
    let mut envs = Environments::new();
    let (library, program) = library_and_program(&mut envs);
    let first = envs.import_alias(program, "count", || "count.alias".to_string()).unwrap();

    envs.define(program, &first, n(7));
    assert_eq!(envs.local_names(program), ["count", "count.alias"]);
    assert_eq!(envs.bindings(program), [("count".to_string(), n(0)), ("count.alias".to_string(), n(7))]);
    let second = envs.import_alias(program, "count", || "count.again".to_string()).unwrap();

    assert_ne!(first, second);
    envs.set(library, "count", n(1)).unwrap();
    assert_eq!(envs.get(program, &second), Some(n(1)));
    assert_eq!(envs.get(program, &first), Some(n(7)));
    assert_eq!(envs.local_names(program), ["count", "count.alias"]);
}

#[test]
fn minting_never_forwards_over_a_name_already_bound() {
    let mut envs = Environments::new();
    let (_, program) = library_and_program(&mut envs);
    envs.define(program, "count.0", n(42));
    let mut offered = ["count.0", "count.1"].into_iter();
    let alias = envs.import_alias(program, "count", || offered.next().unwrap().to_string()).unwrap();

    assert_eq!(&*alias, "count.1");
    assert_eq!(envs.get(program, "count.0"), Some(n(42)));
}

#[test]
fn only_an_import_has_one() {
    let mut envs = Environments::new();
    let (_, program) = library_and_program(&mut envs);
    envs.define(program, "own", n(5));
    let never = || -> String { unreachable!("nothing to alias") };
    assert_eq!(envs.import_alias(program, "own", never), None);
    assert_eq!(envs.import_alias(program, "missing", never), None);

    envs.define(program, "count", n(100));
    assert_eq!(envs.import_alias(program, "count", never), None);
}

#[test]
fn a_scoped_write_lands_where_the_scoped_read_reads() {
    let mut envs = Environments::new();
    let outer = envs.new_env();
    envs.define_with_scopes(outer, "x", scopes(&[1, 2]), n(1));
    let inner = envs.with_parent(outer);
    envs.define_with_scopes(inner, "x", scopes(&[1]), n(2));
    // The parent's binding is the more specific candidate for {1,2}.
    envs.set_with_scopes(inner, "x", &scopes(&[1, 2]), n(5)).unwrap();
    assert_eq!(envs.get_with_scopes(inner, "x", &scopes(&[1, 2])).unwrap(), Some(n(5)));
    assert_eq!(envs.get_with_scopes(inner, "x", &scopes(&[1])).unwrap(), Some(n(2)));
    let (value, selected) = envs.resolve_with_scopes(inner, "x", &scopes(&[1, 2])).unwrap();
    assert_eq!(value, Some(n(5)));
    assert!(selected);
    assert!(same_scopes(&envs.scoped_binding_of(inner, "x", &scopes(&[1, 2, 3])).unwrap().unwrap(), &scopes(&[1, 2])));
}

#[test]
fn every_enumeration_of_names_leaves_an_alias_out() {
    let mut envs = Environments::new();
    let (_, program) = library_and_program(&mut envs);
    envs.import_alias(program, "count", || "count.alias".to_string()).unwrap();
    assert_eq!(envs.get_all_names(program), ["count"]);
}

#[test]
fn all_names_are_sorted_once_across_the_chain() {
    let mut envs = Environments::new();
    let outer = envs.new_env();
    envs.define(outer, "zeta", n(1));
    envs.define(outer, "alpha", n(2));
    let inner = envs.with_parent(outer);
    envs.define(inner, "alpha", n(3));
    envs.define(inner, "mid", n(4));
    assert_eq!(envs.get_all_names(inner), ["alpha", "mid", "zeta"]);
    assert_eq!(envs.get_all_names(outer), ["alpha", "zeta"]);
}
