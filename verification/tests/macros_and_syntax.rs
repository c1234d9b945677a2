use patina::compiled_macro::{CompiledRule, Identifier, PVRef, Pattern, Template};
use patina::core_syntax::{CoreForm, ALL_CORE_FORMS};
use patina::features::{default_features, FeatureRegistry};

/// A platform as a host reports it: an operating system and architecture
/// by std's names, and the byte order this machine has.
fn host() -> (&'static str, &'static str, bool) {
    ("linux", "x86_64", u16::from_ne_bytes([1, 0]) == 1)
}

fn host_features() -> FeatureRegistry {
    let (os, arch, le) = host();
    FeatureRegistry::new(os, arch, le)
}
use patina::scope::ScopeSet;
use patina::tagged_value::TaggedValue;

#[test]
fn test_pattern_wildcard() {
    let pat = Pattern::Wildcard;
    assert!(pat.is_wildcard());
    assert!(!pat.is_var());
    assert_eq!(pat.to_display_string(), "_");
}

#[test]
fn test_pattern_var() {
    let pvref = PVRef::new(0, 0);
    let pat = Pattern::Var(pvref);
    assert!(pat.is_var());
    assert_eq!(pat.as_var(), Some(pvref));
}

#[test]
fn test_template_literal() {
    let tmpl = Template::Literal(TaggedValue::fixnum(42));
    assert!(tmpl.is_literal());
    assert!(tmpl.to_display_string().contains("literal"));
}

#[test]
fn test_template_symbol() {
    let tmpl = Template::Symbol(Identifier::new("if"));
    assert!(tmpl.is_symbol());
    assert_eq!(tmpl.to_display_string(), "if");
}

#[test]
fn test_identifier_free_variable() {
    let id = Identifier::with_scopes("x", ScopeSet::new());
    assert!(id.is_free_variable());
    assert_eq!(id.name().as_str(), "x");
}

#[test]
fn test_identifier_introduced() {
    let id = Identifier::new("y");
    assert!(!id.is_free_variable());
    assert!(id.definition_scopes().is_none());
}

#[test]
fn composite_patterns_are_written_with_their_parts() {
    let pat = Pattern::DottedList {
        patterns: vec![Pattern::Wildcard, Pattern::Var(PVRef::new(0, 1))],
        tail: Box::new(Pattern::Literal(TaggedValue::fixnum(-7))),
    };
    assert_eq!(pat.to_display_string(), "(_ ?0.1 . <literal -7>)");
    let ell = Pattern::Ellipsis {
        subpattern: Box::new(Pattern::Var(PVRef::new(1, 0))),
        level: 1,
        num_following: 2,
        vars: vec![PVRef::new(1, 0), PVRef::new(1, 2)],
    };
    assert_eq!(ell.to_display_string(), "(... ?1.0 @level=1 following=2 vars=[1.0, 1.2])");
    assert!(ell.is_ellipsis());
}

#[test]
fn templates_write_nested_ellipses() {
    let t = Template::Ellipsis {
        subtemplate: Box::new(Template::Var(PVRef::new(2, 0))),
        level: 2,
        nesting: 2,
        vars: vec![],
    };
    assert_eq!(t.to_display_string(), "(... ... $2.0 @level=2 nesting=2 vars=[])");
    let v = Template::Vector(vec![Template::Symbol(Identifier::new("a")), Template::Literal(TaggedValue::boolean(true))]);
    assert_eq!(v.to_display_string(), "#(a <literal #t>)");
}

#[test]
fn literals_are_collected_in_order() {
    let rule = CompiledRule {
        pattern: Pattern::List(vec![
            Pattern::Literal(TaggedValue::fixnum(1)),
            Pattern::Ellipsis {
                subpattern: Box::new(Pattern::Literal(TaggedValue::fixnum(2))),
                level: 1,
                num_following: 0,
                vars: vec![],
            },
        ]),
        template: Template::DottedList {
            templates: vec![Template::Literal(TaggedValue::fixnum(3))],
            tail: Box::new(Template::Literal(TaggedValue::fixnum(4))),
        },
        num_pvars: 0,
        max_level: 1,
        pvar_names: vec![],
    };
    assert_eq!(
        rule.literals(),
        vec![
            TaggedValue::fixnum(1),
            TaggedValue::fixnum(2),
            TaggedValue::fixnum(3),
            TaggedValue::fixnum(4)
        ]
    );
}

#[test]
fn apply_is_not_a_core_form() {
    assert_eq!(CoreForm::from_name("apply"), None);
}

#[test]
fn auxiliary_keywords_do_not_dispatch() {
    assert!(CoreForm::Begin.is_dispatching());
    assert!(CoreForm::Quote.is_dispatching());
    assert!(!CoreForm::Else.is_dispatching());
    assert!(!CoreForm::Ellipsis.is_dispatching());
    assert!(!CoreForm::SyntaxRules.is_dispatching());
}

#[test]
fn all_core_forms_has_no_duplicates_and_unique_names() {
    for form in ALL_CORE_FORMS {
        assert_eq!(CoreForm::from_name(form.name()), Some(form));
    }
    assert_eq!(CoreForm::SetBang.name(), "set!");
}

#[test]
fn test_default_features() {
    let features = host_features();
    assert!(!features.has_feature("my-extension"));
    assert!(features.has_feature("r7rs"));
    assert!(features.has_feature("patina"));
    assert!(features.has_feature("ratios"));
    assert!(features.has_feature("exact-closed"));
    assert!(features.has_feature("ieee-float"));
    assert!(features.has_feature("full-unicode"));
}

#[test]
fn test_platform_features() {
    let features = host_features();
    let has_platform = features.has_feature("darwin")
        || features.has_feature("linux")
        || features.has_feature("windows")
        || features.has_feature("freebsd");
    assert!(has_platform, "No platform detected");
    let has_arch = features.has_feature("x86-64")
        || features.has_feature("aarch64")
        || features.has_feature("arm")
        || features.has_feature("i386");
    assert!(has_arch, "No architecture detected");
    let has_endian =
        features.has_feature("little-endian") || features.has_feature("big-endian");
    assert!(has_endian, "No endianness detected");
}

#[test]
fn test_custom_features() {
    let mut features = host_features();
    assert!(!features.has_feature("my-extension"));
    features.add_feature("my-extension");
    assert!(features.has_feature("my-extension"));
    features.remove_feature("my-extension");
    assert!(!features.has_feature("my-extension"));
}

#[test]
fn test_all_features_sorted() {
    let features = host_features();
    let all = features.all_features();
    let mut sorted = all.clone();
    sorted.sort();
    assert_eq!(all, sorted);
}

#[test]
fn adding_a_feature_twice_keeps_one() {
    let (os, arch, le) = host();
    let mut features = default_features(os, arch, le);
    let before = features.all_features().len();
    features.add_feature("srfi-1");
    features.add_feature("srfi-1");
    let all = features.all_features();
    assert_eq!(all.iter().filter(|f| f.as_str() == "srfi-1").count(), 1);
    assert_eq!(all.len(), before + 1);
}

#[test]
fn a_named_platform_adds_its_own_features_only() {
    let f = FeatureRegistry::new("linux", "x86_64", true);
    for name in ["linux", "gnu-linux", "posix", "unix", "x86-64", "little-endian", "r7rs"] {
        assert!(f.has_feature(name), "{name}");
    }
    for name in ["darwin", "windows", "aarch64", "big-endian"] {
        assert!(!f.has_feature(name), "{name}");
    }
    let g = FeatureRegistry::new("macos", "aarch64", false);
    for name in ["darwin", "macosx", "aarch64", "big-endian"] {
        assert!(g.has_feature(name), "{name}");
    }
}

#[test]
fn visiting_a_pattern_hands_its_literals_in_order_after_those_already_collected() {
    let pat = Pattern::DottedList {
        patterns: vec![Pattern::Wildcard, Pattern::Literal(TaggedValue::fixnum(5))],
        tail: Box::new(Pattern::Literal(TaggedValue::fixnum(6))),
    };
    let mut seen = vec![TaggedValue::fixnum(0)];
    pat.for_each_literal(&mut seen);
    assert_eq!(
        seen,
        vec![TaggedValue::fixnum(0), TaggedValue::fixnum(5), TaggedValue::fixnum(6)]
    );
}

#[test]
fn visiting_a_template_hands_its_literals_in_order() {
    let t = Template::Vector(vec![
        Template::Literal(TaggedValue::fixnum(7)),
        Template::Var(PVRef::new(0, 0)),
        Template::Literal(TaggedValue::fixnum(8)),
    ]);
    let mut seen = Vec::new();
    t.for_each_literal(&mut seen);
    assert_eq!(seen, vec![TaggedValue::fixnum(7), TaggedValue::fixnum(8)]);
}
