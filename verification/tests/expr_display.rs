use patina::core_expr::{
    CoreExpr, CoreExprKind, Formals, QuasiConstructor, QuasiTemplate, ScopedParam,
};
use patina::cps_expr::{CpsExpr, CpsExprKind, CpsParam, CpsPrimitive, PromptTag};
use patina::scope::ScopeSet;
use patina::tagged_value::TaggedValue;
use std::rc::Rc;

fn var(name: &str) -> CoreExpr {
    CoreExpr::new(CoreExprKind::Var {
        name: name.to_string(),
        scopes: ScopeSet::new(),
    })
}

fn cvar(name: &str) -> CpsExpr {
    CpsExpr::new(CpsExprKind::Var {
        name: name.to_string(),
        scopes: ScopeSet::new(),
    })
}

#[test]
fn a_call_is_written_with_its_arguments() {
    let e = CoreExpr::new(CoreExprKind::App {
        func: Rc::new(var("f")),
        args: vec![var("x"), CoreExpr::new(CoreExprKind::Literal(TaggedValue::fixnum(2)))],
    });
    assert_eq!(e.to_display_string(), "(f x 2)");
}

#[test]
fn a_lambda_shows_its_formals_only() {
    let mixed = CoreExpr::new(CoreExprKind::Lambda {
        params: Formals::Mixed {
            fixed: vec![ScopedParam::simple("a".to_string())],
            rest: ScopedParam::simple("r".to_string()),
        },
        body: vec![var("a")],
        binding_scopes: Rc::new(ScopeSet::new()),
    });
    assert_eq!(mixed.to_display_string(), "(lambda (a . r) ...)");
    let variadic = CoreExpr::new(CoreExprKind::Lambda {
        params: Formals::Variadic(ScopedParam::simple("args".to_string())),
        body: vec![],
        binding_scopes: Rc::new(ScopeSet::new()),
    });
    assert_eq!(variadic.to_display_string(), "(lambda args ...)");
}

#[test]
fn scoped_names_carry_their_scopes() {
    let mut scopes = ScopeSet::new();
    scopes.insert(3);
    scopes.insert(1);
    let e = CoreExpr::new(CoreExprKind::Define {
        name: "x".to_string(),
        scopes,
        value: Rc::new(CoreExpr::new(CoreExprKind::Literal(TaggedValue::boolean(true)))),
    });
    assert_eq!(e.to_display_string(), "(define x@{1,3} #t)");
}

#[test]
fn a_quasiquote_names_its_constructors() {
    let t = QuasiTemplate::Build(
        QuasiConstructor::List,
        vec![
            QuasiTemplate::Datum(TaggedValue::Null),
            QuasiTemplate::Unquoted(Rc::new(var("b"))),
        ],
    );
    assert_eq!(t.to_display_string(), "(list '() b)");
    let e = CoreExpr::new(CoreExprKind::Quasiquote(t));
    assert_eq!(e.to_display_string(), "(quasiquote (list '() b))");
}

#[test]
fn begin_and_if_nest() {
    let e = CoreExpr::new(CoreExprKind::Begin(vec![CoreExpr::new(CoreExprKind::If {
        test: Rc::new(var("p")),
        then_: Rc::new(var("a")),
        else_: Rc::new(var("b")),
    })]));
    assert_eq!(e.to_display_string(), "(begin (if p a b))");
}

#[test]
fn a_cps_call_names_its_continuation() {
    let e = CpsExpr::new(CpsExprKind::App {
        func: Rc::new(cvar("f")),
        args: vec![cvar("x")],
        cont: "k".to_string(),
    });
    assert_eq!(e.to_display_string(), "(f x #k)");
}

#[test]
fn a_cps_lambda_lists_its_parameters() {
    let e = CpsExpr::new(CpsExprKind::Lambda {
        params: vec![CpsParam::simple("a"), CpsParam::simple("b")],
        variadic: Some(CpsParam::simple("rest")),
        cont_param: "k".to_string(),
        body: Rc::new(CpsExpr::new(CpsExprKind::ContRef("k".to_string()))),
        binding_scopes: Rc::new(ScopeSet::new()),
    });
    assert_eq!(e.to_display_string(), "(λ (a b . rest) #k #k)");
}

#[test]
fn a_primitive_is_written_by_its_variant_name() {
    let e = CpsExpr::new(CpsExprKind::PrimOp {
        op: CpsPrimitive::Add,
        args: vec![
            CpsExpr::new(CpsExprKind::Literal(TaggedValue::fixnum(1))),
            CpsExpr::new(CpsExprKind::Literal(TaggedValue::fixnum(-2))),
        ],
        cont: "k".to_string(),
    });
    assert_eq!(e.to_display_string(), "(Add 1 -2 #k)");
}

#[test]
fn a_prompt_writes_its_tag() {
    let tag = PromptTag::with_id("outer", 7);
    assert_eq!(tag.to_display_string(), "#<prompt-tag:outer/7>");
    let e = CpsExpr::new(CpsExprKind::Prompt {
        tag,
        body: Rc::new(cvar("x")),
        cont: "k".to_string(),
    });
    assert_eq!(e.to_display_string(), "(prompt #<prompt-tag:outer/7> x #k)");
}

#[test]
fn a_scoped_parameter_shows_its_scopes_in_braces() {
    let mut scopes = ScopeSet::new();
    scopes.insert(2);
    let p = ScopedParam::with_scopes("t".to_string(), scopes);
    assert_eq!(p.to_display_string(), "t{{2}}");
}
