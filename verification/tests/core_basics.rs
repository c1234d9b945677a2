use patina::by_spelling::is_recognized;
use patina::continuation::{
    next_wind_step, DynamicWindRecord, ExceptionHandler, IdSource, WindRecord, WindStep,
};
use patina::cps_expr::{CpsExpr, CpsExprKind, PromptTag};
use patina::error::{ErrorDetail, ErrorKind, ExceptionKind, SourceLocation, Value};
use patina::scope::ScopeSet;
use patina::tagged_value::TaggedValue;

#[test]
fn the_two_and_nothing_else() {
    for name in ["call-with-values", "dynamic-wind"] {
        assert!(is_recognized(name), "{name}");
    }
    for name in [
        "apply",
        "call/cc",
        "call-with-current-continuation",
        "values",
        "with-exception-handler",
        "raise",
        "force",
        "car",
    ] {
        assert!(!is_recognized(name), "{name}");
    }
}

#[test]
fn sibling_extents_exit_inside_out_then_enter_outside_in() {
    let target = [1, 4, 5];
    let mut live = vec![1, 2, 3];
    let mut steps = Vec::new();
    loop {
        let step = next_wind_step(&live, &target);
        steps.push(step);
        match step {
            WindStep::Exit => {
                live.pop();
            }
            WindStep::Enter(i) => live.push(target[i]),
            WindStep::Arrive => break,
        }
    }
    assert_eq!(
        steps,
        [
            WindStep::Exit,
            WindStep::Exit,
            WindStep::Enter(1),
            WindStep::Enter(2),
            WindStep::Arrive
        ]
    );
    assert_eq!(next_wind_step(&[], &[]), WindStep::Arrive);
    assert_eq!(next_wind_step(&[1], &[2]), WindStep::Exit);
}

#[test]
fn test_prompt_tag_uniqueness() {
    let mut ids = IdSource::new();
    let tag1 = PromptTag::new("test", &mut ids);
    let tag2 = PromptTag::new("test", &mut ids);

    assert_eq!(tag1.name, tag2.name);
    assert_ne!(tag1.id, tag2.id);
    assert_ne!(tag1, tag2);
    assert!(!tag1.same_tag(&tag2));
    assert!(tag1.same_tag(&PromptTag::with_id("test", tag1.id)));
}

#[test]
fn test_cps_expr_is_trivial() {
    let lit = CpsExpr::new(CpsExprKind::Literal(TaggedValue::fixnum(42)));
    assert!(lit.is_trivial());

    let var = CpsExpr::new(CpsExprKind::Var {
        name: "x".into(),
        scopes: ScopeSet::new(),
    });
    assert!(var.is_trivial());

    let cont_ref = CpsExpr::new(CpsExprKind::ContRef("k".into()));
    assert!(cont_ref.is_trivial());

    let app = CpsExpr::new(CpsExprKind::App {
        func: CpsExpr::rc(CpsExprKind::Var {
            name: "f".into(),
            scopes: ScopeSet::new(),
        }),
        args: vec![],
        cont: "k".into(),
    });
    assert!(!app.is_trivial());
}

#[test]
fn test_error_kind_catchable() {
    assert!(ErrorKind::Type.is_catchable());
    assert!(ErrorKind::Arity.is_catchable());
    assert!(ErrorKind::Domain.is_catchable());
    assert!(ErrorKind::FileIO.is_catchable());
    assert!(ErrorKind::Read.is_catchable());

    assert!(!ErrorKind::Internal.is_catchable());
    assert!(!ErrorKind::ControlFlow.is_catchable());
}

#[test]
fn test_error_kind_to_exception_kind() {
    assert_eq!(ErrorKind::Type.to_exception_kind(), ExceptionKind::Error);
    assert_eq!(
        ErrorKind::FileIO.to_exception_kind(),
        ExceptionKind::FileError
    );
    assert_eq!(
        ErrorKind::Read.to_exception_kind(),
        ExceptionKind::ReadError
    );
}

#[test]
fn test_source_location_display() {
    let loc = SourceLocation::new("test.scm", 10, 5);
    assert_eq!(loc.to_display_string(), "test.scm:10:5");

    let repl_loc = SourceLocation::repl(1, 3);
    assert_eq!(repl_loc.to_display_string(), "<repl>:1:3");
}

#[test]
fn test_error_detail_to_exception() {
    let err = ErrorDetail::type_error("expected number", Value::Boolean(true));
    let exc = err.to_exception();

    assert_eq!(exc.kind, ExceptionKind::Error);
    assert!(exc.message.contains("expected number"));
    assert_eq!(exc.irritants.len(), 1);
}

#[test]
fn test_error_detail_with_location() {
    let err =
        ErrorDetail::lookup_error("foo").with_location(SourceLocation::new("test.scm", 5, 10));

    assert!(err.format_message().contains("test.scm:5:10"));
    assert!(err.format_message().contains("undefined variable: foo"));
}

#[test]
fn ids_are_drawn_in_order() {
    let mut ids = IdSource::starting_at(7);
    assert_eq!(ids.fresh(), 7);
    assert_eq!(ids.fresh(), 8);
}

#[test]
fn with_irritants_adds_after_those_already_there() {
    let e = ErrorDetail::new(ErrorKind::User, "bad")
        .with_irritant(Value::Integer(1))
        .with_irritants(vec![Value::Integer(2), Value::Integer(3)]);
    let got: Vec<i64> = e
        .irritants
        .iter()
        .map(|v| match v {
            Value::Integer(n) => *n,
            _ => -1,
        })
        .collect();
    assert_eq!(got, vec![1, 2, 3]);
    assert_eq!(e.kind, ErrorKind::User);
}

#[test]
fn a_wind_record_keeps_the_handler_stack_in_force() {
    let mut ids = IdSource::starting_at(7);
    let handler = ExceptionHandler { handler: TaggedValue::fixnum(42) };
    let record: DynamicWindRecord = WindRecord::new(
        TaggedValue::fixnum(1),
        TaggedValue::fixnum(2),
        vec![handler.clone()],
        &mut ids,
    );
    assert_eq!(record.id, 7);
    assert_eq!(record.handlers.len(), 1);
    assert_eq!(record.handlers[0].handler, TaggedValue::fixnum(42));
}
