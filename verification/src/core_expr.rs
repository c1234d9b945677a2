//! The core expression tree the desugarer produces and the backends
//! consume: every macro and derived form already eliminated.
use vstd::prelude::*;
use std::rc::Rc;
use crate::error::SourceLocation;
use crate::scope::ScopeSet;
use crate::tagged_value::TaggedValue;
use crate::text::{chars_of, push_str, string_from_chars};
use crate::scope::scopes_text;
use crate::compiled_macro::{literal_text, push_literal};
use crate::cps_expr::{push_scoped_name, scoped_name_text};

verus! {

/// A parameter, with the hygiene scopes a macro gave it (none for a
/// parameter written in source).
#[derive(Debug, Clone)]
pub struct ScopedParam {
    pub name: String,
    pub scopes: ScopeSet,
}

impl ScopedParam {
    /// A parameter written in source: no scopes.
    pub fn simple(name: String) -> (r: ScopedParam)
        ensures
            r.name == name,
            r.scopes.ids_view() == Seq::<u64>::empty(),
            r.scopes.wf(),
    {
        ScopedParam { name, scopes: ScopeSet::new() }
    }

    /// A parameter a macro introduced, with its scopes.
    pub fn with_scopes(name: String, scopes: ScopeSet) -> (r: ScopedParam)
        ensures
            r.name == name,
            r.scopes == scopes,
    {
        ScopedParam { name, scopes }
    }

    /// A copy of this parameter.
    pub fn duplicate(&self) -> (r: ScopedParam)
        ensures
            r.name@ == self.name@,
            r.scopes.ids_view() == self.scopes.ids_view(),
    {
        ScopedParam {
            name: string_from_chars(&chars_of(self.name.as_str())),
            scopes: self.scopes.duplicate(),
        }
    }
}

/// Lambda parameter lists: fixed, variadic, or fixed with a rest.
#[derive(Debug, Clone)]
pub enum Formals {
    Fixed(Vec<ScopedParam>),
    Variadic(ScopedParam),
    Mixed { fixed: Vec<ScopedParam>, rest: ScopedParam },
}

/// A core expression and where it came from.
#[derive(Debug)]
pub struct CoreExpr {
    pub kind: CoreExprKind,
    pub source: Option<SourceLocation>,
}

/// The core expressions.
#[derive(Debug)]
pub enum CoreExprKind {
    /// A literal value.
    Literal(TaggedValue),
    /// A variable reference, with its hygiene scopes.
    Var { name: String, scopes: ScopeSet },
    /// Quoted data.
    Quote(TaggedValue),
    /// A quasiquote template with its unquoted parts desugared.
    Quasiquote(QuasiTemplate),
    /// A lambda, with the scopes its source parameters stand in.
    Lambda { params: Formals, body: Vec<CoreExpr>, binding_scopes: Rc<ScopeSet> },
    /// A conditional.
    If { test: Rc<CoreExpr>, then_: Rc<CoreExpr>, else_: Rc<CoreExpr> },
    /// `set!`, with the hygiene scopes of the assigned variable.
    Assign { var: String, scopes: ScopeSet, value: Rc<CoreExpr> },
    /// A sequence.
    Begin(Vec<CoreExpr>),
    /// A definition, with the hygiene scopes of the defined identifier.
    Define { name: String, scopes: ScopeSet, value: Rc<CoreExpr> },
    /// An import of library bindings; the import sets stay data.
    Import { import_sets: Vec<TaggedValue> },
    /// Show the expansion of an expression without evaluating it.
    Expand { expr: Rc<CoreExpr> },
    /// A call.
    App { func: Rc<CoreExpr>, args: Vec<CoreExpr> },
    /// `apply`: the last argument is a list spliced into the call.
    Apply { func: Rc<CoreExpr>, args: Vec<CoreExpr> },
}

/// A quasiquote template: data, unquoted expressions, and calls of the
/// constructors on the parts.
#[derive(Debug)]
pub enum QuasiTemplate {
    /// Data, used as written.
    Datum(TaggedValue),
    /// An unquoted expression.
    Unquoted(Rc<CoreExpr>),
    /// A constructor applied to the values of the parts.
    Build(QuasiConstructor, Vec<QuasiTemplate>),
}

/// The procedures quasiquote templates are built with.
#[derive(Debug, Clone, Copy, PartialEq, Eq, Structural)]
pub enum QuasiConstructor {
    List,
    Append,
    ListToVector,
}

/// The `(scheme base)` name of each constructor.
pub open spec fn quasi_constructor_name(c: QuasiConstructor) -> Seq<char> {
    match c {
        QuasiConstructor::List => "list"@,
        QuasiConstructor::Append => "append"@,
        QuasiConstructor::ListToVector => "list->vector"@,
    }
}

impl QuasiConstructor {
    /// The `(scheme base)` name of the procedure.
    pub fn name(self) -> (r: &'static str)
        ensures
            r@ == quasi_constructor_name(self),
    {
        match self {
            QuasiConstructor::List => "list",
            QuasiConstructor::Append => "append",
            QuasiConstructor::ListToVector => "list->vector",
        }
    }
}

/// Whether an expression of this kind is in tail position.
pub open spec fn spec_core_is_tail(k: CoreExprKind) -> bool {
    k is If || k is Begin || k is App
}

/// A human-readable name of each kind.
pub open spec fn spec_core_expr_kind(k: CoreExprKind) -> Seq<char> {
    match k {
        CoreExprKind::Literal(_) => "literal"@,
        CoreExprKind::Var { .. } => "variable"@,
        CoreExprKind::Quote(_) => "quote"@,
        CoreExprKind::Quasiquote(_) => "quasiquote"@,
        CoreExprKind::Lambda { .. } => "lambda"@,
        CoreExprKind::If { .. } => "if"@,
        CoreExprKind::Assign { .. } => "set!"@,
        CoreExprKind::Begin(_) => "begin"@,
        CoreExprKind::Define { .. } => "define"@,
        CoreExprKind::Import { .. } => "import"@,
        CoreExprKind::Expand { .. } => "expand"@,
        CoreExprKind::App { .. } => "application"@,
        CoreExprKind::Apply { .. } => "apply"@,
    }
}

impl CoreExprKind {
    /// Whether an expression of this kind is in tail position.
    pub fn is_tail_position(&self) -> (r: bool)
        ensures
            r == spec_core_is_tail(*self),
    {
        matches!(self, CoreExprKind::If { .. } | CoreExprKind::Begin(_) | CoreExprKind::App { .. })
    }

    /// A human-readable name of this kind.
    pub fn expr_kind(&self) -> (r: &'static str)
        ensures
            r@ == spec_core_expr_kind(*self),
    {
        match self {
            CoreExprKind::Literal(_) => "literal",
            CoreExprKind::Var { .. } => "variable",
            CoreExprKind::Quote(_) => "quote",
            CoreExprKind::Quasiquote(_) => "quasiquote",
            CoreExprKind::Lambda { .. } => "lambda",
            CoreExprKind::If { .. } => "if",
            CoreExprKind::Assign { .. } => "set!",
            CoreExprKind::Begin(_) => "begin",
            CoreExprKind::Define { .. } => "define",
            CoreExprKind::Import { .. } => "import",
            CoreExprKind::Expand { .. } => "expand",
            CoreExprKind::App { .. } => "application",
            CoreExprKind::Apply { .. } => "apply",
        }
    }
}

impl CoreExpr {
    /// An expression with no location.
    pub fn new(kind: CoreExprKind) -> (r: CoreExpr)
        ensures
            r.kind == kind,
            r.source is None,
    {
        CoreExpr { kind, source: None }
    }

    /// An expression located at `source`.
    pub fn with_source(kind: CoreExprKind, source: SourceLocation) -> (r: CoreExpr)
        ensures
            r.kind == kind,
            r.source == Some(source),
    {
        CoreExpr { kind, source: Some(source) }
    }

    /// An expression with an optional location.
    pub fn with_opt_source(kind: CoreExprKind, source: Option<SourceLocation>) -> (r: CoreExpr)
        ensures
            r.kind == kind,
            r.source == source,
    {
        CoreExpr { kind, source }
    }

    /// A shared expression with no location.
    pub fn rc(kind: CoreExprKind) -> (r: Rc<CoreExpr>)
        ensures
            r.kind == kind,
            r.source is None,
    {
        Rc::new(Self::new(kind))
    }

    /// Whether this expression is in tail position.
    pub fn is_tail_position(&self) -> (r: bool)
        ensures
            r == spec_core_is_tail(self.kind),
    {
        self.kind.is_tail_position()
    }

    /// A human-readable name of the expression's kind.
    pub fn expr_kind(&self) -> (r: &'static str)
        ensures
            r@ == spec_core_expr_kind(self.kind),
    {
        self.kind.expr_kind()
    }
}

// ---------------------------------------------------------------------------
// Mapping over children
// ---------------------------------------------------------------------------

/// Two parameters agree in name and scopes.
pub open spec fn same_param(a: ScopedParam, b: ScopedParam) -> bool {
    a.name@ == b.name@ && a.scopes.ids_view() == b.scopes.ids_view()
}

/// Two parameter lists agree element by element.
pub open spec fn same_params(a: Seq<ScopedParam>, b: Seq<ScopedParam>) -> bool {
    a.len() == b.len() && forall|i: int| 0 <= i < a.len() ==> same_param(#[trigger] a[i], b[i])
}

/// Two parameter forms agree.
pub open spec fn same_formals(a: Formals, b: Formals) -> bool {
    match (a, b) {
        (Formals::Fixed(x), Formals::Fixed(y)) => same_params(x@, y@),
        (Formals::Variadic(p), Formals::Variadic(q)) => same_param(p, q),
        (Formals::Mixed { fixed: x, rest: p }, Formals::Mixed { fixed: y, rest: q }) => same_params(
            x@,
            y@,
        ) && same_param(p, q),
        _ => false,
    }
}

/// Two optional locations agree.
pub open spec fn same_source(a: Option<SourceLocation>, b: Option<SourceLocation>) -> bool {
    match (a, b) {
        (Some(x), Some(y)) => x.source@ == y.source@ && x.line == y.line && x.column == y.column
            && x.length == y.length,
        (None, None) => true,
        _ => false,
    }
}

/// `new` holds, element by element, what `f` returned for `old`.
pub open spec fn mapped_each<F: Fn(&CoreExpr) -> CoreExpr>(
    f: F,
    old: Seq<CoreExpr>,
    new: Seq<CoreExpr>,
) -> bool {
    old.len() == new.len() && forall|i: int| 0 <= i < old.len() ==> f.ensures((&old[i],), #[trigger] new[i])
}

/// `new` is the template `old` with `f`'s result in place of each unquoted
/// expression.
pub open spec fn quasi_mapped<F: Fn(&CoreExpr) -> CoreExpr>(
    f: F,
    old: QuasiTemplate,
    new: QuasiTemplate,
) -> bool
    decreases old,
{
    match old {
        QuasiTemplate::Datum(d) => new == QuasiTemplate::Datum(d),
        QuasiTemplate::Unquoted(e) => match new {
            QuasiTemplate::Unquoted(e2) => f.ensures((&*e,), *e2),
            _ => false,
        },
        QuasiTemplate::Build(c, parts) => match new {
            QuasiTemplate::Build(c2, parts2) => c2 == c && parts2@.len() == parts@.len() && forall|
                i: int,
            |
                0 <= i < parts@.len() ==> quasi_mapped(f, #[trigger] parts@[i], parts2@[i]),
            _ => false,
        },
    }
}

/// `new` is `old` with `f`'s result in place of each immediate child and
/// everything else the same.
pub open spec fn children_mapped<F: Fn(&CoreExpr) -> CoreExpr>(
    f: F,
    old: CoreExprKind,
    new: CoreExprKind,
) -> bool {
    match (old, new) {
        (CoreExprKind::Literal(a), CoreExprKind::Literal(b)) => a == b,
        (CoreExprKind::Var { name: n1, scopes: s1 }, CoreExprKind::Var { name: n2, scopes: s2 }) =>
            n1@ == n2@ && s1.ids_view() == s2.ids_view(),
        (CoreExprKind::Quote(a), CoreExprKind::Quote(b)) => a == b,
        (CoreExprKind::Quasiquote(t1), CoreExprKind::Quasiquote(t2)) => quasi_mapped(f, t1, t2),
        (
            CoreExprKind::Lambda { params: p1, body: b1, binding_scopes: s1 },
            CoreExprKind::Lambda { params: p2, body: b2, binding_scopes: s2 },
        ) => same_formals(p1, p2) && mapped_each(f, b1@, b2@) && s1 == s2,
        (
            CoreExprKind::If { test: t1, then_: c1, else_: a1 },
            CoreExprKind::If { test: t2, then_: c2, else_: a2 },
        ) => f.ensures((&*t1,), *t2) && f.ensures((&*c1,), *c2) && f.ensures((&*a1,), *a2),
        (
            CoreExprKind::Assign { var: v1, scopes: s1, value: x1 },
            CoreExprKind::Assign { var: v2, scopes: s2, value: x2 },
        ) => v1@ == v2@ && s1.ids_view() == s2.ids_view() && f.ensures((&*x1,), *x2),
        (CoreExprKind::Begin(e1), CoreExprKind::Begin(e2)) => mapped_each(f, e1@, e2@),
        (
            CoreExprKind::Define { name: n1, scopes: s1, value: x1 },
            CoreExprKind::Define { name: n2, scopes: s2, value: x2 },
        ) => n1@ == n2@ && s1.ids_view() == s2.ids_view() && f.ensures((&*x1,), *x2),
        (CoreExprKind::Import { import_sets: i1 }, CoreExprKind::Import { import_sets: i2 }) => i1@
            == i2@,
        (CoreExprKind::Expand { expr: x1 }, CoreExprKind::Expand { expr: x2 }) => f.ensures(
            (&*x1,),
            *x2,
        ),
        (CoreExprKind::App { func: g1, args: a1 }, CoreExprKind::App { func: g2, args: a2 }) =>
            f.ensures((&*g1,), *g2) && mapped_each(f, a1@, a2@),
        (CoreExprKind::Apply { func: g1, args: a1 }, CoreExprKind::Apply { func: g2, args: a2 }) =>
            f.ensures((&*g1,), *g2) && mapped_each(f, a1@, a2@),
        _ => false,
    }
}

/// `f` applied to each expression of `exprs`, in order.
fn map_each<F: Fn(&CoreExpr) -> CoreExpr>(exprs: &Vec<CoreExpr>, f: &F) -> (r: Vec<CoreExpr>)
    requires
        forall|e: &CoreExpr| #[trigger] f.requires((e,)),
    ensures
        mapped_each(*f, exprs@, r@),
{
    let mut r: Vec<CoreExpr> = Vec::new();
    let mut k: usize = 0;
    while k < exprs.len()
        invariant
            k <= exprs@.len(),
            forall|e: &CoreExpr| #[trigger] f.requires((e,)),
            r@.len() == k,
            forall|i: int| 0 <= i < k ==> f.ensures((&exprs@[i],), #[trigger] r@[i]),
        decreases exprs@.len() - k,
    {
        let e = f(&exprs[k]);
        r.push(e);
        k = k + 1;
    }
    r
}

/// A copy of a parameter list.
fn copy_params(ps: &Vec<ScopedParam>) -> (r: Vec<ScopedParam>)
    ensures
        same_params(ps@, r@),
{
    let mut r: Vec<ScopedParam> = Vec::new();
    let mut k: usize = 0;
    while k < ps.len()
        invariant
            k <= ps@.len(),
            r@.len() == k,
            forall|i: int| 0 <= i < k ==> same_param(#[trigger] ps@[i], r@[i]),
        decreases ps@.len() - k,
    {
        r.push(ps[k].duplicate());
        k = k + 1;
    }
    r
}

impl Formals {
    /// A copy of these parameters.
    pub fn duplicate(&self) -> (r: Formals)
        ensures
            same_formals(*self, r),
    {
        match self {
            Formals::Fixed(ps) => Formals::Fixed(copy_params(ps)),
            Formals::Variadic(p) => Formals::Variadic(p.duplicate()),
            Formals::Mixed { fixed, rest } => Formals::Mixed {
                fixed: copy_params(fixed),
                rest: rest.duplicate(),
            },
        }
    }
}

/// A copy of an optional location.
fn copy_source(s: &Option<SourceLocation>) -> (r: Option<SourceLocation>)
    ensures
        same_source(*s, r),
{
    match s {
        Some(loc) => Some(loc.duplicate()),
        None => None,
    }
}

/// A copy of a vector of values.
fn copy_values(v: &Vec<TaggedValue>) -> (r: Vec<TaggedValue>)
    ensures
        r@ == v@,
{
    let mut r: Vec<TaggedValue> = Vec::new();
    let mut k: usize = 0;
    while k < v.len()
        invariant
            k <= v@.len(),
            r@ == v@.take(k as int),
        decreases v@.len() - k,
    {
        r.push(v[k]);
        assert(r@ =~= v@.take(k + 1));
        k = k + 1;
    }
    assert(r@ =~= v@);
    r
}

impl QuasiTemplate {
    /// This template with `f`'s result in place of each unquoted
    /// expression.
    pub fn map_unquoted<F: Fn(&CoreExpr) -> CoreExpr>(&self, f: &F) -> (r: QuasiTemplate)
        requires
            forall|e: &CoreExpr| #[trigger] f.requires((e,)),
        ensures
            quasi_mapped(*f, *self, r),
        decreases *self,
    {
        match self {
            QuasiTemplate::Datum(datum) => QuasiTemplate::Datum(*datum),
            QuasiTemplate::Unquoted(expr) => QuasiTemplate::Unquoted(Rc::new(f(&**expr))),
            QuasiTemplate::Build(constructor, parts) => {
                let mut mapped: Vec<QuasiTemplate> = Vec::new();
                let mut k: usize = 0;
                while k < parts.len()
                    invariant
                        k <= parts@.len(),
                        *self == QuasiTemplate::Build(*constructor, *parts),
                        forall|e: &CoreExpr| #[trigger] f.requires((e,)),
                        mapped@.len() == k,
                        forall|i: int| 0 <= i < k ==> quasi_mapped(*f, #[trigger] parts@[i], mapped@[i]),
                    decreases parts@.len() - k,
                {
                    proof {
                        assert(decreases_to!(*self => (*self)->1));
                        assert((*self)->1 == *parts);
                        assert(decreases_to!(*parts => parts@));
                        assert(decreases_to!(parts@ => parts@[k as int]));
                        assert(decreases_to!(*self => parts@[k as int]));
                    }
                    let m = parts[k].map_unquoted(f);
                    mapped.push(m);
                    k = k + 1;
                }
                QuasiTemplate::Build(*constructor, mapped)
            },
        }
    }
}

impl CoreExpr {
    /// This expression with `f`'s result in place of each immediate child;
    /// the location and everything else stay.
    pub fn map_children<F: Fn(&CoreExpr) -> CoreExpr>(&self, f: F) -> (r: CoreExpr)
        requires
            forall|e: &CoreExpr| #[trigger] f.requires((e,)),
        ensures
            children_mapped(f, self.kind, r.kind),
            same_source(self.source, r.source),
    {
        let kind = match &self.kind {
            CoreExprKind::Literal(v) => CoreExprKind::Literal(*v),
            CoreExprKind::Var { name, scopes } => CoreExprKind::Var {
                name: string_from_chars(&chars_of(name.as_str())),
                scopes: scopes.duplicate(),
            },
            CoreExprKind::Quote(v) => CoreExprKind::Quote(*v),
            CoreExprKind::Quasiquote(template) => CoreExprKind::Quasiquote(
                template.map_unquoted(&f),
            ),
            CoreExprKind::Lambda { params, body, binding_scopes } => CoreExprKind::Lambda {
                params: params.duplicate(),
                body: map_each(body, &f),
                binding_scopes: Rc::clone(binding_scopes),
            },
            CoreExprKind::If { test, then_, else_ } => CoreExprKind::If {
                test: Rc::new(f(&**test)),
                then_: Rc::new(f(&**then_)),
                else_: Rc::new(f(&**else_)),
            },
            CoreExprKind::Assign { var, scopes, value } => CoreExprKind::Assign {
                var: string_from_chars(&chars_of(var.as_str())),
                scopes: scopes.duplicate(),
                value: Rc::new(f(&**value)),
            },
            CoreExprKind::Begin(exprs) => CoreExprKind::Begin(map_each(exprs, &f)),
            CoreExprKind::Define { name, scopes, value } => CoreExprKind::Define {
                name: string_from_chars(&chars_of(name.as_str())),
                scopes: scopes.duplicate(),
                value: Rc::new(f(&**value)),
            },
            CoreExprKind::Import { import_sets } => CoreExprKind::Import {
                import_sets: copy_values(import_sets),
            },
            CoreExprKind::Expand { expr } => CoreExprKind::Expand { expr: Rc::new(f(&**expr)) },
            CoreExprKind::App { func, args } => CoreExprKind::App {
                func: Rc::new(f(&**func)),
                args: map_each(args, &f),
            },
            CoreExprKind::Apply { func, args } => CoreExprKind::Apply {
                func: Rc::new(f(&**func)),
                args: map_each(args, &f),
            },
        };
        CoreExpr { kind, source: copy_source(&self.source) }
    }
}

/// The unquoted expressions of a template, in the template's order.
pub open spec fn quasi_unquoted(t: QuasiTemplate) -> Seq<CoreExpr>
    decreases t,
{
    match t {
        QuasiTemplate::Datum(_) => Seq::empty(),
        QuasiTemplate::Unquoted(e) => seq![*e],
        QuasiTemplate::Build(_, parts) => quasi_unquoted_seq(parts@),
    }
}

/// The unquoted expressions of a sequence of templates, in order.
pub open spec fn quasi_unquoted_seq(ts: Seq<QuasiTemplate>) -> Seq<CoreExpr>
    decreases ts,
{
    if ts.len() == 0 {
        Seq::empty()
    } else {
        quasi_unquoted_seq(ts.subrange(0, ts.len() - 1)) + quasi_unquoted(ts[ts.len() - 1])
    }
}

impl QuasiTemplate {
    /// Append `f`'s result for each unquoted expression, in order.
    fn push_unquoted<R, F: Fn(&CoreExpr) -> R>(&self, f: &F, out: &mut Vec<R>)
        requires
            forall|e: &CoreExpr| #[trigger] f.requires((e,)),
        ensures
            final(out)@.len() == old(out)@.len() + quasi_unquoted(*self).len(),
            forall|i: int| 0 <= i < old(out)@.len() ==> #[trigger] final(out)@[i] == old(out)@[i],
            forall|j: int|
                0 <= j < quasi_unquoted(*self).len() ==> f.ensures(
                    (&quasi_unquoted(*self)[j],),
                    #[trigger] final(out)@[old(out)@.len() + j],
                ),
        decreases *self,
    {
        match self {
            QuasiTemplate::Datum(_) => {},
            QuasiTemplate::Unquoted(expr) => {
                let r = f(&**expr);
                out.push(r);
            },
            QuasiTemplate::Build(_, parts) => {
                let ghost start = out@;
                let mut k: usize = 0;
                assert(parts@.subrange(0, 0) =~= Seq::<QuasiTemplate>::empty());
                while k < parts.len()
                    invariant
                        k <= parts@.len(),
                        *self == QuasiTemplate::Build((*self)->0, *parts),
                        forall|e: &CoreExpr| #[trigger] f.requires((e,)),
                        out@.len() == start.len() + quasi_unquoted_seq(parts@.subrange(0, k as int)).len(),
                        forall|i: int| 0 <= i < start.len() ==> #[trigger] out@[i] == start[i],
                        forall|j: int|
                            0 <= j < quasi_unquoted_seq(parts@.subrange(0, k as int)).len() ==> f.ensures(
                                (&quasi_unquoted_seq(parts@.subrange(0, k as int))[j],),
                                #[trigger] out@[start.len() + j],
                            ),
                    decreases parts@.len() - k,
                {
                    proof {
                        assert(decreases_to!(*self => (*self)->1));
                        assert(decreases_to!(*parts => parts@));
                        assert(decreases_to!(parts@ => parts@[k as int]));
                    }
                    let ghost mid = out@;
                    let ghost prev = quasi_unquoted_seq(parts@.subrange(0, k as int));
                    parts[k].push_unquoted(f, out);
                    proof {
                        let next = parts@.subrange(0, k + 1);
                        assert(next.subrange(0, next.len() - 1) =~= parts@.subrange(0, k as int));
                        assert(next[next.len() - 1] == parts@[k as int]);
                        let sub = quasi_unquoted(parts@[k as int]);
                        assert(quasi_unquoted_seq(next) == prev + sub);
                        assert forall|j: int|
                            0 <= j < quasi_unquoted_seq(next).len() implies f.ensures(
                            (&quasi_unquoted_seq(next)[j],),
                            #[trigger] out@[start.len() + j],
                        ) by {
                            if j < prev.len() {
                                assert(out@[start.len() + j] == mid[start.len() + j]);
                                assert(quasi_unquoted_seq(next)[j] == prev[j]);
                            } else {
                                let jj = j - prev.len();
                                assert(quasi_unquoted_seq(next)[j] == sub[jj]);
                                assert(out@[start.len() + j] == out@[mid.len() + jj]);
                            }
                        }
                    }
                    k = k + 1;
                }
                proof {
                    assert(parts@.subrange(0, k as int) =~= parts@);
                }
            },
        }
    }

    /// `f`'s result for each unquoted expression, in the template's order.
    pub fn for_each_unquoted<R, F: Fn(&CoreExpr) -> R>(&self, f: &F) -> (r: Vec<R>)
        requires
            forall|e: &CoreExpr| #[trigger] f.requires((e,)),
        ensures
            r@.len() == quasi_unquoted(*self).len(),
            forall|j: int|
                0 <= j < quasi_unquoted(*self).len() ==> f.ensures(
                    (&quasi_unquoted(*self)[j],),
                    #[trigger] r@[j],
                ),
    {
        let mut out: Vec<R> = Vec::new();
        self.push_unquoted(f, &mut out);
        proof {
            assert forall|j: int| 0 <= j < quasi_unquoted(*self).len() implies f.ensures(
                (&quasi_unquoted(*self)[j],),
                #[trigger] out@[j],
            ) by {
                assert(out@[0 + j] == out@[j]);
            }
        }
        out
    }
}

/// How a parameter is written: its name, then its scopes in braces when it
/// has any.
pub open spec fn scoped_param_text(p: ScopedParam) -> Seq<char> {
    if p.scopes.ids_view().len() == 0 {
        p.name@
    } else {
        p.name@ + "{"@ + scopes_text(p.scopes) + "}"@
    }
}

/// Parameters separated by spaces.
pub open spec fn params_text(ps: Seq<ScopedParam>) -> Seq<char>
    decreases ps.len(),
{
    if ps.len() == 0 {
        Seq::empty()
    } else if ps.len() == 1 {
        scoped_param_text(ps[0])
    } else {
        params_text(ps.drop_last()) + " "@ + scoped_param_text(ps.last())
    }
}

/// How a lambda's parameter list is written.
pub open spec fn formals_text(f: Formals) -> Seq<char> {
    match f {
        Formals::Fixed(ps) => "("@ + params_text(ps@) + ")"@,
        Formals::Variadic(p) => scoped_param_text(p),
        Formals::Mixed { fixed, rest } => "("@ + params_text(fixed@) + " . "@ + scoped_param_text(
            rest,
        ) + ")"@,
    }
}

/// Values each written after a space.
pub open spec fn spaced_literals_text(vs: Seq<TaggedValue>) -> Seq<char>
    decreases vs.len(),
{
    if vs.len() == 0 {
        Seq::empty()
    } else {
        spaced_literals_text(vs.drop_last()) + " "@ + literal_text(vs.last())
    }
}

/// How a core expression is written.
pub open spec fn core_text(e: CoreExpr) -> Seq<char>
    decreases e, 1int,
{
    match e.kind {
        CoreExprKind::Literal(v) => literal_text(v),
        CoreExprKind::Var { name, scopes } => scoped_name_text(name@, scopes),
        CoreExprKind::Quote(v) => "'"@ + literal_text(v),
        CoreExprKind::Quasiquote(t) => "(quasiquote "@ + quasi_text(t) + ")"@,
        CoreExprKind::Lambda { params, .. } => "(lambda "@ + formals_text(params) + " ...)"@,
        CoreExprKind::If { test, then_, else_ } => "(if "@ + core_text(*test) + " "@ + core_text(
            *then_,
        ) + " "@ + core_text(*else_) + ")"@,
        CoreExprKind::Assign { var, scopes, value } => "(set! "@ + scoped_name_text(var@, scopes)
            + " "@ + core_text(*value) + ")"@,
        CoreExprKind::Begin(es) => "(begin"@ + spaced_core_text(es@) + ")"@,
        CoreExprKind::Define { name, scopes, value } => "(define "@ + scoped_name_text(
            name@,
            scopes,
        ) + " "@ + core_text(*value) + ")"@,
        CoreExprKind::Import { import_sets } => "(import"@ + spaced_literals_text(import_sets@)
            + ")"@,
        CoreExprKind::Expand { expr } => "(expand "@ + core_text(*expr) + ")"@,
        CoreExprKind::App { func, args } => "("@ + core_text(*func) + spaced_core_text(args@)
            + ")"@,
        CoreExprKind::Apply { func, args } => "(apply "@ + core_text(*func) + spaced_core_text(
            args@,
        ) + ")"@,
    }
}

/// Core expressions each written after a space.
pub open spec fn spaced_core_text(es: Seq<CoreExpr>) -> Seq<char>
    decreases es, 0int,
{
    if es.len() == 0 {
        Seq::empty()
    } else {
        " "@ + core_text(es[0]) + spaced_core_text(es.drop_first())
    }
}

/// How a quasiquote template is written: what it builds, with the
/// constructors by name, so that `` `(a ,b) `` reads `(list 'a b)`.
pub open spec fn quasi_text(t: QuasiTemplate) -> Seq<char>
    decreases t, 1int,
{
    match t {
        QuasiTemplate::Datum(d) => "'"@ + literal_text(d),
        QuasiTemplate::Unquoted(e) => core_text(*e),
        QuasiTemplate::Build(c, parts) => "("@ + quasi_constructor_name(c) + spaced_quasi_text(
            parts@,
        ) + ")"@,
    }
}

/// Templates each written after a space.
pub open spec fn spaced_quasi_text(ts: Seq<QuasiTemplate>) -> Seq<char>
    decreases ts, 0int,
{
    if ts.len() == 0 {
        Seq::empty()
    } else {
        " "@ + quasi_text(ts[0]) + spaced_quasi_text(ts.drop_first())
    }
}

proof fn lemma_spaced_core_push(es: Seq<CoreExpr>, e: CoreExpr)
    ensures
        spaced_core_text(es.push(e)) == spaced_core_text(es) + " "@ + core_text(e),
    decreases es.len(),
{
    if es.len() == 0 {
        assert(es.push(e).drop_first() =~= Seq::<CoreExpr>::empty());
        assert(es.push(e)[0] == e);
        assert(spaced_core_text(Seq::<CoreExpr>::empty()) == Seq::<char>::empty());
        assert(spaced_core_text(es.push(e)) =~= " "@ + core_text(e));
    } else {
        lemma_spaced_core_push(es.drop_first(), e);
        assert(es.push(e).drop_first() =~= es.drop_first().push(e));
        assert(es.push(e)[0] == es[0]);
        assert(spaced_core_text(es.push(e)) =~= spaced_core_text(es) + " "@ + core_text(e));
    }
}

proof fn lemma_spaced_quasi_push(ts: Seq<QuasiTemplate>, t: QuasiTemplate)
    ensures
        spaced_quasi_text(ts.push(t)) == spaced_quasi_text(ts) + " "@ + quasi_text(t),
    decreases ts.len(),
{
    if ts.len() == 0 {
        assert(ts.push(t).drop_first() =~= Seq::<QuasiTemplate>::empty());
        assert(ts.push(t)[0] == t);
        assert(spaced_quasi_text(Seq::<QuasiTemplate>::empty()) == Seq::<char>::empty());
        assert(spaced_quasi_text(ts.push(t)) =~= " "@ + quasi_text(t));
    } else {
        lemma_spaced_quasi_push(ts.drop_first(), t);
        assert(ts.push(t).drop_first() =~= ts.drop_first().push(t));
        assert(ts.push(t)[0] == ts[0]);
        assert(spaced_quasi_text(ts.push(t)) =~= spaced_quasi_text(ts) + " "@ + quasi_text(t));
    }
}

impl ScopedParam {
    /// Append how this parameter is written.
    pub fn push_text(&self, out: &mut Vec<char>)
        ensures
            final(out)@ == old(out)@ + scoped_param_text(*self),
    {
        push_str(out, self.name.as_str());
        if !self.scopes.is_empty() {
            push_str(out, "{");
            self.scopes.push_text(out);
            push_str(out, "}");
        }
        assert(out@ =~= old(out)@ + scoped_param_text(*self));
    }

    /// How this parameter is written.
    pub fn to_display_string(&self) -> (r: String)
        ensures
            r@ == scoped_param_text(*self),
    {
        let mut out: Vec<char> = Vec::new();
        self.push_text(&mut out);
        assert(out@ =~= scoped_param_text(*self));
        string_from_chars(&out)
    }
}

fn push_params(out: &mut Vec<char>, ps: &Vec<ScopedParam>)
    ensures
        final(out)@ == old(out)@ + params_text(ps@),
{
    let ghost start = out@;
    let mut k: usize = 0;
    while k < ps.len()
        invariant
            k <= ps@.len(),
            out@ == start + params_text(ps@.take(k as int)),
        decreases ps@.len() - k,
    {
        if k > 0 {
            push_str(out, " ");
        }
        ps[k].push_text(out);
        proof {
            let next = ps@.take(k + 1);
            assert(next.drop_last() =~= ps@.take(k as int));
            if k == 0 {
                assert(ps@.take(0) =~= Seq::<ScopedParam>::empty());
            }
            assert(out@ =~= start + params_text(next));
        }
        k = k + 1;
    }
    proof {
        assert(ps@.take(k as int) =~= ps@);
    }
}

fn push_formals(out: &mut Vec<char>, f: &Formals)
    ensures
        final(out)@ == old(out)@ + formals_text(*f),
{
    match f {
        Formals::Fixed(ps) => {
            push_str(out, "(");
            push_params(out, ps);
            push_str(out, ")");
        },
        Formals::Variadic(p) => p.push_text(out),
        Formals::Mixed { fixed, rest } => {
            push_str(out, "(");
            push_params(out, fixed);
            push_str(out, " . ");
            rest.push_text(out);
            push_str(out, ")");
        },
    }
    assert(out@ =~= old(out)@ + formals_text(*f));
}

fn push_spaced_literals(out: &mut Vec<char>, vs: &Vec<TaggedValue>)
    ensures
        final(out)@ == old(out)@ + spaced_literals_text(vs@),
{
    let ghost start = out@;
    let mut k: usize = 0;
    while k < vs.len()
        invariant
            k <= vs@.len(),
            out@ == start + spaced_literals_text(vs@.take(k as int)),
        decreases vs@.len() - k,
    {
        push_str(out, " ");
        push_literal(out, vs[k]);
        proof {
            let next = vs@.take(k + 1);
            assert(next.drop_last() =~= vs@.take(k as int));
            assert(out@ =~= start + spaced_literals_text(next));
        }
        k = k + 1;
    }
    proof {
        assert(vs@.take(k as int) =~= vs@);
    }
}

fn push_spaced_core(es: &Vec<CoreExpr>, out: &mut Vec<char>)
    ensures
        final(out)@ == old(out)@ + spaced_core_text(es@),
    decreases es@, 0int,
{
    let ghost start = out@;
    let mut i: usize = 0;
    while i < es.len()
        invariant
            i <= es@.len(),
            out@ == start + spaced_core_text(es@.take(i as int)),
        decreases es@.len() - i,
    {
        proof {
            assert(decreases_to!(es@ => es@[i as int]));
        }
        push_str(out, " ");
        es[i].push_text(out);
        proof {
            lemma_spaced_core_push(es@.take(i as int), es@[i as int]);
            assert(es@.take(i + 1) =~= es@.take(i as int).push(es@[i as int]));
            assert(out@ =~= start + spaced_core_text(es@.take(i + 1)));
        }
        i += 1;
    }
    proof {
        assert(es@.take(es@.len() as int) =~= es@);
    }
}

fn push_spaced_quasi(ts: &Vec<QuasiTemplate>, out: &mut Vec<char>)
    ensures
        final(out)@ == old(out)@ + spaced_quasi_text(ts@),
    decreases ts@, 0int,
{
    let ghost start = out@;
    let mut i: usize = 0;
    while i < ts.len()
        invariant
            i <= ts@.len(),
            out@ == start + spaced_quasi_text(ts@.take(i as int)),
        decreases ts@.len() - i,
    {
        proof {
            assert(decreases_to!(ts@ => ts@[i as int]));
        }
        push_str(out, " ");
        ts[i].push_text(out);
        proof {
            lemma_spaced_quasi_push(ts@.take(i as int), ts@[i as int]);
            assert(ts@.take(i + 1) =~= ts@.take(i as int).push(ts@[i as int]));
            assert(out@ =~= start + spaced_quasi_text(ts@.take(i + 1)));
        }
        i += 1;
    }
    proof {
        assert(ts@.take(ts@.len() as int) =~= ts@);
    }
}

impl QuasiTemplate {
    /// Append how this template is written.
    pub fn push_text(&self, out: &mut Vec<char>)
        ensures
            final(out)@ == old(out)@ + quasi_text(*self),
        decreases *self, 1int,
    {
        let ghost start = out@;
        match self {
            QuasiTemplate::Datum(d) => {
                push_str(out, "'");
                push_literal(out, *d);
            },
            QuasiTemplate::Unquoted(e) => e.push_text(out),
            QuasiTemplate::Build(c, parts) => {
                push_str(out, "(");
                push_str(out, c.name());
                push_spaced_quasi(parts, out);
                push_str(out, ")");
            },
        }
        assert(out@ =~= start + quasi_text(*self));
    }

    /// How this template is written.
    pub fn to_display_string(&self) -> (r: String)
        ensures
            r@ == quasi_text(*self),
    {
        let mut out: Vec<char> = Vec::new();
        self.push_text(&mut out);
        assert(out@ =~= quasi_text(*self));
        string_from_chars(&out)
    }
}

impl CoreExpr {
    /// Append how this expression is written.
    #[verifier::spinoff_prover]
    #[verifier::rlimit(60)]
    pub fn push_text(&self, out: &mut Vec<char>)
        ensures
            final(out)@ == old(out)@ + core_text(*self),
        decreases *self, 1int,
    {
        let ghost start = out@;
        match &self.kind {
            CoreExprKind::Literal(v) => {
                push_literal(out, *v);
                assert(out@ =~= start + core_text(*self));
            },
            CoreExprKind::Var { name, scopes } => {
                push_scoped_name(out, name, scopes);
                assert(out@ =~= start + core_text(*self));
            },
            CoreExprKind::Quote(v) => {
                push_str(out, "'");
                push_literal(out, *v);
                assert(out@ =~= start + core_text(*self));
            },
            CoreExprKind::Quasiquote(t) => {
                push_str(out, "(quasiquote ");
                t.push_text(out);
                push_str(out, ")");
                assert(out@ =~= start + core_text(*self));
            },
            CoreExprKind::Lambda { params, .. } => {
                push_str(out, "(lambda ");
                push_formals(out, params);
                push_str(out, " ...)");
                assert(out@ =~= start + core_text(*self));
            },
            CoreExprKind::If { test, then_, else_ } => {
                push_str(out, "(if ");
                test.push_text(out);
                push_str(out, " ");
                then_.push_text(out);
                push_str(out, " ");
                else_.push_text(out);
                push_str(out, ")");
                assert(out@ =~= start + core_text(*self));
            },
            CoreExprKind::Assign { var, scopes, value } => {
                push_str(out, "(set! ");
                push_scoped_name(out, var, scopes);
                push_str(out, " ");
                value.push_text(out);
                push_str(out, ")");
                assert(out@ =~= start + core_text(*self));
            },
            CoreExprKind::Begin(es) => {
                push_str(out, "(begin");
                push_spaced_core(es, out);
                push_str(out, ")");
                assert(out@ =~= start + core_text(*self));
            },
            CoreExprKind::Define { name, scopes, value } => {
                push_str(out, "(define ");
                push_scoped_name(out, name, scopes);
                push_str(out, " ");
                value.push_text(out);
                push_str(out, ")");
                assert(out@ =~= start + core_text(*self));
            },
            CoreExprKind::Import { import_sets } => {
                push_str(out, "(import");
                push_spaced_literals(out, import_sets);
                push_str(out, ")");
                assert(out@ =~= start + core_text(*self));
            },
            CoreExprKind::Expand { expr } => {
                push_str(out, "(expand ");
                expr.push_text(out);
                push_str(out, ")");
                assert(out@ =~= start + core_text(*self));
            },
            CoreExprKind::App { func, args } => {
                push_str(out, "(");
                func.push_text(out);
                push_spaced_core(args, out);
                push_str(out, ")");
                assert(out@ =~= start + core_text(*self));
            },
            CoreExprKind::Apply { func, args } => {
                push_str(out, "(apply ");
                func.push_text(out);
                push_spaced_core(args, out);
                push_str(out, ")");
                assert(out@ =~= start + core_text(*self));
            },
        }
    }

    /// How this expression is written: the text of its kind.
    pub fn to_display_string(&self) -> (r: String)
        ensures
            r@ == core_text(*self),
    {
        let mut out: Vec<char> = Vec::new();
        self.push_text(&mut out);
        assert(out@ =~= core_text(*self));
        string_from_chars(&out)
    }
}

} // verus!
