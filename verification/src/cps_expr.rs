//! The continuation-passing-style intermediate representation.
//!
//! Every sub-expression names the continuation that receives its value.
//! Trivial expressions (literals, variables, continuation references,
//! lambdas) evaluate at once; the others work with continuations.
use vstd::prelude::*;
use std::rc::Rc;
use crate::error::SourceLocation;
use crate::scope::ScopeSet;
use crate::tagged_value::TaggedValue;
use crate::continuation::IdSource;
use crate::scope::scopes_text;
use crate::text::{decimal, push_decimal, push_str, string_from_chars};
use crate::compiled_macro::{literal_text, push_literal};

verus! {

/// A prompt tag: a debugging name and a unique identity.
#[derive(Debug, Clone, PartialEq, Eq)]
pub struct PromptTag {
    pub name: String,
    pub id: u64,
}

impl PromptTag {
    /// A tag with a fresh identity drawn from `ids`.
    pub fn new(name: &str, ids: &mut IdSource) -> (r: PromptTag)
        requires
            old(ids).spec_next() < u64::MAX,
        ensures
            r.name@ == name@,
            r.id == old(ids).spec_next(),
            final(ids).spec_next() == r.id + 1,
    {
        let id = ids.fresh();
        PromptTag { name: crate::text::string_from_chars(&crate::text::chars_of(name)), id }
    }

    /// A tag with a given identity.
    pub fn with_id(name: &str, id: u64) -> (r: PromptTag)
        ensures
            r.name@ == name@,
            r.id == id,
    {
        PromptTag { name: crate::text::string_from_chars(&crate::text::chars_of(name)), id }
    }

    /// Two tags are the same tag when name and identity agree.
    pub fn same_tag(&self, other: &PromptTag) -> (r: bool)
        ensures
            r == (self.name@ == other.name@ && self.id == other.id),
    {
        self.id == other.id && crate::text::str_is(self.name.as_str(), other.name.as_str())
    }
}

/// A CPS expression with an optional source location.
#[derive(Debug)]
pub struct CpsExpr {
    pub kind: CpsExprKind,
    pub source: Option<SourceLocation>,
}

/// A parameter of a CPS lambda.
#[derive(Debug)]
pub struct CpsParam {
    pub name: String,
    pub scopes: ScopeSet,
}

/// The kinds of CPS expression.
#[derive(Debug)]
pub enum CpsExprKind {
    Literal(TaggedValue),
    Var { name: String, scopes: ScopeSet },
    ContRef(String),
    Lambda {
        params: Vec<CpsParam>,
        variadic: Option<CpsParam>,
        cont_param: String,
        body: Rc<CpsExpr>,
        binding_scopes: Rc<ScopeSet>,
    },
    LetVal { name: String, value: Rc<CpsExpr>, body: Rc<CpsExpr> },
    LetCont { name: String, param: String, cont_body: Rc<CpsExpr>, body: Rc<CpsExpr> },
    App { func: Rc<CpsExpr>, args: Vec<CpsExpr>, cont: String },
    Apply { func: Rc<CpsExpr>, args: Vec<CpsExpr>, cont: String },
    Continue { cont: String, value: Rc<CpsExpr> },
    If { test: Rc<CpsExpr>, consequent: Rc<CpsExpr>, alternate: Rc<CpsExpr> },
    Assign { var: String, scopes: ScopeSet, value: Rc<CpsExpr>, cont: Rc<CpsExpr> },
    Define { name: String, scopes: ScopeSet, value: Rc<CpsExpr>, cont: Rc<CpsExpr> },
    CallCC { proc_: Rc<CpsExpr>, cont: String },
    Prompt { tag: PromptTag, body: Rc<CpsExpr>, cont: String },
    Control { tag: PromptTag, proc_: Rc<CpsExpr> },
    Abort { tag: PromptTag, value: Rc<CpsExpr> },
    Quasiquote { template: TaggedValue, cont: String },
    PrimOp { op: CpsPrimitive, args: Vec<CpsExpr>, cont: String },
    Halt(Rc<CpsExpr>),
}

/// Primitive operations known not to capture continuations.
#[derive(Debug, Clone, Copy, PartialEq, Eq, Structural)]
pub enum CpsPrimitive {
    Add,
    Sub,
    Mul,
    Div,
    Quotient,
    Remainder,
    Modulo,
    NumEq,
    Lt,
    Gt,
    Lte,
    Gte,
    Cons,
    Car,
    Cdr,
    List,
    IsNull,
    IsPair,
    IsNumber,
    IsBoolean,
    IsString,
    IsSymbol,
    IsProcedure,
    IsContinuation,
    Eq,
    Eqv,
    Equal,
    MakeVector,
    VectorRef,
    VectorSet,
    VectorLength,
    MakeString,
    StringRef,
    StringLength,
    Display,
    Newline,
    IsPromptTag,
}

/// The literals embedded in an expression tree, in visiting order:
/// `Literal` nodes and `Quasiquote` templates.
pub open spec fn cps_literals(e: CpsExpr) -> Seq<TaggedValue>
    decreases e, 1int,
{
    match e.kind {
        CpsExprKind::Literal(tv) => seq![tv],
        CpsExprKind::Quasiquote { template, .. } => seq![template],
        CpsExprKind::Var { .. } => Seq::empty(),
        CpsExprKind::ContRef(_) => Seq::empty(),
        CpsExprKind::Lambda { body, .. } => cps_literals(*body),
        CpsExprKind::LetVal { value, body, .. } => cps_literals(*value) + cps_literals(*body),
        CpsExprKind::LetCont { cont_body, body, .. } => cps_literals(*cont_body) + cps_literals(
            *body,
        ),
        CpsExprKind::App { func, args, .. } => cps_literals(*func) + cps_literals_seq(args@),
        CpsExprKind::Apply { func, args, .. } => cps_literals(*func) + cps_literals_seq(args@),
        CpsExprKind::Continue { value, .. } => cps_literals(*value),
        CpsExprKind::If { test, consequent, alternate } => cps_literals(*test) + cps_literals(
            *consequent,
        ) + cps_literals(*alternate),
        CpsExprKind::Assign { value, cont, .. } => cps_literals(*value) + cps_literals(*cont),
        CpsExprKind::Define { value, cont, .. } => cps_literals(*value) + cps_literals(*cont),
        CpsExprKind::CallCC { proc_, .. } => cps_literals(*proc_),
        CpsExprKind::Control { proc_, .. } => cps_literals(*proc_),
        CpsExprKind::Prompt { body, .. } => cps_literals(*body),
        CpsExprKind::Abort { value, .. } => cps_literals(*value),
        CpsExprKind::PrimOp { args, .. } => cps_literals_seq(args@),
        CpsExprKind::Halt(inner) => cps_literals(*inner),
    }
}

/// The literals of a sequence of expressions, in order.
pub open spec fn cps_literals_seq(es: Seq<CpsExpr>) -> Seq<TaggedValue>
    decreases es, 0int,
{
    if es.len() == 0 {
        Seq::empty()
    } else {
        cps_literals(es[0]) + cps_literals_seq(es.drop_first())
    }
}

/// Whether an expression kind is trivial (no control effects).
pub open spec fn spec_cps_is_trivial(k: &CpsExprKind) -> bool {
    *k is Literal || *k is Var || *k is ContRef || *k is Lambda
}

impl CpsExpr {
    /// An expression with no source location.
    pub fn new(kind: CpsExprKind) -> (r: CpsExpr)
        ensures
            r.kind == kind,
            r.source is None,
    {
        CpsExpr { kind, source: None }
    }

    /// An expression located at `source`.
    pub fn with_source(kind: CpsExprKind, source: SourceLocation) -> (r: CpsExpr)
        ensures
            r.kind == kind,
            r.source == Some(source),
    {
        CpsExpr { kind, source: Some(source) }
    }

    /// An expression with an optional location.
    pub fn with_opt_source(kind: CpsExprKind, source: Option<SourceLocation>) -> (r: CpsExpr)
        ensures
            r.kind == kind,
            r.source == source,
    {
        CpsExpr { kind, source }
    }

    /// A shared expression with no source location.
    pub fn rc(kind: CpsExprKind) -> (r: Rc<CpsExpr>)
        ensures
            r.kind == kind,
            r.source is None,
    {
        Rc::new(Self::new(kind))
    }

    /// Whether this expression is trivial.
    pub fn is_trivial(&self) -> (r: bool)
        ensures
            r == spec_cps_is_trivial(&self.kind),
    {
        self.kind.is_trivial()
    }

    /// A human-readable name of the expression's kind.
    pub fn expr_kind(&self) -> (r: &'static str)
        ensures
            r@ == spec_cps_expr_kind(&self.kind),
    {
        self.kind.expr_kind()
    }

    /// The literals embedded in this expression tree, in visiting order.
    pub fn literals(&self) -> (r: Vec<TaggedValue>)
        ensures
            r@ == cps_literals(*self),
    {
        let mut out: Vec<TaggedValue> = Vec::new();
        self.collect_literals(&mut out);
        proof {
            assert(Seq::<TaggedValue>::empty() + cps_literals(*self) =~= cps_literals(*self));
        }
        out
    }

    fn collect_literals(&self, out: &mut Vec<TaggedValue>)
        ensures
            final(out)@ == old(out)@ + cps_literals(*self),
        decreases *self, 1int,
    {
        let ghost start = out@;
        match &self.kind {
            CpsExprKind::Literal(tv) => {
                out.push(*tv);
            },
            CpsExprKind::Quasiquote { template, .. } => {
                out.push(*template);
            },
            CpsExprKind::Var { .. } => {},
            CpsExprKind::ContRef(_) => {},
            CpsExprKind::Lambda { body, .. } => body.collect_literals(out),
            CpsExprKind::LetVal { value, body, .. } => {
                value.collect_literals(out);
                body.collect_literals(out);
            },
            CpsExprKind::LetCont { cont_body, body, .. } => {
                cont_body.collect_literals(out);
                body.collect_literals(out);
            },
            CpsExprKind::App { func, args, .. } => {
                func.collect_literals(out);
                collect_literals_slice(args, out);
            },
            CpsExprKind::Apply { func, args, .. } => {
                func.collect_literals(out);
                collect_literals_slice(args, out);
            },
            CpsExprKind::Continue { value, .. } => value.collect_literals(out),
            CpsExprKind::If { test, consequent, alternate } => {
                test.collect_literals(out);
                consequent.collect_literals(out);
                alternate.collect_literals(out);
            },
            CpsExprKind::Assign { value, cont, .. } => {
                value.collect_literals(out);
                cont.collect_literals(out);
            },
            CpsExprKind::Define { value, cont, .. } => {
                value.collect_literals(out);
                cont.collect_literals(out);
            },
            CpsExprKind::CallCC { proc_, .. } => proc_.collect_literals(out),
            CpsExprKind::Control { proc_, .. } => proc_.collect_literals(out),
            CpsExprKind::Prompt { body, .. } => body.collect_literals(out),
            CpsExprKind::Abort { value, .. } => value.collect_literals(out),
            CpsExprKind::PrimOp { args, .. } => collect_literals_slice(args, out),
            CpsExprKind::Halt(inner) => inner.collect_literals(out),
        }
        proof {
            assert(out@ =~= start + cps_literals(*self));
        }
    }
}

fn collect_literals_slice(es: &Vec<CpsExpr>, out: &mut Vec<TaggedValue>)
    ensures
        final(out)@ == old(out)@ + cps_literals_seq(es@),
    decreases es@, 0int,
{
    let ghost start = out@;
    let mut i: usize = 0;
    while i < es.len()
        invariant
            i <= es@.len(),
            out@ == start + cps_literals_seq(es@.take(i as int)),
        decreases es@.len() - i,
    {
        proof {
            assert(decreases_to!(es@ => es@[i as int]));
        }
        es[i].collect_literals(out);
        proof {
            lemma_literals_seq_push(es@.take(i as int), es@[i as int]);
            assert(es@.take(i + 1) =~= es@.take(i as int).push(es@[i as int]));
        }
        i += 1;
    }
    proof {
        assert(es@.take(es@.len() as int) =~= es@);
    }
}

proof fn lemma_literals_seq_push(es: Seq<CpsExpr>, e: CpsExpr)
    ensures
        cps_literals_seq(es.push(e)) == cps_literals_seq(es) + cps_literals(e),
    decreases es.len(),
{
    if es.len() == 0 {
        assert(es.push(e).drop_first() =~= Seq::<CpsExpr>::empty());
        assert(cps_literals_seq(Seq::<CpsExpr>::empty()) == Seq::<TaggedValue>::empty());
        assert(cps_literals_seq(es.push(e)) =~= cps_literals(e));
    } else {
        lemma_literals_seq_push(es.drop_first(), e);
        assert(es.push(e).drop_first() =~= es.drop_first().push(e));
        assert(cps_literals_seq(es.push(e)) =~= cps_literals_seq(es) + cps_literals(e));
    }
}

/// The name of each expression kind.
pub open spec fn spec_cps_expr_kind(k: &CpsExprKind) -> Seq<char> {
    match *k {
        CpsExprKind::Literal(_) => "literal"@,
        CpsExprKind::Var { .. } => "var"@,
        CpsExprKind::ContRef(_) => "cont-ref"@,
        CpsExprKind::Lambda { .. } => "lambda"@,
        CpsExprKind::LetVal { .. } => "let-val"@,
        CpsExprKind::LetCont { .. } => "let-cont"@,
        CpsExprKind::App { .. } => "app"@,
        CpsExprKind::Apply { .. } => "apply"@,
        CpsExprKind::Continue { .. } => "continue"@,
        CpsExprKind::If { .. } => "if"@,
        CpsExprKind::Assign { .. } => "set!"@,
        CpsExprKind::Define { .. } => "define"@,
        CpsExprKind::CallCC { .. } => "call/cc"@,
        CpsExprKind::Prompt { .. } => "prompt"@,
        CpsExprKind::Control { .. } => "control"@,
        CpsExprKind::Abort { .. } => "abort"@,
        CpsExprKind::Quasiquote { .. } => "quasiquote"@,
        CpsExprKind::PrimOp { .. } => "prim-op"@,
        CpsExprKind::Halt(_) => "halt"@,
    }
}

impl CpsExprKind {
    /// Whether this kind is trivial: literal, variable, continuation
    /// reference or lambda.
    pub fn is_trivial(&self) -> (r: bool)
        ensures
            r == spec_cps_is_trivial(self),
    {
        matches!(
            self,
            CpsExprKind::Literal(_) | CpsExprKind::Var { .. } | CpsExprKind::ContRef(_)
                | CpsExprKind::Lambda { .. }
        )
    }

    /// A human-readable name of this kind.
    pub fn expr_kind(&self) -> (r: &'static str)
        ensures
            r@ == spec_cps_expr_kind(self),
    {
        match self {
            CpsExprKind::Literal(_) => "literal",
            CpsExprKind::Var { .. } => "var",
            CpsExprKind::ContRef(_) => "cont-ref",
            CpsExprKind::Lambda { .. } => "lambda",
            CpsExprKind::LetVal { .. } => "let-val",
            CpsExprKind::LetCont { .. } => "let-cont",
            CpsExprKind::App { .. } => "app",
            CpsExprKind::Apply { .. } => "apply",
            CpsExprKind::Continue { .. } => "continue",
            CpsExprKind::If { .. } => "if",
            CpsExprKind::Assign { .. } => "set!",
            CpsExprKind::Define { .. } => "define",
            CpsExprKind::CallCC { .. } => "call/cc",
            CpsExprKind::Prompt { .. } => "prompt",
            CpsExprKind::Control { .. } => "control",
            CpsExprKind::Abort { .. } => "abort",
            CpsExprKind::Quasiquote { .. } => "quasiquote",
            CpsExprKind::PrimOp { .. } => "prim-op",
            CpsExprKind::Halt(_) => "halt",
        }
    }
}

impl CpsParam {
    /// A parameter with no scopes.
    pub fn simple(name: &str) -> (r: CpsParam)
        ensures
            r.name@ == name@,
            r.scopes.wf(),
            r.scopes.ids_view().len() == 0,
    {
        CpsParam {
            name: crate::text::string_from_chars(&crate::text::chars_of(name)),
            scopes: ScopeSet::new(),
        }
    }

    /// A parameter with scopes.
    pub fn with_scopes(name: &str, scopes: ScopeSet) -> (r: CpsParam)
        ensures
            r.name@ == name@,
            r.scopes == scopes,
    {
        CpsParam { name: crate::text::string_from_chars(&crate::text::chars_of(name)), scopes }
    }
}

/// The registry name of each primitive; `None` for the two handled before
/// the registry is consulted.
pub open spec fn spec_qualified_name(p: CpsPrimitive) -> Option<Seq<char>> {
    match p {
        CpsPrimitive::Add => Some("scheme.base/+"@),
        CpsPrimitive::Sub => Some("scheme.base/-"@),
        CpsPrimitive::Mul => Some("scheme.base/*"@),
        CpsPrimitive::Div => Some("scheme.base//"@),
        CpsPrimitive::Quotient => Some("scheme.base/quotient"@),
        CpsPrimitive::Remainder => Some("scheme.base/remainder"@),
        CpsPrimitive::Modulo => Some("scheme.base/modulo"@),
        CpsPrimitive::NumEq => Some("scheme.base/="@),
        CpsPrimitive::Lt => Some("scheme.base/<"@),
        CpsPrimitive::Gt => Some("scheme.base/>"@),
        CpsPrimitive::Lte => Some("scheme.base/<="@),
        CpsPrimitive::Gte => Some("scheme.base/>="@),
        CpsPrimitive::Cons => Some("scheme.base/cons"@),
        CpsPrimitive::Car => Some("scheme.base/car"@),
        CpsPrimitive::Cdr => Some("scheme.base/cdr"@),
        CpsPrimitive::List => Some("scheme.base/list"@),
        CpsPrimitive::IsNull => Some("scheme.base/null?"@),
        CpsPrimitive::IsPair => Some("scheme.base/pair?"@),
        CpsPrimitive::IsNumber => Some("scheme.base/number?"@),
        CpsPrimitive::IsBoolean => Some("scheme.base/boolean?"@),
        CpsPrimitive::IsString => Some("scheme.base/string?"@),
        CpsPrimitive::IsSymbol => Some("scheme.base/symbol?"@),
        CpsPrimitive::IsProcedure => Some("scheme.base/procedure?"@),
        CpsPrimitive::Eq => Some("scheme.base/eq?"@),
        CpsPrimitive::Eqv => Some("scheme.base/eqv?"@),
        CpsPrimitive::Equal => Some("scheme.base/equal?"@),
        CpsPrimitive::MakeVector => Some("scheme.base/make-vector"@),
        CpsPrimitive::VectorRef => Some("scheme.base/vector-ref"@),
        CpsPrimitive::VectorSet => Some("scheme.base/vector-set!"@),
        CpsPrimitive::VectorLength => Some("scheme.base/vector-length"@),
        CpsPrimitive::MakeString => Some("scheme.base/make-string"@),
        CpsPrimitive::StringRef => Some("scheme.base/string-ref"@),
        CpsPrimitive::StringLength => Some("scheme.base/string-length"@),
        CpsPrimitive::Display => Some("scheme.base/display"@),
        CpsPrimitive::Newline => Some("scheme.base/newline"@),
        CpsPrimitive::IsContinuation => None,
        CpsPrimitive::IsPromptTag => None,
    }
}

impl CpsPrimitive {
    /// The qualified name for registry lookup, or `None` for the primitives
    /// handled before the registry (`IsContinuation`, `IsPromptTag`).
    pub fn qualified_name(&self) -> (r: Option<&'static str>)
        ensures
            match r {
                Some(s) => spec_qualified_name(*self) == Some(s@),
                None => spec_qualified_name(*self) is None,
            },
    {
        match self {
            CpsPrimitive::Add => Some("scheme.base/+"),
            CpsPrimitive::Sub => Some("scheme.base/-"),
            CpsPrimitive::Mul => Some("scheme.base/*"),
            CpsPrimitive::Div => Some("scheme.base//"),
            CpsPrimitive::Quotient => Some("scheme.base/quotient"),
            CpsPrimitive::Remainder => Some("scheme.base/remainder"),
            CpsPrimitive::Modulo => Some("scheme.base/modulo"),
            CpsPrimitive::NumEq => Some("scheme.base/="),
            CpsPrimitive::Lt => Some("scheme.base/<"),
            CpsPrimitive::Gt => Some("scheme.base/>"),
            CpsPrimitive::Lte => Some("scheme.base/<="),
            CpsPrimitive::Gte => Some("scheme.base/>="),
            CpsPrimitive::Cons => Some("scheme.base/cons"),
            CpsPrimitive::Car => Some("scheme.base/car"),
            CpsPrimitive::Cdr => Some("scheme.base/cdr"),
            CpsPrimitive::List => Some("scheme.base/list"),
            CpsPrimitive::IsNull => Some("scheme.base/null?"),
            CpsPrimitive::IsPair => Some("scheme.base/pair?"),
            CpsPrimitive::IsNumber => Some("scheme.base/number?"),
            CpsPrimitive::IsBoolean => Some("scheme.base/boolean?"),
            CpsPrimitive::IsString => Some("scheme.base/string?"),
            CpsPrimitive::IsSymbol => Some("scheme.base/symbol?"),
            CpsPrimitive::IsProcedure => Some("scheme.base/procedure?"),
            CpsPrimitive::Eq => Some("scheme.base/eq?"),
            CpsPrimitive::Eqv => Some("scheme.base/eqv?"),
            CpsPrimitive::Equal => Some("scheme.base/equal?"),
            CpsPrimitive::MakeVector => Some("scheme.base/make-vector"),
            CpsPrimitive::VectorRef => Some("scheme.base/vector-ref"),
            CpsPrimitive::VectorSet => Some("scheme.base/vector-set!"),
            CpsPrimitive::VectorLength => Some("scheme.base/vector-length"),
            CpsPrimitive::MakeString => Some("scheme.base/make-string"),
            CpsPrimitive::StringRef => Some("scheme.base/string-ref"),
            CpsPrimitive::StringLength => Some("scheme.base/string-length"),
            CpsPrimitive::Display => Some("scheme.base/display"),
            CpsPrimitive::Newline => Some("scheme.base/newline"),
            CpsPrimitive::IsContinuation | CpsPrimitive::IsPromptTag => None,
        }
    }
}

/// How a prompt tag is written: `#<prompt-tag:name/id>`.
pub open spec fn prompt_tag_text(t: PromptTag) -> Seq<char> {
    "#<prompt-tag:"@ + t.name@ + "/"@ + decimal(t.id as nat) + ">"@
}

impl PromptTag {
    /// Append how this tag is written.
    pub fn push_text(&self, out: &mut Vec<char>)
        ensures
            final(out)@ == old(out)@ + prompt_tag_text(*self),
    {
        push_str(out, "#<prompt-tag:");
        push_str(out, self.name.as_str());
        push_str(out, "/");
        push_decimal(out, self.id);
        push_str(out, ">");
        assert(out@ =~= old(out)@ + prompt_tag_text(*self));
    }

    /// How this tag is written.
    pub fn to_display_string(&self) -> (r: String)
        ensures
            r@ == prompt_tag_text(*self),
    {
        let mut out: Vec<char> = Vec::new();
        self.push_text(&mut out);
        assert(out@ =~= prompt_tag_text(*self));
        string_from_chars(&out)
    }
}

/// The debugging name of each primitive: its variant's name.
pub open spec fn primitive_name_text(p: CpsPrimitive) -> Seq<char> {
    match p {
        CpsPrimitive::Add => "Add"@,
        CpsPrimitive::Sub => "Sub"@,
        CpsPrimitive::Mul => "Mul"@,
        CpsPrimitive::Div => "Div"@,
        CpsPrimitive::Quotient => "Quotient"@,
        CpsPrimitive::Remainder => "Remainder"@,
        CpsPrimitive::Modulo => "Modulo"@,
        CpsPrimitive::NumEq => "NumEq"@,
        CpsPrimitive::Lt => "Lt"@,
        CpsPrimitive::Gt => "Gt"@,
        CpsPrimitive::Lte => "Lte"@,
        CpsPrimitive::Gte => "Gte"@,
        CpsPrimitive::Cons => "Cons"@,
        CpsPrimitive::Car => "Car"@,
        CpsPrimitive::Cdr => "Cdr"@,
        CpsPrimitive::List => "List"@,
        CpsPrimitive::IsNull => "IsNull"@,
        CpsPrimitive::IsPair => "IsPair"@,
        CpsPrimitive::IsNumber => "IsNumber"@,
        CpsPrimitive::IsBoolean => "IsBoolean"@,
        CpsPrimitive::IsString => "IsString"@,
        CpsPrimitive::IsSymbol => "IsSymbol"@,
        CpsPrimitive::IsProcedure => "IsProcedure"@,
        CpsPrimitive::IsContinuation => "IsContinuation"@,
        CpsPrimitive::Eq => "Eq"@,
        CpsPrimitive::Eqv => "Eqv"@,
        CpsPrimitive::Equal => "Equal"@,
        CpsPrimitive::MakeVector => "MakeVector"@,
        CpsPrimitive::VectorRef => "VectorRef"@,
        CpsPrimitive::VectorSet => "VectorSet"@,
        CpsPrimitive::VectorLength => "VectorLength"@,
        CpsPrimitive::MakeString => "MakeString"@,
        CpsPrimitive::StringRef => "StringRef"@,
        CpsPrimitive::StringLength => "StringLength"@,
        CpsPrimitive::Display => "Display"@,
        CpsPrimitive::Newline => "Newline"@,
        CpsPrimitive::IsPromptTag => "IsPromptTag"@,
    }
}

impl CpsPrimitive {
    /// The debugging name of this primitive: its variant's name.
    pub fn debug_name(&self) -> (r: &'static str)
        ensures
            r@ == primitive_name_text(*self),
    {
        match self {
            CpsPrimitive::Add => "Add",
            CpsPrimitive::Sub => "Sub",
            CpsPrimitive::Mul => "Mul",
            CpsPrimitive::Div => "Div",
            CpsPrimitive::Quotient => "Quotient",
            CpsPrimitive::Remainder => "Remainder",
            CpsPrimitive::Modulo => "Modulo",
            CpsPrimitive::NumEq => "NumEq",
            CpsPrimitive::Lt => "Lt",
            CpsPrimitive::Gt => "Gt",
            CpsPrimitive::Lte => "Lte",
            CpsPrimitive::Gte => "Gte",
            CpsPrimitive::Cons => "Cons",
            CpsPrimitive::Car => "Car",
            CpsPrimitive::Cdr => "Cdr",
            CpsPrimitive::List => "List",
            CpsPrimitive::IsNull => "IsNull",
            CpsPrimitive::IsPair => "IsPair",
            CpsPrimitive::IsNumber => "IsNumber",
            CpsPrimitive::IsBoolean => "IsBoolean",
            CpsPrimitive::IsString => "IsString",
            CpsPrimitive::IsSymbol => "IsSymbol",
            CpsPrimitive::IsProcedure => "IsProcedure",
            CpsPrimitive::IsContinuation => "IsContinuation",
            CpsPrimitive::Eq => "Eq",
            CpsPrimitive::Eqv => "Eqv",
            CpsPrimitive::Equal => "Equal",
            CpsPrimitive::MakeVector => "MakeVector",
            CpsPrimitive::VectorRef => "VectorRef",
            CpsPrimitive::VectorSet => "VectorSet",
            CpsPrimitive::VectorLength => "VectorLength",
            CpsPrimitive::MakeString => "MakeString",
            CpsPrimitive::StringRef => "StringRef",
            CpsPrimitive::StringLength => "StringLength",
            CpsPrimitive::Display => "Display",
            CpsPrimitive::Newline => "Newline",
            CpsPrimitive::IsPromptTag => "IsPromptTag",
        }
    }
}

/// A variable written with its scopes, when it has any.
pub open spec fn scoped_name_text(name: Seq<char>, scopes: ScopeSet) -> Seq<char> {
    if scopes.ids_view().len() == 0 {
        name
    } else {
        name + "@"@ + scopes_text(scopes)
    }
}

/// Append a variable written with its scopes, when it has any.
pub fn push_scoped_name(out: &mut Vec<char>, name: &String, scopes: &ScopeSet)
    ensures
        final(out)@ == old(out)@ + scoped_name_text(name@, *scopes),
{
    push_str(out, name.as_str());
    if !scopes.is_empty() {
        push_str(out, "@");
        scopes.push_text(out);
    }
    assert(out@ =~= old(out)@ + scoped_name_text(name@, *scopes));
}

/// Parameter names separated by spaces.
pub open spec fn param_names_text(ps: Seq<CpsParam>) -> Seq<char>
    decreases ps.len(),
{
    if ps.len() == 0 {
        Seq::empty()
    } else if ps.len() == 1 {
        ps[0].name@
    } else {
        param_names_text(ps.drop_last()) + " "@ + ps.last().name@
    }
}

/// The parameter list of a CPS lambda, without its parentheses.
pub open spec fn lambda_params_text(ps: Seq<CpsParam>, variadic: Option<CpsParam>) -> Seq<char> {
    param_names_text(ps) + match variadic {
        None => Seq::empty(),
        Some(rest) => (if ps.len() > 0 {
            " "@
        } else {
            Seq::empty()
        }) + ". "@ + rest.name@,
    }
}

fn push_lambda_params(out: &mut Vec<char>, ps: &Vec<CpsParam>, variadic: &Option<CpsParam>)
    ensures
        final(out)@ == old(out)@ + lambda_params_text(ps@, *variadic),
{
    let ghost start = out@;
    let mut k: usize = 0;
    while k < ps.len()
        invariant
            k <= ps@.len(),
            out@ == start + param_names_text(ps@.take(k as int)),
        decreases ps@.len() - k,
    {
        if k > 0 {
            push_str(out, " ");
        }
        push_str(out, ps[k].name.as_str());
        proof {
            let next = ps@.take(k + 1);
            assert(next.drop_last() =~= ps@.take(k as int));
            if k == 0 {
                assert(ps@.take(0) =~= Seq::<CpsParam>::empty());
            }
            assert(out@ =~= start + param_names_text(next));
        }
        k = k + 1;
    }
    proof {
        assert(ps@.take(k as int) =~= ps@);
    }
    match variadic {
        Some(rest) => {
            if ps.len() > 0 {
                push_str(out, " ");
            }
            push_str(out, ". ");
            push_str(out, rest.name.as_str());
        },
        None => {},
    }
    assert(out@ =~= old(out)@ + lambda_params_text(ps@, *variadic));
}

/// How a CPS expression is written.
pub open spec fn cps_text(e: CpsExpr) -> Seq<char>
    decreases e, 1int,
{
    match e.kind {
        CpsExprKind::Literal(v) => literal_text(v),
        CpsExprKind::Var { name, scopes } => scoped_name_text(name@, scopes),
        CpsExprKind::ContRef(k) => "#"@ + k@,
        CpsExprKind::Lambda { params, variadic, cont_param, body, .. } => "(λ ("@
            + lambda_params_text(params@, variadic) + ") #"@ + cont_param@ + " "@ + cps_text(*body)
            + ")"@,
        CpsExprKind::LetVal { name, value, body } => "(let-val ("@ + name@ + " "@ + cps_text(
            *value,
        ) + ") "@ + cps_text(*body) + ")"@,
        CpsExprKind::LetCont { name, param, cont_body, body } => "(let-cont (("@ + name@ + " "@
            + param@ + ") "@ + cps_text(*cont_body) + ") "@ + cps_text(*body) + ")"@,
        CpsExprKind::App { func, args, cont } => "("@ + cps_text(*func) + spaced_cps_text(args@)
            + " #"@ + cont@ + ")"@,
        CpsExprKind::Apply { func, args, cont } => "(apply "@ + cps_text(*func) + spaced_cps_text(
            args@,
        ) + " #"@ + cont@ + ")"@,
        CpsExprKind::Continue { cont, value } => "(#"@ + cont@ + " "@ + cps_text(*value) + ")"@,
        CpsExprKind::If { test, consequent, alternate } => "(if "@ + cps_text(*test) + " "@
            + cps_text(*consequent) + " "@ + cps_text(*alternate) + ")"@,
        CpsExprKind::Assign { var, value, cont, .. } => "(set! "@ + var@ + " "@ + cps_text(*value)
            + " "@ + cps_text(*cont) + ")"@,
        CpsExprKind::Define { name, value, cont, .. } => "(define "@ + name@ + " "@ + cps_text(
            *value,
        ) + " "@ + cps_text(*cont) + ")"@,
        CpsExprKind::CallCC { proc_, cont } => "(call/cc "@ + cps_text(*proc_) + " #"@ + cont@
            + ")"@,
        CpsExprKind::Prompt { tag, body, cont } => "(prompt "@ + prompt_tag_text(tag) + " "@
            + cps_text(*body) + " #"@ + cont@ + ")"@,
        CpsExprKind::Control { tag, proc_ } => "(control "@ + prompt_tag_text(tag) + " "@
            + cps_text(*proc_) + ")"@,
        CpsExprKind::Abort { tag, value } => "(abort "@ + prompt_tag_text(tag) + " "@ + cps_text(
            *value,
        ) + ")"@,
        CpsExprKind::Quasiquote { template, cont } => "(quasiquote "@ + literal_text(template)
            + " #"@ + cont@ + ")"@,
        CpsExprKind::PrimOp { op, args, cont } => "("@ + primitive_name_text(op)
            + spaced_cps_text(args@) + " #"@ + cont@ + ")"@,
        CpsExprKind::Halt(v) => "(halt "@ + cps_text(*v) + ")"@,
    }
}

/// Expressions each written after a space.
pub open spec fn spaced_cps_text(es: Seq<CpsExpr>) -> Seq<char>
    decreases es, 0int,
{
    if es.len() == 0 {
        Seq::empty()
    } else {
        " "@ + cps_text(es[0]) + spaced_cps_text(es.drop_first())
    }
}

proof fn lemma_spaced_cps_push(es: Seq<CpsExpr>, e: CpsExpr)
    ensures
        spaced_cps_text(es.push(e)) == spaced_cps_text(es) + " "@ + cps_text(e),
    decreases es.len(),
{
    if es.len() == 0 {
        assert(es.push(e).drop_first() =~= Seq::<CpsExpr>::empty());
        assert(es.push(e)[0] == e);
        assert(spaced_cps_text(Seq::<CpsExpr>::empty()) == Seq::<char>::empty());
        assert(spaced_cps_text(es.push(e)) =~= " "@ + cps_text(e));
    } else {
        lemma_spaced_cps_push(es.drop_first(), e);
        assert(es.push(e).drop_first() =~= es.drop_first().push(e));
        assert(es.push(e)[0] == es[0]);
        assert(spaced_cps_text(es.push(e)) =~= spaced_cps_text(es) + " "@ + cps_text(e));
    }
}

fn push_spaced_cps(es: &Vec<CpsExpr>, out: &mut Vec<char>)
    ensures
        final(out)@ == old(out)@ + spaced_cps_text(es@),
    decreases es@, 0int,
{
    let ghost start = out@;
    let mut i: usize = 0;
    while i < es.len()
        invariant
            i <= es@.len(),
            out@ == start + spaced_cps_text(es@.take(i as int)),
        decreases es@.len() - i,
    {
        proof {
            assert(decreases_to!(es@ => es@[i as int]));
        }
        push_str(out, " ");
        es[i].push_text(out);
        proof {
            lemma_spaced_cps_push(es@.take(i as int), es@[i as int]);
            assert(es@.take(i + 1) =~= es@.take(i as int).push(es@[i as int]));
            assert(out@ =~= start + spaced_cps_text(es@.take(i + 1)));
        }
        i += 1;
    }
    proof {
        assert(es@.take(es@.len() as int) =~= es@);
    }
}

impl CpsExpr {
    /// Append how this expression is written.
    #[verifier::spinoff_prover]
    #[verifier::rlimit(60)]
    pub fn push_text(&self, out: &mut Vec<char>)
        ensures
            final(out)@ == old(out)@ + cps_text(*self),
        decreases *self, 1int,
    {
        let ghost start = out@;
        match &self.kind {
            CpsExprKind::Literal(v) => {
                push_literal(out, *v);
                assert(out@ =~= start + cps_text(*self));
            },
            CpsExprKind::Var { name, scopes } => {
                push_scoped_name(out, name, scopes);
                assert(out@ =~= start + cps_text(*self));
            },
            CpsExprKind::ContRef(k) => {
                push_str(out, "#");
                push_str(out, k.as_str());
                assert(out@ =~= start + cps_text(*self));
            },
            CpsExprKind::Lambda { params, variadic, cont_param, body, .. } => {
                push_str(out, "(λ (");
                push_lambda_params(out, params, variadic);
                push_str(out, ") #");
                push_str(out, cont_param.as_str());
                push_str(out, " ");
                body.push_text(out);
                push_str(out, ")");
                assert(out@ =~= start + cps_text(*self));
            },
            CpsExprKind::LetVal { name, value, body } => {
                push_str(out, "(let-val (");
                push_str(out, name.as_str());
                push_str(out, " ");
                value.push_text(out);
                push_str(out, ") ");
                body.push_text(out);
                push_str(out, ")");
                assert(out@ =~= start + cps_text(*self));
            },
            CpsExprKind::LetCont { name, param, cont_body, body } => {
                push_str(out, "(let-cont ((");
                push_str(out, name.as_str());
                push_str(out, " ");
                push_str(out, param.as_str());
                push_str(out, ") ");
                cont_body.push_text(out);
                push_str(out, ") ");
                body.push_text(out);
                push_str(out, ")");
                assert(out@ =~= start + cps_text(*self));
            },
            CpsExprKind::App { func, args, cont } => {
                push_str(out, "(");
                func.push_text(out);
                push_spaced_cps(args, out);
                push_str(out, " #");
                push_str(out, cont.as_str());
                push_str(out, ")");
                assert(out@ =~= start + cps_text(*self));
            },
            CpsExprKind::Apply { func, args, cont } => {
                push_str(out, "(apply ");
                func.push_text(out);
                push_spaced_cps(args, out);
                push_str(out, " #");
                push_str(out, cont.as_str());
                push_str(out, ")");
                assert(out@ =~= start + cps_text(*self));
            },
            CpsExprKind::Continue { cont, value } => {
                push_str(out, "(#");
                push_str(out, cont.as_str());
                push_str(out, " ");
                value.push_text(out);
                push_str(out, ")");
                assert(out@ =~= start + cps_text(*self));
            },
            CpsExprKind::If { test, consequent, alternate } => {
                push_str(out, "(if ");
                test.push_text(out);
                push_str(out, " ");
                consequent.push_text(out);
                push_str(out, " ");
                alternate.push_text(out);
                push_str(out, ")");
                assert(out@ =~= start + cps_text(*self));
            },
            CpsExprKind::Assign { var, value, cont, .. } => {
                push_str(out, "(set! ");
                push_str(out, var.as_str());
                push_str(out, " ");
                value.push_text(out);
                push_str(out, " ");
                cont.push_text(out);
                push_str(out, ")");
                assert(out@ =~= start + cps_text(*self));
            },
            CpsExprKind::Define { name, value, cont, .. } => {
                push_str(out, "(define ");
                push_str(out, name.as_str());
                push_str(out, " ");
                value.push_text(out);
                push_str(out, " ");
                cont.push_text(out);
                push_str(out, ")");
                assert(out@ =~= start + cps_text(*self));
            },
            CpsExprKind::CallCC { proc_, cont } => {
                push_str(out, "(call/cc ");
                proc_.push_text(out);
                push_str(out, " #");
                push_str(out, cont.as_str());
                push_str(out, ")");
                assert(out@ =~= start + cps_text(*self));
            },
            CpsExprKind::Prompt { tag, body, cont } => {
                push_str(out, "(prompt ");
                tag.push_text(out);
                push_str(out, " ");
                body.push_text(out);
                push_str(out, " #");
                push_str(out, cont.as_str());
                push_str(out, ")");
                assert(out@ =~= start + cps_text(*self));
            },
            CpsExprKind::Control { tag, proc_ } => {
                push_str(out, "(control ");
                tag.push_text(out);
                push_str(out, " ");
                proc_.push_text(out);
                push_str(out, ")");
                assert(out@ =~= start + cps_text(*self));
            },
            CpsExprKind::Abort { tag, value } => {
                push_str(out, "(abort ");
                tag.push_text(out);
                push_str(out, " ");
                value.push_text(out);
                push_str(out, ")");
                assert(out@ =~= start + cps_text(*self));
            },
            CpsExprKind::Quasiquote { template, cont } => {
                push_str(out, "(quasiquote ");
                push_literal(out, *template);
                push_str(out, " #");
                push_str(out, cont.as_str());
                push_str(out, ")");
                assert(out@ =~= start + cps_text(*self));
            },
            CpsExprKind::PrimOp { op, args, cont } => {
                push_str(out, "(");
                push_str(out, op.debug_name());
                push_spaced_cps(args, out);
                push_str(out, " #");
                push_str(out, cont.as_str());
                push_str(out, ")");
                assert(out@ =~= start + cps_text(*self));
            },
            CpsExprKind::Halt(v) => {
                push_str(out, "(halt ");
                v.push_text(out);
                push_str(out, ")");
                assert(out@ =~= start + cps_text(*self));
            },
        }
        assert(out@ =~= start + cps_text(*self));
    }

    /// How this expression is written: the text of its kind.
    pub fn to_display_string(&self) -> (r: String)
        ensures
            r@ == cps_text(*self),
    {
        let mut out: Vec<char> = Vec::new();
        self.push_text(&mut out);
        assert(out@ =~= cps_text(*self));
        string_from_chars(&out)
    }
}

} // verus!
