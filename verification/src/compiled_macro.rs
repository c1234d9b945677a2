//! Compiled `syntax-rules` macros: patterns, templates and hygienic
//! identifiers.
use vstd::prelude::*;
use crate::scope::ScopeSet;
use crate::tagged_value::TaggedValue;
use crate::text::{push_str, push_chars, push_decimal, push_signed_decimal, decimal, signed_decimal, string_from_chars, chars_of};

verus! {

/// A pattern variable reference: the ellipsis depth at which the variable
/// is bound and its index among the rule's variables.
#[derive(Debug, Clone, Copy, PartialEq, Eq, Hash, Structural)]
pub struct PVRef {
    pub level: u16,
    pub index: u16,
}

impl PVRef {
    /// The reference to variable `index` at ellipsis depth `level`.
    pub fn new(level: u16, index: u16) -> (r: PVRef)
        ensures
            r.level == level,
            r.index == index,
    {
        PVRef { level, index }
    }
}

/// How a pattern variable reference is written: `level.index`.
pub open spec fn pvref_text(r: PVRef) -> Seq<char> {
    decimal(r.level as nat) + "."@ + decimal(r.index as nat)
}

/// Append how a pattern variable reference is written.
fn push_pvref(out: &mut Vec<char>, r: PVRef)
    ensures
        final(out)@ == old(out)@ + pvref_text(r),
{
    push_decimal(out, r.level as u64);
    push_str(out, ".");
    push_decimal(out, r.index as u64);
    assert(out@ =~= old(out)@ + pvref_text(r));
}

/// References written in brackets, separated by commas.
pub open spec fn pvrefs_text(rs: Seq<PVRef>) -> Seq<char> {
    "["@ + pvref_items(rs) + "]"@
}

/// References separated by ", ".
pub open spec fn pvref_items(rs: Seq<PVRef>) -> Seq<char>
    decreases rs.len(),
{
    if rs.len() == 0 {
        Seq::empty()
    } else if rs.len() == 1 {
        pvref_text(rs[0])
    } else {
        pvref_items(rs.drop_last()) + ", "@ + pvref_text(rs.last())
    }
}

/// Append references in brackets, separated by commas.
fn push_pvrefs(out: &mut Vec<char>, rs: &Vec<PVRef>)
    ensures
        final(out)@ == old(out)@ + pvrefs_text(rs@),
{
    push_str(out, "[");
    let ghost head = out@;
    let mut k: usize = 0;
    while k < rs.len()
        invariant
            k <= rs@.len(),
            out@ == head + pvref_items(rs@.take(k as int)),
        decreases rs@.len() - k,
    {
        let ghost before = out@;
        if k > 0 {
            push_str(out, ", ");
        }
        push_pvref(out, rs[k]);
        proof {
            let next = rs@.take(k + 1);
            assert(next.drop_last() =~= rs@.take(k as int));
            assert(next.last() == rs@[k as int]);
            if k == 0 {
                assert(next[0] == rs@[0]);
            }
            assert(out@ =~= head + pvref_items(next));
        }
        k = k + 1;
    }
    push_str(out, "]");
    proof {
        assert(rs@.take(k as int) =~= rs@);
        assert(out@ =~= old(out)@ + pvrefs_text(rs@));
    }
}

/// How a literal value is written inside a pattern or template.
pub open spec fn literal_text(tv: TaggedValue) -> Seq<char> {
    match tv {
        TaggedValue::Null => "()"@,
        TaggedValue::Unspecified => "#<unspecified>"@,
        TaggedValue::Eof => "#<eof>"@,
        TaggedValue::Boolean(b) => if b {
            "#t"@
        } else {
            "#f"@
        },
        TaggedValue::Char(c) => "#\\"@ + seq![c],
        TaggedValue::Fixnum(n) => signed_decimal(n as int),
        TaggedValue::Pair(i) => "#<pair "@ + decimal(i as nat) + ">"@,
        TaggedValue::Vector(i) => "#<vector "@ + decimal(i as nat) + ">"@,
        TaggedValue::Str(i) => "#<string "@ + decimal(i as nat) + ">"@,
        TaggedValue::Object(i) => "#<object "@ + decimal(i as nat) + ">"@,
    }
}

/// Append how a literal value is written.
pub fn push_literal(out: &mut Vec<char>, tv: TaggedValue)
    ensures
        final(out)@ == old(out)@ + literal_text(tv),
{
    match tv {
        TaggedValue::Null => push_str(out, "()"),
        TaggedValue::Unspecified => push_str(out, "#<unspecified>"),
        TaggedValue::Eof => push_str(out, "#<eof>"),
        TaggedValue::Boolean(b) => if b {
            push_str(out, "#t")
        } else {
            push_str(out, "#f")
        },
        TaggedValue::Char(c) => {
            push_str(out, "#\\");
            out.push(c);
        },
        TaggedValue::Fixnum(n) => push_signed_decimal(out, n),
        TaggedValue::Pair(i) => {
            push_str(out, "#<pair ");
            push_decimal(out, i as u64);
            push_str(out, ">");
        },
        TaggedValue::Vector(i) => {
            push_str(out, "#<vector ");
            push_decimal(out, i as u64);
            push_str(out, ">");
        },
        TaggedValue::Str(i) => {
            push_str(out, "#<string ");
            push_decimal(out, i as u64);
            push_str(out, ">");
        },
        TaggedValue::Object(i) => {
            push_str(out, "#<object ");
            push_decimal(out, i as u64);
            push_str(out, ">");
        },
    }
    assert(out@ =~= old(out)@ + literal_text(tv));
}

/// A literal identifier of a macro, with the scopes of its binding when the
/// macro was defined (`None`: it was free then). A literal matches an input
/// identifier when both have the same binding, or both are free with the
/// same name.
#[derive(Debug, Clone)]
pub struct LiteralBinding {
    pub name: String,
    pub binding_scopes: Option<ScopeSet>,
}

/// A compiled pattern.
#[derive(Debug)]
pub enum Pattern {
    /// `_`: matches anything, binds nothing.
    Wildcard,
    /// A value that must match exactly.
    Literal(TaggedValue),
    /// A pattern variable.
    Var(PVRef),
    /// `(p1 p2 p3)`.
    List(Vec<Pattern>),
    /// `#(p1 p2 p3)`.
    Vector(Vec<Pattern>),
    /// `(p1 p2 . rest)`.
    DottedList { patterns: Vec<Pattern>, tail: Box<Pattern> },
    /// `(p ... q)`: zero or more repetitions of `subpattern`, with
    /// `num_following` items after it and the variables it binds.
    Ellipsis { subpattern: Box<Pattern>, level: u8, num_following: usize, vars: Vec<PVRef> },
}

/// A compiled template.
#[derive(Debug)]
pub enum Template {
    /// A value inserted as it is.
    Literal(TaggedValue),
    /// A symbol inserted hygienically.
    Symbol(Identifier),
    /// A pattern variable reference.
    Var(PVRef),
    /// `(t1 t2 t3)`.
    List(Vec<Template>),
    /// `#(t1 t2 t3)`.
    Vector(Vec<Template>),
    /// `(t1 t2 . rest)`.
    DottedList { templates: Vec<Template>, tail: Box<Template> },
    /// `(t ... u)`: `subtemplate` repeated for each bound value; `nesting` is
    /// the number of consecutive ellipses.
    Ellipsis { subtemplate: Box<Template>, level: u8, nesting: u8, vars: Vec<PVRef> },
}

/// An identifier with hygiene information: the scopes it had where the
/// macro was defined when it was free there, none when the template
/// introduced it.
#[derive(Debug, Clone)]
pub struct Identifier {
    name: String,
    definition_scopes: Option<ScopeSet>,
}

impl Identifier {
    /// The identifier's name.
    pub closed spec fn spec_name(&self) -> Seq<char> {
        self.name@
    }

    /// Its scopes at definition, if it was free there.
    pub closed spec fn spec_scopes(&self) -> Option<ScopeSet> {
        self.definition_scopes
    }

    /// An identifier the template introduced.
    pub fn new(name: &str) -> (r: Identifier)
        ensures
            r.spec_name() == name@,
            r.spec_scopes() is None,
    {
        Identifier { name: string_from_chars(&chars_of(name)), definition_scopes: None }
    }

    /// A free identifier with its scopes at definition.
    pub fn with_scopes(name: &str, scopes: ScopeSet) -> (r: Identifier)
        ensures
            r.spec_name() == name@,
            r.spec_scopes() == Some(scopes),
    {
        Identifier { name: string_from_chars(&chars_of(name)), definition_scopes: Some(scopes) }
    }

    /// The identifier's name.
    pub fn name(&self) -> (r: &String)
        ensures
            r@ == self.spec_name(),
    {
        &self.name
    }

    /// Whether it was free where the macro was defined.
    pub fn is_free_variable(&self) -> (r: bool)
        ensures
            r == (self.spec_scopes() is Some),
    {
        self.definition_scopes.is_some()
    }

    /// Its scopes at definition, if it was free there.
    pub fn definition_scopes(&self) -> (r: Option<&ScopeSet>)
        ensures
            match r {
                Some(s) => self.spec_scopes() == Some(*s),
                None => self.spec_scopes() is None,
            },
    {
        match &self.definition_scopes {
            Some(s) => Some(s),
            None => None,
        }
    }
}

/// The values a pattern embeds, in order.
pub open spec fn pattern_literals(p: Pattern) -> Seq<TaggedValue>
    decreases p,
{
    match p {
        Pattern::Literal(tv) => seq![tv],
        Pattern::List(ps) => patterns_literals(ps@),
        Pattern::Vector(ps) => patterns_literals(ps@),
        Pattern::DottedList { patterns, tail } => patterns_literals(patterns@) + pattern_literals(
            *tail,
        ),
        Pattern::Ellipsis { subpattern, .. } => pattern_literals(*subpattern),
        _ => Seq::empty(),
    }
}

/// The values a sequence of patterns embeds, in order.
pub open spec fn patterns_literals(ps: Seq<Pattern>) -> Seq<TaggedValue>
    decreases ps,
{
    if ps.len() == 0 {
        Seq::empty()
    } else {
        patterns_literals(ps.subrange(0, ps.len() - 1)) + pattern_literals(ps[ps.len() - 1])
    }
}

/// How a pattern is written.
pub open spec fn pattern_text(p: Pattern) -> Seq<char>
    decreases p,
{
    match p {
        Pattern::Wildcard => "_"@,
        Pattern::Literal(tv) => "<literal "@ + literal_text(tv) + ">"@,
        Pattern::Var(r) => "?"@ + pvref_text(r),
        Pattern::List(ps) => "("@ + patterns_text(ps@) + ")"@,
        Pattern::Vector(ps) => "#("@ + patterns_text(ps@) + ")"@,
        Pattern::DottedList { patterns, tail } => "("@ + patterns_text(patterns@) + " . "@
            + pattern_text(*tail) + ")"@,
        Pattern::Ellipsis { subpattern, level, num_following, vars } => "(... "@ + pattern_text(
            *subpattern,
        ) + " @level="@ + decimal(level as nat) + " following="@ + decimal(num_following as nat)
            + " vars="@ + pvrefs_text(vars@) + ")"@,
    }
}

/// Patterns written one after another, separated by spaces.
pub open spec fn patterns_text(ps: Seq<Pattern>) -> Seq<char>
    decreases ps,
{
    if ps.len() == 0 {
        Seq::empty()
    } else if ps.len() == 1 {
        pattern_text(ps[0])
    } else {
        patterns_text(ps.subrange(0, ps.len() - 1)) + " "@ + pattern_text(ps[ps.len() - 1])
    }
}

/// Append the values `ps` embed.
fn push_patterns_literals(ps: &Vec<Pattern>, out: &mut Vec<TaggedValue>)
    ensures
        final(out)@ == old(out)@ + patterns_literals(ps@),
    decreases ps@,
{
    let ghost start = out@;
    let mut k: usize = 0;
    assert(ps@.subrange(0, 0) =~= Seq::<Pattern>::empty());
    while k < ps.len()
        invariant
            k <= ps@.len(),
            out@ == start + patterns_literals(ps@.subrange(0, k as int)),
        decreases ps@.len() - k,
    {
        ps[k].for_each_literal(out);
        proof {
            let next = ps@.subrange(0, k + 1);
            assert(next.subrange(0, next.len() - 1) =~= ps@.subrange(0, k as int));
            assert(next[next.len() - 1] == ps@[k as int]);
            assert(out@ =~= start + patterns_literals(next));
        }
        k = k + 1;
    }
    assert(ps@.subrange(0, k as int) =~= ps@);
}

/// Append patterns separated by spaces.
fn push_patterns_text(ps: &Vec<Pattern>, out: &mut Vec<char>)
    ensures
        final(out)@ == old(out)@ + patterns_text(ps@),
    decreases ps@,
{
    let ghost start = out@;
    let mut k: usize = 0;
    assert(ps@.subrange(0, 0) =~= Seq::<Pattern>::empty());
    while k < ps.len()
        invariant
            k <= ps@.len(),
            out@ == start + patterns_text(ps@.subrange(0, k as int)),
        decreases ps@.len() - k,
    {
        let ghost before = out@;
        if k > 0 {
            push_str(out, " ");
        }
        ps[k].push_text(out);
        proof {
            let next = ps@.subrange(0, k + 1);
            assert(next.subrange(0, next.len() - 1) =~= ps@.subrange(0, k as int));
            assert(next[next.len() - 1] == ps@[k as int]);
            if k == 0 {
                assert(next[0] == ps@[0]);
            }
            assert(out@ =~= start + patterns_text(next));
        }
        k = k + 1;
    }
    assert(ps@.subrange(0, k as int) =~= ps@);
}

impl Pattern {
    /// Whether this is `_`.
    pub fn is_wildcard(&self) -> (r: bool)
        ensures
            r == (*self is Wildcard),
    {
        matches!(self, Pattern::Wildcard)
    }

    /// Whether this is a literal.
    pub fn is_literal(&self) -> (r: bool)
        ensures
            r == (*self is Literal),
    {
        matches!(self, Pattern::Literal(_))
    }

    /// Whether this is a pattern variable.
    pub fn is_var(&self) -> (r: bool)
        ensures
            r == (*self is Var),
    {
        matches!(self, Pattern::Var(_))
    }

    /// Whether this is an ellipsis pattern.
    pub fn is_ellipsis(&self) -> (r: bool)
        ensures
            r == (*self is Ellipsis),
    {
        matches!(self, Pattern::Ellipsis { .. })
    }

    /// The variable reference, if this is a pattern variable.
    pub fn as_var(&self) -> (r: Option<PVRef>)
        ensures
            match *self {
                Pattern::Var(p) => r == Some(p),
                _ => r is None,
            },
    {
        match self {
            Pattern::Var(pvref) => Some(*pvref),
            _ => None,
        }
    }

    /// Visit every value this pattern embeds, in order, handing each to the
    /// collector `out` (the hook a collection traces through).
    pub fn for_each_literal(&self, out: &mut Vec<TaggedValue>)
        ensures
            final(out)@ == old(out)@ + pattern_literals(*self),
        decreases *self,
    {
        match self {
            Pattern::Literal(tv) => {
                out.push(*tv);
            },
            Pattern::List(ps) => push_patterns_literals(ps, out),
            Pattern::Vector(ps) => push_patterns_literals(ps, out),
            Pattern::DottedList { patterns, tail } => {
                push_patterns_literals(patterns, out);
                tail.for_each_literal(out);
            },
            Pattern::Ellipsis { subpattern, .. } => subpattern.for_each_literal(out),
            _ => {},
        }
        assert(out@ =~= old(out)@ + pattern_literals(*self));
    }

    /// The values this pattern embeds, in order: what a collection must
    /// keep alive while the macro is live.
    pub fn literals(&self) -> (r: Vec<TaggedValue>)
        ensures
            r@ == pattern_literals(*self),
    {
        let mut out: Vec<TaggedValue> = Vec::new();
        self.for_each_literal(&mut out);
        assert(out@ =~= pattern_literals(*self));
        out
    }

    /// Append how this pattern is written.
    fn push_text(&self, out: &mut Vec<char>)
        ensures
            final(out)@ == old(out)@ + pattern_text(*self),
        decreases *self,
    {
        match self {
            Pattern::Wildcard => push_str(out, "_"),
            Pattern::Literal(tv) => {
                push_str(out, "<literal ");
                push_literal(out, *tv);
                push_str(out, ">");
            },
            Pattern::Var(r) => {
                push_str(out, "?");
                push_pvref(out, *r);
            },
            Pattern::List(ps) => {
                push_str(out, "(");
                push_patterns_text(ps, out);
                push_str(out, ")");
            },
            Pattern::Vector(ps) => {
                push_str(out, "#(");
                push_patterns_text(ps, out);
                push_str(out, ")");
            },
            Pattern::DottedList { patterns, tail } => {
                push_str(out, "(");
                push_patterns_text(patterns, out);
                push_str(out, " . ");
                tail.push_text(out);
                push_str(out, ")");
            },
            Pattern::Ellipsis { subpattern, level, num_following, vars } => {
                push_str(out, "(... ");
                subpattern.push_text(out);
                push_str(out, " @level=");
                push_decimal(out, *level as u64);
                push_str(out, " following=");
                push_decimal(out, *num_following as u64);
                push_str(out, " vars=");
                push_pvrefs(out, vars);
                push_str(out, ")");
            },
        }
        assert(out@ =~= old(out)@ + pattern_text(*self));
    }

    /// How this pattern is written.
    pub fn to_display_string(&self) -> (r: String)
        ensures
            r@ == pattern_text(*self),
    {
        let mut out: Vec<char> = Vec::new();
        self.push_text(&mut out);
        assert(out@ =~= pattern_text(*self));
        string_from_chars(&out)
    }
}

/// The values a template embeds, in order.
pub open spec fn template_literals(t: Template) -> Seq<TaggedValue>
    decreases t,
{
    match t {
        Template::Literal(tv) => seq![tv],
        Template::List(ts) => templates_literals(ts@),
        Template::Vector(ts) => templates_literals(ts@),
        Template::DottedList { templates, tail } => templates_literals(templates@)
            + template_literals(*tail),
        Template::Ellipsis { subtemplate, .. } => template_literals(*subtemplate),
        _ => Seq::empty(),
    }
}

/// The values a sequence of templates embeds, in order.
pub open spec fn templates_literals(ts: Seq<Template>) -> Seq<TaggedValue>
    decreases ts,
{
    if ts.len() == 0 {
        Seq::empty()
    } else {
        templates_literals(ts.subrange(0, ts.len() - 1)) + template_literals(ts[ts.len() - 1])
    }
}

/// `s` repeated `n` times.
pub open spec fn repeated(s: Seq<char>, n: nat) -> Seq<char>
    decreases n,
{
    if n == 0 {
        Seq::empty()
    } else {
        repeated(s, (n - 1) as nat) + s
    }
}

/// Every ellipsis of the template counts at least one ellipsis.
pub open spec fn template_nesting_ok(t: Template) -> bool
    decreases t,
{
    match t {
        Template::List(ts) => templates_nesting_ok(ts@),
        Template::Vector(ts) => templates_nesting_ok(ts@),
        Template::DottedList { templates, tail } => templates_nesting_ok(templates@)
            && template_nesting_ok(*tail),
        Template::Ellipsis { subtemplate, nesting, .. } => nesting >= 1 && template_nesting_ok(
            *subtemplate,
        ),
        _ => true,
    }
}

/// Every ellipsis of the templates counts at least one ellipsis.
pub open spec fn templates_nesting_ok(ts: Seq<Template>) -> bool
    decreases ts,
{
    if ts.len() == 0 {
        true
    } else {
        templates_nesting_ok(ts.subrange(0, ts.len() - 1)) && template_nesting_ok(ts[ts.len() - 1])
    }
}

/// How a template is written.
pub open spec fn template_text(t: Template) -> Seq<char>
    decreases t,
{
    match t {
        Template::Literal(tv) => "<literal "@ + literal_text(tv) + ">"@,
        Template::Symbol(id) => id.spec_name(),
        Template::Var(r) => "$"@ + pvref_text(r),
        Template::List(ts) => "("@ + templates_text(ts@) + ")"@,
        Template::Vector(ts) => "#("@ + templates_text(ts@) + ")"@,
        Template::DottedList { templates, tail } => "("@ + templates_text(templates@) + " . "@
            + template_text(*tail) + ")"@,
        Template::Ellipsis { subtemplate, level, nesting, vars } => "(..."@ + repeated(
            " ..."@,
            (nesting - 1) as nat,
        ) + " "@ + template_text(*subtemplate) + " @level="@ + decimal(level as nat)
            + " nesting="@ + decimal(nesting as nat) + " vars="@ + pvrefs_text(vars@) + ")"@,
    }
}

/// Templates written one after another, separated by spaces.
pub open spec fn templates_text(ts: Seq<Template>) -> Seq<char>
    decreases ts,
{
    if ts.len() == 0 {
        Seq::empty()
    } else if ts.len() == 1 {
        template_text(ts[0])
    } else {
        templates_text(ts.subrange(0, ts.len() - 1)) + " "@ + template_text(ts[ts.len() - 1])
    }
}

/// Append the values `ts` embed.
fn push_templates_literals(ts: &Vec<Template>, out: &mut Vec<TaggedValue>)
    ensures
        final(out)@ == old(out)@ + templates_literals(ts@),
    decreases ts@,
{
    let ghost start = out@;
    let mut k: usize = 0;
    assert(ts@.subrange(0, 0) =~= Seq::<Template>::empty());
    while k < ts.len()
        invariant
            k <= ts@.len(),
            out@ == start + templates_literals(ts@.subrange(0, k as int)),
        decreases ts@.len() - k,
    {
        ts[k].for_each_literal(out);
        proof {
            let next = ts@.subrange(0, k + 1);
            assert(next.subrange(0, next.len() - 1) =~= ts@.subrange(0, k as int));
            assert(next[next.len() - 1] == ts@[k as int]);
            assert(out@ =~= start + templates_literals(next));
        }
        k = k + 1;
    }
    assert(ts@.subrange(0, k as int) =~= ts@);
}

/// Append templates separated by spaces.
fn push_templates_text(ts: &Vec<Template>, out: &mut Vec<char>)
    requires
        templates_nesting_ok(ts@),
    ensures
        final(out)@ == old(out)@ + templates_text(ts@),
    decreases ts@,
{
    let ghost start = out@;
    let mut k: usize = 0;
    assert(ts@.subrange(0, 0) =~= Seq::<Template>::empty());
    proof {
        lemma_templates_nesting_each(ts@);
    }
    while k < ts.len()
        invariant
            k <= ts@.len(),
            templates_nesting_ok(ts@),
            forall|j: int| 0 <= j < ts@.len() ==> template_nesting_ok(#[trigger] ts@[j]),
            out@ == start + templates_text(ts@.subrange(0, k as int)),
        decreases ts@.len() - k,
    {
        if k > 0 {
            push_str(out, " ");
        }
        ts[k].push_text(out);
        proof {
            let next = ts@.subrange(0, k + 1);
            assert(next.subrange(0, next.len() - 1) =~= ts@.subrange(0, k as int));
            assert(next[next.len() - 1] == ts@[k as int]);
            if k == 0 {
                assert(next[0] == ts@[0]);
            }
            assert(out@ =~= start + templates_text(next));
        }
        k = k + 1;
    }
    assert(ts@.subrange(0, k as int) =~= ts@);
}

/// A sequence whose ellipses are all counted has each element so.
proof fn lemma_templates_nesting_each(ts: Seq<Template>)
    requires
        templates_nesting_ok(ts),
    ensures
        forall|j: int| 0 <= j < ts.len() ==> template_nesting_ok(#[trigger] ts[j]),
    decreases ts.len(),
{
    if ts.len() > 0 {
        let init = ts.subrange(0, ts.len() - 1);
        lemma_templates_nesting_each(init);
        assert forall|j: int| 0 <= j < ts.len() implies template_nesting_ok(#[trigger] ts[j]) by {
            if j < ts.len() - 1 {
                assert(ts[j] == init[j]);
            }
        }
    }
}

impl Template {
    /// Whether this is a literal.
    pub fn is_literal(&self) -> (r: bool)
        ensures
            r == (*self is Literal),
    {
        matches!(self, Template::Literal(_))
    }

    /// Whether this is a symbol.
    pub fn is_symbol(&self) -> (r: bool)
        ensures
            r == (*self is Symbol),
    {
        matches!(self, Template::Symbol(_))
    }

    /// Whether this is a pattern variable reference.
    pub fn is_var(&self) -> (r: bool)
        ensures
            r == (*self is Var),
    {
        matches!(self, Template::Var(_))
    }

    /// Whether this is an ellipsis template.
    pub fn is_ellipsis(&self) -> (r: bool)
        ensures
            r == (*self is Ellipsis),
    {
        matches!(self, Template::Ellipsis { .. })
    }

    /// The variable reference, if this is one.
    pub fn as_var(&self) -> (r: Option<PVRef>)
        ensures
            match *self {
                Template::Var(p) => r == Some(p),
                _ => r is None,
            },
    {
        match self {
            Template::Var(pvref) => Some(*pvref),
            _ => None,
        }
    }

    /// Visit every value this template embeds, in order, handing each to the
    /// collector `out` (the hook a collection traces through).
    pub fn for_each_literal(&self, out: &mut Vec<TaggedValue>)
        ensures
            final(out)@ == old(out)@ + template_literals(*self),
        decreases *self,
    {
        match self {
            Template::Literal(tv) => {
                out.push(*tv);
            },
            Template::List(ts) => push_templates_literals(ts, out),
            Template::Vector(ts) => push_templates_literals(ts, out),
            Template::DottedList { templates, tail } => {
                push_templates_literals(templates, out);
                tail.for_each_literal(out);
            },
            Template::Ellipsis { subtemplate, .. } => subtemplate.for_each_literal(out),
            _ => {},
        }
        assert(out@ =~= old(out)@ + template_literals(*self));
    }

    /// The values this template embeds, in order: what a collection must
    /// keep alive while the macro is live.
    pub fn literals(&self) -> (r: Vec<TaggedValue>)
        ensures
            r@ == template_literals(*self),
    {
        let mut out: Vec<TaggedValue> = Vec::new();
        self.for_each_literal(&mut out);
        assert(out@ =~= template_literals(*self));
        out
    }

    /// Append how this template is written.
    fn push_text(&self, out: &mut Vec<char>)
        requires
            template_nesting_ok(*self),
        ensures
            final(out)@ == old(out)@ + template_text(*self),
        decreases *self,
    {
        match self {
            Template::Literal(tv) => {
                push_str(out, "<literal ");
                push_literal(out, *tv);
                push_str(out, ">");
            },
            Template::Symbol(id) => push_str(out, id.name.as_str()),
            Template::Var(r) => {
                push_str(out, "$");
                push_pvref(out, *r);
            },
            Template::List(ts) => {
                push_str(out, "(");
                push_templates_text(ts, out);
                push_str(out, ")");
            },
            Template::Vector(ts) => {
                push_str(out, "#(");
                push_templates_text(ts, out);
                push_str(out, ")");
            },
            Template::DottedList { templates, tail } => {
                push_str(out, "(");
                push_templates_text(templates, out);
                push_str(out, " . ");
                tail.push_text(out);
                push_str(out, ")");
            },
            Template::Ellipsis { subtemplate, level, nesting, vars } => {
                push_str(out, "(...");
                let ghost before = out@;
                let mut k: u8 = 1;
                while k < *nesting
                    invariant
                        1 <= k <= *nesting,
                        out@ == before + repeated(" ..."@, (k - 1) as nat),
                    decreases *nesting - k,
                {
                    push_str(out, " ...");
                    k = k + 1;
                }
                push_str(out, " ");
                subtemplate.push_text(out);
                push_str(out, " @level=");
                push_decimal(out, *level as u64);
                push_str(out, " nesting=");
                push_decimal(out, *nesting as u64);
                push_str(out, " vars=");
                push_pvrefs(out, vars);
                push_str(out, ")");
            },
        }
        assert(out@ =~= old(out)@ + template_text(*self));
    }

    /// How this template is written.
    pub fn to_display_string(&self) -> (r: String)
        requires
            template_nesting_ok(*self),
        ensures
            r@ == template_text(*self),
    {
        let mut out: Vec<char> = Vec::new();
        self.push_text(&mut out);
        assert(out@ =~= template_text(*self));
        string_from_chars(&out)
    }
}

/// One rule of a macro: its pattern and template, how many pattern
/// variables it has, its deepest ellipsis nesting, and the name of each
/// variable.
#[derive(Debug)]
pub struct CompiledRule {
    pub pattern: Pattern,
    pub template: Template,
    pub num_pvars: usize,
    pub max_level: usize,
    pub pvar_names: Vec<(PVRef, String)>,
}

impl CompiledRule {
    /// The values the rule's pattern and template embed, pattern first.
    pub fn literals(&self) -> (r: Vec<TaggedValue>)
        ensures
            r@ == pattern_literals(self.pattern) + template_literals(self.template),
    {
        let mut out: Vec<TaggedValue> = Vec::new();
        self.pattern.for_each_literal(&mut out);
        self.template.for_each_literal(&mut out);
        assert(out@ =~= pattern_literals(self.pattern) + template_literals(self.template));
        out
    }
}

} // verus!
