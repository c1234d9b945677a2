//! Syntactic keywords as the values their names are bound to.
//!
//! A core form lives in the environment like any other value, so importing,
//! renaming and exporting carry it without knowing what it is, and the
//! desugarer dispatches on the form rather than on the name that reached it.
use vstd::prelude::*;
use crate::text::str_is;

verus! {

/// A syntactic keyword. The dispatching forms select a desugaring rule in
/// head position; the auxiliary ones mean something only inside an
/// enclosing form. `apply` is not one: it is an ordinary procedure binding.
#[derive(Debug, Clone, Copy, PartialEq, Eq, Hash, Structural)]
pub enum CoreForm {
    Quote,
    Quasiquote,
    Lambda,
    If,
    /// `set!`.
    SetBang,
    Define,
    DefineSyntax,
    LetSyntax,
    LetrecSyntax,
    Begin,
    Import,
    CondExpand,
    Include,
    IncludeCi,
    SyntaxError,
    Expand,
    Unquote,
    UnquoteSplicing,
    SyntaxRules,
    Underscore,
    Ellipsis,
    Else,
    Arrow,
}

/// The canonical spelling of each form.
pub open spec fn core_form_name(f: CoreForm) -> Seq<char> {
    match f {
        CoreForm::Quote => "quote"@,
        CoreForm::Quasiquote => "quasiquote"@,
        CoreForm::Lambda => "lambda"@,
        CoreForm::If => "if"@,
        CoreForm::SetBang => "set!"@,
        CoreForm::Define => "define"@,
        CoreForm::DefineSyntax => "define-syntax"@,
        CoreForm::LetSyntax => "let-syntax"@,
        CoreForm::LetrecSyntax => "letrec-syntax"@,
        CoreForm::Begin => "begin"@,
        CoreForm::Import => "import"@,
        CoreForm::CondExpand => "cond-expand"@,
        CoreForm::Include => "include"@,
        CoreForm::IncludeCi => "include-ci"@,
        CoreForm::SyntaxError => "syntax-error"@,
        CoreForm::Expand => "expand"@,
        CoreForm::Unquote => "unquote"@,
        CoreForm::UnquoteSplicing => "unquote-splicing"@,
        CoreForm::SyntaxRules => "syntax-rules"@,
        CoreForm::Underscore => "_"@,
        CoreForm::Ellipsis => "..."@,
        CoreForm::Else => "else"@,
        CoreForm::Arrow => "=>"@,
    }
}

/// Whether a form is auxiliary: meaningful only inside an enclosing form.
pub open spec fn is_auxiliary(f: CoreForm) -> bool {
    f is Unquote || f is UnquoteSplicing || f is SyntaxRules || f is Underscore || f is Ellipsis
        || f is Else || f is Arrow
}

/// Every core form, in declaration order.
pub open spec fn all_core_forms() -> Seq<CoreForm> {
    seq![
        CoreForm::Quote,
        CoreForm::Quasiquote,
        CoreForm::Lambda,
        CoreForm::If,
        CoreForm::SetBang,
        CoreForm::Define,
        CoreForm::DefineSyntax,
        CoreForm::LetSyntax,
        CoreForm::LetrecSyntax,
        CoreForm::Begin,
        CoreForm::Import,
        CoreForm::CondExpand,
        CoreForm::Include,
        CoreForm::IncludeCi,
        CoreForm::SyntaxError,
        CoreForm::Expand,
        CoreForm::Unquote,
        CoreForm::UnquoteSplicing,
        CoreForm::SyntaxRules,
        CoreForm::Underscore,
        CoreForm::Ellipsis,
        CoreForm::Else,
        CoreForm::Arrow,
    ]
}

/// Every core form, in declaration order: the one place that enumerates
/// them.
pub const ALL_CORE_FORMS: [CoreForm; 23] = [
    CoreForm::Quote,
    CoreForm::Quasiquote,
    CoreForm::Lambda,
    CoreForm::If,
    CoreForm::SetBang,
    CoreForm::Define,
    CoreForm::DefineSyntax,
    CoreForm::LetSyntax,
    CoreForm::LetrecSyntax,
    CoreForm::Begin,
    CoreForm::Import,
    CoreForm::CondExpand,
    CoreForm::Include,
    CoreForm::IncludeCi,
    CoreForm::SyntaxError,
    CoreForm::Expand,
    CoreForm::Unquote,
    CoreForm::UnquoteSplicing,
    CoreForm::SyntaxRules,
    CoreForm::Underscore,
    CoreForm::Ellipsis,
    CoreForm::Else,
    CoreForm::Arrow,
];

/// The list names every form.
pub proof fn lemma_all_core_forms_complete(f: CoreForm)
    ensures
        all_core_forms().contains(f),
{
    let all = all_core_forms();
    match f {
        CoreForm::Quote => assert(all[0] == f),
        CoreForm::Quasiquote => assert(all[1] == f),
        CoreForm::Lambda => assert(all[2] == f),
        CoreForm::If => assert(all[3] == f),
        CoreForm::SetBang => assert(all[4] == f),
        CoreForm::Define => assert(all[5] == f),
        CoreForm::DefineSyntax => assert(all[6] == f),
        CoreForm::LetSyntax => assert(all[7] == f),
        CoreForm::LetrecSyntax => assert(all[8] == f),
        CoreForm::Begin => assert(all[9] == f),
        CoreForm::Import => assert(all[10] == f),
        CoreForm::CondExpand => assert(all[11] == f),
        CoreForm::Include => assert(all[12] == f),
        CoreForm::IncludeCi => assert(all[13] == f),
        CoreForm::SyntaxError => assert(all[14] == f),
        CoreForm::Expand => assert(all[15] == f),
        CoreForm::Unquote => assert(all[16] == f),
        CoreForm::UnquoteSplicing => assert(all[17] == f),
        CoreForm::SyntaxRules => assert(all[18] == f),
        CoreForm::Underscore => assert(all[19] == f),
        CoreForm::Ellipsis => assert(all[20] == f),
        CoreForm::Else => assert(all[21] == f),
        CoreForm::Arrow => assert(all[22] == f),
    }
}

/// Every form has its own name: reading a form's name back with
/// `CoreForm::from_name` gives that form.
pub proof fn lemma_core_form_names_distinct(a: CoreForm, b: CoreForm)
    ensures
        core_form_name(a) == core_form_name(b) ==> a == b,
{
    reveal_strlit("quote");
    reveal_strlit("quasiquote");
    reveal_strlit("lambda");
    reveal_strlit("if");
    reveal_strlit("set!");
    reveal_strlit("define");
    reveal_strlit("define-syntax");
    reveal_strlit("let-syntax");
    reveal_strlit("letrec-syntax");
    reveal_strlit("begin");
    reveal_strlit("import");
    reveal_strlit("cond-expand");
    reveal_strlit("include");
    reveal_strlit("include-ci");
    reveal_strlit("syntax-error");
    reveal_strlit("expand");
    reveal_strlit("unquote");
    reveal_strlit("unquote-splicing");
    reveal_strlit("syntax-rules");
    reveal_strlit("_");
    reveal_strlit("...");
    reveal_strlit("else");
    reveal_strlit("=>");
    if core_form_name(a) == core_form_name(b) {
        let na = core_form_name(a);
        let nb = core_form_name(b);
        assert(na.len() == nb.len());
        assert(na.len() > 0 ==> na[0] == nb[0]);
        assert(na.len() > 1 ==> na[1] == nb[1]);
        assert(na.len() > 2 ==> na[2] == nb[2]);
        assert(na.len() > 3 ==> na[3] == nb[3]);
        assert(na.len() > 4 ==> na[4] == nb[4]);
        assert(na.len() > 5 ==> na[5] == nb[5]);
        assert(na.len() > 6 ==> na[6] == nb[6]);
        assert(na.len() > 7 ==> na[7] == nb[7]);
        assert(na.len() > 8 ==> na[8] == nb[8]);
        assert(na.len() > 9 ==> na[9] == nb[9]);
    }
}

impl CoreForm {
    /// The name this form is written with in source: its canonical
    /// spelling, whatever name it was reached by.
    pub fn name(self) -> (r: &'static str)
        ensures
            r@ == core_form_name(self),
    {
        match self {
            CoreForm::Quote => "quote",
            CoreForm::Quasiquote => "quasiquote",
            CoreForm::Lambda => "lambda",
            CoreForm::If => "if",
            CoreForm::SetBang => "set!",
            CoreForm::Define => "define",
            CoreForm::DefineSyntax => "define-syntax",
            CoreForm::LetSyntax => "let-syntax",
            CoreForm::LetrecSyntax => "letrec-syntax",
            CoreForm::Begin => "begin",
            CoreForm::Import => "import",
            CoreForm::CondExpand => "cond-expand",
            CoreForm::Include => "include",
            CoreForm::IncludeCi => "include-ci",
            CoreForm::SyntaxError => "syntax-error",
            CoreForm::Expand => "expand",
            CoreForm::Unquote => "unquote",
            CoreForm::UnquoteSplicing => "unquote-splicing",
            CoreForm::SyntaxRules => "syntax-rules",
            CoreForm::Underscore => "_",
            CoreForm::Ellipsis => "...",
            CoreForm::Else => "else",
            CoreForm::Arrow => "=>",
        }
    }

    /// The first form, in declaration order, written as `name`, if any.
    pub fn from_name(name: &str) -> (r: Option<CoreForm>)
        ensures
            match r {
                Some(f) => core_form_name(f) == name@,
                None => forall|f: CoreForm| core_form_name(f) != name@,
            },
    {
        let all = ALL_CORE_FORMS;
        assert(all@ == all_core_forms());
        let mut k: usize = 0;
        while k < 23
            invariant
                k <= 23,
                all@ == all_core_forms(),
                forall|j: int| 0 <= j < k ==> core_form_name(#[trigger] all@[j]) != name@,
            decreases 23 - k,
        {
            let f = all[k];
            if str_is(f.name(), name) {
                return Some(f);
            }
            k = k + 1;
        }
        proof {
            assert forall|f: CoreForm| core_form_name(f) != name@ by {
                lemma_all_core_forms_complete(f);
                let j = choose|j: int| 0 <= j < all@.len() && all@[j] == f;
                assert(core_form_name(all@[j]) != name@);
            }
        }
        None
    }

    /// Whether this form selects a desugaring rule in head position; false
    /// for the auxiliary keywords, which are an error there.
    pub fn is_dispatching(self) -> (r: bool)
        ensures
            r == !is_auxiliary(self),
    {
        !matches!(
            self,
            CoreForm::Unquote | CoreForm::UnquoteSplicing | CoreForm::SyntaxRules
                | CoreForm::Underscore | CoreForm::Ellipsis | CoreForm::Else | CoreForm::Arrow
        )
    }
}

} // verus!
