//! The opt-out list: packages whose failure does not measure the
//! interpreter.
//!
//! An excluded package still runs: exclusion decides whether a result
//! counts, never whether it is measured. Every entry names the status it
//! expects, so an entry that stops matching is reported as drift, and the
//! report prints the raw number beside the scoped one.
use vstd::prelude::*;
use crate::heap::Heap;
use crate::tagged_value::TaggedValue;
use crate::text::{chars_of, push_str, str_is, string_from_chars};
use crate::scan::{trim, trim_ws};
use crate::compat::run::{status_key_list, status_keys};
use crate::compat::sexp::{
    clause_string,
    clause_symbol,
    document_rows,
    first_string,
    first_symbol,
    form_rest,
    list_elements,
    not_a_file_text,
    row_rest,
    rows_of,
};

verus! {

/// Why a package does not count.
#[derive(Debug, Clone, Copy, PartialEq, Eq, PartialOrd, Ord, Structural)]
pub enum Reason {
    /// Needs a foreign-function interface.
    Ffi,
    /// Depends on a package the corpus does not vendor.
    DependencyNotVendored,
    /// The package's own source is invalid Scheme.
    UpstreamSourceDefect,
    /// The library is fine; its test program is not portable.
    UpstreamTestDefect,
}

/// The key each reason is written as.
pub open spec fn reason_key(r: Reason) -> Seq<char> {
    match r {
        Reason::Ffi => "ffi"@,
        Reason::DependencyNotVendored => "dependency-not-vendored"@,
        Reason::UpstreamSourceDefect => "upstream-source-defect"@,
        Reason::UpstreamTestDefect => "upstream-test-defect"@,
    }
}

/// The report heading of each reason.
pub open spec fn reason_heading(r: Reason) -> Seq<char> {
    match r {
        Reason::Ffi => "Needs a foreign-function interface"@,
        Reason::DependencyNotVendored => "Dependency not vendored (corpus licence policy)"@,
        Reason::UpstreamSourceDefect => "Upstream source defect"@,
        Reason::UpstreamTestDefect => "Upstream test defect"@,
    }
}

/// Every reason, in declaration order.
pub open spec fn all_reasons() -> Seq<Reason> {
    seq![
        Reason::Ffi,
        Reason::DependencyNotVendored,
        Reason::UpstreamSourceDefect,
        Reason::UpstreamTestDefect,
    ]
}

impl Reason {
    /// Every reason, in declaration order: the order of the report's
    /// headings.
    pub const ALL: [Reason; 4] = [
        Reason::Ffi,
        Reason::DependencyNotVendored,
        Reason::UpstreamSourceDefect,
        Reason::UpstreamTestDefect,
    ];

    /// The key this reason is written as.
    pub fn key(&self) -> (r: &'static str)
        ensures
            r@ == reason_key(*self),
    {
        match self {
            Reason::Ffi => "ffi",
            Reason::DependencyNotVendored => "dependency-not-vendored",
            Reason::UpstreamSourceDefect => "upstream-source-defect",
            Reason::UpstreamTestDefect => "upstream-test-defect",
        }
    }

    /// The reason written as `key`, if any.
    pub fn from_key(key: &str) -> (r: Option<Reason>)
        ensures
            match r {
                Some(reason) => reason_key(reason) == key@,
                None => forall|reason: Reason| reason_key(reason) != key@,
            },
            r == reason_for_key(key@),
    {
        if str_is(key, "ffi") {
            Some(Reason::Ffi)
        } else if str_is(key, "dependency-not-vendored") {
            Some(Reason::DependencyNotVendored)
        } else if str_is(key, "upstream-source-defect") {
            Some(Reason::UpstreamSourceDefect)
        } else if str_is(key, "upstream-test-defect") {
            Some(Reason::UpstreamTestDefect)
        } else {
            None
        }
    }

    /// The heading this reason gets in the report.
    pub fn heading(&self) -> (r: &'static str)
        ensures
            r@ == reason_heading(*self),
    {
        match self {
            Reason::Ffi => "Needs a foreign-function interface",
            Reason::DependencyNotVendored => "Dependency not vendored (corpus licence policy)",
            Reason::UpstreamSourceDefect => "Upstream source defect",
            Reason::UpstreamTestDefect => "Upstream test defect",
        }
    }
}

/// Reading a reason's key back gives the reason.
pub proof fn lemma_reason_key_round_trip(r: Reason, s: Reason)
    ensures
        reason_key(r) == reason_key(s) ==> r == s,
{
    reveal_strlit("ffi");
    reveal_strlit("dependency-not-vendored");
    reveal_strlit("upstream-source-defect");
    reveal_strlit("upstream-test-defect");
    assert("ffi"@.len() == 3);
    assert("dependency-not-vendored"@.len() == 23);
    assert("upstream-source-defect"@.len() == 22);
    assert("upstream-test-defect"@.len() == 20);
    if reason_key(r) == reason_key(s) {
        assert(reason_key(r).len() == reason_key(s).len());
    }
}

/// One entry of the opt-out list.
#[derive(Debug, Clone)]
pub struct Exclusion {
    pub slug: String,
    pub reason: Reason,
    /// The status bucket the entry was written against.
    pub expect: String,
    /// What is actually wrong, in one line.
    pub note: String,
}

/// The reason written as `k`, if any.
pub open spec fn reason_for_key(k: Seq<char>) -> Option<Reason> {
    if k == "ffi"@ {
        Some(Reason::Ffi)
    } else if k == "dependency-not-vendored"@ {
        Some(Reason::DependencyNotVendored)
    } else if k == "upstream-source-defect"@ {
        Some(Reason::UpstreamSourceDefect)
    } else if k == "upstream-test-defect"@ {
        Some(Reason::UpstreamTestDefect)
    } else {
        None
    }
}

/// An entry as read: slug, reason, expected status, note.
pub type ExclusionView = (Seq<char>, Reason, Seq<char>, Seq<char>);

/// How an entry reads.
pub open spec fn exclusion_view(e: Exclusion) -> ExclusionView {
    (e.slug@, e.reason, e.expect@, e.note@)
}

/// What one row of the list reads as: the entry, or the message naming
/// what is wrong with it, checked in the order slug, reason, expected
/// status, note.
pub open spec fn exclusion_row(h: &Heap, row: TaggedValue) -> Result<ExclusionView, Seq<char>> {
    if !h.is_proper_list(row) {
        Err("malformed exclusion row"@)
    } else {
        let fields = h.list_items(row);
        match first_string(h, row_rest(h, fields, "slug"@)) {
            None => Err("exclusion row without slug"@),
            Some(slug) => match first_symbol(h, row_rest(h, fields, "reason"@)) {
                None => Err(slug + ": no reason"@),
                Some(rk) => match reason_for_key(rk) {
                    None => Err(slug + ": unknown reason `"@ + rk + "`"@),
                    Some(reason) => match first_symbol(h, row_rest(h, fields, "expect"@)) {
                        None => Err(slug + ": no expect"@),
                        Some(expect) => if !status_keys().contains(expect) {
                            Err(slug + ": unknown expected status `"@ + expect + "`"@)
                        } else {
                            match first_string(h, row_rest(h, fields, "note"@)) {
                                None => Err(slug + ": no note"@),
                                Some(note) => if trim_ws(note).len() == 0 {
                                    Err(slug + ": empty note"@)
                                } else {
                                    Ok((slug, reason, expect, note))
                                },
                            }
                        },
                    },
                },
            },
        }
    }
}

/// `a`, then `b`, as a `String`.
fn joined(a: &str, b: &str) -> (r: String)
    ensures
        r@ == a@ + b@,
{
    let mut v: Vec<char> = Vec::new();
    push_str(&mut v, a);
    push_str(&mut v, b);
    assert(v@ =~= a@ + b@);
    string_from_chars(&v)
}

/// `a`, then `b`, then `c`, as a `String`.
fn joined3(a: &str, b: &str, c: &str) -> (r: String)
    ensures
        r@ == a@ + b@ + c@,
{
    let mut v: Vec<char> = Vec::new();
    push_str(&mut v, a);
    push_str(&mut v, b);
    push_str(&mut v, c);
    assert(v@ =~= a@ + b@ + c@);
    string_from_chars(&v)
}

/// Whether `key` is the key of a status.
fn is_status_key(key: &str) -> (r: bool)
    ensures
        r == status_keys().contains(key@),
{
    let keys = status_key_list();
    let mut k: usize = 0;
    while k < keys.len()
        invariant
            keys@.map_values(|s: &'static str| s@) == status_keys(),
            k <= keys@.len(),
            forall|j: int| 0 <= j < k ==> status_keys()[j] != key@,
        decreases keys@.len() - k,
    {
        proof {
            assert(status_keys()[k as int] == keys@[k as int]@);
        }
        if str_is(keys[k], key) {
            proof {
                assert(status_keys()[k as int] == key@);
            }
            return true;
        }
        k = k + 1;
    }
    proof {
        if status_keys().contains(key@) {
            let j = choose|j: int| 0 <= j < status_keys().len() && status_keys()[j] == key@;
            assert(status_keys()[j] != key@);
        }
    }
    false
}

/// Read one row of the list.
pub fn parse_row(row: TaggedValue, heap: &Heap) -> (r: Result<Exclusion, String>)
    requires
        heap.wf(),
        heap.valid_value(row),
    ensures
        match r {
            Ok(e) => exclusion_row(heap, row) == Ok::<ExclusionView, Seq<char>>(exclusion_view(e)),
            Err(m) => exclusion_row(heap, row) == Err::<ExclusionView, Seq<char>>(m@),
        },
{
    let fields = match list_elements(row, heap) {
        Some(f) => f,
        None => return Err(string_from_chars(&chars_of("malformed exclusion row"))),
    };
    let slug = match clause_string(fields.as_slice(), "slug", heap) {
        Some(s) => s,
        None => return Err(string_from_chars(&chars_of("exclusion row without slug"))),
    };
    let reason_key = match clause_symbol(fields.as_slice(), "reason", heap) {
        Some(s) => s,
        None => return Err(joined(slug.as_str(), ": no reason")),
    };
    let reason = match Reason::from_key(reason_key.as_str()) {
        Some(r) => r,
        None => return Err(
            joined(
                joined3(slug.as_str(), ": unknown reason `", reason_key.as_str()).as_str(),
                "`",
            ),
        ),
    };
    let expect = match clause_symbol(fields.as_slice(), "expect", heap) {
        Some(s) => s,
        None => return Err(joined(slug.as_str(), ": no expect")),
    };
    if !is_status_key(expect.as_str()) {
        return Err(
            joined(
                joined3(slug.as_str(), ": unknown expected status `", expect.as_str()).as_str(),
                "`",
            ),
        );
    }
    let note = match clause_string(fields.as_slice(), "note", heap) {
        Some(s) => s,
        None => return Err(joined(slug.as_str(), ": no note")),
    };
    if trim(chars_of(note.as_str()).as_slice()).len() == 0 {
        return Err(joined(slug.as_str(), ": empty note"));
    }
    Ok(Exclusion { slug, reason, expect, note })
}

/// The entries of `rows` read in order, or the first row's message.
pub open spec fn exclusion_rows(h: &Heap, rows: Seq<TaggedValue>) -> Result<Seq<ExclusionView>, Seq<char>>
    decreases rows.len(),
{
    if rows.len() == 0 {
        Ok(Seq::empty())
    } else {
        match exclusion_rows(h, rows.drop_last()) {
            Err(m) => Err(m),
            Ok(prev) => match exclusion_row(h, rows.last()) {
                Err(m) => Err(m),
                Ok(e) => Ok(prev.push(e)),
            },
        }
    }
}

/// The slug of the first entry that repeats an earlier entry's slug.
pub open spec fn first_repeated_slug(es: Seq<ExclusionView>) -> Option<Seq<char>>
    decreases es.len(),
{
    if es.len() == 0 {
        None
    } else {
        match first_repeated_slug(es.drop_last()) {
            Some(s) => Some(s),
            None => if exists|i: int| 0 <= i < es.len() - 1 && es[i].0 == es.last().0 {
                Some(es.last().0)
            } else {
                None
            },
        }
    }
}

/// What the list reads as, given its parsed top-level forms: its entries,
/// or the message for the first thing wrong — the document's head, a row,
/// or a slug listed twice.
pub open spec fn exclusions_read(h: &Heap, forms: Seq<TaggedValue>) -> Result<Seq<ExclusionView>, Seq<char>> {
    let head = "patina-compat-exclusions"@;
    if forms.len() == 0 || form_rest(h, forms[0], head) is None {
        Err(not_a_file_text(head))
    } else {
        match exclusion_rows(h, rows_of(h, form_rest(h, forms[0], head)->0, "exclusions"@)) {
            Err(m) => Err(m),
            Ok(es) => match first_repeated_slug(es) {
                Some(s) => Err("duplicate exclusion for "@ + s),
                None => Ok(es),
            },
        }
    }
}

/// Read the opt-out list from its parsed top-level forms.
pub fn parse(forms: &[TaggedValue], heap: &Heap) -> (r: Result<Vec<Exclusion>, String>)
    requires
        heap.wf(),
        heap.all_valid(forms@),
    ensures
        match r {
            Ok(es) => exclusions_read(heap, forms@) == Ok::<Seq<ExclusionView>, Seq<char>>(
                es@.map_values(|e: Exclusion| exclusion_view(e)),
            ),
            Err(m) => exclusions_read(heap, forms@) == Err::<Seq<ExclusionView>, Seq<char>>(m@),
        },
{
    let (_sections, rows) = match document_rows(forms, "patina-compat-exclusions", "exclusions", heap) {
        Ok(d) => d,
        Err(m) => return Err(m),
    };
    proof {
        assert forall|j: int| 0 <= j < rows@.len() implies heap.valid_value(#[trigger] rows@[j]) by {
            lemma_rows_valid(heap, _sections@, "exclusions"@, j);
        }
    }
    let mut out: Vec<Exclusion> = Vec::new();
    let mut k: usize = 0;
    proof {
        assert(rows@.take(0) =~= Seq::<TaggedValue>::empty());
        assert(out@.map_values(|e: Exclusion| exclusion_view(e)) =~= Seq::<ExclusionView>::empty());
    }
    while k < rows.len()
        invariant
            forms@.len() > 0,
            form_rest(heap, forms@[0], "patina-compat-exclusions"@) == Some(_sections@),
            rows@ == rows_of(heap, _sections@, "exclusions"@),
            heap.wf(),
            heap.all_valid(rows@),
            k <= rows@.len(),
            exclusion_rows(heap, rows@.take(k as int)) == Ok::<Seq<ExclusionView>, Seq<char>>(
                out@.map_values(|e: Exclusion| exclusion_view(e)),
            ),
        decreases rows@.len() - k,
    {
        proof {
            assert(heap.valid_value(rows@[k as int]));
            assert(rows@.take(k + 1).drop_last() =~= rows@.take(k as int));
            assert(rows@.take(k + 1).last() == rows@[k as int]);
        }
        match parse_row(rows[k], heap) {
            Ok(e) => {
                let ghost before = out@;
                out.push(e);
                proof {
                    assert(out@.map_values(|e: Exclusion| exclusion_view(e)) =~= before.map_values(
                        |e: Exclusion| exclusion_view(e),
                    ).push(exclusion_view(e)));
                }
            },
            Err(m) => {
                proof {
                    assert(exclusion_rows(heap, rows@.take(k + 1)) == Err::<Seq<ExclusionView>, Seq<char>>(m@));
                    lemma_rows_err_stays(heap, rows@, k as int + 1);
                }
                return Err(m);
            },
        }
        k = k + 1;
    }
    proof {
        assert(rows@.take(k as int) =~= rows@);
    }
    let ghost views = out@.map_values(|e: Exclusion| exclusion_view(e));
    let mut j: usize = 0;
    while j < out.len()
        invariant
            forms@.len() > 0,
            form_rest(heap, forms@[0], "patina-compat-exclusions"@) == Some(_sections@),
            rows@ == rows_of(heap, _sections@, "exclusions"@),
            exclusion_rows(heap, rows@) == Ok::<Seq<ExclusionView>, Seq<char>>(views),
            j <= out@.len(),
            views == out@.map_values(|e: Exclusion| exclusion_view(e)),
            first_repeated_slug(views.take(j as int)) is None,
        decreases out@.len() - j,
    {
        proof {
            assert(views.take(j + 1).drop_last() =~= views.take(j as int));
            assert(views.take(j + 1).last() == views[j as int]);
        }
        let mut i: usize = 0;
        while i < j
            invariant
                forms@.len() > 0,
                form_rest(heap, forms@[0], "patina-compat-exclusions"@) == Some(_sections@),
                rows@ == rows_of(heap, _sections@, "exclusions"@),
                exclusion_rows(heap, rows@) == Ok::<Seq<ExclusionView>, Seq<char>>(views),
                first_repeated_slug(views.take(j as int)) is None,
                i <= j < out@.len(),
                views == out@.map_values(|e: Exclusion| exclusion_view(e)),
                forall|m: int| 0 <= m < i ==> views[m].0 != views[j as int].0,
            decreases j - i,
        {
            if str_is(out[i].slug.as_str(), out[j].slug.as_str()) {
                proof {
                    let vs = views.take(j + 1);
                    assert(vs[i as int].0 == vs.last().0);
                    assert(vs.drop_last() =~= views.take(j as int));
                    assert(first_repeated_slug(vs) == Some(views[j as int].0));
                    lemma_repeat_stays(views, j as int + 1);
                }
                return Err(joined("duplicate exclusion for ", out[j].slug.as_str()));
            }
            i = i + 1;
        }
        proof {
            let vs = views.take(j + 1);
            assert forall|m: int| 0 <= m < vs.len() - 1 implies vs[m].0 != vs.last().0 by {
                assert(vs[m] == views[m]);
            }
        }
        j = j + 1;
    }
    proof {
        assert(views.take(j as int) =~= views);
    }
    Ok(out)
}

/// The rows of a document's sections are valid values.
proof fn lemma_rows_valid(h: &Heap, sections: Seq<TaggedValue>, head: Seq<char>, j: int)
    requires
        h.wf(),
        0 <= j < rows_of(h, sections, head).len(),
    ensures
        h.valid_value(rows_of(h, sections, head)[j]),
    decreases sections.len(),
{
    let prev = rows_of(h, sections.drop_last(), head);
    if j < prev.len() {
        lemma_rows_valid(h, sections.drop_last(), head, j);
    } else {
        let s = sections.last();
        let items = h.list_items(s);
        h.lemma_list_items_valid(s, items, j - prev.len() + 1);
    }
}

/// Once a prefix of the rows fails, every longer prefix fails the same way.
proof fn lemma_rows_err_stays(h: &Heap, rows: Seq<TaggedValue>, n: int)
    requires
        0 < n <= rows.len(),
        exclusion_rows(h, rows.take(n)) is Err,
    ensures
        exclusion_rows(h, rows) == exclusion_rows(h, rows.take(n)),
    decreases rows.len() - n,
{
    if n < rows.len() {
        assert(rows.take(n + 1).drop_last() =~= rows.take(n));
        lemma_rows_err_stays(h, rows, n + 1);
    } else {
        assert(rows.take(n) =~= rows);
    }
}

/// Once a prefix of the entries repeats a slug, every longer prefix names
/// the same repetition.
proof fn lemma_repeat_stays(es: Seq<ExclusionView>, n: int)
    requires
        0 < n <= es.len(),
        first_repeated_slug(es.take(n)) is Some,
    ensures
        first_repeated_slug(es) == first_repeated_slug(es.take(n)),
    decreases es.len() - n,
{
    if n < es.len() {
        assert(es.take(n + 1).drop_last() =~= es.take(n));
        lemma_repeat_stays(es, n + 1);
    } else {
        assert(es.take(n) =~= es);
    }
}

} // verus!
