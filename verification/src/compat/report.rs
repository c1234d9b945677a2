//! The results snapshot and the report.
//!
//! Results are written as an s-expression. The report gives the headline
//! number, the scoped number beside it when exclusions applied, the
//! per-status breakdown, and the failure histograms that make up the work
//! queue.
use vstd::prelude::*;
use crate::compat::run::{PackageResult, Status, status_key, status_keys, status_names, names_of};
use crate::compat::sexp::{
    clause_string,
    clause_symbol,
    find_clause,
    first_string,
    first_symbol,
    form_rest,
    list_elements,
    not_a_file_text,
    row_rest,
    string_text,
    string_value,
    tagged_form,
};
use crate::heap::Heap;
use crate::tagged_value::TaggedValue;
use crate::compat::exclusions::{Exclusion, Reason, reason_key, reason_heading, all_reasons};
use crate::compat::sexp::{escaped, push_escaped};
use crate::text::{push_str, push_chars, push_decimal, decimal, string_from_chars, chars_of, chars_eq, str_is};
use crate::scan::{seq_lt, lex_lt, lemma_lt_total, lemma_lt_transitive, lemma_lt_irreflexive};

verus! {

// ---------------------------------------------------------------------------
// The results snapshot
// ---------------------------------------------------------------------------

/// The key under which a status's names are written, if it has names.
pub open spec fn detail_key(s: Status) -> Option<Seq<char>> {
    match s {
        Status::MissingLibrary(_) => Some("missing"@),
        Status::OutOfScope(_) => Some("missing"@),
        Status::UnboundIdentifier(_) => Some("unbound"@),
        Status::ParseError(_) => Some("errors"@),
        Status::LoadError(_) => Some("errors"@),
        _ => None,
    }
}

/// The names of a status that carries them.
pub open spec fn detail_names(s: Status) -> Seq<Seq<char>> {
    match s {
        Status::MissingLibrary(v) => names_of(v),
        Status::OutOfScope(v) => names_of(v),
        Status::UnboundIdentifier(v) => names_of(v),
        Status::ParseError(v) => names_of(v),
        Status::LoadError(v) => names_of(v),
        _ => Seq::empty(),
    }
}

/// Each name as an escaped string literal after a space.
pub open spec fn quoted_items(items: Seq<Seq<char>>) -> Seq<char>
    decreases items.len(),
{
    if items.len() == 0 {
        Seq::empty()
    } else {
        quoted_items(items.drop_last()) + " \""@ + escaped(items.last()) + "\""@
    }
}

/// The names clause of a result row, if its status carries names.
pub open spec fn detail_text(s: Status) -> Seq<char> {
    match detail_key(s) {
        Some(key) => " ("@ + key + quoted_items(detail_names(s)) + ")"@,
        None => Seq::empty(),
    }
}

/// One result row of the snapshot.
pub open spec fn result_row_text(r: PackageResult) -> Seq<char> {
    "  ((slug \""@ + escaped(r.slug@) + "\") (mode "@ + r.mode@ + ") (status "@ + status_key(
        r.status,
    ) + ")"@ + detail_text(r.status) + ")\n"@
}

/// The result rows of the snapshot.
pub open spec fn result_rows_text(rs: Seq<PackageResult>) -> Seq<char>
    decreases rs.len(),
{
    if rs.len() == 0 {
        Seq::empty()
    } else {
        result_rows_text(rs.drop_last()) + result_row_text(rs.last())
    }
}

/// The whole snapshot.
pub open spec fn snapshot_text(rs: Seq<PackageResult>, backend: Seq<char>) -> Seq<char> {
    ";; patina-compat results — regenerate with: cargo run -p patina-compat -- run\n"@
        + "(patina-compat-results\n"@ + " (version 1)\n"@ + " (backend \""@ + escaped(backend)
        + "\")\n"@ + " (results\n"@ + result_rows_text(rs) + " ))\n"@
}

/// Append each name as an escaped string literal after a space.
fn push_quoted_items(out: &mut Vec<char>, items: &Vec<String>)
    ensures
        final(out)@ == old(out)@ + quoted_items(names_of(*items)),
{
    let ghost start = out@;
    let mut k: usize = 0;
    while k < items.len()
        invariant
            k <= items@.len(),
            out@ == start + quoted_items(names_of(*items).take(k as int)),
        decreases items@.len() - k,
    {
        push_str(out, " \"");
        push_escaped(out, items[k].as_str());
        push_str(out, "\"");
        proof {
            let next = names_of(*items).take(k + 1);
            assert(next.drop_last() =~= names_of(*items).take(k as int));
            assert(next.last() == items@[k as int]@);
            assert(out@ =~= start + quoted_items(next));
        }
        k = k + 1;
    }
    proof {
        assert(names_of(*items).take(k as int) =~= names_of(*items));
    }
}

/// Append the names clause of a result row, if its status has names.
fn push_detail(out: &mut Vec<char>, status: &Status)
    ensures
        final(out)@ == old(out)@ + detail_text(*status),
{
    let ghost start = out@;
    let (key, items): (&str, &Vec<String>) = match status {
        Status::MissingLibrary(l) => ("missing", l),
        Status::OutOfScope(l) => ("missing", l),
        Status::UnboundIdentifier(l) => ("unbound", l),
        Status::ParseError(l) => ("errors", l),
        Status::LoadError(l) => ("errors", l),
        _ => {
            assert(out@ =~= start + detail_text(*status));
            return;
        },
    };
    assert(detail_key(*status) == Some(key@));
    assert(detail_names(*status) == names_of(*items));
    push_str(out, " (");
    push_str(out, key);
    push_quoted_items(out, items);
    push_str(out, ")");
    assert(out@ =~= start + detail_text(*status));
}

/// Append one result row of the snapshot.
fn push_result_row(out: &mut Vec<char>, r: &PackageResult)
    ensures
        final(out)@ == old(out)@ + result_row_text(*r),
{
    let ghost start = out@;
    push_str(out, "  ((slug \"");
    push_escaped(out, r.slug.as_str());
    push_str(out, "\") (mode ");
    push_str(out, r.mode);
    push_str(out, ") (status ");
    push_str(out, r.status.key());
    push_str(out, ")");
    push_detail(out, &r.status);
    push_str(out, ")\n");
    assert(out@ =~= start + result_row_text(*r));
}

/// The results as the snapshot s-expression.
pub fn to_sexp(results: &[PackageResult], backend: &str) -> (r: String)
    ensures
        r@ == snapshot_text(results@, backend@),
{
    let mut out: Vec<char> = Vec::new();
    push_str(&mut out, ";; patina-compat results — regenerate with: cargo run -p patina-compat -- run\n");
    push_str(&mut out, "(patina-compat-results\n");
    push_str(&mut out, " (version 1)\n");
    push_str(&mut out, " (backend \"");
    push_escaped(&mut out, backend);
    push_str(&mut out, "\")\n");
    push_str(&mut out, " (results\n");
    let ghost head = out@;
    let mut k: usize = 0;
    while k < results.len()
        invariant
            k <= results@.len(),
            out@ == head + result_rows_text(results@.take(k as int)),
        decreases results@.len() - k,
    {
        push_result_row(&mut out, &results[k]);
        proof {
            let next = results@.take(k + 1);
            assert(next.drop_last() =~= results@.take(k as int));
            assert(out@ =~= head + result_rows_text(next));
        }
        k = k + 1;
    }
    push_str(&mut out, " ))\n");
    proof {
        assert(results@.take(k as int) =~= results@);
        assert(out@ =~= snapshot_text(results@, backend@));
    }
    string_from_chars(&out)
}

// ---------------------------------------------------------------------------
// Which rows count
// ---------------------------------------------------------------------------

/// The exclusion that applies to `slug`: the last entry naming it.
pub open spec fn exclusion_for(exs: Seq<Exclusion>, slug: Seq<char>) -> Option<Exclusion>
    decreases exs.len(),
{
    if exs.len() == 0 {
        None
    } else if exs.last().slug@ == slug {
        Some(exs.last())
    } else {
        exclusion_for(exs.drop_last(), slug)
    }
}

/// How many results are in bucket `key`.
pub open spec fn count_key(rs: Seq<PackageResult>, key: Seq<char>) -> nat
    decreases rs.len(),
{
    if rs.len() == 0 {
        0
    } else {
        count_key(rs.drop_last(), key) + if status_key(rs.last().status) == key {
            1nat
        } else {
            0nat
        }
    }
}

/// The results no exclusion applies to: the ones the scoped number counts.
pub open spec fn counted(rs: Seq<PackageResult>, exs: Seq<Exclusion>) -> Seq<PackageResult>
    decreases rs.len(),
{
    if rs.len() == 0 {
        Seq::empty()
    } else {
        let prev = counted(rs.drop_last(), exs);
        if exclusion_for(exs, rs.last().slug@) is None {
            prev.push(rs.last())
        } else {
            prev
        }
    }
}

/// The results an exclusion applies to, each with its exclusion.
pub open spec fn applied(rs: Seq<PackageResult>, exs: Seq<Exclusion>) -> Seq<
    (PackageResult, Exclusion),
>
    decreases rs.len(),
{
    if rs.len() == 0 {
        Seq::empty()
    } else {
        let prev = applied(rs.drop_last(), exs);
        match exclusion_for(exs, rs.last().slug@) {
            Some(e) => prev.push((rs.last(), e)),
            None => prev,
        }
    }
}

/// The applied exclusions whose package no longer produces the expected
/// bucket.
pub open spec fn drifted(ap: Seq<(PackageResult, Exclusion)>) -> Seq<(PackageResult, Exclusion)>
    decreases ap.len(),
{
    if ap.len() == 0 {
        Seq::empty()
    } else {
        let prev = drifted(ap.drop_last());
        if status_key(ap.last().0.status) != ap.last().1.expect@ {
            prev.push(ap.last())
        } else {
            prev
        }
    }
}

/// Whether some result is for `slug`.
pub open spec fn measured(rs: Seq<PackageResult>, slug: Seq<char>) -> bool {
    exists|k: int| 0 <= k < rs.len() && (#[trigger] rs[k]).slug@ == slug
}

/// The exclusions that match no result.
pub open spec fn unmatched(exs: Seq<Exclusion>, rs: Seq<PackageResult>) -> Seq<Exclusion>
    decreases exs.len(),
{
    if exs.len() == 0 {
        Seq::empty()
    } else {
        let prev = unmatched(exs.drop_last(), rs);
        if !measured(rs, exs.last().slug@) {
            prev.push(exs.last())
        } else {
            prev
        }
    }
}

// ---------------------------------------------------------------------------
// Histograms
// ---------------------------------------------------------------------------

/// The failure histograms the report shows.
#[derive(Debug, Clone, Copy, PartialEq, Eq, Structural)]
pub enum Histogram {
    MissingLibraries,
    ParseErrors,
    LoadErrors,
    UnboundIdentifiers,
}

/// The names a status contributes to histogram `h`.
pub open spec fn histogram_names(h: Histogram, s: Status) -> Seq<Seq<char>> {
    match (h, s) {
        (Histogram::MissingLibraries, Status::MissingLibrary(v)) => names_of(v),
        (Histogram::ParseErrors, Status::ParseError(v)) => names_of(v),
        (Histogram::LoadErrors, Status::LoadError(v)) => names_of(v),
        (Histogram::UnboundIdentifiers, Status::UnboundIdentifier(v)) => names_of(v),
        _ => Seq::empty(),
    }
}

/// How often `x` occurs in `s`.
pub open spec fn count_in(s: Seq<Seq<char>>, x: Seq<char>) -> nat
    decreases s.len(),
{
    if s.len() == 0 {
        0
    } else {
        count_in(s.drop_last(), x) + if s.last() == x {
            1nat
        } else {
            0nat
        }
    }
}

/// How often `x` occurs among the names the results contribute to `h`.
pub open spec fn occurrences(rs: Seq<PackageResult>, h: Histogram, x: Seq<char>) -> nat
    decreases rs.len(),
{
    if rs.len() == 0 {
        0
    } else {
        occurrences(rs.drop_last(), h, x) + count_in(histogram_names(h, rs.last().status), x)
    }
}

/// How many names the results carry in all.
pub open spec fn total_names(rs: Seq<PackageResult>) -> nat
    decreases rs.len(),
{
    if rs.len() == 0 {
        0
    } else {
        total_names(rs.drop_last()) + status_names_len(rs.last().status)
    }
}

/// How many names a status carries.
pub open spec fn status_names_len(s: Status) -> nat {
    crate::compat::run::status_names(s).len()
}

/// Row order: most occurrences first, then by name.
pub open spec fn row_before(a: (Seq<char>, nat), b: (Seq<char>, nat)) -> bool {
    a.1 > b.1 || (a.1 == b.1 && seq_lt(a.0, b.0))
}

/// `rows` is the histogram `h` of `rs`: every name that occurs, once, with
/// its number of occurrences, most frequent first and then by name.
pub open spec fn histogram_ok(
    rows: Seq<(Seq<char>, nat)>,
    rs: Seq<PackageResult>,
    h: Histogram,
) -> bool {
    &&& forall|i: int, j: int|
        0 <= i < j < rows.len() ==> row_before(#[trigger] rows[i], #[trigger] rows[j])
    &&& forall|x: Seq<char>, n: nat|
        #[trigger] rows.contains((x, n)) <==> (n == occurrences(rs, h, x) && n > 0)
}

// ---------------------------------------------------------------------------
// The report's text
// ---------------------------------------------------------------------------

/// The title line.
pub open spec fn header_text(backend: Seq<char>) -> Seq<char> {
    "# Patina third-party compatibility ("@ + backend + " backend)\n\n"@
}

/// The raw headline number.
pub open spec fn headline_text(pass: nat, total: nat) -> Seq<char> {
    "**"@ + decimal(pass) + " of "@ + decimal(total) + " packages pass.**\n\n"@
}

/// The scoped number, printed beside the raw one.
pub open spec fn scoped_text(pass: nat, total: nat, excluded: nat) -> Seq<char> {
    "**"@ + decimal(pass) + " of "@ + decimal(total) + " in scope** — "@ + decimal(excluded)
        + " packages are excluded from the score by `compat/EXCLUSIONS.scm`, each for a reason that is not a measurement of Patina. The raw number above never moves because of that file.\n\n"@
}

/// The warning that exclusions have drifted.
pub open spec fn drift_warning_text(n: nat) -> Seq<char> {
    "> ⚠️ **"@ + decimal(n)
        + " exclusion(s) no longer match what the package does.** See *Exclusions that have drifted* below — an entry whose reason has stopped being true is due for retirement, not for a new expectation.\n\n"@
}

/// The slugs of `exs`, each in backticks, joined by commas.
pub open spec fn slug_list(exs: Seq<Exclusion>) -> Seq<char>
    decreases exs.len(),
{
    if exs.len() == 0 {
        Seq::empty()
    } else if exs.len() == 1 {
        "`"@ + exs[0].slug@ + "`"@
    } else {
        slug_list(exs.drop_last()) + ", `"@ + exs.last().slug@ + "`"@
    }
}

/// The warning that exclusions match nothing in the corpus.
pub open spec fn unmatched_text(us: Seq<Exclusion>) -> Seq<char> {
    "> ⚠️ **"@ + decimal(us.len()) + " exclusion(s) name a package the corpus no longer has:** "@
        + slug_list(us)
        + ". An entry that matches nothing excludes nothing, so it is dead weight rather than a silent subtraction — delete it, or fix the slug.\n\n"@
}

/// The per-status rows for `keys`.
pub open spec fn status_rows(
    keys: Seq<Seq<char>>,
    rs: Seq<PackageResult>,
    cs: Seq<PackageResult>,
) -> Seq<char>
    decreases keys.len(),
{
    if keys.len() == 0 {
        Seq::empty()
    } else {
        status_rows(keys.drop_last(), rs, cs) + "| "@ + keys.last() + " | "@ + decimal(
            count_key(rs, keys.last()),
        ) + " | "@ + decimal(count_key(cs, keys.last())) + " |\n"@
    }
}

/// The per-status table: every bucket, all results and the counted ones.
pub open spec fn status_table(rs: Seq<PackageResult>, cs: Seq<PackageResult>) -> Seq<char> {
    "| Status | Packages | In scope |\n|---|---|---|\n"@ + status_rows(
        crate::compat::run::status_keys(),
        rs,
        cs,
    )
}

/// A histogram's heading.
pub open spec fn histogram_title(h: Histogram) -> Seq<char> {
    match h {
        Histogram::MissingLibraries => "Missing libraries — the bundling work queue"@,
        Histogram::ParseErrors => "Parse errors"@,
        Histogram::LoadErrors => "Load errors"@,
        Histogram::UnboundIdentifiers => "Unbound identifiers"@,
    }
}

/// A histogram's name column.
pub open spec fn histogram_column(h: Histogram) -> Seq<char> {
    match h {
        Histogram::MissingLibraries => "Library"@,
        Histogram::ParseErrors => "Error"@,
        Histogram::LoadErrors => "Error"@,
        Histogram::UnboundIdentifiers => "Identifier"@,
    }
}

/// A name as a histogram shows it.
pub open spec fn decorated(h: Histogram, name: Seq<char>) -> Seq<char> {
    match h {
        Histogram::MissingLibraries => "("@ + name + ")"@,
        Histogram::ParseErrors => "`"@ + name + "`"@,
        Histogram::LoadErrors => "`"@ + name + "`"@,
        Histogram::UnboundIdentifiers => name,
    }
}

/// A histogram's rows.
pub open spec fn histogram_rows_text(h: Histogram, rows: Seq<(Seq<char>, nat)>) -> Seq<char>
    decreases rows.len(),
{
    if rows.len() == 0 {
        Seq::empty()
    } else {
        histogram_rows_text(h, rows.drop_last()) + "| "@ + decorated(h, rows.last().0) + " | "@
            + decimal(rows.last().1) + " |\n"@
    }
}

/// A histogram section; nothing when it has no rows.
pub open spec fn histogram_text(h: Histogram, rows: Seq<(Seq<char>, nat)>) -> Seq<char> {
    if rows.len() == 0 {
        Seq::empty()
    } else {
        "\n## "@ + histogram_title(h) + "\n\n"@ + "| "@ + histogram_column(h)
            + " | Packages |\n|---|---|\n"@ + histogram_rows_text(h, rows)
    }
}

/// The rows of the drift table.
pub open spec fn drift_rows(dr: Seq<(PackageResult, Exclusion)>) -> Seq<char>
    decreases dr.len(),
{
    if dr.len() == 0 {
        Seq::empty()
    } else {
        let (r, e) = dr.last();
        drift_rows(dr.drop_last()) + "| "@ + r.slug@ + " | "@ + e.expect@ + " | "@ + status_key(
            r.status,
        ) + " | "@ + reason_key(e.reason) + " | "@ + e.note@ + " |\n"@
    }
}

/// The drift table; nothing when no exclusion drifted.
pub open spec fn drift_table(dr: Seq<(PackageResult, Exclusion)>) -> Seq<char> {
    if dr.len() == 0 {
        Seq::empty()
    } else {
        "\n## Exclusions that have drifted\n\n"@
            + "Each row was excluded on the understanding that it produces the status in *Expected*. It does not any more, so the recorded reason needs re-checking — and if the package now passes, the entry should go.\n\n"@
            + "| Package | Expected | Actual | Reason | Note |\n|---|---|---|---|---|\n"@
            + drift_rows(dr)
    }
}

/// The applied exclusions with reason `reason`.
pub open spec fn with_reason(ap: Seq<(PackageResult, Exclusion)>, reason: Reason) -> Seq<
    (PackageResult, Exclusion),
>
    decreases ap.len(),
{
    if ap.len() == 0 {
        Seq::empty()
    } else {
        let prev = with_reason(ap.drop_last(), reason);
        if ap.last().1.reason == reason {
            prev.push(ap.last())
        } else {
            prev
        }
    }
}

/// Rows of one reason's table.
pub open spec fn excluded_rows(rows: Seq<(PackageResult, Exclusion)>) -> Seq<char>
    decreases rows.len(),
{
    if rows.len() == 0 {
        Seq::empty()
    } else {
        let (r, e) = rows.last();
        excluded_rows(rows.drop_last()) + "| "@ + r.slug@ + " | "@ + status_key(r.status)
            + " | "@ + e.note@ + " |\n"@
    }
}

/// One reason's table; nothing when no applied exclusion has the reason.
pub open spec fn reason_block(ap: Seq<(PackageResult, Exclusion)>, reason: Reason) -> Seq<char> {
    let rows = with_reason(ap, reason);
    if rows.len() == 0 {
        Seq::empty()
    } else {
        "\n### "@ + reason_heading(reason) + " ("@ + decimal(rows.len()) + ")\n\n"@
            + "| Package | Status | Why |\n|---|---|---|\n"@ + excluded_rows(rows)
    }
}

/// The tables of `reasons`, in order.
pub open spec fn reason_blocks(ap: Seq<(PackageResult, Exclusion)>, reasons: Seq<Reason>) -> Seq<
    char,
>
    decreases reasons.len(),
{
    if reasons.len() == 0 {
        Seq::empty()
    } else {
        reason_blocks(ap, reasons.drop_last()) + reason_block(ap, reasons.last())
    }
}

/// The section of excluded packages, by reason; nothing when no exclusion
/// applied.
pub open spec fn excluded_section(ap: Seq<(PackageResult, Exclusion)>) -> Seq<char> {
    if ap.len() == 0 {
        Seq::empty()
    } else {
        "\n## Excluded from the score\n\n"@
            + "These packages still run on every pass — exclusion decides whether a result counts, never whether it is measured, and `results.scm` records them exactly as it records everything else.\n"@
            + reason_blocks(ap, all_reasons())
    }
}

/// The scope column of a result: its exclusion's reason, or "in scope".
pub open spec fn scope_of(exs: Seq<Exclusion>, r: PackageResult) -> Seq<char> {
    match exclusion_for(exs, r.slug@) {
        Some(e) => reason_key(e.reason),
        None => "in scope"@,
    }
}

/// Rows of the per-package matrix.
pub open spec fn matrix_rows(rs: Seq<PackageResult>, exs: Seq<Exclusion>) -> Seq<char>
    decreases rs.len(),
{
    if rs.len() == 0 {
        Seq::empty()
    } else {
        let r = rs.last();
        matrix_rows(rs.drop_last(), exs) + "| "@ + r.slug@ + " | "@ + r.mode@ + " | "@
            + status_key(r.status) + " | "@ + scope_of(exs, r) + " |\n"@
    }
}

/// The per-package matrix.
pub open spec fn matrix_text(rs: Seq<PackageResult>, exs: Seq<Exclusion>) -> Seq<char> {
    "\n## Per-package matrix\n\n"@ + "| Package | Mode | Status | Scope |\n|---|---|---|---|\n"@
        + matrix_rows(rs, exs)
}

/// The whole report, given the four histograms.
pub open spec fn report_text(
    rs: Seq<PackageResult>,
    backend: Seq<char>,
    exs: Seq<Exclusion>,
    full_corpus: bool,
    hs: Seq<Seq<(Seq<char>, nat)>>,
) -> Seq<char> {
    let cs = counted(rs, exs);
    let ap = applied(rs, exs);
    let dr = drifted(ap);
    let us = if full_corpus {
        unmatched(exs, rs)
    } else {
        Seq::empty()
    };
    header_text(backend) + headline_text(count_key(rs, "pass"@), rs.len()) + (if ap.len() > 0 {
        scoped_text(count_key(cs, "pass"@), cs.len(), ap.len())
    } else {
        Seq::empty()
    }) + (if dr.len() > 0 {
        drift_warning_text(dr.len())
    } else {
        Seq::empty()
    }) + (if us.len() > 0 {
        unmatched_text(us)
    } else {
        Seq::empty()
    }) + status_table(rs, cs) + histogram_text(Histogram::MissingLibraries, hs[0])
        + histogram_text(Histogram::ParseErrors, hs[1]) + histogram_text(
        Histogram::LoadErrors,
        hs[2],
    ) + histogram_text(Histogram::UnboundIdentifiers, hs[3]) + drift_table(dr)
        + excluded_section(ap) + matrix_text(rs, exs)
}

/// `t` occurs in `s`.
pub open spec fn contains_text(s: Seq<char>, t: Seq<char>) -> bool {
    exists|i: int| 0 <= i && i + t.len() <= s.len() && #[trigger] s.subrange(i, i + t.len()) == t
}

proof fn lemma_contains_between(p: Seq<char>, t: Seq<char>, q: Seq<char>)
    ensures
        contains_text(p + t + q, t),
{
    assert((p + t + q).subrange(p.len() as int, (p.len() + t.len()) as int) =~= t);
}

/// Every result is counted or has an exclusion applied, not both.
pub proof fn lemma_counted_and_applied(rs: Seq<PackageResult>, exs: Seq<Exclusion>)
    ensures
        counted(rs, exs).len() + applied(rs, exs).len() == rs.len(),
    decreases rs.len(),
{
    if rs.len() > 0 {
        lemma_counted_and_applied(rs.drop_last(), exs);
    }
}

/// What the report says of the score: it states how many of all packages
/// pass; when some package is excluded, how many of those in scope pass and
/// how many were excluded; and, measured over the full corpus, the
/// exclusions that name a package the corpus no longer has.
#[verifier::rlimit(100)]
#[verifier::spinoff_prover]
pub proof fn lemma_report_states_its_scores(
    rs: Seq<PackageResult>,
    backend: Seq<char>,
    exs: Seq<Exclusion>,
    full_corpus: bool,
    hs: Seq<Seq<(Seq<char>, nat)>>,
)
    requires
        hs.len() == 4,
    ensures
        contains_text(
            report_text(rs, backend, exs, full_corpus, hs),
            headline_text(count_key(rs, "pass"@), rs.len()),
        ),
        counted(rs, exs).len() < rs.len() ==> contains_text(
            report_text(rs, backend, exs, full_corpus, hs),
            scoped_text(
                count_key(counted(rs, exs), "pass"@),
                counted(rs, exs).len(),
                (rs.len() - counted(rs, exs).len()) as nat,
            ),
        ),
        full_corpus && unmatched(exs, rs).len() > 0 ==> contains_text(
            report_text(rs, backend, exs, full_corpus, hs),
            unmatched_text(unmatched(exs, rs)),
        ),
{
    let cs = counted(rs, exs);
    let ap = applied(rs, exs);
    let dr = drifted(ap);
    let us = if full_corpus { unmatched(exs, rs) } else { Seq::empty() };
    let a = header_text(backend);
    let b = headline_text(count_key(rs, "pass"@), rs.len());
    let c = if ap.len() > 0 {
        scoped_text(count_key(cs, "pass"@), cs.len(), ap.len())
    } else {
        Seq::empty()
    };
    let d = if dr.len() > 0 { drift_warning_text(dr.len()) } else { Seq::empty() };
    let e = if us.len() > 0 { unmatched_text(us) } else { Seq::empty() };
    let report = report_text(rs, backend, exs, full_corpus, hs);
    let tail = report.subrange((a + b + c + d + e).len() as int, report.len() as int);
    assert(report =~= a + b + c + d + e + tail);
    assert(report =~= a + b + (c + d + e + tail));
    lemma_contains_between(a, b, c + d + e + tail);
    lemma_counted_and_applied(rs, exs);
    if ap.len() > 0 {
        assert(report =~= (a + b) + c + (d + e + tail));
        lemma_contains_between(a + b, c, d + e + tail);
    }
    if full_corpus && us.len() > 0 {
        assert(report =~= (a + b + c + d) + e + tail);
        lemma_contains_between(a + b + c + d, e, tail);
    }
}

// ---------------------------------------------------------------------------
// Rendering
// ---------------------------------------------------------------------------

/// `ex` gives, for each result, the index of the exclusion that applies.
pub open spec fn exclusions_resolved(
    rs: Seq<PackageResult>,
    exs: Seq<Exclusion>,
    ex: Seq<Option<usize>>,
) -> bool {
    &&& ex.len() == rs.len()
    &&& forall|k: int|
        0 <= k < rs.len() ==> match #[trigger] ex[k] {
            Some(i) => i < exs.len() && exclusion_for(exs, rs[k].slug@) == Some(exs[i as int]),
            None => exclusion_for(exs, rs[k].slug@) is None,
        }
}

/// The index of the exclusion that applies to `slug`: the last naming it.
fn exclusion_index(exs: &[Exclusion], slug: &str) -> (r: Option<usize>)
    ensures
        match r {
            Some(i) => i < exs@.len() && exclusion_for(exs@, slug@) == Some(exs@[i as int]),
            None => exclusion_for(exs@, slug@) is None,
        },
{
    let mut i = exs.len();
    assert(exs@.take(i as int) =~= exs@);
    while i > 0
        invariant
            i <= exs@.len(),
            exclusion_for(exs@, slug@) == exclusion_for(exs@.take(i as int), slug@),
        decreases i,
    {
        let ghost t = exs@.take(i as int);
        assert(t.drop_last() =~= exs@.take(i - 1));
        assert(t.last() == exs@[i - 1]);
        if str_is(exs[i - 1].slug.as_str(), slug) {
            return Some(i - 1);
        }
        i = i - 1;
    }
    None
}

/// For each result, the index of the exclusion that applies to it.
fn resolve_exclusions(rs: &[PackageResult], exs: &[Exclusion]) -> (ex: Vec<Option<usize>>)
    ensures
        exclusions_resolved(rs@, exs@, ex@),
{
    let mut ex: Vec<Option<usize>> = Vec::new();
    let mut k: usize = 0;
    while k < rs.len()
        invariant
            k <= rs@.len(),
            ex@.len() == k,
            forall|j: int|
                0 <= j < k ==> match #[trigger] ex@[j] {
                    Some(i) => i < exs@.len() && exclusion_for(exs@, rs@[j].slug@) == Some(
                        exs@[i as int],
                    ),
                    None => exclusion_for(exs@, rs@[j].slug@) is None,
                },
        decreases rs@.len() - k,
    {
        let found = exclusion_index(exs, rs[k].slug.as_str());
        ex.push(found);
        k = k + 1;
    }
    ex
}

/// The counts the headline and the warnings need.
struct Tally {
    pass: usize,
    counted: usize,
    counted_pass: usize,
    applied: usize,
    drifted: usize,
}

/// Count the results by how they stand.
fn tally(rs: &[PackageResult], exs: &[Exclusion], ex: &Vec<Option<usize>>) -> (t: Tally)
    requires
        exclusions_resolved(rs@, exs@, ex@),
    ensures
        t.pass == count_key(rs@, "pass"@),
        t.counted == counted(rs@, exs@).len(),
        t.counted_pass == count_key(counted(rs@, exs@), "pass"@),
        t.applied == applied(rs@, exs@).len(),
        t.drifted == drifted(applied(rs@, exs@)).len(),
{
    let mut t = Tally { pass: 0, counted: 0, counted_pass: 0, applied: 0, drifted: 0 };
    let mut k: usize = 0;
    while k < rs.len()
        invariant
            k <= rs@.len(),
            exclusions_resolved(rs@, exs@, ex@),
            t.pass == count_key(rs@.take(k as int), "pass"@),
            t.counted == counted(rs@.take(k as int), exs@).len(),
            t.counted_pass == count_key(counted(rs@.take(k as int), exs@), "pass"@),
            t.applied == applied(rs@.take(k as int), exs@).len(),
            t.drifted == drifted(applied(rs@.take(k as int), exs@)).len(),
            t.pass <= k,
            t.counted <= k,
            t.counted_pass <= t.counted,
            t.applied <= k,
            t.drifted <= t.applied,
        decreases rs@.len() - k,
    {
        let ghost prev = rs@.take(k as int);
        let ghost next = rs@.take(k + 1);
        proof {
            assert(next.drop_last() =~= prev);
            assert(next.last() == rs@[k as int]);
        }
        let r = &rs[k];
        let is_pass = str_is(r.status.key(), "pass");
        if is_pass {
            t.pass = t.pass + 1;
        }
        match ex[k] {
            None => {
                t.counted = t.counted + 1;
                if is_pass {
                    t.counted_pass = t.counted_pass + 1;
                }
                proof {
                    assert(counted(next, exs@) == counted(prev, exs@).push(rs@[k as int]));
                    assert(counted(next, exs@).drop_last() =~= counted(prev, exs@));
                    assert(applied(next, exs@) == applied(prev, exs@));
                }
            },
            Some(i) => {
                let e = &exs[i];
                proof {
                    assert(counted(next, exs@) == counted(prev, exs@));
                    assert(applied(next, exs@) == applied(prev, exs@).push((rs@[k as int], exs@[i as int])));
                    assert(applied(next, exs@).drop_last() =~= applied(prev, exs@));
                }
                t.applied = t.applied + 1;
                if !str_is(r.status.key(), e.expect.as_str()) {
                    t.drifted = t.drifted + 1;
                }
            },
        }
        k = k + 1;
    }
    proof {
        assert(rs@.take(k as int) =~= rs@);
    }
    t
}

/// Append the per-package matrix.
fn push_matrix(out: &mut Vec<char>, rs: &[PackageResult], exs: &[Exclusion], ex: &Vec<Option<usize>>)
    requires
        exclusions_resolved(rs@, exs@, ex@),
    ensures
        final(out)@ == old(out)@ + matrix_text(rs@, exs@),
{
    push_str(out, "\n## Per-package matrix\n\n");
    push_str(out, "| Package | Mode | Status | Scope |\n|---|---|---|---|\n");
    let ghost head = out@;
    let mut k: usize = 0;
    while k < rs.len()
        invariant
            k <= rs@.len(),
            exclusions_resolved(rs@, exs@, ex@),
            out@ == head + matrix_rows(rs@.take(k as int), exs@),
        decreases rs@.len() - k,
    {
        let r = &rs[k];
        let scope: &str = match ex[k] {
            Some(i) => exs[i].reason.key(),
            None => "in scope",
        };
        assert(scope@ == scope_of(exs@, rs@[k as int]));
        push_str(out, "| ");
        push_str(out, r.slug.as_str());
        push_str(out, " | ");
        push_str(out, r.mode);
        push_str(out, " | ");
        push_str(out, r.status.key());
        push_str(out, " | ");
        push_str(out, scope);
        push_str(out, " |\n");
        proof {
            let next = rs@.take(k + 1);
            assert(next.drop_last() =~= rs@.take(k as int));
            assert(next.last() == rs@[k as int]);
            assert(out@ =~= head + matrix_rows(next, exs@));
        }
        k = k + 1;
    }
    proof {
        assert(rs@.take(k as int) =~= rs@);
        assert(out@ =~= old(out)@ + matrix_text(rs@, exs@));
    }
}

/// The exclusions at the indices `u`.
pub open spec fn pick(exs: Seq<Exclusion>, u: Seq<usize>) -> Seq<Exclusion> {
    u.map_values(|i: usize| exs[i as int])
}

/// Whether some result is for `slug`.
fn is_measured(rs: &[PackageResult], slug: &str) -> (r: bool)
    ensures
        r == measured(rs@, slug@),
{
    let mut k: usize = 0;
    while k < rs.len()
        invariant
            k <= rs@.len(),
            forall|j: int| 0 <= j < k ==> (#[trigger] rs@[j]).slug@ != slug@,
        decreases rs@.len() - k,
    {
        if str_is(rs[k].slug.as_str(), slug) {
            return true;
        }
        k = k + 1;
    }
    false
}

/// The indices of the exclusions that match no result.
fn unmatched_indices(exs: &[Exclusion], rs: &[PackageResult]) -> (u: Vec<usize>)
    ensures
        pick(exs@, u@) == unmatched(exs@, rs@),
        forall|j: int| 0 <= j < u@.len() ==> (#[trigger] u@[j]) < exs@.len(),
{
    let mut u: Vec<usize> = Vec::new();
    let mut k: usize = 0;
    while k < exs.len()
        invariant
            k <= exs@.len(),
            pick(exs@, u@) == unmatched(exs@.take(k as int), rs@),
            forall|j: int| 0 <= j < u@.len() ==> (#[trigger] u@[j]) < exs@.len(),
        decreases exs@.len() - k,
    {
        let ghost next = exs@.take(k + 1);
        assert(next.drop_last() =~= exs@.take(k as int));
        assert(next.last() == exs@[k as int]);
        if !is_measured(rs, exs[k].slug.as_str()) {
            u.push(k);
            assert(pick(exs@, u@) =~= unmatched(next, rs@));
        } else {
            assert(pick(exs@, u@) =~= unmatched(next, rs@));
        }
        k = k + 1;
    }
    assert(exs@.take(k as int) =~= exs@);
    u
}

/// Append the warning about exclusions that match nothing.
fn push_unmatched_warning(out: &mut Vec<char>, exs: &[Exclusion], u: &Vec<usize>)
    requires
        forall|j: int| 0 <= j < u@.len() ==> (#[trigger] u@[j]) < exs@.len(),
    ensures
        final(out)@ == old(out)@ + unmatched_text(pick(exs@, u@)),
{
    push_str(out, "> ⚠️ **");
    push_decimal(out, u.len() as u64);
    push_str(out, " exclusion(s) name a package the corpus no longer has:** ");
    let ghost head = out@;
    let ghost us = pick(exs@, u@);
    let mut k: usize = 0;
    while k < u.len()
        invariant
            k <= u@.len(),
            us == pick(exs@, u@),
            forall|j: int| 0 <= j < u@.len() ==> (#[trigger] u@[j]) < exs@.len(),
            out@ == head + slug_list(us.take(k as int)),
        decreases u@.len() - k,
    {
        let ghost before = out@;
        if k > 0 {
            push_str(out, ", `");
        } else {
            push_str(out, "`");
        }
        push_str(out, exs[u[k]].slug.as_str());
        push_str(out, "`");
        proof {
            let next = us.take(k + 1);
            let x = exs@[u@[k as int] as int];
            assert(us[k as int] == x);
            assert(next.drop_last() =~= us.take(k as int));
            assert(next.last() == x);
            if k == 0 {
                assert(next[0] == x);
                assert(slug_list(next) == "`"@ + x.slug@ + "`"@);
                assert(out@ =~= before + ("`"@ + x.slug@ + "`"@));
            } else {
                assert(slug_list(next) == slug_list(us.take(k as int)) + ", `"@ + x.slug@ + "`"@);
                assert(out@ =~= before + (", `"@ + x.slug@ + "`"@));
            }
            assert(out@ =~= head + slug_list(next));
        }
        k = k + 1;
    }
    push_str(out, ". An entry that matches nothing excludes nothing, so it is dead weight rather than a silent subtraction — delete it, or fix the slug.\n\n");
    proof {
        assert(us.take(k as int) =~= us);
        assert(out@ =~= old(out)@ + unmatched_text(us));
    }
}

/// How many results are in bucket `key`; with `only_counted`, only those
/// no exclusion applies to.
fn count_bucket(
    rs: &[PackageResult],
    exs: &[Exclusion],
    ex: &Vec<Option<usize>>,
    key: &str,
    only_counted: bool,
) -> (n: usize)
    requires
        exclusions_resolved(rs@, exs@, ex@),
    ensures
        n == if only_counted {
            count_key(counted(rs@, exs@), key@)
        } else {
            count_key(rs@, key@)
        },
{
    let mut n: usize = 0;
    let mut k: usize = 0;
    while k < rs.len()
        invariant
            k <= rs@.len(),
            exclusions_resolved(rs@, exs@, ex@),
            n == if only_counted {
                count_key(counted(rs@.take(k as int), exs@), key@)
            } else {
                count_key(rs@.take(k as int), key@)
            },
            n <= k,
        decreases rs@.len() - k,
    {
        let ghost prev = rs@.take(k as int);
        let ghost next = rs@.take(k + 1);
        proof {
            assert(next.drop_last() =~= prev);
            assert(next.last() == rs@[k as int]);
            if ex@[k as int] is None {
                assert(counted(next, exs@).drop_last() =~= counted(prev, exs@));
            }
        }
        if (!only_counted || ex[k].is_none()) && str_is(rs[k].status.key(), key) {
            n = n + 1;
        }
        k = k + 1;
    }
    assert(rs@.take(k as int) =~= rs@);
    n
}

/// Append the per-status table.
fn push_status_table(
    out: &mut Vec<char>,
    rs: &[PackageResult],
    exs: &[Exclusion],
    ex: &Vec<Option<usize>>,
)
    requires
        exclusions_resolved(rs@, exs@, ex@),
    ensures
        final(out)@ == old(out)@ + status_table(rs@, counted(rs@, exs@)),
{
    push_str(out, "| Status | Packages | In scope |\n|---|---|---|\n");
    let ghost head = out@;
    let keys = crate::compat::run::status_key_list();
    let ghost kv = keys@.map_values(|k: &'static str| k@);
    let mut k: usize = 0;
    while k < keys.len()
        invariant
            k <= keys@.len(),
            exclusions_resolved(rs@, exs@, ex@),
            kv == keys@.map_values(|k: &'static str| k@),
            out@ == head + status_rows(kv.take(k as int), rs@, counted(rs@, exs@)),
        decreases keys@.len() - k,
    {
        let key = keys[k];
        let all = count_bucket(rs, exs, ex, key, false);
        let in_scope = count_bucket(rs, exs, ex, key, true);
        push_str(out, "| ");
        push_str(out, key);
        push_str(out, " | ");
        push_decimal(out, all as u64);
        push_str(out, " | ");
        push_decimal(out, in_scope as u64);
        push_str(out, " |\n");
        proof {
            let next = kv.take(k + 1);
            assert(next.drop_last() =~= kv.take(k as int));
            assert(next.last() == key@);
            assert(out@ =~= head + status_rows(next, rs@, counted(rs@, exs@)));
        }
        k = k + 1;
    }
    proof {
        assert(kv.take(k as int) =~= kv);
        assert(out@ =~= old(out)@ + status_table(rs@, counted(rs@, exs@)));
    }
}

/// Append the drift table.
#[verifier::rlimit(40)]
#[verifier::spinoff_prover]
fn push_drift_table(
    out: &mut Vec<char>,
    rs: &[PackageResult],
    exs: &[Exclusion],
    ex: &Vec<Option<usize>>,
    any: bool,
)
    requires
        exclusions_resolved(rs@, exs@, ex@),
        any == (drifted(applied(rs@, exs@)).len() > 0),
    ensures
        final(out)@ == old(out)@ + drift_table(drifted(applied(rs@, exs@))),
{
    if !any {
        assert(out@ =~= old(out)@ + drift_table(drifted(applied(rs@, exs@))));
        return;
    }
    push_str(out, "\n## Exclusions that have drifted\n\n");
    push_str(out, "Each row was excluded on the understanding that it produces the status in *Expected*. It does not any more, so the recorded reason needs re-checking — and if the package now passes, the entry should go.\n\n");
    push_str(out, "| Package | Expected | Actual | Reason | Note |\n|---|---|---|---|---|\n");
    let ghost head = out@;
    let mut k: usize = 0;
    while k < rs.len()
        invariant
            k <= rs@.len(),
            exclusions_resolved(rs@, exs@, ex@),
            out@ == head + drift_rows(drifted(applied(rs@.take(k as int), exs@))),
        decreases rs@.len() - k,
    {
        let ghost prev = rs@.take(k as int);
        let ghost next = rs@.take(k + 1);
        proof {
            assert(next.drop_last() =~= prev);
            assert(next.last() == rs@[k as int]);
        }
        match ex[k] {
            Some(i) => {
                let r = &rs[k];
                let e = &exs[i];
                proof {
                    assert(applied(next, exs@) == applied(prev, exs@).push((rs@[k as int], exs@[i as int])));
                    assert(applied(next, exs@).drop_last() =~= applied(prev, exs@));
                }
                if !str_is(r.status.key(), e.expect.as_str()) {
                    push_str(out, "| ");
                    push_str(out, r.slug.as_str());
                    push_str(out, " | ");
                    push_str(out, e.expect.as_str());
                    push_str(out, " | ");
                    push_str(out, r.status.key());
                    push_str(out, " | ");
                    push_str(out, e.reason.key());
                    push_str(out, " | ");
                    push_str(out, e.note.as_str());
                    push_str(out, " |\n");
                    proof {
                        let d = drifted(applied(next, exs@));
                        assert(d.drop_last() =~= drifted(applied(prev, exs@)));
                        assert(out@ =~= head + drift_rows(d));
                    }
                }
            },
            None => {},
        }
        k = k + 1;
    }
    proof {
        assert(rs@.take(k as int) =~= rs@);
        assert(out@ =~= old(out)@ + drift_table(drifted(applied(rs@, exs@))));
    }
}

/// Append one reason's table of excluded packages.
fn push_reason_block(
    out: &mut Vec<char>,
    rs: &[PackageResult],
    exs: &[Exclusion],
    ex: &Vec<Option<usize>>,
    reason: Reason,
)
    requires
        exclusions_resolved(rs@, exs@, ex@),
    ensures
        final(out)@ == old(out)@ + reason_block(applied(rs@, exs@), reason),
{
    let mut rows: Vec<usize> = Vec::new();
    let mut k: usize = 0;
    while k < rs.len()
        invariant
            k <= rs@.len(),
            exclusions_resolved(rs@, exs@, ex@),
            rows@.len() == with_reason(applied(rs@.take(k as int), exs@), reason).len(),
            rows@.len() <= k,
        decreases rs@.len() - k,
    {
        let ghost prev = rs@.take(k as int);
        let ghost next = rs@.take(k + 1);
        proof {
            assert(next.drop_last() =~= prev);
            assert(next.last() == rs@[k as int]);
        }
        match ex[k] {
            Some(i) => {
                proof {
                    assert(applied(next, exs@).drop_last() =~= applied(prev, exs@));
                }
                if exs[i].reason == reason {
                    rows.push(k);
                    proof {
                        assert(with_reason(applied(next, exs@), reason).drop_last() =~= with_reason(
                            applied(prev, exs@),
                            reason,
                        ));
                    }
                }
            },
            None => {},
        }
        k = k + 1;
    }
    assert(rs@.take(k as int) =~= rs@);
    if rows.len() == 0 {
        assert(out@ =~= old(out)@ + reason_block(applied(rs@, exs@), reason));
        return;
    }
    push_str(out, "\n### ");
    push_str(out, reason.heading());
    push_str(out, " (");
    push_decimal(out, rows.len() as u64);
    push_str(out, ")\n\n");
    push_str(out, "| Package | Status | Why |\n|---|---|---|\n");
    let ghost head = out@;
    let mut k: usize = 0;
    while k < rs.len()
        invariant
            k <= rs@.len(),
            exclusions_resolved(rs@, exs@, ex@),
            out@ == head + excluded_rows(with_reason(applied(rs@.take(k as int), exs@), reason)),
        decreases rs@.len() - k,
    {
        let ghost prev = rs@.take(k as int);
        let ghost next = rs@.take(k + 1);
        proof {
            assert(next.drop_last() =~= prev);
            assert(next.last() == rs@[k as int]);
        }
        match ex[k] {
            Some(i) => {
                proof {
                    assert(applied(next, exs@).drop_last() =~= applied(prev, exs@));
                }
                if exs[i].reason == reason {
                    push_str(out, "| ");
                    push_str(out, rs[k].slug.as_str());
                    push_str(out, " | ");
                    push_str(out, rs[k].status.key());
                    push_str(out, " | ");
                    push_str(out, exs[i].note.as_str());
                    push_str(out, " |\n");
                    proof {
                        let w = with_reason(applied(next, exs@), reason);
                        assert(w.drop_last() =~= with_reason(applied(prev, exs@), reason));
                        assert(out@ =~= head + excluded_rows(w));
                    }
                }
            },
            None => {},
        }
        k = k + 1;
    }
    proof {
        assert(rs@.take(k as int) =~= rs@);
        assert(out@ =~= old(out)@ + reason_block(applied(rs@, exs@), reason));
    }
}

/// Append the section of excluded packages.
fn push_excluded_section(
    out: &mut Vec<char>,
    rs: &[PackageResult],
    exs: &[Exclusion],
    ex: &Vec<Option<usize>>,
    any: bool,
)
    requires
        exclusions_resolved(rs@, exs@, ex@),
        any == (applied(rs@, exs@).len() > 0),
    ensures
        final(out)@ == old(out)@ + excluded_section(applied(rs@, exs@)),
{
    if !any {
        assert(out@ =~= old(out)@ + excluded_section(applied(rs@, exs@)));
        return;
    }
    push_str(out, "\n## Excluded from the score\n\n");
    push_str(out, "These packages still run on every pass — exclusion decides whether a result counts, never whether it is measured, and `results.scm` records them exactly as it records everything else.\n");
    let ghost head = out@;
    let ghost ap = applied(rs@, exs@);
    let reasons = Reason::ALL;
    assert(reasons@ == all_reasons());
    let mut k: usize = 0;
    while k < 4
        invariant
            k <= 4,
            reasons@ == all_reasons(),
            exclusions_resolved(rs@, exs@, ex@),
            ap == applied(rs@, exs@),
            out@ == head + reason_blocks(ap, all_reasons().take(k as int)),
        decreases 4 - k,
    {
        push_reason_block(out, rs, exs, ex, reasons[k]);
        proof {
            let next = all_reasons().take(k + 1);
            assert(next.drop_last() =~= all_reasons().take(k as int));
            assert(next.last() == reasons@[k as int]);
            assert(out@ =~= head + reason_blocks(ap, next));
        }
        k = k + 1;
    }
    proof {
        assert(all_reasons().take(4) =~= all_reasons());
        assert(out@ =~= old(out)@ + excluded_section(ap));
    }
}

/// A prefix carries no more names than the whole.
proof fn lemma_total_names_prefix(rs: Seq<PackageResult>, k: int)
    requires
        0 <= k <= rs.len(),
    ensures
        total_names(rs.take(k)) <= total_names(rs),
    decreases rs.len() - k,
{
    if k < rs.len() {
        assert(rs.take(k + 1).drop_last() =~= rs.take(k));
        lemma_total_names_prefix(rs, k + 1);
    } else {
        assert(rs.take(k) =~= rs);
    }
}

/// The names a status contributes to histogram `h`.
fn histogram_source(h: Histogram, s: &Status) -> (r: Option<&Vec<String>>)
    ensures
        match r {
            Some(v) => names_of(*v) == histogram_names(h, *s) && names_of(*v).len()
                == status_names_len(*s),
            None => histogram_names(h, *s) == Seq::<Seq<char>>::empty(),
        },
{
    match (h, s) {
        (Histogram::MissingLibraries, Status::MissingLibrary(v)) => Some(v),
        (Histogram::ParseErrors, Status::ParseError(v)) => Some(v),
        (Histogram::LoadErrors, Status::LoadError(v)) => Some(v),
        (Histogram::UnboundIdentifiers, Status::UnboundIdentifier(v)) => Some(v),
        _ => None,
    }
}

/// What a tally should hold for `y`: its occurrences among `base`, plus
/// those in `extra`.
pub open spec fn tally_target(
    base: Seq<PackageResult>,
    h: Histogram,
    extra: Seq<Seq<char>>,
    y: Seq<char>,
) -> nat {
    occurrences(base, h, y) + count_in(extra, y)
}

/// `names` and `counts` tally `tally_target`: each name once, with its
/// count, and every name with a positive count present.
pub open spec fn tally_ok(
    names: Seq<Vec<char>>,
    counts: Seq<usize>,
    base: Seq<PackageResult>,
    h: Histogram,
    extra: Seq<Seq<char>>,
) -> bool {
    &&& names.len() == counts.len()
    &&& forall|i: int, j: int|
        0 <= i < j < names.len() ==> (#[trigger] names[i])@ != (#[trigger] names[j])@
    &&& forall|i: int|
        0 <= i < names.len() ==> #[trigger] counts[i] == tally_target(base, h, extra, names[i]@)
            && counts[i] > 0
    &&& forall|y: Seq<char>|
        #[trigger] tally_target(base, h, extra, y) > 0 ==> exists|i: int|
            0 <= i < names.len() && (#[trigger] names[i])@ == y
}

/// A tally of one target is a tally of any target that agrees with it.
proof fn lemma_tally_same(
    names: Seq<Vec<char>>,
    counts: Seq<usize>,
    b1: Seq<PackageResult>,
    e1: Seq<Seq<char>>,
    b2: Seq<PackageResult>,
    e2: Seq<Seq<char>>,
    h: Histogram,
)
    requires
        tally_ok(names, counts, b1, h, e1),
        forall|y: Seq<char>| #[trigger] tally_target(b1, h, e1, y) == tally_target(b2, h, e2, y),
    ensures
        tally_ok(names, counts, b2, h, e2),
{
    assert forall|i: int| 0 <= i < names.len() implies #[trigger] counts[i] == tally_target(
        b2,
        h,
        e2,
        names[i]@,
    ) && counts[i] > 0 by {
        assert(tally_target(b1, h, e1, names[i]@) == tally_target(b2, h, e2, names[i]@));
    }
    assert forall|y: Seq<char>| #[trigger] tally_target(b2, h, e2, y) > 0 implies exists|i: int|
        0 <= i < names.len() && (#[trigger] names[i])@ == y by {
        assert(tally_target(b1, h, e1, y) > 0);
    }
}

/// The index of `x` among `names`, if present.
fn find_name(names: &Vec<Vec<char>>, x: &[char]) -> (r: Option<usize>)
    ensures
        match r {
            Some(i) => i < names@.len() && names@[i as int]@ == x@,
            None => forall|q: int| 0 <= q < names@.len() ==> (#[trigger] names@[q])@ != x@,
        },
{
    let mut i: usize = 0;
    while i < names.len()
        invariant
            i <= names@.len(),
            forall|q: int| 0 <= q < i ==> (#[trigger] names@[q])@ != x@,
        decreases names@.len() - i,
    {
        if chars_eq(names[i].as_slice(), x) {
            return Some(i);
        }
        i = i + 1;
    }
    None
}

/// Count one more occurrence of `x`.
fn tally_add(
    names: &mut Vec<Vec<char>>,
    counts: &mut Vec<usize>,
    x: Vec<char>,
    Ghost(base): Ghost<Seq<PackageResult>>,
    Ghost(h): Ghost<Histogram>,
    Ghost(extra): Ghost<Seq<Seq<char>>>,
    Ghost(bound): Ghost<nat>,
)
    requires
        tally_ok(old(names)@, old(counts)@, base, h, extra),
        bound < usize::MAX,
        forall|i: int| 0 <= i < old(counts)@.len() ==> #[trigger] old(counts)@[i] <= bound,
    ensures
        tally_ok(final(names)@, final(counts)@, base, h, extra.push(x@)),
        forall|i: int| 0 <= i < final(counts)@.len() ==> #[trigger] final(counts)@[i] <= bound + 1,
{
    let ghost xs = x@;
    let ghost e2 = extra.push(xs);
    assert(e2.drop_last() =~= extra);
    assert forall|y: Seq<char>| #[trigger] tally_target(base, h, e2, y) == tally_target(
        base,
        h,
        extra,
        y,
    ) + if y == xs {
        1nat
    } else {
        0nat
    } by {}
    let ghost n0 = names@;
    match find_name(names, x.as_slice()) {
        Some(i) => {
            let c = counts[i];
            counts.set(i, c + 1);
            proof {
                assert forall|q: int| 0 <= q < names@.len() implies #[trigger] counts@[q]
                    == tally_target(base, h, e2, names@[q]@) && counts@[q] > 0 by {
                    if q != i {
                        assert(names@[q]@ != xs);
                    }
                }
                assert forall|y: Seq<char>| #[trigger] tally_target(base, h, e2, y) > 0 implies exists|
                    q: int,
                | 0 <= q < names@.len() && (#[trigger] names@[q])@ == y by {
                    if y == xs {
                        assert(names@[i as int]@ == y);
                    } else {
                        assert(tally_target(base, h, extra, y) > 0);
                    }
                }
            }
        },
        None => {
            names.push(x);
            counts.push(1);
            proof {
                assert(names@[n0.len() as int]@ == xs);
                assert(tally_target(base, h, extra, xs) == 0) by {
                    if tally_target(base, h, extra, xs) > 0 {
                        let q = choose|q: int| 0 <= q < n0.len() && (#[trigger] n0[q])@ == xs;
                    }
                }
                assert forall|q: int, q2: int| 0 <= q < q2 < names@.len() implies (
                #[trigger] names@[q])@ != (#[trigger] names@[q2])@ by {
                    if q2 == n0.len() {
                        assert(names@[q] == n0[q]);
                    } else {
                        assert(names@[q] == n0[q] && names@[q2] == n0[q2]);
                    }
                }
                assert forall|q: int| 0 <= q < names@.len() implies #[trigger] counts@[q]
                    == tally_target(base, h, e2, names@[q]@) && counts@[q] > 0 by {
                    if q < n0.len() {
                        assert(names@[q] == n0[q]);
                        assert(n0[q]@ != xs);
                    }
                }
                assert forall|y: Seq<char>| #[trigger] tally_target(base, h, e2, y) > 0 implies exists|
                    q: int,
                | 0 <= q < names@.len() && (#[trigger] names@[q])@ == y by {
                    if y == xs {
                        assert(names@[n0.len() as int]@ == y);
                    } else {
                        assert(tally_target(base, h, extra, y) > 0);
                        let q = choose|q: int| 0 <= q < n0.len() && (#[trigger] n0[q])@ == y;
                        assert(names@[q] == n0[q]);
                    }
                }
            }
        },
    }
}

/// Every name `h` counts among the counted results, once, with how often
/// it occurs: names and counts side by side, in no particular order.
fn histogram_tally(
    rs: &[PackageResult],
    exs: &[Exclusion],
    ex: &Vec<Option<usize>>,
    h: Histogram,
) -> (r: (Vec<Vec<char>>, Vec<usize>))
    requires
        exclusions_resolved(rs@, exs@, ex@),
        total_names(rs@) <= usize::MAX,
    ensures
        tally_ok(r.0@, r.1@, counted(rs@, exs@), h, Seq::empty()),
{
    let mut names: Vec<Vec<char>> = Vec::new();
    let mut counts: Vec<usize> = Vec::new();
    let mut k: usize = 0;
    proof {
        assert(rs@.take(0) =~= Seq::<PackageResult>::empty());
    }
    while k < rs.len()
        invariant
            k <= rs@.len(),
            exclusions_resolved(rs@, exs@, ex@),
            total_names(rs@) <= usize::MAX,
            tally_ok(names@, counts@, counted(rs@.take(k as int), exs@), h, Seq::empty()),
            forall|i: int|
                0 <= i < counts@.len() ==> #[trigger] counts@[i] <= total_names(
                    rs@.take(k as int),
                ),
        decreases rs@.len() - k,
    {
        let ghost prev = rs@.take(k as int);
        let ghost next = rs@.take(k + 1);
        let ghost base = counted(prev, exs@);
        proof {
            assert(next.drop_last() =~= prev);
            assert(next.last() == rs@[k as int]);
            lemma_total_names_prefix(rs@, k + 1);
        }
        let source = if ex[k].is_none() {
            histogram_source(h, &rs[k].status)
        } else {
            None
        };
        let ghost added: Seq<Seq<char>> = if ex@[k as int] is None {
            histogram_names(h, rs@[k as int].status)
        } else {
            Seq::empty()
        };
        proof {
            if ex@[k as int] is None {
                assert(counted(next, exs@) == base.push(rs@[k as int]));
                assert(counted(next, exs@).drop_last() =~= base);
            } else {
                assert(counted(next, exs@) == base);
            }
            assert forall|x: Seq<char>| #[trigger] tally_target(counted(next, exs@), h, Seq::empty(), x)
                == tally_target(base, h, added, x) by {
                if ex@[k as int] is None {
                    assert(counted(next, exs@).last() == rs@[k as int]);
                } else {
                    assert(count_in(added, x) == 0);
                }
            }
        }
        match source {
            Some(items) => {
                let mut j: usize = 0;
                proof {
                    assert(added.take(0) =~= Seq::<Seq<char>>::empty());
                }
                while j < items.len()
                    invariant
                        j <= items@.len(),
                        names_of(*items) == added,
                        names_of(*items).len() == status_names_len(rs@[k as int].status),
                        total_names(next) == total_names(prev) + status_names_len(rs@[k as int].status),
                        total_names(next) <= usize::MAX,
                        tally_ok(names@, counts@, base, h, added.take(j as int)),
                        forall|i: int|
                            0 <= i < counts@.len() ==> #[trigger] counts@[i] <= total_names(prev)
                                + j,
                    decreases items@.len() - j,
                {
                    let x = chars_of(items[j].as_str());
                    proof {
                        assert(added.take(j + 1) =~= added.take(j as int).push(x@));
                    }
                    tally_add(
                        &mut names,
                        &mut counts,
                        x,
                        Ghost(base),
                        Ghost(h),
                        Ghost(added.take(j as int)),
                        Ghost((total_names(prev) + j) as nat),
                    );
                    j = j + 1;
                }
                proof {
                    assert(added.take(j as int) =~= added);
                }
            },
            None => {
                proof {
                    assert(added =~= Seq::<Seq<char>>::empty());
                    assert(added.take(0) =~= added);
                }
            },
        }
        proof {
            lemma_tally_same(names@, counts@, base, added, counted(next, exs@), Seq::empty(), h);
        }
        k = k + 1;
    }
    proof {
        assert(rs@.take(k as int) =~= rs@);
    }
    (names, counts)
}

/// The characters and count of a row.
pub open spec fn row_view(r: (Vec<char>, usize)) -> (Seq<char>, nat) {
    (r.0@, r.1 as nat)
}

/// The characters and counts of rows.
pub open spec fn rows_view(rows: Seq<(Vec<char>, usize)>) -> Seq<(Seq<char>, nat)> {
    rows.map_values(|r: (Vec<char>, usize)| row_view(r))
}

/// Rows in histogram order.
pub open spec fn rows_sorted(v: Seq<(Seq<char>, nat)>) -> bool {
    forall|i: int, j: int| 0 <= i < j < v.len() ==> row_before(#[trigger] v[i], #[trigger] v[j])
}

/// Whether row `a` goes before row `b`.
fn row_lt(a: &(Vec<char>, usize), b: &(Vec<char>, usize)) -> (r: bool)
    ensures
        r == row_before(row_view(*a), row_view(*b)),
{
    a.1 > b.1 || (a.1 == b.1 && crate::scan::lex_lt(a.0.as_slice(), b.0.as_slice()))
}

/// Insert a row with a new name into rows in histogram order.
fn insert_row(rows: &mut Vec<(Vec<char>, usize)>, x: (Vec<char>, usize))
    requires
        rows_sorted(rows_view(old(rows)@)),
        forall|i: int| 0 <= i < old(rows)@.len() ==> (#[trigger] old(rows)@[i]).0@ != x.0@,
    ensures
        rows_sorted(rows_view(final(rows)@)),
        rows_view(final(rows)@).to_set() == rows_view(old(rows)@).to_set().insert(row_view(x)),
        forall|i: int|
            0 <= i < final(rows)@.len() ==> (exists|j: int|
                0 <= j < old(rows)@.len() && (#[trigger] final(rows)@[i]).0@ == old(rows)@[j].0@)
                || final(rows)@[i].0@ == x.0@,
{
    let ghost s0 = rows_view(rows@);
    let ghost r0 = rows@;
    let ghost xv = row_view(x);
    let mut k: usize = 0;
    loop
        invariant
            k <= rows@.len(),
            rows@ == r0,
            s0 == rows_view(r0),
            xv == row_view(x),
            rows_sorted(s0),
            forall|j: int| 0 <= j < k ==> row_before(#[trigger] s0[j], xv),
        ensures
            k <= rows@.len(),
            forall|j: int| 0 <= j < k ==> row_before(#[trigger] s0[j], xv),
            k < rows@.len() ==> !row_before(s0[k as int], xv),
        decreases rows@.len() - k,
    {
        if k >= rows.len() {
            break;
        }
        assert(s0[k as int] == row_view(rows@[k as int]));
        if !row_lt(&rows[k], &x) {
            break;
        }
        k = k + 1;
    }
    proof {
        if k < s0.len() {
            assert(s0[k as int] == row_view(r0[k as int]));
            assert(s0[k as int].0 != xv.0);
            if s0[k as int].1 == xv.1 {
                lemma_lt_total(s0[k as int].0, xv.0);
            }
            assert(row_before(xv, s0[k as int]));
        }
    }
    rows.insert(k, x);
    proof {
        let s1 = rows_view(rows@);
        assert(s1 =~= s0.insert(k as int, xv));
        assert forall|i: int, j: int| 0 <= i < j < s1.len() implies row_before(
            #[trigger] s1[i],
            #[trigger] s1[j],
        ) by {
            if j < k {
                assert(s1[i] == s0[i] && s1[j] == s0[j]);
            } else if j == k {
                assert(s1[i] == s0[i]);
            } else if i == k {
                assert(s1[j] == s0[j - 1]);
                if j - 1 > k {
                    assert(row_before(s0[k as int], s0[j - 1]));
                    if xv.1 == s0[k as int].1 && s0[k as int].1 == s0[j - 1].1 {
                        lemma_lt_transitive(xv.0, s0[k as int].0, s0[j - 1].0);
                    }
                }
            } else if i < k {
                assert(s1[i] == s0[i] && s1[j] == s0[j - 1]);
            } else {
                assert(s1[i] == s0[i - 1] && s1[j] == s0[j - 1]);
            }
        }
        assert forall|e: (Seq<char>, nat)| #[trigger] s1.to_set().contains(e) == s0.to_set().insert(
            xv,
        ).contains(e) by {
            if s1.contains(e) {
                let i = choose|i: int| 0 <= i < s1.len() && s1[i] == e;
                if i < k {
                    assert(s0[i] == e);
                } else if i > k {
                    assert(s0[i - 1] == e);
                }
            }
            if s0.contains(e) {
                let i = choose|i: int| 0 <= i < s0.len() && s0[i] == e;
                if i < k {
                    assert(s1[i] == e);
                } else {
                    assert(s1[i + 1] == e);
                }
            }
            if e == xv {
                assert(s1[k as int] == e);
            }
        }
        assert(s1.to_set() =~= s0.to_set().insert(xv));
        assert forall|i: int| 0 <= i < rows@.len() implies (exists|j: int|
            0 <= j < r0.len() && (#[trigger] rows@[i]).0@ == r0[j].0@) || rows@[i].0@ == xv.0 by {
            if i < k {
                assert(rows@[i] == r0[i]);
            } else if i > k {
                assert(rows@[i] == r0[i - 1]);
            }
        }
    }
}

/// The rows of histogram `h` over the counted results.
fn histogram_rows(
    rs: &[PackageResult],
    exs: &[Exclusion],
    ex: &Vec<Option<usize>>,
    h: Histogram,
) -> (rows: Vec<(Vec<char>, usize)>)
    requires
        exclusions_resolved(rs@, exs@, ex@),
        total_names(rs@) <= usize::MAX,
    ensures
        histogram_ok(rows_view(rows@), counted(rs@, exs@), h),
{
    let (names, counts) = histogram_tally(rs, exs, ex, h);
    let ghost cs = counted(rs@, exs@);
    let mut rows: Vec<(Vec<char>, usize)> = Vec::new();
    let mut i: usize = 0;
    while i < names.len()
        invariant
            i <= names@.len(),
            tally_ok(names@, counts@, cs, h, Seq::empty()),
            rows_sorted(rows_view(rows@)),
            rows_view(rows@).to_set() == Set::new(
                |e: (Seq<char>, nat)|
                    exists|j: int| 0 <= j < i && e == (names@[j]@, counts@[j] as nat),
            ),
            forall|q: int|
                0 <= q < rows@.len() ==> exists|j: int|
                    0 <= j < i && (#[trigger] rows@[q]).0@ == names@[j]@,
        decreases names@.len() - i,
    {
        let name = crate::scan::slice_of(names[i].as_slice(), 0, names[i].len());
        assert(name@ =~= names@[i as int]@);
        let ghost before = rows_view(rows@).to_set();
        proof {
            assert forall|q: int| 0 <= q < rows@.len() implies (#[trigger] rows@[q]).0@ != name@ by {
                let j = choose|j: int| 0 <= j < i && (#[trigger] rows@[q]).0@ == names@[j]@;
                assert(names@[j]@ != names@[i as int]@);
            }
        }
        let ghost r0 = rows@;
        insert_row(&mut rows, (name, counts[i]));
        proof {
            assert(rows_view(rows@).to_set() =~= Set::new(
                |e: (Seq<char>, nat)|
                    exists|j: int| 0 <= j < i + 1 && e == (names@[j]@, counts@[j] as nat),
            )) by {
                assert forall|e: (Seq<char>, nat)| #[trigger] rows_view(rows@).to_set().contains(e) == (exists|j: int| 0 <= j < i + 1 && e == (names@[j]@, counts@[j] as nat)) by {
                    if rows_view(rows@).to_set().contains(e) && e != (names@[i as int]@, counts@[i as int] as nat) {
                        assert(before.contains(e));
                    }
                    if exists|j: int| 0 <= j < i + 1 && e == (names@[j]@, counts@[j] as nat) {
                        let j = choose|j: int| 0 <= j < i + 1 && e == (names@[j]@, counts@[j] as nat);
                        if j < i {
                            assert(before.contains(e));
                        }
                    }
                }
            }
            assert forall|q: int| 0 <= q < rows@.len() implies exists|j: int|
                0 <= j < i + 1 && (#[trigger] rows@[q]).0@ == names@[j]@ by {
                if rows@[q].0@ != name@ {
                    let j = choose|j: int| 0 <= j < r0.len() && (#[trigger] rows@[q]).0@ == r0[j].0@;
                    let j2 = choose|j2: int| 0 <= j2 < i && (#[trigger] r0[j]).0@ == names@[j2]@;
                    assert(rows@[q].0@ == names@[j2]@);
                } else {
                    assert(rows@[q].0@ == names@[i as int]@);
                }
            }
        }
        i = i + 1;
    }
    proof {
        let v = rows_view(rows@);
        assert forall|x: Seq<char>, n: nat| #[trigger] v.contains((x, n)) <==> (n == occurrences(cs, h, x) && n > 0) by {
            assert(v.contains((x, n)) == v.to_set().contains((x, n)));
            if v.to_set().contains((x, n)) {
                let j = choose|j: int| 0 <= j < i && (x, n) == (names@[j]@, counts@[j] as nat);
                assert(counts@[j] == tally_target(cs, h, Seq::empty(), names@[j]@));
            }
            if n == occurrences(cs, h, x) && n > 0 {
                assert(tally_target(cs, h, Seq::empty(), x) > 0);
                let j = choose|j: int| 0 <= j < names@.len() && (#[trigger] names@[j])@ == x;
                assert(counts@[j] == tally_target(cs, h, Seq::empty(), names@[j]@));
                assert(v.to_set().contains((x, n)));
            }
        }
    }
    rows
}

/// Append a histogram section; nothing when it has no rows.
fn push_histogram(out: &mut Vec<char>, h: Histogram, rows: &Vec<(Vec<char>, usize)>)
    ensures
        final(out)@ == old(out)@ + histogram_text(h, rows_view(rows@)),
{
    if rows.len() == 0 {
        assert(out@ =~= old(out)@ + histogram_text(h, rows_view(rows@)));
        return;
    }
    let (title, column): (&str, &str) = match h {
        Histogram::MissingLibraries => ("Missing libraries — the bundling work queue", "Library"),
        Histogram::ParseErrors => ("Parse errors", "Error"),
        Histogram::LoadErrors => ("Load errors", "Error"),
        Histogram::UnboundIdentifiers => ("Unbound identifiers", "Identifier"),
    };
    push_str(out, "\n## ");
    push_str(out, title);
    push_str(out, "\n\n");
    push_str(out, "| ");
    push_str(out, column);
    push_str(out, " | Packages |\n|---|---|\n");
    let ghost head = out@;
    let ghost v = rows_view(rows@);
    let mut k: usize = 0;
    while k < rows.len()
        invariant
            k <= rows@.len(),
            v == rows_view(rows@),
            out@ == head + histogram_rows_text(h, v.take(k as int)),
        decreases rows@.len() - k,
    {
        let ghost before = out@;
        push_str(out, "| ");
        match h {
            Histogram::MissingLibraries => {
                push_str(out, "(");
                push_chars(out, rows[k].0.as_slice());
                push_str(out, ")");
            },
            Histogram::ParseErrors | Histogram::LoadErrors => {
                push_str(out, "`");
                push_chars(out, rows[k].0.as_slice());
                push_str(out, "`");
            },
            Histogram::UnboundIdentifiers => {
                push_chars(out, rows[k].0.as_slice());
            },
        }
        push_str(out, " | ");
        push_decimal(out, rows[k].1 as u64);
        push_str(out, " |\n");
        proof {
            let next = v.take(k + 1);
            assert(next.drop_last() =~= v.take(k as int));
            assert(next.last() == row_view(rows@[k as int]));
            assert(out@ =~= head + histogram_rows_text(h, next));
        }
        k = k + 1;
    }
    proof {
        assert(v.take(k as int) =~= v);
        assert(out@ =~= old(out)@ + histogram_text(h, v));
    }
}

/// The title, the raw headline number, and, when they apply, the scoped
/// number and the drift warning.
fn report_head(backend: &str, t: &Tally, total: usize) -> (out: Vec<char>)
    ensures
        out@ == header_text(backend@) + headline_text(t.pass as nat, total as nat) + (if t.applied > 0 {
            scoped_text(t.counted_pass as nat, t.counted as nat, t.applied as nat)
        } else {
            Seq::empty()
        }) + (if t.drifted > 0 {
            drift_warning_text(t.drifted as nat)
        } else {
            Seq::empty()
        }),
{
    let mut out: Vec<char> = Vec::new();
    push_str(&mut out, "# Patina third-party compatibility (");
    push_str(&mut out, backend);
    push_str(&mut out, " backend)\n\n");
    let ghost p0 = out@;
    assert(p0 =~= header_text(backend@));
    push_str(&mut out, "**");
    push_decimal(&mut out, t.pass as u64);
    push_str(&mut out, " of ");
    push_decimal(&mut out, total as u64);
    push_str(&mut out, " packages pass.**\n\n");
    let ghost p1 = out@;
    assert(p1 =~= p0 + headline_text(t.pass as nat, total as nat));
    if t.applied > 0 {
        push_str(&mut out, "**");
        push_decimal(&mut out, t.counted_pass as u64);
        push_str(&mut out, " of ");
        push_decimal(&mut out, t.counted as u64);
        push_str(&mut out, " in scope** — ");
        push_decimal(&mut out, t.applied as u64);
        push_str(&mut out, " packages are excluded from the score by `compat/EXCLUSIONS.scm`, each for a reason that is not a measurement of Patina. The raw number above never moves because of that file.\n\n");
        assert(out@ =~= p1 + scoped_text(t.counted_pass as nat, t.counted as nat, t.applied as nat));
    }
    let ghost p2 = out@;
    if t.drifted > 0 {
        push_str(&mut out, "> ⚠️ **");
        push_decimal(&mut out, t.drifted as u64);
        push_str(&mut out, " exclusion(s) no longer match what the package does.** See *Exclusions that have drifted* below — an entry whose reason has stopped being true is due for retirement, not for a new expectation.\n\n");
        assert(out@ =~= p2 + drift_warning_text(t.drifted as nat));
    }
    assert(out@ =~= header_text(backend@) + headline_text(t.pass as nat, total as nat) + (if t.applied > 0 {
            scoped_text(t.counted_pass as nat, t.counted as nat, t.applied as nat)
        } else {
            Seq::empty()
        }) + (if t.drifted > 0 {
            drift_warning_text(t.drifted as nat)
        } else {
            Seq::empty()
        }));
    out
}

/// Render the markdown report.
///
/// `exclusions` never changes what was measured, only which rows the scoped
/// number counts and which reach the work queues; both numbers are printed,
/// the raw one first. `full_corpus` says whether `results` covers every
/// package: only then is an exclusion that matched nothing reported.
pub fn render(
    results: &[PackageResult],
    backend: &str,
    exclusions: &[Exclusion],
    full_corpus: bool,
) -> (r: String)
    requires
        total_names(results@) <= usize::MAX,
    ensures
        exists|hs: Seq<Seq<(Seq<char>, nat)>>|
            #![trigger report_text(results@, backend@, exclusions@, full_corpus, hs)]
            {
                &&& hs.len() == 4
                &&& histogram_ok(hs[0], counted(results@, exclusions@), Histogram::MissingLibraries)
                &&& histogram_ok(hs[1], counted(results@, exclusions@), Histogram::ParseErrors)
                &&& histogram_ok(hs[2], counted(results@, exclusions@), Histogram::LoadErrors)
                &&& histogram_ok(hs[3], counted(results@, exclusions@), Histogram::UnboundIdentifiers)
                &&& r@ == report_text(results@, backend@, exclusions@, full_corpus, hs)
            },
{
    let ex = resolve_exclusions(results, exclusions);
    let t = tally(results, exclusions, &ex);
    let h0 = histogram_rows(results, exclusions, &ex, Histogram::MissingLibraries);
    let h1 = histogram_rows(results, exclusions, &ex, Histogram::ParseErrors);
    let h2 = histogram_rows(results, exclusions, &ex, Histogram::LoadErrors);
    let h3 = histogram_rows(results, exclusions, &ex, Histogram::UnboundIdentifiers);
    let ghost cs = counted(results@, exclusions@);
    let ghost ap = applied(results@, exclusions@);
    let ghost dr = drifted(ap);
    let ghost us = if full_corpus {
        unmatched(exclusions@, results@)
    } else {
        Seq::<Exclusion>::empty()
    };
    let mut out = report_head(backend, &t, results.len());
    let u: Vec<usize> = if full_corpus {
        unmatched_indices(exclusions, results)
    } else {
        Vec::new()
    };
    proof {
        if !full_corpus {
            assert(pick(exclusions@, u@) =~= us);
        }
    }
    let ghost p3 = out@;
    if u.len() > 0 {
        push_unmatched_warning(&mut out, exclusions, &u);
    }
    let ghost p4 = out@;
    assert(p4 =~= p3 + (if us.len() > 0 {
        unmatched_text(us)
    } else {
        Seq::empty()
    }));
    push_status_table(&mut out, results, exclusions, &ex);
    push_histogram(&mut out, Histogram::MissingLibraries, &h0);
    push_histogram(&mut out, Histogram::ParseErrors, &h1);
    push_histogram(&mut out, Histogram::LoadErrors, &h2);
    push_histogram(&mut out, Histogram::UnboundIdentifiers, &h3);
    push_drift_table(&mut out, results, exclusions, &ex, t.drifted > 0);
    push_excluded_section(&mut out, results, exclusions, &ex, t.applied > 0);
    push_matrix(&mut out, results, exclusions, &ex);
    let r = string_from_chars(&out);
    proof {
        let hs = seq![rows_view(h0@), rows_view(h1@), rows_view(h2@), rows_view(h3@)];
        assert(hs[0] == rows_view(h0@));
        assert(hs[1] == rows_view(h1@));
        assert(hs[2] == rows_view(h2@));
        assert(hs[3] == rows_view(h3@));
        assert(r@ == report_text(results@, backend@, exclusions@, full_corpus, hs));
        assert(histogram_ok(hs[0], counted(results@, exclusions@), Histogram::MissingLibraries));
        assert(histogram_ok(hs[1], counted(results@, exclusions@), Histogram::ParseErrors));
        assert(histogram_ok(hs[2], counted(results@, exclusions@), Histogram::LoadErrors));
        assert(histogram_ok(hs[3], counted(results@, exclusions@), Histogram::UnboundIdentifiers));
    }
    r
}

// ---------------------------------------------------------------------------
// Reading the snapshot back
// ---------------------------------------------------------------------------

/// What std's `Debug` formatting writes for an optional string slice:
/// `None`, or `Some(..)` around the string quoted with Rust's escapes.
pub uninterp spec fn debug_text(o: Option<Seq<char>>) -> Seq<char>;

/// Calls std's `Debug` formatting of an optional string slice. The contract
/// only names the result: the text depends on the value alone.
#[verifier::external_body]
fn debug_of(o: Option<&str>) -> (r: String)
    ensures
        r@ == debug_text(
            match o {
                Some(s) => Some(s@),
                None => None,
            },
        ),
{
    format!("{:?}", o)
}

/// A row as read: slug, mode, status key, and the names the status
/// carries.
pub type ResultView = (Seq<char>, Seq<char>, Seq<char>, Seq<Seq<char>>);

/// How a result reads.
pub open spec fn result_view(r: PackageResult) -> ResultView {
    (r.slug@, r.mode@, status_key(r.status), status_names(r.status))
}

/// The strings among `vs`, in order; other values are skipped.
pub open spec fn strings_of(h: &Heap, vs: Seq<TaggedValue>) -> Seq<Seq<char>>
    decreases vs.len(),
{
    if vs.len() == 0 {
        Seq::empty()
    } else {
        strings_of(h, vs.drop_last()) + match string_text(h, vs.last()) {
            Some(s) => seq![s],
            None => Seq::empty(),
        }
    }
}

/// The names of a row: the strings of the first of its `missing`,
/// `unbound` and `errors` clauses, in that order of preference.
pub open spec fn row_names(h: &Heap, fields: Seq<TaggedValue>) -> Seq<Seq<char>> {
    match row_rest(h, fields, "missing"@) {
        Some(r) => strings_of(h, r),
        None => match row_rest(h, fields, "unbound"@) {
            Some(r) => strings_of(h, r),
            None => match row_rest(h, fields, "errors"@) {
                Some(r) => strings_of(h, r),
                None => Seq::empty(),
            },
        },
    }
}

/// Whether the bucket `key` carries names.
pub open spec fn key_has_names(key: Seq<char>) -> bool {
    key == "missing-library"@ || key == "parse-error"@ || key == "load-error"@ || key
        == "unbound-identifier"@ || key == "out-of-scope"@
}

/// What one snapshot row reads as, or why it does not read.
pub open spec fn result_row(h: &Heap, row: TaggedValue) -> Result<ResultView, Seq<char>> {
    if !h.is_proper_list(row) {
        Err("malformed result row"@)
    } else {
        let fields = h.list_items(row);
        match first_string(h, row_rest(h, fields, "slug"@)) {
            None => Err("result row without slug"@),
            Some(slug) => {
                let mode = if first_symbol(h, row_rest(h, fields, "mode"@)) == Some("test"@) {
                    "test"@
                } else {
                    "probe"@
                };
                let st = first_symbol(h, row_rest(h, fields, "status"@));
                match st {
                    Some(k) => if status_keys().contains(k) {
                        Ok(
                            (
                                slug,
                                mode,
                                k,
                                if key_has_names(k) {
                                    row_names(h, fields)
                                } else {
                                    Seq::empty()
                                },
                            ),
                        )
                    } else {
                        Err("unknown status "@ + debug_text(st))
                    },
                    None => Err("unknown status "@ + debug_text(st)),
                }
            },
        }
    }
}

/// The strings among `vs`, in order.
fn strings_in(vs: &Vec<TaggedValue>, heap: &Heap) -> (r: Vec<String>)
    requires
        heap.all_valid(vs@),
    ensures
        names_of(r) == strings_of(heap, vs@),
{
    let mut out: Vec<String> = Vec::new();
    let mut k: usize = 0;
    while k < vs.len()
        invariant
            heap.all_valid(vs@),
            k <= vs@.len(),
            names_of(out) == strings_of(heap, vs@.take(k as int)),
        decreases vs@.len() - k,
    {
        proof {
            assert(heap.valid_value(vs@[k as int]));
            assert(vs@.take(k + 1).drop_last() =~= vs@.take(k as int));
            assert(vs@.take(k + 1).last() == vs@[k as int]);
        }
        let ghost before = out@;
        match string_value(vs[k], heap) {
            Some(s) => {
                out.push(s);
                assert(names_of(out) =~= strings_of(heap, vs@.take(k + 1)));
            },
            None => {
                assert(names_of(out) =~= strings_of(heap, vs@.take(k + 1)));
            },
        }
        k = k + 1;
    }
    proof {
        assert(vs@.take(k as int) =~= vs@);
    }
    out
}

/// The names of a row, as `row_names` reads them.
fn names_in_row(fields: &Vec<TaggedValue>, heap: &Heap) -> (r: Vec<String>)
    requires
        heap.wf(),
        heap.all_valid(fields@),
    ensures
        names_of(r) == row_names(heap, fields@),
{
    match find_clause(fields.as_slice(), "missing", heap) {
        Some(rest) => strings_in(&rest, heap),
        None => match find_clause(fields.as_slice(), "unbound", heap) {
            Some(rest) => strings_in(&rest, heap),
            None => match find_clause(fields.as_slice(), "errors", heap) {
                Some(rest) => strings_in(&rest, heap),
                None => {
                    let v: Vec<String> = Vec::new();
                    assert(names_of(v) =~= Seq::<Seq<char>>::empty());
                    v
                },
            },
        },
    }
}

/// Read one row of a results snapshot.
pub fn parse_result_row(row: TaggedValue, heap: &Heap) -> (r: Result<PackageResult, String>)
    requires
        heap.wf(),
        heap.valid_value(row),
    ensures
        match r {
            Ok(p) => result_row(heap, row) == Ok::<ResultView, Seq<char>>(result_view(p)),
            Err(m) => result_row(heap, row) == Err::<ResultView, Seq<char>>(m@),
        },
{
    let fields = match list_elements(row, heap) {
        Some(f) => f,
        None => return Err(string_from_chars(&chars_of("malformed result row"))),
    };
    let slug = match clause_string(fields.as_slice(), "slug", heap) {
        Some(s) => s,
        None => return Err(string_from_chars(&chars_of("result row without slug"))),
    };
    let mode_symbol = clause_symbol(fields.as_slice(), "mode", heap);
    let mode: &'static str = match &mode_symbol {
        Some(m) => if str_is(m.as_str(), "test") {
            "test"
        } else {
            "probe"
        },
        None => "probe",
    };
    let status_symbol = clause_symbol(fields.as_slice(), "status", heap);
    let key = match &status_symbol {
        Some(k) => k.as_str(),
        None => {
            let mut msg: Vec<char> = Vec::new();
            push_str(&mut msg, "unknown status ");
            let d = debug_of(None);
            push_str(&mut msg, d.as_str());
            return Err(string_from_chars(&msg));
        },
    };
    let names = names_in_row(&fields, heap);
    let status = if str_is(key, "pass") {
        Status::Pass
    } else if str_is(key, "missing-library") {
        Status::MissingLibrary(names)
    } else if str_is(key, "parse-error") {
        Status::ParseError(names)
    } else if str_is(key, "load-error") {
        Status::LoadError(names)
    } else if str_is(key, "unbound-identifier") {
        Status::UnboundIdentifier(names)
    } else if str_is(key, "wrong-result") {
        Status::WrongResult
    } else if str_is(key, "runtime-error") {
        Status::RuntimeError
    } else if str_is(key, "timeout") {
        Status::Timeout
    } else if str_is(key, "out-of-scope") {
        Status::OutOfScope(names)
    } else {
        let mut msg: Vec<char> = Vec::new();
        push_str(&mut msg, "unknown status ");
        let d = debug_of(Some(key));
        push_str(&mut msg, d.as_str());
        return Err(string_from_chars(&msg));
    };
    proof {
        reveal_strlit("pass");
        reveal_strlit("missing-library");
        reveal_strlit("parse-error");
        reveal_strlit("load-error");
        reveal_strlit("unbound-identifier");
        reveal_strlit("wrong-result");
        reveal_strlit("runtime-error");
        reveal_strlit("timeout");
        reveal_strlit("out-of-scope");
        lemma_status_key_listed(status);
        assert(status_key(status) == key@);
        assert("out-of-scope"@[0] != "wrong-result"@[0]);
        if key_has_names(key@) {
            assert(status_names(status) == row_names(heap, fields@));
        } else {
            assert(status_names(status) =~= Seq::<Seq<char>>::empty());
        }
    }
    Ok(PackageResult { slug, mode, status })
}

/// Every status's key is one of the status keys.
proof fn lemma_status_key_listed(s: Status)
    ensures
        status_keys().contains(status_key(s)),
{
    let ks = status_keys();
    match s {
        Status::Pass => assert(ks[0] == status_key(s)),
        Status::MissingLibrary(_) => assert(ks[1] == status_key(s)),
        Status::ParseError(_) => assert(ks[2] == status_key(s)),
        Status::LoadError(_) => assert(ks[3] == status_key(s)),
        Status::UnboundIdentifier(_) => assert(ks[4] == status_key(s)),
        Status::WrongResult => assert(ks[5] == status_key(s)),
        Status::RuntimeError => assert(ks[6] == status_key(s)),
        Status::Timeout => assert(ks[7] == status_key(s)),
        Status::OutOfScope(_) => assert(ks[8] == status_key(s)),
    }
}

/// The backend a snapshot names: the string of its last `backend` section
/// that has one, else `"vm"`.
pub open spec fn backend_of(h: &Heap, sections: Seq<TaggedValue>) -> Seq<char>
    decreases sections.len(),
{
    if sections.len() == 0 {
        "vm"@
    } else {
        match form_rest(h, sections.last(), "backend"@) {
            Some(rest) => if rest.len() > 0 && string_text(h, rest[0]) is Some {
                string_text(h, rest[0])->0
            } else {
                backend_of(h, sections.drop_last())
            },
            None => backend_of(h, sections.drop_last()),
        }
    }
}

/// The rows of a snapshot's `results` sections, in order.
pub open spec fn result_rows_in(h: &Heap, sections: Seq<TaggedValue>) -> Seq<TaggedValue>
    decreases sections.len(),
{
    if sections.len() == 0 {
        Seq::empty()
    } else {
        result_rows_in(h, sections.drop_last()) + if form_rest(
            h,
            sections.last(),
            "backend"@,
        ) is Some {
            Seq::empty()
        } else {
            match form_rest(h, sections.last(), "results"@) {
                Some(rows) => rows,
                None => Seq::empty(),
            }
        }
    }
}

/// The rows read in order, or the first row's message.
pub open spec fn result_rows_read(h: &Heap, rows: Seq<TaggedValue>) -> Result<Seq<ResultView>, Seq<char>>
    decreases rows.len(),
{
    if rows.len() == 0 {
        Ok(Seq::empty())
    } else {
        match result_rows_read(h, rows.drop_last()) {
            Err(m) => Err(m),
            Ok(prev) => match result_row(h, rows.last()) {
                Err(m) => Err(m),
                Ok(r) => Ok(prev.push(r)),
            },
        }
    }
}

/// What a snapshot reads as, given its parsed top-level forms.
pub open spec fn results_read(h: &Heap, forms: Seq<TaggedValue>) -> Result<(Seq<ResultView>, Seq<char>), Seq<char>> {
    let head = "patina-compat-results"@;
    if forms.len() == 0 || form_rest(h, forms[0], head) is None {
        Err(not_a_file_text(head))
    } else {
        let sections = form_rest(h, forms[0], head)->0;
        match result_rows_read(h, result_rows_in(h, sections)) {
            Err(m) => Err(m),
            Ok(rs) => Ok((rs, backend_of(h, sections))),
        }
    }
}

/// Read a results snapshot back, given its parsed top-level forms: the
/// results and the backend they were measured on.
pub fn from_sexp(forms: &[TaggedValue], heap: &Heap) -> (r: Result<(Vec<PackageResult>, String), String>)
    requires
        heap.wf(),
        heap.all_valid(forms@),
    ensures
        match r {
            Ok((rs, backend)) => results_read(heap, forms@) == Ok::<
                (Seq<ResultView>, Seq<char>),
                Seq<char>,
            >((rs@.map_values(|p: PackageResult| result_view(p)), backend@)),
            Err(m) => results_read(heap, forms@) == Err::<(Seq<ResultView>, Seq<char>), Seq<char>>(
                m@,
            ),
        },
{
    let top = if forms.len() > 0 {
        tagged_form(forms[0], "patina-compat-results", heap)
    } else {
        None
    };
    let sections = match top {
        Some(s) => s,
        None => {
            let mut msg: Vec<char> = Vec::new();
            push_str(&mut msg, "not a ");
            push_str(&mut msg, "patina-compat-results");
            push_str(&mut msg, " file");
            proof {
                assert(msg@ =~= not_a_file_text("patina-compat-results"@));
            }
            return Err(string_from_chars(&msg));
        },
    };
    let mut backend = string_from_chars(&chars_of("vm"));
    let mut results: Vec<PackageResult> = Vec::new();
    let mut rows_seen: Ghost<Seq<TaggedValue>> = Ghost(Seq::empty());
    let mut k: usize = 0;
    proof {
        assert(sections@.take(0) =~= Seq::<TaggedValue>::empty());
        assert(results@.map_values(|p: PackageResult| result_view(p)) =~= Seq::<ResultView>::empty());
    }
    while k < sections.len()
        invariant
            heap.wf(),
            heap.all_valid(sections@),
            forms@.len() > 0,
            form_rest(heap, forms@[0], "patina-compat-results"@) == Some(sections@),
            k <= sections@.len(),
            backend@ == backend_of(heap, sections@.take(k as int)),
            rows_seen@ == result_rows_in(heap, sections@.take(k as int)),
            result_rows_read(heap, rows_seen@) == Ok::<Seq<ResultView>, Seq<char>>(
                results@.map_values(|p: PackageResult| result_view(p)),
            ),
        decreases sections@.len() - k,
    {
        let section = sections[k];
        proof {
            assert(heap.valid_value(sections@[k as int]));
            assert(sections@.take(k + 1).drop_last() =~= sections@.take(k as int));
            assert(sections@.take(k + 1).last() == section);
        }
        match tagged_form(section, "backend", heap) {
            Some(rest) => {
                if rest.len() > 0 {
                    match string_value(rest[0], heap) {
                        Some(name) => {
                            backend = name;
                        },
                        None => {},
                    }
                }
                proof {
                    assert(rows_seen@ =~= result_rows_in(heap, sections@.take(k + 1)));
                }
            },
            None => {
                match tagged_form(section, "results", heap) {
                    Some(rows) => {
                        let ghost base = rows_seen@;
                        let mut j: usize = 0;
                        while j < rows.len()
                            invariant
                                heap.wf(),
                                heap.all_valid(rows@),
                                j <= rows@.len(),
                                rows_seen@ == base + rows@.take(j as int),
                                result_rows_read(heap, rows_seen@) == Ok::<Seq<ResultView>, Seq<char>>(
                                    results@.map_values(|p: PackageResult| result_view(p)),
                                ),
                                forms@.len() > 0,
                                form_rest(heap, forms@[0], "patina-compat-results"@) == Some(sections@),
                                k < sections@.len(),
                                base == result_rows_in(heap, sections@.take(k as int)),
                                form_rest(heap, sections@[k as int], "backend"@) is None,
                                form_rest(heap, sections@[k as int], "results"@) == Some(rows@),
                                heap.all_valid(sections@),
                            decreases rows@.len() - j,
                        {
                            proof {
                                assert(heap.valid_value(rows@[j as int]));
                                assert((base + rows@.take(j + 1)).drop_last() =~= base + rows@.take(j as int));
                                assert((base + rows@.take(j + 1)).last() == rows@[j as int]);
                            }
                            match parse_result_row(rows[j], heap) {
                                Ok(p) => {
                                    let ghost before = results@;
                                    results.push(p);
                                    proof {
                                        rows_seen@ = base + rows@.take(j + 1);
                                        assert(results@.map_values(|p: PackageResult| result_view(p))
                                            =~= before.map_values(|p: PackageResult| result_view(p)).push(
                                            result_view(p),
                                        ));
                                    }
                                },
                                Err(m) => {
                                    proof {
                                        let seen = base + rows@.take(j + 1);
                                        assert(result_rows_read(heap, seen) == Err::<Seq<ResultView>, Seq<char>>(m@));
                                        lemma_sections_rows_prefix(heap, sections@, k as int, rows@, j as int + 1);
                                        lemma_rows_read_err_stays(
                                            heap,
                                            result_rows_in(heap, sections@),
                                            seen.len() as int,
                                        );
                                    }
                                    return Err(m);
                                },
                            }
                            j = j + 1;
                        }
                        proof {
                            assert(rows@.take(j as int) =~= rows@);
                            assert(rows_seen@ =~= result_rows_in(heap, sections@.take(k + 1)));
                        }
                    },
                    None => {
                        proof {
                            assert(rows_seen@ =~= result_rows_in(heap, sections@.take(k + 1)));
                        }
                    },
                }
            },
        }
        k = k + 1;
    }
    proof {
        assert(sections@.take(k as int) =~= sections@);
    }
    Ok((results, backend))
}

/// The rows of the first `k` sections, then the first `n` rows of section
/// `k`, are a prefix of all the rows.
proof fn lemma_sections_rows_prefix(
    h: &Heap,
    sections: Seq<TaggedValue>,
    k: int,
    rows: Seq<TaggedValue>,
    n: int,
)
    requires
        0 <= k < sections.len(),
        form_rest(h, sections[k], "backend"@) is None,
        form_rest(h, sections[k], "results"@) == Some(rows),
        0 <= n <= rows.len(),
    ensures
        result_rows_in(h, sections.take(k)) + rows.take(n) == result_rows_in(h, sections).take(
            result_rows_in(h, sections.take(k)).len() + n,
        ),
        result_rows_in(h, sections.take(k)).len() + n <= result_rows_in(h, sections).len(),
{
    let pre = result_rows_in(h, sections.take(k));
    assert(sections.take(k + 1).drop_last() =~= sections.take(k));
    assert(result_rows_in(h, sections.take(k + 1)) == pre + rows);
    lemma_result_rows_in_prefix(h, sections, k + 1);
    let all = result_rows_in(h, sections);
    assert((pre + rows).take(pre.len() + n) =~= pre + rows.take(n));
    assert(all.take((pre.len() + rows.len()) as int) == pre + rows);
    assert(all.take(pre.len() + n) =~= (pre + rows).take(pre.len() + n));
}

/// The rows of a prefix of the sections are a prefix of all the rows.
proof fn lemma_result_rows_in_prefix(h: &Heap, sections: Seq<TaggedValue>, k: int)
    requires
        0 <= k <= sections.len(),
    ensures
        result_rows_in(h, sections).take(result_rows_in(h, sections.take(k)).len() as int)
            == result_rows_in(h, sections.take(k)),
        result_rows_in(h, sections.take(k)).len() <= result_rows_in(h, sections).len(),
    decreases sections.len() - k,
{
    if k == sections.len() {
        assert(sections.take(k) =~= sections);
        assert(result_rows_in(h, sections).take(result_rows_in(h, sections).len() as int)
            =~= result_rows_in(h, sections));
    } else {
        lemma_result_rows_in_prefix(h, sections, k + 1);
        assert(sections.take(k + 1).drop_last() =~= sections.take(k));
        let a = result_rows_in(h, sections.take(k));
        let b = result_rows_in(h, sections.take(k + 1));
        let all = result_rows_in(h, sections);
        assert(b.take(a.len() as int) =~= a);
        assert(all.take(a.len() as int) =~= all.take(b.len() as int).take(a.len() as int));
    }
}

/// Once a prefix of the rows fails, the whole fails the same way.
proof fn lemma_rows_read_err_stays(h: &Heap, rows: Seq<TaggedValue>, n: int)
    requires
        0 < n <= rows.len(),
        result_rows_read(h, rows.take(n)) is Err,
    ensures
        result_rows_read(h, rows) == result_rows_read(h, rows.take(n)),
    decreases rows.len() - n,
{
    if n < rows.len() {
        assert(rows.take(n + 1).drop_last() =~= rows.take(n));
        lemma_rows_read_err_stays(h, rows, n + 1);
    } else {
        assert(rows.take(n) =~= rows);
    }
}


/// An applied exclusion has drifted exactly when its package's bucket is
/// not the one the exclusion expects: every drifted pair differs, and a
/// pair that still produces the expected bucket is not among them.
pub proof fn lemma_drift_is_a_changed_bucket(ap: Seq<(PackageResult, Exclusion)>)
    ensures
        forall|k: int| 0 <= k < drifted(ap).len() ==> status_key((#[trigger] drifted(ap)[k]).0.status)
            != drifted(ap)[k].1.expect@,
        forall|k: int| 0 <= k < ap.len() ==> (drifted(ap).contains(#[trigger] ap[k]) <==> status_key(
            ap[k].0.status,
        ) != ap[k].1.expect@),
    decreases ap.len(),
{
    if ap.len() > 0 {
        let prev = ap.drop_last();
        lemma_drift_is_a_changed_bucket(prev);
        let d = drifted(ap);
        let dp = drifted(prev);
        let last = ap.last();
        assert forall|k: int| 0 <= k < d.len() implies status_key((#[trigger] d[k]).0.status)
            != d[k].1.expect@ by {
            if k < dp.len() {
                assert(d[k] == dp[k]);
            }
        }
        assert forall|k: int| 0 <= k < ap.len() implies (d.contains(#[trigger] ap[k]) <==> status_key(
            ap[k].0.status,
        ) != ap[k].1.expect@) by {
            if d.contains(ap[k]) {
                let w = choose|w: int| 0 <= w < d.len() && d[w] == ap[k];
                assert(status_key(d[w].0.status) != d[w].1.expect@);
            }
            if status_key(ap[k].0.status) != ap[k].1.expect@ {
                if k < prev.len() {
                    assert(prev[k] == ap[k]);
                    assert(dp.contains(prev[k]));
                    let w = choose|w: int| 0 <= w < dp.len() && dp[w] == prev[k];
                    assert(d[w] == dp[w]);
                } else {
                    assert(ap[k] == last);
                    assert(d[dp.len() as int] == last);
                }
            }
        }
    }
}

/// The exclusion a slug finds is one of the list's, and names that slug.
pub proof fn lemma_exclusion_for_names_the_slug(exs: Seq<Exclusion>, slug: Seq<char>)
    ensures
        exclusion_for(exs, slug) matches Some(e) ==> e.slug@ == slug && exs.contains(e),
        exclusion_for(exs, slug) is None ==> forall|k: int| 0 <= k < exs.len() ==> (#[trigger] exs[k]).slug@
            != slug,
    decreases exs.len(),
{
    if exs.len() > 0 {
        let prev = exs.drop_last();
        lemma_exclusion_for_names_the_slug(prev, slug);
        if let Some(e) = exclusion_for(exs, slug) {
            if exs.last().slug@ == slug {
                assert(exs[exs.len() - 1] == e);
            } else {
                let w = choose|w: int| 0 <= w < prev.len() && prev[w] == e;
                assert(exs[w] == e);
            }
        } else {
            assert forall|k: int| 0 <= k < exs.len() implies (#[trigger] exs[k]).slug@ != slug by {
                if k < prev.len() {
                    assert(prev[k] == exs[k]);
                }
            }
        }
    }
}

/// The score counts exactly the results no exclusion names, and every
/// other result is applied with the exclusion that names it; how many
/// pass among all results is how many have the `pass` bucket.
pub proof fn lemma_counted_and_applied_by_name(rs: Seq<PackageResult>, exs: Seq<Exclusion>)
    ensures
        forall|k: int| 0 <= k < counted(rs, exs).len() ==> forall|j: int| 0 <= j < exs.len() ==> (#[trigger] exs[j]).slug@
            != (#[trigger] counted(rs, exs)[k]).slug@,
        forall|k: int| 0 <= k < counted(rs, exs).len() ==> rs.contains(#[trigger] counted(rs, exs)[k]),
        forall|k: int| 0 <= k < applied(rs, exs).len() ==> {
            &&& (#[trigger] applied(rs, exs)[k]).1.slug@ == applied(rs, exs)[k].0.slug@
            &&& exs.contains(applied(rs, exs)[k].1)
            &&& rs.contains(applied(rs, exs)[k].0)
        },
        forall|k: int| 0 <= k < rs.len() ==> (counted(rs, exs).contains(#[trigger] rs[k]) || exists|j: int|
            0 <= j < exs.len() && exs[j].slug@ == rs[k].slug@),
    decreases rs.len(),
{
    if rs.len() > 0 {
        let prev = rs.drop_last();
        lemma_counted_and_applied_by_name(prev, exs);
        let r = rs.last();
        lemma_exclusion_for_names_the_slug(exs, r.slug@);
        let c = counted(rs, exs);
        let cp = counted(prev, exs);
        let a = applied(rs, exs);
        let ap = applied(prev, exs);
        assert forall|k: int| 0 <= k < c.len() implies forall|j: int| 0 <= j < exs.len() ==> (#[trigger] exs[j]).slug@
            != (#[trigger] c[k]).slug@ by {
            if k < cp.len() {
                assert(c[k] == cp[k]);
            }
        }
        assert forall|k: int| 0 <= k < c.len() implies rs.contains(#[trigger] c[k]) by {
            if k < cp.len() {
                assert(c[k] == cp[k]);
                let w = choose|w: int| 0 <= w < prev.len() && prev[w] == cp[k];
                assert(rs[w] == prev[w]);
            } else {
                assert(rs[rs.len() - 1] == r);
            }
        }
        assert forall|k: int| 0 <= k < a.len() implies {
            &&& (#[trigger] a[k]).1.slug@ == a[k].0.slug@
            &&& exs.contains(a[k].1)
            &&& rs.contains(a[k].0)
        } by {
            if k < ap.len() {
                assert(a[k] == ap[k]);
                let w = choose|w: int| 0 <= w < prev.len() && prev[w] == ap[k].0;
                assert(rs[w] == prev[w]);
            } else {
                assert(rs[rs.len() - 1] == r);
            }
        }
        assert forall|k: int| 0 <= k < rs.len() implies (c.contains(#[trigger] rs[k]) || exists|j: int|
            0 <= j < exs.len() && exs[j].slug@ == rs[k].slug@) by {
            if k < prev.len() {
                assert(prev[k] == rs[k]);
                if cp.contains(prev[k]) {
                    let w = choose|w: int| 0 <= w < cp.len() && cp[w] == prev[k];
                    assert(c[w] == cp[w]);
                }
            } else {
                match exclusion_for(exs, r.slug@) {
                    Some(e) => {
                        let w = choose|w: int| 0 <= w < exs.len() && exs[w] == e;
                        assert(exs[w].slug@ == rs[k].slug@);
                    },
                    None => {
                        assert(c[cp.len() as int] == r);
                    },
                }
            }
        }
    }
}

/// The exclusions reported as matching nothing are exactly those of the
/// list whose slug no result has.
pub proof fn lemma_unmatched_are_the_unmeasured(exs: Seq<Exclusion>, rs: Seq<PackageResult>)
    ensures
        forall|k: int| 0 <= k < unmatched(exs, rs).len() ==> exs.contains(#[trigger] unmatched(exs, rs)[k])
            && forall|j: int| 0 <= j < rs.len() ==> (#[trigger] rs[j]).slug@ != unmatched(exs, rs)[k].slug@,
        forall|k: int| 0 <= k < exs.len() ==> ((forall|j: int| 0 <= j < rs.len() ==> (#[trigger] rs[j]).slug@
            != exs[k].slug@) ==> unmatched(exs, rs).contains(#[trigger] exs[k])),
    decreases exs.len(),
{
    if exs.len() > 0 {
        let prev = exs.drop_last();
        lemma_unmatched_are_the_unmeasured(prev, rs);
        let u = unmatched(exs, rs);
        let up = unmatched(prev, rs);
        let e = exs.last();
        assert forall|k: int| 0 <= k < u.len() implies exs.contains(#[trigger] u[k]) && forall|j: int|
            0 <= j < rs.len() ==> (#[trigger] rs[j]).slug@ != u[k].slug@ by {
            if k < up.len() {
                assert(u[k] == up[k]);
                let w = choose|w: int| 0 <= w < prev.len() && prev[w] == up[k];
                assert(exs[w] == prev[w]);
            } else {
                assert(u[k] == e);
                assert(exs[exs.len() - 1] == e);
                assert forall|j: int| 0 <= j < rs.len() implies (#[trigger] rs[j]).slug@ != u[k].slug@ by {
                    if rs[j].slug@ == e.slug@ {
                        assert(measured(rs, e.slug@));
                    }
                }
            }
        }
        assert forall|k: int| 0 <= k < exs.len() implies ((forall|j: int| 0 <= j < rs.len() ==> (#[trigger] rs[j]).slug@
            != exs[k].slug@) ==> u.contains(#[trigger] exs[k])) by {
            if forall|j: int| 0 <= j < rs.len() ==> (#[trigger] rs[j]).slug@ != exs[k].slug@ {
                if k < prev.len() {
                    assert(prev[k] == exs[k]);
                    assert(up.contains(prev[k]));
                    let w = choose|w: int| 0 <= w < up.len() && up[w] == prev[k];
                    assert(u[w] == up[w]);
                } else {
                    assert(!measured(rs, e.slug@));
                    assert(u[up.len() as int] == e);
                }
            }
        }
    }
}
} // verus!
