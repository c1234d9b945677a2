//! Where the report can say "no longer has": only in the warning about
//! exclusions the corpus does not have, so only when the whole corpus was
//! measured and such an exclusion exists. The argument follows the
//! phrase's characters: every text the report joins is free of the phrase,
//! and at every join one side's edge is a character, or a pair of
//! characters, that the phrase does not hold.
use vstd::prelude::*;
use crate::text::{decimal, digit_char};
use crate::compat::report::{
    header_text, headline_text, scoped_text, drift_warning_text, status_rows, status_table,
    Histogram, histogram_title, histogram_column, decorated, histogram_rows_text, histogram_text,
    drift_rows, drift_table, with_reason, excluded_rows, reason_block, reason_blocks,
    excluded_section, scope_of, matrix_rows, matrix_text, report_text, contains_text, counted,
    applied, drifted, unmatched, unmatched_text, count_key, exclusion_for,
    lemma_report_states_its_scores,
};
use crate::compat::exclusions::{Exclusion, Reason, reason_key, reason_heading, all_reasons};
use crate::compat::run::{PackageResult, Status, status_key, status_keys};

verus! {

/// The phrase "no longer has" stands at `i` in `s`.
pub open spec fn phrase_at(s: Seq<char>, i: int) -> bool {
    &&& s[i] == 'n' && s[i + 1] == 'o' && s[i + 2] == ' '
    &&& s[i + 3] == 'l' && s[i + 4] == 'o' && s[i + 5] == 'n' && s[i + 6] == 'g' && s[i + 7] == 'e'
        && s[i + 8] == 'r'
    &&& s[i + 9] == ' ' && s[i + 10] == 'h' && s[i + 11] == 'a' && s[i + 12] == 's'
}

/// `s` does not say "no longer has".
pub open spec fn lacks_phrase(s: Seq<char>) -> bool {
    forall|i: int| 0 <= i && i + 13 <= s.len() ==> !#[trigger] phrase_at(s, i)
}

/// `c` is one of the phrase's characters.
pub open spec fn phrase_char(c: char) -> bool {
    c == 'n' || c == 'o' || c == ' ' || c == 'l' || c == 'g' || c == 'e' || c == 'r' || c == 'h'
        || c == 'a' || c == 's'
}

/// `c` then `d` stand side by side in the phrase.
pub open spec fn phrase_pair(c: char, d: char) -> bool {
    ||| c == 'n' && d == 'o'
    ||| c == 'o' && d == ' '
    ||| c == ' ' && d == 'l'
    ||| c == 'l' && d == 'o'
    ||| c == 'o' && d == 'n'
    ||| c == 'n' && d == 'g'
    ||| c == 'g' && d == 'e'
    ||| c == 'e' && d == 'r'
    ||| c == 'r' && d == ' '
    ||| c == ' ' && d == 'h'
    ||| c == 'h' && d == 'a'
    ||| c == 'a' && d == 's'
}

/// The phrase cannot run from the end of `a` into the start of `b`.
pub open spec fn apart(a: Seq<char>, b: Seq<char>) -> bool {
    ||| a.len() == 0
    ||| b.len() == 0
    ||| !phrase_char(a[a.len() - 1])
    ||| !phrase_char(b[0])
    ||| (b.len() >= 2 && b[0] != 's' && !phrase_pair(b[0], b[1]))
    ||| (a.len() >= 2 && a[a.len() - 1] != 'n' && !phrase_pair(a[a.len() - 2], a[a.len() - 1]))
}

/// Joining two texts that lack the phrase, apart at the seam, makes one
/// that lacks it.
pub proof fn lemma_join(a: Seq<char>, b: Seq<char>)
    requires
        lacks_phrase(a),
        lacks_phrase(b),
        apart(a, b),
    ensures
        lacks_phrase(a + b),
{
    let s = a + b;
    assert forall|i: int| 0 <= i && i + 13 <= s.len() implies !#[trigger] phrase_at(s, i) by {
        if i + 13 <= a.len() {
            assert(!phrase_at(a, i));
        } else if i >= a.len() {
            assert(!phrase_at(b, i - a.len()));
        } else if phrase_at(s, i) {
            let j = a.len() - i;
            assert(s[a.len() - 1] == a[a.len() - 1]);
            assert(s[a.len() as int] == b[0]);
            if b.len() >= 2 {
                assert(s[a.len() + 1int] == b[1]);
            }
            if a.len() >= 2 {
                assert(s[a.len() - 2] == a[a.len() - 2]);
            }
        }
    }
}

/// A text lacking the phrase does not say it.
pub proof fn lemma_lacks_not_contained(s: Seq<char>)
    requires
        lacks_phrase(s),
    ensures
        !crate::compat::report::contains_text(s, "no longer has"@),
{
    reveal_strlit("no longer has");
    let t = "no longer has"@;
    if crate::compat::report::contains_text(s, t) {
        let i = choose|i: int| 0 <= i && i + t.len() <= s.len() && #[trigger] s.subrange(i, i + t.len()) == t;
        assert(s.subrange(i, i + t.len())[0] == s[i + 0]);
        assert(s.subrange(i, i + t.len())[1] == s[i + 1]);
        assert(s.subrange(i, i + t.len())[2] == s[i + 2]);
        assert(s.subrange(i, i + t.len())[3] == s[i + 3]);
        assert(s.subrange(i, i + t.len())[4] == s[i + 4]);
        assert(s.subrange(i, i + t.len())[5] == s[i + 5]);
        assert(s.subrange(i, i + t.len())[6] == s[i + 6]);
        assert(s.subrange(i, i + t.len())[7] == s[i + 7]);
        assert(s.subrange(i, i + t.len())[8] == s[i + 8]);
        assert(s.subrange(i, i + t.len())[9] == s[i + 9]);
        assert(s.subrange(i, i + t.len())[10] == s[i + 10]);
        assert(s.subrange(i, i + t.len())[11] == s[i + 11]);
        assert(s.subrange(i, i + t.len())[12] == s[i + 12]);
        assert(phrase_at(s, i));
    }
}

/// A decimal spelling holds none of the phrase's characters.
pub proof fn lemma_decimal_plain(n: nat)
    ensures
        decimal(n).len() > 0,
        forall|i: int| 0 <= i < decimal(n).len() ==> !phrase_char(#[trigger] decimal(n)[i]),
        lacks_phrase(decimal(n)),
    decreases n,
{
    if n < 10 {
        assert(decimal(n)[0] == digit_char(n));
    } else {
        lemma_decimal_plain(n / 10);
        assert forall|i: int| 0 <= i < decimal(n).len() implies !phrase_char(#[trigger] decimal(n)[i]) by {
            if i < decimal(n / 10).len() {
                assert(decimal(n)[i] == decimal(n / 10)[i]);
            } else {
                assert(decimal(n)[i] == digit_char(n % 10));
            }
        }
    }
    assert forall|i: int| 0 <= i && i + 13 <= decimal(n).len() implies !#[trigger] phrase_at(decimal(n), i) by {
        assert(!phrase_char(decimal(n)[i]));
    }
}


/// Every slug and mode of `rs` lacks the phrase.
pub open spec fn results_lack(rs: Seq<PackageResult>) -> bool {
    forall|k: int| 0 <= k < rs.len() ==> lacks_phrase((#[trigger] rs[k]).slug@) && lacks_phrase(rs[k].mode@)
}

/// Every expected status and note of `exs` lacks the phrase.
pub open spec fn exclusions_lack(exs: Seq<Exclusion>) -> bool {
    forall|k: int| 0 <= k < exs.len() ==> lacks_phrase((#[trigger] exs[k]).expect@) && lacks_phrase(exs[k].note@)
}

/// A result and its exclusion lack the phrase where the report shows them.
pub open spec fn pair_lacks(p: (PackageResult, Exclusion)) -> bool {
    lacks_phrase(p.0.slug@) && lacks_phrase(p.0.mode@) && lacks_phrase(p.1.expect@) && lacks_phrase(p.1.note@)
}

/// Every pair of `ps` lacks the phrase where the report shows it.
pub open spec fn pairs_lack(ps: Seq<(PackageResult, Exclusion)>) -> bool {
    forall|k: int| 0 <= k < ps.len() ==> pair_lacks(#[trigger] ps[k])
}

/// Every name of `rows` lacks the phrase.
pub open spec fn names_lack(rows: Seq<(Seq<char>, nat)>) -> bool {
    forall|k: int| 0 <= k < rows.len() ==> lacks_phrase(#[trigger] rows[k].0)
}

proof fn lemma_exclusion_for_lacks(exs: Seq<Exclusion>, slug: Seq<char>)
    requires
        exclusions_lack(exs),
    ensures
        exclusion_for(exs, slug) matches Some(e) ==> lacks_phrase(e.expect@) && lacks_phrase(e.note@),
    decreases exs.len(),
{
    if exs.len() > 0 {
        let prev = exs.drop_last();
        assert forall|k: int| 0 <= k < prev.len() implies lacks_phrase((#[trigger] prev[k]).expect@)
            && lacks_phrase(prev[k].note@) by {
            assert(prev[k] == exs[k]);
        }
        lemma_exclusion_for_lacks(prev, slug);
        assert(lacks_phrase(exs.last().expect@) && lacks_phrase(exs.last().note@));
    }
}

proof fn lemma_applied_lacks(rs: Seq<PackageResult>, exs: Seq<Exclusion>)
    requires
        results_lack(rs),
        exclusions_lack(exs),
    ensures
        pairs_lack(applied(rs, exs)),
    decreases rs.len(),
{
    if rs.len() > 0 {
        let prev = rs.drop_last();
        assert forall|k: int| 0 <= k < prev.len() implies lacks_phrase((#[trigger] prev[k]).slug@)
            && lacks_phrase(prev[k].mode@) by {
            assert(prev[k] == rs[k]);
        }
        lemma_applied_lacks(prev, exs);
        lemma_exclusion_for_lacks(exs, rs.last().slug@);
        assert(lacks_phrase(rs.last().slug@) && lacks_phrase(rs.last().mode@));
        let ap = applied(rs, exs);
        let pp = applied(prev, exs);
        assert forall|k: int| 0 <= k < ap.len() implies pair_lacks(#[trigger] ap[k]) by {
            if k < pp.len() {
                assert(ap[k] == pp[k]);
            }
        }
    }
}

proof fn lemma_drifted_lacks(ap: Seq<(PackageResult, Exclusion)>)
    requires
        pairs_lack(ap),
    ensures
        pairs_lack(drifted(ap)),
    decreases ap.len(),
{
    if ap.len() > 0 {
        let prev = ap.drop_last();
        assert forall|k: int| 0 <= k < prev.len() implies pair_lacks(#[trigger] prev[k]) by {
            assert(prev[k] == ap[k]);
        }
        lemma_drifted_lacks(prev);
        assert(pair_lacks(ap.last()));
        let d = drifted(ap);
        let dp = drifted(prev);
        assert forall|k: int| 0 <= k < d.len() implies pair_lacks(#[trigger] d[k]) by {
            if k < dp.len() {
                assert(d[k] == dp[k]);
            }
        }
    }
}

proof fn lemma_with_reason_lacks(ap: Seq<(PackageResult, Exclusion)>, reason: Reason)
    requires
        pairs_lack(ap),
    ensures
        pairs_lack(with_reason(ap, reason)),
    decreases ap.len(),
{
    if ap.len() > 0 {
        let prev = ap.drop_last();
        assert forall|k: int| 0 <= k < prev.len() implies pair_lacks(#[trigger] prev[k]) by {
            assert(prev[k] == ap[k]);
        }
        lemma_with_reason_lacks(prev, reason);
        assert(pair_lacks(ap.last()));
        let d = with_reason(ap, reason);
        let dp = with_reason(prev, reason);
        assert forall|k: int| 0 <= k < d.len() implies pair_lacks(#[trigger] d[k]) by {
            if k < dp.len() {
                assert(d[k] == dp[k]);
            }
        }
    }
}

proof fn lemma_header_lacks(backend: Seq<char>)
    requires
        lacks_phrase(backend),
    ensures
        lacks_phrase(header_text(backend)),
        header_text(backend)[0] == '#',
{
    reveal_strlit("# Patina third-party compatibility (");
    reveal_strlit(" backend)\n\n");
    let a = "# Patina third-party compatibility ("@;
    let b = " backend)\n\n"@;
    assert(lacks_phrase(a));
    assert(lacks_phrase(b));
    lemma_join(a, backend);
    lemma_join(a + backend, b);
    assert((a + backend + b)[0] == a[0]);
}

proof fn lemma_headline_lacks(pass: nat, total: nat)
    ensures
        lacks_phrase(headline_text(pass, total)),
        headline_text(pass, total)[0] == '*',
{
    reveal_strlit("**");
    reveal_strlit(" of ");
    reveal_strlit(" packages pass.**\n\n");
    let s1 = "**"@;
    let s2 = " of "@;
    let s3 = " packages pass.**\n\n"@;
    let d1 = decimal(pass);
    let d2 = decimal(total);
    lemma_decimal_plain(pass);
    lemma_decimal_plain(total);
    assert(lacks_phrase(s1) && lacks_phrase(s2) && lacks_phrase(s3));
    assert(!phrase_char(d1[0]) && !phrase_char(d2[0]));
    lemma_join(s1, d1);
    lemma_join(s1 + d1, s2);
    lemma_join(s1 + d1 + s2, d2);
    lemma_join(s1 + d1 + s2 + d2, s3);
    assert((s1 + d1 + s2 + d2 + s3)[0] == s1[0]);
}

proof fn lemma_scoped_lacks(pass: nat, total: nat, excluded: nat)
    ensures
        lacks_phrase(scoped_text(pass, total, excluded)),
        scoped_text(pass, total, excluded)[0] == '*',
{
    reveal_strlit("**");
    reveal_strlit(" of ");
    reveal_strlit(" in scope** — ");
    reveal_strlit(" packages are excluded from the score by `compat/EXCLUSIONS.scm`, each for a reason that is not a measurement of Patina. The raw number above never moves because of that file.\n\n");
    let s1 = "**"@;
    let s2 = " of "@;
    let s3 = " in scope** — "@;
    let s4 = " packages are excluded from the score by `compat/EXCLUSIONS.scm`, each for a reason that is not a measurement of Patina. The raw number above never moves because of that file.\n\n"@;
    let d1 = decimal(pass);
    let d2 = decimal(total);
    let d3 = decimal(excluded);
    lemma_decimal_plain(pass);
    lemma_decimal_plain(total);
    lemma_decimal_plain(excluded);
    assert(lacks_phrase(s1) && lacks_phrase(s2) && lacks_phrase(s3));
    assert(lacks_phrase(s4));
    assert(!phrase_char(d1[0]) && !phrase_char(d2[0]) && !phrase_char(d3[0]));
    assert(!phrase_char(d3[d3.len() - 1]));
    lemma_join(s1, d1);
    lemma_join(s1 + d1, s2);
    lemma_join(s1 + d1 + s2, d2);
    lemma_join(s1 + d1 + s2 + d2, s3);
    lemma_join(s1 + d1 + s2 + d2 + s3, d3);
    lemma_join(s1 + d1 + s2 + d2 + s3 + d3, s4);
    assert((s1 + d1 + s2 + d2 + s3 + d3 + s4)[0] == s1[0]);
}

proof fn lemma_drift_warning_lacks(n: nat)
    ensures
        lacks_phrase(drift_warning_text(n)),
        drift_warning_text(n)[0] == '>',
{
    reveal_strlit("> ⚠️ **");
    reveal_strlit(" exclusion(s) no longer match what the package does.** See *Exclusions that have drifted* below — an entry whose reason has stopped being true is due for retirement, not for a new expectation.\n\n");
    let s1 = "> ⚠️ **"@;
    let s2 = " exclusion(s) no longer match what the package does.** See *Exclusions that have drifted* below — an entry whose reason has stopped being true is due for retirement, not for a new expectation.\n\n"@;
    let d = decimal(n);
    lemma_decimal_plain(n);
    assert(lacks_phrase(s1));
    assert(lacks_phrase(s2));
    assert(!phrase_char(d[0]) && !phrase_char(d[d.len() - 1]));
    lemma_join(s1, d);
    lemma_join(s1 + d, s2);
    assert((s1 + d + s2)[0] == s1[0]);
}

proof fn lemma_status_key_lacks(st: Status)
    ensures
        lacks_phrase(status_key(st)),
{
    reveal_strlit("pass");
    reveal_strlit("missing-library");
    reveal_strlit("parse-error");
    reveal_strlit("load-error");
    reveal_strlit("unbound-identifier");
    reveal_strlit("wrong-result");
    reveal_strlit("runtime-error");
    reveal_strlit("timeout");
    reveal_strlit("out-of-scope");
    assert(lacks_phrase(status_key(st)));
}

proof fn lemma_status_rows_lacks(keys: Seq<Seq<char>>, rs: Seq<PackageResult>, cs: Seq<PackageResult>)
    requires
        forall|k: int| 0 <= k < keys.len() ==> lacks_phrase(#[trigger] keys[k]),
    ensures
        lacks_phrase(status_rows(keys, rs, cs)),
    decreases keys.len(),
{
    if keys.len() > 0 {
        let prev = keys.drop_last();
        assert forall|k: int| 0 <= k < prev.len() implies lacks_phrase(#[trigger] prev[k]) by {
            assert(prev[k] == keys[k]);
        }
        lemma_status_rows_lacks(prev, rs, cs);
        reveal_strlit("| ");
        reveal_strlit(" | ");
        reveal_strlit(" |\n");
        let a = "| "@;
        let b = " | "@;
        let e = " |\n"@;
        assert(lacks_phrase(a) && lacks_phrase(b) && lacks_phrase(e));
        let key = keys.last();
        assert(lacks_phrase(key));
        let d1 = decimal(count_key(rs, key));
        let d2 = decimal(count_key(cs, key));
        lemma_decimal_plain(count_key(rs, key));
        lemma_decimal_plain(count_key(cs, key));
        assert(!phrase_char(d1[0]) && !phrase_char(d2[0]));
        assert(!phrase_char(d1[d1.len() - 1]) && !phrase_char(d2[d2.len() - 1]));
        let p = status_rows(prev, rs, cs);
        lemma_join(p, a);
        let x1 = p + a;
        assert(x1[x1.len() - 1] == ' ' && x1[x1.len() - 2] == '|');
        lemma_join(x1, key);
        lemma_join(x1 + key, b);
        let x3 = x1 + key + b;
        lemma_join(x3, d1);
        lemma_join(x3 + d1, b);
        lemma_join(x3 + d1 + b, d2);
        lemma_join(x3 + d1 + b + d2, e);
    }
}

proof fn lemma_status_table_lacks(rs: Seq<PackageResult>, cs: Seq<PackageResult>)
    ensures
        lacks_phrase(status_table(rs, cs)),
        status_table(rs, cs)[0] == '|',
{
    reveal_strlit("| Status | Packages | In scope |\n|---|---|---|\n");
    reveal_strlit("pass");
    reveal_strlit("missing-library");
    reveal_strlit("parse-error");
    reveal_strlit("load-error");
    reveal_strlit("unbound-identifier");
    reveal_strlit("wrong-result");
    reveal_strlit("runtime-error");
    reveal_strlit("timeout");
    reveal_strlit("out-of-scope");
    let h = "| Status | Packages | In scope |\n|---|---|---|\n"@;
    assert(lacks_phrase(h));
    assert forall|k: int| 0 <= k < status_keys().len() implies lacks_phrase(#[trigger] status_keys()[k]) by {
        assert(lacks_phrase(status_keys()[k]));
    }
    lemma_status_rows_lacks(status_keys(), rs, cs);
    lemma_join(h, status_rows(status_keys(), rs, cs));
    assert((h + status_rows(status_keys(), rs, cs))[0] == h[0]);
}

proof fn lemma_decorated_lacks(h: Histogram, name: Seq<char>)
    requires
        lacks_phrase(name),
    ensures
        lacks_phrase(decorated(h, name)),
        decorated(h, name) == name || (decorated(h, name).len() > 0 && !phrase_char(decorated(h, name)[0])
            && !phrase_char(decorated(h, name)[decorated(h, name).len() - 1])),
{
    reveal_strlit("(");
    reveal_strlit(")");
    reveal_strlit("`");
    let o = "("@;
    let c = ")"@;
    let q = "`"@;
    assert(lacks_phrase(o) && lacks_phrase(c) && lacks_phrase(q));
    match h {
        Histogram::MissingLibraries => {
            lemma_join(o, name);
            lemma_join(o + name, c);
            assert((o + name + c)[0] == '(');
        },
        Histogram::UnboundIdentifiers => {},
        _ => {
            lemma_join(q, name);
            lemma_join(q + name, q);
            assert((q + name + q)[0] == '`');
        },
    }
}

proof fn lemma_histogram_rows_lacks(h: Histogram, rows: Seq<(Seq<char>, nat)>)
    requires
        names_lack(rows),
    ensures
        lacks_phrase(histogram_rows_text(h, rows)),
    decreases rows.len(),
{
    if rows.len() > 0 {
        let prev = rows.drop_last();
        assert forall|k: int| 0 <= k < prev.len() implies lacks_phrase(#[trigger] prev[k].0) by {
            assert(prev[k] == rows[k]);
        }
        lemma_histogram_rows_lacks(h, prev);
        reveal_strlit("| ");
        reveal_strlit(" | ");
        reveal_strlit(" |\n");
        let a = "| "@;
        let b = " | "@;
        let e = " |\n"@;
        assert(lacks_phrase(a) && lacks_phrase(b) && lacks_phrase(e));
        let name = rows.last().0;
        assert(lacks_phrase(name));
        lemma_decorated_lacks(h, name);
        let dn = decorated(h, name);
        let d = decimal(rows.last().1);
        lemma_decimal_plain(rows.last().1);
        assert(!phrase_char(d[0]) && !phrase_char(d[d.len() - 1]));
        let p = histogram_rows_text(h, prev);
        lemma_join(p, a);
        let x1 = p + a;
        assert(x1[x1.len() - 1] == ' ' && x1[x1.len() - 2] == '|');
        lemma_join(x1, dn);
        lemma_join(x1 + dn, b);
        let x3 = x1 + dn + b;
        lemma_join(x3, d);
        lemma_join(x3 + d, e);
    }
}

proof fn lemma_histogram_lacks(h: Histogram, rows: Seq<(Seq<char>, nat)>)
    requires
        names_lack(rows),
    ensures
        lacks_phrase(histogram_text(h, rows)),
        histogram_text(h, rows).len() == 0 || histogram_text(h, rows)[0] == '\n',
{
    if rows.len() > 0 {
        reveal_strlit("\n## ");
        reveal_strlit("\n\n");
        reveal_strlit("| ");
        reveal_strlit(" | Packages |\n|---|---|\n");
        reveal_strlit("Missing libraries — the bundling work queue");
        reveal_strlit("Parse errors");
        reveal_strlit("Load errors");
        reveal_strlit("Unbound identifiers");
        reveal_strlit("Library");
        reveal_strlit("Error");
        reveal_strlit("Identifier");
        let s1 = "\n## "@;
        let t = histogram_title(h);
        let s2 = "\n\n"@;
        let s3 = "| "@;
        let c = histogram_column(h);
        let s4 = " | Packages |\n|---|---|\n"@;
        assert(lacks_phrase(s1) && lacks_phrase(s2) && lacks_phrase(s3) && lacks_phrase(s4));
        assert(lacks_phrase(t) && lacks_phrase(c));
        lemma_join(s1, t);
        lemma_join(s1 + t, s2);
        lemma_join(s1 + t + s2, s3);
        let x3 = s1 + t + s2 + s3;
        assert(x3[x3.len() - 1] == ' ' && x3[x3.len() - 2] == '|');
        lemma_join(x3, c);
        lemma_join(x3 + c, s4);
        let head = x3 + c + s4;
        assert(head[head.len() - 1] == '\n');
        lemma_histogram_rows_lacks(h, rows);
        lemma_join(head, histogram_rows_text(h, rows));
        assert((head + histogram_rows_text(h, rows))[0] == '\n');
    }
}

proof fn lemma_reason_key_lacks(r: Reason)
    ensures
        lacks_phrase(reason_key(r)),
        lacks_phrase(reason_heading(r)),
{
    reveal_strlit("ffi");
    reveal_strlit("dependency-not-vendored");
    reveal_strlit("upstream-source-defect");
    reveal_strlit("upstream-test-defect");
    reveal_strlit("Needs a foreign-function interface");
    reveal_strlit("Dependency not vendored (corpus licence policy)");
    reveal_strlit("Upstream source defect");
    reveal_strlit("Upstream test defect");
    assert(lacks_phrase(reason_key(r)));
    assert(lacks_phrase(reason_heading(r)));
}

/// Append `x` after a text ending in `"| "` or `" | "`, then `" | "`.
proof fn lemma_cell(p: Seq<char>, x: Seq<char>)
    requires
        lacks_phrase(p),
        lacks_phrase(x),
        p.len() >= 2,
        p[p.len() - 1] == ' ',
        p[p.len() - 2] == '|',
    ensures
        lacks_phrase(p + x + " | "@),
        (p + x + " | "@).len() >= 2,
        (p + x + " | "@)[(p + x + " | "@).len() - 1] == ' ',
        (p + x + " | "@)[(p + x + " | "@).len() - 2] == '|',
{
    reveal_strlit(" | ");
    let b = " | "@;
    assert(lacks_phrase(b));
    lemma_join(p, x);
    lemma_join(p + x, b);
}

/// The last cell of a row: `x` after a text ending in `"| "`, then `" |\n"`.
proof fn lemma_last_cell(p: Seq<char>, x: Seq<char>)
    requires
        lacks_phrase(p),
        lacks_phrase(x),
        p.len() >= 2,
        p[p.len() - 1] == ' ',
        p[p.len() - 2] == '|',
    ensures
        lacks_phrase(p + x + " |\n"@),
{
    reveal_strlit(" |\n");
    let e = " |\n"@;
    assert(lacks_phrase(e));
    lemma_join(p, x);
    lemma_join(p + x, e);
}

/// Start a row: `"| "` after a text that lacks the phrase.
proof fn lemma_row_start(p: Seq<char>)
    requires
        lacks_phrase(p),
    ensures
        lacks_phrase(p + "| "@),
        (p + "| "@).len() >= 2,
        (p + "| "@)[(p + "| "@).len() - 1] == ' ',
        (p + "| "@)[(p + "| "@).len() - 2] == '|',
{
    reveal_strlit("| ");
    let a = "| "@;
    assert(lacks_phrase(a));
    lemma_join(p, a);
}

proof fn lemma_drift_rows_lacks(dr: Seq<(PackageResult, Exclusion)>)
    requires
        pairs_lack(dr),
    ensures
        lacks_phrase(drift_rows(dr)),
    decreases dr.len(),
{
    if dr.len() > 0 {
        let prev = dr.drop_last();
        assert forall|k: int| 0 <= k < prev.len() implies pair_lacks(#[trigger] prev[k]) by {
            assert(prev[k] == dr[k]);
        }
        lemma_drift_rows_lacks(prev);
        let (r, e) = dr.last();
        assert(pair_lacks(dr.last()));
        lemma_status_key_lacks(r.status);
        lemma_reason_key_lacks(e.reason);
        let p = drift_rows(prev);
        lemma_row_start(p);
        let x1 = p + "| "@;
        lemma_cell(x1, r.slug@);
        let x2 = x1 + r.slug@ + " | "@;
        lemma_cell(x2, e.expect@);
        let x3 = x2 + e.expect@ + " | "@;
        lemma_cell(x3, status_key(r.status));
        let x4 = x3 + status_key(r.status) + " | "@;
        lemma_cell(x4, reason_key(e.reason));
        let x5 = x4 + reason_key(e.reason) + " | "@;
        lemma_last_cell(x5, e.note@);
    }
}

proof fn lemma_drift_table_lacks(dr: Seq<(PackageResult, Exclusion)>)
    requires
        pairs_lack(dr),
    ensures
        lacks_phrase(drift_table(dr)),
        drift_table(dr).len() == 0 || drift_table(dr)[0] == '\n',
{
    if dr.len() > 0 {
        reveal_strlit("\n## Exclusions that have drifted\n\n");
        reveal_strlit("Each row was excluded on the understanding that it produces the status in *Expected*. It does not any more, so the recorded reason needs re-checking — and if the package now passes, the entry should go.\n\n");
        reveal_strlit("| Package | Expected | Actual | Reason | Note |\n|---|---|---|---|---|\n");
        let s1 = "\n## Exclusions that have drifted\n\n"@;
        let s2 = "Each row was excluded on the understanding that it produces the status in *Expected*. It does not any more, so the recorded reason needs re-checking — and if the package now passes, the entry should go.\n\n"@;
        let s3 = "| Package | Expected | Actual | Reason | Note |\n|---|---|---|---|---|\n"@;
        assert(lacks_phrase(s1));
        assert(lacks_phrase(s2));
        assert(lacks_phrase(s3));
        lemma_join(s1, s2);
        lemma_join(s1 + s2, s3);
        lemma_drift_rows_lacks(dr);
        let head = s1 + s2 + s3;
        assert(head[head.len() - 1] == '\n');
        lemma_join(head, drift_rows(dr));
        assert((head + drift_rows(dr))[0] == '\n');
    }
}

proof fn lemma_excluded_rows_lacks(rows: Seq<(PackageResult, Exclusion)>)
    requires
        pairs_lack(rows),
    ensures
        lacks_phrase(excluded_rows(rows)),
    decreases rows.len(),
{
    if rows.len() > 0 {
        let prev = rows.drop_last();
        assert forall|k: int| 0 <= k < prev.len() implies pair_lacks(#[trigger] prev[k]) by {
            assert(prev[k] == rows[k]);
        }
        lemma_excluded_rows_lacks(prev);
        let (r, e) = rows.last();
        assert(pair_lacks(rows.last()));
        lemma_status_key_lacks(r.status);
        let p = excluded_rows(prev);
        lemma_row_start(p);
        let x1 = p + "| "@;
        lemma_cell(x1, r.slug@);
        let x2 = x1 + r.slug@ + " | "@;
        lemma_cell(x2, status_key(r.status));
        let x3 = x2 + status_key(r.status) + " | "@;
        lemma_last_cell(x3, e.note@);
    }
}

proof fn lemma_reason_block_lacks(ap: Seq<(PackageResult, Exclusion)>, reason: Reason)
    requires
        pairs_lack(ap),
    ensures
        lacks_phrase(reason_block(ap, reason)),
        reason_block(ap, reason).len() == 0 || reason_block(ap, reason)[0] == '\n',
{
    let rows = with_reason(ap, reason);
    if rows.len() > 0 {
        reveal_strlit("\n### ");
        reveal_strlit(" (");
        reveal_strlit(")\n\n");
        reveal_strlit("| Package | Status | Why |\n|---|---|---|\n");
        let s1 = "\n### "@;
        let s2 = " ("@;
        let s3 = ")\n\n"@;
        let s4 = "| Package | Status | Why |\n|---|---|---|\n"@;
        assert(lacks_phrase(s1) && lacks_phrase(s2) && lacks_phrase(s3) && lacks_phrase(s4));
        lemma_reason_key_lacks(reason);
        let hd = reason_heading(reason);
        let d = decimal(rows.len());
        lemma_decimal_plain(rows.len());
        assert(!phrase_char(d[0]) && !phrase_char(d[d.len() - 1]));
        lemma_join(s1, hd);
        lemma_join(s1 + hd, s2);
        lemma_join(s1 + hd + s2, d);
        lemma_join(s1 + hd + s2 + d, s3);
        lemma_join(s1 + hd + s2 + d + s3, s4);
        let head = s1 + hd + s2 + d + s3 + s4;
        lemma_with_reason_lacks(ap, reason);
        lemma_excluded_rows_lacks(rows);
        assert(head[head.len() - 1] == '\n');
        lemma_join(head, excluded_rows(rows));
        assert((head + excluded_rows(rows))[0] == '\n');
    }
}

proof fn lemma_reason_blocks_lacks(ap: Seq<(PackageResult, Exclusion)>, reasons: Seq<Reason>)
    requires
        pairs_lack(ap),
    ensures
        lacks_phrase(reason_blocks(ap, reasons)),
        reason_blocks(ap, reasons).len() == 0 || reason_blocks(ap, reasons)[0] == '\n',
    decreases reasons.len(),
{
    if reasons.len() > 0 {
        lemma_reason_blocks_lacks(ap, reasons.drop_last());
        lemma_reason_block_lacks(ap, reasons.last());
        let p = reason_blocks(ap, reasons.drop_last());
        let b = reason_block(ap, reasons.last());
        lemma_join(p, b);
        if p.len() > 0 {
            assert((p + b)[0] == p[0]);
        } else {
            assert(p + b =~= b);
        }
    }
}

proof fn lemma_excluded_section_lacks(ap: Seq<(PackageResult, Exclusion)>)
    requires
        pairs_lack(ap),
    ensures
        lacks_phrase(excluded_section(ap)),
        excluded_section(ap).len() == 0 || excluded_section(ap)[0] == '\n',
{
    if ap.len() > 0 {
        reveal_strlit("\n## Excluded from the score\n\n");
        reveal_strlit("These packages still run on every pass — exclusion decides whether a result counts, never whether it is measured, and `results.scm` records them exactly as it records everything else.\n");
        let s1 = "\n## Excluded from the score\n\n"@;
        let s2 = "These packages still run on every pass — exclusion decides whether a result counts, never whether it is measured, and `results.scm` records them exactly as it records everything else.\n"@;
        assert(lacks_phrase(s1));
        assert(lacks_phrase(s2));
        lemma_join(s1, s2);
        lemma_reason_blocks_lacks(ap, all_reasons());
        let head = s1 + s2;
        assert(head[head.len() - 1] == '\n');
        lemma_join(head, reason_blocks(ap, all_reasons()));
        assert((head + reason_blocks(ap, all_reasons()))[0] == '\n');
    }
}

proof fn lemma_matrix_rows_lacks(rs: Seq<PackageResult>, exs: Seq<Exclusion>)
    requires
        results_lack(rs),
    ensures
        lacks_phrase(matrix_rows(rs, exs)),
    decreases rs.len(),
{
    if rs.len() > 0 {
        let prev = rs.drop_last();
        assert forall|k: int| 0 <= k < prev.len() implies lacks_phrase((#[trigger] prev[k]).slug@)
            && lacks_phrase(prev[k].mode@) by {
            assert(prev[k] == rs[k]);
        }
        lemma_matrix_rows_lacks(prev, exs);
        let r = rs.last();
        assert(lacks_phrase(r.slug@) && lacks_phrase(r.mode@));
        lemma_status_key_lacks(r.status);
        reveal_strlit("in scope");
        match crate::compat::report::exclusion_for(exs, r.slug@) {
            Some(e) => lemma_reason_key_lacks(e.reason),
            None => {},
        }
        assert(lacks_phrase(scope_of(exs, r)));
        let p = matrix_rows(prev, exs);
        lemma_row_start(p);
        let x1 = p + "| "@;
        lemma_cell(x1, r.slug@);
        let x2 = x1 + r.slug@ + " | "@;
        lemma_cell(x2, r.mode@);
        let x3 = x2 + r.mode@ + " | "@;
        lemma_cell(x3, status_key(r.status));
        let x4 = x3 + status_key(r.status) + " | "@;
        lemma_last_cell(x4, scope_of(exs, r));
    }
}

proof fn lemma_matrix_lacks(rs: Seq<PackageResult>, exs: Seq<Exclusion>)
    requires
        results_lack(rs),
    ensures
        lacks_phrase(matrix_text(rs, exs)),
        matrix_text(rs, exs)[0] == '\n',
{
    reveal_strlit("\n## Per-package matrix\n\n");
    reveal_strlit("| Package | Mode | Status | Scope |\n|---|---|---|---|\n");
    let a = "\n## Per-package matrix\n\n"@;
    let b = "| Package | Mode | Status | Scope |\n|---|---|---|---|\n"@;
    assert(lacks_phrase(a) && lacks_phrase(b));
    lemma_join(a, b);
    lemma_matrix_rows_lacks(rs, exs);
    assert((a + b)[(a + b).len() - 1] == '\n');
    lemma_join(a + b, matrix_rows(rs, exs));
    assert((a + b + matrix_rows(rs, exs))[0] == '\n');
}

/// The unmatched-exclusion warning says "no longer has".
proof fn lemma_unmatched_says_phrase(us: Seq<Exclusion>)
    ensures
        contains_text(unmatched_text(us), "no longer has"@),
{
    reveal_strlit(" exclusion(s) name a package the corpus no longer has:** ");
    reveal_strlit("no longer has");
    let lit = " exclusion(s) name a package the corpus no longer has:** "@;
    let t = "no longer has"@;
    let pre = "> ⚠️ **"@ + decimal(us.len());
    let post = crate::compat::report::slug_list(us)
        + ". An entry that matches nothing excludes nothing, so it is dead weight rather than a silent subtraction — delete it, or fix the slug.\n\n"@;
    let u = unmatched_text(us);
    assert(u =~= pre + lit + post);
    assert((pre + lit + post).subrange(pre.len() as int, (pre.len() + lit.len()) as int) =~= lit);
    assert(contains_text(u, lit));
    assert(lit.subrange(40, 40int + t.len()) =~= t);
    assert(contains_text(lit, t));
    crate::compat::report_scope::lemma_contains_within(u, lit, t);
}

/// The report says "no longer has" exactly when the whole corpus was
/// measured and some exclusion names a package no result has; this holds
/// when no backend name, slug, run mode, expected status, note or
/// histogram name (the status details) says it.
pub proof fn lemma_report_says_no_longer_has_only_when_unmatched(
    rs: Seq<PackageResult>,
    backend: Seq<char>,
    exs: Seq<Exclusion>,
    full_corpus: bool,
    hs: Seq<Seq<(Seq<char>, nat)>>,
)
    requires
        hs.len() == 4,
        lacks_phrase(backend),
        results_lack(rs),
        exclusions_lack(exs),
        forall|j: int| 0 <= j < 4 ==> names_lack(#[trigger] hs[j]),
    ensures
        contains_text(report_text(rs, backend, exs, full_corpus, hs), "no longer has"@) <==> (full_corpus
            && unmatched(exs, rs).len() > 0),
{
    let out = report_text(rs, backend, exs, full_corpus, hs);
    lemma_report_states_its_scores(rs, backend, exs, full_corpus, hs);
    let us = if full_corpus { unmatched(exs, rs) } else { Seq::empty() };
    if full_corpus && unmatched(exs, rs).len() > 0 {
        lemma_unmatched_says_phrase(unmatched(exs, rs));
        crate::compat::report_scope::lemma_contains_within(out, unmatched_text(unmatched(exs, rs)), "no longer has"@);
    } else {
        assert(us.len() == 0);
        let cs = counted(rs, exs);
        let ap = applied(rs, exs);
        let dr = drifted(ap);
        lemma_applied_lacks(rs, exs);
        lemma_drifted_lacks(ap);
        let e: Seq<char> = Seq::empty();
        assert(lacks_phrase(e));
        lemma_header_lacks(backend);
        let hl = headline_text(count_key(rs, "pass"@), rs.len());
        lemma_headline_lacks(count_key(rs, "pass"@), rs.len());
        let x0 = header_text(backend);
        lemma_join(x0, hl);
        let x1 = x0 + hl;
        let sc = if ap.len() > 0 { scoped_text(count_key(cs, "pass"@), cs.len(), ap.len()) } else { Seq::empty() };
        if ap.len() > 0 {
            lemma_scoped_lacks(count_key(cs, "pass"@), cs.len(), ap.len());
        }
        lemma_join(x1, sc);
        let x2 = x1 + sc;
        let dw = if dr.len() > 0 { drift_warning_text(dr.len()) } else { Seq::empty() };
        if dr.len() > 0 {
            lemma_drift_warning_lacks(dr.len());
        }
        lemma_join(x2, dw);
        let x3 = x2 + dw;
        lemma_join(x3, e);
        let x4 = x3 + e;
        let st = status_table(rs, cs);
        lemma_status_table_lacks(rs, cs);
        lemma_join(x4, st);
        let x5 = x4 + st;
        assert(names_lack(hs[0]) && names_lack(hs[1]) && names_lack(hs[2]) && names_lack(hs[3]));
        let h0 = histogram_text(Histogram::MissingLibraries, hs[0]);
        let h1 = histogram_text(Histogram::ParseErrors, hs[1]);
        let h2 = histogram_text(Histogram::LoadErrors, hs[2]);
        let h3 = histogram_text(Histogram::UnboundIdentifiers, hs[3]);
        lemma_histogram_lacks(Histogram::MissingLibraries, hs[0]);
        lemma_histogram_lacks(Histogram::ParseErrors, hs[1]);
        lemma_histogram_lacks(Histogram::LoadErrors, hs[2]);
        lemma_histogram_lacks(Histogram::UnboundIdentifiers, hs[3]);
        lemma_join(x5, h0);
        lemma_join(x5 + h0, h1);
        lemma_join(x5 + h0 + h1, h2);
        lemma_join(x5 + h0 + h1 + h2, h3);
        let x9 = x5 + h0 + h1 + h2 + h3;
        lemma_drift_table_lacks(dr);
        lemma_join(x9, drift_table(dr));
        let x10 = x9 + drift_table(dr);
        lemma_excluded_section_lacks(ap);
        lemma_join(x10, excluded_section(ap));
        let x11 = x10 + excluded_section(ap);
        lemma_matrix_lacks(rs, exs);
        lemma_join(x11, matrix_text(rs, exs));
        assert(out =~= x11 + matrix_text(rs, exs));
        lemma_lacks_not_contained(out);
    }
}
} // verus!
