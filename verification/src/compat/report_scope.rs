//! Where the report can say "in scope**": only in the scoped score, so
//! only when some package is excluded. The argument follows stars: the
//! texts the report is built from hold no two stars side by side, but for
//! the headline and the unmatched-exclusion warning, where no `e` comes
//! before them.
use vstd::prelude::*;
use crate::text::{decimal, digit_char};
use crate::compat::report::{
    header_text, headline_text, slug_list, unmatched_text, status_rows, status_table, Histogram,
    histogram_title, histogram_column, decorated, histogram_rows_text, histogram_text, scope_of,
    matrix_rows, matrix_text, report_text, contains_text, counted, applied, drifted, unmatched,
    scoped_text, count_key, lemma_counted_and_applied, lemma_report_states_its_scores,
};
use crate::compat::exclusions::Exclusion;
use crate::compat::run::{PackageResult, Status, status_key, status_keys};

verus! {

/// Two stars stand side by side at `i` in `s`.
pub open spec fn star_pair(s: Seq<char>, i: int) -> bool {
    s[i] == '*' && s[i + 1] == '*'
}

/// No two stars stand side by side in `s`.
pub open spec fn no_double_star(s: Seq<char>) -> bool {
    forall|i: int| 0 <= i && i + 1 < s.len() ==> !#[trigger] star_pair(s, i)
}

/// `s` holds no star.
pub open spec fn star_free(s: Seq<char>) -> bool {
    forall|i: int| 0 <= i < s.len() ==> #[trigger] s[i] != '*'
}

/// An `e` followed by two stars stands at `i` in `s`.
pub open spec fn e_stars(s: Seq<char>, i: int) -> bool {
    s[i] == 'e' && s[i + 1] == '*' && s[i + 2] == '*'
}

/// No `e` in `s` is followed by two stars.
pub open spec fn no_e_stars(s: Seq<char>) -> bool {
    forall|i: int| 0 <= i && i + 2 < s.len() ==> !#[trigger] e_stars(s, i)
}

/// A text with no star has no two side by side.
pub proof fn lemma_star_free_no_double(s: Seq<char>)
    requires
        star_free(s),
    ensures
        no_double_star(s),
{
    assert forall|i: int| 0 <= i && i + 1 < s.len() implies !#[trigger] star_pair(s, i) by {
        assert(s[i] != '*');
    }
}

/// Two texts with no star make one.
pub proof fn lemma_star_free_join(a: Seq<char>, b: Seq<char>)
    requires
        star_free(a),
        star_free(b),
    ensures
        star_free(a + b),
{
    assert forall|i: int| 0 <= i < (a + b).len() implies #[trigger] (a + b)[i] != '*' by {
        if i < a.len() {
            assert((a + b)[i] == a[i]);
        } else {
            assert((a + b)[i] == b[i - a.len()]);
        }
    }
}

/// Joining two texts with no double star makes none, unless a star ends
/// the first and a star begins the second.
pub proof fn lemma_no_double_join(a: Seq<char>, b: Seq<char>)
    requires
        no_double_star(a),
        no_double_star(b),
        a.len() == 0 || b.len() == 0 || !(a[a.len() - 1] == '*' && b[0] == '*'),
    ensures
        no_double_star(a + b),
{
    let s = a + b;
    assert forall|i: int| 0 <= i && i + 1 < s.len() implies !#[trigger] star_pair(s, i) by {
        if i + 1 < a.len() {
            assert(!star_pair(a, i));
        } else if i >= a.len() {
            assert(!star_pair(b, i - a.len()));
        } else {
            assert(s[i] == a[a.len() - 1]);
            assert(s[i + 1] == b[0]);
        }
    }
}

/// A text with no double star has no `e` before two stars.
pub proof fn lemma_no_double_no_e_stars(s: Seq<char>)
    requires
        no_double_star(s),
    ensures
        no_e_stars(s),
{
    assert forall|i: int| 0 <= i && i + 2 < s.len() implies !#[trigger] e_stars(s, i) by {
        assert(!star_pair(s, i + 1));
    }
}

/// Joining two texts with no `e` before two stars makes none, unless the
/// second begins with a star and the first ends with an `e` or a star.
pub proof fn lemma_no_e_stars_join(a: Seq<char>, b: Seq<char>)
    requires
        no_e_stars(a),
        no_e_stars(b),
        a.len() == 0 || b.len() == 0 || b[0] != '*' || (a[a.len() - 1] != 'e' && a[a.len() - 1] != '*'),
    ensures
        no_e_stars(a + b),
{
    let s = a + b;
    assert forall|i: int| 0 <= i && i + 2 < s.len() implies !#[trigger] e_stars(s, i) by {
        if i + 2 < a.len() {
            assert(!e_stars(a, i));
        } else if i >= a.len() {
            assert(!e_stars(b, i - a.len()));
        } else if i + 1 == a.len() {
            assert(s[i] == a[a.len() - 1]);
            assert(s[i + 1] == b[0]);
        } else {
            assert(s[i + 1] == a[a.len() - 1]);
            assert(s[i + 2] == b[0]);
        }
    }
}

/// A decimal spelling holds no star.
pub proof fn lemma_decimal_star_free(n: nat)
    ensures
        star_free(decimal(n)),
        decimal(n).len() > 0,
    decreases n,
{
    if n < 10 {
        assert(decimal(n)[0] == digit_char(n));
    } else {
        lemma_decimal_star_free(n / 10);
        let d = digit_char(n % 10);
        assert(d != '*');
        assert forall|i: int| 0 <= i < decimal(n).len() implies #[trigger] decimal(n)[i] != '*' by {
            if i < decimal(n / 10).len() {
                assert(decimal(n)[i] == decimal(n / 10)[i]);
            }
        }
    }
}


/// The title line has no double star when the backend's name has none, and
/// ends with a line break.
pub proof fn lemma_header_text(backend: Seq<char>)
    requires
        no_double_star(backend),
    ensures
        no_double_star(header_text(backend)),
        header_text(backend).len() > 0,
        header_text(backend)[header_text(backend).len() - 1] == '\n',
{
    reveal_strlit("# Patina third-party compatibility (");
    reveal_strlit(" backend)\n\n");
    let a = "# Patina third-party compatibility ("@;
    let b = " backend)\n\n"@;
    assert(star_free(a));
    assert(star_free(b));
    lemma_star_free_no_double(a);
    lemma_star_free_no_double(b);
    lemma_no_double_join(a, backend);
    assert(b[0] == ' ');
    lemma_no_double_join(a + backend, b);
    let h = a + backend + b;
    assert(h[h.len() - 1] == b[b.len() - 1]);
}

/// The headline has no `e` before two stars; it begins with a star and
/// ends with a line break.
pub proof fn lemma_headline_text(pass: nat, total: nat)
    ensures
        no_e_stars(headline_text(pass, total)),
        headline_text(pass, total)[0] == '*',
        headline_text(pass, total)[headline_text(pass, total).len() - 1] == '\n',
{
    reveal_strlit("**");
    reveal_strlit(" of ");
    reveal_strlit(" packages pass.**\n\n");
    let s1 = "**"@;
    let s2 = " of "@;
    let s3 = " packages pass.**\n\n"@;
    let d1 = decimal(pass);
    let d2 = decimal(total);
    lemma_decimal_star_free(pass);
    lemma_decimal_star_free(total);
    lemma_star_free_no_double(d1);
    lemma_star_free_no_double(d2);
    lemma_no_double_no_e_stars(d1);
    lemma_no_double_no_e_stars(d2);
    assert(star_free(s2));
    lemma_star_free_no_double(s2);
    lemma_no_double_no_e_stars(s2);
    assert(no_e_stars(s1));
    assert(no_e_stars(s3)) by {
        assert forall|i: int| 0 <= i && i + 2 < s3.len() implies !#[trigger] e_stars(s3, i) by {
        }
    }
    assert(d1[0] != '*');
    assert(d2[0] != '*');
    lemma_no_e_stars_join(s1, d1);
    lemma_no_e_stars_join(s1 + d1, s2);
    lemma_no_e_stars_join(s1 + d1 + s2, d2);
    lemma_no_e_stars_join(s1 + d1 + s2 + d2, s3);
    let h = s1 + d1 + s2 + d2 + s3;
    assert(h[0] == s1[0]);
    assert(h[h.len() - 1] == s3[s3.len() - 1]);
}

/// The list of slugs has no double star when no slug has one; when not
/// empty it begins and ends with a backtick.
pub proof fn lemma_slug_list(us: Seq<Exclusion>)
    requires
        forall|k: int| 0 <= k < us.len() ==> no_double_star(#[trigger] us[k].slug@),
    ensures
        no_double_star(slug_list(us)),
        slug_list(us).len() == 0 || (slug_list(us)[0] == '`' && slug_list(us)[slug_list(us).len() - 1] == '`'),
    decreases us.len(),
{
    reveal_strlit("`");
    reveal_strlit(", `");
    let q = "`"@;
    let c = ", `"@;
    assert(star_free(q));
    assert(star_free(c));
    lemma_star_free_no_double(q);
    lemma_star_free_no_double(c);
    if us.len() == 0 {
    } else if us.len() == 1 {
        let sl = us[0].slug@;
        assert(no_double_star(sl));
        lemma_no_double_join(q, sl);
        lemma_no_double_join(q + sl, q);
        let t = q + sl + q;
        assert(t[0] == '`');
        assert(t[t.len() - 1] == '`');
    } else {
        let prev = us.drop_last();
        assert forall|k: int| 0 <= k < prev.len() implies no_double_star(#[trigger] prev[k].slug@) by {
            assert(prev[k] == us[k]);
        }
        lemma_slug_list(prev);
        let p = slug_list(prev);
        let sl = us.last().slug@;
        assert(no_double_star(sl));
        lemma_no_double_join(p, c);
        lemma_no_double_join(p + c, sl);
        lemma_no_double_join(p + c + sl, q);
        let t = p + c + sl + q;
        if p.len() > 0 {
            assert(t[0] == p[0]);
        } else {
            assert(t[0] == c[0]);
        }
        assert(t[t.len() - 1] == '`');
    }
}

/// The unmatched-exclusion warning has no `e` before two stars when no
/// slug it lists has a double star; it begins with `>` and ends with a
/// line break.
pub proof fn lemma_unmatched_text(us: Seq<Exclusion>)
    requires
        forall|k: int| 0 <= k < us.len() ==> no_double_star(#[trigger] us[k].slug@),
    ensures
        no_e_stars(unmatched_text(us)),
        unmatched_text(us)[0] == '>',
        unmatched_text(us)[unmatched_text(us).len() - 1] == '\n',
{
    reveal_strlit("> ⚠️ **");
    reveal_strlit(" exclusion(s) name a package the corpus no longer has:** ");
    reveal_strlit(". An entry that matches nothing excludes nothing, so it is dead weight rather than a silent subtraction — delete it, or fix the slug.\n\n");
    let s1 = "> ⚠️ **"@;
    let s2 = " exclusion(s) name a package the corpus no longer has:** "@;
    let s3 = ". An entry that matches nothing excludes nothing, so it is dead weight rather than a silent subtraction — delete it, or fix the slug.\n\n"@;
    let d = decimal(us.len());
    let l = slug_list(us);
    lemma_decimal_star_free(us.len());
    lemma_star_free_no_double(d);
    lemma_no_double_no_e_stars(d);
    lemma_slug_list(us);
    lemma_no_double_no_e_stars(l);
    assert(no_e_stars(s1)) by {
        assert forall|i: int| 0 <= i && i + 2 < s1.len() implies !#[trigger] e_stars(s1, i) by {
        }
    }
    assert(no_e_stars(s2)) by {
        assert forall|i: int| 0 <= i && i + 2 < s2.len() implies !#[trigger] e_stars(s2, i) by {
        }
    }
    assert(star_free(s3));
    lemma_star_free_no_double(s3);
    lemma_no_double_no_e_stars(s3);
    assert(d[0] != '*');
    lemma_no_e_stars_join(s1, d);
    lemma_no_e_stars_join(s1 + d, s2);
    lemma_no_e_stars_join(s1 + d + s2, l);
    lemma_no_e_stars_join(s1 + d + s2 + l, s3);
    let t = s1 + d + s2 + l + s3;
    assert(t[0] == s1[0]);
    assert(t[t.len() - 1] == s3[s3.len() - 1]);
}

/// Every status key holds no star.
pub proof fn lemma_status_key_star_free(st: Status)
    ensures
        star_free(status_key(st)),
{
    reveal_strlit("pass");
    reveal_strlit("missing-library");
    reveal_strlit("parse-error");
    reveal_strlit("load-error");
    reveal_strlit("unbound-identifier");
    reveal_strlit("wrong-result");
    reveal_strlit("runtime-error");
    reveal_strlit("timeout");
    reveal_strlit("out-of-scope");
    assert(star_free(status_key(st)));
}

/// Every bucket name of the status table holds no star.
pub proof fn lemma_status_keys_star_free()
    ensures
        forall|k: int| 0 <= k < status_keys().len() ==> star_free(#[trigger] status_keys()[k]),
{
    reveal_strlit("pass");
    reveal_strlit("missing-library");
    reveal_strlit("parse-error");
    reveal_strlit("load-error");
    reveal_strlit("unbound-identifier");
    reveal_strlit("wrong-result");
    reveal_strlit("runtime-error");
    reveal_strlit("timeout");
    reveal_strlit("out-of-scope");
    assert forall|k: int| 0 <= k < status_keys().len() implies star_free(#[trigger] status_keys()[k]) by {
        assert(star_free(status_keys()[k]));
    }
}

/// The rows of the status table hold no star.
proof fn lemma_status_rows(keys: Seq<Seq<char>>, rs: Seq<PackageResult>, cs: Seq<PackageResult>)
    requires
        forall|k: int| 0 <= k < keys.len() ==> star_free(#[trigger] keys[k]),
    ensures
        star_free(status_rows(keys, rs, cs)),
    decreases keys.len(),
{
    if keys.len() > 0 {
        let prev = keys.drop_last();
        assert forall|k: int| 0 <= k < prev.len() implies star_free(#[trigger] prev[k]) by {
            assert(prev[k] == keys[k]);
        }
        lemma_status_rows(prev, rs, cs);
        reveal_strlit("| ");
        reveal_strlit(" | ");
        reveal_strlit(" |\n");
        assert(star_free("| "@));
        assert(star_free(" | "@));
        assert(star_free(" |\n"@));
        assert(star_free(keys.last()));
        let d1 = decimal(crate::compat::report::count_key(rs, keys.last()));
        let d2 = decimal(crate::compat::report::count_key(cs, keys.last()));
        lemma_decimal_star_free(crate::compat::report::count_key(rs, keys.last()));
        lemma_decimal_star_free(crate::compat::report::count_key(cs, keys.last()));
        let p = status_rows(prev, rs, cs);
        lemma_star_free_join(p, "| "@);
        lemma_star_free_join(p + "| "@, keys.last());
        lemma_star_free_join(p + "| "@ + keys.last(), " | "@);
        lemma_star_free_join(p + "| "@ + keys.last() + " | "@, d1);
        lemma_star_free_join(p + "| "@ + keys.last() + " | "@ + d1, " | "@);
        lemma_star_free_join(p + "| "@ + keys.last() + " | "@ + d1 + " | "@, d2);
        lemma_star_free_join(p + "| "@ + keys.last() + " | "@ + d1 + " | "@ + d2, " |\n"@);
    }
}

/// The status table holds no star and begins with `|`.
pub proof fn lemma_status_table(rs: Seq<PackageResult>, cs: Seq<PackageResult>)
    ensures
        star_free(status_table(rs, cs)),
        status_table(rs, cs)[0] == '|',
{
    reveal_strlit("| Status | Packages | In scope |\n|---|---|---|\n");
    let h = "| Status | Packages | In scope |\n|---|---|---|\n"@;
    assert(star_free(h));
    lemma_status_keys_star_free();
    lemma_status_rows(status_keys(), rs, cs);
    lemma_star_free_join(h, status_rows(status_keys(), rs, cs));
    assert((h + status_rows(status_keys(), rs, cs))[0] == h[0]);
}

/// Every name of `rows` is free of double stars.
pub open spec fn rows_plain(rows: Seq<(Seq<char>, nat)>) -> bool {
    forall|k: int| 0 <= k < rows.len() ==> no_double_star(#[trigger] rows[k].0)
}

/// A name as a histogram shows it has no double star when the name has
/// none, and neither begins nor ends with a star unless the name itself
/// stands there.
proof fn lemma_decorated(h: Histogram, name: Seq<char>)
    requires
        no_double_star(name),
    ensures
        no_double_star(decorated(h, name)),
        decorated(h, name) == name || (decorated(h, name).len() > 0 && decorated(h, name)[0] != '*'
            && decorated(h, name)[decorated(h, name).len() - 1] != '*'),
{
    reveal_strlit("(");
    reveal_strlit(")");
    reveal_strlit("`");
    let o = "("@;
    let c = ")"@;
    let q = "`"@;
    assert(star_free(o) && star_free(c) && star_free(q));
    lemma_star_free_no_double(o);
    lemma_star_free_no_double(c);
    lemma_star_free_no_double(q);
    match h {
        Histogram::MissingLibraries => {
            lemma_no_double_join(o, name);
            lemma_no_double_join(o + name, c);
            let t = o + name + c;
            assert(t[0] == '(');
            assert(t[t.len() - 1] == ')');
        },
        Histogram::UnboundIdentifiers => {},
        _ => {
            lemma_no_double_join(q, name);
            lemma_no_double_join(q + name, q);
            let t = q + name + q;
            assert(t[0] == '`');
            assert(t[t.len() - 1] == '`');
        },
    }
}

/// A histogram's rows have no double star when its names have none.
proof fn lemma_histogram_rows(h: Histogram, rows: Seq<(Seq<char>, nat)>)
    requires
        rows_plain(rows),
    ensures
        no_double_star(histogram_rows_text(h, rows)),
    decreases rows.len(),
{
    if rows.len() > 0 {
        let prev = rows.drop_last();
        assert forall|k: int| 0 <= k < prev.len() implies no_double_star(#[trigger] prev[k].0) by {
            assert(prev[k] == rows[k]);
        }
        lemma_histogram_rows(h, prev);
        reveal_strlit("| ");
        reveal_strlit(" | ");
        reveal_strlit(" |\n");
        let a = "| "@;
        let b = " | "@;
        let e = " |\n"@;
        assert(star_free(a) && star_free(b) && star_free(e));
        lemma_star_free_no_double(a);
        lemma_star_free_no_double(b);
        lemma_star_free_no_double(e);
        let name = rows.last().0;
        assert(no_double_star(name));
        lemma_decorated(h, name);
        let dn = decorated(h, name);
        let d = decimal(rows.last().1);
        lemma_decimal_star_free(rows.last().1);
        lemma_star_free_no_double(d);
        let p = histogram_rows_text(h, prev);
        lemma_no_double_join(p, a);
        assert((p + a)[(p + a).len() - 1] == ' ');
        lemma_no_double_join(p + a, dn);
        lemma_no_double_join(p + a + dn, b);
        assert((p + a + dn + b)[(p + a + dn + b).len() - 1] == ' ');
        lemma_no_double_join(p + a + dn + b, d);
        lemma_no_double_join(p + a + dn + b + d, e);
    }
}

/// A histogram section has no double star when its names have none, and
/// when not empty it begins with a line break.
pub proof fn lemma_histogram_text(h: Histogram, rows: Seq<(Seq<char>, nat)>)
    requires
        rows_plain(rows),
    ensures
        no_double_star(histogram_text(h, rows)),
        histogram_text(h, rows).len() == 0 || histogram_text(h, rows)[0] == '\n',
{
    if rows.len() > 0 {
        reveal_strlit("\n## ");
        reveal_strlit("\n\n");
        reveal_strlit("| ");
        reveal_strlit(" | Packages |\n|---|---|\n");
        reveal_strlit("Missing libraries — the bundling work queue");
        reveal_strlit("Parse errors");
        reveal_strlit("Load errors");
        reveal_strlit("Unbound identifiers");
        reveal_strlit("Library");
        reveal_strlit("Error");
        reveal_strlit("Identifier");
        let s1 = "\n## "@;
        let t = histogram_title(h);
        let s2 = "\n\n"@;
        let s3 = "| "@;
        let c = histogram_column(h);
        let s4 = " | Packages |\n|---|---|\n"@;
        assert(star_free(s1) && star_free(s2) && star_free(s3) && star_free(s4));
        assert(star_free(t));
        assert(star_free(c));
        lemma_star_free_join(s1, t);
        lemma_star_free_join(s1 + t, s2);
        lemma_star_free_join(s1 + t + s2, s3);
        lemma_star_free_join(s1 + t + s2 + s3, c);
        lemma_star_free_join(s1 + t + s2 + s3 + c, s4);
        let head = s1 + t + s2 + s3 + c + s4;
        lemma_star_free_no_double(head);
        lemma_histogram_rows(h, rows);
        assert(head[head.len() - 1] == '\n');
        lemma_no_double_join(head, histogram_rows_text(h, rows));
        assert((head + histogram_rows_text(h, rows))[0] == '\n');
    }
}

/// A result's scope column holds no star.
proof fn lemma_scope_of(exs: Seq<Exclusion>, r: PackageResult)
    ensures
        star_free(scope_of(exs, r)),
{
    reveal_strlit("ffi");
    reveal_strlit("dependency-not-vendored");
    reveal_strlit("upstream-source-defect");
    reveal_strlit("upstream-test-defect");
    reveal_strlit("in scope");
    assert(star_free(scope_of(exs, r)));
}

/// Every result's slug and mode are free of double stars.
pub open spec fn results_plain(rs: Seq<PackageResult>) -> bool {
    forall|k: int| 0 <= k < rs.len() ==> no_double_star((#[trigger] rs[k]).slug@) && no_double_star(
        rs[k].mode@,
    )
}

/// The matrix rows have no double star when no slug or mode has one.
proof fn lemma_matrix_rows(rs: Seq<PackageResult>, exs: Seq<Exclusion>)
    requires
        results_plain(rs),
    ensures
        no_double_star(matrix_rows(rs, exs)),
    decreases rs.len(),
{
    if rs.len() > 0 {
        let prev = rs.drop_last();
        assert forall|k: int| 0 <= k < prev.len() implies no_double_star((#[trigger] prev[k]).slug@)
            && no_double_star(prev[k].mode@) by {
            assert(prev[k] == rs[k]);
        }
        lemma_matrix_rows(prev, exs);
        reveal_strlit("| ");
        reveal_strlit(" | ");
        reveal_strlit(" |\n");
        let a = "| "@;
        let b = " | "@;
        let e = " |\n"@;
        assert(star_free(a) && star_free(b) && star_free(e));
        lemma_star_free_no_double(a);
        lemma_star_free_no_double(b);
        lemma_star_free_no_double(e);
        let r = rs.last();
        assert(no_double_star(r.slug@) && no_double_star(r.mode@));
        lemma_status_key_star_free(r.status);
        lemma_star_free_no_double(status_key(r.status));
        lemma_scope_of(exs, r);
        lemma_star_free_no_double(scope_of(exs, r));
        let p = matrix_rows(prev, exs);
        let x1 = p + a;
        lemma_no_double_join(p, a);
        assert(x1[x1.len() - 1] == ' ');
        lemma_no_double_join(x1, r.slug@);
        let x2 = x1 + r.slug@;
        lemma_no_double_join(x2, b);
        let x3 = x2 + b;
        assert(x3[x3.len() - 1] == ' ');
        lemma_no_double_join(x3, r.mode@);
        let x4 = x3 + r.mode@;
        lemma_no_double_join(x4, b);
        let x5 = x4 + b;
        assert(x5[x5.len() - 1] == ' ');
        lemma_no_double_join(x5, status_key(r.status));
        let x6 = x5 + status_key(r.status);
        lemma_no_double_join(x6, b);
        let x7 = x6 + b;
        assert(x7[x7.len() - 1] == ' ');
        lemma_no_double_join(x7, scope_of(exs, r));
        let x8 = x7 + scope_of(exs, r);
        lemma_no_double_join(x8, e);
    }
}

/// The per-package matrix has no double star when no slug or mode has
/// one, and begins with a line break.
pub proof fn lemma_matrix_text(rs: Seq<PackageResult>, exs: Seq<Exclusion>)
    requires
        results_plain(rs),
    ensures
        no_double_star(matrix_text(rs, exs)),
        matrix_text(rs, exs)[0] == '\n',
{
    reveal_strlit("\n## Per-package matrix\n\n");
    reveal_strlit("| Package | Mode | Status | Scope |\n|---|---|---|---|\n");
    let a = "\n## Per-package matrix\n\n"@;
    let b = "| Package | Mode | Status | Scope |\n|---|---|---|---|\n"@;
    assert(star_free(a) && star_free(b));
    lemma_star_free_join(a, b);
    lemma_star_free_no_double(a + b);
    lemma_matrix_rows(rs, exs);
    assert((a + b)[(a + b).len() - 1] == '\n');
    lemma_no_double_join(a + b, matrix_rows(rs, exs));
    assert((a + b + matrix_rows(rs, exs))[0] == '\n');
}

/// The exclusions that match nothing are exclusions of `exs`: their slugs
/// are free of double stars when those of `exs` are.
proof fn lemma_unmatched_plain(exs: Seq<Exclusion>, rs: Seq<PackageResult>)
    requires
        forall|k: int| 0 <= k < exs.len() ==> no_double_star(#[trigger] exs[k].slug@),
    ensures
        forall|k: int| 0 <= k < unmatched(exs, rs).len() ==> no_double_star(
            #[trigger] unmatched(exs, rs)[k].slug@,
        ),
    decreases exs.len(),
{
    if exs.len() > 0 {
        let prev = exs.drop_last();
        assert forall|k: int| 0 <= k < prev.len() implies no_double_star(#[trigger] prev[k].slug@) by {
            assert(prev[k] == exs[k]);
        }
        lemma_unmatched_plain(prev, rs);
        assert(no_double_star(exs.last().slug@));
    }
}

/// A text that holds no `e` before two stars does not say "in scope**".
proof fn lemma_no_e_stars_not_in_scope(s: Seq<char>)
    requires
        no_e_stars(s),
    ensures
        !contains_text(s, "in scope**"@),
{
    reveal_strlit("in scope**");
    let t = "in scope**"@;
    if contains_text(s, t) {
        let i = choose|i: int| 0 <= i && i + t.len() <= s.len() && #[trigger] s.subrange(i, i + t.len()) == t;
        assert(s.subrange(i, i + t.len())[7] == s[i + 7]);
        assert(s.subrange(i, i + t.len())[8] == s[i + 8]);
        assert(s.subrange(i, i + t.len())[9] == s[i + 9]);
        assert(e_stars(s, i + 7));
    }
}

/// A text within a text within `s` is within `s`.
pub proof fn lemma_contains_within(s: Seq<char>, t: Seq<char>, u: Seq<char>)
    requires
        contains_text(s, t),
        contains_text(t, u),
    ensures
        contains_text(s, u),
{
    let i = choose|i: int| 0 <= i && i + t.len() <= s.len() && #[trigger] s.subrange(i, i + t.len()) == t;
    let j = choose|j: int| 0 <= j && j + u.len() <= t.len() && #[trigger] t.subrange(j, j + u.len()) == u;
    assert(s.subrange(i + j, i + j + u.len()) =~= u) by {
        assert forall|k: int| 0 <= k < u.len() implies s.subrange(i + j, i + j + u.len())[k] == u[k] by {
            assert(u[k] == t.subrange(j, j + u.len())[k]);
            assert(t[j + k] == s.subrange(i, i + t.len())[j + k]);
        }
    }
}

/// The scoped score says "in scope**".
proof fn lemma_scoped_text_says_in_scope(pass: nat, total: nat, excluded: nat)
    ensures
        contains_text(scoped_text(pass, total, excluded), "in scope**"@),
{
    reveal_strlit(" in scope** — ");
    reveal_strlit("in scope**");
    let lit = " in scope** — "@;
    let t = "in scope**"@;
    let s = scoped_text(pass, total, excluded);
    let pre = "**"@ + decimal(pass) + " of "@ + decimal(total);
    let post = decimal(excluded)
        + " packages are excluded from the score by `compat/EXCLUSIONS.scm`, each for a reason that is not a measurement of Patina. The raw number above never moves because of that file.\n\n"@;
    assert(s =~= pre + lit + post);
    assert((pre + lit + post).subrange(pre.len() as int, (pre.len() + lit.len()) as int) =~= lit);
    assert(contains_text(s, lit));
    assert(lit.subrange(1, 1int + t.len()) =~= t);
    assert(contains_text(lit, t));
    lemma_contains_within(s, lit, t);
}

/// The report says "in scope**" exactly when some package is excluded
/// from the score, that is when fewer results are counted than were run;
/// and then it gives the scoped score. This holds when no backend name,
/// slug, run mode or histogram name (the status details) holds two stars
/// side by side.
pub proof fn lemma_report_says_in_scope_only_when_excluded(
    rs: Seq<PackageResult>,
    backend: Seq<char>,
    exs: Seq<Exclusion>,
    full_corpus: bool,
    hs: Seq<Seq<(Seq<char>, nat)>>,
)
    requires
        hs.len() == 4,
        no_double_star(backend),
        results_plain(rs),
        forall|k: int| 0 <= k < exs.len() ==> no_double_star(#[trigger] exs[k].slug@),
        forall|j: int| 0 <= j < 4 ==> rows_plain(#[trigger] hs[j]),
    ensures
        contains_text(report_text(rs, backend, exs, full_corpus, hs), "in scope**"@) <==> counted(
            rs,
            exs,
        ).len() < rs.len(),
        counted(rs, exs).len() < rs.len() ==> contains_text(
            report_text(rs, backend, exs, full_corpus, hs),
            scoped_text(
                count_key(counted(rs, exs), "pass"@),
                counted(rs, exs).len(),
                (rs.len() - counted(rs, exs).len()) as nat,
            ),
        ),
{
    let out = report_text(rs, backend, exs, full_corpus, hs);
    let cs = counted(rs, exs);
    let ap = applied(rs, exs);
    lemma_counted_and_applied(rs, exs);
    lemma_report_states_its_scores(rs, backend, exs, full_corpus, hs);
    if cs.len() < rs.len() {
        let sc = scoped_text(count_key(cs, "pass"@), cs.len(), (rs.len() - cs.len()) as nat);
        lemma_scoped_text_says_in_scope(count_key(cs, "pass"@), cs.len(), (rs.len() - cs.len()) as nat);
        lemma_contains_within(out, sc, "in scope**"@);
    } else {
        assert(ap.len() == 0);
        let dr = drifted(ap);
        assert(dr.len() == 0);
        let us = if full_corpus { unmatched(exs, rs) } else { Seq::empty() };
        let x0 = header_text(backend);
        lemma_header_text(backend);
        lemma_no_double_no_e_stars(x0);
        let hl = headline_text(count_key(rs, "pass"@), rs.len());
        lemma_headline_text(count_key(rs, "pass"@), rs.len());
        lemma_no_e_stars_join(x0, hl);
        let x1 = x0 + hl;
        let e: Seq<char> = Seq::empty();
        assert(no_e_stars(e));
        lemma_no_e_stars_join(x1, e);
        let x2 = x1 + e;
        lemma_no_e_stars_join(x2, e);
        let x3 = x2 + e;
        let u = if us.len() > 0 { crate::compat::report::unmatched_text(us) } else { Seq::empty() };
        if us.len() > 0 {
            lemma_unmatched_plain(exs, rs);
            lemma_unmatched_text(us);
        }
        lemma_no_e_stars_join(x3, u);
        let x4 = x3 + u;
        let st = status_table(rs, cs);
        lemma_status_table(rs, cs);
        lemma_star_free_no_double(st);
        lemma_no_double_no_e_stars(st);
        lemma_no_e_stars_join(x4, st);
        let x5 = x4 + st;
        let h0 = histogram_text(Histogram::MissingLibraries, hs[0]);
        let h1 = histogram_text(Histogram::ParseErrors, hs[1]);
        let h2 = histogram_text(Histogram::LoadErrors, hs[2]);
        let h3 = histogram_text(Histogram::UnboundIdentifiers, hs[3]);
        assert(rows_plain(hs[0]) && rows_plain(hs[1]) && rows_plain(hs[2]) && rows_plain(hs[3]));
        lemma_histogram_text(Histogram::MissingLibraries, hs[0]);
        lemma_histogram_text(Histogram::ParseErrors, hs[1]);
        lemma_histogram_text(Histogram::LoadErrors, hs[2]);
        lemma_histogram_text(Histogram::UnboundIdentifiers, hs[3]);
        lemma_no_double_no_e_stars(h0);
        lemma_no_double_no_e_stars(h1);
        lemma_no_double_no_e_stars(h2);
        lemma_no_double_no_e_stars(h3);
        lemma_no_e_stars_join(x5, h0);
        lemma_no_e_stars_join(x5 + h0, h1);
        lemma_no_e_stars_join(x5 + h0 + h1, h2);
        lemma_no_e_stars_join(x5 + h0 + h1 + h2, h3);
        let x9 = x5 + h0 + h1 + h2 + h3;
        lemma_no_e_stars_join(x9, e);
        lemma_no_e_stars_join(x9 + e, e);
        let x11 = x9 + e + e;
        let m = matrix_text(rs, exs);
        lemma_matrix_text(rs, exs);
        lemma_no_double_no_e_stars(m);
        lemma_no_e_stars_join(x11, m);
        assert(out =~= x11 + m);
        lemma_no_e_stars_not_in_scope(out);
    }
}
} // verus!
