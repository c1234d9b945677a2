//! Classifying a package's run from what the interpreter printed.
//!
//! A package runs in one of two modes: `test` runs the test program it
//! ships, whose exit status means nothing (the interpreter runs test files
//! resiliently); `probe` imports every library it provides, in strict mode,
//! so its exit status counts.
use vstd::prelude::*;
use std::path::PathBuf;
use std::time::Duration;
use crate::scan::{
    slice_of,
    lemma_find_last_from,
    views,
    lines,
    lines_of,
    split_once,
    rsplit_once,
    trim_ws,
    trim_quotes,
    occurs_at,
    contains_seq,
    strictly_sorted,
    insert_sorted,
    after_first,
    before_first,
    after_last,
    trim,
    trim_quote_chars,
    words_after,
    collect_words_after,
    contains_chars,
    starts_with,
    find,
    find_from,
    lemma_find_from,
};
use crate::text::{chars_of, chars_eq, push_str, str_is, string_from_chars};

verus! {

/// Classification buckets, in display order.
#[derive(Debug, Clone, PartialEq, Eq)]
pub enum Status {
    Pass,
    /// Imports name libraries that nothing provides.
    MissingLibrary(Vec<String>),
    /// A library or program failed to parse. This outranks unbound
    /// identifiers: a failed load leaves everything downstream unbound.
    ParseError(Vec<String>),
    /// A library parsed but failed while being installed (export
    /// resolution, library-body evaluation), reported with the same prefix
    /// as a parse error.
    LoadError(Vec<String>),
    /// Libraries resolve but an identifier does not.
    UnboundIdentifier(Vec<String>),
    /// Loaded and ran, but its own test suite reports failures.
    WrongResult,
    /// Failed at run time in some other way.
    RuntimeError,
    /// Did not finish in time.
    Timeout,
    /// Everything missing is backed by C upstream: out of reach without an
    /// FFI.
    OutOfScope(Vec<String>),
}

/// The key of each bucket.
pub open spec fn status_key(s: Status) -> Seq<char> {
    match s {
        Status::Pass => "pass"@,
        Status::MissingLibrary(_) => "missing-library"@,
        Status::ParseError(_) => "parse-error"@,
        Status::LoadError(_) => "load-error"@,
        Status::UnboundIdentifier(_) => "unbound-identifier"@,
        Status::WrongResult => "wrong-result"@,
        Status::RuntimeError => "runtime-error"@,
        Status::Timeout => "timeout"@,
        Status::OutOfScope(_) => "out-of-scope"@,
    }
}

/// The characters of each string of `v`.
pub open spec fn names_of(v: Vec<String>) -> Seq<Seq<char>> {
    v@.map_values(|s: String| s@)
}

/// The names a status carries; none for the buckets without names.
pub open spec fn status_names(s: Status) -> Seq<Seq<char>> {
    match s {
        Status::MissingLibrary(v) => names_of(v),
        Status::ParseError(v) => names_of(v),
        Status::LoadError(v) => names_of(v),
        Status::UnboundIdentifier(v) => names_of(v),
        Status::OutOfScope(v) => names_of(v),
        _ => Seq::empty(),
    }
}

/// `s` is the bucket `key` naming exactly `names`, in ascending order.
pub open spec fn status_is(s: Status, key: Seq<char>, names: Set<Seq<char>>) -> bool {
    &&& status_key(s) == key
    &&& strictly_sorted(status_names(s))
    &&& status_names(s).to_set() == names
}

impl Status {
    /// The bucket's key.
    pub fn key(&self) -> (r: &'static str)
        ensures
            r@ == status_key(*self),
    {
        match self {
            Status::Pass => "pass",
            Status::MissingLibrary(_) => "missing-library",
            Status::ParseError(_) => "parse-error",
            Status::LoadError(_) => "load-error",
            Status::UnboundIdentifier(_) => "unbound-identifier",
            Status::WrongResult => "wrong-result",
            Status::RuntimeError => "runtime-error",
            Status::Timeout => "timeout",
            Status::OutOfScope(_) => "out-of-scope",
        }
    }
}

/// Every bucket key, in display order.
pub open spec fn status_keys() -> Seq<Seq<char>> {
    seq![
        "pass"@,
        "missing-library"@,
        "parse-error"@,
        "load-error"@,
        "unbound-identifier"@,
        "wrong-result"@,
        "runtime-error"@,
        "timeout"@,
        "out-of-scope"@,
    ]
}

/// Every bucket key, in display order.
pub fn status_key_list() -> (r: Vec<&'static str>)
    ensures
        r@.map_values(|k: &'static str| k@) == status_keys(),
{
    let r = vec![
        "pass",
        "missing-library",
        "parse-error",
        "load-error",
        "unbound-identifier",
        "wrong-result",
        "runtime-error",
        "timeout",
        "out-of-scope",
    ];
    assert(r@.map_values(|k: &'static str| k@) =~= status_keys());
    r
}

/// One package's outcome.
#[derive(Debug)]
pub struct PackageResult {
    pub slug: String,
    /// `"test"` or `"probe"`.
    pub mode: &'static str,
    pub status: Status,
}

/// What a run printed, and how it ended.
#[derive(Debug, Clone)]
pub struct Captured {
    pub stdout: String,
    pub stderr: String,
    pub exit_ok: bool,
    pub timed_out: bool,
}

// ---------------------------------------------------------------------------
// What a line reports
// ---------------------------------------------------------------------------

/// The characters of an optional character vector.
pub open spec fn opt_view(o: Option<Vec<char>>) -> Option<Seq<char>> {
    match o {
        Some(v) => Some(v@),
        None => None,
    }
}

/// The library a "Library (<name>) not found" line names.
pub open spec fn missing_library_in(line: Seq<char>) -> Option<Seq<char>> {
    match split_once(line, "Library ("@) {
        Some(p) => match split_once(p.1, ") not found"@) {
            Some(q) => Some(q.0),
            None => None,
        },
        None => None,
    }
}

/// The detail of a loader's "Parse error in <path>: <detail>" line.
pub open spec fn loader_detail(line: Seq<char>) -> Option<Seq<char>> {
    match split_once(line, "Parse error in "@) {
        Some(p) => match rsplit_once(p.1, ": "@) {
            Some(q) => Some(trim_ws(q.1)),
            None => None,
        },
        None => None,
    }
}

/// The detail of an include's "parse error in '<path>': <detail>" line.
pub open spec fn include_detail(line: Seq<char>) -> Option<Seq<char>> {
    match split_once(line, "parse error in '"@) {
        Some(p) => match split_once(p.1, "': "@) {
            Some(q) => Some(trim_ws(q.1)),
            None => None,
        },
        None => None,
    }
}

/// The parse-error detail a line reports, in either wording.
pub open spec fn parse_error_in(line: Seq<char>) -> Option<Seq<char>> {
    match loader_detail(line) {
        Some(d) => Some(d),
        None => include_detail(line),
    }
}

/// The FFI stub a line reports reaching, if it names one.
pub open spec fn ffi_stub_in(line: Seq<char>) -> Option<Seq<char>> {
    match split_once(line, "requires FFI, unavailable in Patina:"@) {
        Some(p) => {
            let name = trim_quotes(trim_ws(p.1));
            if name.len() > 0 {
                Some(name)
            } else {
                None
            }
        },
        None => None,
    }
}

/// What classification looks for in a line.
#[derive(Debug, Clone, Copy, PartialEq, Eq, Structural)]
pub enum LineProbe {
    MissingLibrary,
    ParseError,
    FfiStub,
}

/// What a line reports for `probe`.
pub open spec fn probe_line(probe: LineProbe, line: Seq<char>) -> Option<Seq<char>> {
    match probe {
        LineProbe::MissingLibrary => missing_library_in(line),
        LineProbe::ParseError => parse_error_in(line),
        LineProbe::FfiStub => ffi_stub_in(line),
    }
}

/// Everything the lines `ls` report for `probe`.
pub open spec fn probed(probe: LineProbe, ls: Seq<Seq<char>>) -> Set<Seq<char>> {
    Set::new(|x: Seq<char>| exists|k: int| 0 <= k < ls.len() && probe_line(probe, ls[k]) == Some(x))
}

/// The library a "Library (<name>) not found" line names.
pub fn missing_library_of(line: &[char]) -> (r: Option<Vec<char>>)
    ensures
        opt_view(r) == missing_library_in(line@),
{
    let marker = chars_of("Library (");
    match after_first(line, marker.as_slice()) {
        Some(rest) => {
            let end = chars_of(") not found");
            before_first(rest.as_slice(), end.as_slice())
        },
        None => None,
    }
}

/// The parse-error detail a line reports, in either wording.
pub fn parse_error_of(line: &[char]) -> (r: Option<Vec<char>>)
    ensures
        opt_view(r) == parse_error_in(line@),
{
    let loader = chars_of("Parse error in ");
    let from_loader = match after_first(line, loader.as_slice()) {
        Some(rest) => {
            let sep = chars_of(": ");
            match after_last(rest.as_slice(), sep.as_slice()) {
                Some(detail) => Some(trim(detail.as_slice())),
                None => None,
            }
        },
        None => None,
    };
    if from_loader.is_some() {
        return from_loader;
    }
    let inc_marker = chars_of("parse error in '");
    match after_first(line, inc_marker.as_slice()) {
        Some(rest) => {
            let sep = chars_of("': ");
            match after_first(rest.as_slice(), sep.as_slice()) {
                Some(detail) => Some(trim(detail.as_slice())),
                None => None,
            }
        },
        None => None,
    }
}

/// The FFI stub a line reports reaching, if it names one.
pub fn ffi_stub_of(line: &[char]) -> (r: Option<Vec<char>>)
    ensures
        opt_view(r) == ffi_stub_in(line@),
{
    let marker = chars_of("requires FFI, unavailable in Patina:");
    match after_first(line, marker.as_slice()) {
        Some(rest) => {
            let trimmed = trim(rest.as_slice());
            let name = trim_quote_chars(trimmed.as_slice());
            if name.len() > 0 {
                Some(name)
            } else {
                None
            }
        },
        None => None,
    }
}

/// What a line reports for `probe`.
pub fn probe_of(probe: LineProbe, line: &[char]) -> (r: Option<Vec<char>>)
    ensures
        opt_view(r) == probe_line(probe, line@),
{
    match probe {
        LineProbe::MissingLibrary => missing_library_of(line),
        LineProbe::ParseError => parse_error_of(line),
        LineProbe::FfiStub => ffi_stub_of(line),
    }
}

/// Add to the ascending set `out` everything the lines `ls` report for
/// `probe`.
pub fn collect_probed(probe: LineProbe, ls: &Vec<Vec<char>>, out: &mut Vec<Vec<char>>)
    requires
        strictly_sorted(views(old(out)@)),
    ensures
        strictly_sorted(views(final(out)@)),
        views(final(out)@).to_set() == views(old(out)@).to_set().union(probed(probe, views(ls@))),
{
    let ghost all = views(ls@);
    let ghost start = views(out@).to_set();
    let mut k: usize = 0;
    while k < ls.len()
        invariant
            k <= ls@.len(),
            all == views(ls@),
            strictly_sorted(views(out@)),
            views(out@).to_set() == start.union(probed(probe, all.take(k as int))),
        decreases ls@.len() - k,
    {
        let found = probe_of(probe, ls[k].as_slice());
        let ghost before = views(out@).to_set();
        match found {
            Some(x) => {
                insert_sorted(out, x);
            },
            None => {},
        }
        proof {
            let prev = all.take(k as int);
            let next = all.take(k + 1);
            assert(next =~= prev.push(all[k as int]));
            assert(all[k as int] == ls@[k as int]@);
            assert forall|x: Seq<char>| #[trigger] probed(probe, next).contains(x) == (probed(
                probe,
                prev,
            ).contains(x) || probe_line(probe, all[k as int]) == Some(x)) by {
                if probed(probe, next).contains(x) {
                    let j = choose|j: int|
                        0 <= j < next.len() && probe_line(probe, next[j]) == Some(x);
                    if j < k {
                        assert(prev[j] == next[j]);
                    }
                }
                if probed(probe, prev).contains(x) {
                    let j = choose|j: int|
                        0 <= j < prev.len() && probe_line(probe, prev[j]) == Some(x);
                    assert(next[j] == prev[j]);
                }
                if probe_line(probe, all[k as int]) == Some(x) {
                    assert(next[k as int] == all[k as int]);
                }
            }
            assert(views(out@).to_set() =~= start.union(probed(probe, next)));
        }
        k = k + 1;
    }
    proof {
        assert(all.take(k as int) =~= all);
    }
}

// ---------------------------------------------------------------------------
// Test-suite summaries, FFI-bound libraries, error kinds
// ---------------------------------------------------------------------------

/// Whether `c` is an ASCII digit.
pub open spec fn is_ascii_digit(c: char) -> bool {
    48 <= (c as int) <= 57
}

/// Whether `kw` occurs somewhere right after an ASCII digit.
pub open spec fn digit_before(s: Seq<char>, kw: Seq<char>) -> bool {
    exists|i: int| #[trigger] occurs_at(s, kw, i) && i > 0 && is_ascii_digit(s[i - 1])
}

/// Whether a test run's output reports failures: a "FAIL" line, or a
/// summary count such as "3 failures" or "1 error".
pub open spec fn suite_failed(stdout: Seq<char>) -> bool {
    contains_seq(stdout, "FAIL"@) || digit_before(stdout, " failure"@) || digit_before(
        stdout,
        " error"@,
    )
}

/// Whether `kw` occurs somewhere right after an ASCII digit.
fn digit_before_any(s: &[char], kw: &[char]) -> (r: bool)
    requires
        kw@.len() > 0,
    ensures
        r == digit_before(s@, kw@),
{
    let mut pos: usize = 0;
    loop
        invariant
            kw@.len() > 0,
            pos <= s@.len() + 1,
            s@.len() == s.len(),
            forall|j: int|
                0 <= j < pos && #[trigger] occurs_at(s@, kw@, j) ==> !(j > 0 && is_ascii_digit(
                    s@[j - 1],
                )),
        decreases s@.len() + 1 - pos,
    {
        proof {
            lemma_find_from(s@, kw@, pos as int);
        }
        match find(s, kw, pos) {
            None => {
                return false;
            },
            Some(i) => {
                if i > 0 && s[i - 1] >= '0' && s[i - 1] <= '9' {
                    return true;
                }
                pos = i + 1;
            },
        }
    }
}

/// Whether a test run's output reports failures.
pub fn test_suite_failed(stdout: &str) -> (r: bool)
    ensures
        r == suite_failed(stdout@),
{
    proof {
        reveal_strlit(" failure");
        reveal_strlit(" error");
    }
    let text = chars_of(stdout);
    let fail = chars_of("FAIL");
    if contains_chars(text.as_slice(), fail.as_slice()) {
        return true;
    }
    let failure = chars_of(" failure");
    if digit_before_any(text.as_slice(), failure.as_slice()) {
        return true;
    }
    let error = chars_of(" error");
    digit_before_any(text.as_slice(), error.as_slice())
}

/// Libraries backed by C upstream: a package whose only missing imports are
/// these cannot pass without an FFI.
pub open spec fn ffi_bound(lib: Seq<char>) -> bool {
    ||| lib == "chibi ast"@
    ||| lib == "chibi disasm"@
    ||| lib == "chibi emscripten"@
    ||| lib == "chibi filesystem"@
    ||| lib == "chibi heap-stats"@
    ||| lib == "chibi net"@
    ||| lib == "chibi process"@
    ||| lib == "chibi stty"@
    ||| lib == "chibi system"@
    ||| lib == "chibi threads"@
    ||| lib == "chibi time"@
    ||| lib == "chibi weak"@
    ||| lib == "srfi 18"@
}

/// Whether `lib` is backed by C upstream.
pub fn is_ffi_bound(lib: &[char]) -> (r: bool)
    ensures
        r == ffi_bound(lib@),
{
    let names = [
        "chibi ast",
        "chibi disasm",
        "chibi emscripten",
        "chibi filesystem",
        "chibi heap-stats",
        "chibi net",
        "chibi process",
        "chibi stty",
        "chibi system",
        "chibi threads",
        "chibi time",
        "chibi weak",
        "srfi 18",
    ];
    let mut k: usize = 0;
    while k < 13
        invariant
            k <= 13,
            names@ == seq![
                "chibi ast",
                "chibi disasm",
                "chibi emscripten",
                "chibi filesystem",
                "chibi heap-stats",
                "chibi net",
                "chibi process",
                "chibi stty",
                "chibi system",
                "chibi threads",
                "chibi time",
                "chibi weak",
                "srfi 18",
            ],
            forall|j: int| 0 <= j < k ==> lib@ != (#[trigger] names@[j])@,
        decreases 13 - k,
    {
        let name = chars_of(names[k]);
        if chars_eq(lib, name.as_slice()) {
            return true;
        }
        k = k + 1;
    }
    proof {
        assert forall|j: int| 0 <= j < 13 implies lib@ != (#[trigger] names@[j])@ by {}
        assert(lib@ != names@[0]@);
        assert(lib@ != names@[1]@);
        assert(lib@ != names@[2]@);
        assert(lib@ != names@[3]@);
        assert(lib@ != names@[4]@);
        assert(lib@ != names@[5]@);
        assert(lib@ != names@[6]@);
        assert(lib@ != names@[7]@);
        assert(lib@ != names@[8]@);
        assert(lib@ != names@[9]@);
        assert(lib@ != names@[10]@);
        assert(lib@ != names@[11]@);
        assert(lib@ != names@[12]@);
    }
    false
}

/// Whether a parse-error detail is really a load-stage failure (export
/// resolution, library-body evaluation) reported with the same prefix.
pub open spec fn is_load_detail(d: Seq<char>) -> bool {
    occurs_at(d, "Exported identifier"@, 0) || contains_seq(d, "evaluating library body"@)
}

/// Whether a parse-error detail is really a load-stage failure.
pub fn is_load_error(d: &[char]) -> (r: bool)
    ensures
        r == is_load_detail(d@),
{
    let exported = chars_of("Exported identifier");
    if starts_with(d, exported.as_slice()) {
        return true;
    }
    let body = chars_of("evaluating library body");
    contains_chars(d, body.as_slice())
}

// ---------------------------------------------------------------------------
// Classification
// ---------------------------------------------------------------------------

/// Everything the lines of both outputs report for `probe`.
pub open spec fn reported(probe: LineProbe, out: Captured) -> Set<Seq<char>> {
    probed(probe, lines_of(out.stdout@)).union(probed(probe, lines_of(out.stderr@)))
}

/// The identifiers named by "Undefined variable: x" or "unbound variable:
/// x" (the two backends word it differently) in either output.
pub open spec fn unbound_in(out: Captured) -> Set<Seq<char>> {
    words_after(out.stdout@, "Undefined variable: "@).union(
        words_after(out.stderr@, "Undefined variable: "@),
    ).union(words_after(out.stdout@, "unbound variable: "@)).union(
        words_after(out.stderr@, "unbound variable: "@),
    )
}

/// The parse-error details that are real parse errors.
pub open spec fn parse_errors_in(out: Captured) -> Set<Seq<char>> {
    Set::new(
        |d: Seq<char>| reported(LineProbe::ParseError, out).contains(d) && !is_load_detail(d),
    )
}

/// The parse-error details that are load-stage failures.
pub open spec fn load_errors_in(out: Captured) -> Set<Seq<char>> {
    Set::new(
        |d: Seq<char>| reported(LineProbe::ParseError, out).contains(d) && is_load_detail(d),
    )
}

/// The bucket a run belongs in and the names it carries. Each check
/// outranks the ones after it: a timeout; missing libraries (out of scope
/// when all of them are FFI-bound); real parse errors, the deeper cause when
/// both kinds appear; load errors; unbound identifiers; reached FFI stubs;
/// a test suite reporting failures; "Error" on stderr or a failed exit.
pub open spec fn verdict(out: Captured, mode: Seq<char>) -> (Seq<char>, Set<Seq<char>>) {
    let missing = reported(LineProbe::MissingLibrary, out);
    let stubs = reported(LineProbe::FfiStub, out);
    if out.timed_out {
        ("timeout"@, Set::empty())
    } else if !missing.is_empty() {
        if forall|l: Seq<char>| #[trigger] missing.contains(l) ==> ffi_bound(l) {
            ("out-of-scope"@, missing)
        } else {
            ("missing-library"@, missing)
        }
    } else if !parse_errors_in(out).is_empty() {
        ("parse-error"@, parse_errors_in(out))
    } else if !load_errors_in(out).is_empty() {
        ("load-error"@, load_errors_in(out))
    } else if !unbound_in(out).is_empty() {
        ("unbound-identifier"@, unbound_in(out))
    } else if !stubs.is_empty() {
        ("out-of-scope"@, stubs)
    } else if mode == "test"@ && suite_failed(out.stdout@) {
        ("wrong-result"@, Set::empty())
    } else if contains_seq(out.stderr@, "Error"@) || !out.exit_ok {
        ("runtime-error"@, Set::empty())
    } else {
        ("pass"@, Set::empty())
    }
}

/// An ascending set is empty exactly when its vector is.
proof fn lemma_set_empty(v: Seq<Seq<char>>)
    ensures
        v.to_set().is_empty() <==> v.len() == 0,
{
    if v.len() > 0 {
        assert(v.to_set().contains(v[0]));
    } else {
        assert(v.to_set() =~= Set::empty());
    }
}

/// The characters of each vector, as strings.
pub fn to_strings(v: &Vec<Vec<char>>) -> (r: Vec<String>)
    ensures
        names_of(r) == views(v@),
{
    let mut r: Vec<String> = Vec::new();
    let mut k: usize = 0;
    while k < v.len()
        invariant
            k <= v@.len(),
            r@.len() == k,
            names_of(r) == views(v@).take(k as int),
        decreases v@.len() - k,
    {
        let s = string_from_chars(&v[k]);
        let ghost before = r@;
        let ghost sv = s@;
        r.push(s);
        proof {
            assert(r@ == before.push(s));
            assert(sv == v@[k as int]@);
            assert(before.len() == k);
            assert forall|j: int| 0 <= j < k + 1 implies #[trigger] names_of(r)[j] == views(
                v@,
            ).take(k + 1)[j] by {
                assert(names_of(r)[j] == r@[j]@);
                if j < k {
                    assert(r@[j] == before[j]);
                    assert(before.map_values(|t: String| t@)[j] == before[j]@);
                } else {
                    assert(r@[j] == s);
                }
            }
            assert(names_of(r) =~= views(v@).take(k + 1));
        }
        k = k + 1;
    }
    proof {
        assert(views(v@).take(k as int) =~= views(v@));
    }
    r
}

/// Classify a run from what it printed and how it ended; `mode` is `"test"`
/// or `"probe"`.
pub fn classify(out: &Captured, mode: &str) -> (r: Status)
    ensures
        status_is(r, verdict(*out, mode@).0, verdict(*out, mode@).1),
{
    proof {
        assert(Seq::<Seq<char>>::empty().to_set() =~= Set::<Seq<char>>::empty());
    }
    if out.timed_out {
        assert(status_names(Status::Timeout) =~= Seq::<Seq<char>>::empty());
        return Status::Timeout;
    }
    let so = chars_of(out.stdout.as_str());
    let se = chars_of(out.stderr.as_str());
    let lo = lines(so.as_slice());
    let le = lines(se.as_slice());

    let mut missing: Vec<Vec<char>> = Vec::new();
    collect_probed(LineProbe::MissingLibrary, &lo, &mut missing);
    collect_probed(LineProbe::MissingLibrary, &le, &mut missing);
    proof {
        assert(views(missing@).to_set() =~= reported(LineProbe::MissingLibrary, *out));
        lemma_set_empty(views(missing@));
    }
    if missing.len() > 0 {
        let mut all_ffi = true;
        let mut k: usize = 0;
        while k < missing.len()
            invariant
                k <= missing@.len(),
                all_ffi == forall|j: int| 0 <= j < k ==> ffi_bound(#[trigger] missing@[j]@),
            decreases missing@.len() - k,
        {
            if !is_ffi_bound(missing[k].as_slice()) {
                all_ffi = false;
            }
            k = k + 1;
        }
        proof {
            let m = views(missing@);
            assert(forall|j: int| 0 <= j < m.len() ==> m[j] == #[trigger] missing@[j]@);
            assert((forall|l: Seq<char>| #[trigger] m.to_set().contains(l) ==> ffi_bound(l)) == (
            forall|j: int| 0 <= j < k ==> ffi_bound(#[trigger] missing@[j]@))) by {
                if forall|j: int| 0 <= j < k ==> ffi_bound(#[trigger] missing@[j]@) {
                    assert forall|l: Seq<char>| #[trigger] m.to_set().contains(l) implies ffi_bound(
                        l,
                    ) by {
                        let j = choose|j: int| 0 <= j < m.len() && m[j] == l;
                        assert(ffi_bound(missing@[j]@));
                    }
                } else {
                    let j = choose|j: int| 0 <= j < k && !ffi_bound(#[trigger] missing@[j]@);
                    assert(m.to_set().contains(m[j]));
                }
            }
        }
        let names = to_strings(&missing);
        if all_ffi {
            return Status::OutOfScope(names);
        } else {
            return Status::MissingLibrary(names);
        }
    }

    let mut errors: Vec<Vec<char>> = Vec::new();
    collect_probed(LineProbe::ParseError, &lo, &mut errors);
    collect_probed(LineProbe::ParseError, &le, &mut errors);
    let ghost all_errors = views(errors@).to_set();
    assert(all_errors =~= reported(LineProbe::ParseError, *out));
    let mut load: Vec<Vec<char>> = Vec::new();
    let mut parse: Vec<Vec<char>> = Vec::new();
    let mut k: usize = 0;
    while k < errors.len()
        invariant
            k <= errors@.len(),
            all_errors == views(errors@).to_set(),
            strictly_sorted(views(load@)),
            strictly_sorted(views(parse@)),
            views(load@).to_set() == Set::new(
                |d: Seq<char>| views(errors@).take(k as int).contains(d) && is_load_detail(d),
            ),
            views(parse@).to_set() == Set::new(
                |d: Seq<char>| views(errors@).take(k as int).contains(d) && !is_load_detail(d),
            ),
        decreases errors@.len() - k,
    {
        let d = slice_of(errors[k].as_slice(), 0, errors[k].len());
        assert(d@ =~= errors@[k as int]@);
        let ghost prev = views(errors@).take(k as int);
        let ghost next = views(errors@).take(k + 1);
        proof {
            assert(next =~= prev.push(d@));
            assert forall|x: Seq<char>| #[trigger] next.contains(x) == (prev.contains(x) || x
                == d@) by {
                if next.contains(x) {
                    let j = choose|j: int| 0 <= j < next.len() && next[j] == x;
                    if j < k {
                        assert(prev[j] == x);
                    }
                }
                if prev.contains(x) {
                    let j = choose|j: int| 0 <= j < prev.len() && prev[j] == x;
                    assert(next[j] == x);
                }
                if x == d@ {
                    assert(next[k as int] == x);
                }
            }
        }
        if is_load_error(d.as_slice()) {
            insert_sorted(&mut load, d);
        } else {
            insert_sorted(&mut parse, d);
        }
        proof {
            assert(views(load@).to_set() =~= Set::new(
                |x: Seq<char>| next.contains(x) && is_load_detail(x),
            ));
            assert(views(parse@).to_set() =~= Set::new(
                |x: Seq<char>| next.contains(x) && !is_load_detail(x),
            ));
        }
        k = k + 1;
    }
    proof {
        assert(views(errors@).take(k as int) =~= views(errors@));
        assert forall|x: Seq<char>| #[trigger] views(errors@).contains(x) == all_errors.contains(
            x,
        ) by {}
        assert(views(parse@).to_set() =~= parse_errors_in(*out));
        assert(views(load@).to_set() =~= load_errors_in(*out));
        lemma_set_empty(views(parse@));
        lemma_set_empty(views(load@));
    }
    if parse.len() > 0 {
        return Status::ParseError(to_strings(&parse));
    }
    if load.len() > 0 {
        return Status::LoadError(to_strings(&load));
    }

    let mut unbound: Vec<Vec<char>> = Vec::new();
    let undefined = chars_of("Undefined variable: ");
    let unbound_marker = chars_of("unbound variable: ");
    proof {
        reveal_strlit("Undefined variable: ");
        reveal_strlit("unbound variable: ");
    }
    collect_words_after(so.as_slice(), undefined.as_slice(), &mut unbound);
    collect_words_after(se.as_slice(), undefined.as_slice(), &mut unbound);
    collect_words_after(so.as_slice(), unbound_marker.as_slice(), &mut unbound);
    collect_words_after(se.as_slice(), unbound_marker.as_slice(), &mut unbound);
    proof {
        assert(views(unbound@).to_set() =~= unbound_in(*out));
        lemma_set_empty(views(unbound@));
    }
    if unbound.len() > 0 {
        return Status::UnboundIdentifier(to_strings(&unbound));
    }

    let mut stubs: Vec<Vec<char>> = Vec::new();
    collect_probed(LineProbe::FfiStub, &lo, &mut stubs);
    collect_probed(LineProbe::FfiStub, &le, &mut stubs);
    proof {
        assert(views(stubs@).to_set() =~= reported(LineProbe::FfiStub, *out));
        lemma_set_empty(views(stubs@));
    }
    if stubs.len() > 0 {
        return Status::OutOfScope(to_strings(&stubs));
    }

    if str_is(mode, "test") && test_suite_failed(out.stdout.as_str()) {
        assert(status_names(Status::WrongResult) =~= Seq::<Seq<char>>::empty());
        return Status::WrongResult;
    }
    let error = chars_of("Error");
    if contains_chars(se.as_slice(), error.as_slice()) || !out.exit_ok {
        assert(status_names(Status::RuntimeError) =~= Seq::<Seq<char>>::empty());
        return Status::RuntimeError;
    }
    assert(status_names(Status::Pass) =~= Seq::<Seq<char>>::empty());
    Status::Pass
}

/// How to run the corpus: the binary under test, the backend, the
/// per-package time budget, and how many packages run at once.
pub struct RunConfig {
    pub patina: PathBuf,
    pub tree_walker: bool,
    pub timeout: Duration,
    pub jobs: usize,
}

/// The import probe for a package without a test program: an
/// `(import ...)` of `(scheme base)` and of every library the package
/// provides, then a line that says the imports went through.
pub open spec fn probe_text(provides: Seq<Seq<char>>) -> Seq<char> {
    "(import (scheme base)"@ + probe_imports(provides)
        + ")\n(display \"patina-compat probe ok\")\n(newline)\n"@
}

/// Each library name as ` (name)`.
pub open spec fn probe_imports(provides: Seq<Seq<char>>) -> Seq<char>
    decreases provides.len(),
{
    if provides.len() == 0 {
        Seq::empty()
    } else {
        probe_imports(provides.drop_last()) + " ("@ + provides.last() + ")"@
    }
}

/// The source of the import probe for a package providing `provides`.
pub fn probe_source(provides: &Vec<String>) -> (r: String)
    ensures
        r@ == probe_text(names_of(*provides)),
{
    let mut out: Vec<char> = Vec::new();
    push_str(&mut out, "(import (scheme base)");
    let ghost start = out@;
    let mut k: usize = 0;
    while k < provides.len()
        invariant
            k <= provides@.len(),
            out@ == start + probe_imports(names_of(*provides).take(k as int)),
        decreases provides@.len() - k,
    {
        push_str(&mut out, " (");
        push_str(&mut out, provides[k].as_str());
        push_str(&mut out, ")");
        proof {
            let t = names_of(*provides);
            assert(t.take(k + 1).drop_last() =~= t.take(k as int));
            assert(t.take(k + 1).last() == provides@[k as int]@);
            assert(out@ =~= start + probe_imports(t.take(k + 1)));
        }
        k = k + 1;
    }
    push_str(&mut out, ")\n(display \"patina-compat probe ok\")\n(newline)\n");
    proof {
        assert(names_of(*provides).take(k as int) =~= names_of(*provides));
        assert(out@ =~= probe_text(names_of(*provides)));
    }
    string_from_chars(&out)
}


/// A run whose error output says "Error", and that no earlier bucket
/// claims (no timeout, missing library, parse or load error, unbound
/// identifier, foreign stub, or failed test suite), is a runtime error
/// whether or not it exited cleanly: a resilient test run exits 0, and
/// that word is its only sign of failure. The status `classify` gives it
/// is `RuntimeError`.
pub proof fn lemma_error_on_stderr_is_a_runtime_error(out: Captured, mode: Seq<char>)
    requires
        !out.timed_out,
        reported(LineProbe::MissingLibrary, out).is_empty(),
        parse_errors_in(out).is_empty(),
        load_errors_in(out).is_empty(),
        unbound_in(out).is_empty(),
        reported(LineProbe::FfiStub, out).is_empty(),
        !(mode == "test"@ && suite_failed(out.stdout@)),
        contains_seq(out.stderr@, "Error"@),
    ensures
        verdict(out, mode).0 == "runtime-error"@,
        forall|s: Status| #[trigger] status_is(s, verdict(out, mode).0, verdict(out, mode).1) ==> s
            == Status::RuntimeError,
{
    reveal_strlit("runtime-error");
    reveal_strlit("pass");
    reveal_strlit("missing-library");
    reveal_strlit("parse-error");
    reveal_strlit("load-error");
    reveal_strlit("unbound-identifier");
    reveal_strlit("wrong-result");
    reveal_strlit("timeout");
    reveal_strlit("out-of-scope");
    assert forall|s: Status| #[trigger] status_is(s, verdict(out, mode).0, verdict(out, mode).1) implies s
        == Status::RuntimeError by {
        assert(status_key(s) == "runtime-error"@);
        match s {
            Status::RuntimeError => {},
            Status::Pass => {},
            Status::WrongResult => {},
            Status::Timeout => {},
            _ => {},
        }
    }
}

/// No bucket before the suite's verdict claims the run.
pub open spec fn no_earlier_bucket(out: Captured) -> bool {
    &&& !out.timed_out
    &&& reported(LineProbe::MissingLibrary, out).is_empty()
    &&& parse_errors_in(out).is_empty()
    &&& load_errors_in(out).is_empty()
    &&& unbound_in(out).is_empty()
    &&& reported(LineProbe::FfiStub, out).is_empty()
}

/// A status whose bucket carries no names is fixed by its key.
proof fn lemma_plain_bucket(s: Status, key: Seq<char>, names: Set<Seq<char>>)
    requires
        status_is(s, key, names),
    ensures
        key == "pass"@ ==> s == Status::Pass,
        key == "runtime-error"@ ==> s == Status::RuntimeError,
        key == "wrong-result"@ ==> s == Status::WrongResult,
        key == "timeout"@ ==> s == Status::Timeout,
{
    reveal_strlit("runtime-error");
    reveal_strlit("pass");
    reveal_strlit("missing-library");
    reveal_strlit("parse-error");
    reveal_strlit("load-error");
    reveal_strlit("unbound-identifier");
    reveal_strlit("wrong-result");
    reveal_strlit("timeout");
    reveal_strlit("out-of-scope");
    assert("pass"@.len() == 4 && "runtime-error"@.len() == 13 && "wrong-result"@.len() == 12
        && "timeout"@.len() == 7 && "wrong-result"@[0] == 'w');
    match s {
        Status::Pass => assert(status_key(s).len() == 4),
        Status::MissingLibrary(_) => assert(status_key(s).len() == 15),
        Status::ParseError(_) => assert(status_key(s).len() == 11),
        Status::LoadError(_) => assert(status_key(s).len() == 10),
        Status::UnboundIdentifier(_) => assert(status_key(s).len() == 18),
        Status::WrongResult => assert(status_key(s).len() == 12),
        Status::RuntimeError => assert(status_key(s).len() == 13),
        Status::Timeout => assert(status_key(s).len() == 7),
        Status::OutOfScope(_) => assert(status_key(s).len() == 12 && status_key(s)[0] == 'o'),
    }
}

/// A run that timed out is classified `Timeout`, whatever it printed.
pub proof fn lemma_timeout_is_timeout(out: Captured, mode: Seq<char>, s: Status)
    requires
        out.timed_out,
        status_is(s, verdict(out, mode).0, verdict(out, mode).1),
    ensures
        s == Status::Timeout,
{
    lemma_plain_bucket(s, verdict(out, mode).0, verdict(out, mode).1);
}

/// A run that no earlier bucket claims and that exited with failure is a
/// runtime error, unless a test run's suite reported failures.
pub proof fn lemma_failed_exit_is_a_runtime_error(out: Captured, mode: Seq<char>, s: Status)
    requires
        no_earlier_bucket(out),
        !(mode == "test"@ && suite_failed(out.stdout@)),
        !out.exit_ok,
        status_is(s, verdict(out, mode).0, verdict(out, mode).1),
    ensures
        s == Status::RuntimeError,
{
    lemma_plain_bucket(s, verdict(out, mode).0, verdict(out, mode).1);
}

/// A test run that no earlier bucket claims and whose suite reported
/// failures is a wrong result, whatever its exit status or error output.
pub proof fn lemma_failed_suite_is_a_wrong_result(out: Captured, s: Status)
    requires
        no_earlier_bucket(out),
        suite_failed(out.stdout@),
        status_is(s, verdict(out, "test"@).0, verdict(out, "test"@).1),
    ensures
        s == Status::WrongResult,
{
    lemma_plain_bucket(s, verdict(out, "test"@).0, verdict(out, "test"@).1);
}

/// A run that no bucket claims (it exited cleanly, said no "Error", and,
/// run as a test, its suite did not fail) passes; and a run that passes
/// exited cleanly and said no "Error".
pub proof fn lemma_pass_is_a_clean_run(out: Captured, mode: Seq<char>, s: Status)
    requires
        status_is(s, verdict(out, mode).0, verdict(out, mode).1),
    ensures
        (no_earlier_bucket(out) && !(mode == "test"@ && suite_failed(out.stdout@)) && out.exit_ok
            && !contains_seq(out.stderr@, "Error"@)) ==> s == Status::Pass,
        s == Status::Pass ==> out.exit_ok && !contains_seq(out.stderr@, "Error"@) && !out.timed_out,
{
    reveal_strlit("runtime-error");
    reveal_strlit("pass");
    reveal_strlit("missing-library");
    reveal_strlit("parse-error");
    reveal_strlit("load-error");
    reveal_strlit("unbound-identifier");
    reveal_strlit("wrong-result");
    reveal_strlit("timeout");
    reveal_strlit("out-of-scope");
    lemma_plain_bucket(s, verdict(out, mode).0, verdict(out, mode).1);
}

/// A run that reports missing libraries, and did not time out, names
/// exactly those libraries; it is out of scope when every one of them is
/// bound to a foreign interface, and a missing library otherwise.
pub proof fn lemma_missing_libraries_are_named(out: Captured, mode: Seq<char>, s: Status)
    requires
        !out.timed_out,
        !reported(LineProbe::MissingLibrary, out).is_empty(),
        status_is(s, verdict(out, mode).0, verdict(out, mode).1),
    ensures
        status_names(s).to_set() == reported(LineProbe::MissingLibrary, out),
        (s is OutOfScope) <==> forall|l: Seq<char>| #[trigger] reported(LineProbe::MissingLibrary, out).contains(l)
            ==> ffi_bound(l),
        (s is OutOfScope) || (s is MissingLibrary),
{
    reveal_strlit("runtime-error");
    reveal_strlit("pass");
    reveal_strlit("missing-library");
    reveal_strlit("parse-error");
    reveal_strlit("load-error");
    reveal_strlit("unbound-identifier");
    reveal_strlit("wrong-result");
    reveal_strlit("timeout");
    reveal_strlit("out-of-scope");
    assert("out-of-scope"@.len() == 12 && "missing-library"@.len() == 15);
    match s {
        Status::Pass => assert(status_key(s).len() == 4),
        Status::MissingLibrary(_) => assert(status_key(s).len() == 15),
        Status::ParseError(_) => assert(status_key(s).len() == 11),
        Status::LoadError(_) => assert(status_key(s).len() == 10),
        Status::UnboundIdentifier(_) => assert(status_key(s).len() == 18),
        Status::WrongResult => assert(status_key(s).len() == 12 && status_key(s)[0] == 'w'),
        Status::RuntimeError => assert(status_key(s).len() == 13),
        Status::Timeout => assert(status_key(s).len() == 7),
        Status::OutOfScope(_) => assert(status_key(s).len() == 12),
    }
}

/// A run with parse errors, and nothing earlier to report, is a parse
/// error naming exactly those errors.
pub proof fn lemma_parse_errors_are_named(out: Captured, mode: Seq<char>, s: Status)
    requires
        !out.timed_out,
        reported(LineProbe::MissingLibrary, out).is_empty(),
        !parse_errors_in(out).is_empty(),
        status_is(s, verdict(out, mode).0, verdict(out, mode).1),
    ensures
        s is ParseError,
        status_names(s).to_set() == parse_errors_in(out),
{
    reveal_strlit("runtime-error");
    reveal_strlit("pass");
    reveal_strlit("missing-library");
    reveal_strlit("parse-error");
    reveal_strlit("load-error");
    reveal_strlit("unbound-identifier");
    reveal_strlit("wrong-result");
    reveal_strlit("timeout");
    reveal_strlit("out-of-scope");
    assert("parse-error"@.len() == 11 && "parse-error"@[1] == 'a');
    match s {
        Status::Pass => assert(status_key(s).len() == 4),
        Status::MissingLibrary(_) => assert(status_key(s).len() == 15),
        Status::ParseError(_) => assert(status_key(s).len() == 11),
        Status::LoadError(_) => assert(status_key(s).len() == 10),
        Status::UnboundIdentifier(_) => assert(status_key(s).len() == 18),
        Status::WrongResult => assert(status_key(s).len() == 12),
        Status::RuntimeError => assert(status_key(s).len() == 13),
        Status::Timeout => assert(status_key(s).len() == 7),
        Status::OutOfScope(_) => assert(status_key(s).len() == 12),
    }
}
} // verus!
