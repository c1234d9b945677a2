//! Searching, splitting and trimming character sequences, and ordered sets
//! of them.
use vstd::prelude::*;

verus! {

// ---------------------------------------------------------------------------
// Occurrences
// ---------------------------------------------------------------------------

/// `pat` occurs in `s` at index `i`.
pub open spec fn occurs_at(s: Seq<char>, pat: Seq<char>, i: int) -> bool {
    0 <= i && i + pat.len() <= s.len() && s.subrange(i, i + pat.len()) == pat
}

/// The first index at or after `from` where `pat` occurs.
pub open spec fn find_from(s: Seq<char>, pat: Seq<char>, from: int) -> Option<int>
    decreases s.len() + 1 - from,
{
    if from < 0 || from + pat.len() > s.len() {
        None
    } else if occurs_at(s, pat, from) {
        Some(from)
    } else {
        find_from(s, pat, from + 1)
    }
}

/// The first index where `pat` occurs.
pub open spec fn first_index(s: Seq<char>, pat: Seq<char>) -> Option<int> {
    find_from(s, pat, 0)
}

/// The last index at or before `upto` where `pat` occurs.
pub open spec fn find_last_from(s: Seq<char>, pat: Seq<char>, upto: int) -> Option<int>
    decreases upto + 1,
{
    if upto < 0 {
        None
    } else if occurs_at(s, pat, upto) {
        Some(upto)
    } else {
        find_last_from(s, pat, upto - 1)
    }
}

/// The last index where `pat` occurs.
pub open spec fn last_index(s: Seq<char>, pat: Seq<char>) -> Option<int> {
    find_last_from(s, pat, s.len() - pat.len())
}

/// Whether `pat` occurs anywhere in `s`.
pub open spec fn contains_seq(s: Seq<char>, pat: Seq<char>) -> bool {
    exists|i: int| occurs_at(s, pat, i)
}

/// What `find_from` returns: the least occurrence at or after `from`.
pub proof fn lemma_find_from(s: Seq<char>, pat: Seq<char>, from: int)
    requires
        0 <= from,
    ensures
        match find_from(s, pat, from) {
            Some(i) => from <= i && occurs_at(s, pat, i) && forall|j: int|
                from <= j < i ==> !occurs_at(s, pat, j),
            None => forall|j: int| from <= j ==> !occurs_at(s, pat, j),
        },
    decreases s.len() + 1 - from,
{
    if from + pat.len() > s.len() {
    } else if occurs_at(s, pat, from) {
    } else {
        lemma_find_from(s, pat, from + 1);
    }
}

/// What `find_last_from` returns: the greatest occurrence at or before
/// `upto`.
pub proof fn lemma_find_last_from(s: Seq<char>, pat: Seq<char>, upto: int)
    ensures
        match find_last_from(s, pat, upto) {
            Some(i) => 0 <= i <= upto && occurs_at(s, pat, i) && forall|j: int|
                i < j <= upto ==> !occurs_at(s, pat, j),
            None => forall|j: int| j <= upto ==> !occurs_at(s, pat, j),
        },
    decreases upto + 1,
{
    if upto >= 0 && !occurs_at(s, pat, upto) {
        lemma_find_last_from(s, pat, upto - 1);
    }
}

/// Whether `pat` occurs in `s` at `i`.
pub fn matches_at(s: &[char], pat: &[char], i: usize) -> (r: bool)
    ensures
        r == occurs_at(s@, pat@, i as int),
{
    if i > s.len() || pat.len() > s.len() - i {
        return false;
    }
    let mut k: usize = 0;
    while k < pat.len()
        invariant
            i + pat@.len() <= s@.len(),
            s@.len() == s.len(),
            pat@.len() == pat.len(),
            k <= pat@.len(),
            forall|j: int| 0 <= j < k ==> s@[i + j] == pat@[j],
        decreases pat@.len() - k,
    {
        if s[i + k] != pat[k] {
            proof {
                assert(s@.subrange(i as int, i + pat@.len())[k as int] != pat@[k as int]);
            }
            return false;
        }
        k = k + 1;
    }
    proof {
        assert(s@.subrange(i as int, i + pat@.len()) =~= pat@);
    }
    true
}

/// The first index at or after `from` where `pat` occurs.
pub fn find(s: &[char], pat: &[char], from: usize) -> (r: Option<usize>)
    ensures
        match r {
            Some(i) => find_from(s@, pat@, from as int) == Some(i as int),
            None => find_from(s@, pat@, from as int) is None,
        },
{
    let mut i = from;
    while i <= s.len() && pat.len() <= s.len() - i
        invariant
            from <= i,
            find_from(s@, pat@, from as int) == find_from(s@, pat@, i as int),
        decreases s@.len() + 1 - i,
    {
        if matches_at(s, pat, i) {
            return Some(i);
        }
        proof {
            if pat@.len() == 0 {
                assert(s@.subrange(i as int, i as int) =~= pat@);
            }
        }
        i = i + 1;
    }
    None
}

/// The last index where `pat` occurs.
pub fn rfind(s: &[char], pat: &[char]) -> (r: Option<usize>)
    ensures
        match r {
            Some(i) => last_index(s@, pat@) == Some(i as int),
            None => last_index(s@, pat@) is None,
        },
{
    if pat.len() > s.len() {
        return None;
    }
    let mut i: usize = s.len() - pat.len();
    loop
        invariant
            i + pat@.len() <= s@.len(),
            last_index(s@, pat@) == find_last_from(s@, pat@, i as int),
        decreases i,
    {
        if matches_at(s, pat, i) {
            return Some(i);
        }
        if i == 0 {
            assert(find_last_from(s@, pat@, -1) is None);
            return None;
        }
        i = i - 1;
    }
}

/// Whether `pat` occurs anywhere in `s`.
pub fn contains_chars(s: &[char], pat: &[char]) -> (r: bool)
    ensures
        r == contains_seq(s@, pat@),
{
    proof {
        lemma_find_from(s@, pat@, 0);
    }
    find(s, pat, 0).is_some()
}

/// Whether `s` begins with `pat`.
pub fn starts_with(s: &[char], pat: &[char]) -> (r: bool)
    ensures
        r == occurs_at(s@, pat@, 0),
{
    matches_at(s, pat, 0)
}

/// The characters of `s` from `start` up to `end`.
pub fn slice_of(s: &[char], start: usize, end: usize) -> (r: Vec<char>)
    requires
        start <= end <= s@.len(),
    ensures
        r@ == s@.subrange(start as int, end as int),
{
    let mut r: Vec<char> = Vec::new();
    let mut i = start;
    while i < end
        invariant
            start <= i <= end,
            end <= s@.len(),
            r@ == s@.subrange(start as int, i as int),
        decreases end - i,
    {
        r.push(s[i]);
        proof {
            assert(r@ =~= s@.subrange(start as int, i + 1));
        }
        i = i + 1;
    }
    r
}

// ---------------------------------------------------------------------------
// Splitting
// ---------------------------------------------------------------------------

/// `s` split around the first occurrence of `pat`.
pub open spec fn split_once(s: Seq<char>, pat: Seq<char>) -> Option<(Seq<char>, Seq<char>)> {
    match first_index(s, pat) {
        Some(i) => Some((s.subrange(0, i), s.subrange(i + pat.len(), s.len() as int))),
        None => None,
    }
}

/// `s` split around the last occurrence of `pat`.
pub open spec fn rsplit_once(s: Seq<char>, pat: Seq<char>) -> Option<(Seq<char>, Seq<char>)> {
    match last_index(s, pat) {
        Some(i) => Some((s.subrange(0, i), s.subrange(i + pat.len(), s.len() as int))),
        None => None,
    }
}

/// The part of `s` after the first occurrence of `pat`.
pub fn after_first(s: &[char], pat: &[char]) -> (r: Option<Vec<char>>)
    ensures
        match r {
            Some(v) => split_once(s@, pat@) matches Some(p) && v@ == p.1,
            None => split_once(s@, pat@) is None,
        },
{
    proof {
        lemma_find_from(s@, pat@, 0);
    }
    match find(s, pat, 0) {
        Some(i) => {
            let n = s.len();
            let m = pat.len();
            assert(i + m <= n);
            Some(slice_of(s, i + m, n))
        },
        None => None,
    }
}

/// The part of `s` before the first occurrence of `pat`.
pub fn before_first(s: &[char], pat: &[char]) -> (r: Option<Vec<char>>)
    ensures
        match r {
            Some(v) => split_once(s@, pat@) matches Some(p) && v@ == p.0,
            None => split_once(s@, pat@) is None,
        },
{
    proof {
        lemma_find_from(s@, pat@, 0);
    }
    match find(s, pat, 0) {
        Some(i) => Some(slice_of(s, 0, i)),
        None => None,
    }
}

/// The part of `s` after the last occurrence of `pat`.
pub fn after_last(s: &[char], pat: &[char]) -> (r: Option<Vec<char>>)
    ensures
        match r {
            Some(v) => rsplit_once(s@, pat@) matches Some(p) && v@ == p.1,
            None => rsplit_once(s@, pat@) is None,
        },
{
    proof {
        lemma_find_last_from(s@, pat@, s@.len() - pat@.len());
    }
    match rfind(s, pat) {
        Some(i) => {
            let n = s.len();
            let m = pat.len();
            assert(i + m <= n);
            Some(slice_of(s, i + m, n))
        },
        None => None,
    }
}

// ---------------------------------------------------------------------------
// Lines
// ---------------------------------------------------------------------------

/// `s` without one trailing carriage return.
pub open spec fn strip_cr(s: Seq<char>) -> Seq<char> {
    if s.len() > 0 && s.last() == '\r' {
        s.drop_last()
    } else {
        s
    }
}

/// The lines of `s` from index `pos` on, as `str::lines` yields them: each
/// ends at a newline, loses a carriage return just before that newline, and
/// no empty line follows a final newline.
pub open spec fn lines_from(s: Seq<char>, pos: int) -> Seq<Seq<char>>
    decreases s.len() - pos,
{
    if pos < 0 || pos >= s.len() {
        Seq::empty()
    } else {
        match find_from(s, seq!['\n'], pos) {
            Some(i) => if pos <= i < s.len() {
                seq![strip_cr(s.subrange(pos, i))] + lines_from(s, i + 1)
            } else {
                Seq::empty()
            },
            None => seq![s.subrange(pos, s.len() as int)],
        }
    }
}

/// The lines of `s`.
pub open spec fn lines_of(s: Seq<char>) -> Seq<Seq<char>> {
    lines_from(s, 0)
}

/// The views of a vector of character vectors.
pub open spec fn views(v: Seq<Vec<char>>) -> Seq<Seq<char>> {
    v.map_values(|e: Vec<char>| e@)
}

/// The lines of `s`.
pub fn lines(s: &[char]) -> (r: Vec<Vec<char>>)
    ensures
        views(r@) == lines_of(s@),
{
    let newline: [char; 1] = ['\n'];
    assert(newline@ =~= seq!['\n']);
    let mut r: Vec<Vec<char>> = Vec::new();
    let mut pos: usize = 0;
    while pos < s.len()
        invariant
            pos <= s@.len(),
            s@.len() == s.len(),
            newline@ == seq!['\n'],
            views(r@) + lines_from(s@, pos as int) == lines_of(s@),
        decreases s@.len() - pos,
    {
        proof {
            lemma_find_from(s@, newline@, pos as int);
        }
        match find(s, &newline, pos) {
            Some(i) => {
                let mut line = slice_of(s, pos, i);
                if line.len() > 0 && line[line.len() - 1] == '\r' {
                    line.pop();
                }
                proof {
                    assert(line@ == strip_cr(s@.subrange(pos as int, i as int)));
                    assert(views(r@.push(line)) =~= views(r@).push(line@));
                    assert(views(r@).push(line@) + lines_from(s@, i + 1) =~= views(r@) + (seq![
                        line@,
                    ] + lines_from(s@, i + 1)));
                }
                r.push(line);
                pos = i + 1;
            },
            None => {
                let line = slice_of(s, pos, s.len());
                proof {
                    assert(views(r@.push(line)) =~= views(r@).push(line@));
                    assert(lines_from(s@, s@.len() as int) =~= Seq::<Seq<char>>::empty());
                    assert(views(r@).push(line@) + Seq::<Seq<char>>::empty() =~= views(r@) + seq![
                        line@,
                    ]);
                }
                r.push(line);
                pos = s.len();
            },
        }
    }
    proof {
        assert(views(r@) + lines_from(s@, pos as int) =~= views(r@));
    }
    r
}

// ---------------------------------------------------------------------------
// Whitespace and trimming
// ---------------------------------------------------------------------------

/// Whether `c` has the Unicode `White_Space` property, as
/// `char::is_whitespace` documents.
pub open spec fn is_ws(c: char) -> bool {
    let u = c as u32;
    (9 <= u <= 13) || u == 32 || u == 0x85 || u == 0xA0 || u == 0x1680 || (0x2000 <= u <= 0x200A)
        || u == 0x2028 || u == 0x2029 || u == 0x202F || u == 0x205F || u == 0x3000
}

/// Whether `c` is a double or single quote.
pub open spec fn is_quote(c: char) -> bool {
    c == '"' || c == '\''
}

/// Whether `c` has the Unicode `White_Space` property.
pub fn is_whitespace(c: char) -> (r: bool)
    ensures
        r == is_ws(c),
{
    let u = c as u32;
    (9 <= u && u <= 13) || u == 32 || u == 0x85 || u == 0xA0 || u == 0x1680 || (0x2000 <= u && u
        <= 0x200A) || u == 0x2028 || u == 0x2029 || u == 0x202F || u == 0x205F || u == 0x3000
}

/// `s` without its leading whitespace.
pub open spec fn trim_start_ws(s: Seq<char>) -> Seq<char>
    decreases s.len(),
{
    if s.len() > 0 && is_ws(s[0]) {
        trim_start_ws(s.drop_first())
    } else {
        s
    }
}

/// `s` without its trailing whitespace.
pub open spec fn trim_end_ws(s: Seq<char>) -> Seq<char>
    decreases s.len(),
{
    if s.len() > 0 && is_ws(s.last()) {
        trim_end_ws(s.drop_last())
    } else {
        s
    }
}

/// `s` without its leading quotes.
pub open spec fn trim_start_quotes(s: Seq<char>) -> Seq<char>
    decreases s.len(),
{
    if s.len() > 0 && is_quote(s[0]) {
        trim_start_quotes(s.drop_first())
    } else {
        s
    }
}

/// `s` without its trailing quotes.
pub open spec fn trim_end_quotes(s: Seq<char>) -> Seq<char>
    decreases s.len(),
{
    if s.len() > 0 && is_quote(s.last()) {
        trim_end_quotes(s.drop_last())
    } else {
        s
    }
}

/// `s` without leading and trailing whitespace, as `str::trim` gives it.
pub open spec fn trim_ws(s: Seq<char>) -> Seq<char> {
    trim_end_ws(trim_start_ws(s))
}

/// `s` without leading and trailing quotes.
pub open spec fn trim_quotes(s: Seq<char>) -> Seq<char> {
    trim_end_quotes(trim_start_quotes(s))
}

/// `s` without leading and trailing whitespace.
pub fn trim(s: &[char]) -> (r: Vec<char>)
    ensures
        r@ == trim_ws(s@),
{
    let mut start: usize = 0;
    assert(s@.subrange(0, s@.len() as int) =~= s@);
    while start < s.len() && is_whitespace(s[start])
        invariant
            start <= s@.len(),
            trim_start_ws(s@) == trim_start_ws(s@.subrange(start as int, s@.len() as int)),
        decreases s@.len() - start,
    {
        proof {
            assert(s@.subrange(start as int, s@.len() as int).drop_first() =~= s@.subrange(
                start + 1,
                s@.len() as int,
            ));
        }
        start = start + 1;
    }
    let ghost mid = s@.subrange(start as int, s@.len() as int);
    assert(trim_start_ws(s@) == mid);
    let mut end: usize = s.len();
    while end > start && is_whitespace(s[end - 1])
        invariant
            start <= end <= s@.len(),
            trim_end_ws(mid) == trim_end_ws(s@.subrange(start as int, end as int)),
        decreases end,
    {
        proof {
            assert(s@.subrange(start as int, end as int).drop_last() =~= s@.subrange(
                start as int,
                end - 1,
            ));
        }
        end = end - 1;
    }
    slice_of(s, start, end)
}

/// `s` without leading and trailing quotes.
pub fn trim_quote_chars(s: &[char]) -> (r: Vec<char>)
    ensures
        r@ == trim_quotes(s@),
{
    let mut start: usize = 0;
    assert(s@.subrange(0, s@.len() as int) =~= s@);
    while start < s.len() && (s[start] == '"' || s[start] == '\'')
        invariant
            start <= s@.len(),
            trim_start_quotes(s@) == trim_start_quotes(s@.subrange(start as int, s@.len() as int)),
        decreases s@.len() - start,
    {
        proof {
            assert(s@.subrange(start as int, s@.len() as int).drop_first() =~= s@.subrange(
                start + 1,
                s@.len() as int,
            ));
        }
        start = start + 1;
    }
    let ghost mid = s@.subrange(start as int, s@.len() as int);
    assert(trim_start_quotes(s@) == mid);
    let mut end: usize = s.len();
    while end > start && (s[end - 1] == '"' || s[end - 1] == '\'')
        invariant
            start <= end <= s@.len(),
            trim_end_quotes(mid) == trim_end_quotes(s@.subrange(start as int, end as int)),
        decreases end,
    {
        proof {
            assert(s@.subrange(start as int, end as int).drop_last() =~= s@.subrange(
                start as int,
                end - 1,
            ));
        }
        end = end - 1;
    }
    slice_of(s, start, end)
}

/// The leading run of non-whitespace characters of `s`.
pub open spec fn word_prefix(s: Seq<char>) -> Seq<char>
    decreases s.len(),
{
    if s.len() > 0 && !is_ws(s[0]) {
        seq![s[0]] + word_prefix(s.drop_first())
    } else {
        Seq::empty()
    }
}

/// The first whitespace-separated word of `s`, as
/// `split_whitespace().next()` gives it.
pub open spec fn first_word(s: Seq<char>) -> Option<Seq<char>> {
    let t = trim_start_ws(s);
    if t.len() == 0 {
        None
    } else {
        Some(word_prefix(t))
    }
}

/// The first whitespace-separated word of `s[start..end]`.
pub fn first_word_in(s: &[char], start: usize, end: usize) -> (r: Option<Vec<char>>)
    requires
        start <= end <= s@.len(),
    ensures
        match r {
            Some(w) => first_word(s@.subrange(start as int, end as int)) == Some(w@),
            None => first_word(s@.subrange(start as int, end as int)) is None,
        },
{
    let ghost whole = s@.subrange(start as int, end as int);
    let mut i = start;
    while i < end && is_whitespace(s[i])
        invariant
            start <= i <= end,
            end <= s@.len(),
            trim_start_ws(whole) == trim_start_ws(s@.subrange(i as int, end as int)),
        decreases end - i,
    {
        proof {
            assert(s@.subrange(i as int, end as int).drop_first() =~= s@.subrange(
                i + 1,
                end as int,
            ));
        }
        i = i + 1;
    }
    let ghost t = s@.subrange(i as int, end as int);
    assert(trim_start_ws(whole) == t);
    if i == end {
        return None;
    }
    let mut j = i;
    while j < end && !is_whitespace(s[j])
        invariant
            i <= j <= end,
            end <= s@.len(),
            word_prefix(t) == s@.subrange(i as int, j as int) + word_prefix(
                s@.subrange(j as int, end as int),
            ),
        decreases end - j,
    {
        proof {
            let u = s@.subrange(j as int, end as int);
            assert(u.drop_first() =~= s@.subrange(j + 1, end as int));
            assert(s@.subrange(i as int, j as int) + (seq![u[0]] + word_prefix(u.drop_first()))
                =~= s@.subrange(i as int, j + 1) + word_prefix(u.drop_first()));
        }
        j = j + 1;
    }
    proof {
        assert(word_prefix(s@.subrange(j as int, end as int)) =~= Seq::<char>::empty());
        assert(s@.subrange(i as int, j as int) + Seq::<char>::empty() =~= s@.subrange(
            i as int,
            j as int,
        ));
    }
    Some(slice_of(s, i, j))
}

// ---------------------------------------------------------------------------
// Ordered sets of character sequences
// ---------------------------------------------------------------------------

/// Lexicographic order by code point: the order of `String`s, whose UTF-8
/// bytes compare the way their code points do.
pub open spec fn seq_lt(a: Seq<char>, b: Seq<char>) -> bool
    decreases a.len(),
{
    if a.len() == 0 {
        b.len() > 0
    } else if b.len() == 0 {
        false
    } else if a[0] != b[0] {
        (a[0] as int) < (b[0] as int)
    } else {
        seq_lt(a.drop_first(), b.drop_first())
    }
}

/// No sequence precedes itself.
pub proof fn lemma_lt_irreflexive(a: Seq<char>)
    ensures
        !seq_lt(a, a),
    decreases a.len(),
{
    if a.len() > 0 {
        lemma_lt_irreflexive(a.drop_first());
    }
}

/// The order is transitive.
pub proof fn lemma_lt_transitive(a: Seq<char>, b: Seq<char>, c: Seq<char>)
    requires
        seq_lt(a, b),
        seq_lt(b, c),
    ensures
        seq_lt(a, c),
    decreases a.len(),
{
    if a.len() > 0 && b.len() > 0 && c.len() > 0 && a[0] == b[0] && b[0] == c[0] {
        lemma_lt_transitive(a.drop_first(), b.drop_first(), c.drop_first());
    }
}

/// Of two different sequences one precedes the other.
pub proof fn lemma_lt_total(a: Seq<char>, b: Seq<char>)
    ensures
        a == b || seq_lt(a, b) || seq_lt(b, a),
    decreases a.len(),
{
    if a.len() > 0 && b.len() > 0 && a[0] == b[0] {
        lemma_lt_total(a.drop_first(), b.drop_first());
        if a.drop_first() == b.drop_first() {
            assert(a =~= seq![a[0]] + a.drop_first());
            assert(b =~= seq![b[0]] + b.drop_first());
        }
    } else if a.len() == 0 && b.len() == 0 {
        assert(a =~= b);
    } else if a.len() > 0 && b.len() > 0 {
        assert((a[0] as int) != (b[0] as int));
    }
}

/// Whether `a` precedes `b`.
pub fn lex_lt(a: &[char], b: &[char]) -> (r: bool)
    ensures
        r == seq_lt(a@, b@),
{
    let mut i: usize = 0;
    assert(a@.subrange(0, a@.len() as int) =~= a@);
    assert(b@.subrange(0, b@.len() as int) =~= b@);
    loop
        invariant
            i <= a@.len(),
            i <= b@.len(),
            seq_lt(a@, b@) == seq_lt(
                a@.subrange(i as int, a@.len() as int),
                b@.subrange(i as int, b@.len() as int),
            ),
        decreases a@.len() - i,
    {
        let ghost sa = a@.subrange(i as int, a@.len() as int);
        let ghost sb = b@.subrange(i as int, b@.len() as int);
        if i == a.len() {
            return i < b.len();
        }
        if i == b.len() {
            return false;
        }
        if a[i] != b[i] {
            assert(sa[0] == a@[i as int] && sb[0] == b@[i as int]);
            return a[i] < b[i];
        }
        proof {
            assert(sa.drop_first() =~= a@.subrange(i + 1, a@.len() as int));
            assert(sb.drop_first() =~= b@.subrange(i + 1, b@.len() as int));
        }
        i = i + 1;
    }
}

/// Strictly ascending: sorted, and nothing twice.
pub open spec fn strictly_sorted(s: Seq<Seq<char>>) -> bool {
    forall|i: int, j: int| 0 <= i < j < s.len() ==> seq_lt(#[trigger] s[i], #[trigger] s[j])
}

/// Add `x` to the ascending set `v`, unless it is there already.
pub fn insert_sorted(v: &mut Vec<Vec<char>>, x: Vec<char>)
    requires
        strictly_sorted(views(old(v)@)),
    ensures
        strictly_sorted(views(final(v)@)),
        views(final(v)@).to_set() == views(old(v)@).to_set().insert(x@),
{
    let ghost s0 = views(v@);
    let mut k: usize = 0;
    while k < v.len() && lex_lt(v[k].as_slice(), x.as_slice())
        invariant
            k <= v@.len(),
            views(v@) == s0,
            strictly_sorted(s0),
            forall|j: int| 0 <= j < k ==> seq_lt(#[trigger] s0[j], x@),
        decreases v@.len() - k,
    {
        k = k + 1;
    }
    if k < v.len() && crate::text::chars_eq(v[k].as_slice(), x.as_slice()) {
        proof {
            assert(s0[k as int] == x@);
            assert(s0.to_set().insert(x@) =~= s0.to_set());
        }
        return;
    }
    proof {
        if k < s0.len() {
            lemma_lt_total(s0[k as int], x@);
        }
    }
    let ghost xv = x@;
    v.insert(k, x);
    proof {
        let s1 = views(v@);
        assert(s1 =~= s0.insert(k as int, xv));
        assert forall|i: int, j: int| 0 <= i < j < s1.len() implies seq_lt(
            #[trigger] s1[i],
            #[trigger] s1[j],
        ) by {
            if j < k {
                assert(s1[i] == s0[i] && s1[j] == s0[j]);
            } else if j == k {
                assert(s1[i] == s0[i]);
            } else if i == k {
                assert(s1[j] == s0[j - 1]);
                if j - 1 > k {
                    assert(seq_lt(s0[k as int], s0[j - 1]));
                    lemma_lt_transitive(xv, s0[k as int], s0[j - 1]);
                }
            } else if i < k {
                assert(s1[i] == s0[i] && s1[j] == s0[j - 1]);
            } else {
                assert(s1[i] == s0[i - 1] && s1[j] == s0[j - 1]);
            }
        }
        assert forall|e: Seq<char>| #[trigger] s1.to_set().contains(e) == s0.to_set().insert(
            xv,
        ).contains(e) by {
            if s1.contains(e) {
                let i = choose|i: int| 0 <= i < s1.len() && s1[i] == e;
                if i < k {
                    assert(s0[i] == e);
                } else if i > k {
                    assert(s0[i - 1] == e);
                }
            }
            if s0.contains(e) {
                let i = choose|i: int| 0 <= i < s0.len() && s0[i] == e;
                if i < k {
                    assert(s1[i] == e);
                } else {
                    assert(s1[i + 1] == e);
                }
            }
            if e == xv {
                assert(s1[k as int] == e);
            }
        }
        assert(s1.to_set() =~= s0.to_set().insert(xv));
    }
}

// ---------------------------------------------------------------------------
// Words after a marker
// ---------------------------------------------------------------------------

/// The set holding the value of `o`, if any.
pub open spec fn opt_set(o: Option<Seq<char>>) -> Set<Seq<char>> {
    match o {
        Some(x) => set![x],
        None => Set::empty(),
    }
}

/// The first words of the pieces of `s[pos..]` that the occurrences of
/// `pat` delimit.
pub open spec fn piece_words(s: Seq<char>, pat: Seq<char>, pos: int) -> Set<Seq<char>>
    decreases s.len() - pos,
{
    if pos < 0 || pos > s.len() || pat.len() == 0 {
        Set::empty()
    } else {
        match find_from(s, pat, pos) {
            Some(j) => if pos <= j && j + pat.len() <= s.len() {
                opt_set(first_word(s.subrange(pos, j))).union(
                    piece_words(s, pat, j + pat.len()),
                )
            } else {
                Set::empty()
            },
            None => opt_set(first_word(s.subrange(pos, s.len() as int))),
        }
    }
}

/// The first word after each occurrence of `pat` in `s`, up to the next
/// occurrence: what `s.split(pat).skip(1)` followed by each piece's
/// `split_whitespace().next()` gives.
pub open spec fn words_after(s: Seq<char>, pat: Seq<char>) -> Set<Seq<char>> {
    match first_index(s, pat) {
        Some(i) => piece_words(s, pat, i + pat.len()),
        None => Set::empty(),
    }
}

/// Add to the ascending set `out` the first word after each occurrence of
/// `pat` in `s`.
pub fn collect_words_after(s: &[char], pat: &[char], out: &mut Vec<Vec<char>>)
    requires
        pat@.len() > 0,
        strictly_sorted(views(old(out)@)),
    ensures
        strictly_sorted(views(final(out)@)),
        views(final(out)@).to_set() == views(old(out)@).to_set().union(words_after(s@, pat@)),
{
    proof {
        lemma_find_from(s@, pat@, 0);
    }
    let first = find(s, pat, 0);
    if first.is_none() {
        proof {
            assert(views(out@).to_set().union(Set::empty()) =~= views(out@).to_set());
        }
        return;
    }
    let n = s.len();
    let m = pat.len();
    let i0 = first.unwrap();
    assert(i0 + m <= n);
    let mut pos: usize = i0 + m;
    let mut done = false;
    let ghost target = views(out@).to_set().union(words_after(s@, pat@));
    while !done
        invariant
            pat@.len() > 0,
            pos <= s@.len(),
            s@.len() == s.len(),
            n == s.len(),
            strictly_sorted(views(out@)),
            !done ==> target == views(out@).to_set().union(piece_words(s@, pat@, pos as int)),
            done ==> target == views(out@).to_set(),
        decreases s@.len() + 1 - pos + if done {
            0int
        } else {
            1int
        },
    {
        proof {
            lemma_find_from(s@, pat@, pos as int);
        }
        let ghost before = views(out@).to_set();
        match find(s, pat, pos) {
            Some(j) => {
                let w = first_word_in(s, pos, j);
                match w {
                    Some(word) => {
                        insert_sorted(out, word);
                    },
                    None => {},
                }
                proof {
                    assert(target =~= views(out@).to_set().union(
                        piece_words(s@, pat@, j + pat@.len()),
                    ));
                }
                let k = pat.len();
                assert(j + k <= n);
                pos = j + k;
            },
            None => {
                let w = first_word_in(s, pos, s.len());
                match w {
                    Some(word) => {
                        insert_sorted(out, word);
                    },
                    None => {},
                }
                proof {
                    assert(target =~= views(out@).to_set());
                }
                done = true;
            },
        }
    }
}

} // verus!
