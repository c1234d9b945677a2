//! Formatting values for diagnostics and for the REPL's echo.
//!
//! A value is printed as `write` prints it: a node a cycle returns to is
//! labelled (`#0=(1 2 . #0#)`), structure that is merely shared is printed
//! in full each time. The printer yields characters and, for each inexact
//! real, the bits of its double, which the caller spells.
use vstd::prelude::*;
use crate::text::{chars_of, push_str, push_decimal, push_signed_decimal, string_from_chars, decimal, signed_decimal};
use crate::tagged_value::TaggedValue;
use crate::heap::{Heap, HeapObjectData};
use crate::scope::scopes_text;
use crate::cps_expr::prompt_tag_text;
use num_bigint::BigInt;
use num_rational::BigRational;

pub mod cycles;
pub mod tokens;
use tokens::{PrintToken, text_tokens, lemma_tokens};
use cycles::{Marks, CycleSearch, marked_cyclic, walk, walk_within, search_visit, unseen_marks, marks_fit, WALK_BUDGET};

verus! {

broadcast use lemma_tokens;

/// Whether `c` renders as nothing, or as something a reader cannot tell
/// from another name: the soft hyphen, zero-width and bidi controls, the
/// word joiner and invisible operators, the byte-order mark, and every
/// control character.
pub open spec fn is_invisible(c: char) -> bool {
    let u = c as u32;
    ||| u <= 0x1F
    ||| 0x7F <= u <= 0x9F
    ||| u == 0xAD
    ||| 0x200B <= u <= 0x200F
    ||| 0x2028 <= u <= 0x202E
    ||| 0x2060 <= u <= 0x2064
    ||| 0x2066 <= u <= 0x2069
    ||| u == 0xFEFF
}

/// The lowercase hexadecimal digit of `d < 16`.
pub open spec fn hex_digit(d: nat) -> char {
    if d < 10 {
        ((d + 48) as u8) as char
    } else {
        ((d + 87) as u8) as char
    }
}

/// `u < 0x10000` as four lowercase hexadecimal digits.
pub open spec fn hex4(u: nat) -> Seq<char> {
    seq![
        hex_digit((u / 4096) % 16),
        hex_digit((u / 256) % 16),
        hex_digit((u / 16) % 16),
        hex_digit(u % 16),
    ]
}

/// How `c` is written in a diagnostic: `\u{200b}` for an invisible
/// character, the character itself otherwise.
pub open spec fn shown_char(c: char) -> Seq<char> {
    if is_invisible(c) {
        "\\u{"@ + hex4((c as u32) as nat) + "}"@
    } else {
        seq![c]
    }
}

/// A name with its invisible characters spelled out.
pub open spec fn shown_name(s: Seq<char>) -> Seq<char>
    decreases s.len(),
{
    if s.len() == 0 {
        Seq::empty()
    } else {
        shown_name(s.drop_last()) + shown_char(s.last())
    }
}

/// Whether `c` is invisible.
fn invisible(c: char) -> (r: bool)
    ensures
        r == is_invisible(c),
{
    let u = c as u32;
    u <= 0x1F || (0x7F <= u && u <= 0x9F) || u == 0xAD || (0x200B <= u && u <= 0x200F) || (0x2028
        <= u && u <= 0x202E) || (0x2060 <= u && u <= 0x2064) || (0x2066 <= u && u <= 0x2069) || u
        == 0xFEFF
}

/// The hexadecimal digit of `d < 16`.
fn hex_char(d: u32) -> (r: char)
    requires
        d < 16,
    ensures
        r == hex_digit(d as nat),
{
    if d < 10 {
        ((d as u8) + 48) as char
    } else {
        ((d as u8) + 87) as char
    }
}

/// Render a name with its invisible characters spelled out as `\u{XXXX}`,
/// so that a diagnostic never names a variable that renders as nothing or
/// as another name. What a reader can see is left alone.
pub fn escape_invisible(name: &str) -> (r: String)
    ensures
        r@ == shown_name(name@),
{
    let cs = chars_of(name);
    let mut out: Vec<char> = Vec::new();
    let mut k: usize = 0;
    while k < cs.len()
        invariant
            k <= cs@.len(),
            cs@ == name@,
            out@ == shown_name(name@.take(k as int)),
        decreases cs@.len() - k,
    {
        let c = cs[k];
        proof {
            assert(name@.take(k + 1).drop_last() =~= name@.take(k as int));
            assert(name@.take(k + 1).last() == c);
        }
        if invisible(c) {
            let u = c as u32;
            assert(u <= 0xFEFF);
            push_str(&mut out, "\\u{");
            out.push(hex_char((u / 4096) % 16));
            out.push(hex_char((u / 256) % 16));
            out.push(hex_char((u / 16) % 16));
            out.push(hex_char(u % 16));
            push_str(&mut out, "}");
            proof {
                let h = hex4((c as u32) as nat);
                assert(h[0] == hex_digit(((u / 4096) % 16) as nat));
                assert(h[3] == hex_digit((u % 16) as nat));
                assert(shown_char(c) == "\\u{"@ + h + "}"@);
                assert(out@ =~= shown_name(name@.take(k + 1)));
            }
        } else {
            out.push(c);
            proof {
                assert(out@ =~= shown_name(name@.take(k + 1)));
            }
        }
        k = k + 1;
    }
    proof {
        assert(name@.take(k as int) =~= name@);
    }
    string_from_chars(&out)
}

// ---------------------------------------------------------------------------
// Printing values
// ---------------------------------------------------------------------------

/// How many levels deep the printer and the cycle search go at most: more
/// than any stack holds.
pub const PRINT_FUEL: u64 = 0xffff_ffff_ffff_ffff;

/// Whether the spelling of the double with bits `bits` starts with a sign:
/// `+inf.0`, `-inf.0` and `+nan.0` do, and so does every negative number,
/// negative zero included.
pub open spec fn real_shows_sign(bits: u64) -> bool {
    (bits / 0x10_0000_0000_0000) % 0x800 == 0x7ff || bits >= 0x8000_0000_0000_0000
}

/// Whether printed tokens start with a sign.
pub open spec fn leads_with_sign(t: Seq<PrintToken>) -> bool {
    t.len() > 0 && match t[0] {
        PrintToken::Char(u) => u == 0x2d || u == 0x2b,
        PrintToken::Real(bits) => real_shows_sign(bits),
    }
}

/// How a complex number is spelled from its parts' spellings and whether
/// each part is an exact zero: an exact zero part is dropped, a unit
/// imaginary part is written `i` alone.
pub open spec fn complex_spelling(
    re: Seq<PrintToken>,
    im: Seq<PrintToken>,
    re_zero: bool,
    im_zero: bool,
) -> Seq<PrintToken> {
    if re_zero && im_zero {
        text_tokens("0"@)
    } else if re_zero {
        if im == text_tokens("1"@) {
            text_tokens("+i"@)
        } else if im == text_tokens("-1"@) {
            text_tokens("-i"@)
        } else if leads_with_sign(im) {
            im + text_tokens("i"@)
        } else {
            text_tokens("+"@) + im + text_tokens("i"@)
        }
    } else if im_zero {
        re
    } else if im == text_tokens("1"@) {
        re + text_tokens("+i"@)
    } else if im == text_tokens("-1"@) {
        re + text_tokens("-i"@)
    } else if leads_with_sign(im) {
        re + im + text_tokens("i"@)
    } else {
        re + text_tokens("+"@) + im + text_tokens("i"@)
    }
}

/// The bytes of a bytevector in decimal, separated by spaces.
pub open spec fn bytes_text(b: Seq<u8>) -> Seq<char>
    decreases b.len(),
{
    if b.len() == 0 {
        Seq::empty()
    } else if b.len() == 1 {
        decimal(b[0] as nat)
    } else {
        bytes_text(b.drop_last()) + " "@ + decimal(b.last() as nat)
    }
}

/// The position of the first `tv` in `labels`.
pub open spec fn label_index(labels: Seq<TaggedValue>, tv: TaggedValue) -> Option<nat>
    decreases labels.len(),
{
    if labels.len() == 0 {
        None
    } else {
        match label_index(labels.drop_last(), tv) {
            Some(k) => Some(k),
            None => if labels.last() == tv {
                Some((labels.len() - 1) as nat)
            } else {
                None
            },
        }
    }
}

/// Whether a cycle returns to `tv`, by the search's marks.
pub open spec fn is_cyclic_in(cyc: Option<Marks>, tv: TaggedValue) -> bool {
    match cyc {
        None => false,
        Some(m) => marked_cyclic(m, tv),
    }
}

/// The label written before `tv`, whether it stands for the whole node,
/// and the labels after: `#n#` for a node already labelled, `#n=` for a
/// cyclic node met for the first time, nothing otherwise.
pub open spec fn label_mark(cyc: Option<Marks>, labels: Seq<TaggedValue>, tv: TaggedValue) -> (
    Seq<PrintToken>,
    bool,
    Seq<TaggedValue>,
) {
    if !is_cyclic_in(cyc, tv) {
        (Seq::empty(), false, labels)
    } else {
        match label_index(labels, tv) {
            Some(n) => (text_tokens("#"@) + text_tokens(decimal(n)) + text_tokens("#"@), true, labels),
            None => (text_tokens("#"@) + text_tokens(decimal(labels.len())) + text_tokens("="@), false, labels.push(tv)),
        }
    }
}

/// The marks a printer of `tv` labels by: none when a plain walk ends
/// within its budget, the search's otherwise.
pub open spec fn cyclic_marks(heap: &Heap, tv: TaggedValue) -> Option<Marks> {
    if walk(heap, tv, WALK_BUDGET as nat) is Some {
        None
    } else {
        Some(search_visit(heap, tv, unseen_marks(heap), PRINT_FUEL as nat))
    }
}

/// How `tv` is printed on its own, `fuel` levels deep at most.
pub open spec fn printed_root(heap: &Heap, tv: TaggedValue, with_scopes: bool, fuel: nat) -> Seq<
    PrintToken,
>
    decreases fuel, 1int, 0int,
{
    printed(heap, tv, cyclic_marks(heap, tv), Seq::empty(), with_scopes, fuel).0
}

/// The tokens of `tv` and the labels after, with `labels` given so far.
pub open spec fn printed(
    heap: &Heap,
    tv: TaggedValue,
    cyc: Option<Marks>,
    labels: Seq<TaggedValue>,
    with_scopes: bool,
    fuel: nat,
) -> (Seq<PrintToken>, Seq<TaggedValue>)
    decreases fuel, 0int, 0int,
{
    if fuel == 0 {
        (Seq::empty(), labels)
    } else {
        let (pre, whole, l1) = label_mark(cyc, labels, tv);
        if whole {
            (pre, l1)
        } else {
            let (body, l2) = printed_body(heap, tv, cyc, l1, with_scopes, (fuel - 1) as nat);
            (pre + body, l2)
        }
    }
}

/// The tokens of `tv` after its label, and the labels after.
pub open spec fn printed_body(
    heap: &Heap,
    tv: TaggedValue,
    cyc: Option<Marks>,
    l1: Seq<TaggedValue>,
    with_scopes: bool,
    f: nat,
) -> (Seq<PrintToken>, Seq<TaggedValue>)
    decreases f, 3int, 0int,
{
    match tv {
        TaggedValue::Fixnum(n) => (text_tokens(signed_decimal(n as int)), l1),
        TaggedValue::Boolean(b) => (if b { text_tokens("#t"@) } else { text_tokens("#f"@) }, l1),
        TaggedValue::Null => (text_tokens("()"@), l1),
        TaggedValue::Char(c) => (text_tokens("#\\"@) + seq![PrintToken::Char(c as u32)], l1),
        TaggedValue::Eof => (text_tokens("#<eof>"@), l1),
        TaggedValue::Unspecified => (text_tokens("#<unspecified>"@), l1),
        TaggedValue::Pair(_) => {
            let (t, l) = printed_list(heap, tv, true, cyc, l1, with_scopes, f);
            (text_tokens("("@) + t + text_tokens(")"@), l)
        },
        TaggedValue::Str(i) => (
            text_tokens("\""@) + text_tokens(heap.string_slots()[i as int]) + text_tokens("\""@),
            l1,
        ),
        TaggedValue::Vector(i) => {
            let (t, l) = printed_each(heap, heap.vector_slots()[i as int], 0, " "@, cyc, l1, with_scopes, f);
            (text_tokens("#("@) + t + text_tokens(")"@), l)
        },
        TaggedValue::Object(i) => printed_object(heap, heap.object_slots()[i as int], cyc, l1, with_scopes, f),
    }
}

/// The tokens of the object `d` and the labels after.
pub open spec fn printed_object(
    heap: &Heap,
    d: HeapObjectData,
    cyc: Option<Marks>,
    l1: Seq<TaggedValue>,
    with_scopes: bool,
    fuel: nat,
) -> (Seq<PrintToken>, Seq<TaggedValue>)
    decreases fuel, 2int, 0int,
{
    match d {
        HeapObjectData::BigInt(n) => (text_tokens(bigint_text(n)), l1),
        HeapObjectData::Rational(q) => (text_tokens(rational_text(q)), l1),
        HeapObjectData::Real(bits) => (seq![PrintToken::Real(bits)], l1),
        HeapObjectData::Complex { real: re, imag: im } => (
            complex_spelling(
                printed_root(heap, re, false, fuel),
                printed_root(heap, im, false, fuel),
                heap.spec_is_exact_zero(re),
                heap.spec_is_exact_zero(im),
            ),
            l1,
        ),
        HeapObjectData::Symbol(name) => (text_tokens(name@), l1),
        HeapObjectData::Identifier { name, scopes } => (
            if with_scopes && scopes.ids_view().len() != 0 {
                text_tokens(name@) + text_tokens(scopes_text(scopes))
            } else {
                text_tokens(name@)
            },
            l1,
        ),
        HeapObjectData::Bytevector(b) => (
            text_tokens("#u8("@) + text_tokens(bytes_text(b@)) + text_tokens(")"@),
            l1,
        ),
        HeapObjectData::Exception { message, .. } => (
            text_tokens("#<error-object: "@) + text_tokens(message@) + text_tokens(">"@),
            l1,
        ),
        HeapObjectData::RecordType(rtd) => (
            text_tokens("#<record-type "@) + text_tokens(rtd.name@) + text_tokens(">"@),
            l1,
        ),
        HeapObjectData::Record { record_type, .. } => (
            text_tokens("#<record "@) + text_tokens(record_type.name@) + text_tokens(">"@),
            l1,
        ),
        HeapObjectData::Parameter { .. } => (text_tokens("#<parameter>"@), l1),
        HeapObjectData::Promise(_) => (text_tokens("#<promise>"@), l1),
        HeapObjectData::Values(vs) => printed_each(heap, vs@, 0, "\n"@, cyc, l1, with_scopes, fuel),
        HeapObjectData::PromptTag(t) => (text_tokens(prompt_tag_text(t)), l1),
        HeapObjectData::LabelPlaceholder(n) => (
            text_tokens("#<label-placeholder:"@) + text_tokens(decimal(n as nat)) + text_tokens(">"@),
            l1,
        ),
        HeapObjectData::MutableCell(c) => {
            let (t, l) = printed(heap, c, cyc, l1, with_scopes, fuel);
            (text_tokens("#<cell:"@) + t + text_tokens(">"@), l)
        },
        HeapObjectData::VmClosure { code_id, .. } => (
            text_tokens("#<procedure:"@) + text_tokens(decimal(code_id as nat)) + text_tokens(">"@),
            l1,
        ),
        HeapObjectData::VmContinuationRef(id) => (
            text_tokens("#<continuation:"@) + text_tokens(decimal(id as nat)) + text_tokens(">"@),
            l1,
        ),
        HeapObjectData::VmDelimitedContinuationRef(id) => (
            text_tokens("#<delimited-continuation:"@) + text_tokens(decimal(id as nat)) + text_tokens(
                ">"@,
            ),
            l1,
        ),
        HeapObjectData::Free => (text_tokens("#<gc-freed-slot>"@), l1),
    }
}

/// The contents of the list at `current`, between its brackets. A pair in
/// the spine that a cycle returns to is written as a dotted tail, so that
/// its label has somewhere to go: `(1 2 . #0#)`.
pub open spec fn printed_list(
    heap: &Heap,
    current: TaggedValue,
    first: bool,
    cyc: Option<Marks>,
    labels: Seq<TaggedValue>,
    with_scopes: bool,
    fuel: nat,
) -> (Seq<PrintToken>, Seq<TaggedValue>)
    decreases fuel, 0int, 0int,
{
    if fuel == 0 || current is Null {
        (Seq::empty(), labels)
    } else {
        match current {
            TaggedValue::Pair(i) if first || !is_cyclic_in(cyc, current) => {
                let (t1, l1) = printed(
                    heap,
                    heap.pair_slots()[i as int].0,
                    cyc,
                    labels,
                    with_scopes,
                    (fuel - 1) as nat,
                );
                let (t2, l2) = printed_list(
                    heap,
                    heap.pair_slots()[i as int].1,
                    false,
                    cyc,
                    l1,
                    with_scopes,
                    (fuel - 1) as nat,
                );
                ((if first { Seq::empty() } else { text_tokens(" "@) }) + t1 + t2, l2)
            },
            _ => {
                let (t1, l1) = printed(heap, current, cyc, labels, with_scopes, (fuel - 1) as nat);
                (text_tokens(" . "@) + t1, l1)
            },
        }
    }
}

/// The elements of `vs` from position `k`, `sep` between them.
pub open spec fn printed_each(
    heap: &Heap,
    vs: Seq<TaggedValue>,
    k: int,
    sep: Seq<char>,
    cyc: Option<Marks>,
    labels: Seq<TaggedValue>,
    with_scopes: bool,
    fuel: nat,
) -> (Seq<PrintToken>, Seq<TaggedValue>)
    decreases fuel, 1int, vs.len() - k,
{
    if 0 <= k < vs.len() {
        let (t1, l1) = printed(heap, vs[k], cyc, labels, with_scopes, fuel);
        let (t2, l2) = printed_each(heap, vs, k + 1, sep, cyc, l1, with_scopes, fuel);
        ((if k > 0 { text_tokens(sep) } else { Seq::empty() }) + t1 + t2, l2)
    } else {
        (Seq::empty(), labels)
    }
}

/// The decimal spelling that `Display for BigInt` gives a big integer.
pub uninterp spec fn bigint_text(n: BigInt) -> Seq<char>;

/// The spelling that `Display for Ratio<BigInt>` gives a rational:
/// numerator and denominator with a slash between, or the numerator alone
/// when the denominator is one.
pub uninterp spec fn rational_text(q: BigRational) -> Seq<char>;

/// Calls `Display for BigInt`, which writes the decimal digits, after a
/// minus sign when negative. The contract names the spelling and says it.
#[verifier::external_body]
fn bigint_display(n: &BigInt) -> (r: String)
    ensures
        r@ == bigint_text(*n),
        r@ == signed_decimal(crate::heap::numeric::bigint_value(*n)),
{
    format!("{}", n)
}

/// Calls `Display for Ratio<BigInt>`, which writes the numerator alone when
/// the denominator is one, else numerator, slash and denominator, each as
/// `Display for BigInt` writes it. The contract names the spelling and
/// says it.
#[verifier::external_body]
fn rational_display(q: &BigRational) -> (r: String)
    ensures
        r@ == rational_text(*q),
        r@ == if crate::heap::numeric::ratio_denom(*q) == 1 {
            signed_decimal(crate::heap::numeric::ratio_numer(*q))
        } else {
            signed_decimal(crate::heap::numeric::ratio_numer(*q)) + "/"@ + signed_decimal(
                crate::heap::numeric::ratio_denom(*q),
            )
        },
{
    format!("{}", q)
}

// ---------------------------------------------------------------------------
// The printer
// ---------------------------------------------------------------------------

/// Append the characters of `cs` as tokens.
fn push_token_chars(out: &mut Vec<PrintToken>, cs: &[char])
    ensures
        final(out)@ == old(out)@ + text_tokens(cs@),
{
    let mut k: usize = 0;
    assert(out@ =~= old(out)@ + text_tokens(cs@.take(0)));
    while k < cs.len()
        invariant
            k <= cs@.len(),
            out@ == old(out)@ + text_tokens(cs@.take(k as int)),
        decreases cs@.len() - k,
    {
        out.push(PrintToken::Char(cs[k] as u32));
        proof {
            assert(text_tokens(cs@.take(k + 1)) =~= text_tokens(cs@.take(k as int)).push(PrintToken::Char(cs@[k as int] as u32)));
            assert(out@ =~= old(out)@ + text_tokens(cs@.take(k + 1)));
        }
        k = k + 1;
    }
    proof {
        assert(cs@.take(k as int) =~= cs@);
    }
}

/// Append the characters of `s` as tokens.
fn push_token_text(out: &mut Vec<PrintToken>, s: &str)
    ensures
        final(out)@ == old(out)@ + text_tokens(s@),
{
    let cs = chars_of(s);
    push_token_chars(out, cs.as_slice());
}

/// Append the decimal spelling of `n` as tokens.
fn push_token_decimal(out: &mut Vec<PrintToken>, n: u64)
    ensures
        final(out)@ == old(out)@ + text_tokens(decimal(n as nat)),
{
    let mut cs: Vec<char> = Vec::new();
    push_decimal(&mut cs, n);
    assert(cs@ =~= decimal(n as nat));
    push_token_chars(out, cs.as_slice());
}

/// Append the decimal spelling of a signed `n` as tokens.
fn push_token_signed(out: &mut Vec<PrintToken>, n: i64)
    ensures
        final(out)@ == old(out)@ + text_tokens(signed_decimal(n as int)),
{
    let mut cs: Vec<char> = Vec::new();
    push_signed_decimal(&mut cs, n);
    assert(cs@ =~= signed_decimal(n as int));
    push_token_chars(out, cs.as_slice());
}

/// Append `t`.
fn push_tokens(out: &mut Vec<PrintToken>, t: &Vec<PrintToken>)
    ensures
        final(out)@ == old(out)@ + t@,
{
    let mut k: usize = 0;
    assert(out@ =~= old(out)@ + t@.take(0));
    while k < t.len()
        invariant
            k <= t@.len(),
            out@ == old(out)@ + t@.take(k as int),
        decreases t@.len() - k,
    {
        out.push(t[k]);
        proof {
            assert(t@.take(k + 1) =~= t@.take(k as int).push(t@[k as int]));
            assert(out@ =~= old(out)@ + t@.take(k + 1));
        }
        k = k + 1;
    }
    proof {
        assert(t@.take(k as int) =~= t@);
    }
}

/// Whether `t` is the characters of `lit`.
fn tokens_are(t: &Vec<PrintToken>, lit: &str) -> (r: bool)
    ensures
        r == (t@ == text_tokens(lit@)),
{
    let cs = chars_of(lit);
    assert(text_tokens(lit@).len() == lit@.len());
    if t.len() != cs.len() {
        proof {
            assert(text_tokens(lit@).len() == cs@.len());
        }
        return false;
    }
    let mut k: usize = 0;
    while k < t.len()
        invariant
            k <= t@.len(),
            t@.len() == cs@.len(),
            cs@ == lit@,
            forall|j: int| 0 <= j < k ==> t@[j] == PrintToken::Char(cs@[j] as u32),
        decreases t@.len() - k,
    {
        if t[k] != PrintToken::Char(cs[k] as u32) {
            proof {
                lemma_tokens(lit@);
                assert(text_tokens(lit@)[k as int] == PrintToken::Char(cs@[k as int] as u32));
            }
            return false;
        }
        k = k + 1;
    }
    proof {
        assert(t@ =~= text_tokens(lit@));
    }
    true
}

/// Whether `t` starts with a sign.
fn starts_with_sign(t: &Vec<PrintToken>) -> (r: bool)
    ensures
        r == leads_with_sign(t@),
{
    if t.len() == 0 {
        return false;
    }
    match t[0] {
        PrintToken::Char(u) => u == 0x2d || u == 0x2b,
        PrintToken::Real(bits) => (bits / 0x10_0000_0000_0000) % 0x800 == 0x7ff || bits
            >= 0x8000_0000_0000_0000,
    }
}

/// Append how a complex number is spelled from its parts' spellings.
fn push_complex(out: &mut Vec<PrintToken>, re: &Vec<PrintToken>, im: &Vec<PrintToken>, re_zero: bool, im_zero: bool)
    ensures
        final(out)@ == old(out)@ + complex_spelling(re@, im@, re_zero, im_zero),
{
    let ghost o = out@;
    if re_zero && im_zero {
        push_token_text(out, "0");
    } else if re_zero {
        if tokens_are(im, "1") {
            push_token_text(out, "+i");
        } else if tokens_are(im, "-1") {
            push_token_text(out, "-i");
        } else if starts_with_sign(im) {
            push_tokens(out, im);
            push_token_text(out, "i");
            assert(out@ =~= o + (im@ + text_tokens("i"@)));
        } else {
            push_token_text(out, "+");
            push_tokens(out, im);
            push_token_text(out, "i");
            assert(out@ =~= o + (text_tokens("+"@) + im@ + text_tokens("i"@)));
        }
    } else if im_zero {
        push_tokens(out, re);
    } else if tokens_are(im, "1") {
        push_tokens(out, re);
        push_token_text(out, "+i");
        assert(out@ =~= o + (re@ + text_tokens("+i"@)));
    } else if tokens_are(im, "-1") {
        push_tokens(out, re);
        push_token_text(out, "-i");
        assert(out@ =~= o + (re@ + text_tokens("-i"@)));
    } else if starts_with_sign(im) {
        push_tokens(out, re);
        push_tokens(out, im);
        push_token_text(out, "i");
        assert(out@ =~= o + (re@ + im@ + text_tokens("i"@)));
    } else {
        push_tokens(out, re);
        push_token_text(out, "+");
        push_tokens(out, im);
        push_token_text(out, "i");
        assert(out@ =~= o + (re@ + text_tokens("+"@) + im@ + text_tokens("i"@)));
    }
}

/// Append the bytes of a bytevector in decimal, separated by spaces.
fn push_bytes(out: &mut Vec<PrintToken>, b: &Vec<u8>)
    ensures
        final(out)@ == old(out)@ + text_tokens(bytes_text(b@)),
{
    let mut cs: Vec<char> = Vec::new();
    let mut k: usize = 0;
    while k < b.len()
        invariant
            k <= b@.len(),
            cs@ == bytes_text(b@.take(k as int)),
        decreases b@.len() - k,
    {
        if k > 0 {
            push_str(&mut cs, " ");
        }
        push_decimal(&mut cs, b[k] as u64);
        proof {
            assert(b@.take(k + 1).drop_last() =~= b@.take(k as int));
            if k == 0 {
                assert(b@.take(0) =~= Seq::<u8>::empty());
            }
            assert(cs@ =~= bytes_text(b@.take(k + 1)));
        }
        k = k + 1;
    }
    proof {
        assert(b@.take(k as int) =~= b@);
    }
    push_token_chars(out, cs.as_slice());
}

/// What one printing carries down: whether to show scopes, the marks of
/// the nodes a cycle returns to, and the labels given so far, in the order
/// they were first printed.
pub struct Printer {
    with_scopes: bool,
    cyclic: Option<CycleSearch>,
    labels: Vec<TaggedValue>,
}

impl Printer {
    /// The search's marks, when the search ran.
    pub closed spec fn cyc(&self) -> Option<Marks> {
        match self.cyclic {
            Some(cs) => Some(cs.marks()),
            None => None,
        }
    }

    /// The labelled nodes, by label.
    pub closed spec fn label_list(&self) -> Seq<TaggedValue> {
        self.labels@
    }

    /// Whether identifiers show their scopes.
    pub closed spec fn shows_scopes(&self) -> bool {
        self.with_scopes
    }

    /// The marks fit `heap`.
    pub closed spec fn fits(&self, heap: &Heap) -> bool {
        match self.cyclic {
            Some(cs) => marks_fit(cs.marks(), heap),
            None => true,
        }
    }

    /// A printer for `tv`: no labels unless a plain walk of `tv` runs out
    /// of budget, and then the search's.
    pub fn new(tv: TaggedValue, heap: &Heap, with_scopes: bool) -> (r: Printer)
        requires
            heap.wf(),
            heap.valid_value(tv),
        ensures
            r.cyc() == cyclic_marks(heap, tv),
            r.label_list() == Seq::<TaggedValue>::empty(),
            r.shows_scopes() == with_scopes,
            r.fits(heap),
    {
        match walk_within(tv, heap, WALK_BUDGET) {
            Some(_) => Printer { with_scopes, cyclic: None, labels: Vec::new() },
            None => {
                let mut cs = CycleSearch::new(heap);
                cs.visit(tv, heap, PRINT_FUEL);
                Printer { with_scopes, cyclic: Some(cs), labels: Vec::new() }
            },
        }
    }

    /// Whether a cycle returns to `tv`.
    fn is_cyclic(&self, tv: TaggedValue, heap: &Heap) -> (r: bool)
        requires
            self.fits(heap),
            heap.valid_value(tv),
        ensures
            r == is_cyclic_in(self.cyc(), tv),
    {
        match &self.cyclic {
            None => false,
            Some(cs) => {
                if tv.is_pair() || tv.is_vector() || tv.is_object() {
                    let b = cs.mark(tv);
                    b == cycles::ON_PATH_CYCLIC || b == cycles::DONE_CYCLIC
                } else {
                    false
                }
            },
        }
    }

    /// Write `#n#` and answer `true` if `tv` has been labelled already;
    /// otherwise, if a cycle returns to it, write `#n=` before it is printed.
    #[verifier::loop_isolation(false)]
    fn label(&mut self, tv: TaggedValue, heap: &Heap, out: &mut Vec<PrintToken>) -> (whole: bool)
        requires
            old(self).fits(heap),
            heap.valid_value(tv),
        ensures
            final(out)@ == old(out)@ + label_mark(old(self).cyc(), old(self).label_list(), tv).0,
            whole == label_mark(old(self).cyc(), old(self).label_list(), tv).1,
            final(self).label_list() == label_mark(old(self).cyc(), old(self).label_list(), tv).2,
            final(self).cyc() == old(self).cyc(),
            final(self).shows_scopes() == old(self).shows_scopes(),
            final(self).fits(heap),
    {
        if !self.is_cyclic(tv, heap) {
            return false;
        }
        let mut k: usize = 0;
        while k < self.labels.len()
            invariant
                k <= self.labels@.len(),
                label_index(self.labels@.take(k as int), tv) is None,
                out@ == old(out)@,
            decreases self.labels@.len() - k,
        {
            proof {
                assert(self.labels@.take(k + 1).drop_last() =~= self.labels@.take(k as int));
            }
            if self.labels[k] == tv {
                let ghost o = out@;
                push_token_text(out, "#");
                push_token_decimal(out, k as u64);
                push_token_text(out, "#");
                proof {
                    assert(label_index(self.labels@.take(k + 1), tv) == Some(k as nat));
                    lemma_label_index_prefix(self.labels@, tv, (k + 1) as int);
                    assert(out@ =~= o + (text_tokens("#"@) + text_tokens(decimal(k as nat)) + text_tokens("#"@)));
                }
                return true;
            }
            k = k + 1;
        }
        proof {
            assert(self.labels@.take(k as int) =~= self.labels@);
        }
        let ghost o = out@;
        push_token_text(out, "#");
        push_token_decimal(out, self.labels.len() as u64);
        push_token_text(out, "=");
        proof {
            assert(out@ =~= o + (text_tokens("#"@) + text_tokens(decimal(self.labels@.len())) + text_tokens("="@)));
        }
        self.labels.push(tv);
        false
    }
}

/// A label found in a prefix is the label of the whole.
proof fn lemma_label_index_prefix(labels: Seq<TaggedValue>, tv: TaggedValue, k: int)
    requires
        0 <= k <= labels.len(),
        label_index(labels.take(k), tv) is Some,
    ensures
        label_index(labels, tv) == label_index(labels.take(k), tv),
    decreases labels.len() - k,
{
    if k < labels.len() {
        assert(labels.take(k + 1).drop_last() =~= labels.take(k));
        lemma_label_index_prefix(labels, tv, k + 1);
    } else {
        assert(labels.take(k) =~= labels);
    }
}

impl Printer {
    /// Append the tokens of `tv`, `fuel` levels deep at most.
    pub fn print(&mut self, tv: TaggedValue, heap: &Heap, out: &mut Vec<PrintToken>, fuel: u64)
        requires
            heap.wf(),
            heap.valid_value(tv),
            old(self).fits(heap),
        ensures
            final(self).cyc() == old(self).cyc(),
            final(self).shows_scopes() == old(self).shows_scopes(),
            final(self).fits(heap),
            final(out)@ == old(out)@ + printed(
                heap,
                tv,
                old(self).cyc(),
                old(self).label_list(),
                old(self).shows_scopes(),
                fuel as nat,
            ).0,
            final(self).label_list() == printed(
                heap,
                tv,
                old(self).cyc(),
                old(self).label_list(),
                old(self).shows_scopes(),
                fuel as nat,
            ).1,
        decreases fuel, 0int,
    {
        if fuel == 0 {
            assert(out@ =~= old(out)@ + Seq::<PrintToken>::empty());
            return;
        }
        let ghost o = out@;
        if self.label(tv, heap, out) {
            return;
        }
        let ghost o1 = out@;
        self.print_body(tv, heap, out, fuel - 1);
        proof {
            assert(out@ =~= o + (o1.subrange(o.len() as int, o1.len() as int) + out@.subrange(o1.len() as int, out@.len() as int)));
        }
    }

    /// Append the tokens of `tv` after its label.
    fn print_body(&mut self, tv: TaggedValue, heap: &Heap, out: &mut Vec<PrintToken>, f: u64)
        requires
            heap.wf(),
            heap.valid_value(tv),
            old(self).fits(heap),
        ensures
            final(self).cyc() == old(self).cyc(),
            final(self).shows_scopes() == old(self).shows_scopes(),
            final(self).fits(heap),
            final(out)@ == old(out)@ + printed_body(
                heap,
                tv,
                old(self).cyc(),
                old(self).label_list(),
                old(self).shows_scopes(),
                f as nat,
            ).0,
            final(self).label_list() == printed_body(
                heap,
                tv,
                old(self).cyc(),
                old(self).label_list(),
                old(self).shows_scopes(),
                f as nat,
            ).1,
        decreases f, 3int,
    {
        let ghost o1 = out@;
        match tv {
            TaggedValue::Fixnum(n) => push_token_signed(out, n),
            TaggedValue::Boolean(b) => {
                if b {
                    push_token_text(out, "#t");
                } else {
                    push_token_text(out, "#f");
                }
            },
            TaggedValue::Null => push_token_text(out, "()"),
            TaggedValue::Char(c) => {
                push_token_text(out, "#\\");
                out.push(PrintToken::Char(c as u32));
                assert(out@ =~= o1 + (text_tokens("#\\"@) + seq![PrintToken::Char(c as u32)]));
            },
            TaggedValue::Eof => push_token_text(out, "#<eof>"),
            TaggedValue::Unspecified => push_token_text(out, "#<unspecified>"),
            TaggedValue::Pair(_) => {
                push_token_text(out, "(");
                let ghost o2 = out@;
                self.print_list(tv, heap, out, f);
                let ghost o3 = out@;
                push_token_text(out, ")");
                assert(out@ =~= o1 + (text_tokens("("@) + o3.subrange(o2.len() as int, o3.len() as int) + text_tokens(")"@)));
            },
            TaggedValue::Str(_) => {
                push_token_text(out, "\"");
                push_token_chars(out, heap.get_string_chars(tv));
                push_token_text(out, "\"");
                assert(out@ =~= o1 + (text_tokens("\""@) + text_tokens(heap.string_slots()[tv->Str_0 as int]) + text_tokens("\""@)));
            },
            TaggedValue::Vector(_) => {
                push_token_text(out, "#(");
                let ghost o2 = out@;
                proof {
                    assert(heap.all_valid(heap.vector_slots()[tv->Vector_0 as int]));
                }
                self.print_each(heap.vector_slice(tv), " ", heap, out, f);
                let ghost o3 = out@;
                push_token_text(out, ")");
                assert(out@ =~= o1 + (text_tokens("#("@) + o3.subrange(o2.len() as int, o3.len() as int) + text_tokens(")"@)));
            },
            TaggedValue::Object(_) => self.print_object(tv, heap, out, f),
        }
    }

    /// Append the contents of the list at `tv`, between its brackets.
    fn print_list(&mut self, tv: TaggedValue, heap: &Heap, out: &mut Vec<PrintToken>, fuel: u64)
        requires
            heap.wf(),
            heap.valid_value(tv),
            old(self).fits(heap),
        ensures
            final(self).cyc() == old(self).cyc(),
            final(self).shows_scopes() == old(self).shows_scopes(),
            final(self).fits(heap),
            final(out)@ == old(out)@ + printed_list(
                heap,
                tv,
                true,
                old(self).cyc(),
                old(self).label_list(),
                old(self).shows_scopes(),
                fuel as nat,
            ).0,
            final(self).label_list() == printed_list(
                heap,
                tv,
                true,
                old(self).cyc(),
                old(self).label_list(),
                old(self).shows_scopes(),
                fuel as nat,
            ).1,
        decreases fuel, 1int,
    {
        let ghost cyc = self.cyc();
        let ghost ws = self.shows_scopes();
        let ghost target = printed_list(heap, tv, true, cyc, self.label_list(), ws, fuel as nat);
        let ghost o = out@;
        let mut current = tv;
        let mut first = true;
        let mut ff: u64 = fuel;
        let mut going = true;
        while going
            invariant
                heap.wf(),
                heap.valid_value(current),
                self.fits(heap),
                self.cyc() == cyc,
                self.shows_scopes() == ws,
                ff <= fuel,
                going ==> o + target.0 == out@ + printed_list(heap, current, first, cyc, self.label_list(), ws, ff as nat).0,
                going ==> target.1 == printed_list(heap, current, first, cyc, self.label_list(), ws, ff as nat).1,
                !going ==> o + target.0 == out@,
                !going ==> target.1 == self.label_list(),
            decreases ff as int + (if going { 1int } else { 0int }),
        {
            if ff == 0 || current.is_null() {
                proof {
                    assert(out@ =~= out@ + Seq::<PrintToken>::empty());
                }
                going = false;
            } else if current.is_pair() && (first || !self.is_cyclic(current, heap)) {
                let ghost o2 = out@;
                if !first {
                    push_token_text(out, " ");
                }
                let ghost o3 = out@;
                let car = heap.car(current);
                let cdr = heap.cdr(current);
                self.print(car, heap, out, ff - 1);
                proof {
                    let sep = if first { Seq::<PrintToken>::empty() } else { text_tokens(" "@) };
                    assert(o3 =~= o2 + sep);
                }
                current = cdr;
                first = false;
                ff = ff - 1;
                proof {
                    assert(o + target.0 =~= out@ + printed_list(heap, current, first, cyc, self.label_list(), ws, ff as nat).0);
                }
            } else {
                let ghost o2 = out@;
                push_token_text(out, " . ");
                self.print(current, heap, out, ff - 1);
                going = false;
                proof {
                    assert(o + target.0 =~= out@);
                }
            }
        }
    }

    /// Append the elements of `vs`, `sep` between them.
    fn print_each(&mut self, vs: &[TaggedValue], sep: &str, heap: &Heap, out: &mut Vec<PrintToken>, fuel: u64)
        requires
            heap.wf(),
            heap.all_valid(vs@),
            old(self).fits(heap),
        ensures
            final(self).cyc() == old(self).cyc(),
            final(self).shows_scopes() == old(self).shows_scopes(),
            final(self).fits(heap),
            final(out)@ == old(out)@ + printed_each(
                heap,
                vs@,
                0,
                sep@,
                old(self).cyc(),
                old(self).label_list(),
                old(self).shows_scopes(),
                fuel as nat,
            ).0,
            final(self).label_list() == printed_each(
                heap,
                vs@,
                0,
                sep@,
                old(self).cyc(),
                old(self).label_list(),
                old(self).shows_scopes(),
                fuel as nat,
            ).1,
        decreases fuel, 1int,
    {
        let ghost cyc = self.cyc();
        let ghost ws = self.shows_scopes();
        let ghost target = printed_each(heap, vs@, 0, sep@, cyc, self.label_list(), ws, fuel as nat);
        let ghost o = out@;
        let mut k: usize = 0;
        while k < vs.len()
            invariant
                heap.wf(),
                heap.all_valid(vs@),
                self.fits(heap),
                self.cyc() == cyc,
                self.shows_scopes() == ws,
                k <= vs@.len(),
                o + target.0 == out@ + printed_each(heap, vs@, k as int, sep@, cyc, self.label_list(), ws, fuel as nat).0,
                target.1 == printed_each(heap, vs@, k as int, sep@, cyc, self.label_list(), ws, fuel as nat).1,
            decreases vs@.len() - k,
        {
            let ghost o2 = out@;
            if k > 0 {
                push_token_text(out, sep);
            }
            let ghost o3 = out@;
            proof {
                assert(heap.valid_value(vs@[k as int]));
            }
            self.print(vs[k], heap, out, fuel);
            proof {
                let sp = if k > 0 { text_tokens(sep@) } else { Seq::<PrintToken>::empty() };
                assert(o3 =~= o2 + sp);
            }
            k = k + 1;
            proof {
                assert(o + target.0 =~= out@ + printed_each(heap, vs@, k as int, sep@, cyc, self.label_list(), ws, fuel as nat).0);
            }
        }
        proof {
            assert(out@ =~= out@ + Seq::<PrintToken>::empty());
        }
    }

    /// Append the tokens of the object `tv`.
    fn print_object(&mut self, tv: TaggedValue, heap: &Heap, out: &mut Vec<PrintToken>, fuel: u64)
        requires
            heap.wf(),
            tv is Object,
            heap.valid_value(tv),
            old(self).fits(heap),
        ensures
            final(self).cyc() == old(self).cyc(),
            final(self).shows_scopes() == old(self).shows_scopes(),
            final(self).fits(heap),
            final(out)@ == old(out)@ + printed_object(
                heap,
                heap.object_slots()[tv->Object_0 as int],
                old(self).cyc(),
                old(self).label_list(),
                old(self).shows_scopes(),
                fuel as nat,
            ).0,
            final(self).label_list() == printed_object(
                heap,
                heap.object_slots()[tv->Object_0 as int],
                old(self).cyc(),
                old(self).label_list(),
                old(self).shows_scopes(),
                fuel as nat,
            ).1,
        decreases fuel, 2int,
    {
        let ghost o = out@;
        proof {
            assert(heap.all_valid(crate::heap::object_children(heap.object_slots()[tv->Object_0 as int])));
        }
        match heap.get_object(tv) {
            HeapObjectData::BigInt(n) => {
                let t = bigint_display(n);
                push_token_text(out, t.as_str());
            },
            HeapObjectData::Rational(q) => {
                let t = rational_display(q);
                push_token_text(out, t.as_str());
            },
            HeapObjectData::Real(bits) => {
                out.push(PrintToken::Real(*bits));
                assert(out@ =~= o + seq![PrintToken::Real(*bits)]);
            },
            HeapObjectData::Complex { real: re, imag: im } => {
                proof {
                    assert(heap.valid_value(crate::heap::object_children(heap.object_slots()[tv->Object_0 as int])[0]));
                    assert(heap.valid_value(crate::heap::object_children(heap.object_slots()[tv->Object_0 as int])[1]));
                }
                let rs = format_root(*re, heap, false, fuel);
                let is = format_root(*im, heap, false, fuel);
                let rz = heap.is_exact_zero(*re);
                let iz = heap.is_exact_zero(*im);
                push_complex(out, &rs, &is, rz, iz);
            },
            HeapObjectData::Symbol(name) => push_token_text(out, name.as_str()),
            HeapObjectData::Identifier { name, scopes } => {
                push_token_text(out, name.as_str());
                if self.with_scopes && !scopes.is_empty() {
                    let mut cs: Vec<char> = Vec::new();
                    scopes.push_text(&mut cs);
                    assert(cs@ =~= scopes_text(*scopes));
                    push_token_chars(out, cs.as_slice());
                    assert(out@ =~= o + (text_tokens(name@) + text_tokens(scopes_text(*scopes))));
                }
            },
            HeapObjectData::Bytevector(b) => {
                push_token_text(out, "#u8(");
                push_bytes(out, b);
                push_token_text(out, ")");
                assert(out@ =~= o + (text_tokens("#u8("@) + text_tokens(bytes_text(b@)) + text_tokens(")"@)));
            },
            HeapObjectData::Exception { message, .. } => {
                push_token_text(out, "#<error-object: ");
                push_token_text(out, message.as_str());
                push_token_text(out, ">");
                assert(out@ =~= o + (text_tokens("#<error-object: "@) + text_tokens(message@) + text_tokens(">"@)));
            },
            HeapObjectData::RecordType(rtd) => {
                push_token_text(out, "#<record-type ");
                push_token_text(out, rtd.name.as_str());
                push_token_text(out, ">");
                assert(out@ =~= o + (text_tokens("#<record-type "@) + text_tokens(rtd.name@) + text_tokens(">"@)));
            },
            HeapObjectData::Record { record_type, .. } => {
                push_token_text(out, "#<record ");
                push_token_text(out, record_type.name.as_str());
                push_token_text(out, ">");
                assert(out@ =~= o + (text_tokens("#<record "@) + text_tokens(record_type.name@) + text_tokens(">"@)));
            },
            HeapObjectData::Parameter { .. } => push_token_text(out, "#<parameter>"),
            HeapObjectData::Promise(_) => push_token_text(out, "#<promise>"),
            HeapObjectData::Values(vals) => {
                self.print_each(vals.as_slice(), "\n", heap, out, fuel);
            },
            HeapObjectData::PromptTag(t) => {
                let mut cs: Vec<char> = Vec::new();
                t.push_text(&mut cs);
                assert(cs@ =~= prompt_tag_text(*t));
                push_token_chars(out, cs.as_slice());
            },
            HeapObjectData::LabelPlaceholder(n) => {
                push_token_text(out, "#<label-placeholder:");
                push_token_decimal(out, *n as u64);
                push_token_text(out, ">");
                assert(out@ =~= o + (text_tokens("#<label-placeholder:"@) + text_tokens(decimal(*n as nat)) + text_tokens(">"@)));
            },
            HeapObjectData::MutableCell(c) => {
                proof {
                    assert(heap.valid_value(crate::heap::object_children(heap.object_slots()[tv->Object_0 as int])[0]));
                }
                push_token_text(out, "#<cell:");
                let ghost o2 = out@;
                self.print(*c, heap, out, fuel);
                let ghost o3 = out@;
                push_token_text(out, ">");
                assert(out@ =~= o + (text_tokens("#<cell:"@) + o3.subrange(o2.len() as int, o3.len() as int) + text_tokens(">"@)));
            },
            HeapObjectData::VmClosure { code_id, .. } => {
                push_token_text(out, "#<procedure:");
                push_token_decimal(out, *code_id as u64);
                push_token_text(out, ">");
                assert(out@ =~= o + (text_tokens("#<procedure:"@) + text_tokens(decimal(*code_id as nat)) + text_tokens(">"@)));
            },
            HeapObjectData::VmContinuationRef(id) => {
                push_token_text(out, "#<continuation:");
                push_token_decimal(out, *id);
                push_token_text(out, ">");
                assert(out@ =~= o + (text_tokens("#<continuation:"@) + text_tokens(decimal(*id as nat)) + text_tokens(">"@)));
            },
            HeapObjectData::VmDelimitedContinuationRef(id) => {
                push_token_text(out, "#<delimited-continuation:");
                push_token_decimal(out, *id);
                push_token_text(out, ">");
                assert(out@ =~= o + (text_tokens("#<delimited-continuation:"@) + text_tokens(decimal(*id as nat)) + text_tokens(">"@)));
            },
            HeapObjectData::Free => push_token_text(out, "#<gc-freed-slot>"),
        }
    }
}

/// The tokens of `tv` printed on its own, `fuel` levels deep at most.
fn format_root(tv: TaggedValue, heap: &Heap, with_scopes: bool, fuel: u64) -> (r: Vec<PrintToken>)
    requires
        heap.wf(),
        heap.valid_value(tv),
    ensures
        r@ == printed_root(heap, tv, with_scopes, fuel as nat),
    decreases fuel, 1int,
{
    let mut printer = Printer::new(tv, heap, with_scopes);
    let mut out: Vec<PrintToken> = Vec::new();
    printer.print(tv, heap, &mut out, fuel);
    assert(out@ =~= printed_root(heap, tv, with_scopes, fuel as nat));
    out
}

/// Format a value for display, identifiers as plain names. A circular value
/// is written with datum labels, as `write` writes it: `#0=(1 2 . #0#)`.
pub fn format_tagged(tv: TaggedValue, heap: &Heap) -> (r: Vec<PrintToken>)
    requires
        heap.wf(),
        heap.valid_value(tv),
    ensures
        r@ == printed_root(heap, tv, false, PRINT_FUEL as nat),
{
    format_root(tv, heap, false, PRINT_FUEL)
}

/// Format a value with each identifier's scope set, for hygiene debugging.
pub fn format_tagged_with_scopes(tv: TaggedValue, heap: &Heap) -> (r: Vec<PrintToken>)
    requires
        heap.wf(),
        heap.valid_value(tv),
    ensures
        r@ == printed_root(heap, tv, true, PRINT_FUEL as nat),
{
    format_root(tv, heap, true, PRINT_FUEL)
}


/// A reference to a labelled node writes the number it was labelled with:
/// the node's first position among the labels, whatever labels came after.
pub proof fn lemma_reference_names_its_definition(
    cyc: Option<Marks>,
    labels: Seq<TaggedValue>,
    tv: TaggedValue,
    k: int,
)
    requires
        is_cyclic_in(cyc, tv),
        0 <= k < labels.len(),
        labels[k] == tv,
        forall|j: int| 0 <= j < k ==> labels[j] != tv,
    ensures
        label_mark(cyc, labels, tv) == (
            text_tokens("#"@) + text_tokens(decimal(k as nat)) + text_tokens("#"@),
            true,
            labels,
        ),
    decreases labels.len(),
{
    lemma_first_position(labels, tv, k);
}

/// `label_index` finds the first position of `tv`.
proof fn lemma_first_position(labels: Seq<TaggedValue>, tv: TaggedValue, k: int)
    requires
        0 <= k < labels.len(),
        labels[k] == tv,
        forall|j: int| 0 <= j < k ==> labels[j] != tv,
    ensures
        label_index(labels, tv) == Some(k as nat),
    decreases labels.len(),
{
    if k < labels.len() - 1 {
        let p = labels.drop_last();
        assert forall|j: int| 0 <= j < k implies p[j] != tv by {
            assert(p[j] == labels[j]);
        }
        lemma_first_position(p, tv, k);
    } else {
        lemma_absent_position(labels.drop_last(), tv);
    }
}

/// `label_index` finds nothing where `tv` is not.
proof fn lemma_absent_position(labels: Seq<TaggedValue>, tv: TaggedValue)
    requires
        forall|j: int| 0 <= j < labels.len() ==> labels[j] != tv,
    ensures
        label_index(labels, tv) is None,
    decreases labels.len(),
{
    if labels.len() > 0 {
        let p = labels.drop_last();
        assert forall|j: int| 0 <= j < p.len() implies p[j] != tv by {
            assert(p[j] == labels[j]);
        }
        lemma_absent_position(p, tv);
    }
}

/// A cyclic node met for the first time is defined as `#n=` with `n` the
/// number of labels so far, and every later reference to it, however many
/// labels are added after, writes `#n#`.
pub proof fn lemma_definition_then_reference(
    cyc: Option<Marks>,
    labels: Seq<TaggedValue>,
    tv: TaggedValue,
    later: Seq<TaggedValue>,
)
    requires
        is_cyclic_in(cyc, tv),
        forall|j: int| 0 <= j < labels.len() ==> labels[j] != tv,
        later.len() > labels.len(),
        later.take(labels.len() as int) == labels,
        later[labels.len() as int] == tv,
    ensures
        label_mark(cyc, labels, tv).0 == text_tokens("#"@) + text_tokens(decimal(labels.len()))
            + text_tokens("="@),
        label_mark(cyc, labels, tv).2 == labels.push(tv),
        label_mark(cyc, later, tv).0 == text_tokens("#"@) + text_tokens(decimal(labels.len()))
            + text_tokens("#"@),
{
    lemma_absent_position(labels, tv);
    assert forall|j: int| 0 <= j < labels.len() implies later[j] != tv by {
        assert(later.take(labels.len() as int)[j] == later[j]);
    }
    lemma_reference_names_its_definition(cyc, later, tv, labels.len() as int);
}

/// Where `label_index` finds `tv`, `tv` stands; where it finds nothing,
/// `tv` is not among the labels.
proof fn lemma_label_index_sound(labels: Seq<TaggedValue>, tv: TaggedValue)
    ensures
        label_index(labels, tv) matches Some(k) ==> k < labels.len() && labels[k as int] == tv,
        label_index(labels, tv) is None ==> !labels.contains(tv),
    decreases labels.len(),
{
    if labels.len() > 0 {
        let p = labels.drop_last();
        lemma_label_index_sound(p, tv);
        if label_index(labels, tv) is None {
            if labels.contains(tv) {
                let w = choose|w: int| 0 <= w < labels.len() && labels[w] == tv;
                if w < p.len() {
                    assert(p[w] == tv);
                }
            }
        }
    }
}

/// Labels are given only to nodes a cycle returns to, each at most once:
/// a node no cycle returns to gets no mark and leaves the labels as they
/// were, and the labels never hold a node twice.
pub proof fn lemma_each_node_labelled_once(cyc: Option<Marks>, labels: Seq<TaggedValue>, tv: TaggedValue)
    requires
        labels.no_duplicates(),
    ensures
        !is_cyclic_in(cyc, tv) ==> label_mark(cyc, labels, tv) == (Seq::<PrintToken>::empty(), false, labels),
        label_mark(cyc, labels, tv).2.no_duplicates(),
        label_mark(cyc, labels, tv).2 == labels || (!labels.contains(tv) && label_mark(cyc, labels, tv).2
            == labels.push(tv)),
        label_mark(cyc, labels, tv).1 ==> labels.contains(tv),
{
    lemma_label_index_sound(labels, tv);
    if is_cyclic_in(cyc, tv) && label_index(labels, tv) is None {
        let n = labels.push(tv);
        assert forall|i: int, j: int| 0 <= i < j < n.len() implies n[i] != n[j] by {
            if j == labels.len() {
                assert(n[i] == labels[i]);
            }
        }
    }
}
} // verus!
