//! Reading parsed s-expressions held in the heap, and writing Scheme
//! string literals.
use vstd::prelude::*;
use crate::heap::{Heap, HeapObjectData};
use crate::tagged_value::TaggedValue;
use crate::text::{chars_of, push_signed_decimal, push_str, signed_decimal, str_is, string_from_chars};

verus! {

/// The characters standing for `c` inside a Scheme string literal.
pub open spec fn escaped_char(c: char) -> Seq<char> {
    if c == '"' {
        seq!['\\', '"']
    } else if c == '\\' {
        seq!['\\', '\\']
    } else if c == '\n' {
        seq!['\\', 'n']
    } else {
        seq![c]
    }
}

/// `s` escaped for a Scheme string literal.
pub open spec fn escaped(s: Seq<char>) -> Seq<char>
    decreases s.len(),
{
    if s.len() == 0 {
        Seq::empty()
    } else {
        escaped(s.drop_last()) + escaped_char(s.last())
    }
}

/// Append `s` escaped for a Scheme string literal.
pub fn push_escaped(out: &mut Vec<char>, s: &str)
    ensures
        final(out)@ == old(out)@ + escaped(s@),
{
    let chars = chars_of(s);
    let ghost start = out@;
    let mut i: usize = 0;
    while i < chars.len()
        invariant
            i <= chars@.len(),
            chars@ == s@,
            out@ == start + escaped(chars@.take(i as int)),
        decreases chars@.len() - i,
    {
        let c = chars[i];
        let ghost before = out@;
        if c == '"' {
            out.push('\\');
            out.push('"');
        } else if c == '\\' {
            out.push('\\');
            out.push('\\');
        } else if c == '\n' {
            out.push('\\');
            out.push('n');
        } else {
            out.push(c);
        }
        proof {
            let next = chars@.take(i + 1);
            assert(next.drop_last() =~= chars@.take(i as int));
            assert(next.last() == c);
            assert(out@ =~= before + escaped_char(c));
            assert(start + escaped(next) =~= start + escaped(chars@.take(i as int))
                + escaped_char(c));
        }
        i = i + 1;
    }
    proof {
        assert(chars@.take(i as int) =~= s@);
    }
}

/// `s` escaped for embedding in a Scheme string literal: `"`, `\` and
/// newline get a backslash escape.
pub fn escape_string(s: &str) -> (r: String)
    ensures
        r@ == escaped(s@),
{
    let mut out: Vec<char> = Vec::new();
    push_escaped(&mut out, s);
    proof {
        assert(Seq::<char>::empty() + escaped(s@) =~= escaped(s@));
    }
    string_from_chars(&out)
}

/// The name of `tv` when it is a symbol.
pub open spec fn symbol_text(h: &Heap, tv: TaggedValue) -> Option<Seq<char>> {
    match h.object_of(tv) {
        Some(HeapObjectData::Symbol(s)) => Some(s@),
        _ => None,
    }
}

/// The characters of `tv` when it is a string.
pub open spec fn string_text(h: &Heap, tv: TaggedValue) -> Option<Seq<char>> {
    match tv {
        TaggedValue::Str(i) => Some(h.string_slots()[i as int]),
        _ => None,
    }
}

/// The elements after the head when `tv` is a proper list headed by the
/// symbol `head`.
pub open spec fn form_rest(h: &Heap, tv: TaggedValue, head: Seq<char>) -> Option<Seq<TaggedValue>> {
    if h.is_proper_list(tv) && h.list_items(tv).len() > 0 && symbol_text(h, h.list_items(tv)[0])
        == Some(head) {
        Some(h.list_items(tv).drop_first())
    } else {
        None
    }
}

/// The argument of the one-argument clause `(head arg ...)`.
pub open spec fn clause_arg(h: &Heap, tv: TaggedValue, head: Seq<char>) -> Option<TaggedValue> {
    match form_rest(h, tv, head) {
        Some(rest) => if rest.len() > 0 {
            Some(rest[0])
        } else {
            None
        },
        None => None,
    }
}

/// A proper list's elements, or `None` for any other value.
pub fn list_elements(tv: TaggedValue, heap: &Heap) -> (r: Option<Vec<TaggedValue>>)
    requires
        heap.wf(),
        heap.valid_value(tv),
    ensures
        r is Some <==> heap.is_proper_list(tv),
        r is Some ==> r->0@ == heap.list_items(tv) && heap.all_valid(r->0@),
{
    let r = heap.list_to_vec(tv);
    proof {
        if r is Some {
            let v = r->0@;
            assert forall|j: int| 0 <= j < v.len() implies heap.valid_value(#[trigger] v[j]) by {
                heap.lemma_list_items_valid(tv, v, j);
            }
        }
    }
    r
}

/// The name of `tv`, when it is a symbol.
pub fn symbol_name(tv: TaggedValue, heap: &Heap) -> (r: Option<String>)
    requires
        heap.valid_value(tv),
    ensures
        opt_text(r) == symbol_text(heap, tv),
{
    match heap.get_symbol_name(tv) {
        Some(s) => Some(string_from_chars(&chars_of(s))),
        None => None,
    }
}

/// The contents of `tv`, when it is a string.
pub fn string_value(tv: TaggedValue, heap: &Heap) -> (r: Option<String>)
    requires
        heap.valid_value(tv),
    ensures
        opt_text(r) == string_text(heap, tv),
{
    heap.get_string_contents(tv)
}

/// The view of an optional string.
pub open spec fn opt_text(o: Option<String>) -> Option<Seq<char>> {
    match o {
        Some(s) => Some(s@),
        None => None,
    }
}

/// The elements after the head, when `tv` is a list headed by the symbol
/// `head`.
pub fn tagged_form(tv: TaggedValue, head: &str, heap: &Heap) -> (r: Option<Vec<TaggedValue>>)
    requires
        heap.wf(),
        heap.valid_value(tv),
    ensures
        match r {
            Some(v) => form_rest(heap, tv, head@) == Some(v@),
            None => form_rest(heap, tv, head@) is None,
        },
        r is Some ==> heap.all_valid(r->0@),
{
    let elems = match list_elements(tv, heap) {
        Some(e) => e,
        None => return None,
    };
    if elems.len() == 0 {
        return None;
    }
    let first = elems[0];
    let named = match heap.get_symbol_name(first) {
        Some(s) => str_is(s, head),
        None => false,
    };
    if !named {
        return None;
    }
    let mut rest: Vec<TaggedValue> = Vec::new();
    let mut k: usize = 1;
    while k < elems.len()
        invariant
            1 <= k <= elems@.len(),
            rest@ == elems@.subrange(1, k as int),
        decreases elems@.len() - k,
    {
        rest.push(elems[k]);
        assert(rest@ =~= elems@.subrange(1, k + 1));
        k = k + 1;
    }
    proof {
        assert(rest@ =~= elems@.drop_first());
        assert forall|j: int| 0 <= j < rest@.len() implies heap.valid_value(#[trigger] rest@[j]) by {
            assert(rest@[j] == elems@[j + 1]);
        }
    }
    Some(rest)
}

/// The single argument of a one-argument clause: `(path "x")` gives the
/// string.
pub fn clause_argument(tv: TaggedValue, head: &str, heap: &Heap) -> (r: Option<TaggedValue>)
    requires
        heap.wf(),
        heap.valid_value(tv),
    ensures
        r == clause_arg(heap, tv, head@),
        r is Some ==> heap.valid_value(r->0),
{
    match tagged_form(tv, head, heap) {
        Some(rest) => if rest.len() > 0 {
            Some(rest[0])
        } else {
            None
        },
        None => None,
    }
}

/// The first field of a row that is a `(key arg ...)` clause, by its
/// argument.
pub open spec fn row_arg(h: &Heap, fields: Seq<TaggedValue>, key: Seq<char>) -> Option<TaggedValue>
    decreases fields.len(),
{
    if fields.len() == 0 {
        None
    } else {
        match clause_arg(h, fields[0], key) {
            Some(a) => Some(a),
            None => row_arg(h, fields.drop_first(), key),
        }
    }
}

/// The argument of the `key` clause among a row's fields.
pub fn row_field(fields: &[TaggedValue], key: &str, heap: &Heap) -> (r: Option<TaggedValue>)
    requires
        heap.wf(),
        heap.all_valid(fields@),
    ensures
        r == row_arg(heap, fields@, key@),
        r is Some ==> heap.valid_value(r->0),
{
    let mut k: usize = 0;
    proof {
        assert(fields@.skip(0) =~= fields@);
    }
    while k < fields.len()
        invariant
            heap.wf(),
            heap.all_valid(fields@),
            k <= fields@.len(),
            row_arg(heap, fields@, key@) == row_arg(heap, fields@.skip(k as int), key@),
        decreases fields@.len() - k,
    {
        let f = fields[k];
        proof {
            assert(heap.valid_value(fields@[k as int]));
            assert(fields@.skip(k as int)[0] == f);
            assert(fields@.skip(k as int).drop_first() =~= fields@.skip(k + 1));
        }
        match clause_argument(f, key, heap) {
            Some(a) => {
                return Some(a);
            },
            None => {},
        }
        k = k + 1;
    }
    proof {
        assert(fields@.skip(k as int) =~= Seq::<TaggedValue>::empty());
    }
    None
}

/// The `key` clause's argument as a string, when it is one.
pub fn row_string(fields: &[TaggedValue], key: &str, heap: &Heap) -> (r: Option<String>)
    requires
        heap.wf(),
        heap.all_valid(fields@),
    ensures
        opt_text(r) == match row_arg(heap, fields@, key@) {
            Some(a) => string_text(heap, a),
            None => None,
        },
{
    match row_field(fields, key, heap) {
        Some(tv) => string_value(tv, heap),
        None => None,
    }
}

/// The `key` clause's argument as a symbol name, when it is one.
pub fn row_symbol(fields: &[TaggedValue], key: &str, heap: &Heap) -> (r: Option<String>)
    requires
        heap.wf(),
        heap.all_valid(fields@),
    ensures
        opt_text(r) == match row_arg(heap, fields@, key@) {
            Some(a) => symbol_text(heap, a),
            None => None,
        },
{
    match row_field(fields, key, heap) {
        Some(tv) => symbol_name(tv, heap),
        None => None,
    }
}

/// The bodies of a list of clauses `(condition form ...)`, pooled: each
/// clause that is a proper list with a body contributes its forms after the
/// condition.
pub open spec fn pooled_bodies(h: &Heap, clauses: Seq<TaggedValue>) -> Seq<TaggedValue>
    decreases clauses.len(),
{
    if clauses.len() == 0 {
        Seq::empty()
    } else {
        let c = clauses.last();
        pooled_bodies(h, clauses.drop_last()) + if h.is_proper_list(c) && h.list_items(c).len()
            > 1 {
            h.list_items(c).drop_first()
        } else {
            Seq::empty()
        }
    }
}

/// The pooled bodies of a `(cond-expand ...)` form's clauses, or `None` if
/// `tv` is not one. Conditions are skipped, never evaluated: every branch is
/// pooled.
pub fn cond_expand_bodies(tv: TaggedValue, heap: &Heap) -> (r: Option<Vec<TaggedValue>>)
    requires
        heap.wf(),
        heap.valid_value(tv),
    ensures
        match r {
            Some(v) => form_rest(heap, tv, "cond-expand"@) is Some && v@ == pooled_bodies(
                heap,
                form_rest(heap, tv, "cond-expand"@)->0,
            ),
            None => form_rest(heap, tv, "cond-expand"@) is None,
        },
        r is Some ==> heap.all_valid(r->0@),
{
    let clauses = match tagged_form(tv, "cond-expand", heap) {
        Some(c) => c,
        None => return None,
    };
    let mut bodies: Vec<TaggedValue> = Vec::new();
    let mut k: usize = 0;
    while k < clauses.len()
        invariant
            heap.wf(),
            heap.all_valid(clauses@),
            k <= clauses@.len(),
            bodies@ == pooled_bodies(heap, clauses@.take(k as int)),
            heap.all_valid(bodies@),
        decreases clauses@.len() - k,
    {
        let ghost before = bodies@;
        proof {
            assert(heap.valid_value(clauses@[k as int]));
        }
        match list_elements(clauses[k], heap) {
            Some(elems) => {
                if elems.len() > 1 {
                    let mut j: usize = 1;
                    while j < elems.len()
                        invariant
                            1 <= j <= elems@.len(),
                            heap.all_valid(elems@),
                            heap.all_valid(before),
                            bodies@ == before + elems@.subrange(1, j as int),
                        decreases elems@.len() - j,
                    {
                        bodies.push(elems[j]);
                        assert(bodies@ =~= before + elems@.subrange(1, j + 1));
                        j = j + 1;
                    }
                    proof {
                        assert(elems@.subrange(1, elems@.len() as int) =~= elems@.drop_first());
                    }
                }
            },
            None => {},
        }
        proof {
            assert(clauses@.take(k + 1).drop_last() =~= clauses@.take(k as int));
            assert(clauses@.take(k + 1).last() == clauses@[k as int]);
            assert(bodies@ =~= pooled_bodies(heap, clauses@.take(k + 1)));
            assert forall|j: int| 0 <= j < bodies@.len() implies heap.valid_value(
                #[trigger] bodies@[j],
            ) by {
                if j >= before.len() {
                    let c = clauses@[k as int];
                    heap.lemma_list_items_valid(c, heap.list_items(c), j - before.len() + 1);
                }
            }
        }
        k = k + 1;
    }
    proof {
        assert(clauses@.take(k as int) =~= clauses@);
    }
    Some(bodies)
}

/// How one part of a library name is written: a symbol by its name, a
/// fixnum in decimal; anything else is no part of a library name.
pub open spec fn name_part(h: &Heap, tv: TaggedValue) -> Option<Seq<char>> {
    match symbol_text(h, tv) {
        Some(s) => Some(s),
        None => match tv {
            TaggedValue::Fixnum(n) => Some(signed_decimal(n as int)),
            _ => None,
        },
    }
}

/// The parts of a library name joined by spaces, when every part is one.
pub open spec fn joined_parts(h: &Heap, es: Seq<TaggedValue>) -> Option<Seq<char>>
    decreases es.len(),
{
    if es.len() == 0 {
        Some(Seq::empty())
    } else {
        match joined_parts(h, es.drop_last()) {
            None => None,
            Some(prefix) => match name_part(h, es.last()) {
                None => None,
                Some(p) => Some(
                    if es.len() == 1 {
                        p
                    } else {
                        prefix + " "@ + p
                    },
                ),
            },
        }
    }
}

/// The canonical text of a library name list: `(chibi match)` is
/// `"chibi match"`, `(srfi 1)` is `"srfi 1"`.
pub open spec fn library_name_text(h: &Heap, tv: TaggedValue) -> Option<Seq<char>> {
    if h.is_proper_list(tv) && h.list_items(tv).len() > 0 {
        joined_parts(h, h.list_items(tv))
    } else {
        None
    }
}

/// The canonical space-joined form of a library name list, or `None` when
/// `tv` is not one.
pub fn library_name(tv: TaggedValue, heap: &Heap) -> (r: Option<String>)
    requires
        heap.wf(),
        heap.valid_value(tv),
    ensures
        opt_text(r) == library_name_text(heap, tv),
{
    let elems = match list_elements(tv, heap) {
        Some(e) => e,
        None => return None,
    };
    if elems.len() == 0 {
        return None;
    }
    let mut out: Vec<char> = Vec::new();
    let mut k: usize = 0;
    while k < elems.len()
        invariant
            heap.wf(),
            heap.all_valid(elems@),
            heap.is_proper_list(tv),
            elems@ == heap.list_items(tv),
            elems@.len() > 0,
            k <= elems@.len(),
            joined_parts(heap, elems@.take(k as int)) == Some(out@),
        decreases elems@.len() - k,
    {
        let e = elems[k];
        proof {
            assert(heap.valid_value(elems@[k as int]));
            assert(elems@.take(k + 1).drop_last() =~= elems@.take(k as int));
            assert(elems@.take(k + 1).last() == e);
        }
        if k > 0 {
            push_str(&mut out, " ");
        }
        match heap.get_symbol_name(e) {
            Some(s) => push_str(&mut out, s),
            None => match e {
                TaggedValue::Fixnum(n) => push_signed_decimal(&mut out, n),
                _ => {
                    proof {
                        assert(symbol_text(heap, e) is None);
                        assert(name_part(heap, elems@[k as int]) is None);
                        lemma_joined_parts_none(heap, elems@, k as int);
                    }
                    return None;
                },
            },
        }
        proof {
            if k == 0 {
                assert(elems@.take(0) =~= Seq::<TaggedValue>::empty());
                assert(out@ =~= name_part(heap, e)->0);
            }
            assert(joined_parts(heap, elems@.take(k + 1)) == Some(out@));
        }
        k = k + 1;
    }
    proof {
        assert(elems@.take(k as int) =~= elems@);
    }
    Some(string_from_chars(&out))
}

/// A part that is no library-name part spoils every longer prefix.
proof fn lemma_joined_parts_none(h: &Heap, es: Seq<TaggedValue>, k: int)
    requires
        0 <= k < es.len(),
        name_part(h, es[k]) is None,
    ensures
        joined_parts(h, es) is None,
    decreases es.len(),
{
    if k < es.len() - 1 {
        lemma_joined_parts_none(h, es.drop_last(), k);
    }
}

/// The rows of a two-level document: the clauses of every `rows_head`
/// section among the sections of the `doc_head` form, in order.
pub open spec fn rows_of(h: &Heap, sections: Seq<TaggedValue>, rows_head: Seq<char>) -> Seq<TaggedValue>
    decreases sections.len(),
{
    if sections.len() == 0 {
        Seq::empty()
    } else {
        rows_of(h, sections.drop_last(), rows_head) + match form_rest(
            h,
            sections.last(),
            rows_head,
        ) {
            Some(rows) => rows,
            None => Seq::empty(),
        }
    }
}

/// The message for a document whose first form is not headed `doc_head`.
pub open spec fn not_a_file_text(doc_head: Seq<char>) -> Seq<char> {
    "not a "@ + doc_head + " file"@
}

/// The sections and the rows of a two-level document
/// `(<doc> ... (<rows> <row> ...) ...)`, given its parsed top-level forms:
/// `Err` when the first form is not headed `doc_head`.
pub fn document_rows(forms: &[TaggedValue], doc_head: &str, rows_head: &str, heap: &Heap) -> (r:
    Result<(Vec<TaggedValue>, Vec<TaggedValue>), String>)
    requires
        heap.wf(),
        heap.all_valid(forms@),
    ensures
        match r {
            Ok((sections, rows)) => {
                &&& forms@.len() > 0
                &&& form_rest(heap, forms@[0], doc_head@) == Some(sections@)
                &&& rows@ == rows_of(heap, sections@, rows_head@)
            },
            Err(msg) => {
                &&& forms@.len() == 0 || form_rest(heap, forms@[0], doc_head@) is None
                &&& msg@ == not_a_file_text(doc_head@)
            },
        },
{
    let sections = if forms.len() > 0 {
        tagged_form(forms[0], doc_head, heap)
    } else {
        None
    };
    let sections = match sections {
        Some(s) => s,
        None => {
            let mut msg: Vec<char> = Vec::new();
            push_str(&mut msg, "not a ");
            push_str(&mut msg, doc_head);
            push_str(&mut msg, " file");
            proof {
                assert(msg@ =~= not_a_file_text(doc_head@));
            }
            return Err(string_from_chars(&msg));
        },
    };
    let mut rows: Vec<TaggedValue> = Vec::new();
    let mut k: usize = 0;
    while k < sections.len()
        invariant
            heap.wf(),
            heap.all_valid(sections@),
            k <= sections@.len(),
            rows@ == rows_of(heap, sections@.take(k as int), rows_head@),
        decreases sections@.len() - k,
    {
        proof {
            assert(heap.valid_value(sections@[k as int]));
            assert(sections@.take(k + 1).drop_last() =~= sections@.take(k as int));
            assert(sections@.take(k + 1).last() == sections@[k as int]);
        }
        let ghost before = rows@;
        match tagged_form(sections[k], rows_head, heap) {
            Some(more) => {
                let mut j: usize = 0;
                while j < more.len()
                    invariant
                        j <= more@.len(),
                        rows@ == before + more@.take(j as int),
                    decreases more@.len() - j,
                {
                    rows.push(more[j]);
                    assert(rows@ =~= before + more@.take(j + 1));
                    j = j + 1;
                }
                assert(more@.take(j as int) =~= more@);
            },
            None => {
                assert(rows@ =~= before + Seq::<TaggedValue>::empty());
            },
        }
        k = k + 1;
    }
    proof {
        assert(sections@.take(k as int) =~= sections@);
    }
    Ok((sections, rows))
}

/// The elements after the head of the first field headed by `key`.
pub open spec fn row_rest(h: &Heap, fields: Seq<TaggedValue>, key: Seq<char>) -> Option<Seq<TaggedValue>>
    decreases fields.len(),
{
    if fields.len() == 0 {
        None
    } else {
        match form_rest(h, fields[0], key) {
            Some(rest) => Some(rest),
            None => row_rest(h, fields.drop_first(), key),
        }
    }
}

/// The string that first follows the head of `rest`, when there is one.
pub open spec fn first_string(h: &Heap, rest: Option<Seq<TaggedValue>>) -> Option<Seq<char>> {
    match rest {
        Some(r) => if r.len() > 0 {
            string_text(h, r[0])
        } else {
            None
        },
        None => None,
    }
}

/// The symbol name that first follows the head of `rest`, when there is
/// one.
pub open spec fn first_symbol(h: &Heap, rest: Option<Seq<TaggedValue>>) -> Option<Seq<char>> {
    match rest {
        Some(r) => if r.len() > 0 {
            symbol_text(h, r[0])
        } else {
            None
        },
        None => None,
    }
}

/// The view of an optional vector of values.
pub open spec fn opt_values(o: Option<Vec<TaggedValue>>) -> Option<Seq<TaggedValue>> {
    match o {
        Some(v) => Some(v@),
        None => None,
    }
}

/// The elements after the head of the first field headed by `key`.
pub fn find_clause(fields: &[TaggedValue], key: &str, heap: &Heap) -> (r: Option<Vec<TaggedValue>>)
    requires
        heap.wf(),
        heap.all_valid(fields@),
    ensures
        opt_values(r) == row_rest(heap, fields@, key@),
        r is Some ==> heap.all_valid(r->0@),
{
    let mut k: usize = 0;
    proof {
        assert(fields@.skip(0) =~= fields@);
    }
    while k < fields.len()
        invariant
            heap.wf(),
            heap.all_valid(fields@),
            k <= fields@.len(),
            row_rest(heap, fields@, key@) == row_rest(heap, fields@.skip(k as int), key@),
        decreases fields@.len() - k,
    {
        let f = fields[k];
        proof {
            assert(heap.valid_value(fields@[k as int]));
            assert(fields@.skip(k as int)[0] == f);
            assert(fields@.skip(k as int).drop_first() =~= fields@.skip(k + 1));
        }
        match tagged_form(f, key, heap) {
            Some(rest) => {
                return Some(rest);
            },
            None => {},
        }
        k = k + 1;
    }
    proof {
        assert(fields@.skip(k as int) =~= Seq::<TaggedValue>::empty());
    }
    None
}

/// The string that first follows the head of the first `key` field.
pub fn clause_string(fields: &[TaggedValue], key: &str, heap: &Heap) -> (r: Option<String>)
    requires
        heap.wf(),
        heap.all_valid(fields@),
    ensures
        opt_text(r) == first_string(heap, row_rest(heap, fields@, key@)),
{
    match find_clause(fields, key, heap) {
        Some(rest) => if rest.len() > 0 {
            string_value(rest[0], heap)
        } else {
            None
        },
        None => None,
    }
}

/// The symbol name that first follows the head of the first `key` field.
pub fn clause_symbol(fields: &[TaggedValue], key: &str, heap: &Heap) -> (r: Option<String>)
    requires
        heap.wf(),
        heap.all_valid(fields@),
    ensures
        opt_text(r) == first_symbol(heap, row_rest(heap, fields@, key@)),
{
    match find_clause(fields, key, heap) {
        Some(rest) => if rest.len() > 0 {
            symbol_name(rest[0], heap)
        } else {
            None
        },
        None => None,
    }
}

} // verus!
