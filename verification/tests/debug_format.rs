use patina::debug_format::tokens::PrintToken;
use patina::debug_format::{escape_invisible, format_tagged, format_tagged_with_scopes};
use num_bigint::BigInt;
use num_rational::Ratio;
use patina::heap::Heap;
use patina::scope::ScopeSet;
use patina::tagged_value::TaggedValue;

/// A real as `display` writes it: `+inf.0`, `-inf.0`, `+nan.0`, and a
/// decimal point on every inexact number.
fn format_real(r: f64, buf: &mut String) {
    if r.is_infinite() {
        if r.is_sign_positive() {
            buf.push_str("+inf.0");
        } else {
            buf.push_str("-inf.0");
        }
    } else if r.is_nan() {
        buf.push_str("+nan.0");
    } else if r.fract() == 0.0 {
        buf.push_str(&format!("{:.1}", r));
    } else {
        buf.push_str(&format!("{}", r));
    }
}

fn spell(tokens: Vec<PrintToken>) -> String {
    let mut out = String::new();
    for t in tokens {
        match t {
            PrintToken::Char(u) => out.push(char::from_u32(u).unwrap()),
            PrintToken::Real(bits) => format_real(f64::from_bits(bits), &mut out),
        }
    }
    out
}

fn show(tv: TaggedValue, heap: &Heap) -> String {
    spell(format_tagged(tv, heap))
}

fn fx(n: i64) -> TaggedValue {
    TaggedValue::fixnum(n)
}

#[test]
fn a_zero_part_is_dropped_only_when_exact() {
    let mut heap = Heap::new();
    let cases = [
        (0.0_f64, 2.0_f64, "0.0+2.0i"),
        (1.0, 0.0, "1.0+0.0i"),
        (1.0, 2.0, "1.0+2.0i"),
        (0.0, -2.0, "0.0-2.0i"),
    ];
    for (re, im, expected) in cases {
        let r = heap.alloc_real(re.to_bits());
        let i = heap.alloc_real(im.to_bits());
        let z = heap.alloc_complex(r, i);
        assert_eq!(show(z, &heap), expected, "for {re}+{im}i");
    }

    let zero = TaggedValue::fixnum(0);
    let two = heap.alloc_real(2.0_f64.to_bits());
    let z = heap.alloc_complex(zero, two);
    assert_eq!(show(z, &heap), "+2.0i");
}

/// `(1 2)` with its last cdr pointed back at its head.
fn circular_list(heap: &mut Heap) -> TaggedValue {
    let xs = heap.list_from_iter(vec![fx(1), fx(2)]);
    let last = heap.cdr(xs);
    heap.set_cdr(last, xs);
    xs
}

#[test]
fn a_circular_list_is_labelled() {
    let mut heap = Heap::new();
    let xs = circular_list(&mut heap);
    assert_eq!(show(xs, &heap), "#0=(1 2 . #0#)");
}

#[test]
fn a_second_reference_to_a_labelled_node_is_its_label() {
    let mut heap = Heap::new();
    let xs = circular_list(&mut heap);
    let v = heap.alloc_vector(vec![xs, xs]);
    assert_eq!(show(v, &heap), "#(#0=(1 2 . #0#) #0#)");
}

#[test]
fn a_cycle_into_the_middle_of_a_list_breaks_the_spine_there() {
    let mut heap = Heap::new();
    let xs = circular_list(&mut heap);
    let a = heap.intern_symbol("a");
    let outer = heap.alloc_pair(a, xs);
    assert_eq!(show(outer, &heap), "(a . #0=(1 2 . #0#))");
    let wrapped = heap.list_from_iter(vec![a, xs]);
    assert_eq!(show(wrapped, &heap), "(a #0=(1 2 . #0#))");
}

#[test]
fn cycles_through_a_car_and_through_a_vector() {
    let mut heap = Heap::new();
    let q = heap.intern_symbol("q");
    let z = heap.alloc_pair(q, TaggedValue::NULL);
    heap.set_car(z, z);
    assert_eq!(show(z, &heap), "#0=(#0#)");

    let v = heap.alloc_vector(vec![fx(1), fx(2)]);
    heap.vector_set(v, 1, v);
    let sym = heap.intern_symbol("z");
    let l = heap.list_from_iter(vec![v, sym]);
    assert_eq!(show(l, &heap), "(#0=#(1 #0#) z)");
}

#[test]
fn shared_structure_that_is_not_circular_is_printed_in_full() {
    let mut heap = Heap::new();
    let ys = heap.list_from_iter(vec![fx(1), fx(2)]);
    let both = heap.list_from_iter(vec![ys, ys]);
    assert_eq!(show(both, &heap), "((1 2) (1 2))");
}

#[test]
fn a_long_list_is_searched_without_recursing_on_its_spine() {
    let mut heap = Heap::new();
    let xs = heap.list_from_iter((0..200_000).map(fx).collect());
    let printed = show(xs, &heap);
    assert!(printed.starts_with("(0 1 2 "), "{}", &printed[..20]);
    assert!(printed.ends_with(" 199999)"));
}

#[test]
fn immediates_and_strings_are_spelled_as_write_spells_them() {
    let mut heap = Heap::new();
    assert_eq!(show(fx(-42), &heap), "-42");
    assert_eq!(show(TaggedValue::boolean(true), &heap), "#t");
    assert_eq!(show(TaggedValue::boolean(false), &heap), "#f");
    assert_eq!(show(TaggedValue::NULL, &heap), "()");
    assert_eq!(show(TaggedValue::Char('x'), &heap), "#\\x");
    assert_eq!(show(TaggedValue::Eof, &heap), "#<eof>");
    assert_eq!(show(TaggedValue::Unspecified, &heap), "#<unspecified>");
    let s = heap.alloc_string("hi".to_string());
    assert_eq!(show(s, &heap), "\"hi\"");
    let dotted = heap.alloc_pair(fx(1), fx(2));
    assert_eq!(show(dotted, &heap), "(1 . 2)");
    let empty = heap.alloc_vector(vec![]);
    assert_eq!(show(empty, &heap), "#()");
}

#[test]
fn objects_are_spelled_by_kind() {
    let mut heap = Heap::new();
    let bv = heap.alloc_bytevector(vec![1, 2, 255]);
    assert_eq!(show(bv, &heap), "#u8(1 2 255)");
    let cell = heap.alloc_mutable_cell(fx(7));
    assert_eq!(show(cell, &heap), "#<cell:7>");
    let vals = heap.alloc_values(vec![fx(1), fx(2)]);
    assert_eq!(show(vals, &heap), "1\n2");
    let clo = heap.alloc_vm_closure(12, vec![]);
    assert_eq!(show(clo, &heap), "#<procedure:12>");
    let (k, n) = heap.alloc_vm_continuation_ref();
    assert_eq!(show(k, &heap), format!("#<continuation:{n}>"));
}

#[test]
fn an_identifier_shows_its_scopes_only_when_asked() {
    let mut heap = Heap::new();
    let mut scopes = ScopeSet::new();
    scopes.insert(3);
    scopes.insert(1);
    let id = heap.alloc_identifier("x".to_string(), scopes);
    assert_eq!(show(id, &heap), "x");
    assert_eq!(spell(format_tagged_with_scopes(id, &heap)), "x{1,3}");
}

#[test]
fn complex_parts_are_spelled_with_their_signs() {
    let mut heap = Heap::new();
    let z = heap.alloc_complex(fx(0), fx(1));
    assert_eq!(show(z, &heap), "+i");
    let z = heap.alloc_complex(fx(0), fx(-1));
    assert_eq!(show(z, &heap), "-i");
    let z = heap.alloc_complex(fx(3), fx(-4));
    assert_eq!(show(z, &heap), "3-4i");
    let z = heap.alloc_complex(fx(3), fx(1));
    assert_eq!(show(z, &heap), "3+i");
    let z = heap.alloc_complex(fx(0), fx(0));
    assert_eq!(show(z, &heap), "0");
    let inf = heap.alloc_real(f64::INFINITY.to_bits());
    let z = heap.alloc_complex(fx(1), inf);
    assert_eq!(show(z, &heap), "1+inf.0i");
}

#[test]
fn invisible_characters_are_spelled_out() {
    assert_eq!(escape_invisible("a\u{200b}b"), "a\\u{200b}b");
    assert_eq!(escape_invisible("plain"), "plain");
}

#[test]
fn big_integers_and_rationals_are_spelled_in_full() {
    let mut heap = Heap::new();
    let big: BigInt = BigInt::from(1u64 << 62) * BigInt::from(1000);
    let n = heap.alloc_bigint(big.clone());
    assert_eq!(show(n, &heap), big.to_string());
    assert_eq!(show(n, &heap), "4611686018427387904000");
    let q = heap.alloc_rational(Ratio::new(BigInt::from(-3), BigInt::from(4)));
    assert_eq!(show(q, &heap), "-3/4");
    let z = heap.alloc_complex(fx(1), q);
    assert_eq!(show(z, &heap), "1-3/4i");
}
