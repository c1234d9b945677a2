use num_bigint::BigInt;
use num_rational::Ratio;
use patina::heap::{Heap, PromiseState, RecordTypeDescriptor};
use patina::scope::ScopeSet;
use patina::tagged_value::TaggedValue;

fn descriptor(id: u64, name: &str, fields: &[&str]) -> RecordTypeDescriptor {
    RecordTypeDescriptor {
        id,
        name: name.to_string(),
        fields: fields.iter().map(|f| f.to_string()).collect(),
    }
}

#[test]
fn test_bigint_alloc() {
    let mut heap = Heap::new();
    let n = heap.alloc_bigint(BigInt::from(12345));

    assert!(n.is_object());
    assert!(heap.is_bigint(n));
    assert!(!heap.is_rational(n));
}

#[test]
fn test_rational_alloc() {
    let mut heap = Heap::new();
    let r = heap.alloc_rational(Ratio::new(BigInt::from(1), BigInt::from(2)));

    assert!(r.is_object());
    assert!(heap.is_rational(r));
    assert!(!heap.is_bigint(r));
}

#[test]
fn a_mutable_cell_reads_back_what_was_written() {
    let mut heap = Heap::new();
    let cell = heap.alloc_mutable_cell(TaggedValue::fixnum(1));
    assert_eq!(heap.read_mutable_cell(cell), Some(TaggedValue::fixnum(1)));
    assert!(heap.write_mutable_cell(cell, TaggedValue::fixnum(7)));
    assert_eq!(heap.read_mutable_cell(cell), Some(TaggedValue::fixnum(7)));
}

#[test]
fn writing_a_cell_that_is_not_one_changes_nothing() {
    let mut heap = Heap::new();
    let sym = heap.intern_symbol("x");
    assert!(!heap.write_mutable_cell(sym, TaggedValue::fixnum(7)));
    assert_eq!(heap.read_mutable_cell(sym), None);
    assert_eq!(heap.read_mutable_cell(TaggedValue::fixnum(3)), None);
    assert_eq!(heap.get_symbol_name(sym), Some("x"));
}

#[test]
fn a_closure_free_variable_is_read_and_replaced_in_place() {
    let mut heap = Heap::new();
    let clo = heap.alloc_vm_closure(9, vec![TaggedValue::fixnum(1), TaggedValue::fixnum(2)]);
    let index = clo.heap_index();
    assert_eq!(heap.get_vm_closure_code_id(clo), Some(9));
    assert_eq!(heap.get_vm_closure_free_var(index, 1), Some(TaggedValue::fixnum(2)));
    assert_eq!(heap.get_vm_closure_free_var(index, 2), None);
    assert!(heap.set_vm_closure_free_var(index, 1, TaggedValue::fixnum(5)));
    assert!(!heap.set_vm_closure_free_var(index, 2, TaggedValue::fixnum(5)));
    let (code, vars) = heap.get_vm_closure(clo).unwrap();
    assert_eq!(code, 9);
    assert_eq!(vars, vec![TaggedValue::fixnum(1), TaggedValue::fixnum(5)]);
}

#[test]
fn continuation_handles_share_one_id_counter() {
    let mut heap = Heap::new();
    let (full, a) = heap.alloc_vm_continuation_ref();
    let (delimited, b) = heap.alloc_vm_delimited_continuation_ref();
    let (_, c) = heap.alloc_vm_continuation_ref();
    assert_eq!(b, a + 1);
    assert_eq!(c, b + 1);
    assert_eq!(heap.get_vm_continuation_ref(full), Some(a));
    assert_eq!(heap.get_vm_continuation_ref(delimited), None);
    assert_eq!(heap.get_vm_delimited_continuation_ref(delimited), Some(b));
    assert!(heap.is_vm_continuation(full));
    assert!(heap.is_vm_continuation(delimited));
}

#[test]
fn bytevectors_are_read_set_and_copied_into() {
    let mut heap = Heap::new();
    let bv = heap.alloc_bytevector(vec![1, 2, 3, 4]);
    assert!(heap.is_any_bytevector(bv));
    assert_eq!(heap.bytevector_len(bv), Some(4));
    assert_eq!(heap.bytevector_u8_ref(bv, 2), Some(3));
    assert_eq!(heap.bytevector_u8_ref(bv, 4), None);
    assert!(heap.bytevector_u8_set(bv, 0, 9));
    assert!(heap.bytevector_copy_into(bv, 2, &[7, 8]));
    assert_eq!(heap.get_bytevector_bytes(bv), Some(vec![9, 2, 7, 8]));
    assert_eq!(heap.get_bytevector(bv), Some(&[9u8, 2, 7, 8][..]));
    let not_bytes = heap.alloc_string("abc".to_string());
    assert_eq!(heap.bytevector_len(not_bytes), None);
    assert!(!heap.bytevector_u8_set(not_bytes, 0, 1));
}

#[test]
fn getters_answer_only_for_their_own_kind() {
    let mut heap = Heap::new();
    let big = heap.alloc_bigint(BigInt::from(7));
    let real = heap.alloc_real(2.5f64.to_bits());
    let cx = heap.alloc_complex(TaggedValue::fixnum(1), real);
    let rtd = heap.alloc_record_type(descriptor(3, "point", &["x", "y"]));
    let rec = heap.alloc_record(descriptor(3, "point", &["x", "y"]), vec![TaggedValue::fixnum(1), TaggedValue::fixnum(2)]);
    let promise = heap.alloc_promise(PromiseState::Forced(TaggedValue::fixnum(4)));
    let param = heap.alloc_parameter(vec![TaggedValue::fixnum(8)], None);
    let mut scopes = ScopeSet::new();
    scopes.insert(2);
    let id = heap.alloc_identifier("x".to_string(), scopes);

    assert_eq!(heap.get_bigint(big), Some(&BigInt::from(7)));
    assert_eq!(heap.get_bigint(real), None);
    assert_eq!(heap.get_real(real), Some(2.5f64.to_bits()));
    assert_eq!(heap.get_complex(cx), Some((TaggedValue::fixnum(1), real)));
    assert_eq!(heap.get_record_type(rtd).map(|d| d.name.as_str()), Some("point"));
    let (rt, fields) = heap.get_record(rec).unwrap();
    assert_eq!(rt.id, 3);
    assert_eq!(fields, &[TaggedValue::fixnum(1), TaggedValue::fixnum(2)][..]);
    assert_eq!(heap.get_promise(promise), Some(PromiseState::Forced(TaggedValue::fixnum(4))));
    assert_eq!(heap.get_parameter(param), Some((&[TaggedValue::fixnum(8)][..], None)));
    let (name, got) = heap.get_identifier_data_any(id).unwrap();
    assert_eq!(name, "x");
    assert!(got.contains(2));
    assert_eq!(heap.get_identifier_data(big).map(|(n, _)| n.clone()), None);
}

#[test]
fn number_predicates_follow_r7rs() {
    let mut heap = Heap::new();
    let zero = heap.alloc_bigint(BigInt::from(0));
    let half = heap.alloc_rational(Ratio::new(BigInt::from(1), BigInt::from(2)));
    let two = heap.alloc_rational(Ratio::new(BigInt::from(4), BigInt::from(2)));
    let three = heap.alloc_real(3.0f64.to_bits());
    let third = heap.alloc_real(3.5f64.to_bits());
    let inf = heap.alloc_real(f64::INFINITY.to_bits());
    let nan = heap.alloc_real(f64::NAN.to_bits());
    let inexact_zero = heap.alloc_real(0.0f64.to_bits());
    let on_axis = heap.alloc_complex(three, TaggedValue::fixnum(0));
    let off_axis = heap.alloc_complex(TaggedValue::fixnum(1), inexact_zero);
    let sym = heap.intern_symbol("a");

    assert!(heap.is_number(TaggedValue::fixnum(1)));
    assert!(heap.is_number(off_axis));
    assert!(!heap.is_number(sym));
    assert!(heap.is_exact_zero(TaggedValue::fixnum(0)));
    assert!(heap.is_exact_zero(zero));
    assert!(!heap.is_exact_zero(inexact_zero));
    assert!(heap.is_exact_number(half));
    assert!(!heap.is_exact_number(three));
    assert!(heap.is_inexact_number(three));
    assert!(heap.is_inexact_number(off_axis));
    assert!(!heap.is_inexact_number(half));
    assert!(heap.is_real_r7rs(on_axis));
    assert!(!heap.is_real_r7rs(off_axis));
    assert!(heap.is_rational_r7rs(three));
    assert!(!heap.is_rational_r7rs(inf));
    assert!(heap.is_integer_r7rs(three));
    assert!(heap.is_integer_r7rs(two));
    assert!(heap.is_integer_r7rs(on_axis));
    assert!(!heap.is_integer_r7rs(third));
    assert!(!heap.is_integer_r7rs(half));
    assert!(!heap.is_integer_r7rs(nan));
    assert_eq!(heap.numeric_is_finite(inf), Some(false));
    assert_eq!(heap.numeric_is_infinite(inf), Some(true));
    assert_eq!(heap.numeric_is_nan(nan), Some(true));
    assert_eq!(heap.numeric_is_nan(half), Some(false));
    assert_eq!(heap.numeric_is_finite(sym), None);
    assert!(heap.is_integer(zero));
    assert!(!heap.is_integer(half));
}

#[test]
fn eqv_compares_numbers_by_value_and_the_rest_by_identity() {
    let mut heap = Heap::new();
    let big_a = heap.alloc_bigint(BigInt::from(5));
    let big_b = heap.alloc_bigint(BigInt::from(5));
    let q_a = heap.alloc_rational(Ratio::new(BigInt::from(1), BigInt::from(3)));
    let q_b = heap.alloc_rational(Ratio::new(BigInt::from(2), BigInt::from(6)));
    let s_a = heap.alloc_string("hi".to_string());
    let s_b = heap.alloc_string("hi".to_string());
    let rt_a = heap.alloc_record_type(descriptor(11, "t", &[]));
    let rt_b = heap.alloc_record_type(descriptor(11, "t", &[]));

    assert!(heap.values_eq(big_a, big_a));
    assert!(!heap.values_eq(big_a, big_b));
    assert!(heap.values_eqv(big_a, big_b));
    assert!(heap.values_eqv(TaggedValue::fixnum(5), big_a));
    assert!(heap.values_eqv(big_a, TaggedValue::fixnum(5)));
    assert!(!heap.values_eqv(TaggedValue::fixnum(6), big_a));
    assert!(heap.values_eqv(q_a, q_b));
    assert!(!heap.values_eqv(s_a, s_b));
    assert!(heap.values_eqv(rt_a, rt_b));
}

#[test]
fn equal_compares_structure() {
    let mut heap = Heap::new();
    let s_a = heap.alloc_string("hi".to_string());
    let s_b = heap.alloc_string("hi".to_string());
    let l_a = heap.list_from_iter(vec![TaggedValue::fixnum(1), s_a]);
    let l_b = heap.list_from_iter(vec![TaggedValue::fixnum(1), s_b]);
    let l_c = heap.list_from_iter(vec![TaggedValue::fixnum(2), s_b]);
    let v_a = heap.alloc_vector(vec![l_a, TaggedValue::boolean(true)]);
    let v_b = heap.alloc_vector(vec![l_b, TaggedValue::boolean(true)]);
    let v_c = heap.alloc_vector(vec![l_b]);
    let bv_a = heap.alloc_bytevector(vec![1, 2]);
    let bv_b = heap.alloc_bytevector(vec![1, 2]);
    let rec_a = heap.alloc_record(descriptor(4, "r", &["f"]), vec![l_a]);
    let rec_b = heap.alloc_record(descriptor(4, "r", &["f"]), vec![l_b]);
    let rec_c = heap.alloc_record(descriptor(5, "r", &["f"]), vec![l_b]);

    assert!(heap.tagged_values_equal(s_a, s_b));
    assert!(heap.tagged_values_equal(l_a, l_b));
    assert!(!heap.tagged_values_equal(l_a, l_c));
    assert!(heap.pairs_equal(l_a, l_b));
    assert!(!heap.pairs_equal(l_a, s_a));
    assert!(heap.vectors_equal(v_a, v_b));
    assert!(!heap.vectors_equal(v_a, v_c));
    assert!(heap.tagged_values_equal(v_a, v_b));
    assert!(heap.tagged_values_equal(bv_a, bv_b));
    assert!(heap.tagged_values_equal(rec_a, rec_b));
    assert!(!heap.tagged_values_equal(rec_a, rec_c));
    assert!(heap.values_equal(rec_a, rec_b));
    assert!(!heap.tagged_values_equal(TaggedValue::NULL, l_a));
    assert!(!heap.tagged_values_equal(TaggedValue::fixnum(1), TaggedValue::fixnum(2)));
}

#[test]
fn equal_on_a_circular_list_ends() {
    let mut heap = Heap::new();
    let a = heap.alloc_pair(TaggedValue::fixnum(1), TaggedValue::NULL);
    heap.set_cdr(a, a);
    let b = heap.alloc_pair(TaggedValue::fixnum(1), TaggedValue::NULL);
    heap.set_cdr(b, b);
    assert!(heap.tagged_values_equal(a, a));
    assert!(!heap.tagged_values_equal(a, b));
}

#[test]
fn try_accessors_answer_none_for_other_kinds() {
    let mut heap = Heap::new();
    let p = heap.alloc_pair(TaggedValue::fixnum(1), TaggedValue::fixnum(2));
    let v = heap.alloc_vector(vec![TaggedValue::fixnum(3)]);
    assert_eq!(heap.try_pair(p), Some((TaggedValue::fixnum(1), TaggedValue::fixnum(2))));
    assert_eq!(heap.try_pair(v), None);
    assert_eq!(heap.try_vector_len(v), Some(1));
    assert_eq!(heap.try_vector_len(p), None);
    assert_eq!(heap.try_vector_to_vec(v), Some(vec![TaggedValue::fixnum(3)]));
    assert_eq!(heap.try_vector_to_vec(p), None);
}

#[test]
fn equal_structures_hash_alike() {
    let mut heap = patina::heap::Heap::new();
    let a1 = heap.alloc_string("abc".to_string());
    let a2 = heap.alloc_string("abc".to_string());
    let l1 = heap.list_from_iter(vec![TaggedValue::fixnum(1), a1]);
    let l2 = heap.list_from_iter(vec![TaggedValue::fixnum(1), a2]);
    assert_eq!(heap.tagged_value_hash(l1), heap.tagged_value_hash(l2));
    let v1 = heap.alloc_vector(vec![TaggedValue::fixnum(5), l1]);
    let v2 = heap.alloc_vector(vec![TaggedValue::fixnum(5), l2]);
    assert_eq!(heap.tagged_value_hash(v1), heap.tagged_value_hash(v2));
}

#[test]
fn hash_values_of_immediates() {
    let mut heap = patina::heap::Heap::new();
    assert_eq!(heap.tagged_value_hash(TaggedValue::NULL), 0x517cc1b727220a95);
    assert_eq!(heap.tagged_value_hash(TaggedValue::boolean(true)), 0x9e3779b97f4a7c15);
    assert_eq!(heap.tagged_value_hash(TaggedValue::boolean(false)), 0x6c62272e07bb0142);
    let h = 3u64.wrapping_mul(0x517cc1b727220a95);
    assert_eq!(heap.tagged_value_hash(TaggedValue::fixnum(3)), h ^ (h >> 32));
    // FNV-1a of "a".
    let s = heap.alloc_string("a".to_string());
    assert_eq!(heap.tagged_value_hash(s), (0xcbf29ce484222325u64 ^ 0x61).wrapping_mul(0x100000001b3));
    let nan = heap.alloc_real(f64::NAN.to_bits());
    assert_eq!(heap.tagged_value_hash(nan), 0x7ff8000000000000);
    assert_eq!(heap.tagged_value_hash(TaggedValue::Eof), 0);
}

#[test]
fn a_circular_list_hashes_in_bounded_time() {
    let mut heap = patina::heap::Heap::new();
    let xs = heap.list_from_iter(vec![TaggedValue::fixnum(1), TaggedValue::fixnum(2)]);
    let last = heap.cdr(xs);
    heap.set_cdr(last, xs);
    let _ = heap.tagged_value_hash(xs);
}
