use patina::heap::gc::MarkSweepCollector;
use patina::heap::{GcFreedBits, Heap, RecordTypeDescriptor};
use patina::tagged_value::TaggedValue;

fn collect(heap: &mut Heap, roots: &[TaggedValue]) -> patina::heap::gc::GcStats {
    MarkSweepCollector::new().collect(heap, roots)
}

#[test]
fn test_heap_new() {
    let heap = Heap::new();
    let stats = heap.stats();
    assert_eq!(stats.pairs, 0);
    assert_eq!(stats.vectors, 0);
    assert_eq!(stats.strings, 0);
}

#[test]
fn test_pair_alloc() {
    let mut heap = Heap::new();
    let car = TaggedValue::fixnum(1);
    let cdr = TaggedValue::fixnum(2);
    let pair = heap.alloc_pair(car, cdr);

    assert!(pair.is_pair());
    assert_eq!(heap.car(pair), car);
    assert_eq!(heap.cdr(pair), cdr);
}

#[test]
fn test_pair_set() {
    let mut heap = Heap::new();
    let pair = heap.alloc_pair(TaggedValue::fixnum(1), TaggedValue::fixnum(2));

    heap.set_car(pair, TaggedValue::fixnum(10));
    heap.set_cdr(pair, TaggedValue::fixnum(20));

    assert_eq!(heap.car(pair).as_fixnum_unchecked(), 10);
    assert_eq!(heap.cdr(pair).as_fixnum_unchecked(), 20);
}

#[test]
fn test_list_construction() {
    let mut heap = Heap::new();

    let three = heap.alloc_pair(TaggedValue::fixnum(3), TaggedValue::NULL);
    let two = heap.alloc_pair(TaggedValue::fixnum(2), three);
    let one = heap.alloc_pair(TaggedValue::fixnum(1), two);

    assert!(heap.is_list(one));
    assert_eq!(heap.list_len(one), Some(3));

    assert_eq!(heap.car(one).as_fixnum_unchecked(), 1);
    assert_eq!(heap.car(heap.cdr(one)).as_fixnum_unchecked(), 2);
    assert_eq!(heap.car(heap.cdr(heap.cdr(one))).as_fixnum_unchecked(), 3);
    assert!(heap.cdr(heap.cdr(heap.cdr(one))).is_null());
}

#[test]
fn test_list_from_iter() {
    let mut heap = Heap::new();
    let list = heap.list_from_iter(vec![
        TaggedValue::fixnum(1),
        TaggedValue::fixnum(2),
        TaggedValue::fixnum(3),
    ]);

    assert!(heap.is_list(list));
    assert_eq!(heap.list_len(list), Some(3));
    assert_eq!(heap.car(list).as_fixnum_unchecked(), 1);
}

#[test]
fn test_improper_list() {
    let mut heap = Heap::new();
    let pair = heap.alloc_pair(TaggedValue::fixnum(1), TaggedValue::fixnum(2));

    assert!(!heap.is_list(pair));
    assert_eq!(heap.list_len(pair), None);
}

#[test]
fn a_circular_list_is_no_list() {
    let mut heap = Heap::new();
    let xs = heap.list_from_iter(vec![TaggedValue::fixnum(1), TaggedValue::fixnum(2)]);
    let last = heap.cdr(xs);
    heap.set_cdr(last, xs);
    assert!(!heap.is_list(xs));
    assert_eq!(heap.list_len(xs), None);
    assert_eq!(heap.list_to_vec(xs), None);
    // Walking by index needs no end, so it still answers.
    assert_eq!(heap.list_ref(xs, 5), Some(TaggedValue::fixnum(2)));
}

#[test]
fn list_queries_follow_the_cdrs() {
    let mut heap = Heap::new();
    let xs = heap.list_from_iter(vec![
        TaggedValue::fixnum(1),
        TaggedValue::fixnum(2),
        TaggedValue::fixnum(3),
    ]);
    assert_eq!(heap.list_ref(xs, 0), Some(TaggedValue::fixnum(1)));
    assert_eq!(heap.list_ref(xs, 2), Some(TaggedValue::fixnum(3)));
    assert_eq!(heap.list_ref(xs, 3), None);
    assert_eq!(heap.list_tail(xs, 3), Some(TaggedValue::NULL));
    assert_eq!(heap.list_tail(xs, 4), None);
    assert_eq!(
        heap.list_to_vec(xs),
        Some(vec![
            TaggedValue::fixnum(1),
            TaggedValue::fixnum(2),
            TaggedValue::fixnum(3)
        ])
    );
}

#[test]
fn reverse_and_append_build_new_lists() {
    let mut heap = Heap::new();
    let xs = heap.list_from_iter(vec![TaggedValue::fixnum(1), TaggedValue::fixnum(2)]);
    let ys = heap.list_from_iter(vec![TaggedValue::fixnum(3)]);
    let rev = heap.list_reverse(xs).unwrap();
    assert_eq!(
        heap.list_to_vec(rev),
        Some(vec![TaggedValue::fixnum(2), TaggedValue::fixnum(1)])
    );
    let both = heap.list_append(xs, ys).unwrap();
    assert_eq!(
        heap.list_to_vec(both),
        Some(vec![
            TaggedValue::fixnum(1),
            TaggedValue::fixnum(2),
            TaggedValue::fixnum(3)
        ])
    );
    // The second list is shared, not copied.
    assert_eq!(heap.list_tail(both, 2), Some(ys));
    let dotted = heap.alloc_pair(TaggedValue::fixnum(1), TaggedValue::fixnum(2));
    assert_eq!(heap.list_append(dotted, ys), None);
    assert_eq!(heap.list_reverse(dotted), None);
    assert_eq!(heap.list_append(TaggedValue::NULL, ys), Some(ys));
}

#[test]
fn a_dotted_tail_ends_the_chain() {
    let mut heap = Heap::new();
    let l = heap.list_from_iter_with_tail(
        vec![TaggedValue::fixnum(1), TaggedValue::fixnum(2)],
        TaggedValue::fixnum(3),
    );
    assert!(!heap.is_list(l));
    assert_eq!(heap.list_tail(l, 2), Some(TaggedValue::fixnum(3)));
}

#[test]
fn test_vector_alloc() {
    let mut heap = Heap::new();
    let vec = heap.alloc_vector(vec![
        TaggedValue::fixnum(1),
        TaggedValue::fixnum(2),
        TaggedValue::fixnum(3),
    ]);

    assert!(vec.is_vector());
    assert_eq!(heap.vector_len(vec), 3);
    assert_eq!(heap.vector_ref(vec, 0).as_fixnum_unchecked(), 1);
    assert_eq!(heap.vector_ref(vec, 1).as_fixnum_unchecked(), 2);
    assert_eq!(heap.vector_ref(vec, 2).as_fixnum_unchecked(), 3);
}

#[test]
fn test_vector_set() {
    let mut heap = Heap::new();
    let vec = heap.alloc_vector(vec![TaggedValue::fixnum(1), TaggedValue::fixnum(2)]);

    heap.vector_set(vec, 0, TaggedValue::fixnum(10));
    assert_eq!(heap.vector_ref(vec, 0).as_fixnum_unchecked(), 10);
}

#[test]
fn a_filled_vector_repeats_its_fill() {
    let mut heap = Heap::new();
    let v = heap.alloc_vector_fill(3, TaggedValue::boolean(true));
    assert_eq!(heap.vector_len(v), 3);
    assert_eq!(heap.vector_slice(v), &[TaggedValue::boolean(true); 3]);
}

#[test]
fn test_string_alloc() {
    let mut heap = Heap::new();
    let s = heap.alloc_string("hello".to_string());

    assert!(s.is_string());
    assert_eq!(heap.get_string_chars(s), &['h', 'e', 'l', 'l', 'o']);
    assert_eq!(heap.string_char_len(s), 5);
}

#[test]
fn a_string_character_can_be_replaced() {
    let mut heap = Heap::new();
    let s = heap.alloc_str("cat");
    heap.string_set_char(s, 0, 'b');
    assert_eq!(heap.get_string_as_utf8(s), "bat");
    assert_eq!(heap.get_string_contents(s), Some("bat".to_string()));
    assert_eq!(heap.get_string_contents(TaggedValue::fixnum(1)), None);
}

#[test]
fn test_symbol_interning() {
    let mut heap = Heap::new();

    let s1 = heap.intern_symbol("foo");
    let s2 = heap.intern_symbol("foo");
    let s3 = heap.intern_symbol("bar");

    assert_eq!(s1, s2);
    assert_ne!(s1, s3);
    assert_eq!(heap.stats().symbols, 2);
}

#[test]
fn symbols_have_names_and_types() {
    let mut heap = Heap::new();
    let s = heap.intern_symbol("lambda");
    assert!(heap.is_symbol(s));
    assert!(!heap.is_symbol(TaggedValue::fixnum(1)));
    assert_eq!(heap.get_symbol_name(s), Some("lambda"));
    assert!(heap.is_named(s, "lambda"));
    assert!(!heap.is_named(s, "define"));
    assert_eq!(heap.value_type_name(s), "symbol");
    assert_eq!(heap.value_type_name(TaggedValue::NULL), "null");
    assert_eq!(heap.value_type_name(TaggedValue::fixnum(3)), "integer");
}

#[test]
fn unreachable_pair_swept_reachable_survives() {
    let mut heap = Heap::new();
    let live = heap.alloc_pair(TaggedValue::fixnum(1), TaggedValue::fixnum(2));
    let dead = heap.alloc_pair(TaggedValue::fixnum(3), TaggedValue::fixnum(4));

    let stats = collect(&mut heap, &[live]);

    assert_eq!(stats.last_marked.pairs, 1);
    assert_eq!(stats.last_swept.pairs, 1);
    assert_eq!(heap.free_pairs(), &[dead.heap_index()]);
    assert_eq!(heap.car(live), TaggedValue::fixnum(1));
    assert_eq!(heap.cdr(live), TaggedValue::fixnum(2));

    let reused = heap.alloc_pair(TaggedValue::fixnum(5), TaggedValue::fixnum(6));
    assert_eq!(reused.heap_index(), dead.heap_index());
    assert!(heap.free_pairs().is_empty());
}

#[test]
fn nested_structures_traced_transitively() {
    let mut heap = Heap::new();
    let s = heap.alloc_string("live".to_string());
    let inner = heap.alloc_pair(s, TaggedValue::NULL);
    let vec = heap.alloc_vector(vec![inner, TaggedValue::fixnum(7)]);
    let dead_string = heap.alloc_string("dead".to_string());

    let stats = collect(&mut heap, &[vec]);

    assert_eq!(stats.last_marked.strings, 1);
    assert_eq!(stats.last_swept.strings, 1);
    assert_eq!(heap.free_strings(), &[dead_string.heap_index()]);
    assert_eq!(heap.get_string_as_utf8(s), "live");
}

#[test]
fn unreachable_cycle_reclaimed_reachable_cycle_survives() {
    let mut heap = Heap::new();

    let dead = heap.alloc_pair(TaggedValue::fixnum(1), TaggedValue::NULL);
    heap.set_cdr(dead, dead);

    let live = heap.alloc_pair(TaggedValue::fixnum(2), TaggedValue::NULL);
    heap.set_cdr(live, live);

    let stats = collect(&mut heap, &[live]);

    assert_eq!(stats.last_swept.pairs, 1);
    assert_eq!(heap.free_pairs(), &[dead.heap_index()]);
    assert_eq!(heap.cdr(live), live);
}

#[test]
fn interned_symbols_are_immortal() {
    let mut heap = Heap::new();
    let sym = heap.intern_symbol("kept-alive");

    let stats = collect(&mut heap, &[]);

    assert_eq!(stats.last_swept.objects, 0);
    assert_eq!(heap.get_symbol_name(sym), Some("kept-alive"));
}

#[test]
fn mutable_cell_and_values_are_traced() {
    let mut heap = Heap::new();
    let boxed = heap.alloc_pair(TaggedValue::fixnum(1), TaggedValue::NULL);
    let cell = heap.alloc_mutable_cell(boxed);
    let grouped = heap.alloc_pair(TaggedValue::fixnum(2), TaggedValue::NULL);
    let values = heap.alloc_values(vec![grouped]);

    let stats = collect(&mut heap, &[cell, values]);

    assert_eq!(stats.last_swept.pairs, 0);
    assert_eq!(heap.car(boxed), TaggedValue::fixnum(1));
    assert_eq!(heap.car(grouped), TaggedValue::fixnum(2));
}

#[test]
fn already_free_slots_are_not_double_freed() {
    let mut heap = Heap::new();
    heap.alloc_pair(TaggedValue::fixnum(1), TaggedValue::NULL);
    heap.alloc_pair(TaggedValue::fixnum(2), TaggedValue::NULL);

    collect(&mut heap, &[]);
    assert_eq!(heap.free_pairs().len(), 2);

    let stats = collect(&mut heap, &[]);
    assert_eq!(stats.last_swept.pairs, 0);
    assert_eq!(heap.free_pairs().len(), 2);
}

#[test]
fn arena_length_plateaus_under_alloc_and_drop() {
    let mut heap = Heap::new();
    let mut collector = MarkSweepCollector::new();

    for _ in 0..10 {
        for i in 0..100 {
            heap.alloc_pair(TaggedValue::fixnum(i), TaggedValue::NULL);
        }
        collector.collect(&mut heap, &[]);
    }
    assert_eq!(heap.stats().pairs, 100);
}

#[test]
fn alloc_counter_and_adaptive_threshold() {
    let mut heap = Heap::new();
    let mut collector = MarkSweepCollector::with_min_threshold(10);

    for i in 0..9 {
        heap.alloc_pair(TaggedValue::fixnum(i), TaggedValue::NULL);
    }
    assert_eq!(heap.allocs_since_gc(), 9);
    assert!(!collector.should_collect(&heap));

    heap.alloc_pair(TaggedValue::fixnum(9), TaggedValue::NULL);
    assert!(collector.should_collect(&heap));

    collector.collect(&mut heap, &[]);
    assert_eq!(heap.allocs_since_gc(), 0);
    assert!(!collector.should_collect(&heap));
}

#[test]
fn gc_request_flag_roundtrip() {
    let mut heap = Heap::new();
    assert!(!heap.take_gc_request());
    heap.request_gc();
    assert!(heap.gc_requested());
    assert!(heap.take_gc_request());
    assert!(!heap.gc_requested());
}

#[test]
fn shared_record_fields_with_live_holder_survive() {
    let mut heap = Heap::new();
    let field_val = heap.alloc_pair(TaggedValue::fixnum(7), TaggedValue::NULL);
    let rtd = RecordTypeDescriptor {
        id: 0,
        name: "point".to_string(),
        fields: vec!["x".to_string()],
    };
    let record = heap.alloc_record(rtd, vec![field_val]);

    let stats = collect(&mut heap, &[record]);

    assert_eq!(stats.last_swept.pairs, 0);
    assert_eq!(heap.car(field_val), TaggedValue::fixnum(7));
}

#[test]
fn a_swept_vector_slot_is_reused() {
    let mut heap = Heap::new();
    let dead = heap.alloc_vector(vec![TaggedValue::fixnum(1)]);
    let stats = collect(&mut heap, &[]);
    assert_eq!(stats.last_swept.vectors, 1);
    assert_eq!(heap.free_vectors(), &[dead.heap_index()]);
    let again = heap.alloc_vector(vec![]);
    assert_eq!(again.heap_index(), dead.heap_index());
    assert_eq!(heap.vector_len(again), 0);
}

#[test]
fn draining_an_untracked_heap_gives_no_bits() {
    let mut heap = Heap::new();
    match heap.take_gc_freed_bits() {
        GcFreedBits::Exact(bits) => assert!(bits.is_empty()),
        GcFreedBits::Overflowed => panic!("nothing was recorded"),
    }
}

#[test]
fn draining_a_tracked_heap_after_a_collection_gives_exact_bits() {
    let mut heap = Heap::new();
    heap.enable_gc_freed_tracking();
    heap.enable_gc_freed_tracking();
    let _garbage = heap.alloc_pair(TaggedValue::fixnum(1), TaggedValue::fixnum(2));
    collect(&mut heap, &[]);
    match heap.take_gc_freed_bits() {
        GcFreedBits::Exact(bits) => assert!(bits.is_empty()),
        GcFreedBits::Overflowed => panic!("the record has no overflow"),
    }
    assert!(matches!(heap.take_gc_freed_bits(), GcFreedBits::Exact(_)));
}

#[test]
fn a_second_collection_with_the_same_roots_reclaims_nothing() {
    let mut heap = Heap::new();
    let live = heap.alloc_pair(TaggedValue::fixnum(1), TaggedValue::fixnum(2));
    let _garbage = heap.alloc_pair(TaggedValue::fixnum(3), TaggedValue::fixnum(4));
    let first = collect(&mut heap, &[live]);
    assert_eq!(first.last_swept.pairs, 1);
    let second = collect(&mut heap, &[live]);
    assert_eq!(second.last_swept.pairs, 0);
    assert_eq!(second.last_swept.objects, 0);
}
