//! Reading and updating the objects the heap holds: exceptions, records,
//! cells, closures, continuation handles, bytevectors and the rest.
use vstd::prelude::*;
use num_bigint::BigInt;
use num_rational::BigRational;
use crate::heap::{
    Heap,
    HeapObjectData,
    PromiseState,
    RecordTypeDescriptor,
    object_children,
    symbol_name_of,
};
use crate::tagged_value::{HeapIndex, TaggedValue};
use crate::scope::ScopeSet;
use crate::cps_expr::PromptTag;
use crate::error::ExceptionKind;

verus! {

/// A parameter object's stack of values and its converter.
pub type ParameterData = (Vec<TaggedValue>, Option<TaggedValue>);

/// The object at `index` of the object arena, when the arena has one.
pub open spec fn slot_at(h: &Heap, index: HeapIndex) -> Option<HeapObjectData> {
    if index < h.object_slots().len() {
        Some(h.object_slots()[index as int])
    } else {
        None
    }
}

/// A copy of a slice of values.
fn copy_slice(s: &[TaggedValue]) -> (r: Vec<TaggedValue>)
    ensures
        r@ == s@,
{
    let mut r: Vec<TaggedValue> = Vec::new();
    let mut k: usize = 0;
    while k < s.len()
        invariant
            k <= s@.len(),
            r@ == s@.take(k as int),
        decreases s@.len() - k,
    {
        r.push(s[k]);
        assert(r@ =~= s@.take(k + 1));
        k = k + 1;
    }
    r
}

impl Heap {
    /// Everything but the object arena agrees, and that arena keeps its
    /// length.
    pub open spec fn same_contents_except_objects(&self, other: &Heap) -> bool {
        &&& self.pair_slots() == other.pair_slots()
        &&& self.vector_slots() == other.vector_slots()
        &&& self.string_slots() == other.string_slots()
        &&& self.free_pair_list() == other.free_pair_list()
        &&& self.free_vector_list() == other.free_vector_list()
        &&& self.free_string_list() == other.free_string_list()
        &&& self.free_object_list() == other.free_object_list()
        &&& self.symbol_indices() == other.symbol_indices()
        &&& self.object_slots().len() == other.object_slots().len()
    }

    /// Replace the object in slot `i` by `data`: neither is a symbol or a
    /// freed slot, so the symbol table and the free list stay sound.
    fn replace_object(&mut self, i: usize, data: HeapObjectData)
        requires
            old(self).wf(),
            i < old(self).object_slots().len(),
            !(old(self).object_slots()[i as int] is Free),
            !(old(self).object_slots()[i as int] is Symbol),
            !(data is Free),
            !(data is Symbol),
            old(self).all_valid(object_children(data)),
            crate::heap::object_sound(data),
        ensures
            final(self).wf(),
            final(self).object_slots() == old(self).object_slots().update(i as int, data),
            final(self).same_contents_except_objects(old(self)),
            final(self).spec_allocs_since_gc() == old(self).spec_allocs_since_gc(),
            final(self).spec_gc_pending() == old(self).spec_gc_pending(),
            final(self).next_vm_continuation_id == old(self).next_vm_continuation_id,
    {
        let ghost d = data;
        self.objects.set(i, data);
        proof {
            let o = old(self);
            assert(self.vector_slots() == o.vector_slots());
            assert(self.string_slots() == o.string_slots());
            assert forall|j: int| 0 <= j < self.object_slots().len() implies self.all_valid(
                object_children(#[trigger] self.object_slots()[j]),
            ) by {
                if j != i as int {
                    assert(o.all_valid(object_children(o.object_slots()[j])));
                }
            }
            assert forall|j: int| 0 <= j < self.object_slots().len() implies crate::heap::object_sound(
                #[trigger] self.object_slots()[j],
            ) by {
                if j != i as int {
                    assert(crate::heap::object_sound(o.object_slots()[j]));
                }
            }
            assert forall|k: int| 0 <= k < self.symbol_indices().len() implies {
                &&& (#[trigger] self.symbol_indices()[k]) < self.object_slots().len()
                &&& self.object_slots()[self.symbol_indices()[k] as int] is Symbol
            } by {
                assert(o.object_slots()[o.symbol_indices()[k] as int] is Symbol);
            }
            assert forall|k: int| 0 <= k < self.free_object_list().len() implies self.object_slots()[(
            #[trigger] self.free_object_list()[k]) as int] is Free by {
                assert(o.object_slots()[o.free_object_list()[k] as int] is Free);
            }
            assert forall|k1: int, k2: int|
                0 <= k1 < k2 < self.symbol_indices().len() implies symbol_name_of(
                self.object_slots()[(#[trigger] self.symbol_indices()[k1]) as int],
            ) != symbol_name_of(self.object_slots()[(#[trigger] self.symbol_indices()[k2]) as int]) by {
                assert(o.object_slots()[o.symbol_indices()[k1] as int] is Symbol);
                assert(o.object_slots()[o.symbol_indices()[k2] as int] is Symbol);
            }
        }
    }

    /// The kind, message and irritants of an exception object.
    pub fn get_exception(&self, tagged: TaggedValue) -> (r: Option<(&ExceptionKind, &str, &[TaggedValue])>)
        ensures
            match tagged {
                TaggedValue::Object(i) => match slot_at(self, i) {
                    Some(HeapObjectData::Exception { kind, message, irritants }) => r is Some && *r.unwrap().0
                        == kind && r.unwrap().1@ == message@ && r.unwrap().2@ == irritants@,
                    _ => r is None,
                },
                _ => r is None,
            },
    {
        match tagged {
            TaggedValue::Object(i) => {
                if (i as usize) < self.objects.len() {
                    match &self.objects[i as usize] {
                        HeapObjectData::Exception { kind, message, irritants } => Some(
                            (kind, message.as_str(), irritants.as_slice()),
                        ),
                        _ => None,
                    }
                } else {
                    None
                }
            },
            _ => None,
        }
    }

    /// The values of a multiple-values object.
    pub fn get_values(&self, tv: TaggedValue) -> (r: Option<&[TaggedValue]>)
        requires
            self.valid_value(tv),
        ensures
            match self.object_of(tv) {
                Some(HeapObjectData::Values(vals)) => r is Some && r->0@ == vals@,
                _ => r is None,
            },
    {
        if !tv.is_object() {
            return None;
        }
        match self.get_object(tv) {
            HeapObjectData::Values(vals) => Some(vals.as_slice()),
            _ => None,
        }
    }

    /// The values of a multiple-values object, copied.
    pub fn get_values_as_tagged(&self, tv: TaggedValue) -> (r: Option<Vec<TaggedValue>>)
        requires
            self.valid_value(tv),
        ensures
            match self.object_of(tv) {
                Some(HeapObjectData::Values(vals)) => r is Some && r->0@ == vals@,
                _ => r is None,
            },
    {
        match self.get_values(tv) {
            Some(vals) => Some(copy_slice(vals)),
            None => None,
        }
    }

    /// The tag of a prompt-tag object.
    pub fn get_prompt_tag(&self, tv: TaggedValue) -> (r: Option<&PromptTag>)
        requires
            self.valid_value(tv),
        ensures
            match self.object_of(tv) {
                Some(HeapObjectData::PromptTag(tag)) => r == Some(&tag),
                _ => r is None,
            },
    {
        if !tv.is_object() {
            return None;
        }
        match self.get_object(tv) {
            HeapObjectData::PromptTag(tag) => Some(tag),
            _ => None,
        }
    }

    /// The value inside a mutable cell; `None` when `ptr` is not one.
    pub fn read_mutable_cell(&self, ptr: TaggedValue) -> (r: Option<TaggedValue>)
        requires
            self.valid_value(ptr),
        ensures
            match self.object_of(ptr) {
                Some(HeapObjectData::MutableCell(v)) => r == Some(v),
                _ => r is None,
            },
    {
        if !ptr.is_object() {
            return None;
        }
        match self.get_object(ptr) {
            HeapObjectData::MutableCell(v) => Some(*v),
            _ => None,
        }
    }

    /// Store `val` in a mutable cell; `false`, and nothing changed, when
    /// `ptr` is not one.
    pub fn write_mutable_cell(&mut self, ptr: TaggedValue, val: TaggedValue) -> (r: bool)
        requires
            old(self).wf(),
            old(self).valid_value(ptr),
            old(self).valid_value(val),
        ensures
            final(self).wf(),
            r == (old(self).object_of(ptr) matches Some(HeapObjectData::MutableCell(_))),
            r ==> final(self).object_slots() == old(self).object_slots().update(
                ptr.spec_heap_index() as int,
                HeapObjectData::MutableCell(val),
            ),
            !r ==> final(self).object_slots() == old(self).object_slots(),
            final(self).same_contents_except_objects(old(self)),
    {
        if !ptr.is_object() {
            return false;
        }
        let is_cell = match self.get_object(ptr) {
            HeapObjectData::MutableCell(_) => true,
            _ => false,
        };
        if !is_cell {
            return false;
        }
        proof {
            assert(object_children(HeapObjectData::MutableCell(val)) =~= seq![val]);
        }
        self.replace_object(ptr.heap_index() as usize, HeapObjectData::MutableCell(val));
        true
    }

    /// The code id and a copy of the captured variables of a bytecode
    /// closure.
    pub fn get_vm_closure(&self, val: TaggedValue) -> (r: Option<(u32, Vec<TaggedValue>)>)
        requires
            self.valid_value(val),
        ensures
            match self.object_of(val) {
                Some(HeapObjectData::VmClosure { code_id, free_vars }) => r is Some && r.unwrap().0 == code_id
                    && r.unwrap().1@ == free_vars@,
                _ => r is None,
            },
    {
        if !val.is_object() {
            return None;
        }
        match self.get_object(val) {
            HeapObjectData::VmClosure { code_id, free_vars } => Some(
                (*code_id, copy_slice(free_vars.as_slice())),
            ),
            _ => None,
        }
    }

    /// The code id of a bytecode closure, without copying its captures.
    pub fn get_vm_closure_code_id(&self, val: TaggedValue) -> (r: Option<u32>)
        requires
            self.valid_value(val),
        ensures
            match self.object_of(val) {
                Some(HeapObjectData::VmClosure { code_id, .. }) => r == Some(code_id),
                _ => r is None,
            },
    {
        if !val.is_object() {
            return None;
        }
        match self.get_object(val) {
            HeapObjectData::VmClosure { code_id, .. } => Some(*code_id),
            _ => None,
        }
    }

    /// Captured variable `slot` of the bytecode closure in object slot
    /// `heap_index`; `None` when there is no such closure or slot.
    pub fn get_vm_closure_free_var(&self, heap_index: HeapIndex, slot: usize) -> (r: Option<TaggedValue>)
        ensures
            match slot_at(self, heap_index) {
                Some(HeapObjectData::VmClosure { free_vars, .. }) => if slot < free_vars@.len() {
                    r == Some(free_vars@[slot as int])
                } else {
                    r is None
                },
                _ => r is None,
            },
    {
        if (heap_index as usize) >= self.objects.len() {
            return None;
        }
        match &self.objects[heap_index as usize] {
            HeapObjectData::VmClosure { free_vars, .. } => if slot < free_vars.len() {
                Some(free_vars[slot])
            } else {
                None
            },
            _ => None,
        }
    }

    /// Store `val` in captured variable `slot` of the bytecode closure in
    /// object slot `heap_index`; `false`, and nothing changed, when there is
    /// no such closure or slot.
    pub fn set_vm_closure_free_var(&mut self, heap_index: HeapIndex, slot: usize, val: TaggedValue) -> (r: bool)
        requires
            old(self).wf(),
            old(self).valid_value(val),
        ensures
            final(self).wf(),
            r == (slot_at(old(self), heap_index) matches Some(HeapObjectData::VmClosure { free_vars, .. })
                && slot < free_vars@.len()),
            r ==> match old(self).object_slots()[heap_index as int] {
                HeapObjectData::VmClosure { code_id, free_vars } => final(self).object_slots()[heap_index as int]
                    matches HeapObjectData::VmClosure { code_id: c2, free_vars: f2 } && c2 == code_id
                    && f2@ == free_vars@.update(slot as int, val),
                _ => false,
            },
            r ==> forall|j: int|
                0 <= j < old(self).object_slots().len() && j != heap_index as int
                    ==> final(self).object_slots()[j] == old(self).object_slots()[j],
            !r ==> final(self).object_slots() == old(self).object_slots(),
            final(self).same_contents_except_objects(old(self)),
    {
        let i = heap_index as usize;
        if i >= self.objects.len() {
            return false;
        }
        let (code, mut vars) = match &self.objects[i] {
            HeapObjectData::VmClosure { code_id, free_vars } => if slot < free_vars.len() {
                (*code_id, copy_slice(free_vars.as_slice()))
            } else {
                return false;
            },
            _ => {
                return false;
            },
        };
        let ghost before = vars@;
        vars.set(slot, val);
        proof {
            let o = old(self);
            assert(o.all_valid(object_children(o.object_slots()[i as int])));
            assert(object_children(HeapObjectData::VmClosure { code_id: code, free_vars: vars }) == vars@);
            assert forall|k: int| 0 <= k < vars@.len() implies o.valid_value(#[trigger] vars@[k]) by {
                if k != slot as int {
                    assert(vars@[k] == before[k]);
                }
            }
        }
        self.replace_object(i, HeapObjectData::VmClosure { code_id: code, free_vars: vars });
        true
    }

    /// The id the next continuation handle gets.
    pub closed spec fn spec_next_continuation_id(&self) -> u64 {
        self.next_vm_continuation_id
    }

    /// The next id is the counter the heap keeps.
    pub(crate) proof fn lemma_next_continuation_id(&self)
        ensures
            self.spec_next_continuation_id() == self.next_vm_continuation_id,
    {
    }

    /// Allocate an opaque handle for a full continuation held outside the
    /// heap, minting its id from the counter both handle kinds share.
    pub fn alloc_vm_continuation_ref(&mut self) -> (r: (TaggedValue, u64))
        requires
            old(self).wf(),
            old(self).can_alloc_object(),
            old(self).spec_next_continuation_id() < u64::MAX,
        ensures
            final(self).wf(),
            r.1 == old(self).spec_next_continuation_id(),
            final(self).spec_next_continuation_id() == r.1 + 1,
            final(self).object_allocated(old(self), r.0, HeapObjectData::VmContinuationRef(r.1)),
            final(self).arenas_extend(old(self)),
    {
        let id = self.next_vm_continuation_id;
        self.next_vm_continuation_id = id + 1;
        let tv = self.alloc_continuation_handle(HeapObjectData::VmContinuationRef(id));
        (tv, id)
    }

    /// Allocate an opaque handle for a delimited continuation, minting its
    /// id from the same counter.
    pub fn alloc_vm_delimited_continuation_ref(&mut self) -> (r: (TaggedValue, u64))
        requires
            old(self).wf(),
            old(self).can_alloc_object(),
            old(self).spec_next_continuation_id() < u64::MAX,
        ensures
            final(self).wf(),
            r.1 == old(self).spec_next_continuation_id(),
            final(self).spec_next_continuation_id() == r.1 + 1,
            final(self).object_allocated(
                old(self),
                r.0,
                HeapObjectData::VmDelimitedContinuationRef(r.1),
            ),
            final(self).arenas_extend(old(self)),
    {
        let id = self.next_vm_continuation_id;
        self.next_vm_continuation_id = id + 1;
        let tv = self.alloc_continuation_handle(HeapObjectData::VmDelimitedContinuationRef(id));
        (tv, id)
    }

    fn alloc_continuation_handle(&mut self, data: HeapObjectData) -> (r: TaggedValue)
        requires
            old(self).wf(),
            old(self).can_alloc_object(),
            data is VmContinuationRef || data is VmDelimitedContinuationRef,
        ensures
            final(self).wf(),
            final(self).object_allocated(old(self), r, data),
            final(self).arenas_extend(old(self)),
            final(self).next_vm_continuation_id == old(self).next_vm_continuation_id,
    {
        proof {
            assert(object_children(data) =~= Seq::<TaggedValue>::empty());
        }
        self.alloc_object(data)
    }
}


impl Heap {
    /// The id of a full-continuation handle.
    pub fn get_vm_continuation_ref(&self, tv: TaggedValue) -> (r: Option<u64>)
        requires
            self.valid_value(tv),
        ensures
            match self.object_of(tv) {
                Some(HeapObjectData::VmContinuationRef(id)) => r == Some(id),
                _ => r is None,
            },
    {
        if !tv.is_object() {
            return None;
        }
        match self.get_object(tv) {
            HeapObjectData::VmContinuationRef(id) => Some(*id),
            _ => None,
        }
    }

    /// The id of a delimited-continuation handle.
    pub fn get_vm_delimited_continuation_ref(&self, tv: TaggedValue) -> (r: Option<u64>)
        requires
            self.valid_value(tv),
        ensures
            match self.object_of(tv) {
                Some(HeapObjectData::VmDelimitedContinuationRef(id)) => r == Some(id),
                _ => r is None,
            },
    {
        if !tv.is_object() {
            return None;
        }
        match self.get_object(tv) {
            HeapObjectData::VmDelimitedContinuationRef(id) => Some(*id),
            _ => None,
        }
    }

    /// The name and scopes of an identifier object.
    pub fn get_identifier_data(&self, tv: TaggedValue) -> (r: Option<(&String, &ScopeSet)>)
        requires
            self.valid_value(tv),
        ensures
            match self.object_of(tv) {
                Some(HeapObjectData::Identifier { name, scopes }) => r is Some && r.unwrap().0@
                    == name@ && *r.unwrap().1 == scopes,
                _ => r is None,
            },
    {
        if !tv.is_object() {
            return None;
        }
        match self.get_object(tv) {
            HeapObjectData::Identifier { name, scopes } => Some((name, scopes)),
            _ => None,
        }
    }

    /// The name and scopes of an identifier object, copied.
    pub fn get_identifier_data_any(&self, tv: TaggedValue) -> (r: Option<(String, ScopeSet)>)
        requires
            self.valid_value(tv),
        ensures
            match self.object_of(tv) {
                Some(HeapObjectData::Identifier { name, scopes }) => r is Some && r.unwrap().0@
                    == name@ && r.unwrap().1.ids_view() == scopes.ids_view() && r.unwrap().1.wf()
                    == scopes.wf(),
                _ => r is None,
            },
    {
        match self.get_identifier_data(tv) {
            Some((name, scopes)) => Some((name.clone(), scopes.duplicate())),
            None => None,
        }
    }

    /// The exact integer an object holds.
    pub fn get_bigint(&self, tv: TaggedValue) -> (r: Option<&BigInt>)
        requires
            self.valid_value(tv),
        ensures
            match self.object_of(tv) {
                Some(HeapObjectData::BigInt(n)) => r == Some(&n),
                _ => r is None,
            },
    {
        if !tv.is_object() {
            return None;
        }
        match self.get_object(tv) {
            HeapObjectData::BigInt(n) => Some(n),
            _ => None,
        }
    }

    /// The exact rational an object holds.
    pub fn get_rational(&self, tv: TaggedValue) -> (r: Option<&BigRational>)
        requires
            self.valid_value(tv),
        ensures
            match self.object_of(tv) {
                Some(HeapObjectData::Rational(q)) => r == Some(&q),
                _ => r is None,
            },
    {
        if !tv.is_object() {
            return None;
        }
        match self.get_object(tv) {
            HeapObjectData::Rational(q) => Some(q),
            _ => None,
        }
    }

    /// The IEEE 754 bits of an inexact real object.
    pub fn get_real(&self, tv: TaggedValue) -> (r: Option<u64>)
        requires
            self.valid_value(tv),
        ensures
            match self.object_of(tv) {
                Some(HeapObjectData::Real(bits)) => r == Some(bits),
                _ => r is None,
            },
    {
        if !tv.is_object() {
            return None;
        }
        match self.get_object(tv) {
            HeapObjectData::Real(bits) => Some(*bits),
            _ => None,
        }
    }

    /// The real and imaginary parts of a complex object.
    pub fn get_complex(&self, tv: TaggedValue) -> (r: Option<(TaggedValue, TaggedValue)>)
        requires
            self.valid_value(tv),
        ensures
            match self.object_of(tv) {
                Some(HeapObjectData::Complex { real: re, imag: im }) => r == Some((re, im)),
                _ => r is None,
            },
    {
        if !tv.is_object() {
            return None;
        }
        match self.get_object(tv) {
            HeapObjectData::Complex { real: re, imag: im } => Some((*re, *im)),
            _ => None,
        }
    }

    /// The record type an object holds.
    pub fn get_record_type(&self, tv: TaggedValue) -> (r: Option<&RecordTypeDescriptor>)
        requires
            self.valid_value(tv),
        ensures
            match self.object_of(tv) {
                Some(HeapObjectData::RecordType(rtd)) => r == Some(&rtd),
                _ => r is None,
            },
    {
        if !tv.is_object() {
            return None;
        }
        match self.get_object(tv) {
            HeapObjectData::RecordType(rtd) => Some(rtd),
            _ => None,
        }
    }

    /// The type and fields of a record object.
    pub fn get_record(&self, tv: TaggedValue) -> (r: Option<(&RecordTypeDescriptor, &[TaggedValue])>)
        requires
            self.valid_value(tv),
        ensures
            match self.object_of(tv) {
                Some(HeapObjectData::Record { record_type, fields }) => r is Some && *r.unwrap().0
                    == record_type && r.unwrap().1@ == fields@,
                _ => r is None,
            },
    {
        if !tv.is_object() {
            return None;
        }
        match self.get_object(tv) {
            HeapObjectData::Record { record_type, fields } => Some((record_type, fields.as_slice())),
            _ => None,
        }
    }

    /// The value stack and converter of a parameter object.
    pub fn get_parameter(&self, tv: TaggedValue) -> (r: Option<(&[TaggedValue], Option<TaggedValue>)>)
        requires
            self.valid_value(tv),
        ensures
            match self.object_of(tv) {
                Some(HeapObjectData::Parameter { values, converter }) => r is Some && r.unwrap().0@
                    == values@ && r.unwrap().1 == converter,
                _ => r is None,
            },
    {
        if !tv.is_object() {
            return None;
        }
        match self.get_object(tv) {
            HeapObjectData::Parameter { values, converter } => Some((values.as_slice(), *converter)),
            _ => None,
        }
    }

    /// The state of a promise object.
    pub fn get_promise(&self, tv: TaggedValue) -> (r: Option<PromiseState>)
        requires
            self.valid_value(tv),
        ensures
            match self.object_of(tv) {
                Some(HeapObjectData::Promise(state)) => r == Some(state),
                _ => r is None,
            },
    {
        if !tv.is_object() {
            return None;
        }
        match self.get_object(tv) {
            HeapObjectData::Promise(state) => Some(*state),
            _ => None,
        }
    }

    /// The bytes of a bytevector object.
    pub fn get_bytevector(&self, tv: TaggedValue) -> (r: Option<&[u8]>)
        requires
            self.valid_value(tv),
        ensures
            match self.object_of(tv) {
                Some(HeapObjectData::Bytevector(bytes)) => r is Some && r.unwrap()@ == bytes@,
                _ => r is None,
            },
    {
        if !tv.is_object() {
            return None;
        }
        match self.get_object(tv) {
            HeapObjectData::Bytevector(bytes) => Some(bytes.as_slice()),
            _ => None,
        }
    }

    /// Whether `tv` is a bytevector.
    pub fn is_any_bytevector(&self, tv: TaggedValue) -> (r: bool)
        requires
            self.valid_value(tv),
        ensures
            r == (self.object_of(tv) matches Some(HeapObjectData::Bytevector(_))),
    {
        self.get_bytevector(tv).is_some()
    }

    /// The length of a bytevector.
    pub fn bytevector_len(&self, tv: TaggedValue) -> (r: Option<usize>)
        requires
            self.valid_value(tv),
        ensures
            match self.object_of(tv) {
                Some(HeapObjectData::Bytevector(bytes)) => r == Some(bytes@.len() as usize),
                _ => r is None,
            },
    {
        match self.get_bytevector(tv) {
            Some(bytes) => Some(bytes.len()),
            None => None,
        }
    }

    /// Byte `index` of a bytevector; `None` when `tv` is not one or the index
    /// is past its end.
    pub fn bytevector_u8_ref(&self, tv: TaggedValue, index: usize) -> (r: Option<u8>)
        requires
            self.valid_value(tv),
        ensures
            match self.object_of(tv) {
                Some(HeapObjectData::Bytevector(bytes)) => if index < bytes@.len() {
                    r == Some(bytes@[index as int])
                } else {
                    r is None
                },
                _ => r is None,
            },
    {
        match self.get_bytevector(tv) {
            Some(bytes) => if index < bytes.len() {
                Some(bytes[index])
            } else {
                None
            },
            None => None,
        }
    }

    /// The bytes of a bytevector, copied.
    pub fn get_bytevector_bytes(&self, tv: TaggedValue) -> (r: Option<Vec<u8>>)
        requires
            self.valid_value(tv),
        ensures
            match self.object_of(tv) {
                Some(HeapObjectData::Bytevector(bytes)) => r is Some && r.unwrap()@ == bytes@,
                _ => r is None,
            },
    {
        match self.get_bytevector(tv) {
            Some(bytes) => Some(copy_bytes(bytes)),
            None => None,
        }
    }

    /// Store `byte` at `index` of a bytevector; `false`, and nothing changed,
    /// when `tv` is not one. The index must lie within the bytevector.
    pub fn bytevector_u8_set(&mut self, tv: TaggedValue, index: usize, byte: u8) -> (r: bool)
        requires
            old(self).wf(),
            old(self).valid_value(tv),
            old(self).object_of(tv) matches Some(HeapObjectData::Bytevector(bytes)) ==> index
                < bytes@.len(),
        ensures
            final(self).wf(),
            r == (old(self).object_of(tv) matches Some(HeapObjectData::Bytevector(_))),
            r ==> final(self).only_object_changed(old(self), tv.spec_heap_index()),
            r ==> final(self).object_of(tv) matches Some(HeapObjectData::Bytevector(_)),
            r ==> final(self).bytes_of(tv) == old(self).bytes_of(tv).update(index as int, byte),
            !r ==> final(self).object_slots() == old(self).object_slots(),
            final(self).same_contents_except_objects(old(self)),
    {
        let mut bytes = match self.get_bytevector_bytes(tv) {
            Some(b) => b,
            None => {
                return false;
            },
        };
        bytes.set(index, byte);
        proof {
            assert(object_children(HeapObjectData::Bytevector(bytes)) =~= Seq::<TaggedValue>::empty());
        }
        self.replace_object(tv.heap_index() as usize, HeapObjectData::Bytevector(bytes));
        true
    }

    /// Copy `src` into a bytevector from offset `at`; `false`, and nothing
    /// changed, when `tv` is not one. The range must lie within the
    /// bytevector.
    pub fn bytevector_copy_into(&mut self, tv: TaggedValue, at: usize, src: &[u8]) -> (r: bool)
        requires
            old(self).wf(),
            old(self).valid_value(tv),
            old(self).object_of(tv) matches Some(HeapObjectData::Bytevector(bytes)) ==> at
                + src@.len() <= bytes@.len(),
        ensures
            final(self).wf(),
            r == (old(self).object_of(tv) matches Some(HeapObjectData::Bytevector(_))),
            r ==> final(self).only_object_changed(old(self), tv.spec_heap_index()),
            r ==> final(self).object_of(tv) matches Some(HeapObjectData::Bytevector(_)),
            r ==> final(self).bytes_of(tv) == old(self).bytes_of(tv).take(at as int) + src@ + old(
                self,
            ).bytes_of(tv).skip(at + src@.len()),
            !r ==> final(self).object_slots() == old(self).object_slots(),
            final(self).same_contents_except_objects(old(self)),
    {
        let mut bytes = match self.get_bytevector_bytes(tv) {
            Some(b) => b,
            None => {
                return false;
            },
        };
        let ghost orig = bytes@;
        let n: usize = bytes.len();
        let mut k: usize = 0;
        while k < src.len()
            invariant
                k <= src@.len(),
                orig.len() == n,
                at + src@.len() <= orig.len(),
                bytes@.len() == orig.len(),
                forall|j: int| 0 <= j < at ==> bytes@[j] == orig[j],
                forall|j: int| 0 <= j < k ==> bytes@[at + j] == src@[j],
                forall|j: int| at + k <= j < orig.len() ==> bytes@[j] == orig[j],
            decreases src@.len() - k,
        {
            bytes.set(at + k, src[k]);
            k = k + 1;
        }
        proof {
            assert(bytes@ =~= orig.take(at as int) + src@ + orig.skip(at + src@.len()));
            assert(object_children(HeapObjectData::Bytevector(bytes)) =~= Seq::<TaggedValue>::empty());
        }
        self.replace_object(tv.heap_index() as usize, HeapObjectData::Bytevector(bytes));
        true
    }

    /// The bytes of the bytevector `tv` refers to; empty for anything else.
    pub open spec fn bytes_of(&self, tv: TaggedValue) -> Seq<u8> {
        match self.object_of(tv) {
            Some(HeapObjectData::Bytevector(bytes)) => bytes@,
            _ => Seq::empty(),
        }
    }

    /// The object arena of `self` is that of `old` but for slot `i`.
    pub open spec fn only_object_changed(&self, old: &Heap, i: HeapIndex) -> bool {
        &&& self.object_slots().len() == old.object_slots().len()
        &&& forall|j: int|
            0 <= j < old.object_slots().len() && j != i as int ==> self.object_slots()[j]
                == old.object_slots()[j]
    }
}

impl Heap {
    /// The car and cdr of a pair; `None` for anything else.
    pub fn try_pair(&self, tv: TaggedValue) -> (r: Option<(TaggedValue, TaggedValue)>)
        requires
            self.valid_value(tv),
        ensures
            tv is Pair ==> r == Some(self.pair_slots()[tv.spec_heap_index() as int]),
            !(tv is Pair) ==> r is None,
    {
        if tv.is_pair() {
            Some(self.get_pair(tv))
        } else {
            None
        }
    }

    /// The length of a vector; `None` for anything else.
    pub fn try_vector_len(&self, tv: TaggedValue) -> (r: Option<usize>)
        requires
            self.valid_value(tv),
        ensures
            tv is Vector ==> r == Some(self.vector_slots()[tv.spec_heap_index() as int].len() as usize),
            !(tv is Vector) ==> r is None,
    {
        if tv.is_vector() {
            Some(self.vector_len(tv))
        } else {
            None
        }
    }

    /// The elements of a vector, copied; `None` for anything else.
    pub fn try_vector_to_vec(&self, tv: TaggedValue) -> (r: Option<Vec<TaggedValue>>)
        requires
            self.valid_value(tv),
        ensures
            tv is Vector ==> r is Some && r.unwrap()@ == self.vector_slots()[tv.spec_heap_index() as int],
            !(tv is Vector) ==> r is None,
    {
        if tv.is_vector() {
            Some(copy_slice(self.vector_slice(tv)))
        } else {
            None
        }
    }
}

/// A copy of a slice of bytes.
fn copy_bytes(s: &[u8]) -> (r: Vec<u8>)
    ensures
        r@ == s@,
{
    let mut r: Vec<u8> = Vec::new();
    let mut k: usize = 0;
    while k < s.len()
        invariant
            k <= s@.len(),
            r@ == s@.take(k as int),
        decreases s@.len() - k,
    {
        r.push(s[k]);
        assert(r@ =~= s@.take(k + 1));
        k = k + 1;
    }
    r
}

} // verus!
