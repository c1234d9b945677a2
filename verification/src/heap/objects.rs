//! The object arena: allocation, typed constructors and accessors, and the
//! symbol table.
use vstd::prelude::*;
use crate::heap::{
    Heap,
    HeapObjectData,
    HeapObjectType,
    PromiseState,
    RecordTypeDescriptor,
    object_children,
    arena_limit,
    symbol_name_of,
    spec_object_type,
};
use num_bigint::BigInt;
use num_rational::BigRational;
use crate::tagged_value::{HeapIndex, TaggedValue};
use crate::scope::ScopeSet;
use crate::cps_expr::PromptTag;
use crate::error::ExceptionKind;
use crate::text::{chars_of, str_is, string_from_chars};

verus! {

impl Heap {
    /// Whether an object can be allocated without exceeding the index range.
    pub open spec fn can_alloc_object(&self) -> bool {
        self.free_object_list().len() > 0 || self.object_slots().len() < arena_limit()
    }

    /// `self` is `old` after allocating `data` as `r`: the most recently
    /// freed object slot reused when there is one, else a new slot; the
    /// other arenas, their free lists and the symbol table untouched.
    pub open spec fn object_allocated(&self, old: &Heap, r: TaggedValue, data: HeapObjectData) -> bool {
        &&& r is Object
        &&& old.free_object_list().len() > 0 ==> {
            &&& r.spec_heap_index() == old.free_object_list().last()
            &&& self.free_object_list() == old.free_object_list().drop_last()
            &&& self.object_slots() == old.object_slots().update(r.spec_heap_index() as int, data)
        }
        &&& old.free_object_list().len() == 0 ==> {
            &&& r.spec_heap_index() == old.object_slots().len()
            &&& self.free_object_list() == old.free_object_list()
            &&& self.object_slots() == old.object_slots().push(data)
        }
        &&& self.pair_slots() == old.pair_slots()
        &&& self.vector_slots() == old.vector_slots()
        &&& self.string_slots() == old.string_slots()
        &&& self.free_pair_list() == old.free_pair_list()
        &&& self.free_vector_list() == old.free_vector_list()
        &&& self.free_string_list() == old.free_string_list()
        &&& self.symbol_indices() == old.symbol_indices()
    }

    /// Allocate an object, reusing the most recently freed object slot when
    /// there is one.
    pub(crate) fn alloc_object(&mut self, data: HeapObjectData) -> (r: TaggedValue)
        requires
            old(self).wf(),
            old(self).can_alloc_object(),
            old(self).all_valid(object_children(data)),
            crate::heap::object_sound(data),
            !(data is Free),
        ensures
            final(self).wf(),
            final(self).object_allocated(old(self), r, data),
            final(self).arenas_extend(old(self)),
            final(self).spec_gc_defer_depth() == old(self).spec_gc_defer_depth(),
            final(self).next_vm_continuation_id == old(self).next_vm_continuation_id,
    {
        let ghost d = data;
        self.note_alloc();
        let index: HeapIndex;
        if self.free_objects.len() > 0 {
            let free = self.free_objects.pop().unwrap();
            proof {
                assert(old(self).free_objects@.drop_last().no_duplicates());
                assert(old(self).objects@[free as int] is Free);
            }
            self.objects.set(free as usize, data);
            index = free;
        } else {
            index = self.objects.len() as HeapIndex;
            self.objects.push(data);
        }
        proof {
            let o = old(self);
            self.lemma_valid_grows(o);
            assert(self.vector_slots() == o.vector_slots());
            assert(self.string_slots() == o.string_slots());
            assert forall|i: int| 0 <= i < self.object_slots().len() implies self.all_valid(
                object_children(#[trigger] self.object_slots()[i]),
            ) by {
                if i != index as int {
                    assert(self.object_slots()[i] == o.object_slots()[i]);
                    assert(o.all_valid(object_children(o.object_slots()[i])));
                }
            }
            assert forall|k: int| 0 <= k < self.symbol_indices().len() implies {
                &&& (#[trigger] self.symbol_indices()[k]) < self.object_slots().len()
                &&& self.object_slots()[self.symbol_indices()[k] as int] is Symbol
            } by {
                assert(self.symbol_indices()[k] != index);
            }
            assert forall|k: int| 0 <= k < self.free_object_list().len() implies self.object_slots()[(
            #[trigger] self.free_object_list()[k]) as int] is Free by {
                assert(self.free_object_list()[k] == o.free_object_list()[k]);
                if o.free_object_list().len() > 0 {
                    assert(o.free_object_list()[k] != o.free_object_list().last());
                }
            }
            assert forall|k1: int, k2: int|
                0 <= k1 < k2 < self.symbol_indices().len() implies symbol_name_of(
                self.object_slots()[(#[trigger] self.symbol_indices()[k1]) as int],
            ) != symbol_name_of(self.object_slots()[(#[trigger] self.symbol_indices()[k2]) as int]) by {
                assert(self.symbol_indices()[k1] != index);
                assert(self.symbol_indices()[k2] != index);
            }
        }
        TaggedValue::object(index)
    }

    /// The object `ptr` refers to.
    pub fn get_object(&self, ptr: TaggedValue) -> (r: &HeapObjectData)
        requires
            ptr is Object,
            self.valid_value(ptr),
        ensures
            *r == self.object_slots()[ptr.spec_heap_index() as int],
    {
        &self.objects[ptr.heap_index() as usize]
    }

    /// The type tag of the object `ptr` refers to.
    pub fn get_object_type(&self, ptr: TaggedValue) -> (r: HeapObjectType)
        requires
            ptr is Object,
            self.valid_value(ptr),
        ensures
            r == spec_object_type(&self.object_slots()[ptr.spec_heap_index() as int]),
    {
        self.get_object(ptr).object_type()
    }

    /// The object `tv` refers to, when it is one.
    pub open spec fn object_of(&self, tv: TaggedValue) -> Option<HeapObjectData> {
        match tv {
            TaggedValue::Object(i) => Some(self.object_slots()[i as int]),
            _ => None,
        }
    }
}

impl Heap {
    /// Allocate an exact integer outside the fixnum range.
    pub fn alloc_bigint(&mut self, n: BigInt) -> (r: TaggedValue)
        requires
            old(self).wf(),
            old(self).can_alloc_object(),
        ensures
            final(self).wf(),
            final(self).object_allocated(old(self), r, HeapObjectData::BigInt(n)),
            final(self).arenas_extend(old(self)),
    {
        let data = HeapObjectData::BigInt(n);
        proof {
            assert(old(self).all_valid(object_children(data))) by {
                match data {
                    HeapObjectData::Complex { .. } => {},
                    _ => {},
                }
            }
        }
        self.alloc_object(data)
    }

    /// Allocate an exact non-integer rational.
    pub fn alloc_rational(&mut self, q: BigRational) -> (r: TaggedValue)
        requires
            old(self).wf(),
            old(self).can_alloc_object(),
            crate::heap::numeric::ratio_denom(q) > 0,
        ensures
            final(self).wf(),
            final(self).object_allocated(old(self), r, HeapObjectData::Rational(q)),
            final(self).arenas_extend(old(self)),
    {
        let data = HeapObjectData::Rational(q);
        proof {
            assert(old(self).all_valid(object_children(data))) by {
                match data {
                    HeapObjectData::Complex { .. } => {},
                    _ => {},
                }
            }
        }
        self.alloc_object(data)
    }

    /// Allocate an inexact real, given by the bits of its IEEE 754 double.
    pub fn alloc_real(&mut self, bits: u64) -> (r: TaggedValue)
        requires
            old(self).wf(),
            old(self).can_alloc_object(),
        ensures
            final(self).wf(),
            final(self).object_allocated(old(self), r, HeapObjectData::Real(bits)),
            final(self).arenas_extend(old(self)),
    {
        let data = HeapObjectData::Real(bits);
        proof {
            assert(old(self).all_valid(object_children(data))) by {
                match data {
                    HeapObjectData::Complex { .. } => {},
                    _ => {},
                }
            }
        }
        self.alloc_object(data)
    }

    /// Allocate a complex number from its real and imaginary parts.
    pub fn alloc_complex(&mut self, re: TaggedValue, im: TaggedValue) -> (r: TaggedValue)
        requires
            old(self).wf(),
            old(self).can_alloc_object(),
            old(self).valid_value(re),
            old(self).valid_value(im),
        ensures
            final(self).wf(),
            final(self).object_allocated(old(self), r, HeapObjectData::Complex { real: re, imag: im }),
            final(self).arenas_extend(old(self)),
    {
        let data = HeapObjectData::Complex { real: re, imag: im };
        proof {
            assert(old(self).all_valid(object_children(data))) by {
                match data {
                    HeapObjectData::Complex { .. } => {},
                    _ => {},
                }
            }
        }
        self.alloc_object(data)
    }

    /// Allocate a bytevector.
    pub fn alloc_bytevector(&mut self, bytes: Vec<u8>) -> (r: TaggedValue)
        requires
            old(self).wf(),
            old(self).can_alloc_object(),
        ensures
            final(self).wf(),
            final(self).object_allocated(old(self), r, HeapObjectData::Bytevector(bytes)),
            final(self).arenas_extend(old(self)),
    {
        let data = HeapObjectData::Bytevector(bytes);
        proof {
            assert(old(self).all_valid(object_children(data))) by {
                match data {
                    HeapObjectData::Complex { .. } => {},
                    _ => {},
                }
            }
        }
        self.alloc_object(data)
    }

    /// Allocate an exception object.
    pub fn alloc_exception(&mut self, kind: ExceptionKind, message: String, irritants: Vec<TaggedValue>) -> (r: TaggedValue)
        requires
            old(self).wf(),
            old(self).can_alloc_object(),
            old(self).all_valid(irritants@),
        ensures
            final(self).wf(),
            final(self).object_allocated(old(self), r, HeapObjectData::Exception { kind, message, irritants }),
            final(self).arenas_extend(old(self)),
    {
        let data = HeapObjectData::Exception { kind, message, irritants };
        proof {
            assert(old(self).all_valid(object_children(data))) by {
                match data {
                    HeapObjectData::Complex { .. } => {},
                    _ => {},
                }
            }
        }
        self.alloc_object(data)
    }

    /// Allocate a record type descriptor.
    pub fn alloc_record_type(&mut self, rtd: RecordTypeDescriptor) -> (r: TaggedValue)
        requires
            old(self).wf(),
            old(self).can_alloc_object(),
        ensures
            final(self).wf(),
            final(self).object_allocated(old(self), r, HeapObjectData::RecordType(rtd)),
            final(self).arenas_extend(old(self)),
    {
        let data = HeapObjectData::RecordType(rtd);
        proof {
            assert(old(self).all_valid(object_children(data))) by {
                match data {
                    HeapObjectData::Complex { .. } => {},
                    _ => {},
                }
            }
        }
        self.alloc_object(data)
    }

    /// Allocate a record of `record_type` with its field values.
    pub fn alloc_record(&mut self, record_type: RecordTypeDescriptor, fields: Vec<TaggedValue>) -> (r: TaggedValue)
        requires
            old(self).wf(),
            old(self).can_alloc_object(),
            old(self).all_valid(fields@),
        ensures
            final(self).wf(),
            final(self).object_allocated(old(self), r, HeapObjectData::Record { record_type, fields }),
            final(self).arenas_extend(old(self)),
    {
        let data = HeapObjectData::Record { record_type, fields };
        proof {
            assert(old(self).all_valid(object_children(data))) by {
                match data {
                    HeapObjectData::Complex { .. } => {},
                    _ => {},
                }
            }
        }
        self.alloc_object(data)
    }

    /// Allocate an identifier with its scope set.
    pub fn alloc_identifier(&mut self, name: String, scopes: ScopeSet) -> (r: TaggedValue)
        requires
            old(self).wf(),
            old(self).can_alloc_object(),
        ensures
            final(self).wf(),
            final(self).object_allocated(old(self), r, HeapObjectData::Identifier { name, scopes }),
            final(self).arenas_extend(old(self)),
    {
        let data = HeapObjectData::Identifier { name, scopes };
        proof {
            assert(old(self).all_valid(object_children(data))) by {
                match data {
                    HeapObjectData::Complex { .. } => {},
                    _ => {},
                }
            }
        }
        self.alloc_object(data)
    }

    /// Allocate a parameter object: its stack of values, most recent last, and its converter.
    pub fn alloc_parameter(&mut self, values: Vec<TaggedValue>, converter: Option<TaggedValue>) -> (r: TaggedValue)
        requires
            old(self).wf(),
            old(self).can_alloc_object(),
            old(self).all_valid(values@),
            converter matches Some(c) ==> old(self).valid_value(c),
        ensures
            final(self).wf(),
            final(self).object_allocated(old(self), r, HeapObjectData::Parameter { values, converter }),
            final(self).arenas_extend(old(self)),
    {
        let data = HeapObjectData::Parameter { values, converter };
        proof {
            assert(old(self).all_valid(object_children(data))) by {
                match data {
                    HeapObjectData::Complex { .. } => {},
                    _ => {},
                }
            }
        }
        self.alloc_object(data)
    }

    /// Allocate a promise.
    pub fn alloc_promise(&mut self, state: PromiseState) -> (r: TaggedValue)
        requires
            old(self).wf(),
            old(self).can_alloc_object(),
            match state { PromiseState::Delayed(v) => old(self).valid_value(v), PromiseState::Forced(v) => old(self).valid_value(v) },
        ensures
            final(self).wf(),
            final(self).object_allocated(old(self), r, HeapObjectData::Promise(state)),
            final(self).arenas_extend(old(self)),
    {
        let data = HeapObjectData::Promise(state);
        proof {
            assert(old(self).all_valid(object_children(data))) by {
                match data {
                    HeapObjectData::Complex { .. } => {},
                    _ => {},
                }
            }
        }
        self.alloc_object(data)
    }

    /// Allocate a multiple-values object.
    pub fn alloc_values(&mut self, values: Vec<TaggedValue>) -> (r: TaggedValue)
        requires
            old(self).wf(),
            old(self).can_alloc_object(),
            old(self).all_valid(values@),
        ensures
            final(self).wf(),
            final(self).object_allocated(old(self), r, HeapObjectData::Values(values)),
            final(self).arenas_extend(old(self)),
    {
        let data = HeapObjectData::Values(values);
        proof {
            assert(old(self).all_valid(object_children(data))) by {
                match data {
                    HeapObjectData::Complex { .. } => {},
                    _ => {},
                }
            }
        }
        self.alloc_object(data)
    }

    /// Allocate a reader label placeholder (`#n=`).
    pub fn alloc_label_placeholder(&mut self, label: usize) -> (r: TaggedValue)
        requires
            old(self).wf(),
            old(self).can_alloc_object(),
        ensures
            final(self).wf(),
            final(self).object_allocated(old(self), r, HeapObjectData::LabelPlaceholder(label)),
            final(self).arenas_extend(old(self)),
    {
        let data = HeapObjectData::LabelPlaceholder(label);
        proof {
            assert(old(self).all_valid(object_children(data))) by {
                match data {
                    HeapObjectData::Complex { .. } => {},
                    _ => {},
                }
            }
        }
        self.alloc_object(data)
    }

    /// Allocate a prompt tag.
    pub fn alloc_prompt_tag(&mut self, tag: PromptTag) -> (r: TaggedValue)
        requires
            old(self).wf(),
            old(self).can_alloc_object(),
        ensures
            final(self).wf(),
            final(self).object_allocated(old(self), r, HeapObjectData::PromptTag(tag)),
            final(self).arenas_extend(old(self)),
    {
        let data = HeapObjectData::PromptTag(tag);
        proof {
            assert(old(self).all_valid(object_children(data))) by {
                match data {
                    HeapObjectData::Complex { .. } => {},
                    _ => {},
                }
            }
        }
        self.alloc_object(data)
    }

    /// Allocate a box for a variable assigned after a closure captured it.
    pub fn alloc_mutable_cell(&mut self, value: TaggedValue) -> (r: TaggedValue)
        requires
            old(self).wf(),
            old(self).can_alloc_object(),
            old(self).valid_value(value),
        ensures
            final(self).wf(),
            final(self).object_allocated(old(self), r, HeapObjectData::MutableCell(value)),
            final(self).arenas_extend(old(self)),
    {
        let data = HeapObjectData::MutableCell(value);
        proof {
            assert(old(self).all_valid(object_children(data))) by {
                match data {
                    HeapObjectData::Complex { .. } => {},
                    _ => {},
                }
            }
        }
        self.alloc_object(data)
    }

    /// Allocate a bytecode closure: its code and captured free variables.
    pub fn alloc_vm_closure(&mut self, code_id: u32, free_vars: Vec<TaggedValue>) -> (r: TaggedValue)
        requires
            old(self).wf(),
            old(self).can_alloc_object(),
            old(self).all_valid(free_vars@),
        ensures
            final(self).wf(),
            final(self).object_allocated(old(self), r, HeapObjectData::VmClosure { code_id, free_vars }),
            final(self).arenas_extend(old(self)),
    {
        let data = HeapObjectData::VmClosure { code_id, free_vars };
        proof {
            assert(old(self).all_valid(object_children(data))) by {
                match data {
                    HeapObjectData::Complex { .. } => {},
                    _ => {},
                }
            }
        }
        self.alloc_object(data)
    }
}

} // verus!
