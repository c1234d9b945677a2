//! The heap: typed arenas for every value that does not fit in a
//! `TaggedValue`, with free lists that the collector refills.
//!
//! Four arenas hold pairs, vectors, strings and all other objects. A slot
//! freed by the collector goes on its arena's free list and is reused by the
//! next allocation of that kind.
use vstd::prelude::*;
use crate::tagged_value::{HeapIndex, TaggedValue};
use crate::scope::ScopeSet;
use crate::cps_expr::PromptTag;
use crate::error::ExceptionKind;
use num_bigint::BigInt;
use num_rational::BigRational;

pub mod numeric;
pub mod gc;
pub mod objects;
pub mod arenas;
pub mod lists;
pub mod access;
pub mod equality;
pub mod hash;

verus! {

/// Largest number of slots an arena may hold, so that every index fits a
/// `HeapIndex`.
pub open spec fn arena_limit() -> nat {
    u32::MAX as nat
}

/// Type tag of an object-arena slot.
#[derive(Debug, Clone, Copy, PartialEq, Eq, Structural)]
pub enum HeapObjectType {
    BigInt,
    Rational,
    Real,
    Complex,
    Symbol,
    Bytevector,
    Record,
    RecordType,
    PromptTag,
    Promise,
    Parameter,
    Exception,
    Identifier,
    Values,
    LabelPlaceholder,
    VmClosure,
    MutableCell,
    VmContinuationRef,
    VmDelimitedContinuationRef,
    Free,
}

/// State of a promise.
#[derive(Debug, Clone, Copy, PartialEq, Eq, Structural)]
pub enum PromiseState {
    /// Not yet forced: the thunk to run.
    Delayed(TaggedValue),
    /// Forced: the cached result.
    Forced(TaggedValue),
}

/// A record type: its identity, name and field names.
#[derive(Debug, Clone)]
pub struct RecordTypeDescriptor {
    pub id: u64,
    pub name: String,
    pub fields: Vec<String>,
}

/// The contents of an object-arena slot.
#[derive(Debug)]
pub enum HeapObjectData {
    /// An exact integer outside the fixnum range.
    BigInt(BigInt),
    /// An exact non-integer rational.
    Rational(BigRational),
    /// An inexact real, held as the bits of its IEEE 754 double.
    Real(u64),
    Complex { real: TaggedValue, imag: TaggedValue },
    Symbol(String),
    Bytevector(Vec<u8>),
    Exception { kind: ExceptionKind, message: String, irritants: Vec<TaggedValue> },
    RecordType(RecordTypeDescriptor),
    Record { record_type: RecordTypeDescriptor, fields: Vec<TaggedValue> },
    Identifier { name: String, scopes: ScopeSet },
    Parameter { values: Vec<TaggedValue>, converter: Option<TaggedValue> },
    Promise(PromiseState),
    Values(Vec<TaggedValue>),
    PromptTag(PromptTag),
    LabelPlaceholder(usize),
    /// A box for a variable assigned after a closure captured it.
    MutableCell(TaggedValue),
    /// A bytecode closure: code id and captured free variables.
    VmClosure { code_id: u32, free_vars: Vec<TaggedValue> },
    VmContinuationRef(u64),
    VmDelimitedContinuationRef(u64),
    /// Tombstone left by the collector; the slot is on the free list.
    Free,
}

/// The values an object holds, in the order the collector visits them.
pub open spec fn object_children(d: HeapObjectData) -> Seq<TaggedValue> {
    match d {
        HeapObjectData::Complex { real: re, imag: im } => seq![re, im],
        HeapObjectData::Exception { irritants, .. } => irritants@,
        HeapObjectData::Record { fields, .. } => fields@,
        HeapObjectData::Parameter { values, converter } => match converter {
            Some(c) => values@.push(c),
            None => values@,
        },
        HeapObjectData::Promise(state) => match state {
            PromiseState::Delayed(tv) => seq![tv],
            PromiseState::Forced(tv) => seq![tv],
        },
        HeapObjectData::Values(values) => values@,
        HeapObjectData::MutableCell(tv) => seq![tv],
        HeapObjectData::VmClosure { free_vars, .. } => free_vars@,
        _ => Seq::empty(),
    }
}

/// The name of a symbol object.
pub open spec fn symbol_name_of(d: HeapObjectData) -> Seq<char> {
    match d {
        HeapObjectData::Symbol(name) => name@,
        _ => Seq::empty(),
    }
}

/// The type tag of an object's contents.
pub open spec fn spec_object_type(d: &HeapObjectData) -> HeapObjectType {
    match *d {
        HeapObjectData::BigInt(_) => HeapObjectType::BigInt,
        HeapObjectData::Rational(_) => HeapObjectType::Rational,
        HeapObjectData::Real(_) => HeapObjectType::Real,
        HeapObjectData::Complex { .. } => HeapObjectType::Complex,
        HeapObjectData::Symbol(_) => HeapObjectType::Symbol,
        HeapObjectData::Bytevector(_) => HeapObjectType::Bytevector,
        HeapObjectData::Exception { .. } => HeapObjectType::Exception,
        HeapObjectData::RecordType(_) => HeapObjectType::RecordType,
        HeapObjectData::Record { .. } => HeapObjectType::Record,
        HeapObjectData::Identifier { .. } => HeapObjectType::Identifier,
        HeapObjectData::Parameter { .. } => HeapObjectType::Parameter,
        HeapObjectData::Promise(_) => HeapObjectType::Promise,
        HeapObjectData::Values(_) => HeapObjectType::Values,
        HeapObjectData::PromptTag(_) => HeapObjectType::PromptTag,
        HeapObjectData::LabelPlaceholder(_) => HeapObjectType::LabelPlaceholder,
        HeapObjectData::MutableCell(_) => HeapObjectType::MutableCell,
        HeapObjectData::VmClosure { .. } => HeapObjectType::VmClosure,
        HeapObjectData::VmContinuationRef(_) => HeapObjectType::VmContinuationRef,
        HeapObjectData::VmDelimitedContinuationRef(_) => HeapObjectType::VmDelimitedContinuationRef,
        HeapObjectData::Free => HeapObjectType::Free,
    }
}

impl HeapObjectData {
    /// The type tag of this object.
    pub fn object_type(&self) -> (r: HeapObjectType)
        ensures
            r == spec_object_type(self),
    {
        match self {
            HeapObjectData::BigInt(_) => HeapObjectType::BigInt,
            HeapObjectData::Rational(_) => HeapObjectType::Rational,
            HeapObjectData::Real(_) => HeapObjectType::Real,
            HeapObjectData::Complex { .. } => HeapObjectType::Complex,
            HeapObjectData::Symbol(_) => HeapObjectType::Symbol,
            HeapObjectData::Bytevector(_) => HeapObjectType::Bytevector,
            HeapObjectData::Exception { .. } => HeapObjectType::Exception,
            HeapObjectData::RecordType(_) => HeapObjectType::RecordType,
            HeapObjectData::Record { .. } => HeapObjectType::Record,
            HeapObjectData::Identifier { .. } => HeapObjectType::Identifier,
            HeapObjectData::Parameter { .. } => HeapObjectType::Parameter,
            HeapObjectData::Promise(_) => HeapObjectType::Promise,
            HeapObjectData::Values(_) => HeapObjectType::Values,
            HeapObjectData::PromptTag(_) => HeapObjectType::PromptTag,
            HeapObjectData::LabelPlaceholder(_) => HeapObjectType::LabelPlaceholder,
            HeapObjectData::MutableCell(_) => HeapObjectType::MutableCell,
            HeapObjectData::VmClosure { .. } => HeapObjectType::VmClosure,
            HeapObjectData::VmContinuationRef(_) => HeapObjectType::VmContinuationRef,
            HeapObjectData::VmDelimitedContinuationRef(_) => {
                HeapObjectType::VmDelimitedContinuationRef
            },
            HeapObjectData::Free => HeapObjectType::Free,
        }
    }
}

/// What the heap asks of an object beyond the values it refers to: a
/// rational has a positive denominator, as every ratio `Ratio::new` makes
/// has (the comparisons and arithmetic of `Ratio` divide by it).
pub open spec fn object_sound(d: HeapObjectData) -> bool {
    match d {
        HeapObjectData::Rational(q) => crate::heap::numeric::ratio_denom(q) > 0,
        _ => true,
    }
}

/// What draining the record of reclaimed slots gives: the raw bits of the
/// slots reclaimed since the last drain, or `Overflowed` when the exact set
/// was lost to the record's cap, so that a consumer must treat its whole
/// raw-bits-keyed map as stale.
#[derive(Debug)]
pub enum GcFreedBits {
    Exact(Vec<u64>),
    Overflowed,
}

/// The heap arenas.
#[derive(Debug)]
pub struct Heap {
    pub(crate) pairs: Vec<(TaggedValue, TaggedValue)>,
    pub(crate) vectors: Vec<Vec<TaggedValue>>,
    pub(crate) strings: Vec<Vec<char>>,
    pub(crate) objects: Vec<HeapObjectData>,
    /// Object indices of the interned symbols.
    pub(crate) symbol_table: Vec<HeapIndex>,
    pub(crate) free_pairs: Vec<HeapIndex>,
    pub(crate) free_vectors: Vec<HeapIndex>,
    pub(crate) free_strings: Vec<HeapIndex>,
    pub(crate) free_objects: Vec<HeapIndex>,
    /// Allocations since the last collection.
    pub(crate) allocs_since_gc: usize,
    /// Allocation count at which the collection-pending flag goes up.
    pub(crate) gc_threshold: usize,
    /// Whether a collection is pending.
    pub(crate) gc_pending: bool,
    /// Collections performed against this heap.
    pub(crate) gc_collections: u64,
    /// Slots reclaimed by the last collection.
    pub(crate) gc_last_swept: usize,
    /// Nesting depth of scopes during which collection is deferred.
    pub(crate) gc_defer_depth: u32,
    /// Next id for a VM continuation handle.
    pub(crate) next_vm_continuation_id: u64,
    /// Raw bits of reclaimed slots, recorded for a consumer that prunes
    /// maps keyed by raw bits; `None` while nobody consumes them.
    pub(crate) gc_freed_bits: Option<Vec<u64>>,
    /// Set in place of growing the record past its cap.
    pub(crate) gc_freed_overflow: bool,
}

/// Heap statistics.
#[derive(Debug, Clone, Copy, PartialEq, Eq, Structural)]
pub struct HeapStats {
    pub pairs: usize,
    pub vectors: usize,
    pub strings: usize,
    pub objects: usize,
    pub symbols: usize,
    pub free_pairs: usize,
    pub free_vectors: usize,
    pub free_strings: usize,
    pub free_objects: usize,
    pub allocs_since_gc: usize,
    pub gc_collections: u64,
    pub gc_last_swept: usize,
}

impl Heap {
    /// The pair arena.
    pub closed spec fn pair_slots(&self) -> Seq<(TaggedValue, TaggedValue)> {
        self.pairs@
    }

    /// The vector arena, each slot by its elements.
    pub closed spec fn vector_slots(&self) -> Seq<Seq<TaggedValue>> {
        self.vectors@.map_values(|v: Vec<TaggedValue>| v@)
    }

    /// The string arena, each slot by its characters.
    pub closed spec fn string_slots(&self) -> Seq<Seq<char>> {
        self.strings@.map_values(|v: Vec<char>| v@)
    }

    /// The object arena.
    pub closed spec fn object_slots(&self) -> Seq<HeapObjectData> {
        self.objects@
    }

    /// Free list of the pair arena.
    pub closed spec fn free_pair_list(&self) -> Seq<HeapIndex> {
        self.free_pairs@
    }

    /// Free list of the vector arena.
    pub closed spec fn free_vector_list(&self) -> Seq<HeapIndex> {
        self.free_vectors@
    }

    /// Free list of the string arena.
    pub closed spec fn free_string_list(&self) -> Seq<HeapIndex> {
        self.free_strings@
    }

    /// Free list of the object arena.
    pub closed spec fn free_object_list(&self) -> Seq<HeapIndex> {
        self.free_objects@
    }

    /// Object indices of the interned symbols.
    pub closed spec fn symbol_indices(&self) -> Seq<HeapIndex> {
        self.symbol_table@
    }

    /// Allocations since the last collection.
    pub closed spec fn spec_allocs_since_gc(&self) -> usize {
        self.allocs_since_gc
    }

    /// Whether a collection is pending.
    pub closed spec fn spec_gc_pending(&self) -> bool {
        self.gc_pending
    }

    /// The installed collection threshold.
    pub closed spec fn spec_gc_threshold(&self) -> usize {
        self.gc_threshold
    }

    /// Collections performed.
    pub closed spec fn spec_gc_collections(&self) -> u64 {
        self.gc_collections
    }

    /// Slots reclaimed by the last collection.
    pub closed spec fn spec_gc_last_swept(&self) -> usize {
        self.gc_last_swept
    }

    /// Depth of collection-deferring scopes.
    pub closed spec fn spec_gc_defer_depth(&self) -> u32 {
        self.gc_defer_depth
    }

    /// The record of reclaimed slots' raw bits, `None` while not tracked.
    pub closed spec fn spec_freed_record(&self) -> Option<Seq<u64>> {
        match self.gc_freed_bits {
            Some(v) => Some(v@),
            None => None,
        }
    }

    /// Whether the record of reclaimed slots overflowed its cap.
    pub closed spec fn spec_freed_overflow(&self) -> bool {
        self.gc_freed_overflow
    }

    /// Whether `tv` refers to an existing slot (or is immediate).
    pub open spec fn valid_value(&self, tv: TaggedValue) -> bool {
        match tv {
            TaggedValue::Pair(i) => i < self.pair_slots().len(),
            TaggedValue::Vector(i) => i < self.vector_slots().len(),
            TaggedValue::Str(i) => i < self.string_slots().len(),
            TaggedValue::Object(i) => i < self.object_slots().len(),
            _ => true,
        }
    }

    /// Whether every value of `s` is valid here.
    pub open spec fn all_valid(&self, s: Seq<TaggedValue>) -> bool {
        forall|k: int| 0 <= k < s.len() ==> self.valid_value(#[trigger] s[k])
    }

    /// Whether a free list is sound for an arena of length `len`: in range,
    /// and no slot listed twice.
    pub open spec fn free_list_ok(free: Seq<HeapIndex>, len: nat) -> bool {
        &&& forall|k: int| 0 <= k < free.len() ==> (#[trigger] free[k]) < len
        &&& free.no_duplicates()
    }

    /// The heap's well-formedness: arenas within index range, every stored
    /// value pointing into the heap, sound free lists, and a symbol table
    /// naming symbol objects only.
    pub open spec fn wf(&self) -> bool {
        &&& self.pair_slots().len() <= arena_limit()
        &&& self.vector_slots().len() <= arena_limit()
        &&& self.string_slots().len() <= arena_limit()
        &&& self.object_slots().len() <= arena_limit()
        &&& forall|i: int|
            0 <= i < self.pair_slots().len() ==> {
                &&& self.valid_value((#[trigger] self.pair_slots()[i]).0)
                &&& self.valid_value(self.pair_slots()[i].1)
            }
        &&& forall|i: int|
            0 <= i < self.vector_slots().len() ==> self.all_valid(#[trigger] self.vector_slots()[i])
        &&& forall|i: int|
            0 <= i < self.object_slots().len() ==> self.all_valid(
                object_children(#[trigger] self.object_slots()[i]),
            )
        &&& forall|i: int|
            0 <= i < self.object_slots().len() ==> object_sound(#[trigger] self.object_slots()[i])
        &&& Self::free_list_ok(self.free_pair_list(), self.pair_slots().len())
        &&& Self::free_list_ok(self.free_vector_list(), self.vector_slots().len())
        &&& Self::free_list_ok(self.free_string_list(), self.string_slots().len())
        &&& Self::free_list_ok(self.free_object_list(), self.object_slots().len())
        &&& forall|k: int|
            0 <= k < self.symbol_indices().len() ==> {
                &&& (#[trigger] self.symbol_indices()[k]) < self.object_slots().len()
                &&& self.object_slots()[self.symbol_indices()[k] as int] is Symbol
            }
        &&& forall|k: int|
            0 <= k < self.free_object_list().len() ==> self.object_slots()[(
            #[trigger] self.free_object_list()[k]) as int] is Free
        &&& forall|k1: int, k2: int|
            0 <= k1 < k2 < self.symbol_indices().len() ==> symbol_name_of(
                self.object_slots()[(#[trigger] self.symbol_indices()[k1]) as int],
            ) != symbol_name_of(self.object_slots()[(#[trigger] self.symbol_indices()[k2]) as int])
    }

    /// Number of slots in all four arenas together.
    pub open spec fn slot_total(&self) -> nat {
        self.pair_slots().len() + self.vector_slots().len() + self.string_slots().len()
            + self.object_slots().len()
    }

    /// The arenas of `self` extend those of `old`: no arena shrank.
    pub open spec fn arenas_extend(&self, old: &Heap) -> bool {
        &&& old.pair_slots().len() <= self.pair_slots().len()
        &&& old.vector_slots().len() <= self.vector_slots().len()
        &&& old.string_slots().len() <= self.string_slots().len()
        &&& old.object_slots().len() <= self.object_slots().len()
    }

    /// An empty heap.
    pub fn new() -> (r: Heap)
        ensures
            r.wf(),
            r.pair_slots().len() == 0,
            r.vector_slots().len() == 0,
            r.string_slots().len() == 0,
            r.object_slots().len() == 0,
            r.symbol_indices().len() == 0,
            r.free_pair_list().len() == 0,
            r.free_vector_list().len() == 0,
            r.free_string_list().len() == 0,
            r.free_object_list().len() == 0,
            r.spec_allocs_since_gc() == 0,
            !r.spec_gc_pending(),
            r.spec_gc_threshold() == usize::MAX,
            r.spec_gc_collections() == 0,
            r.spec_gc_last_swept() == 0,
            r.spec_gc_defer_depth() == 0,
            r.spec_next_continuation_id() == 0,
    {
        Self::with_capacity(0, 0, 0)
    }

    /// An empty heap with room reserved in the pair, vector and string
    /// arenas.
    pub fn with_capacity(pairs: usize, vectors: usize, strings: usize) -> (r: Heap)
        ensures
            r.wf(),
            r.pair_slots().len() == 0,
            r.vector_slots().len() == 0,
            r.string_slots().len() == 0,
            r.object_slots().len() == 0,
            r.symbol_indices().len() == 0,
            r.free_pair_list().len() == 0,
            r.free_vector_list().len() == 0,
            r.free_string_list().len() == 0,
            r.free_object_list().len() == 0,
            r.spec_allocs_since_gc() == 0,
            !r.spec_gc_pending(),
            r.spec_gc_threshold() == usize::MAX,
            r.spec_gc_collections() == 0,
            r.spec_gc_last_swept() == 0,
            r.spec_gc_defer_depth() == 0,
            r.spec_next_continuation_id() == 0,
            r.spec_freed_record() is None,
            !r.spec_freed_overflow(),
    {
        let h = Heap {
            pairs: Vec::with_capacity(pairs),
            vectors: Vec::with_capacity(vectors),
            strings: Vec::with_capacity(strings),
            objects: Vec::new(),
            symbol_table: Vec::new(),
            free_pairs: Vec::new(),
            free_vectors: Vec::new(),
            free_strings: Vec::new(),
            free_objects: Vec::new(),
            allocs_since_gc: 0,
            gc_threshold: usize::MAX,
            gc_pending: false,
            gc_collections: 0,
            gc_last_swept: 0,
            gc_defer_depth: 0,
            next_vm_continuation_id: 0,
            gc_freed_bits: None,
            gc_freed_overflow: false,
        };
        proof {
            assert(h.vector_slots() =~= Seq::<Seq<TaggedValue>>::empty());
            assert(h.string_slots() =~= Seq::<Seq<char>>::empty());
            h.lemma_next_continuation_id();
        }
        h
    }

    // ---------------------------------------------------------------------
    // Collection bookkeeping
    // ---------------------------------------------------------------------

    /// Allocations since the last collection.
    pub fn allocs_since_gc(&self) -> (r: usize)
        ensures
            r == self.spec_allocs_since_gc(),
    {
        self.allocs_since_gc
    }

    /// Count one allocation and raise the pending flag when the threshold
    /// is reached. The counter saturates at `usize::MAX`.
    fn note_alloc(&mut self)
        ensures
            final(self).allocs_since_gc == (if old(self).allocs_since_gc == usize::MAX {
                usize::MAX
            } else {
                (old(self).allocs_since_gc + 1) as usize
            }),
            final(self).gc_pending == (old(self).gc_pending || final(self).allocs_since_gc
                >= old(self).gc_threshold),
            final(self).pairs == old(self).pairs,
            final(self).vectors == old(self).vectors,
            final(self).strings == old(self).strings,
            final(self).objects == old(self).objects,
            final(self).symbol_table == old(self).symbol_table,
            final(self).free_pairs == old(self).free_pairs,
            final(self).free_vectors == old(self).free_vectors,
            final(self).free_strings == old(self).free_strings,
            final(self).free_objects == old(self).free_objects,
            final(self).gc_threshold == old(self).gc_threshold,
            final(self).gc_collections == old(self).gc_collections,
            final(self).gc_last_swept == old(self).gc_last_swept,
            final(self).gc_defer_depth == old(self).gc_defer_depth,
            final(self).next_vm_continuation_id == old(self).next_vm_continuation_id,
    {
        self.allocs_since_gc = self.allocs_since_gc.saturating_add(1);
        if self.allocs_since_gc >= self.gc_threshold {
            self.gc_pending = true;
        }
    }

    /// Whether a collection is pending.
    pub fn gc_pending(&self) -> (r: bool)
        ensures
            r == self.spec_gc_pending(),
    {
        self.gc_pending
    }

    /// Install the allocation threshold at which the pending flag goes up,
    /// raising it at once if the counter has already reached it.
    pub fn set_gc_threshold(&mut self, threshold: usize)
        ensures
            final(self).spec_gc_threshold() == threshold,
            final(self).spec_gc_pending() == (old(self).spec_gc_pending()
                || old(self).spec_allocs_since_gc() >= threshold),
            final(self).spec_allocs_since_gc() == old(self).spec_allocs_since_gc(),
            final(self).same_contents(old(self)),
    {
        self.gc_threshold = threshold;
        if self.allocs_since_gc >= self.gc_threshold {
            self.gc_pending = true;
        }
    }

    /// Ask for a collection at the next safe point.
    pub fn request_gc(&mut self)
        ensures
            final(self).spec_gc_pending(),
            final(self).spec_allocs_since_gc() == old(self).spec_allocs_since_gc(),
            final(self).spec_gc_threshold() == old(self).spec_gc_threshold(),
            final(self).same_contents(old(self)),
    {
        self.gc_pending = true;
    }

    /// Start recording the raw bits of reclaimed slots; a record already
    /// started is kept as it is.
    pub fn enable_gc_freed_tracking(&mut self)
        ensures
            final(self).spec_freed_record() == (match old(self).spec_freed_record() {
                Some(r) => Some(r),
                None => Some(Seq::<u64>::empty()),
            }),
            final(self).spec_freed_overflow() == old(self).spec_freed_overflow(),
            final(self).spec_gc_pending() == old(self).spec_gc_pending(),
            final(self).spec_allocs_since_gc() == old(self).spec_allocs_since_gc(),
            final(self).spec_gc_threshold() == old(self).spec_gc_threshold(),
            final(self).same_contents(old(self)),
    {
        if self.gc_freed_bits.is_none() {
            let fresh: Vec<u64> = Vec::new();
            proof {
                assert(fresh@ =~= Seq::<u64>::empty());
            }
            self.gc_freed_bits = Some(fresh);
        }
    }

    /// Drain the record of reclaimed slots. After an overflow the answer is
    /// `Overflowed` and the record is emptied; otherwise it is the recorded
    /// bits (none while untracked). Tracking stays on or off as it was.
    pub fn take_gc_freed_bits(&mut self) -> (r: GcFreedBits)
        ensures
            old(self).spec_freed_overflow() ==> r is Overflowed,
            !old(self).spec_freed_overflow() ==> (r matches GcFreedBits::Exact(v) && v@ == (
            match old(self).spec_freed_record() {
                Some(bits) => bits,
                None => Seq::<u64>::empty(),
            })),
            !final(self).spec_freed_overflow(),
            final(self).spec_freed_record() == (match old(self).spec_freed_record() {
                Some(_) => Some(Seq::<u64>::empty()),
                None => None,
            }),
            final(self).spec_gc_pending() == old(self).spec_gc_pending(),
            final(self).spec_allocs_since_gc() == old(self).spec_allocs_since_gc(),
            final(self).spec_gc_threshold() == old(self).spec_gc_threshold(),
            final(self).same_contents(old(self)),
    {
        let tracked_before = self.gc_freed_bits.is_some();
        let taken = self.gc_freed_bits.take();
        if tracked_before {
            let fresh: Vec<u64> = Vec::new();
            proof {
                assert(fresh@ =~= Seq::<u64>::empty());
            }
            self.gc_freed_bits = Some(fresh);
        }
        if self.gc_freed_overflow {
            self.gc_freed_overflow = false;
            GcFreedBits::Overflowed
        } else {
            match taken {
                Some(bits) => GcFreedBits::Exact(bits),
                None => {
                    let none: Vec<u64> = Vec::new();
                    proof {
                        assert(none@ =~= Seq::<u64>::empty());
                    }
                    GcFreedBits::Exact(none)
                },
            }
        }
    }

    /// Take the pending flag: answer whether it was up, and lower it.
    pub fn take_gc_request(&mut self) -> (r: bool)
        ensures
            r == old(self).spec_gc_pending(),
            !final(self).spec_gc_pending(),
            final(self).spec_allocs_since_gc() == old(self).spec_allocs_since_gc(),
            final(self).spec_gc_threshold() == old(self).spec_gc_threshold(),
            final(self).same_contents(old(self)),
    {
        let r = self.gc_pending;
        self.gc_pending = false;
        r
    }

    /// Whether a collection has been requested.
    pub fn gc_requested(&self) -> (r: bool)
        ensures
            r == self.spec_gc_pending(),
    {
        self.gc_pending
    }

    /// Depth of active collection-deferring scopes.
    pub fn gc_defer_depth(&self) -> (r: u32)
        ensures
            r == self.spec_gc_defer_depth(),
    {
        self.gc_defer_depth
    }

    /// Enter a scope during which collection is deferred.
    pub fn enter_gc_defer(&mut self)
        requires
            old(self).spec_gc_defer_depth() < u32::MAX,
        ensures
            final(self).spec_gc_defer_depth() == old(self).spec_gc_defer_depth() + 1,
            final(self).same_contents(old(self)),
    {
        self.gc_defer_depth = self.gc_defer_depth + 1;
    }

    /// Leave a scope entered with `enter_gc_defer`.
    pub fn exit_gc_defer(&mut self)
        requires
            old(self).spec_gc_defer_depth() > 0,
        ensures
            final(self).spec_gc_defer_depth() == old(self).spec_gc_defer_depth() - 1,
            final(self).same_contents(old(self)),
    {
        self.gc_defer_depth = self.gc_defer_depth - 1;
    }

    /// Collections performed against this heap.
    pub fn gc_collections(&self) -> (r: u64)
        ensures
            r == self.spec_gc_collections(),
    {
        self.gc_collections
    }

    /// Slots reclaimed by the most recent collection.
    pub fn gc_last_swept(&self) -> (r: usize)
        ensures
            r == self.spec_gc_last_swept(),
    {
        self.gc_last_swept
    }

    /// The arenas, free lists and symbol table of `self` and `other` agree.
    pub open spec fn same_contents(&self, other: &Heap) -> bool {
        &&& self.pair_slots() == other.pair_slots()
        &&& self.vector_slots() == other.vector_slots()
        &&& self.string_slots() == other.string_slots()
        &&& self.object_slots() == other.object_slots()
        &&& self.free_pair_list() == other.free_pair_list()
        &&& self.free_vector_list() == other.free_vector_list()
        &&& self.free_string_list() == other.free_string_list()
        &&& self.free_object_list() == other.free_object_list()
        &&& self.symbol_indices() == other.symbol_indices()
    }

    // ---------------------------------------------------------------------
    // Pairs
    // ---------------------------------------------------------------------

    /// Whether a pair can be allocated without exceeding the index range.
    pub open spec fn can_alloc_pair(&self) -> bool {
        self.free_pair_list().len() > 0 || self.pair_slots().len() < arena_limit()
    }

    /// Allocate a pair `(car . cdr)`, reusing the most recently freed pair
    /// slot when there is one.
    pub fn alloc_pair(&mut self, car: TaggedValue, cdr: TaggedValue) -> (r: TaggedValue)
        requires
            old(self).wf(),
            old(self).valid_value(car),
            old(self).valid_value(cdr),
            old(self).can_alloc_pair(),
        ensures
            final(self).wf(),
            r is Pair,
            final(self).pair_slots()[r.spec_heap_index() as int] == (car, cdr),
            old(self).free_pair_list().len() > 0 ==> {
                &&& r.spec_heap_index() == old(self).free_pair_list().last()
                &&& final(self).free_pair_list() == old(self).free_pair_list().drop_last()
                &&& final(self).pair_slots() == old(self).pair_slots().update(
                    r.spec_heap_index() as int,
                    (car, cdr),
                )
            },
            old(self).free_pair_list().len() == 0 ==> {
                &&& r.spec_heap_index() == old(self).pair_slots().len()
                &&& final(self).free_pair_list() == old(self).free_pair_list()
                &&& final(self).pair_slots() == old(self).pair_slots().push((car, cdr))
            },
            final(self).vector_slots() == old(self).vector_slots(),
            final(self).string_slots() == old(self).string_slots(),
            final(self).object_slots() == old(self).object_slots(),
            final(self).free_vector_list() == old(self).free_vector_list(),
            final(self).free_string_list() == old(self).free_string_list(),
            final(self).free_object_list() == old(self).free_object_list(),
            final(self).symbol_indices() == old(self).symbol_indices(),
            final(self).arenas_extend(old(self)),
    {
        self.note_alloc();
        let index: HeapIndex;
        if self.free_pairs.len() > 0 {
            let free = self.free_pairs.pop().unwrap();
            proof {
                assert(old(self).free_pairs@.drop_last().no_duplicates());
            }
            self.pairs.set(free as usize, (car, cdr));
            index = free;
        } else {
            index = self.pairs.len() as HeapIndex;
            self.pairs.push((car, cdr));
        }
        proof {
            self.lemma_valid_grows(old(self));
            assert(self.vector_slots() == old(self).vector_slots());
            assert(self.string_slots() == old(self).string_slots());
        }
        TaggedValue::pair(index)
    }

    /// Values valid in `old` remain valid once the arenas have grown.
    pub proof fn lemma_valid_grows(&self, old: &Heap)
        requires
            self.arenas_extend(old),
        ensures
            forall|tv: TaggedValue| old.valid_value(tv) ==> self.valid_value(tv),
    {
    }

    /// The car and cdr of a pair.
    pub fn get_pair(&self, ptr: TaggedValue) -> (r: (TaggedValue, TaggedValue))
        requires
            ptr is Pair,
            self.valid_value(ptr),
        ensures
            r == self.pair_slots()[ptr.spec_heap_index() as int],
    {
        self.pairs[ptr.heap_index() as usize]
    }

    /// The car of a pair.
    pub fn car(&self, ptr: TaggedValue) -> (r: TaggedValue)
        requires
            ptr is Pair,
            self.valid_value(ptr),
        ensures
            r == self.pair_slots()[ptr.spec_heap_index() as int].0,
    {
        self.get_pair(ptr).0
    }

    /// The cdr of a pair.
    pub fn cdr(&self, ptr: TaggedValue) -> (r: TaggedValue)
        requires
            ptr is Pair,
            self.valid_value(ptr),
        ensures
            r == self.pair_slots()[ptr.spec_heap_index() as int].1,
    {
        self.get_pair(ptr).1
    }

    /// Replace the car of a pair.
    pub fn set_car(&mut self, ptr: TaggedValue, value: TaggedValue)
        requires
            old(self).wf(),
            ptr is Pair,
            old(self).valid_value(ptr),
            old(self).valid_value(value),
        ensures
            final(self).wf(),
            final(self).pair_slots() == old(self).pair_slots().update(
                ptr.spec_heap_index() as int,
                (value, old(self).pair_slots()[ptr.spec_heap_index() as int].1),
            ),
            final(self).same_contents_except_pairs(old(self)),
    {
        let i = ptr.heap_index() as usize;
        let cdr = self.pairs[i].1;
        self.pairs.set(i, (value, cdr));
        proof {
            assert(self.vector_slots() == old(self).vector_slots());
            assert(self.string_slots() == old(self).string_slots());
        }
    }

    /// Replace the cdr of a pair.
    pub fn set_cdr(&mut self, ptr: TaggedValue, value: TaggedValue)
        requires
            old(self).wf(),
            ptr is Pair,
            old(self).valid_value(ptr),
            old(self).valid_value(value),
        ensures
            final(self).wf(),
            final(self).pair_slots() == old(self).pair_slots().update(
                ptr.spec_heap_index() as int,
                (old(self).pair_slots()[ptr.spec_heap_index() as int].0, value),
            ),
            final(self).same_contents_except_pairs(old(self)),
    {
        let i = ptr.heap_index() as usize;
        let car = self.pairs[i].0;
        self.pairs.set(i, (car, value));
        proof {
            assert(self.vector_slots() == old(self).vector_slots());
            assert(self.string_slots() == old(self).string_slots());
        }
    }

    /// Everything but the pair arena agrees.
    pub open spec fn same_contents_except_pairs(&self, other: &Heap) -> bool {
        &&& self.vector_slots() == other.vector_slots()
        &&& self.string_slots() == other.string_slots()
        &&& self.object_slots() == other.object_slots()
        &&& self.free_pair_list() == other.free_pair_list()
        &&& self.free_vector_list() == other.free_vector_list()
        &&& self.free_string_list() == other.free_string_list()
        &&& self.free_object_list() == other.free_object_list()
        &&& self.symbol_indices() == other.symbol_indices()
        &&& self.pair_slots().len() == other.pair_slots().len()
    }
}

} // verus!
