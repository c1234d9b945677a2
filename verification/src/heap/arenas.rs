//! The vector and string arenas, the symbol table, type tests on objects,
//! and the heap's statistics.
use vstd::prelude::*;
use crate::heap::{
    Heap,
    HeapObjectData,
    HeapObjectType,
    HeapStats,
    spec_object_type,
    arena_limit,
    object_children,
    symbol_name_of,
};
use crate::tagged_value::{HeapIndex, TaggedValue};
use crate::text::{chars_of, str_is, string_from_chars};

verus! {

impl Heap {
    /// Everything but the vector arena agrees, and that arena keeps its
    /// length.
    pub open spec fn same_contents_except_vectors(&self, other: &Heap) -> bool {
        &&& self.pair_slots() == other.pair_slots()
        &&& self.string_slots() == other.string_slots()
        &&& self.object_slots() == other.object_slots()
        &&& self.free_pair_list() == other.free_pair_list()
        &&& self.free_vector_list() == other.free_vector_list()
        &&& self.free_string_list() == other.free_string_list()
        &&& self.free_object_list() == other.free_object_list()
        &&& self.symbol_indices() == other.symbol_indices()
        &&& self.vector_slots().len() == other.vector_slots().len()
    }

    /// Everything but the string arena agrees, and that arena keeps its
    /// length.
    pub open spec fn same_contents_except_strings(&self, other: &Heap) -> bool {
        &&& self.pair_slots() == other.pair_slots()
        &&& self.vector_slots() == other.vector_slots()
        &&& self.object_slots() == other.object_slots()
        &&& self.free_pair_list() == other.free_pair_list()
        &&& self.free_vector_list() == other.free_vector_list()
        &&& self.free_string_list() == other.free_string_list()
        &&& self.free_object_list() == other.free_object_list()
        &&& self.symbol_indices() == other.symbol_indices()
        &&& self.string_slots().len() == other.string_slots().len()
    }

    // ---------------------------------------------------------------------
    // Vectors
    // ---------------------------------------------------------------------

    /// Whether a vector can be allocated without exceeding the index range.
    pub open spec fn can_alloc_vector(&self) -> bool {
        self.free_vector_list().len() > 0 || self.vector_slots().len() < arena_limit()
    }

    /// `self` is `old` after allocating a vector of `elems` as `r`: the most
    /// recently freed vector slot reused when there is one, else a new
    /// slot; the other arenas, their free lists and the symbol table
    /// untouched.
    pub open spec fn vector_allocated(&self, old: &Heap, r: TaggedValue, elems: Seq<TaggedValue>) -> bool {
        &&& r is Vector
        &&& old.free_vector_list().len() > 0 ==> {
            &&& r.spec_heap_index() == old.free_vector_list().last()
            &&& self.free_vector_list() == old.free_vector_list().drop_last()
            &&& self.vector_slots() == old.vector_slots().update(r.spec_heap_index() as int, elems)
        }
        &&& old.free_vector_list().len() == 0 ==> {
            &&& r.spec_heap_index() == old.vector_slots().len()
            &&& self.free_vector_list() == old.free_vector_list()
            &&& self.vector_slots() == old.vector_slots().push(elems)
        }
        &&& self.pair_slots() == old.pair_slots()
        &&& self.string_slots() == old.string_slots()
        &&& self.object_slots() == old.object_slots()
        &&& self.free_pair_list() == old.free_pair_list()
        &&& self.free_string_list() == old.free_string_list()
        &&& self.free_object_list() == old.free_object_list()
        &&& self.symbol_indices() == old.symbol_indices()
    }

    /// Allocate a vector holding `elements`, reusing the most recently freed
    /// vector slot when there is one.
    pub fn alloc_vector(&mut self, elements: Vec<TaggedValue>) -> (r: TaggedValue)
        requires
            old(self).wf(),
            old(self).all_valid(elements@),
            old(self).can_alloc_vector(),
        ensures
            final(self).wf(),
            final(self).vector_allocated(old(self), r, elements@),
            final(self).vector_slots()[r.spec_heap_index() as int] == elements@,
            final(self).arenas_extend(old(self)),
    {
        let ghost elems = elements@;
        self.note_alloc();
        let index: HeapIndex;
        if self.free_vectors.len() > 0 {
            let free = self.free_vectors.pop().unwrap();
            proof {
                assert(old(self).free_vectors@.drop_last().no_duplicates());
            }
            self.vectors.set(free as usize, elements);
            index = free;
        } else {
            index = self.vectors.len() as HeapIndex;
            self.vectors.push(elements);
        }
        proof {
            let o = old(self);
            if o.free_vector_list().len() > 0 {
                assert(self.vector_slots() =~= o.vector_slots().update(index as int, elems));
            } else {
                assert(self.vector_slots() =~= o.vector_slots().push(elems));
            }
            assert(self.string_slots() == o.string_slots());
            self.lemma_valid_grows(o);
            assert forall|i: int| 0 <= i < self.vector_slots().len() implies self.all_valid(
                #[trigger] self.vector_slots()[i],
            ) by {
                if i != index as int {
                    assert(self.vector_slots()[i] == o.vector_slots()[i]);
                    assert(o.all_valid(o.vector_slots()[i]));
                }
            }
            assert forall|i: int| 0 <= i < self.object_slots().len() implies self.all_valid(
                object_children(#[trigger] self.object_slots()[i]),
            ) by {
                assert(o.all_valid(object_children(o.object_slots()[i])));
            }
        }
        TaggedValue::vector(index)
    }

    /// Allocate a vector of `len` copies of `fill`.
    pub fn alloc_vector_fill(&mut self, len: usize, fill: TaggedValue) -> (r: TaggedValue)
        requires
            old(self).wf(),
            old(self).valid_value(fill),
            old(self).can_alloc_vector(),
        ensures
            final(self).wf(),
            final(self).vector_allocated(old(self), r, Seq::new(len as nat, |_i: int| fill)),
            final(self).arenas_extend(old(self)),
    {
        let mut elements: Vec<TaggedValue> = Vec::new();
        let mut k: usize = 0;
        while k < len
            invariant
                k <= len,
                elements@ == Seq::new(k as nat, |_i: int| fill),
            decreases len - k,
        {
            elements.push(fill);
            assert(elements@ =~= Seq::new((k + 1) as nat, |_i: int| fill));
            k = k + 1;
        }
        self.alloc_vector(elements)
    }

    /// The length of a vector.
    pub fn vector_len(&self, ptr: TaggedValue) -> (r: usize)
        requires
            ptr is Vector,
            self.valid_value(ptr),
        ensures
            r == self.vector_slots()[ptr.spec_heap_index() as int].len(),
    {
        self.vectors[ptr.heap_index() as usize].len()
    }

    /// Element `index` of a vector.
    pub fn vector_ref(&self, ptr: TaggedValue, index: usize) -> (r: TaggedValue)
        requires
            ptr is Vector,
            self.valid_value(ptr),
            index < self.vector_slots()[ptr.spec_heap_index() as int].len(),
        ensures
            r == self.vector_slots()[ptr.spec_heap_index() as int][index as int],
    {
        self.vectors[ptr.heap_index() as usize][index]
    }

    /// The elements of a vector.
    pub fn vector_slice(&self, ptr: TaggedValue) -> (r: &[TaggedValue])
        requires
            ptr is Vector,
            self.valid_value(ptr),
        ensures
            r@ == self.vector_slots()[ptr.spec_heap_index() as int],
    {
        self.vectors[ptr.heap_index() as usize].as_slice()
    }

    /// Replace element `index` of a vector.
    pub fn vector_set(&mut self, ptr: TaggedValue, index: usize, value: TaggedValue)
        requires
            old(self).wf(),
            ptr is Vector,
            old(self).valid_value(ptr),
            old(self).valid_value(value),
            index < old(self).vector_slots()[ptr.spec_heap_index() as int].len(),
        ensures
            final(self).wf(),
            final(self).vector_slots() == old(self).vector_slots().update(
                ptr.spec_heap_index() as int,
                old(self).vector_slots()[ptr.spec_heap_index() as int].update(index as int, value),
            ),
            final(self).same_contents_except_vectors(old(self)),
    {
        let i = ptr.heap_index() as usize;
        let mut v: Vec<TaggedValue> = Vec::new();
        std::mem::swap(&mut v, &mut self.vectors[i]);
        v.set(index, value);
        self.vectors.set(i, v);
        proof {
            let o = old(self);
            let target = o.vector_slots()[i as int].update(index as int, value);
            assert(self.vector_slots() =~= o.vector_slots().update(i as int, target));
            assert(self.string_slots() == o.string_slots());
            assert forall|j: int| 0 <= j < self.vector_slots().len() implies self.all_valid(
                #[trigger] self.vector_slots()[j],
            ) by {
                if j != i as int {
                    assert(self.vector_slots()[j] == o.vector_slots()[j]);
                    assert(o.all_valid(o.vector_slots()[j]));
                } else {
                    assert(o.all_valid(o.vector_slots()[j]));
                }
            }
        }
    }

    // ---------------------------------------------------------------------
    // Strings
    // ---------------------------------------------------------------------

    /// Whether a string can be allocated without exceeding the index range.
    pub open spec fn can_alloc_string(&self) -> bool {
        self.free_string_list().len() > 0 || self.string_slots().len() < arena_limit()
    }

    /// `self` is `old` after allocating a string of `chars` as `r`, in the
    /// way `vector_allocated` describes for vectors.
    pub open spec fn string_allocated(&self, old: &Heap, r: TaggedValue, chars: Seq<char>) -> bool {
        &&& r is Str
        &&& old.free_string_list().len() > 0 ==> {
            &&& r.spec_heap_index() == old.free_string_list().last()
            &&& self.free_string_list() == old.free_string_list().drop_last()
            &&& self.string_slots() == old.string_slots().update(r.spec_heap_index() as int, chars)
        }
        &&& old.free_string_list().len() == 0 ==> {
            &&& r.spec_heap_index() == old.string_slots().len()
            &&& self.free_string_list() == old.free_string_list()
            &&& self.string_slots() == old.string_slots().push(chars)
        }
        &&& self.pair_slots() == old.pair_slots()
        &&& self.vector_slots() == old.vector_slots()
        &&& self.object_slots() == old.object_slots()
        &&& self.free_pair_list() == old.free_pair_list()
        &&& self.free_vector_list() == old.free_vector_list()
        &&& self.free_object_list() == old.free_object_list()
        &&& self.symbol_indices() == old.symbol_indices()
    }

    /// Allocate a string of `chars`, reusing the most recently freed string
    /// slot when there is one.
    pub fn alloc_string_chars(&mut self, chars: Vec<char>) -> (r: TaggedValue)
        requires
            old(self).wf(),
            old(self).can_alloc_string(),
        ensures
            final(self).wf(),
            final(self).string_allocated(old(self), r, chars@),
            final(self).string_slots()[r.spec_heap_index() as int] == chars@,
            final(self).arenas_extend(old(self)),
    {
        let ghost cs = chars@;
        self.note_alloc();
        let index: HeapIndex;
        if self.free_strings.len() > 0 {
            let free = self.free_strings.pop().unwrap();
            proof {
                assert(old(self).free_strings@.drop_last().no_duplicates());
            }
            self.strings.set(free as usize, chars);
            index = free;
        } else {
            index = self.strings.len() as HeapIndex;
            self.strings.push(chars);
        }
        proof {
            let o = old(self);
            if o.free_string_list().len() > 0 {
                assert(self.string_slots() =~= o.string_slots().update(index as int, cs));
            } else {
                assert(self.string_slots() =~= o.string_slots().push(cs));
            }
            assert(self.vector_slots() == o.vector_slots());
            self.lemma_valid_grows(o);
            assert forall|i: int| 0 <= i < self.vector_slots().len() implies self.all_valid(
                #[trigger] self.vector_slots()[i],
            ) by {
                assert(o.all_valid(o.vector_slots()[i]));
            }
            assert forall|i: int| 0 <= i < self.object_slots().len() implies self.all_valid(
                object_children(#[trigger] self.object_slots()[i]),
            ) by {
                assert(o.all_valid(object_children(o.object_slots()[i])));
            }
        }
        TaggedValue::string(index)
    }

    /// Allocate a string with the characters of `s`.
    pub fn alloc_string(&mut self, s: String) -> (r: TaggedValue)
        requires
            old(self).wf(),
            old(self).can_alloc_string(),
        ensures
            final(self).wf(),
            final(self).string_allocated(old(self), r, s@),
            final(self).arenas_extend(old(self)),
    {
        self.alloc_string_chars(chars_of(s.as_str()))
    }

    /// Allocate a string with the characters of `s`.
    pub fn alloc_str(&mut self, s: &str) -> (r: TaggedValue)
        requires
            old(self).wf(),
            old(self).can_alloc_string(),
        ensures
            final(self).wf(),
            final(self).string_allocated(old(self), r, s@),
            final(self).arenas_extend(old(self)),
    {
        self.alloc_string_chars(chars_of(s))
    }

    /// The characters of a string.
    pub fn get_string_chars(&self, ptr: TaggedValue) -> (r: &[char])
        requires
            ptr is Str,
            self.valid_value(ptr),
        ensures
            r@ == self.string_slots()[ptr.spec_heap_index() as int],
    {
        self.strings[ptr.heap_index() as usize].as_slice()
    }

    /// The characters of a string, as an owned `String`.
    pub fn get_string_as_utf8(&self, ptr: TaggedValue) -> (r: String)
        requires
            ptr is Str,
            self.valid_value(ptr),
        ensures
            r@ == self.string_slots()[ptr.spec_heap_index() as int],
    {
        string_from_chars(&self.strings[ptr.heap_index() as usize])
    }

    /// The length of a string in characters.
    pub fn string_char_len(&self, ptr: TaggedValue) -> (r: usize)
        requires
            ptr is Str,
            self.valid_value(ptr),
        ensures
            r == self.string_slots()[ptr.spec_heap_index() as int].len(),
    {
        self.strings[ptr.heap_index() as usize].len()
    }

    /// Replace character `index` of a string.
    pub fn string_set_char(&mut self, ptr: TaggedValue, index: usize, ch: char)
        requires
            old(self).wf(),
            ptr is Str,
            old(self).valid_value(ptr),
            index < old(self).string_slots()[ptr.spec_heap_index() as int].len(),
        ensures
            final(self).wf(),
            final(self).string_slots() == old(self).string_slots().update(
                ptr.spec_heap_index() as int,
                old(self).string_slots()[ptr.spec_heap_index() as int].update(index as int, ch),
            ),
            final(self).same_contents_except_strings(old(self)),
    {
        let i = ptr.heap_index() as usize;
        let mut v: Vec<char> = Vec::new();
        std::mem::swap(&mut v, &mut self.strings[i]);
        v.set(index, ch);
        self.strings.set(i, v);
        proof {
            let o = old(self);
            let target = o.string_slots()[i as int].update(index as int, ch);
            assert(self.string_slots() =~= o.string_slots().update(i as int, target));
            assert(self.vector_slots() == o.vector_slots());
        }
    }

    /// The string's contents, when `tv` is a string.
    pub fn get_string_contents(&self, tv: TaggedValue) -> (r: Option<String>)
        requires
            self.valid_value(tv),
        ensures
            match tv {
                TaggedValue::Str(i) => r is Some && r->0@ == self.string_slots()[i as int],
                _ => r is None,
            },
    {
        if tv.is_string() {
            Some(self.get_string_as_utf8(tv))
        } else {
            None
        }
    }
}

impl Heap {
    // ---------------------------------------------------------------------
    // Symbols
    // ---------------------------------------------------------------------

    /// Whether the symbol table holds a symbol named `name`.
    pub open spec fn has_symbol(&self, name: Seq<char>) -> bool {
        exists|k: int|
            0 <= k < self.symbol_indices().len() && symbol_name_of(
                self.object_slots()[(#[trigger] self.symbol_indices()[k]) as int],
            ) == name
    }

    /// Whether `tv` is the interned symbol named `name`.
    pub open spec fn is_interned(&self, tv: TaggedValue, name: Seq<char>) -> bool {
        &&& tv is Object
        &&& self.symbol_indices().contains(tv.spec_heap_index())
        &&& self.object_slots()[tv.spec_heap_index() as int] is Symbol
        &&& symbol_name_of(self.object_slots()[tv.spec_heap_index() as int]) == name
    }

    /// Two interned symbols with the same name are the same value: the
    /// table never names two slots alike.
    pub proof fn lemma_interned_unique(&self, a: TaggedValue, b: TaggedValue, name: Seq<char>)
        requires
            self.wf(),
            self.is_interned(a, name),
            self.is_interned(b, name),
        ensures
            a == b,
    {
        let ka = choose|k: int| 0 <= k < self.symbol_indices().len() && self.symbol_indices()[k] == a.spec_heap_index();
        let kb = choose|k: int| 0 <= k < self.symbol_indices().len() && self.symbol_indices()[k] == b.spec_heap_index();
        if ka < kb {
            assert(symbol_name_of(self.object_slots()[self.symbol_indices()[ka] as int]) != symbol_name_of(
                self.object_slots()[self.symbol_indices()[kb] as int],
            ));
        } else if kb < ka {
            assert(symbol_name_of(self.object_slots()[self.symbol_indices()[kb] as int]) != symbol_name_of(
                self.object_slots()[self.symbol_indices()[ka] as int],
            ));
        }
    }

    /// `self` is `old` after allocating a symbol as `r` and entering it in
    /// the table: the object slot chosen as `object_allocated` describes,
    /// the other arenas and free lists untouched.
    pub open spec fn symbol_allocated(&self, old: &Heap, r: TaggedValue) -> bool {
        &&& r is Object
        &&& old.free_object_list().len() > 0 ==> {
            &&& r.spec_heap_index() == old.free_object_list().last()
            &&& self.free_object_list() == old.free_object_list().drop_last()
            &&& self.object_slots() == old.object_slots().update(
                r.spec_heap_index() as int,
                self.object_slots()[r.spec_heap_index() as int],
            )
        }
        &&& old.free_object_list().len() == 0 ==> {
            &&& r.spec_heap_index() == old.object_slots().len()
            &&& self.free_object_list() == old.free_object_list()
            &&& self.object_slots() == old.object_slots().push(
                self.object_slots()[r.spec_heap_index() as int],
            )
        }
        &&& self.pair_slots() == old.pair_slots()
        &&& self.vector_slots() == old.vector_slots()
        &&& self.string_slots() == old.string_slots()
        &&& self.free_pair_list() == old.free_pair_list()
        &&& self.free_vector_list() == old.free_vector_list()
        &&& self.free_string_list() == old.free_string_list()
        &&& self.symbol_indices() == old.symbol_indices().push(r.spec_heap_index())
    }

    /// The symbol named `name`: the one already interned, or a new one
    /// allocated and entered in the table.
    pub fn intern_symbol(&mut self, name: &str) -> (r: TaggedValue)
        requires
            old(self).wf(),
            old(self).has_symbol(name@) || old(self).can_alloc_object(),
        ensures
            final(self).wf(),
            final(self).is_interned(r, name@),
            old(self).has_symbol(name@) ==> *final(self) == *old(self),
            !old(self).has_symbol(name@) ==> final(self).symbol_allocated(old(self), r),
            final(self).arenas_extend(old(self)),
    {
        let mut k: usize = 0;
        while k < self.symbol_table.len()
            invariant
                self.wf(),
                *self == *old(self),
                k <= self.symbol_indices().len(),
                forall|j: int|
                    0 <= j < k ==> symbol_name_of(
                        self.object_slots()[(#[trigger] self.symbol_indices()[j]) as int],
                    ) != name@,
            decreases self.symbol_indices().len() - k,
        {
            let index = self.symbol_table[k];
            match &self.objects[index as usize] {
                HeapObjectData::Symbol(s) => {
                    if str_is(s.as_str(), name) {
                        proof {
                            assert(self.symbol_indices().contains(index));
                        }
                        return TaggedValue::object(index);
                    }
                },
                _ => {},
            }
            k = k + 1;
        }
        let ghost o = *old(self);
        let data = HeapObjectData::Symbol(string_from_chars(&chars_of(name)));
        let r = self.alloc_object(data);
        let index = r.heap_index();
        proof {
            assert forall|j: int| 0 <= j < o.symbol_indices().len() implies
                (#[trigger] o.symbol_indices()[j]) != index by {
                assert(o.object_slots()[o.symbol_indices()[j] as int] is Symbol);
                if o.free_object_list().len() > 0 {
                    let last = o.free_object_list().len() - 1;
                    assert(o.object_slots()[o.free_object_list()[last] as int] is Free);
                }
            }
        }
        self.symbol_table.push(index);
        proof {
            let h = *self;
            assert(h.symbol_indices() == o.symbol_indices().push(index));
            assert(h.object_slots()[index as int] == data);
            assert forall|j: int| 0 <= j < o.symbol_indices().len() implies
                h.object_slots()[(#[trigger] o.symbol_indices()[j]) as int]
                    == o.object_slots()[o.symbol_indices()[j] as int] by {
                assert(o.symbol_indices()[j] != index);
            }
            assert forall|k1: int, k2: int|
                0 <= k1 < k2 < h.symbol_indices().len() implies symbol_name_of(
                h.object_slots()[(#[trigger] h.symbol_indices()[k1]) as int],
            ) != symbol_name_of(h.object_slots()[(#[trigger] h.symbol_indices()[k2]) as int]) by {
                if k2 == o.symbol_indices().len() {
                    assert(h.symbol_indices()[k1] == o.symbol_indices()[k1]);
                    assert(h.object_slots()[o.symbol_indices()[k1] as int]
                        == o.object_slots()[o.symbol_indices()[k1] as int]);
                } else {
                    assert(h.symbol_indices()[k1] == o.symbol_indices()[k1]);
                    assert(h.symbol_indices()[k2] == o.symbol_indices()[k2]);
                    assert(h.object_slots()[o.symbol_indices()[k1] as int]
                        == o.object_slots()[o.symbol_indices()[k1] as int]);
                    assert(h.object_slots()[o.symbol_indices()[k2] as int]
                        == o.object_slots()[o.symbol_indices()[k2] as int]);
                }
            }
            assert forall|k: int| 0 <= k < h.symbol_indices().len() implies {
                &&& (#[trigger] h.symbol_indices()[k]) < h.object_slots().len()
                &&& h.object_slots()[h.symbol_indices()[k] as int] is Symbol
            } by {
                if k < o.symbol_indices().len() {
                    assert(h.symbol_indices()[k] == o.symbol_indices()[k]);
                    assert(h.object_slots()[o.symbol_indices()[k] as int]
                        == o.object_slots()[o.symbol_indices()[k] as int]);
                }
            }
            assert(h.symbol_indices()[o.symbol_indices().len() as int] == index);
            assert(h.symbol_indices().contains(index));
        }
        r
    }

    /// The name of a symbol, when `tv` is one.
    pub fn get_symbol_name(&self, tv: TaggedValue) -> (r: Option<&str>)
        requires
            self.valid_value(tv),
        ensures
            match self.object_of(tv) {
                Some(HeapObjectData::Symbol(s)) => r is Some && r->0@ == s@,
                _ => r is None,
            },
    {
        if !tv.is_object() {
            return None;
        }
        match self.get_object(tv) {
            HeapObjectData::Symbol(s) => Some(s.as_str()),
            _ => None,
        }
    }

    /// The name of a symbol or of an identifier, when `tv` is either.
    pub fn get_symbol_or_identifier_name(&self, tv: TaggedValue) -> (r: Option<&str>)
        requires
            self.valid_value(tv),
        ensures
            match self.object_of(tv) {
                Some(HeapObjectData::Symbol(s)) => r is Some && r->0@ == s@,
                Some(HeapObjectData::Identifier { name, .. }) => r is Some && r->0@ == name@,
                _ => r is None,
            },
    {
        if !tv.is_object() {
            return None;
        }
        match self.get_object(tv) {
            HeapObjectData::Symbol(s) => Some(s.as_str()),
            HeapObjectData::Identifier { name, .. } => Some(name.as_str()),
            _ => None,
        }
    }

    /// Whether `tv` is a symbol or identifier spelled `name`.
    pub fn is_named(&self, tv: TaggedValue, name: &str) -> (r: bool)
        requires
            self.valid_value(tv),
        ensures
            r == match self.object_of(tv) {
                Some(HeapObjectData::Symbol(s)) => s@ == name@,
                Some(HeapObjectData::Identifier { name: n, .. }) => n@ == name@,
                _ => false,
            },
    {
        match self.get_symbol_or_identifier_name(tv) {
            Some(s) => str_is(s, name),
            None => false,
        }
    }

    // ---------------------------------------------------------------------
    // Object type tests
    // ---------------------------------------------------------------------

    /// The type tag of the object `tv` refers to, when it refers to one.
    pub open spec fn type_of(&self, tv: TaggedValue) -> Option<HeapObjectType> {
        match self.object_of(tv) {
            Some(d) => Some(spec_object_type(&d)),
            None => None,
        }
    }

    /// The type tag of the object `tv` refers to, when it refers to one.
    pub fn object_type_of(&self, tv: TaggedValue) -> (r: Option<HeapObjectType>)
        requires
            self.valid_value(tv),
        ensures
            r == self.type_of(tv),
    {
        if tv.is_object() {
            Some(self.get_object_type(tv))
        } else {
            None
        }
    }

    /// Whether `tv` is an object of type `t`.
    fn has_type(&self, tv: TaggedValue, t: HeapObjectType) -> (r: bool)
        requires
            self.valid_value(tv),
        ensures
            r == (self.type_of(tv) == Some(t)),
    {
        match self.object_type_of(tv) {
            Some(u) => u == t,
            None => false,
        }
    }

    /// Whether `tv` is a symbol.
    pub fn is_symbol(&self, tv: TaggedValue) -> (r: bool)
        requires
            self.valid_value(tv),
        ensures
            r == (self.type_of(tv) == Some(HeapObjectType::Symbol)),
    {
        self.has_type(tv, HeapObjectType::Symbol)
    }

    /// Whether `tv` is an exact integer outside the fixnum range.
    pub fn is_bigint(&self, tv: TaggedValue) -> (r: bool)
        requires
            self.valid_value(tv),
        ensures
            r == (self.type_of(tv) == Some(HeapObjectType::BigInt)),
    {
        self.has_type(tv, HeapObjectType::BigInt)
    }

    /// Whether `tv` is an exact non-integer rational.
    pub fn is_rational(&self, tv: TaggedValue) -> (r: bool)
        requires
            self.valid_value(tv),
        ensures
            r == (self.type_of(tv) == Some(HeapObjectType::Rational)),
    {
        self.has_type(tv, HeapObjectType::Rational)
    }

    /// Whether `tv` is an inexact real.
    pub fn is_real(&self, tv: TaggedValue) -> (r: bool)
        requires
            self.valid_value(tv),
        ensures
            r == (self.type_of(tv) == Some(HeapObjectType::Real)),
    {
        self.has_type(tv, HeapObjectType::Real)
    }

    /// Whether `tv` is a complex number.
    pub fn is_complex(&self, tv: TaggedValue) -> (r: bool)
        requires
            self.valid_value(tv),
        ensures
            r == (self.type_of(tv) == Some(HeapObjectType::Complex)),
    {
        self.has_type(tv, HeapObjectType::Complex)
    }

    /// Whether `tv` is a bytevector.
    pub fn is_bytevector(&self, tv: TaggedValue) -> (r: bool)
        requires
            self.valid_value(tv),
        ensures
            r == (self.type_of(tv) == Some(HeapObjectType::Bytevector)),
    {
        self.has_type(tv, HeapObjectType::Bytevector)
    }

    /// Whether `tv` is an exception.
    pub fn is_exception(&self, tv: TaggedValue) -> (r: bool)
        requires
            self.valid_value(tv),
        ensures
            r == (self.type_of(tv) == Some(HeapObjectType::Exception)),
    {
        self.has_type(tv, HeapObjectType::Exception)
    }

    /// Whether `tv` is a promise.
    pub fn is_promise(&self, tv: TaggedValue) -> (r: bool)
        requires
            self.valid_value(tv),
        ensures
            r == (self.type_of(tv) == Some(HeapObjectType::Promise)),
    {
        self.has_type(tv, HeapObjectType::Promise)
    }

    /// Whether `tv` is a record.
    pub fn is_record(&self, tv: TaggedValue) -> (r: bool)
        requires
            self.valid_value(tv),
        ensures
            r == (self.type_of(tv) == Some(HeapObjectType::Record)),
    {
        self.has_type(tv, HeapObjectType::Record)
    }

    /// Whether `tv` is a record type.
    pub fn is_record_type(&self, tv: TaggedValue) -> (r: bool)
        requires
            self.valid_value(tv),
        ensures
            r == (self.type_of(tv) == Some(HeapObjectType::RecordType)),
    {
        self.has_type(tv, HeapObjectType::RecordType)
    }

    /// Whether `tv` is an identifier.
    pub fn is_identifier(&self, tv: TaggedValue) -> (r: bool)
        requires
            self.valid_value(tv),
        ensures
            r == (self.type_of(tv) == Some(HeapObjectType::Identifier)),
    {
        self.has_type(tv, HeapObjectType::Identifier)
    }

    /// Whether `tv` is a parameter object.
    pub fn is_parameter(&self, tv: TaggedValue) -> (r: bool)
        requires
            self.valid_value(tv),
        ensures
            r == (self.type_of(tv) == Some(HeapObjectType::Parameter)),
    {
        self.has_type(tv, HeapObjectType::Parameter)
    }

    /// Whether `tv` is a prompt tag.
    pub fn is_prompt_tag(&self, tv: TaggedValue) -> (r: bool)
        requires
            self.valid_value(tv),
        ensures
            r == (self.type_of(tv) == Some(HeapObjectType::PromptTag)),
    {
        self.has_type(tv, HeapObjectType::PromptTag)
    }

    /// Whether `tv` is a multiple-values object.
    pub fn is_values(&self, tv: TaggedValue) -> (r: bool)
        requires
            self.valid_value(tv),
        ensures
            r == (self.type_of(tv) == Some(HeapObjectType::Values)),
    {
        self.has_type(tv, HeapObjectType::Values)
    }

    /// Whether `tv` is a mutable cell.
    pub fn is_mutable_cell(&self, tv: TaggedValue) -> (r: bool)
        requires
            self.valid_value(tv),
        ensures
            r == (self.type_of(tv) == Some(HeapObjectType::MutableCell)),
    {
        self.has_type(tv, HeapObjectType::MutableCell)
    }

    /// Whether `tv` is a bytecode procedure: a closure or a continuation
    /// handle.
    pub fn is_procedure(&self, tv: TaggedValue) -> (r: bool)
        requires
            self.valid_value(tv),
        ensures
            r == (self.type_of(tv) == Some(HeapObjectType::VmClosure) || self.type_of(tv) == Some(
                HeapObjectType::VmContinuationRef,
            ) || self.type_of(tv) == Some(HeapObjectType::VmDelimitedContinuationRef)),
    {
        self.has_type(tv, HeapObjectType::VmClosure) || self.has_type(
            tv,
            HeapObjectType::VmContinuationRef,
        ) || self.has_type(tv, HeapObjectType::VmDelimitedContinuationRef)
    }

    /// Whether `tv` is a continuation handle of either kind.
    pub fn is_vm_continuation(&self, tv: TaggedValue) -> (r: bool)
        requires
            self.valid_value(tv),
        ensures
            r == (self.type_of(tv) == Some(HeapObjectType::VmContinuationRef) || self.type_of(tv)
                == Some(HeapObjectType::VmDelimitedContinuationRef)),
    {
        self.has_type(tv, HeapObjectType::VmContinuationRef) || self.has_type(
            tv,
            HeapObjectType::VmDelimitedContinuationRef,
        )
    }

    /// The name of a value's type, as error messages give it.
    pub open spec fn type_name_text(&self, tv: TaggedValue) -> Seq<char> {
        match tv {
            TaggedValue::Fixnum(_) => "integer"@,
            TaggedValue::Boolean(_) => "boolean"@,
            TaggedValue::Null => "null"@,
            TaggedValue::Eof => "eof-object"@,
            TaggedValue::Unspecified => "unspecified"@,
            TaggedValue::Char(_) => "character"@,
            TaggedValue::Pair(_) => "pair"@,
            TaggedValue::Vector(_) => "vector"@,
            TaggedValue::Str(_) => "string"@,
            TaggedValue::Object(i) => object_type_name(spec_object_type(&self.object_slots()[i as int])),
        }
    }

    /// The name of a value's type, as error messages give it.
    pub fn value_type_name(&self, tv: TaggedValue) -> (r: &'static str)
        requires
            self.valid_value(tv),
        ensures
            r@ == self.type_name_text(tv),
    {
        match tv {
            TaggedValue::Fixnum(_) => "integer",
            TaggedValue::Boolean(_) => "boolean",
            TaggedValue::Null => "null",
            TaggedValue::Eof => "eof-object",
            TaggedValue::Unspecified => "unspecified",
            TaggedValue::Char(_) => "character",
            TaggedValue::Pair(_) => "pair",
            TaggedValue::Vector(_) => "vector",
            TaggedValue::Str(_) => "string",
            TaggedValue::Object(_) => self.get_object_type(tv).error_name(),
        }
    }

    // ---------------------------------------------------------------------
    // Statistics
    // ---------------------------------------------------------------------

    /// Arena sizes, free-list lengths and collection counters.
    pub fn stats(&self) -> (r: HeapStats)
        ensures
            r.pairs == self.pair_slots().len(),
            r.vectors == self.vector_slots().len(),
            r.strings == self.string_slots().len(),
            r.objects == self.object_slots().len(),
            r.symbols == self.symbol_indices().len(),
            r.free_pairs == self.free_pair_list().len(),
            r.free_vectors == self.free_vector_list().len(),
            r.free_strings == self.free_string_list().len(),
            r.free_objects == self.free_object_list().len(),
            r.allocs_since_gc == self.spec_allocs_since_gc(),
            r.gc_collections == self.spec_gc_collections(),
            r.gc_last_swept == self.spec_gc_last_swept(),
    {
        HeapStats {
            pairs: self.pairs.len(),
            vectors: self.vectors.len(),
            strings: self.strings.len(),
            objects: self.objects.len(),
            symbols: self.symbol_table.len(),
            free_pairs: self.free_pairs.len(),
            free_vectors: self.free_vectors.len(),
            free_strings: self.free_strings.len(),
            free_objects: self.free_objects.len(),
            allocs_since_gc: self.allocs_since_gc,
            gc_collections: self.gc_collections,
            gc_last_swept: self.gc_last_swept,
        }
    }
}

/// The name error messages give an object type.
pub open spec fn object_type_name(t: HeapObjectType) -> Seq<char> {
    match t {
        HeapObjectType::BigInt => "integer"@,
        HeapObjectType::Rational => "rational"@,
        HeapObjectType::Real => "real"@,
        HeapObjectType::Complex => "complex"@,
        HeapObjectType::Symbol => "symbol"@,
        HeapObjectType::Bytevector => "bytevector"@,
        HeapObjectType::Exception => "error-object"@,
        HeapObjectType::RecordType => "record-type"@,
        HeapObjectType::Record => "record"@,
        HeapObjectType::Identifier => "identifier"@,
        HeapObjectType::Parameter => "parameter"@,
        HeapObjectType::Promise => "promise"@,
        HeapObjectType::Values => "values"@,
        HeapObjectType::PromptTag => "continuation-prompt-tag"@,
        HeapObjectType::LabelPlaceholder => "label-placeholder"@,
        HeapObjectType::VmClosure => "procedure"@,
        HeapObjectType::MutableCell => "mutable-cell"@,
        HeapObjectType::VmContinuationRef => "continuation"@,
        HeapObjectType::VmDelimitedContinuationRef => "continuation"@,
        HeapObjectType::Free => "gc-freed-slot"@,
    }
}

impl HeapObjectType {
    /// The name error messages give this type.
    pub fn error_name(self) -> (r: &'static str)
        ensures
            r@ == object_type_name(self),
    {
        match self {
            HeapObjectType::BigInt => "integer",
            HeapObjectType::Rational => "rational",
            HeapObjectType::Real => "real",
            HeapObjectType::Complex => "complex",
            HeapObjectType::Symbol => "symbol",
            HeapObjectType::Bytevector => "bytevector",
            HeapObjectType::Exception => "error-object",
            HeapObjectType::RecordType => "record-type",
            HeapObjectType::Record => "record",
            HeapObjectType::Identifier => "identifier",
            HeapObjectType::Parameter => "parameter",
            HeapObjectType::Promise => "promise",
            HeapObjectType::Values => "values",
            HeapObjectType::PromptTag => "continuation-prompt-tag",
            HeapObjectType::LabelPlaceholder => "label-placeholder",
            HeapObjectType::VmClosure => "procedure",
            HeapObjectType::MutableCell => "mutable-cell",
            HeapObjectType::VmContinuationRef => "continuation",
            HeapObjectType::VmDelimitedContinuationRef => "continuation",
            HeapObjectType::Free => "gc-freed-slot",
        }
    }
}

impl Heap {
    /// The pair arena's free list, most recently freed last.
    pub fn free_pairs(&self) -> (r: &[HeapIndex])
        ensures
            r@ == self.free_pair_list(),
    {
        self.free_pairs.as_slice()
    }

    /// The vector arena's free list, most recently freed last.
    pub fn free_vectors(&self) -> (r: &[HeapIndex])
        ensures
            r@ == self.free_vector_list(),
    {
        self.free_vectors.as_slice()
    }

    /// The string arena's free list, most recently freed last.
    pub fn free_strings(&self) -> (r: &[HeapIndex])
        ensures
            r@ == self.free_string_list(),
    {
        self.free_strings.as_slice()
    }

    /// The object arena's free list, most recently freed last.
    pub fn free_objects(&self) -> (r: &[HeapIndex])
        ensures
            r@ == self.free_object_list(),
    {
        self.free_objects.as_slice()
    }
}

} // verus!
