//! The compact value representation shared by the heap, the expression trees
//! and the collector.
//!
//! A value is either immediate (the empty list, booleans, characters,
//! fixnums, and the unspecified and end-of-file markers) or a reference into
//! one of the heap's four arenas.
use vstd::prelude::*;

verus! {

/// Index of a slot in one of the heap's arenas.
pub type HeapIndex = u32;

/// Smallest integer a fixnum holds.
pub const FIXNUM_MIN: i64 = -1152921504606846976;
/// Largest integer a fixnum holds.
pub const FIXNUM_MAX: i64 = 1152921504606846975;

/// A value: immediate, or a reference to a heap slot.
#[derive(Clone, Copy, PartialEq, Eq, Structural, Debug, Hash)]
pub enum TaggedValue {
    /// The empty list `()`.
    Null,
    /// The unspecified value.
    Unspecified,
    /// The end-of-file object.
    Eof,
    /// `#t` or `#f`.
    Boolean(bool),
    /// A character.
    Char(char),
    /// A small exact integer, within `FIXNUM_MIN ..= FIXNUM_MAX`.
    Fixnum(i64),
    /// A pair in the pair arena.
    Pair(HeapIndex),
    /// A vector in the vector arena.
    Vector(HeapIndex),
    /// A string in the string arena.
    Str(HeapIndex),
    /// Any other heap object, in the object arena.
    Object(HeapIndex),
}

/// Whether `n` lies in the fixnum range.
pub open spec fn spec_fits_fixnum(n: int) -> bool {
    FIXNUM_MIN <= n <= FIXNUM_MAX
}

impl TaggedValue {
    /// The empty list.
    pub const NULL: TaggedValue = TaggedValue::Null;

    /// A fixnum holding `n`.
    pub fn fixnum(n: i64) -> (r: TaggedValue)
        requires
            spec_fits_fixnum(n as int),
        ensures
            r == TaggedValue::Fixnum(n),
    {
        TaggedValue::Fixnum(n)
    }

    /// Whether `n` lies in the fixnum range.
    pub fn fits_fixnum(n: i64) -> (r: bool)
        ensures
            r == spec_fits_fixnum(n as int),
    {
        FIXNUM_MIN <= n && n <= FIXNUM_MAX
    }

    /// A boolean.
    pub fn boolean(b: bool) -> (r: TaggedValue)
        ensures
            r == TaggedValue::Boolean(b),
    {
        TaggedValue::Boolean(b)
    }

    /// A reference to pair slot `i`.
    pub fn pair(i: HeapIndex) -> (r: TaggedValue)
        ensures
            r == TaggedValue::Pair(i),
    {
        TaggedValue::Pair(i)
    }

    /// A reference to vector slot `i`.
    pub fn vector(i: HeapIndex) -> (r: TaggedValue)
        ensures
            r == TaggedValue::Vector(i),
    {
        TaggedValue::Vector(i)
    }

    /// A reference to string slot `i`.
    pub fn string(i: HeapIndex) -> (r: TaggedValue)
        ensures
            r == TaggedValue::Str(i),
    {
        TaggedValue::Str(i)
    }

    /// A reference to object slot `i`.
    pub fn object(i: HeapIndex) -> (r: TaggedValue)
        ensures
            r == TaggedValue::Object(i),
    {
        TaggedValue::Object(i)
    }

    /// Is this the empty list?
    pub fn is_null(&self) -> (r: bool)
        ensures
            r == (*self is Null),
    {
        matches!(self, TaggedValue::Null)
    }

    /// Is this a fixnum?
    pub fn is_fixnum(&self) -> (r: bool)
        ensures
            r == (*self is Fixnum),
    {
        matches!(self, TaggedValue::Fixnum(_))
    }

    /// Is this a pair reference?
    pub fn is_pair(&self) -> (r: bool)
        ensures
            r == (*self is Pair),
    {
        matches!(self, TaggedValue::Pair(_))
    }

    /// Is this a vector reference?
    pub fn is_vector(&self) -> (r: bool)
        ensures
            r == (*self is Vector),
    {
        matches!(self, TaggedValue::Vector(_))
    }

    /// Is this a string reference?
    pub fn is_string(&self) -> (r: bool)
        ensures
            r == (*self is Str),
    {
        matches!(self, TaggedValue::Str(_))
    }

    /// Is this an object reference?
    pub fn is_object(&self) -> (r: bool)
        ensures
            r == (*self is Object),
    {
        matches!(self, TaggedValue::Object(_))
    }

    /// Does this value refer to a heap slot?
    pub open spec fn is_heap_ref(self) -> bool {
        self is Pair || self is Vector || self is Str || self is Object
    }

    /// The slot index of a heap reference (0 for an immediate).
    pub open spec fn spec_heap_index(&self) -> HeapIndex {
        match *self {
            TaggedValue::Pair(i) => i,
            TaggedValue::Vector(i) => i,
            TaggedValue::Str(i) => i,
            TaggedValue::Object(i) => i,
            _ => 0,
        }
    }

    /// The slot index of a heap reference (0 for an immediate).
    #[verifier::when_used_as_spec(spec_heap_index)]
    pub fn heap_index(&self) -> (r: HeapIndex)
        ensures
            r == self.spec_heap_index(),
    {
        match self {
            TaggedValue::Pair(i) => *i,
            TaggedValue::Vector(i) => *i,
            TaggedValue::Str(i) => *i,
            TaggedValue::Object(i) => *i,
            _ => 0,
        }
    }

    /// The integer of a fixnum, if this is one.
    pub fn as_fixnum(&self) -> (r: Option<i64>)
        ensures
            r == (match *self {
                TaggedValue::Fixnum(n) => Some(n),
                _ => None::<i64>,
            }),
    {
        match self {
            TaggedValue::Fixnum(n) => Some(*n),
            _ => None,
        }
    }

    /// The integer of a value known to be a fixnum.
    pub fn as_fixnum_unchecked(&self) -> (r: i64)
        requires
            *self is Fixnum,
        ensures
            r == self->Fixnum_0,
    {
        match self {
            TaggedValue::Fixnum(n) => *n,
            _ => 0,
        }
    }
}

} // verus!
