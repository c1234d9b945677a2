//! A hash of a value for hash tables keyed by `equal?`: structure is hashed
//! to a bounded depth, so a deep or circular value costs a bounded walk.
use vstd::prelude::*;
use num_bigint::BigInt;
use num_rational::BigRational;
use crate::heap::{Heap, HeapObjectData};
use crate::heap::equality::{real_bits_nan, real_is_nan, equal_within};
use crate::tagged_value::TaggedValue;

verus! {

/// The FNV-1a offset basis.
pub const FNV_BASIS: u64 = 0xcbf29ce484222325;
/// The FNV-1a prime.
pub const FNV_PRIME: u64 = 0x100000001b3;
/// How many levels of pairs and vectors the hash looks into.
pub const HASH_DEPTH: u32 = 8;
/// How many vector elements the hash looks at.
pub const HASH_ELEMENTS: usize = 8;
/// How deep a chain of complex numbers within complex numbers is followed.
pub const HASH_NEST: u32 = 0xffff_ffff;

/// One FNV-1a step.
pub open spec fn fnv_step(h: u64, x: u64) -> u64 {
    vstd::wrapping::u64_specs::wrapping_mul(h ^ x, FNV_PRIME)
}

/// The FNV-1a hash of characters, each by its code point.
pub open spec fn fnv_chars(s: Seq<char>) -> u64
    decreases s.len(),
{
    if s.len() == 0 {
        FNV_BASIS
    } else {
        fnv_step(fnv_chars(s.drop_last()), s.last() as u64)
    }
}

/// The FNV-1a hash of bytes.
pub open spec fn fnv_bytes(s: Seq<u8>) -> u64
    decreases s.len(),
{
    if s.len() == 0 {
        FNV_BASIS
    } else {
        fnv_step(fnv_bytes(s.drop_last()), s.last() as u64)
    }
}

/// The hash of a fixnum.
pub open spec fn fixnum_hash(n: i64) -> u64 {
    let h = vstd::wrapping::u64_specs::wrapping_mul(n as u64, 0x517cc1b727220a95);
    h ^ (h >> 32u64)
}

/// The hash `DefaultHasher::new()` gives a big integer.
pub uninterp spec fn bigint_hash_value(n: BigInt) -> u64;

/// The hash `DefaultHasher::new()` gives a rational, numerator then
/// denominator.
pub uninterp spec fn rational_hash_value(q: BigRational) -> u64;

/// Hashes a big integer with a `DefaultHasher::new()`. std documents that
/// every hasher made by `new` hashes alike, so the contract names the
/// result as a function of the number; std does not promise the algorithm
/// across its releases, which the name leaves unsaid.
#[verifier::external_body]
fn bigint_hash(n: &BigInt) -> (r: u64)
    ensures
        r == bigint_hash_value(*n),
{
    let mut hasher = std::collections::hash_map::DefaultHasher::new();
    std::hash::Hash::hash(n, &mut hasher);
    std::hash::Hasher::finish(&hasher)
}

/// Hashes a rational's numerator, then its denominator, with one
/// `DefaultHasher::new()`. Named as `bigint_hash` is.
#[verifier::external_body]
fn rational_hash(q: &BigRational) -> (r: u64)
    ensures
        r == rational_hash_value(*q),
{
    let mut hasher = std::collections::hash_map::DefaultHasher::new();
    std::hash::Hash::hash(q.numer(), &mut hasher);
    std::hash::Hash::hash(q.denom(), &mut hasher);
    std::hash::Hasher::finish(&hasher)
}

/// The hash of `tv`, `depth` levels of pairs and vectors deep, complex
/// numbers followed `nest` levels deep.
pub open spec fn hash_within(heap: &Heap, tv: TaggedValue, depth: nat, nest: nat) -> u64
    decreases depth, nest, 0int,
{
    match tv {
        TaggedValue::Null => 0x517cc1b727220a95,
        TaggedValue::Boolean(b) => if b {
            0x9e3779b97f4a7c15
        } else {
            0x6c62272e07bb0142
        },
        TaggedValue::Fixnum(n) => fixnum_hash(n),
        TaggedValue::Char(c) => vstd::wrapping::u64_specs::wrapping_mul(c as u64, 0x9e3779b97f4a7c15),
        TaggedValue::Str(i) => fnv_chars(heap.string_slots()[i as int]),
        TaggedValue::Pair(i) => if depth == 0 {
            0x01000193
        } else {
            vstd::wrapping::u64_specs::wrapping_add(
                vstd::wrapping::u64_specs::wrapping_mul(
                    hash_within(heap, heap.pair_slots()[i as int].0, (depth - 1) as nat, HASH_NEST as nat),
                    31,
                ),
                hash_within(heap, heap.pair_slots()[i as int].1, (depth - 1) as nat, HASH_NEST as nat),
            )
        },
        TaggedValue::Vector(i) => if depth == 0 {
            0x811c9dc5
        } else {
            let vs = heap.vector_slots()[i as int];
            hash_elements(
                heap,
                vs,
                0,
                if vs.len() < HASH_ELEMENTS { vs.len() } else { HASH_ELEMENTS as nat },
                vs.len() as u64,
                (depth - 1) as nat,
            )
        },
        TaggedValue::Object(i) => match heap.object_slots()[i as int] {
            HeapObjectData::BigInt(n) => bigint_hash_value(n),
            HeapObjectData::Rational(q) => rational_hash_value(q),
            HeapObjectData::Real(bits) => if real_bits_nan(bits) {
                0x7ff8000000000000
            } else {
                bits
            },
            HeapObjectData::Complex { real: re, imag: im } => if nest == 0 {
                0
            } else {
                vstd::wrapping::u64_specs::wrapping_add(
                    vstd::wrapping::u64_specs::wrapping_mul(hash_within(heap, re, depth, (nest - 1) as nat), 31),
                    hash_within(heap, im, depth, (nest - 1) as nat),
                )
            },
            HeapObjectData::Symbol(s) => fnv_chars(s@),
            HeapObjectData::Bytevector(b) => fnv_bytes(b@),
            _ => i as u64,
        },
        _ => 0,
    }
}

/// The vector hash over elements `k .. limit` of `vs`, from `h`.
pub open spec fn hash_elements(
    heap: &Heap,
    vs: Seq<TaggedValue>,
    k: nat,
    limit: nat,
    h: u64,
    depth: nat,
) -> u64
    decreases depth, HASH_NEST as nat + 1, limit - k,
{
    if k < limit && k < vs.len() {
        hash_elements(
            heap,
            vs,
            k + 1,
            limit,
            vstd::wrapping::u64_specs::wrapping_add(vstd::wrapping::u64_specs::wrapping_mul(h, 31), hash_within(heap, vs[k as int], depth, HASH_NEST as nat)),
            depth,
        )
    } else {
        h
    }
}

/// The FNV-1a hash of characters.
fn fnv_of_chars(s: &[char]) -> (r: u64)
    ensures
        r == fnv_chars(s@),
{
    let mut h: u64 = FNV_BASIS;
    let mut k: usize = 0;
    while k < s.len()
        invariant
            k <= s@.len(),
            h == fnv_chars(s@.take(k as int)),
        decreases s@.len() - k,
    {
        proof {
            assert(s@.take(k + 1).drop_last() =~= s@.take(k as int));
        }
        h = (h ^ (s[k] as u64)).wrapping_mul(FNV_PRIME);
        k = k + 1;
    }
    proof {
        assert(s@.take(k as int) =~= s@);
    }
    h
}

/// The FNV-1a hash of bytes.
fn fnv_of_bytes(s: &[u8]) -> (r: u64)
    ensures
        r == fnv_bytes(s@),
{
    let mut h: u64 = FNV_BASIS;
    let mut k: usize = 0;
    while k < s.len()
        invariant
            k <= s@.len(),
            h == fnv_bytes(s@.take(k as int)),
        decreases s@.len() - k,
    {
        proof {
            assert(s@.take(k + 1).drop_last() =~= s@.take(k as int));
        }
        h = (h ^ (s[k] as u64)).wrapping_mul(FNV_PRIME);
        k = k + 1;
    }
    proof {
        assert(s@.take(k as int) =~= s@);
    }
    h
}

impl Heap {
    /// A hash of `tv` for tables keyed by `equal?`: structure is looked at
    /// eight levels of pairs and vectors deep, and eight elements of a
    /// vector; other objects by their slot. Values that are `equal?` hash
    /// alike, but for the kinds `lemma_equal_values_hash_alike` sets aside.
    pub fn tagged_value_hash(&self, tv: TaggedValue) -> (r: u64)
        requires
            self.wf(),
            self.valid_value(tv),
        ensures
            r == hash_within(self, tv, HASH_DEPTH as nat, HASH_NEST as nat),
    {
        self.tagged_value_hash_depth(tv, HASH_DEPTH, HASH_NEST)
    }

    fn tagged_value_hash_depth(&self, tv: TaggedValue, depth: u32, nest: u32) -> (r: u64)
        requires
            self.wf(),
            self.valid_value(tv),
        ensures
            r == hash_within(self, tv, depth as nat, nest as nat),
        decreases depth, nest,
    {
        match tv {
            TaggedValue::Null => 0x517cc1b727220a95,
            TaggedValue::Boolean(b) => if b {
                0x9e3779b97f4a7c15
            } else {
                0x6c62272e07bb0142
            },
            TaggedValue::Fixnum(n) => {
                let mut h: u64 = (n as u64).wrapping_mul(0x517cc1b727220a95);
                h = h ^ (h >> 32u64);
                h
            },
            TaggedValue::Char(c) => (c as u64).wrapping_mul(0x9e3779b97f4a7c15),
            TaggedValue::Str(_) => fnv_of_chars(self.get_string_chars(tv)),
            TaggedValue::Pair(_) => {
                if depth == 0 {
                    return 0x01000193;
                }
                let h1 = self.tagged_value_hash_depth(self.car(tv), depth - 1, HASH_NEST);
                let h2 = self.tagged_value_hash_depth(self.cdr(tv), depth - 1, HASH_NEST);
                h1.wrapping_mul(31).wrapping_add(h2)
            },
            TaggedValue::Vector(_) => {
                if depth == 0 {
                    return 0x811c9dc5;
                }
                let vs = self.vector_slice(tv);
                let len = vs.len();
                let mut h: u64 = len as u64;
                let limit: usize = if len < HASH_ELEMENTS { len } else { HASH_ELEMENTS };
                let ghost target = hash_within(self, tv, depth as nat, nest as nat);
                proof {
                    assert(self.all_valid(vs@));
                }
                let mut k: usize = 0;
                while k < limit
                    invariant
                        self.wf(),
                        self.all_valid(vs@),
                        limit <= vs@.len(),
                        k <= limit,
                        depth > 0,
                        target == hash_elements(self, vs@, k as nat, limit as nat, h, (depth - 1) as nat),
                    decreases limit - k,
                {
                    proof {
                        assert(self.valid_value(vs@[k as int]));
                    }
                    let e = self.tagged_value_hash_depth(vs[k], depth - 1, HASH_NEST);
                    h = h.wrapping_mul(31).wrapping_add(e);
                    k = k + 1;
                }
                h
            },
            TaggedValue::Object(i) => {
                proof {
                    assert(self.all_valid(crate::heap::object_children(self.object_slots()[i as int])));
                }
                match self.get_object(tv) {
                    HeapObjectData::BigInt(n) => bigint_hash(n),
                    HeapObjectData::Rational(q) => rational_hash(q),
                    HeapObjectData::Real(bits) => {
                        if real_is_nan(*bits) {
                            0x7ff8000000000000
                        } else {
                            *bits
                        }
                    },
                    HeapObjectData::Complex { real: re, imag: im } => {
                        if nest == 0 {
                            return 0;
                        }
                        proof {
                            assert(self.valid_value(crate::heap::object_children(self.object_slots()[i as int])[0]));
                            assert(self.valid_value(crate::heap::object_children(self.object_slots()[i as int])[1]));
                        }
                        let h1 = self.tagged_value_hash_depth(*re, depth, nest - 1);
                        let h2 = self.tagged_value_hash_depth(*im, depth, nest - 1);
                        h1.wrapping_mul(31).wrapping_add(h2)
                    },
                    HeapObjectData::Symbol(s) => {
                        let cs = crate::text::chars_of(s.as_str());
                        fnv_of_chars(cs.as_slice())
                    },
                    HeapObjectData::Bytevector(b) => fnv_of_bytes(b.as_slice()),
                    _ => i as u64,
                }
            },
            _ => 0,
        }
    }
}

// ---------------------------------------------------------------------------
// Values `equal?` compares alike hash alike
// ---------------------------------------------------------------------------

/// Two objects compare alike in every part the hash reads: as `equal?`
/// compares numbers, symbols and bytevectors, with a rational compared by
/// its representation.
pub open spec fn objects_hash_alike(h: &Heap, x: HeapObjectData, y: HeapObjectData, fuel: nat) -> bool
    decreases fuel, 0nat, 0nat,
{
    match (x, y) {
        (HeapObjectData::BigInt(m), HeapObjectData::BigInt(n)) => m == n,
        (HeapObjectData::Rational(p), HeapObjectData::Rational(q)) => p == q,
        (HeapObjectData::Real(u), HeapObjectData::Real(v)) => u == v,
        (
            HeapObjectData::Complex { real: ar, imag: ai },
            HeapObjectData::Complex { real: br, imag: bi },
        ) => fuel > 0 && values_hash_alike(h, ar, br, (fuel - 1) as nat) && values_hash_alike(
            h,
            ai,
            bi,
            (fuel - 1) as nat,
        ),
        (HeapObjectData::Symbol(p), HeapObjectData::Symbol(q)) => p@ == q@,
        (HeapObjectData::Bytevector(p), HeapObjectData::Bytevector(q)) => p@ == q@,
        _ => false,
    }
}

/// The same value, or two objects that `objects_hash_alike` relates.
pub open spec fn values_hash_alike(h: &Heap, a: TaggedValue, b: TaggedValue, fuel: nat) -> bool
    decreases fuel, 1nat, 0nat,
{
    if a == b {
        true
    } else {
        match (a, b) {
            (TaggedValue::Object(i), TaggedValue::Object(j)) => objects_hash_alike(
                h,
                h.object_slots()[i as int],
                h.object_slots()[j as int],
                fuel,
            ),
            _ => false,
        }
    }
}

/// `equal?`'s structure, within `fuel` steps, over parts that
/// `values_hash_alike` relates: pairs by car and cdr, vectors element by
/// element, strings by their characters.
pub open spec fn structures_hash_alike(h: &Heap, a: TaggedValue, b: TaggedValue, fuel: nat) -> bool
    decreases fuel, 2nat, 0nat,
{
    if a == b {
        true
    } else if a is Pair && b is Pair {
        let pa = h.pair_slots()[a.spec_heap_index() as int];
        let pb = h.pair_slots()[b.spec_heap_index() as int];
        fuel > 0 && structures_hash_alike(h, pa.0, pb.0, (fuel - 1) as nat) && structures_hash_alike(
            h,
            pa.1,
            pb.1,
            (fuel - 1) as nat,
        )
    } else if a is Vector && b is Vector {
        let va = h.vector_slots()[a.spec_heap_index() as int];
        let vb = h.vector_slots()[b.spec_heap_index() as int];
        &&& va.len() == vb.len()
        &&& fuel > 0
        &&& elements_hash_alike(h, va, vb, va.len(), (fuel - 1) as nat)
    } else if a is Str && b is Str {
        h.string_slots()[a.spec_heap_index() as int] == h.string_slots()[b.spec_heap_index() as int]
    } else {
        values_hash_alike(h, a, b, fuel)
    }
}

/// The first `n` elements of `xs` and `ys` pairwise as
/// `structures_hash_alike` relates them.
pub open spec fn elements_hash_alike(h: &Heap, xs: Seq<TaggedValue>, ys: Seq<TaggedValue>, n: nat, fuel: nat) -> bool
    decreases fuel, 3nat, n,
{
    if n == 0 {
        true
    } else {
        elements_hash_alike(h, xs, ys, (n - 1) as nat, fuel) && structures_hash_alike(
            h,
            xs[n - 1],
            ys[n - 1],
            fuel,
        )
    }
}

proof fn lemma_elements_hash_alike_each(
    h: &Heap,
    xs: Seq<TaggedValue>,
    ys: Seq<TaggedValue>,
    n: nat,
    fuel: nat,
    k: int,
)
    requires
        elements_hash_alike(h, xs, ys, n, fuel),
        0 <= k < n,
    ensures
        structures_hash_alike(h, xs[k], ys[k], fuel),
    decreases n,
{
    if k < n - 1 {
        lemma_elements_hash_alike_each(h, xs, ys, (n - 1) as nat, fuel, k);
    }
}

/// Related values hash alike at every depth.
proof fn lemma_structures_hash_alike(h: &Heap, a: TaggedValue, b: TaggedValue, fuel: nat, depth: nat, nest: nat)
    requires
        structures_hash_alike(h, a, b, fuel),
    ensures
        hash_within(h, a, depth, nest) == hash_within(h, b, depth, nest),
    decreases depth, nest, 0int,
{
    if a == b {
    } else if a is Pair && b is Pair {
        if depth > 0 {
            let pa = h.pair_slots()[a.spec_heap_index() as int];
            let pb = h.pair_slots()[b.spec_heap_index() as int];
            lemma_structures_hash_alike(h, pa.0, pb.0, (fuel - 1) as nat, (depth - 1) as nat, HASH_NEST as nat);
            lemma_structures_hash_alike(h, pa.1, pb.1, (fuel - 1) as nat, (depth - 1) as nat, HASH_NEST as nat);
        }
    } else if a is Vector && b is Vector {
        if depth > 0 {
            let va = h.vector_slots()[a.spec_heap_index() as int];
            let vb = h.vector_slots()[b.spec_heap_index() as int];
            let limit: nat = if va.len() < HASH_ELEMENTS { va.len() } else { HASH_ELEMENTS as nat };
            lemma_hash_elements_alike(h, va, vb, 0, limit, va.len() as u64, (fuel - 1) as nat, (depth - 1) as nat);
        }
    } else if a is Str && b is Str {
    } else {
        match (a, b) {
            (TaggedValue::Object(i), TaggedValue::Object(j)) => {
                match (h.object_slots()[i as int], h.object_slots()[j as int]) {
                    (
                        HeapObjectData::Complex { real: ar, imag: ai },
                        HeapObjectData::Complex { real: br, imag: bi },
                    ) => {
                        if nest > 0 {
                            lemma_values_structures(h, ar, br, (fuel - 1) as nat);
                            lemma_values_structures(h, ai, bi, (fuel - 1) as nat);
                            lemma_structures_hash_alike(h, ar, br, (fuel - 1) as nat, depth, (nest - 1) as nat);
                            lemma_structures_hash_alike(h, ai, bi, (fuel - 1) as nat, depth, (nest - 1) as nat);
                        }
                    },
                    _ => {},
                }
            },
            _ => {},
        }
    }
}

/// Values `values_hash_alike` relates are related as structures too.
proof fn lemma_values_structures(h: &Heap, a: TaggedValue, b: TaggedValue, fuel: nat)
    requires
        values_hash_alike(h, a, b, fuel),
    ensures
        structures_hash_alike(h, a, b, fuel),
{
}

/// The vector hash of two related element sequences is the same.
proof fn lemma_hash_elements_alike(
    h: &Heap,
    xs: Seq<TaggedValue>,
    ys: Seq<TaggedValue>,
    k: nat,
    limit: nat,
    acc: u64,
    fuel: nat,
    depth: nat,
)
    requires
        xs.len() == ys.len(),
        limit <= xs.len(),
        elements_hash_alike(h, xs, ys, xs.len(), fuel),
    ensures
        hash_elements(h, xs, k, limit, acc, depth) == hash_elements(h, ys, k, limit, acc, depth),
    decreases depth, HASH_NEST as nat + 1, limit - k,
{
    if k < limit && k < xs.len() {
        lemma_elements_hash_alike_each(h, xs, ys, xs.len(), fuel, k as int);
        lemma_structures_hash_alike(h, xs[k as int], ys[k as int], fuel, depth, HASH_NEST as nat);
        let next = vstd::wrapping::u64_specs::wrapping_add(
            vstd::wrapping::u64_specs::wrapping_mul(acc, 31),
            hash_within(h, xs[k as int], depth, HASH_NEST as nat),
        );
        lemma_hash_elements_alike(h, xs, ys, k + 1, limit, next, fuel, depth);
    }
}

/// `equal?` values hash alike: two values that `equal?` relates, where no
/// rational is compared with another representation, no record or record
/// type with another object, and no fixnum with a big integer, have the
/// same `tagged_value_hash`.
pub proof fn lemma_equal_values_hash_alike(h: &Heap, a: TaggedValue, b: TaggedValue, fuel: nat)
    requires
        equal_within(h, a, b, fuel),
        structures_hash_alike(h, a, b, fuel),
    ensures
        hash_within(h, a, HASH_DEPTH as nat, HASH_NEST as nat) == hash_within(
            h,
            b,
            HASH_DEPTH as nat,
            HASH_NEST as nat,
        ),
{
    lemma_structures_hash_alike(h, a, b, fuel, HASH_DEPTH as nat, HASH_NEST as nat);
}

} // verus!
