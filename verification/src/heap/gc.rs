//! Mark-and-sweep garbage collection over the heap's arenas.
//!
//! Marking keeps its state in side bit sets, one bit per arena slot, and
//! never moves a slot. Sweeping puts every unmarked slot that is not free
//! already on its arena's free list and tombstones it, so the allocation
//! functions reuse it.
use vstd::prelude::*;
use crate::heap::{Heap, HeapObjectData, object_children, arena_limit};
use crate::tagged_value::{HeapIndex, TaggedValue};

verus! {

// ---------------------------------------------------------------------------
// Bit sets
// ---------------------------------------------------------------------------

/// Whether bit `k` of `w` is set.
pub open spec fn word_bit(w: u64, k: u64) -> bool {
    w & (1u64 << k) != 0u64
}

proof fn lemma_or_bit(w: u64, k: u64, j: u64)
    by (bit_vector)
    requires
        k < 64,
        j < 64,
    ensures
        word_bit(w | (1u64 << k), j) == (j == k || word_bit(w, j)),
{
}

proof fn lemma_zero_bit(j: u64)
    by (bit_vector)
    requires
        j < 64,
    ensures
        !word_bit(0u64, j),
{
}

/// The number of `true` entries of `s`.
pub open spec fn count_true(s: Seq<bool>) -> nat
    decreases s.len(),
{
    if s.len() == 0 {
        0
    } else {
        count_true(s.drop_last()) + if s.last() {
            1nat
        } else {
            0nat
        }
    }
}

/// A count of `true` entries is at most the length.
pub proof fn lemma_count_true_le(s: Seq<bool>)
    ensures
        count_true(s) <= s.len(),
    decreases s.len(),
{
    if s.len() > 0 {
        lemma_count_true_le(s.drop_last());
    }
}

/// Setting a clear entry raises the count by one.
pub proof fn lemma_count_true_set(s: Seq<bool>, k: int)
    requires
        0 <= k < s.len(),
        !s[k],
    ensures
        count_true(s.update(k, true)) == count_true(s) + 1,
    decreases s.len(),
{
    if k == s.len() - 1 {
        assert(s.update(k, true).drop_last() =~= s.drop_last());
    } else {
        assert(s.update(k, true).drop_last() =~= s.drop_last().update(k, true));
        lemma_count_true_set(s.drop_last(), k);
    }
}

/// A fixed-size bit set, one bit per arena slot.
#[derive(Debug, Clone)]
pub struct BitSet {
    words: Vec<u64>,
    len: usize,
}

impl View for BitSet {
    type V = Seq<bool>;

    closed spec fn view(&self) -> Seq<bool> {
        Seq::new(
            self.len as nat,
            |i: int| word_bit(self.words@[i / 64], (i % 64) as u64),
        )
    }
}

impl BitSet {
    /// Enough words for every bit.
    pub closed spec fn wf(&self) -> bool {
        self.len <= self.words@.len() * 64
    }

    /// An all-clear set of `len` bits.
    pub(crate) fn new(len: usize) -> (r: BitSet)
        ensures
            r.wf(),
            r@.len() == len,
            forall|i: int| 0 <= i < len ==> !#[trigger] r@[i],
    {
        let nwords: usize = len / 64 + if len % 64 == 0 {
            0
        } else {
            1
        };
        assert(len <= nwords * 64) by (nonlinear_arith)
            requires
                nwords == len / 64 + if len % 64 == 0 {
                    0int
                } else {
                    1int
                },
        ;
        let mut words: Vec<u64> = Vec::new();
        let mut k: usize = 0;
        while k < nwords
            invariant
                k <= nwords,
                words@.len() == k,
                forall|j: int| 0 <= j < k ==> words@[j] == 0u64,
            decreases nwords - k,
        {
            words.push(0u64);
            k = k + 1;
        }
        let r = BitSet { words, len };
        assert forall|i: int| 0 <= i < len implies !#[trigger] r@[i] by {
            assert(0 <= i / 64 < nwords) by (nonlinear_arith)
                requires
                    0 <= i < len,
                    len <= nwords * 64,
            ;
            lemma_zero_bit((i % 64) as u64);
        }
        r
    }

    proof fn lemma_index(&self, i: int)
        requires
            self.wf(),
            0 <= i < self.len,
        ensures
            0 <= i / 64 < self.words@.len(),
            0 <= i % 64 < 64,
    {
        let n = self.words@.len();
        assert(0 <= i / 64 < n) by (nonlinear_arith)
            requires
                0 <= i < self.len,
                self.len <= n * 64,
        ;
    }

    /// Set bit `i`; answer whether it was clear before.
    pub(crate) fn set(&mut self, i: usize) -> (was_clear: bool)
        requires
            old(self).wf(),
            i < old(self)@.len(),
        ensures
            final(self).wf(),
            final(self)@ == old(self)@.update(i as int, true),
            was_clear == !old(self)@[i as int],
    {
        proof {
            self.lemma_index(i as int);
        }
        let w = i / 64;
        let k = (i % 64) as u64;
        let mask = 1u64 << k;
        let word = self.words[w];
        let was_clear = word & mask == 0u64;
        self.words.set(w, word | mask);
        proof {
            let o = old(self);
            assert forall|j: int| 0 <= j < self.len implies #[trigger] self@[j] == o@.update(
                i as int,
                true,
            )[j] by {
                self.lemma_index(j);
                if j / 64 == w as int {
                    lemma_or_bit(word, k, (j % 64) as u64);
                    assert((j == i) == (j % 64 == k as int)) by (nonlinear_arith)
                        requires
                            j / 64 == i / 64,
                            0 <= j,
                            0 <= i,
                            k == i % 64,
                    ;
                }
            }
            assert(self@ =~= o@.update(i as int, true));
        }
        was_clear
    }

    /// Bit `i`.
    pub fn get(&self, i: usize) -> (r: bool)
        requires
            self.wf(),
            i < self@.len(),
        ensures
            r == self@[i as int],
    {
        proof {
            self.lemma_index(i as int);
        }
        self.words[i / 64] & (1u64 << ((i % 64) as u64)) != 0u64
    }

    /// The number of set bits.
    fn count_ones(&self) -> (r: usize)
        requires
            self.wf(),
        ensures
            r == count_true(self@),
    {
        let mut count: usize = 0;
        let mut i: usize = 0;
        while i < self.len
            invariant
                self.wf(),
                i <= self.len,
                self@.len() == self.len,
                count == count_true(self@.take(i as int)),
                count <= i,
            decreases self.len - i,
        {
            proof {
                assert(self@.take(i + 1).drop_last() =~= self@.take(i as int));
            }
            if self.get(i) {
                count = count + 1;
            }
            i = i + 1;
        }
        proof {
            assert(self@.take(i as int) =~= self@);
        }
        count
    }
}

// ---------------------------------------------------------------------------
// Mark bits and counts
// ---------------------------------------------------------------------------

/// Mark bits for the four arenas, sized to the arena lengths when a
/// collection starts.
#[derive(Debug, Clone)]
pub struct MarkBits {
    pub pairs: BitSet,
    pub vectors: BitSet,
    pub strings: BitSet,
    pub objects: BitSet,
}

/// Per-arena slot counts.
#[derive(Debug, Clone, Copy, PartialEq, Eq, Structural)]
pub struct ArenaCounts {
    pub pairs: usize,
    pub vectors: usize,
    pub strings: usize,
    pub objects: usize,
}

impl Default for ArenaCounts {
    fn default() -> (r: ArenaCounts)
        ensures
            r.pairs == 0 && r.vectors == 0 && r.strings == 0 && r.objects == 0,
    {
        ArenaCounts { pairs: 0, vectors: 0, strings: 0, objects: 0 }
    }
}

impl ArenaCounts {
    /// The sum of the four counts.
    pub open spec fn spec_total(&self) -> int {
        self.pairs + self.vectors + self.strings + self.objects
    }

    /// The sum of the four counts.
    pub fn total(&self) -> (r: usize)
        requires
            self.spec_total() <= usize::MAX,
        ensures
            r == self.spec_total(),
    {
        self.pairs + self.vectors + self.strings + self.objects
    }
}

/// Collector statistics: a running count and a snapshot of the last
/// collection.
#[derive(Debug, Clone, Copy)]
pub struct GcStats {
    /// Collections performed.
    pub collections: u64,
    /// Slots found live by the last collection.
    pub last_marked: ArenaCounts,
    /// Slots reclaimed by the last collection.
    pub last_swept: ArenaCounts,
    /// Duration of the last collection in microseconds.
    pub last_pause_micros: u128,
}

impl Default for GcStats {
    fn default() -> (r: GcStats)
        ensures
            r.collections == 0,
            r.last_marked.spec_total() == 0,
            r.last_swept.spec_total() == 0,
            r.last_pause_micros == 0,
    {
        GcStats {
            collections: 0,
            last_marked: ArenaCounts::default(),
            last_swept: ArenaCounts::default(),
            last_pause_micros: 0,
        }
    }
}

impl MarkBits {
    /// Each bit set is well formed and as long as its arena.
    pub open spec fn sized_for(&self, heap: &Heap) -> bool {
        &&& self.pairs.wf()
        &&& self.vectors.wf()
        &&& self.strings.wf()
        &&& self.objects.wf()
        &&& self.pairs@.len() == heap.pair_slots().len()
        &&& self.vectors@.len() == heap.vector_slots().len()
        &&& self.strings@.len() == heap.string_slots().len()
        &&& self.objects@.len() == heap.object_slots().len()
    }

    /// Whether the slot `tv` refers to is marked; immediates count as
    /// marked.
    pub open spec fn is_marked(&self, tv: TaggedValue) -> bool {
        match tv {
            TaggedValue::Pair(i) => self.pairs@[i as int],
            TaggedValue::Vector(i) => self.vectors@[i as int],
            TaggedValue::Str(i) => self.strings@[i as int],
            TaggedValue::Object(i) => self.objects@[i as int],
            _ => true,
        }
    }

    /// Marked slots over all arenas.
    pub open spec fn marked_count(&self) -> nat {
        count_true(self.pairs@) + count_true(self.vectors@) + count_true(self.strings@)
            + count_true(self.objects@)
    }

    /// All-clear mark bits for `heap`.
    fn for_heap(heap: &Heap) -> (r: MarkBits)
        ensures
            r.sized_for(heap),
            forall|tv: TaggedValue|
                heap.valid_value(tv) && tv.is_heap_ref() ==> !#[trigger] r.is_marked(tv),
    {
        MarkBits {
            pairs: BitSet::new(heap.pairs.len()),
            vectors: BitSet::new(heap.vectors.len()),
            strings: BitSet::new(heap.strings.len()),
            objects: BitSet::new(heap.objects.len()),
        }
    }

    /// Live slots per arena.
    pub fn marked(&self) -> (r: ArenaCounts)
        requires
            self.pairs.wf(),
            self.vectors.wf(),
            self.strings.wf(),
            self.objects.wf(),
        ensures
            r.pairs == count_true(self.pairs@),
            r.vectors == count_true(self.vectors@),
            r.strings == count_true(self.strings@),
            r.objects == count_true(self.objects@),
    {
        ArenaCounts {
            pairs: self.pairs.count_ones(),
            vectors: self.vectors.count_ones(),
            strings: self.strings.count_ones(),
            objects: self.objects.count_ones(),
        }
    }
}

// ---------------------------------------------------------------------------
// Reachability
// ---------------------------------------------------------------------------

impl Heap {
    /// The values held by the slot `tv` refers to: what marking follows.
    pub open spec fn children(&self, tv: TaggedValue) -> Seq<TaggedValue> {
        match tv {
            TaggedValue::Pair(i) => seq![
                self.pair_slots()[i as int].0,
                self.pair_slots()[i as int].1,
            ],
            TaggedValue::Vector(i) => self.vector_slots()[i as int],
            TaggedValue::Object(i) => object_children(self.object_slots()[i as int]),
            _ => Seq::empty(),
        }
    }

    /// The values reachable from `roots` in at most `n` steps.
    pub open spec fn reach_set(&self, roots: Set<TaggedValue>, n: nat) -> Set<TaggedValue>
        decreases n,
    {
        if n == 0 {
            roots
        } else {
            let prev = self.reach_set(roots, (n - 1) as nat);
            prev.union(
                Set::new(
                    |c: TaggedValue|
                        exists|p: TaggedValue|
                            prev.contains(p) && #[trigger] self.children(p).contains(c),
                ),
            )
        }
    }

    /// `tv` can be reached from `roots` by following stored values.
    pub open spec fn reachable(&self, roots: Set<TaggedValue>, tv: TaggedValue) -> bool {
        exists|n: nat| #[trigger] self.reach_set(roots, n).contains(tv)
    }

    /// The roots of a collection: the given values and every interned
    /// symbol.
    pub open spec fn gc_root_set(&self, roots: Seq<TaggedValue>) -> Set<TaggedValue> {
        roots.to_set().union(self.symbol_roots())
    }

    /// The interned symbols as values.
    pub open spec fn symbol_roots(&self) -> Set<TaggedValue> {
        Set::new(
            |tv: TaggedValue|
                exists|k: int|
                    0 <= k < self.symbol_indices().len() && tv == TaggedValue::Object(
                        #[trigger] self.symbol_indices()[k],
                    ),
        )
    }

    /// Which pair slots are reachable from `roots`.
    pub open spec fn live_pairs(&self, roots: Set<TaggedValue>) -> Seq<bool> {
        Seq::new(
            self.pair_slots().len(),
            |i: int| self.reachable(roots, TaggedValue::Pair(i as HeapIndex)),
        )
    }

    /// Which vector slots are reachable from `roots`.
    pub open spec fn live_vectors(&self, roots: Set<TaggedValue>) -> Seq<bool> {
        Seq::new(
            self.vector_slots().len(),
            |i: int| self.reachable(roots, TaggedValue::Vector(i as HeapIndex)),
        )
    }

    /// Which string slots are reachable from `roots`.
    pub open spec fn live_strings(&self, roots: Set<TaggedValue>) -> Seq<bool> {
        Seq::new(
            self.string_slots().len(),
            |i: int| self.reachable(roots, TaggedValue::Str(i as HeapIndex)),
        )
    }

    /// Which object slots are reachable from `roots`.
    pub open spec fn live_objects(&self, roots: Set<TaggedValue>) -> Seq<bool> {
        Seq::new(
            self.object_slots().len(),
            |i: int| self.reachable(roots, TaggedValue::Object(i as HeapIndex)),
        )
    }

    /// In a well-formed heap the children of a valid value are valid.
    pub proof fn lemma_children_valid(&self, tv: TaggedValue)
        requires
            self.wf(),
            self.valid_value(tv),
        ensures
            self.all_valid(self.children(tv)),
    {
        match tv {
            TaggedValue::Pair(i) => {
                let p = self.pair_slots()[i as int];
                assert(self.valid_value(p.0) && self.valid_value(p.1));
            },
            TaggedValue::Vector(i) => {
                assert(self.all_valid(self.vector_slots()[i as int]));
            },
            TaggedValue::Object(i) => {
                assert(self.all_valid(object_children(self.object_slots()[i as int])));
            },
            _ => {},
        }
    }

    /// A child of a reachable value is reachable.
    pub proof fn lemma_child_reachable(
        &self,
        roots: Set<TaggedValue>,
        p: TaggedValue,
        c: TaggedValue,
    )
        requires
            self.reachable(roots, p),
            self.children(p).contains(c),
        ensures
            self.reachable(roots, c),
    {
        let n = choose|n: nat| #[trigger] self.reach_set(roots, n).contains(p);
        let m = (n + 1) as nat;
        assert((m - 1) as nat == n);
        assert(self.reach_set(roots, m).contains(c));
    }

    /// Reachability only grows with the root set.
    pub proof fn lemma_reach_set_mono(
        &self,
        roots: Set<TaggedValue>,
        more: Set<TaggedValue>,
        n: nat,
    )
        requires
            roots.subset_of(more),
        ensures
            self.reach_set(roots, n).subset_of(self.reach_set(more, n)),
        decreases n,
    {
        if n > 0 {
            self.lemma_reach_set_mono(roots, more, (n - 1) as nat);
        }
    }

    /// Reachability only grows with the root set.
    pub proof fn lemma_reachable_mono(
        &self,
        roots: Set<TaggedValue>,
        more: Set<TaggedValue>,
        tv: TaggedValue,
    )
        requires
            roots.subset_of(more),
            self.reachable(roots, tv),
        ensures
            self.reachable(more, tv),
    {
        let n = choose|n: nat| #[trigger] self.reach_set(roots, n).contains(tv);
        self.lemma_reach_set_mono(roots, more, n);
        assert(self.reach_set(more, n).contains(tv));
    }
}

// ---------------------------------------------------------------------------
// Marking
// ---------------------------------------------------------------------------

/// Every child of `tv` is marked.
pub open spec fn children_marked(h: &Heap, m: &MarkBits, tv: TaggedValue) -> bool {
    forall|k: int| 0 <= k < h.children(tv).len() ==> m.is_marked(#[trigger] h.children(tv)[k])
}

/// A worklist entry: a marked, valid reference to a slot that may have
/// children.
pub open spec fn queued_ok(h: &Heap, m: &MarkBits, tv: TaggedValue) -> bool {
    &&& (tv is Pair || tv is Vector || tv is Object)
    &&& h.valid_value(tv)
    &&& m.is_marked(tv)
}

/// `m2` is `m` with the slot of `tv` marked as well.
pub open spec fn marks_add(h: &Heap, m: &MarkBits, m2: &MarkBits, tv: TaggedValue) -> bool {
    &&& m2.sized_for(h)
    &&& forall|x: TaggedValue|
        h.valid_value(x) ==> (#[trigger] m2.is_marked(x) == (m.is_marked(x) || x == tv))
}

/// Marking state handed to whatever supplies roots: the heap, the mark bits,
/// and the marked slots whose children are still to be visited.
pub struct GcVisitor<'h> {
    heap: &'h Heap,
    marks: MarkBits,
    worklist: Vec<TaggedValue>,
    roots: Ghost<Set<TaggedValue>>,
}

impl<'h> GcVisitor<'h> {
    /// The heap being marked.
    pub closed spec fn spec_heap(&self) -> Heap {
        *self.heap
    }

    /// The mark bits so far.
    pub closed spec fn spec_marks(&self) -> MarkBits {
        self.marks
    }

    /// The roots visited so far.
    pub closed spec fn visited_roots(&self) -> Set<TaggedValue> {
        self.roots@
    }

    /// Marked slots whose children are still to be visited.
    pub closed spec fn queue(&self) -> Seq<TaggedValue> {
        self.worklist@
    }

    /// The marking invariant, except that the children of `skip` may still
    /// be unmarked: only reachable slots are marked, and a marked slot off
    /// the worklist has its children marked.
    pub closed spec fn inv_except(&self, skip: Option<TaggedValue>) -> bool {
        let h = *self.heap;
        let m = self.marks;
        let wl = self.worklist@;
        &&& h.wf()
        &&& m.sized_for(&h)
        &&& forall|k: int| 0 <= k < wl.len() ==> queued_ok(&h, &m, #[trigger] wl[k])
        &&& forall|tv: TaggedValue|
            h.valid_value(tv) && tv.is_heap_ref() && #[trigger] m.is_marked(tv) ==> h.reachable(
                self.roots@,
                tv,
            )
        &&& forall|tv: TaggedValue|
            h.valid_value(tv) && tv.is_heap_ref() && #[trigger] m.is_marked(tv) && !wl.contains(tv)
                && skip != Some(tv) ==> children_marked(&h, &m, tv)
    }

    /// Every visited root is valid and marked.
    pub closed spec fn roots_marked(&self) -> bool {
        forall|tv: TaggedValue|
            #[trigger] self.roots@.contains(tv) ==> self.heap.valid_value(tv)
                && self.marks.is_marked(tv)
    }

    /// The full marking invariant.
    pub open spec fn inv(&self) -> bool {
        self.inv_except(None) && self.roots_marked()
    }

    /// A measure that every marking step lowers: unmarked slots count
    /// twice, queued slots once.
    pub closed spec fn progress(&self) -> int {
        2 * (self.heap.slot_total() - self.marks.marked_count()) + self.worklist@.len()
    }

    proof fn lemma_progress_nonneg(&self)
        requires
            self.marks.sized_for(self.heap),
        ensures
            self.progress() >= 0,
    {
        lemma_count_true_le(self.marks.pairs@);
        lemma_count_true_le(self.marks.vectors@);
        lemma_count_true_le(self.marks.strings@);
        lemma_count_true_le(self.marks.objects@);
    }

    /// A visitor over `heap` with nothing marked.
    pub fn new(heap: &'h Heap) -> (r: GcVisitor<'h>)
        requires
            heap.wf(),
        ensures
            r.inv(),
            r.spec_heap() == *heap,
            r.visited_roots() == Set::<TaggedValue>::empty(),
            r.queue().len() == 0,
    {
        GcVisitor {
            heap,
            marks: MarkBits::for_heap(heap),
            worklist: Vec::new(),
            roots: Ghost(Set::empty()),
        }
    }

    /// Mark `tv`'s slot and queue it if it was unmarked and may have
    /// children.
    fn mark(&mut self, tv: TaggedValue, Ghost(skip): Ghost<Option<TaggedValue>>)
        requires
            old(self).inv_except(skip),
            old(self).heap.valid_value(tv),
            tv.is_heap_ref() ==> old(self).heap.reachable(old(self).roots@, tv),
        ensures
            final(self).inv_except(skip),
            final(self).heap == old(self).heap,
            final(self).roots == old(self).roots,
            final(self).marks.is_marked(tv),
            forall|x: TaggedValue|
                final(self).heap.valid_value(x) && #[trigger] old(self).marks.is_marked(x)
                    ==> final(self).marks.is_marked(x),
            old(self).roots_marked() ==> final(self).roots_marked(),
            final(self).progress() <= old(self).progress(),
    {
        let ghost h = *self.heap;
        let ghost m0 = self.marks;
        let ghost wl0 = self.worklist@;
        let mut newly = false;
        match tv {
            TaggedValue::Pair(i) => {
                newly = self.marks.pairs.set(i as usize);
                if newly {
                    self.worklist.push(tv);
                }
                proof {
                    if newly {
                        lemma_count_true_set(m0.pairs@, i as int);
                    } else {
                        assert(self.marks.pairs@ =~= m0.pairs@);
                    }
                }
            },
            TaggedValue::Vector(i) => {
                newly = self.marks.vectors.set(i as usize);
                if newly {
                    self.worklist.push(tv);
                }
                proof {
                    if newly {
                        lemma_count_true_set(m0.vectors@, i as int);
                    } else {
                        assert(self.marks.vectors@ =~= m0.vectors@);
                    }
                }
            },
            TaggedValue::Str(i) => {
                newly = self.marks.strings.set(i as usize);
                proof {
                    if newly {
                        lemma_count_true_set(m0.strings@, i as int);
                    } else {
                        assert(self.marks.strings@ =~= m0.strings@);
                    }
                }
            },
            TaggedValue::Object(i) => {
                newly = self.marks.objects.set(i as usize);
                if newly {
                    self.worklist.push(tv);
                }
                proof {
                    if newly {
                        lemma_count_true_set(m0.objects@, i as int);
                    } else {
                        assert(self.marks.objects@ =~= m0.objects@);
                    }
                }
            },
            _ => {},
        }
        proof {
            let m = self.marks;
            let wl = self.worklist@;
            assert(marks_add(&h, &m0, &m, tv));
            assert(newly ==> !m0.is_marked(tv));
            assert(wl == wl0 || (wl == wl0.push(tv) && newly));
            assert(newly && !(tv is Str) ==> wl == wl0.push(tv));
            assert forall|x: TaggedValue| wl0.contains(x) implies wl.contains(x) by {
                let j = choose|j: int| 0 <= j < wl0.len() && wl0[j] == x;
                assert(wl[j] == x);
            }
            assert forall|k: int| 0 <= k < wl.len() implies queued_ok(&h, &m, #[trigger] wl[k]) by {
                if k < wl0.len() {
                    assert(wl[k] == wl0[k]);
                    assert(queued_ok(&h, &m0, wl0[k]));
                }
            }
            assert forall|x: TaggedValue|
                h.valid_value(x) && x.is_heap_ref() && #[trigger] m.is_marked(x) implies h.reachable(
                self.roots@,
                x,
            ) by {
                if x != tv {
                    assert(m0.is_marked(x));
                }
            }
            assert forall|x: TaggedValue|
                h.valid_value(x) && x.is_heap_ref() && #[trigger] m.is_marked(x) && !wl.contains(
                    x,
                ) && skip != Some(x) implies children_marked(&h, &m, x) by {
                h.lemma_children_valid(x);
                if x != tv || !newly {
                    assert(m0.is_marked(x));
                    assert(!wl0.contains(x));
                    assert(children_marked(&h, &m0, x));
                    assert forall|k: int| 0 <= k < h.children(x).len() implies m.is_marked(
                        #[trigger] h.children(x)[k],
                    ) by {
                        assert(h.valid_value(h.children(x)[k]));
                    }
                } else if !(tv is Str) {
                    assert(wl[wl0.len() as int] == tv);
                }
            }
            if old(self).roots_marked() {
                assert forall|x: TaggedValue| #[trigger] self.roots@.contains(x) implies h.valid_value(x)
                    && m.is_marked(x) by {
                    assert(m0.is_marked(x));
                }
            }
            self.lemma_progress_nonneg();
        }
    }

    /// Mark every value of `values`.
    fn mark_each(&mut self, values: &Vec<TaggedValue>, Ghost(skip): Ghost<Option<TaggedValue>>)
        requires
            old(self).inv_except(skip),
            forall|j: int|
                0 <= j < values@.len() ==> old(self).heap.valid_value(#[trigger] values@[j]),
            forall|j: int|
                0 <= j < values@.len() && (#[trigger] values@[j]).is_heap_ref() ==> old(
                    self,
                ).heap.reachable(old(self).roots@, values@[j]),
        ensures
            final(self).inv_except(skip),
            final(self).heap == old(self).heap,
            final(self).roots == old(self).roots,
            forall|j: int| 0 <= j < values@.len() ==> final(self).marks.is_marked(#[trigger] values@[j]),
            forall|x: TaggedValue|
                final(self).heap.valid_value(x) && #[trigger] old(self).marks.is_marked(x)
                    ==> final(self).marks.is_marked(x),
            old(self).roots_marked() ==> final(self).roots_marked(),
            final(self).progress() <= old(self).progress(),
    {
        let ghost h = *self.heap;
        let mut k: usize = 0;
        while k < values.len()
            invariant
                self.inv_except(skip),
                *self.heap == h,
                self.roots == old(self).roots,
                h == *old(self).heap,
                k <= values@.len(),
                forall|j: int| 0 <= j < values@.len() ==> h.valid_value(#[trigger] values@[j]),
                forall|j: int|
                    0 <= j < values@.len() && (#[trigger] values@[j]).is_heap_ref() ==> h.reachable(
                        self.roots@,
                        values@[j],
                    ),
                forall|j: int| 0 <= j < k ==> self.marks.is_marked(#[trigger] values@[j]),
                forall|x: TaggedValue|
                    h.valid_value(x) && #[trigger] old(self).marks.is_marked(x)
                        ==> self.marks.is_marked(x),
                old(self).roots_marked() ==> self.roots_marked(),
                self.progress() <= old(self).progress(),
            decreases values@.len() - k,
        {
            let ghost m_before = self.marks;
            self.mark(values[k], Ghost(skip));
            proof {
                assert forall|j: int| 0 <= j < k implies self.marks.is_marked(
                    #[trigger] values@[j],
                ) by {
                    assert(m_before.is_marked(values@[j]));
                }
                assert forall|x: TaggedValue|
                    h.valid_value(x) && #[trigger] old(self).marks.is_marked(x) implies self.marks.is_marked(
                    x,
                ) by {
                    assert(m_before.is_marked(x));
                }
            }
            k = k + 1;
        }
    }

    /// Visit a root: mark its slot and queue it. Immediates need nothing.
    pub fn visit(&mut self, tv: TaggedValue)
        requires
            old(self).inv(),
            old(self).spec_heap().valid_value(tv),
        ensures
            final(self).inv(),
            final(self).spec_heap() == old(self).spec_heap(),
            final(self).visited_roots() == old(self).visited_roots().insert(tv),
    {
        let ghost h = *self.heap;
        let ghost r0 = self.roots@;
        self.roots = Ghost(self.roots@.insert(tv));
        proof {
            assert forall|x: TaggedValue|
                h.valid_value(x) && x.is_heap_ref() && #[trigger] self.marks.is_marked(
                    x,
                ) implies h.reachable(self.roots@, x) by {
                h.lemma_reachable_mono(r0, self.roots@, x);
            }
            assert(self.roots@.contains(tv));
            assert(h.reach_set(self.roots@, 0).contains(tv));
        }
        self.mark(tv, Ghost(None));
        proof {
            assert forall|x: TaggedValue| #[trigger] self.roots@.contains(x) implies h.valid_value(x)
                && self.marks.is_marked(x) by {
                if x != tv {
                    assert(r0.contains(x));
                }
            }
        }
    }

    /// Visit every value of `values` as a root.
    pub fn visit_slice(&mut self, values: &[TaggedValue])
        requires
            old(self).inv(),
            old(self).spec_heap().all_valid(values@),
        ensures
            final(self).inv(),
            final(self).spec_heap() == old(self).spec_heap(),
            final(self).visited_roots() == old(self).visited_roots().union(values@.to_set()),
    {
        let mut k: usize = 0;
        while k < values.len()
            invariant
                self.inv(),
                self.spec_heap() == old(self).spec_heap(),
                self.spec_heap().all_valid(values@),
                k <= values@.len(),
                self.visited_roots() == old(self).visited_roots().union(
                    values@.take(k as int).to_set(),
                ),
            decreases values@.len() - k,
        {
            self.visit(values[k]);
            proof {
                let prev = values@.take(k as int);
                let next = values@.take(k + 1);
                assert(next =~= prev.push(values@[k as int]));
                assert forall|a: TaggedValue| #[trigger] next.contains(a) == (prev.contains(a) || a
                    == values@[k as int]) by {
                    if next.contains(a) {
                        let j = choose|j: int| 0 <= j < next.len() && next[j] == a;
                        if j < prev.len() {
                            assert(prev[j] == a);
                        }
                    }
                    if prev.contains(a) {
                        let j = choose|j: int| 0 <= j < prev.len() && prev[j] == a;
                        assert(next[j] == a);
                    }
                    if a == values@[k as int] {
                        assert(next[k as int] == a);
                    }
                }
                assert(values@.take(k + 1).to_set() =~= values@.take(k as int).to_set().insert(
                    values@[k as int],
                ));
                assert(self.visited_roots() =~= old(self).visited_roots().union(
                    values@.take(k + 1).to_set(),
                ));
            }
            k = k + 1;
        }
        proof {
            assert(values@.take(k as int) =~= values@);
        }
    }

    /// Visit an object-arena slot given by index as a root.
    pub fn visit_object_index(&mut self, index: HeapIndex)
        requires
            old(self).inv(),
            index < old(self).spec_heap().object_slots().len(),
        ensures
            final(self).inv(),
            final(self).spec_heap() == old(self).spec_heap(),
            final(self).visited_roots() == old(self).visited_roots().insert(
                TaggedValue::Object(index),
            ),
    {
        self.visit(TaggedValue::object(index));
    }

    /// Visit every interned symbol as a root: symbols keep their identity
    /// and are never collected.
    fn trace_symbol_table(&mut self)
        requires
            old(self).inv(),
        ensures
            final(self).inv(),
            final(self).spec_heap() == old(self).spec_heap(),
            final(self).visited_roots() == old(self).visited_roots().union(
                old(self).spec_heap().symbol_roots(),
            ),
    {
        let heap = self.heap;
        let ghost h = *heap;
        let mut k: usize = 0;
        while k < heap.symbol_table.len()
            invariant
                self.inv(),
                *self.heap == h,
                h == *heap,
                h == old(self).spec_heap(),
                k <= h.symbol_indices().len(),
                self.visited_roots() == old(self).visited_roots().union(
                    Set::new(
                        |tv: TaggedValue|
                            exists|j: int|
                                0 <= j < k && tv == TaggedValue::Object(
                                    #[trigger] h.symbol_indices()[j],
                                ),
                    ),
                ),
            decreases h.symbol_indices().len() - k,
        {
            let index = heap.symbol_table[k];
            assert(h.symbol_indices()[k as int] == index);
            self.visit_object_index(index);
            proof {
                let prev = Set::new(
                    |tv: TaggedValue|
                        exists|j: int|
                            0 <= j < k && tv == TaggedValue::Object(
                                #[trigger] h.symbol_indices()[j],
                            ),
                );
                let next = Set::new(
                    |tv: TaggedValue|
                        exists|j: int|
                            0 <= j < k + 1 && tv == TaggedValue::Object(
                                #[trigger] h.symbol_indices()[j],
                            ),
                );
                assert forall|tv: TaggedValue| next.contains(tv) implies #[trigger] prev.insert(
                    TaggedValue::Object(index),
                ).contains(tv) by {
                    let j = choose|j: int|
                        0 <= j < k + 1 && tv == TaggedValue::Object(
                            #[trigger] h.symbol_indices()[j],
                        );
                    if j < k {
                        assert(prev.contains(tv));
                    }
                }
                assert forall|tv: TaggedValue| prev.insert(TaggedValue::Object(index)).contains(
                    tv,
                ) implies #[trigger] next.contains(tv) by {
                    if tv == TaggedValue::Object(index) {
                        assert(tv == TaggedValue::Object(h.symbol_indices()[k as int]));
                    } else {
                        let j = choose|j: int|
                            0 <= j < k && tv == TaggedValue::Object(
                                #[trigger] h.symbol_indices()[j],
                            );
                        assert(0 <= j < k + 1);
                    }
                }
                assert(next =~= prev.insert(TaggedValue::Object(index)));
                assert(self.visited_roots() =~= old(self).visited_roots().union(next));
            }
            k = k + 1;
        }
        proof {
            assert(Set::new(
                |tv: TaggedValue|
                    exists|j: int|
                        0 <= j < k && tv == TaggedValue::Object(#[trigger] h.symbol_indices()[j]),
            ) =~= h.symbol_roots());
        }
    }

    /// Mark the children of a queued slot.
    fn trace_children(&mut self, tv: TaggedValue)
        requires
            old(self).inv_except(Some(tv)),
            old(self).roots_marked(),
            queued_ok(old(self).heap, &old(self).marks, tv),
        ensures
            final(self).inv(),
            final(self).heap == old(self).heap,
            final(self).roots == old(self).roots,
            final(self).progress() <= old(self).progress(),
    {
        let heap = self.heap;
        let ghost h = *heap;
        let ghost roots = self.roots@;
        proof {
            assert(h.reachable(roots, tv));
            h.lemma_children_valid(tv);
            assert forall|k: int| 0 <= k < h.children(tv).len() implies h.reachable(
                roots,
                #[trigger] h.children(tv)[k],
            ) by {
                assert(h.children(tv).contains(h.children(tv)[k]));
                h.lemma_child_reachable(roots, tv, h.children(tv)[k]);
            }
        }
        let idx = tv.heap_index() as usize;
        match tv {
            TaggedValue::Pair(_) => {
                let pair = heap.pairs[idx];
                assert(h.children(tv)[0] == pair.0 && h.children(tv)[1] == pair.1);
                self.mark(pair.0, Ghost(Some(tv)));
                let ghost m_mid = self.marks;
                self.mark(pair.1, Ghost(Some(tv)));
                proof {
                    assert(m_mid.is_marked(pair.0));
                    assert(children_marked(&h, &self.marks, tv));
                }
            },
            TaggedValue::Vector(_) => {
                let values = &heap.vectors[idx];
                assert(values@ == h.vector_slots()[idx as int]);
                self.mark_each(values, Ghost(Some(tv)));
            },
            TaggedValue::Object(_) => {
                self.trace_object_children(&heap.objects[idx], Ghost(tv));
            },
            _ => {},
        }
        proof {
            let m = self.marks;
            let wl = self.worklist@;
            assert(children_marked(&h, &m, tv));
            assert forall|x: TaggedValue|
                h.valid_value(x) && x.is_heap_ref() && #[trigger] m.is_marked(x) && !wl.contains(x)
                    && None::<TaggedValue> != Some(x) implies children_marked(&h, &m, x) by {
                if x != tv {
                    assert(Some(tv) != Some(x));
                }
            }
        }
    }

    /// Mark the values an object holds.
    fn trace_object_children(&mut self, data: &HeapObjectData, Ghost(tv): Ghost<TaggedValue>)
        requires
            old(self).inv_except(Some(tv)),
            old(self).roots_marked(),
            tv is Object,
            *data == old(self).heap.object_slots()[tv.spec_heap_index() as int],
            old(self).heap.all_valid(old(self).heap.children(tv)),
            forall|k: int|
                0 <= k < old(self).heap.children(tv).len() ==> old(self).heap.reachable(
                    old(self).roots@,
                    #[trigger] old(self).heap.children(tv)[k],
                ),
        ensures
            final(self).inv_except(Some(tv)),
            final(self).roots_marked(),
            final(self).heap == old(self).heap,
            final(self).roots == old(self).roots,
            children_marked(final(self).heap, &final(self).marks, tv),
            final(self).progress() <= old(self).progress(),
    {
        let ghost h = *self.heap;
        let ghost ch = h.children(tv);
        assert(ch == object_children(*data));
        match data {
            HeapObjectData::Complex { real: re, imag: im } => {
                assert(ch[0] == *re && ch[1] == *im);
                self.mark(*re, Ghost(Some(tv)));
                let ghost m_mid = self.marks;
                self.mark(*im, Ghost(Some(tv)));
                proof {
                    assert(m_mid.is_marked(*re));
                }
            },
            HeapObjectData::Exception { irritants, .. } => {
                self.mark_each(irritants, Ghost(Some(tv)));
            },
            HeapObjectData::Record { fields, .. } => {
                self.mark_each(fields, Ghost(Some(tv)));
            },
            HeapObjectData::Parameter { values, converter } => {
                assert forall|j: int| 0 <= j < values@.len() implies #[trigger] values@[j] == ch[j] by {
                    match converter {
                        Some(c) => {
                            assert(ch == values@.push(*c));
                        },
                        None => {},
                    }
                }
                self.mark_each(values, Ghost(Some(tv)));
                match converter {
                    Some(c) => {
                        assert(ch == values@.push(*c));
                        assert(ch[values@.len() as int] == *c);
                        let ghost m_mid = self.marks;
                        self.mark(*c, Ghost(Some(tv)));
                        proof {
                            assert forall|k: int| 0 <= k < ch.len() implies self.marks.is_marked(
                                #[trigger] ch[k],
                            ) by {
                                if k < values@.len() {
                                    assert(ch[k] == values@[k]);
                                    assert(m_mid.is_marked(values@[k]));
                                }
                            }
                        }
                    },
                    None => {},
                }
            },
            HeapObjectData::Promise(state) => {
                match state {
                    crate::heap::PromiseState::Delayed(v) => {
                        assert(ch[0] == *v);
                        self.mark(*v, Ghost(Some(tv)));
                    },
                    crate::heap::PromiseState::Forced(v) => {
                        assert(ch[0] == *v);
                        self.mark(*v, Ghost(Some(tv)));
                    },
                }
            },
            HeapObjectData::Values(values) => {
                self.mark_each(values, Ghost(Some(tv)));
            },
            HeapObjectData::MutableCell(v) => {
                assert(ch[0] == *v);
                self.mark(*v, Ghost(Some(tv)));
            },
            HeapObjectData::VmClosure { free_vars, .. } => {
                self.mark_each(free_vars, Ghost(Some(tv)));
            },
            _ => {},
        }
    }

    /// Mark from the queued slots until nothing is left to visit.
    fn drain(&mut self)
        requires
            old(self).inv(),
        ensures
            final(self).inv(),
            final(self).spec_heap() == old(self).spec_heap(),
            final(self).visited_roots() == old(self).visited_roots(),
            final(self).queue().len() == 0,
    {
        proof {
            self.lemma_progress_nonneg();
        }
        while self.worklist.len() > 0
            invariant
                self.inv(),
                self.heap == old(self).heap,
                self.roots == old(self).roots,
                self.progress() >= 0,
            decreases self.progress(),
        {
            let ghost wl0 = self.worklist@;
            let tv = self.worklist.pop().unwrap();
            proof {
                let h = *self.heap;
                let m = self.marks;
                let wl = self.worklist@;
                assert(wl0[wl0.len() - 1] == tv);
                assert(queued_ok(&h, &m, tv));
                assert forall|k: int| 0 <= k < wl.len() implies queued_ok(&h, &m, #[trigger] wl[k]) by {
                    assert(wl[k] == wl0[k]);
                }
                assert forall|x: TaggedValue|
                    h.valid_value(x) && x.is_heap_ref() && #[trigger] m.is_marked(x) && !wl.contains(
                        x,
                    ) && Some(tv) != Some(x) implies children_marked(&h, &m, x) by {
                    if wl0.contains(x) {
                        let j = choose|j: int| 0 <= j < wl0.len() && wl0[j] == x;
                        if j < wl.len() {
                            assert(wl[j] == x);
                        }
                    }
                }
            }
            self.trace_children(tv);
            proof {
                self.lemma_progress_nonneg();
            }
        }
    }

    /// The mark bits, once marking is done.
    fn finish(self) -> (r: MarkBits)
        ensures
            r == self.spec_marks(),
    {
        self.marks
    }

    /// Once nothing is queued, a slot is marked exactly when it is
    /// reachable from the visited roots.
    pub proof fn lemma_marks_exact(&self)
        requires
            self.inv(),
            self.queue().len() == 0,
        ensures
            forall|tv: TaggedValue|
                self.spec_heap().valid_value(tv) && tv.is_heap_ref() ==> (
                #[trigger] self.spec_marks().is_marked(tv) <==> self.spec_heap().reachable(
                    self.visited_roots(),
                    tv,
                )),
    {
        let h = *self.heap;
        assert forall|tv: TaggedValue|
            h.valid_value(tv) && tv.is_heap_ref() && #[trigger] h.reachable(
                self.roots@,
                tv,
            ) implies self.marks.is_marked(tv) by {
            let n = choose|n: nat| #[trigger] h.reach_set(self.roots@, n).contains(tv);
            self.lemma_reach_set_marked(n);
        }
    }

    proof fn lemma_reach_set_marked(&self, n: nat)
        requires
            self.inv(),
            self.worklist@.len() == 0,
        ensures
            forall|tv: TaggedValue| #[trigger]
                self.heap.reach_set(self.roots@, n).contains(tv) ==> self.heap.valid_value(tv)
                    && self.marks.is_marked(tv),
        decreases n,
    {
        let h = *self.heap;
        let m = self.marks;
        if n > 0 {
            self.lemma_reach_set_marked((n - 1) as nat);
            let prev = h.reach_set(self.roots@, (n - 1) as nat);
            assert forall|c: TaggedValue| #[trigger]
                h.reach_set(self.roots@, n).contains(c) implies h.valid_value(c) && m.is_marked(
                c,
            ) by {
                if !prev.contains(c) {
                    let p = choose|p: TaggedValue|
                        prev.contains(p) && #[trigger] h.children(p).contains(c);
                    assert(h.valid_value(p) && m.is_marked(p));
                    h.lemma_children_valid(p);
                    let k = choose|k: int| 0 <= k < h.children(p).len() && h.children(p)[k] == c;
                    if p.is_heap_ref() {
                        assert(!self.worklist@.contains(p));
                        assert(children_marked(&h, &m, p));
                        assert(m.is_marked(h.children(p)[k]));
                    }
                    assert(h.valid_value(h.children(p)[k]));
                }
            }
        }
    }
}

// ---------------------------------------------------------------------------
// Sweeping
// ---------------------------------------------------------------------------

/// Slot contents that the sweep can overwrite with a tombstone.
pub trait Tombstone: Sized {
    /// Whether this value is the tombstone.
    spec fn is_tombstone(&self) -> bool;

    /// The tombstone.
    fn tombstone() -> (r: Self)
        ensures
            r.is_tombstone(),
    ;
}

impl Tombstone for (TaggedValue, TaggedValue) {
    open spec fn is_tombstone(&self) -> bool {
        *self == (TaggedValue::Null, TaggedValue::Null)
    }

    fn tombstone() -> (r: Self) {
        (TaggedValue::NULL, TaggedValue::NULL)
    }
}

impl<T> Tombstone for Vec<T> {
    open spec fn is_tombstone(&self) -> bool {
        self@.len() == 0
    }

    fn tombstone() -> (r: Self) {
        Vec::new()
    }
}

impl Tombstone for HeapObjectData {
    open spec fn is_tombstone(&self) -> bool {
        *self is Free
    }

    fn tombstone() -> (r: Self) {
        HeapObjectData::Free
    }
}

/// Slot `i` is neither live nor already on the free list `free`.
pub open spec fn swept_at(live: Seq<bool>, free: Seq<HeapIndex>, i: int) -> bool {
    !live[i] && !free.contains(i as HeapIndex)
}

/// The slots below `n` that a sweep reclaims, in ascending order.
pub open spec fn freed_slots(live: Seq<bool>, free: Seq<HeapIndex>, n: nat) -> Seq<HeapIndex>
    decreases n,
{
    if n == 0 {
        Seq::empty()
    } else {
        let prev = freed_slots(live, free, (n - 1) as nat);
        if swept_at(live, free, n - 1) {
            prev.push((n - 1) as HeapIndex)
        } else {
            prev
        }
    }
}

/// What a sweep reclaims: slots below `n`, each swept, none twice, and
/// every swept slot below `n`.
pub proof fn lemma_freed_slots(live: Seq<bool>, free: Seq<HeapIndex>, n: nat)
    requires
        n <= arena_limit(),
    ensures
        forall|k: int|
            0 <= k < freed_slots(live, free, n).len() ==> {
                &&& (#[trigger] freed_slots(live, free, n)[k] as int) < n
                &&& swept_at(live, free, freed_slots(live, free, n)[k] as int)
            },
        freed_slots(live, free, n).no_duplicates(),
        forall|i: int|
            0 <= i < n ==> (#[trigger] freed_slots(live, free, n).contains(i as HeapIndex)
                <==> swept_at(live, free, i)),
        freed_slots(live, free, n).len() <= n,
    decreases n,
{
    if n > 0 {
        let m = (n - 1) as nat;
        lemma_freed_slots(live, free, m);
        let prev = freed_slots(live, free, m);
        let cur = freed_slots(live, free, n);
        assert forall|i: int| 0 <= i < n implies (#[trigger] cur.contains(i as HeapIndex)
            <==> swept_at(live, free, i)) by {
            if i < m {
                if cur.contains(i as HeapIndex) && !prev.contains(i as HeapIndex) {
                    assert(cur == prev.push(m as HeapIndex));
                    let k = choose|k: int| 0 <= k < cur.len() && cur[k] == i as HeapIndex;
                    if k < prev.len() {
                        assert(prev[k] == cur[k]);
                    }
                }
                if prev.contains(i as HeapIndex) {
                    let k = choose|k: int| 0 <= k < prev.len() && prev[k] == i as HeapIndex;
                    assert(cur[k] == prev[k]);
                }
            } else {
                if swept_at(live, free, i) {
                    assert(cur[prev.len() as int] == m as HeapIndex);
                }
                if cur.contains(i as HeapIndex) && !swept_at(live, free, i) {
                    let k = choose|k: int| 0 <= k < cur.len() && cur[k] == i as HeapIndex;
                    assert(prev[k] == cur[k]);
                }
            }
        }
    }
}

/// With no slot below `n` left to reclaim, a sweep reclaims nothing.
proof fn lemma_nothing_to_reclaim(live: Seq<bool>, free: Seq<HeapIndex>, n: nat)
    requires
        forall|i: int| 0 <= i < n ==> !#[trigger] swept_at(live, free, i),
    ensures
        freed_slots(live, free, n) == Seq::<HeapIndex>::empty(),
    decreases n,
{
    if n > 0 {
        lemma_nothing_to_reclaim(live, free, (n - 1) as nat);
        assert(!swept_at(live, free, n - 1));
    }
}

/// A second sweep with the same liveness reclaims nothing: every slot the
/// first one reclaimed, and every slot already free, is on the free list
/// it leaves.
pub proof fn lemma_second_sweep_reclaims_nothing(live: Seq<bool>, free: Seq<HeapIndex>, n: nat)
    requires
        n <= arena_limit(),
    ensures
        freed_slots(live, free + freed_slots(live, free, n), n) == Seq::<HeapIndex>::empty(),
{
    let f = freed_slots(live, free, n);
    let after = free + f;
    lemma_freed_slots(live, free, n);
    assert forall|i: int| 0 <= i < n implies !#[trigger] swept_at(live, after, i) by {
        if !live[i] && !free.contains(i as HeapIndex) {
            assert(f.contains(i as HeapIndex));
            let k = choose|k: int| 0 <= k < f.len() && f[k] == i as HeapIndex;
            assert(after[free.len() + k] == i as HeapIndex);
        } else if free.contains(i as HeapIndex) {
            let k = choose|k: int| 0 <= k < free.len() && free[k] == i as HeapIndex;
            assert(after[k] == i as HeapIndex);
        }
    }
    lemma_nothing_to_reclaim(live, after, n);
}

/// A second sweep with the same liveness frees nothing: no slot reaches a
/// free list twice.
pub proof fn lemma_sweep_frees_nothing_twice(live: Seq<bool>, free: Seq<HeapIndex>, n: nat)
    requires
        n <= arena_limit(),
    ensures
        freed_slots(live, free + freed_slots(live, free, n), n).len() == 0,
{
    let freed = freed_slots(live, free, n);
    let again = free + freed;
    lemma_freed_slots(live, free, n);
    lemma_freed_slots(live, again, n);
    if freed_slots(live, again, n).len() > 0 {
        let x = freed_slots(live, again, n)[0];
        assert(swept_at(live, again, x as int));
        assert(freed.contains(x)) by {
            assert(swept_at(live, free, x as int)) by {
                if free.contains(x) {
                    let k = choose|k: int| 0 <= k < free.len() && free[k] == x;
                    assert(again[k] == x);
                }
            }
        }
        let k = choose|k: int| 0 <= k < freed.len() && freed[k] == x;
        assert(again[free.len() + k] == x);
    }
}

/// After a sweep a slot is on the free list exactly when it was there
/// before or was not live: nothing live is freed, nothing dead is missed.
pub proof fn lemma_free_after_sweep(live: Seq<bool>, free: Seq<HeapIndex>, n: nat)
    requires
        n <= arena_limit(),
    ensures
        forall|i: int|
            0 <= i < n ==> (#[trigger] (free + freed_slots(live, free, n)).contains(i as HeapIndex)
                <==> (free.contains(i as HeapIndex) || !live[i])),
{
    let freed = freed_slots(live, free, n);
    let all = free + freed;
    lemma_freed_slots(live, free, n);
    assert forall|i: int| 0 <= i < n implies (#[trigger] all.contains(i as HeapIndex) <==> (
    free.contains(i as HeapIndex) || !live[i])) by {
        let x = i as HeapIndex;
        if free.contains(x) {
            let k = choose|k: int| 0 <= k < free.len() && free[k] == x;
            assert(all[k] == x);
        } else if !live[i] {
            assert(freed.contains(x));
            let k = choose|k: int| 0 <= k < freed.len() && freed[k] == x;
            assert(all[free.len() + k] == x);
        }
        if all.contains(x) && !free.contains(x) {
            let k = choose|k: int| 0 <= k < all.len() && all[k] == x;
            if k < free.len() {
                assert(free[k] == x);
            } else {
                assert(freed[k - free.len()] == x);
                assert(freed.contains(x));
            }
        }
    }
}

/// A bit set of the slots named by `free_list`.
fn already_free(free_list: &Vec<HeapIndex>, len: usize) -> (r: BitSet)
    requires
        len <= arena_limit(),
        forall|k: int| 0 <= k < free_list@.len() ==> (#[trigger] free_list@[k]) < len,
    ensures
        r.wf(),
        r@.len() == len,
        forall|i: int| 0 <= i < len ==> #[trigger] r@[i] == free_list@.contains(i as HeapIndex),
{
    let mut set = BitSet::new(len);
    let mut k: usize = 0;
    while k < free_list.len()
        invariant
            set.wf(),
            set@.len() == len,
            len <= arena_limit(),
            k <= free_list@.len(),
            forall|j: int| 0 <= j < free_list@.len() ==> (#[trigger] free_list@[j]) < len,
            forall|i: int|
                0 <= i < len ==> #[trigger] set@[i] == free_list@.take(k as int).contains(
                    i as HeapIndex,
                ),
        decreases free_list@.len() - k,
    {
        let idx = free_list[k];
        let ghost before = set@;
        set.set(idx as usize);
        proof {
            let prev = free_list@.take(k as int);
            let next = free_list@.take(k + 1);
            assert(next =~= prev.push(idx));
            assert forall|i: int| 0 <= i < len implies #[trigger] set@[i] == next.contains(
                i as HeapIndex,
            ) by {
                if prev.contains(i as HeapIndex) {
                    let j = choose|j: int| 0 <= j < prev.len() && prev[j] == i as HeapIndex;
                    assert(next[j] == prev[j]);
                }
                if next.contains(i as HeapIndex) && i != idx as int {
                    let j = choose|j: int| 0 <= j < next.len() && next[j] == i as HeapIndex;
                    assert(prev[j] == next[j]);
                }
                if i == idx as int {
                    assert(next[k as int] == idx);
                }
            }
        }
        k = k + 1;
    }
    proof {
        assert(free_list@.take(k as int) =~= free_list@);
    }
    set
}

/// Sweep one arena: tombstone every slot that is neither live nor already
/// free, and put it on the free list.
fn sweep_arena<T: Tombstone>(
    slots: &mut Vec<T>,
    free_list: &mut Vec<HeapIndex>,
    live: &BitSet,
) -> (count: usize)
    requires
        live.wf(),
        live@.len() == old(slots)@.len(),
        old(slots)@.len() <= arena_limit(),
        Heap::free_list_ok(old(free_list)@, old(slots)@.len()),
    ensures
        final(slots)@.len() == old(slots)@.len(),
        forall|i: int|
            0 <= i < old(slots)@.len() ==> if swept_at(live@, old(free_list)@, i) {
                (#[trigger] final(slots)@[i]).is_tombstone()
            } else {
                final(slots)@[i] == old(slots)@[i]
            },
        final(free_list)@ == old(free_list)@ + freed_slots(
            live@,
            old(free_list)@,
            old(slots)@.len(),
        ),
        Heap::free_list_ok(final(free_list)@, old(slots)@.len()),
        count == freed_slots(live@, old(free_list)@, old(slots)@.len()).len(),
{
    let len = slots.len();
    let free = already_free(free_list, len);
    let ghost free0 = free_list@;
    let ghost slots0 = slots@;
    let mut count: usize = 0;
    let mut i: usize = 0;
    while i < len
        invariant
            live.wf(),
            live@.len() == len,
            free.wf(),
            free@.len() == len,
            len == slots0.len(),
            len <= arena_limit(),
            forall|j: int| 0 <= j < len ==> #[trigger] free@[j] == free0.contains(j as HeapIndex),
            i <= len,
            slots@.len() == len,
            forall|j: int|
                0 <= j < len ==> if j < i && swept_at(live@, free0, j) {
                    (#[trigger] slots@[j]).is_tombstone()
                } else {
                    slots@[j] == slots0[j]
                },
            free_list@ == free0 + freed_slots(live@, free0, i as nat),
            count == freed_slots(live@, free0, i as nat).len(),
            count <= i,
        decreases len - i,
    {
        proof {
            assert(((i + 1) as nat - 1) as nat == i as nat);
        }
        if !live.get(i) && !free.get(i) {
            slots.set(i, T::tombstone());
            free_list.push(i as HeapIndex);
            count = count + 1;
            proof {
                assert(free_list@ =~= free0 + freed_slots(live@, free0, (i + 1) as nat));
            }
        }
        i = i + 1;
    }
    proof {
        let freed = freed_slots(live@, free0, len as nat);
        lemma_freed_slots(live@, free0, len as nat);
        let all = free0 + freed;
        assert forall|k: int| 0 <= k < all.len() implies (#[trigger] all[k]) < len by {
            if k >= free0.len() {
                assert(all[k] == freed[k - free0.len()]);
            }
        }
        assert forall|a: int, b: int| 0 <= a < all.len() && 0 <= b < all.len() && a != b implies all[a]
            != all[b] by {
            if a < free0.len() && b >= free0.len() {
                assert(all[b] == freed[b - free0.len()]);
                assert(!free0.contains(freed[b - free0.len()]));
            } else if a >= free0.len() && b < free0.len() {
                assert(all[a] == freed[a - free0.len()]);
                assert(!free0.contains(freed[a - free0.len()]));
            } else if a >= free0.len() && b >= free0.len() {
                assert(all[a] == freed[a - free0.len()]);
                assert(all[b] == freed[b - free0.len()]);
            }
        }
    }
    count
}

    /// A sweep leaves nothing for a second sweep with the same marks: in
    /// every arena the slots that one would reclaim are none, so it would
    /// append nothing to the free lists.
    pub proof fn lemma_swept_heap_has_nothing_to_reclaim(old: &Heap, new: &Heap, marks: &MarkBits)
        requires
            old.wf(),
            new.pairs_swept(old, marks.pairs@),
            new.vectors_swept(old, marks.vectors@),
            new.strings_swept(old, marks.strings@),
            new.objects_swept(old, marks.objects@),
        ensures
            freed_slots(marks.pairs@, new.free_pair_list(), new.pair_slots().len()).len() == 0,
            freed_slots(marks.vectors@, new.free_vector_list(), new.vector_slots().len()).len() == 0,
            freed_slots(marks.strings@, new.free_string_list(), new.string_slots().len()).len() == 0,
            freed_slots(marks.objects@, new.free_object_list(), new.object_slots().len()).len() == 0,
    {
        lemma_second_sweep_reclaims_nothing(marks.pairs@, old.free_pair_list(), old.pair_slots().len());
        lemma_second_sweep_reclaims_nothing(marks.vectors@, old.free_vector_list(), old.vector_slots().len());
        lemma_second_sweep_reclaims_nothing(marks.strings@, old.free_string_list(), old.string_slots().len());
        lemma_second_sweep_reclaims_nothing(marks.objects@, old.free_object_list(), old.object_slots().len());
    }

impl Heap {
    /// The pair arena after a sweep with liveness `live`, against `old`.
    pub open spec fn pairs_swept(&self, old: &Heap, live: Seq<bool>) -> bool {
        &&& self.pair_slots().len() == old.pair_slots().len()
        &&& forall|i: int|
            0 <= i < old.pair_slots().len() ==> #[trigger] self.pair_slots()[i] == if swept_at(
                live,
                old.free_pair_list(),
                i,
            ) {
                (TaggedValue::Null, TaggedValue::Null)
            } else {
                old.pair_slots()[i]
            }
        &&& self.free_pair_list() == old.free_pair_list() + freed_slots(
            live,
            old.free_pair_list(),
            old.pair_slots().len(),
        )
    }

    /// The vector arena after a sweep with liveness `live`, against `old`.
    pub open spec fn vectors_swept(&self, old: &Heap, live: Seq<bool>) -> bool {
        &&& self.vector_slots().len() == old.vector_slots().len()
        &&& forall|i: int|
            0 <= i < old.vector_slots().len() ==> #[trigger] self.vector_slots()[i] == if swept_at(
                live,
                old.free_vector_list(),
                i,
            ) {
                Seq::<TaggedValue>::empty()
            } else {
                old.vector_slots()[i]
            }
        &&& self.free_vector_list() == old.free_vector_list() + freed_slots(
            live,
            old.free_vector_list(),
            old.vector_slots().len(),
        )
    }

    /// The string arena after a sweep with liveness `live`, against `old`.
    pub open spec fn strings_swept(&self, old: &Heap, live: Seq<bool>) -> bool {
        &&& self.string_slots().len() == old.string_slots().len()
        &&& forall|i: int|
            0 <= i < old.string_slots().len() ==> #[trigger] self.string_slots()[i] == if swept_at(
                live,
                old.free_string_list(),
                i,
            ) {
                Seq::<char>::empty()
            } else {
                old.string_slots()[i]
            }
        &&& self.free_string_list() == old.free_string_list() + freed_slots(
            live,
            old.free_string_list(),
            old.string_slots().len(),
        )
    }

    /// The object arena after a sweep with liveness `live`, against `old`.
    pub open spec fn objects_swept(&self, old: &Heap, live: Seq<bool>) -> bool {
        &&& self.object_slots().len() == old.object_slots().len()
        &&& forall|i: int|
            0 <= i < old.object_slots().len() ==> #[trigger] self.object_slots()[i] == if swept_at(
                live,
                old.free_object_list(),
                i,
            ) {
                HeapObjectData::Free
            } else {
                old.object_slots()[i]
            }
        &&& self.free_object_list() == old.free_object_list() + freed_slots(
            live,
            old.free_object_list(),
            old.object_slots().len(),
        )
    }

    /// Reclaim every unmarked slot that is not free already: tombstone it
    /// and put it on its arena's free list. Lowers the collection-pending
    /// flag and records the collection. Any marks of the arenas' sizes are
    /// taken; the heap stays well-formed when every interned symbol is
    /// marked, as the collector's trace of the symbol table marks them, and
    /// otherwise the symbol table names a freed slot.
    pub fn sweep(&mut self, marks: &MarkBits) -> (swept: ArenaCounts)
        requires
            old(self).wf(),
            marks.sized_for(old(self)),
            old(self).slot_total() <= usize::MAX,
        ensures
            (forall|k: int|
                0 <= k < old(self).symbol_indices().len() ==> marks.objects@[#[trigger] old(
                    self,
                ).symbol_indices()[k] as int]) ==> final(self).wf(),
            final(self).pairs_swept(old(self), marks.pairs@),
            final(self).vectors_swept(old(self), marks.vectors@),
            final(self).strings_swept(old(self), marks.strings@),
            final(self).objects_swept(old(self), marks.objects@),
            final(self).symbol_indices() == old(self).symbol_indices(),
            swept.pairs == freed_slots(
                marks.pairs@,
                old(self).free_pair_list(),
                old(self).pair_slots().len(),
            ).len(),
            swept.vectors == freed_slots(
                marks.vectors@,
                old(self).free_vector_list(),
                old(self).vector_slots().len(),
            ).len(),
            swept.strings == freed_slots(
                marks.strings@,
                old(self).free_string_list(),
                old(self).string_slots().len(),
            ).len(),
            swept.objects == freed_slots(
                marks.objects@,
                old(self).free_object_list(),
                old(self).object_slots().len(),
            ).len(),
            !final(self).spec_gc_pending(),
            final(self).spec_gc_collections() == if old(self).spec_gc_collections() == u64::MAX {
                u64::MAX
            } else {
                (old(self).spec_gc_collections() + 1) as u64
            },
            final(self).spec_gc_last_swept() == swept.spec_total(),
            final(self).spec_allocs_since_gc() == old(self).spec_allocs_since_gc(),
            final(self).spec_gc_threshold() == old(self).spec_gc_threshold(),
            final(self).spec_gc_defer_depth() == old(self).spec_gc_defer_depth(),
    {
        let ghost h0 = *self;
        let pairs = sweep_arena(&mut self.pairs, &mut self.free_pairs, &marks.pairs);
        let vectors = sweep_arena(&mut self.vectors, &mut self.free_vectors, &marks.vectors);
        let strings = sweep_arena(&mut self.strings, &mut self.free_strings, &marks.strings);
        let objects = sweep_arena(&mut self.objects, &mut self.free_objects, &marks.objects);
        proof {
            lemma_freed_slots(marks.pairs@, h0.free_pairs@, h0.pairs@.len());
            lemma_freed_slots(marks.vectors@, h0.free_vectors@, h0.vectors@.len());
            lemma_freed_slots(marks.strings@, h0.free_strings@, h0.strings@.len());
            lemma_freed_slots(marks.objects@, h0.free_objects@, h0.objects@.len());
        }
        let swept = ArenaCounts { pairs, vectors, strings, objects };
        self.gc_pending = false;
        self.gc_collections = self.gc_collections.saturating_add(1);
        self.gc_last_swept = swept.total();
        proof {
            let h = *self;
            assert(h.vector_slots().len() == h0.vector_slots().len());
            assert(h.string_slots().len() == h0.string_slots().len());
            assert forall|i: int| 0 <= i < h0.vector_slots().len() implies #[trigger] h.vector_slots()[i]
                == if swept_at(marks.vectors@, h0.free_vector_list(), i) {
                Seq::<TaggedValue>::empty()
            } else {
                h0.vector_slots()[i]
            } by {
                if swept_at(marks.vectors@, h0.free_vector_list(), i) {
                    assert(h.vectors@[i].is_tombstone());
                    assert(h.vector_slots()[i] =~= Seq::<TaggedValue>::empty());
                }
            }
            assert forall|i: int| 0 <= i < h0.string_slots().len() implies #[trigger] h.string_slots()[i]
                == if swept_at(marks.strings@, h0.free_string_list(), i) {
                Seq::<char>::empty()
            } else {
                h0.string_slots()[i]
            } by {
                if swept_at(marks.strings@, h0.free_string_list(), i) {
                    assert(h.strings@[i].is_tombstone());
                    assert(h.string_slots()[i] =~= Seq::<char>::empty());
                }
            }
            assert forall|i: int| 0 <= i < h0.object_slots().len() implies #[trigger] h.object_slots()[i]
                == if swept_at(marks.objects@, h0.free_object_list(), i) {
                HeapObjectData::Free
            } else {
                h0.object_slots()[i]
            } by {
                if swept_at(marks.objects@, h0.free_object_list(), i) {
                    assert(h.objects@[i].is_tombstone());
                }
            }
            h.lemma_valid_grows(&h0);
            assert forall|i: int| 0 <= i < h.pair_slots().len() implies {
                &&& h.valid_value((#[trigger] h.pair_slots()[i]).0)
                &&& h.valid_value(h.pair_slots()[i].1)
            } by {
                if !swept_at(marks.pairs@, h0.free_pair_list(), i) {
                    assert(h0.valid_value(h0.pair_slots()[i].0));
                }
            }
            assert forall|i: int| 0 <= i < h.vector_slots().len() implies h.all_valid(
                #[trigger] h.vector_slots()[i],
            ) by {
                if !swept_at(marks.vectors@, h0.free_vector_list(), i) {
                    assert(h0.all_valid(h0.vector_slots()[i]));
                }
            }
            assert forall|i: int| 0 <= i < h.object_slots().len() implies h.all_valid(
                object_children(#[trigger] h.object_slots()[i]),
            ) by {
                if !swept_at(marks.objects@, h0.free_object_list(), i) {
                    assert(h0.all_valid(object_children(h0.object_slots()[i])));
                }
            }
            if forall|k: int|
                0 <= k < h0.symbol_indices().len() ==> marks.objects@[#[trigger] h0.symbol_indices()[k] as int] {
                assert forall|k: int| 0 <= k < h.symbol_indices().len() implies {
                    &&& (#[trigger] h.symbol_indices()[k]) < h.object_slots().len()
                    &&& h.object_slots()[h.symbol_indices()[k] as int] is Symbol
                } by {
                    let si = h0.symbol_indices()[k];
                    assert(marks.objects@[si as int]);
                    assert(!swept_at(marks.objects@, h0.free_object_list(), si as int));
                }
            }
        }
        swept
    }
}

// ---------------------------------------------------------------------------
// The collector
// ---------------------------------------------------------------------------

#[verifier::external_type_specification]
#[verifier::external_body]
pub struct ExInstant(std::time::Instant);

/// Reads the monotonic clock (`std::time::Instant::now`); nothing is
/// promised of the reading.
#[verifier::external_body]
fn clock_now() -> (r: std::time::Instant) {
    std::time::Instant::now()
}

/// Time passed since `start` (`std::time::Instant::elapsed`); nothing is
/// promised of it.
#[verifier::external_body]
fn elapsed_since(start: &std::time::Instant) -> (r: core::time::Duration) {
    start.elapsed()
}

/// Whole microseconds in `d` (`core::time::Duration::as_micros`); the
/// duration is opaque here, so nothing is promised of the number.
#[verifier::external_body]
fn duration_micros(d: &core::time::Duration) -> (r: u128) {
    d.as_micros()
}

/// Allocations since the last collection below which none is considered.
pub const DEFAULT_MIN_THRESHOLD: usize = 65536;

/// Stop-the-world mark-and-sweep. A collection is warranted once the
/// allocations since the last one reach the larger of the floor and twice
/// the slots found live by the last one.
pub struct MarkSweepCollector {
    min_threshold: usize,
    live_after_last: usize,
    stats: GcStats,
}

impl Default for MarkSweepCollector {
    fn default() -> (r: MarkSweepCollector)
        ensures
            r.spec_min_threshold() == DEFAULT_MIN_THRESHOLD,
            r.spec_live_after_last() == 0,
            r.spec_stats().collections == 0,
    {
        MarkSweepCollector::new()
    }
}

impl MarkSweepCollector {
    /// The allocation floor.
    pub closed spec fn spec_min_threshold(&self) -> usize {
        self.min_threshold
    }

    /// Slots found live by the last collection.
    pub closed spec fn spec_live_after_last(&self) -> usize {
        self.live_after_last
    }

    /// The statistics so far.
    pub closed spec fn spec_stats(&self) -> GcStats {
        self.stats
    }

    /// The allocation count at which a collection is warranted.
    pub open spec fn spec_trigger(&self) -> int {
        let floor = self.spec_min_threshold() as int;
        let adaptive = 2 * self.spec_live_after_last();
        if floor >= adaptive {
            floor
        } else {
            adaptive
        }
    }

    /// A collector with the default floor.
    pub fn new() -> (r: MarkSweepCollector)
        ensures
            r.spec_min_threshold() == DEFAULT_MIN_THRESHOLD,
            r.spec_live_after_last() == 0,
            r.spec_stats().collections == 0,
    {
        Self::with_min_threshold(DEFAULT_MIN_THRESHOLD)
    }

    /// A collector with floor `min_threshold`; `1` collects at every safe
    /// point.
    pub fn with_min_threshold(min_threshold: usize) -> (r: MarkSweepCollector)
        ensures
            r.spec_min_threshold() == min_threshold,
            r.spec_live_after_last() == 0,
            r.spec_stats().collections == 0,
            r.spec_stats().last_marked.spec_total() == 0,
            r.spec_stats().last_swept.spec_total() == 0,
    {
        MarkSweepCollector { min_threshold, live_after_last: 0, stats: GcStats::default() }
    }

    /// The statistics so far.
    pub fn stats(&self) -> (r: &GcStats)
        ensures
            *r == self.spec_stats(),
    {
        &self.stats
    }

    /// Whether a collection is warranted.
    pub fn should_collect(&self, heap: &Heap) -> (r: bool)
        ensures
            r == (heap.spec_allocs_since_gc() >= self.spec_trigger()),
    {
        let allocs = heap.allocs_since_gc();
        allocs >= self.min_threshold && allocs / 2 >= self.live_after_last
    }

    /// Run a full collection from `roots` and the interned symbols: every
    /// slot reachable from them is kept as it is, every other slot not
    /// already free is tombstoned and put on its free list.
    pub fn collect(&mut self, heap: &mut Heap, roots: &[TaggedValue]) -> (stats: GcStats)
        requires
            old(heap).wf(),
            old(heap).all_valid(roots@),
            old(heap).slot_total() <= usize::MAX,
        ensures
            final(heap).wf(),
            final(heap).pairs_swept(
                old(heap),
                old(heap).live_pairs(old(heap).gc_root_set(roots@)),
            ),
            final(heap).vectors_swept(
                old(heap),
                old(heap).live_vectors(old(heap).gc_root_set(roots@)),
            ),
            final(heap).strings_swept(
                old(heap),
                old(heap).live_strings(old(heap).gc_root_set(roots@)),
            ),
            final(heap).objects_swept(
                old(heap),
                old(heap).live_objects(old(heap).gc_root_set(roots@)),
            ),
            final(heap).symbol_indices() == old(heap).symbol_indices(),
            final(heap).spec_allocs_since_gc() == 0,
            !final(heap).spec_gc_pending(),
            stats.last_marked.pairs == count_true(
                old(heap).live_pairs(old(heap).gc_root_set(roots@)),
            ),
            stats.last_marked.vectors == count_true(
                old(heap).live_vectors(old(heap).gc_root_set(roots@)),
            ),
            stats.last_marked.strings == count_true(
                old(heap).live_strings(old(heap).gc_root_set(roots@)),
            ),
            stats.last_marked.objects == count_true(
                old(heap).live_objects(old(heap).gc_root_set(roots@)),
            ),
            stats.last_swept.pairs == freed_slots(
                old(heap).live_pairs(old(heap).gc_root_set(roots@)),
                old(heap).free_pair_list(),
                old(heap).pair_slots().len(),
            ).len(),
            stats.last_swept.vectors == freed_slots(
                old(heap).live_vectors(old(heap).gc_root_set(roots@)),
                old(heap).free_vector_list(),
                old(heap).vector_slots().len(),
            ).len(),
            stats.last_swept.strings == freed_slots(
                old(heap).live_strings(old(heap).gc_root_set(roots@)),
                old(heap).free_string_list(),
                old(heap).string_slots().len(),
            ).len(),
            stats.last_swept.objects == freed_slots(
                old(heap).live_objects(old(heap).gc_root_set(roots@)),
                old(heap).free_object_list(),
                old(heap).object_slots().len(),
            ).len(),
            stats.collections == if old(self).spec_stats().collections == u64::MAX {
                u64::MAX
            } else {
                (old(self).spec_stats().collections + 1) as u64
            },
            final(self).spec_stats() == stats,
            final(self).spec_live_after_last() == stats.last_marked.spec_total(),
            final(self).spec_min_threshold() == old(self).spec_min_threshold(),
    {
        let start = clock_now();
        let ghost h0 = *heap;
        let ghost rs = h0.gc_root_set(roots@);
        let marks = {
            let mut visitor = GcVisitor::new(heap);
            visitor.trace_symbol_table();
            visitor.visit_slice(roots);
            visitor.drain();
            proof {
                visitor.lemma_marks_exact();
                assert(visitor.visited_roots() =~= rs);
            }
            visitor.finish()
        };
        proof {
            assert forall|i: int| 0 <= i < h0.pair_slots().len() implies #[trigger] marks.pairs@[i]
                == h0.live_pairs(rs)[i] by {
                let tv = TaggedValue::Pair(i as HeapIndex);
                assert(tv.spec_heap_index() as int == i);
                assert(marks.is_marked(tv) == h0.reachable(rs, tv));
            }
            assert(marks.pairs@ =~= h0.live_pairs(rs));
            assert forall|i: int| 0 <= i < h0.vector_slots().len() implies #[trigger] marks.vectors@[i]
                == h0.live_vectors(rs)[i] by {
                let tv = TaggedValue::Vector(i as HeapIndex);
                assert(tv.spec_heap_index() as int == i);
                assert(marks.is_marked(tv) == h0.reachable(rs, tv));
            }
            assert(marks.vectors@ =~= h0.live_vectors(rs));
            assert forall|i: int| 0 <= i < h0.string_slots().len() implies #[trigger] marks.strings@[i]
                == h0.live_strings(rs)[i] by {
                let tv = TaggedValue::Str(i as HeapIndex);
                assert(tv.spec_heap_index() as int == i);
                assert(marks.is_marked(tv) == h0.reachable(rs, tv));
            }
            assert(marks.strings@ =~= h0.live_strings(rs));
            assert forall|i: int| 0 <= i < h0.object_slots().len() implies #[trigger] marks.objects@[i]
                == h0.live_objects(rs)[i] by {
                let tv = TaggedValue::Object(i as HeapIndex);
                assert(tv.spec_heap_index() as int == i);
                assert(marks.is_marked(tv) == h0.reachable(rs, tv));
            }
            assert(marks.objects@ =~= h0.live_objects(rs));
            assert forall|k: int| 0 <= k < h0.symbol_indices().len() implies marks.objects@[
                #[trigger] h0.symbol_indices()[k] as int] by {
                let tv = TaggedValue::Object(h0.symbol_indices()[k]);
                assert(h0.symbol_roots().contains(tv));
                assert(h0.reach_set(rs, 0).contains(tv));
                assert(h0.reachable(rs, tv));
                assert(marks.is_marked(tv));
            }
            lemma_count_true_le(marks.pairs@);
            lemma_count_true_le(marks.vectors@);
            lemma_count_true_le(marks.strings@);
            lemma_count_true_le(marks.objects@);
        }
        let marked = marks.marked();
        let swept = heap.sweep(&marks);
        heap.allocs_since_gc = 0;
        self.live_after_last = marked.total();
        self.stats.collections = self.stats.collections.saturating_add(1);
        self.stats.last_marked = marked;
        self.stats.last_swept = swept;
        let elapsed = elapsed_since(&start);
        self.stats.last_pause_micros = duration_micros(&elapsed);
        self.stats
    }
}

} // verus!
