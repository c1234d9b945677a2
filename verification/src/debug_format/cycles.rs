//! The nodes a cycle returns to, as the printer labels them.
//!
//! A depth-first search marks a node as cyclic when it is met again while it
//! is still on the path from the root. A list's spine is walked in a loop,
//! not by recursing on each cdr, so a long list costs no stack; its pairs
//! stay on the path until the whole list is done, since an element can lead
//! back to any of them.
use vstd::prelude::*;
use crate::tagged_value::TaggedValue;
use crate::heap::{Heap, HeapObjectData};

verus! {

/// A node's mark: not seen yet.
pub const UNSEEN: u8 = 0;
/// A node's mark: on the path from the root.
pub const ON_PATH: u8 = 1;
/// A node's mark: finished.
pub const DONE: u8 = 2;
/// A node's mark: on the path, and a cycle returns to it.
pub const ON_PATH_CYCLIC: u8 = 5;
/// A node's mark: finished, and a cycle returns to it.
pub const DONE_CYCLIC: u8 = 6;

/// How many compound nodes the cheap walk visits before giving up.
pub const WALK_BUDGET: usize = 1024;

/// The marks of the pair, vector and object arenas, slot by slot.
pub type Marks = (Seq<u8>, Seq<u8>, Seq<u8>);

/// Every slot unseen.
pub open spec fn unseen_marks(heap: &Heap) -> Marks {
    (
        Seq::new(heap.pair_slots().len(), |i: int| UNSEEN),
        Seq::new(heap.vector_slots().len(), |i: int| UNSEEN),
        Seq::new(heap.object_slots().len(), |i: int| UNSEEN),
    )
}

/// The mark of `tv` (unseen for a value without a node).
pub open spec fn mark_at(m: Marks, tv: TaggedValue) -> u8 {
    match tv {
        TaggedValue::Pair(i) => m.0[i as int],
        TaggedValue::Vector(i) => m.1[i as int],
        TaggedValue::Object(i) => m.2[i as int],
        _ => UNSEEN,
    }
}

/// `m` with the mark of `tv` set to `b`.
pub open spec fn with_mark(m: Marks, tv: TaggedValue, b: u8) -> Marks {
    match tv {
        TaggedValue::Pair(i) => (m.0.update(i as int, b), m.1, m.2),
        TaggedValue::Vector(i) => (m.0, m.1.update(i as int, b), m.2),
        TaggedValue::Object(i) => (m.0, m.1, m.2.update(i as int, b)),
        _ => m,
    }
}

/// Whether a cycle returns to `tv`.
pub open spec fn marked_cyclic(m: Marks, tv: TaggedValue) -> bool {
    (tv is Pair || tv is Vector || tv is Object) && (mark_at(m, tv) == ON_PATH_CYCLIC || mark_at(
        m,
        tv,
    ) == DONE_CYCLIC)
}

/// Entering `tv`: whether it needs a visit, and the marks after. A node
/// already on the path closes a cycle, which is recorded; a finished node
/// needs nothing.
pub open spec fn enter_node(m: Marks, tv: TaggedValue) -> (bool, Marks) {
    let b = mark_at(m, tv);
    if b == ON_PATH || b == ON_PATH_CYCLIC {
        (false, with_mark(m, tv, ON_PATH_CYCLIC))
    } else if b == DONE || b == DONE_CYCLIC {
        (false, m)
    } else {
        (true, with_mark(m, tv, ON_PATH))
    }
}

/// Leaving `tv`: it is finished.
pub open spec fn leave_node(m: Marks, tv: TaggedValue) -> Marks {
    let b = mark_at(m, tv);
    if b == ON_PATH {
        with_mark(m, tv, DONE)
    } else if b == ON_PATH_CYCLIC {
        with_mark(m, tv, DONE_CYCLIC)
    } else {
        m
    }
}

/// Leaving each node of `s`, first to last.
pub open spec fn leave_all(m: Marks, s: Seq<TaggedValue>) -> Marks
    decreases s.len(),
{
    if s.len() == 0 {
        m
    } else {
        leave_node(leave_all(m, s.drop_last()), s.last())
    }
}

/// Whether a cycle can pass through `tv`: the nodes the printer recurses
/// into.
pub open spec fn has_children(heap: &Heap, tv: TaggedValue) -> bool {
    match tv {
        TaggedValue::Pair(_) => true,
        TaggedValue::Vector(_) => true,
        TaggedValue::Object(i) => heap.object_slots()[i as int] is Values
            || heap.object_slots()[i as int] is MutableCell,
        _ => false,
    }
}

/// The marks after the search visits `tv`, `fuel` levels deep at most.
pub open spec fn search_visit(heap: &Heap, tv: TaggedValue, m: Marks, fuel: nat) -> Marks
    decreases fuel, 0int,
{
    if fuel == 0 || !has_children(heap, tv) {
        m
    } else {
        match tv {
            TaggedValue::Pair(_) => search_spine(heap, tv, m, Seq::empty(), (fuel - 1) as nat),
            TaggedValue::Vector(i) => {
                let (fresh, m1) = enter_node(m, tv);
                if !fresh {
                    m1
                } else {
                    leave_node(
                        search_each(heap, heap.vector_slots()[i as int], 0, m1, (fuel - 1) as nat),
                        tv,
                    )
                }
            },
            TaggedValue::Object(i) => {
                let (fresh, m1) = enter_node(m, tv);
                if !fresh {
                    m1
                } else {
                    leave_node(
                        match heap.object_slots()[i as int] {
                            HeapObjectData::Values(vs) => search_each(
                                heap,
                                vs@,
                                0,
                                m1,
                                (fuel - 1) as nat,
                            ),
                            HeapObjectData::MutableCell(c) => search_visit(
                                heap,
                                c,
                                m1,
                                (fuel - 1) as nat,
                            ),
                            _ => m1,
                        },
                        tv,
                    )
                }
            },
            _ => m,
        }
    }
}

/// The search along a list's spine from `current`, the pairs in `entered`
/// still on the path.
pub open spec fn search_spine(
    heap: &Heap,
    current: TaggedValue,
    m: Marks,
    entered: Seq<TaggedValue>,
    fuel: nat,
) -> Marks
    decreases fuel, 0int,
{
    if fuel == 0 {
        leave_all(m, entered)
    } else {
        match current {
            TaggedValue::Pair(i) => {
                let (fresh, m1) = enter_node(m, current);
                if fresh {
                    search_spine(
                        heap,
                        heap.pair_slots()[i as int].1,
                        search_visit(heap, heap.pair_slots()[i as int].0, m1, (fuel - 1) as nat),
                        entered.push(current),
                        (fuel - 1) as nat,
                    )
                } else {
                    leave_all(m1, entered)
                }
            },
            _ => leave_all(search_visit(heap, current, m, (fuel - 1) as nat), entered),
        }
    }
}

/// The search over `vs` from position `k`.
pub open spec fn search_each(heap: &Heap, vs: Seq<TaggedValue>, k: int, m: Marks, fuel: nat) -> Marks
    decreases fuel, vs.len() - k,
{
    if 0 <= k < vs.len() {
        search_each(heap, vs, k + 1, search_visit(heap, vs[k], m, fuel), fuel)
    } else {
        m
    }
}

/// The budget left after a plain walk of `tv` (every node, as the printer
/// visits them) with `budget` compound nodes to spend, or `None` when it
/// runs out first. A walk that ends has met no cycle, since a walk into a
/// cycle never ends; one that runs out met a cycle or merely a large value.
pub open spec fn walk(heap: &Heap, tv: TaggedValue, budget: nat) -> Option<nat>
    decreases budget, 0int,
{
    if !has_children(heap, tv) {
        Some(budget)
    } else if budget == 0 {
        None
    } else {
        let b = (budget - 1) as nat;
        match tv {
            TaggedValue::Pair(i) => match walk(heap, heap.pair_slots()[i as int].0, b) {
                None => None,
                Some(b2) => walk(heap, heap.pair_slots()[i as int].1, if b2 <= b { b2 } else { b }),
            },
            TaggedValue::Vector(i) => walk_each(heap, heap.vector_slots()[i as int], 0, b),
            TaggedValue::Object(i) => match heap.object_slots()[i as int] {
                HeapObjectData::Values(vs) => walk_each(heap, vs@, 0, b),
                HeapObjectData::MutableCell(c) => walk(heap, c, b),
                _ => Some(b),
            },
            _ => Some(budget),
        }
    }
}

/// The walk over `vs` from position `k`.
pub open spec fn walk_each(heap: &Heap, vs: Seq<TaggedValue>, k: int, budget: nat) -> Option<nat>
    decreases budget, vs.len() - k,
{
    if 0 <= k < vs.len() {
        match walk(heap, vs[k], budget) {
            None => None,
            Some(b2) => walk_each(heap, vs, k + 1, if b2 <= budget { b2 } else { budget }),
        }
    } else {
        Some(budget)
    }
}

/// Walk `tv` with `budget` compound nodes to spend: the budget left, or
/// `None` when it ran out. Allocates nothing, which is what makes it worth
/// trying before the search.
pub fn walk_within(tv: TaggedValue, heap: &Heap, budget: usize) -> (r: Option<usize>)
    requires
        heap.wf(),
        heap.valid_value(tv),
    ensures
        r is None <==> walk(heap, tv, budget as nat) is None,
        r is Some ==> walk(heap, tv, budget as nat) == Some(r.unwrap() as nat) && r.unwrap() <= budget,
    decreases budget, 0int,
{
    let ghost target = walk(heap, tv, budget as nat);
    let mut current = tv;
    let mut b = budget;
    while CycleSearch::node_has_children(current, heap)
        invariant
            heap.wf(),
            heap.valid_value(current),
            b <= budget,
            target == walk(heap, current, b as nat),
            target == walk(heap, tv, budget as nat),
        decreases b,
    {
        if b == 0 {
            return None;
        }
        b = b - 1;
        if current.is_pair() {
            let car = heap.car(current);
            match walk_within(car, heap, b) {
                None => {
                    return None;
                },
                Some(b2) => {
                    current = heap.cdr(current);
                    b = b2;
                },
            }
        } else if current.is_vector() {
            let n = heap.vector_len(current);
            let ghost vs = heap.vector_slots()[current->Vector_0 as int];
            proof {
                assert(heap.all_valid(vs));
            }
            let mut k: usize = 0;
            while k < n
                invariant
                    heap.wf(),
                    current is Vector,
                    heap.valid_value(current),
                    vs == heap.vector_slots()[current->Vector_0 as int],
                    heap.all_valid(vs),
                    n == vs.len(),
                    k <= n,
                    b < budget,
                    target == walk_each(heap, vs, k as int, b as nat),
                    target == walk(heap, tv, budget as nat),
                decreases n - k,
            {
                assert(heap.valid_value(vs[k as int]));
                match walk_within(heap.vector_ref(current, k), heap, b) {
                    None => {
                        return None;
                    },
                    Some(b2) => {
                        b = b2;
                    },
                }
                k = k + 1;
            }
            return Some(b);
        } else {
            proof {
                assert(heap.all_valid(crate::heap::object_children(
                    heap.object_slots()[current->Object_0 as int],
                )));
            }
            match heap.get_object(current) {
                HeapObjectData::Values(vals) => {
                    let ghost vs = vals@;
                    let mut k: usize = 0;
                    while k < vals.len()
                        invariant
                            heap.wf(),
                            vs == vals@,
                            heap.all_valid(vs),
                            k <= vs.len(),
                            b < budget,
                            target == walk_each(heap, vs, k as int, b as nat),
                    target == walk(heap, tv, budget as nat),
                        decreases vs.len() - k,
                    {
                        assert(heap.valid_value(vs[k as int]));
                        match walk_within(vals[k], heap, b) {
                            None => {
                                return None;
                            },
                            Some(b2) => {
                                b = b2;
                            },
                        }
                        k = k + 1;
                    }
                    return Some(b);
                },
                HeapObjectData::MutableCell(content) => {
                    assert(heap.valid_value(crate::heap::object_children(
                        heap.object_slots()[current->Object_0 as int],
                    )[0]));
                    return walk_within(*content, heap, b);
                },
                _ => {
                    return Some(b);
                },
            }
        }
    }
    Some(b)
}

/// The marks fit the heap: one per slot of each arena.
pub open spec fn marks_fit(m: Marks, heap: &Heap) -> bool {
    &&& m.0.len() == heap.pair_slots().len()
    &&& m.1.len() == heap.vector_slots().len()
    &&& m.2.len() == heap.object_slots().len()
}

/// The search's marks, one byte per slot of each arena.
pub struct CycleSearch {
    pairs: Vec<u8>,
    vectors: Vec<u8>,
    objects: Vec<u8>,
}

impl CycleSearch {
    /// The marks, arena by arena.
    pub closed spec fn marks(&self) -> Marks {
        (self.pairs@, self.vectors@, self.objects@)
    }

    /// Every slot of `heap` unseen.
    pub fn new(heap: &Heap) -> (r: CycleSearch)
        ensures
            r.marks() == unseen_marks(heap),
    {
        let st = heap.stats();
        let r = CycleSearch {
            pairs: zeros(st.pairs),
            vectors: zeros(st.vectors),
            objects: zeros(st.objects),
        };
        assert(r.marks().0 =~= unseen_marks(heap).0);
        assert(r.marks().1 =~= unseen_marks(heap).1);
        assert(r.marks().2 =~= unseen_marks(heap).2);
        r
    }

    /// The mark of the node `tv`.
    pub fn mark(&self, tv: TaggedValue) -> (r: u8)
        requires
            tv is Pair ==> tv->Pair_0 < self.marks().0.len(),
            tv is Vector ==> tv->Vector_0 < self.marks().1.len(),
            tv is Object ==> tv->Object_0 < self.marks().2.len(),
        ensures
            r == mark_at(self.marks(), tv),
    {
        match tv {
            TaggedValue::Pair(i) => self.pairs[i as usize],
            TaggedValue::Vector(i) => self.vectors[i as usize],
            TaggedValue::Object(i) => self.objects[i as usize],
            _ => UNSEEN,
        }
    }

    fn set_mark(&mut self, tv: TaggedValue, b: u8)
        requires
            tv is Pair ==> tv->Pair_0 < old(self).marks().0.len(),
            tv is Vector ==> tv->Vector_0 < old(self).marks().1.len(),
            tv is Object ==> tv->Object_0 < old(self).marks().2.len(),
        ensures
            final(self).marks() == with_mark(old(self).marks(), tv, b),
    {
        match tv {
            TaggedValue::Pair(i) => self.pairs.set(i as usize, b),
            TaggedValue::Vector(i) => self.vectors.set(i as usize, b),
            TaggedValue::Object(i) => self.objects.set(i as usize, b),
            _ => {},
        }
    }

    /// `false` when `tv` needs no visit: seen before, or closing a cycle,
    /// which is recorded.
    fn enter(&mut self, tv: TaggedValue, heap: &Heap) -> (r: bool)
        requires
            marks_fit(old(self).marks(), heap),
            heap.valid_value(tv),
        ensures
            (r, final(self).marks()) == enter_node(old(self).marks(), tv),
            marks_fit(final(self).marks(), heap),
    {
        let b = self.mark(tv);
        if b == ON_PATH || b == ON_PATH_CYCLIC {
            self.set_mark(tv, ON_PATH_CYCLIC);
            false
        } else if b == DONE || b == DONE_CYCLIC {
            false
        } else {
            self.set_mark(tv, ON_PATH);
            true
        }
    }

    fn leave(&mut self, tv: TaggedValue, heap: &Heap)
        requires
            marks_fit(old(self).marks(), heap),
            heap.valid_value(tv),
        ensures
            final(self).marks() == leave_node(old(self).marks(), tv),
            marks_fit(final(self).marks(), heap),
    {
        let b = self.mark(tv);
        if b == ON_PATH {
            self.set_mark(tv, DONE);
        } else if b == ON_PATH_CYCLIC {
            self.set_mark(tv, DONE_CYCLIC);
        }
    }

    /// Whether a cycle can pass through `tv`.
    pub fn node_has_children(tv: TaggedValue, heap: &Heap) -> (r: bool)
        requires
            heap.valid_value(tv),
        ensures
            r == has_children(heap, tv),
    {
        match tv {
            TaggedValue::Pair(_) => true,
            TaggedValue::Vector(_) => true,
            TaggedValue::Object(_) => match heap.get_object(tv) {
                HeapObjectData::Values(_) => true,
                HeapObjectData::MutableCell(_) => true,
                _ => false,
            },
            _ => false,
        }
    }

    /// Visit `tv` and what it holds, `fuel` levels deep at most.
    pub fn visit(&mut self, tv: TaggedValue, heap: &Heap, fuel: u64)
        requires
            heap.wf(),
            heap.valid_value(tv),
            marks_fit(old(self).marks(), heap),
        ensures
            final(self).marks() == search_visit(heap, tv, old(self).marks(), fuel as nat),
            marks_fit(final(self).marks(), heap),
        decreases fuel, 0int,
    {
        if fuel == 0 || !Self::node_has_children(tv, heap) {
            return;
        }
        if tv.is_pair() {
            self.visit_spine(tv, heap, fuel - 1);
            return;
        }
        let ghost m0 = self.marks();
        if !self.enter(tv, heap) {
            return;
        }
        let ghost m1 = self.marks();
        if tv.is_vector() {
            let n = heap.vector_len(tv);
            let ghost vs = heap.vector_slots()[tv->Vector_0 as int];
            let mut k: usize = 0;
            while k < n
                invariant
                    heap.wf(),
                    tv is Vector,
                    heap.valid_value(tv),
                    vs == heap.vector_slots()[tv->Vector_0 as int],
                    n == vs.len(),
                    k <= n,
                    fuel > 0,
                    marks_fit(self.marks(), heap),
                    search_each(heap, vs, 0, m1, (fuel - 1) as nat) == search_each(
                        heap,
                        vs,
                        k as int,
                        self.marks(),
                        (fuel - 1) as nat,
                    ),
                decreases n - k,
            {
                let child = heap.vector_ref(tv, k);
                assert(heap.all_valid(heap.vector_slots()[tv->Vector_0 as int]));
                assert(heap.valid_value(vs[k as int]));
                self.visit(child, heap, fuel - 1);
                k = k + 1;
            }
        } else {
            match heap.get_object(tv) {
                HeapObjectData::Values(vals) => {
                    let ghost vs = vals@;
                    assert(heap.all_valid(crate::heap::object_children(
                        heap.object_slots()[tv->Object_0 as int],
                    )));
                    let mut k: usize = 0;
                    while k < vals.len()
                        invariant
                            heap.wf(),
                            vs == vals@,
                            heap.all_valid(vs),
                            k <= vs.len(),
                            fuel > 0,
                            marks_fit(self.marks(), heap),
                            search_each(heap, vs, 0, m1, (fuel - 1) as nat) == search_each(
                                heap,
                                vs,
                                k as int,
                                self.marks(),
                                (fuel - 1) as nat,
                            ),
                        decreases vs.len() - k,
                    {
                        assert(heap.valid_value(vs[k as int]));
                        self.visit(vals[k], heap, fuel - 1);
                        k = k + 1;
                    }
                },
                HeapObjectData::MutableCell(content) => {
                    assert(heap.all_valid(crate::heap::object_children(
                        heap.object_slots()[tv->Object_0 as int],
                    )));
                    assert(heap.valid_value(crate::heap::object_children(
                        heap.object_slots()[tv->Object_0 as int],
                    )[0]));
                    self.visit(*content, heap, fuel - 1);
                },
                _ => {},
            }
        }
        self.leave(tv, heap);
    }

    /// The search along the spine of the list at `tv`.
    fn visit_spine(&mut self, tv: TaggedValue, heap: &Heap, fuel: u64)
        requires
            heap.wf(),
            heap.valid_value(tv),
            marks_fit(old(self).marks(), heap),
        ensures
            final(self).marks() == search_spine(heap, tv, old(self).marks(), Seq::empty(), fuel as nat),
            marks_fit(final(self).marks(), heap),
        decreases fuel, 0int,
    {
        let ghost target = search_spine(heap, tv, self.marks(), Seq::empty(), fuel as nat);
        let mut spine: Vec<TaggedValue> = Vec::new();
        let mut current = tv;
        let mut f: u64 = fuel;
        let mut going = true;
        while going
            invariant
                heap.wf(),
                heap.valid_value(current),
                heap.all_valid(spine@),
                f <= fuel,
                marks_fit(self.marks(), heap),
                going ==> target == search_spine(heap, current, self.marks(), spine@, f as nat),
                !going ==> target == leave_all(self.marks(), spine@),
            decreases f as int + (if going { 1int } else { 0int }),
        {
            if f == 0 {
                going = false;
            } else if current.is_pair() {
                if self.enter(current, heap) {
                    spine.push(current);
                    let car = heap.car(current);
                    let cdr = heap.cdr(current);
                    self.visit(car, heap, f - 1);
                    current = cdr;
                    f = f - 1;
                } else {
                    going = false;
                }
            } else {
                self.visit(current, heap, f - 1);
                going = false;
            }
        }
        let ghost m_end = self.marks();
        let mut k: usize = 0;
        while k < spine.len()
            invariant
                heap.wf(),
                heap.all_valid(spine@),
                k <= spine@.len(),
                marks_fit(self.marks(), heap),
                self.marks() == leave_all(m_end, spine@.take(k as int)),
                target == leave_all(m_end, spine@),
            decreases spine@.len() - k,
        {
            proof {
                assert(spine@.take(k + 1).drop_last() =~= spine@.take(k as int));
                assert(heap.valid_value(spine@[k as int]));
            }
            self.leave(spine[k], heap);
            k = k + 1;
        }
        proof {
            assert(spine@.take(k as int) =~= spine@);
        }
    }
}

/// A vector of `n` unseen marks.
fn zeros(n: usize) -> (r: Vec<u8>)
    ensures
        r@ == Seq::new(n as nat, |i: int| UNSEEN),
{
    let mut v: Vec<u8> = Vec::new();
    let mut k: usize = 0;
    while k < n
        invariant
            k <= n,
            v@ == Seq::new(k as nat, |i: int| UNSEEN),
        decreases n - k,
    {
        v.push(UNSEEN);
        k = k + 1;
        assert(v@ =~= Seq::new(k as nat, |i: int| UNSEEN));
    }
    v
}

} // verus!
