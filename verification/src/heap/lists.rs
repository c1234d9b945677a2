//! Lists: chains of pairs. A proper list ends in the empty list; a chain
//! that runs into itself is circular and is no proper list.
use vstd::prelude::*;
use crate::heap::{Heap, arena_limit};
use crate::heap::gc::BitSet;
use crate::tagged_value::{HeapIndex, TaggedValue};

verus! {

/// A sequence with no `true` entry counts none.
proof fn lemma_count_true_none(s: Seq<bool>)
    requires
        forall|i: int| 0 <= i < s.len() ==> !#[trigger] s[i],
    ensures
        crate::heap::gc::count_true(s) == 0,
    decreases s.len(),
{
    if s.len() > 0 {
        lemma_count_true_none(s.drop_last());
    }
}

impl Heap {
    /// `tv` starts a chain of pairs whose cars are `items` and whose last
    /// cdr is `tail`.
    pub open spec fn spine(&self, tv: TaggedValue, items: Seq<TaggedValue>, tail: TaggedValue) -> bool
        decreases items.len(),
    {
        if items.len() == 0 {
            tv == tail
        } else {
            &&& tv is Pair
            &&& self.valid_value(tv)
            &&& self.pair_slots()[tv.spec_heap_index() as int].0 == items[0]
            &&& self.spine(
                self.pair_slots()[tv.spec_heap_index() as int].1,
                items.drop_first(),
                tail,
            )
        }
    }

    /// `tv` is the proper list of `items`.
    pub open spec fn proper_list(&self, tv: TaggedValue, items: Seq<TaggedValue>) -> bool {
        self.spine(tv, items, TaggedValue::Null)
    }

    /// `tv` is a proper list: a finite chain of pairs ending in `()`.
    pub open spec fn is_proper_list(&self, tv: TaggedValue) -> bool {
        exists|items: Seq<TaggedValue>| self.proper_list(tv, items)
    }

    /// The elements of the proper list `tv`.
    pub open spec fn list_items(&self, tv: TaggedValue) -> Seq<TaggedValue> {
        choose|items: Seq<TaggedValue>| self.proper_list(tv, items)
    }

    /// The value `n` cdrs along from `tv`, when every step before it is a
    /// pair.
    pub open spec fn nth_tail(&self, tv: TaggedValue, n: nat) -> Option<TaggedValue>
        decreases n,
    {
        if n == 0 {
            Some(tv)
        } else if tv is Pair && self.valid_value(tv) {
            self.nth_tail(self.pair_slots()[tv.spec_heap_index() as int].1, (n - 1) as nat)
        } else {
            None
        }
    }

    /// A chain can be followed by another that starts where it ends.
    pub proof fn lemma_spine_append(
        &self,
        tv: TaggedValue,
        a: Seq<TaggedValue>,
        mid: TaggedValue,
        b: Seq<TaggedValue>,
        tail: TaggedValue,
    )
        requires
            self.spine(tv, a, mid),
            self.spine(mid, b, tail),
        ensures
            self.spine(tv, a + b, tail),
        decreases a.len(),
    {
        if a.len() > 0 {
            let next = self.pair_slots()[tv.spec_heap_index() as int].1;
            self.lemma_spine_append(next, a.drop_first(), mid, b, tail);
            assert((a + b).drop_first() =~= a.drop_first() + b);
            assert((a + b)[0] == a[0]);
        }
    }

    /// A chain that ends in a pair grows by that pair.
    pub proof fn lemma_spine_extend(&self, tv: TaggedValue, a: Seq<TaggedValue>, mid: TaggedValue)
        requires
            self.spine(tv, a, mid),
            mid is Pair,
            self.valid_value(mid),
        ensures
            self.spine(
                tv,
                a.push(self.pair_slots()[mid.spec_heap_index() as int].0),
                self.pair_slots()[mid.spec_heap_index() as int].1,
            ),
    {
        let car = self.pair_slots()[mid.spec_heap_index() as int].0;
        let cdr = self.pair_slots()[mid.spec_heap_index() as int].1;
        assert(seq![car].drop_first() =~= Seq::<TaggedValue>::empty());
        assert(self.spine(cdr, Seq::<TaggedValue>::empty(), cdr));
        assert(self.spine(mid, seq![car], cdr));
        self.lemma_spine_append(tv, a, mid, seq![car], cdr);
        assert(a + seq![car] =~= a.push(car));
    }

    /// A proper list passes through every node of a chain from its start:
    /// it is at least as long, agrees on the chain's cars, and its rest is
    /// the proper list from the chain's end.
    pub proof fn lemma_spine_split(
        &self,
        tv: TaggedValue,
        a: Seq<TaggedValue>,
        mid: TaggedValue,
        b: Seq<TaggedValue>,
    )
        requires
            self.spine(tv, a, mid),
            self.proper_list(tv, b),
        ensures
            a.len() <= b.len(),
            b.take(a.len() as int) == a,
            self.proper_list(mid, b.skip(a.len() as int)),
        decreases a.len(),
    {
        if a.len() == 0 {
            assert(b.take(0) =~= a);
            assert(b.skip(0) =~= b);
        } else {
            if b.len() == 0 {
                assert(tv == TaggedValue::Null);
            }
            let next = self.pair_slots()[tv.spec_heap_index() as int].1;
            self.lemma_spine_split(next, a.drop_first(), mid, b.drop_first());
            assert(b.take(a.len() as int) =~= seq![b[0]] + b.drop_first().take(a.len() - 1));
            assert(a =~= seq![a[0]] + a.drop_first());
            assert(b.skip(a.len() as int) =~= b.drop_first().skip(a.len() - 1));
        }
    }

    /// A value is the proper list of at most one sequence.
    pub proof fn lemma_proper_list_unique(&self, tv: TaggedValue, a: Seq<TaggedValue>, b: Seq<TaggedValue>)
        requires
            self.proper_list(tv, a),
            self.proper_list(tv, b),
        ensures
            a == b,
    {
        self.lemma_spine_split(tv, a, TaggedValue::Null, b);
        let rest = b.skip(a.len() as int);
        if rest.len() > 0 {
            assert(TaggedValue::Null is Pair);
        }
        assert(b =~= b.take(a.len() as int) + rest);
    }

    /// A chain from `tv` that ends in neither a pair nor `()`, or that
    /// reaches one node twice, shows `tv` is no proper list.
    proof fn lemma_not_proper(
        &self,
        tv: TaggedValue,
        a: Seq<TaggedValue>,
        cur: TaggedValue,
        m: int,
        b: Seq<TaggedValue>,
    )
        requires
            self.spine(tv, a, cur),
            0 <= m < a.len(),
            self.spine(tv, a.take(m), cur),
        ensures
            !self.proper_list(tv, b),
    {
        if self.proper_list(tv, b) {
            self.lemma_spine_split(tv, a, cur, b);
            self.lemma_spine_split(tv, a.take(m), cur, b);
            self.lemma_proper_list_unique(cur, b.skip(a.len() as int), b.skip(m));
            assert(b.skip(a.len() as int).len() == b.skip(m).len());
        }
    }

    /// The elements of `tv` when it is a proper list; `None` when it is
    /// improper or circular.
    pub fn list_to_vec(&self, tv: TaggedValue) -> (r: Option<Vec<TaggedValue>>)
        requires
            self.wf(),
            self.valid_value(tv),
        ensures
            r is Some <==> self.is_proper_list(tv),
            r is Some ==> self.proper_list(tv, r->0@) && r->0@ == self.list_items(tv),
    {
        let mut seen = BitSet::new(self.pairs.len());
        let mut items: Vec<TaggedValue> = Vec::new();
        let mut cur = tv;
        let ghost mut nodes: Seq<TaggedValue> = Seq::empty();
        proof {
            assert(items@ =~= Seq::<TaggedValue>::empty());
            lemma_count_true_none(seen@);
        }
        loop
            invariant
                self.wf(),
                self.valid_value(cur),
                self.spine(tv, items@, cur),
                seen.wf(),
                seen@.len() == self.pair_slots().len(),
                nodes.len() == items@.len(),
                crate::heap::gc::count_true(seen@) == nodes.len(),
                forall|m: int|
                    0 <= m < nodes.len() ==> {
                        &&& (#[trigger] nodes[m]) is Pair
                        &&& nodes[m].spec_heap_index() < self.pair_slots().len()
                        &&& seen@[nodes[m].spec_heap_index() as int]
                        &&& self.spine(tv, items@.take(m), nodes[m])
                    },
                forall|j: int|
                    0 <= j < seen@.len() && #[trigger] seen@[j] ==> exists|m: int|
                        0 <= m < nodes.len() && nodes[m] == TaggedValue::Pair(j as HeapIndex),
            decreases self.pair_slots().len() - nodes.len(),
        {
            match cur {
                TaggedValue::Null => {
                    proof {
                        assert(self.proper_list(tv, items@));
                        self.lemma_proper_list_unique(tv, items@, self.list_items(tv));
                    }
                    return Some(items);
                },
                TaggedValue::Pair(i) => {
                    if seen.get(i as usize) {
                        proof {
                            let m = choose|m: int|
                                0 <= m < nodes.len() && nodes[m] == TaggedValue::Pair(i);
                            assert forall|b: Seq<TaggedValue>| !self.proper_list(tv, b) by {
                                self.lemma_not_proper(tv, items@, cur, m, b);
                            }
                        }
                        return None;
                    }
                    let ghost before = seen@;
                    seen.set(i as usize);
                    let (car, cdr) = self.get_pair(cur);
                    proof {
                        self.lemma_spine_extend(tv, items@, cur);
                        assert(items@.push(car).take(items@.len() as int) =~= items@);
                        crate::heap::gc::lemma_count_true_set(before, i as int);
                    }
                    items.push(car);
                    proof {
                        let old_nodes = nodes;
                        nodes = nodes.push(cur);
                        assert forall|m: int| 0 <= m < nodes.len() implies {
                            &&& (#[trigger] nodes[m]) is Pair
                            &&& nodes[m].spec_heap_index() < self.pair_slots().len()
                            &&& seen@[nodes[m].spec_heap_index() as int]
                            &&& self.spine(tv, items@.take(m), nodes[m])
                        } by {
                            if m < old_nodes.len() {
                                assert(nodes[m] == old_nodes[m]);
                                assert(items@.take(m) =~= items@.drop_last().take(m));
                            } else {
                                assert(items@.take(m) =~= items@.drop_last());
                            }
                        }
                        assert forall|j: int|
                            0 <= j < seen@.len() && #[trigger] seen@[j] implies exists|m: int|
                                0 <= m < nodes.len() && nodes[m] == TaggedValue::Pair(
                                    j as HeapIndex,
                                ) by {
                            if j == i as int {
                                assert(nodes[old_nodes.len() as int] == TaggedValue::Pair(i));
                            } else {
                                assert(before[j]);
                                let m = choose|m: int|
                                    0 <= m < old_nodes.len() && old_nodes[m] == TaggedValue::Pair(
                                        j as HeapIndex,
                                    );
                                assert(nodes[m] == old_nodes[m]);
                            }
                        }
                        crate::heap::gc::lemma_count_true_le(seen@);
                    }
                    cur = cdr;
                },
                _ => {
                    proof {
                        assert forall|b: Seq<TaggedValue>| !self.proper_list(tv, b) by {
                            if self.proper_list(tv, b) {
                                self.lemma_spine_split(tv, items@, cur, b);
                                let rest = b.skip(items@.len() as int);
                                if rest.len() == 0 {
                                    assert(cur == TaggedValue::Null);
                                } else {
                                    assert(cur is Pair);
                                }
                            }
                        }
                    }
                    return None;
                },
            }
        }
    }
}

impl Heap {
    /// Whether `tv` is a proper list.
    pub fn is_list(&self, tv: TaggedValue) -> (r: bool)
        requires
            self.wf(),
            self.valid_value(tv),
        ensures
            r == self.is_proper_list(tv),
    {
        self.list_to_vec(tv).is_some()
    }

    /// The length of `tv` when it is a proper list.
    pub fn list_len(&self, tv: TaggedValue) -> (r: Option<usize>)
        requires
            self.wf(),
            self.valid_value(tv),
        ensures
            r is Some <==> self.is_proper_list(tv),
            r is Some ==> r->0 == self.list_items(tv).len(),
    {
        match self.list_to_vec(tv) {
            Some(v) => Some(v.len()),
            None => None,
        }
    }

    /// The car of the pair `index` cdrs along from `tv`; `None` when the
    /// walk meets a non-pair first.
    pub fn list_ref(&self, tv: TaggedValue, index: usize) -> (r: Option<TaggedValue>)
        requires
            self.wf(),
            self.valid_value(tv),
        ensures
            r == match self.nth_tail(tv, index as nat) {
                Some(TaggedValue::Pair(i)) => Some(self.pair_slots()[i as int].0),
                _ => None,
            },
    {
        let mut cur = tv;
        let mut k: usize = 0;
        while k < index
            invariant
                self.wf(),
                k <= index,
                self.valid_value(cur),
                self.nth_tail(tv, index as nat) == self.nth_tail(cur, (index - k) as nat),
            decreases index - k,
        {
            match cur {
                TaggedValue::Pair(_) => {
                    cur = self.cdr(cur);
                },
                _ => {
                    return None;
                },
            }
            k = k + 1;
        }
        match cur {
            TaggedValue::Pair(_) => Some(self.car(cur)),
            _ => None,
        }
    }

    /// The value `n` cdrs along from `tv`; `None` when the walk meets a
    /// non-pair first.
    pub fn list_tail(&self, tv: TaggedValue, n: usize) -> (r: Option<TaggedValue>)
        requires
            self.wf(),
            self.valid_value(tv),
        ensures
            r == self.nth_tail(tv, n as nat),
    {
        let mut cur = tv;
        let mut k: usize = 0;
        while k < n
            invariant
                self.wf(),
                k <= n,
                self.valid_value(cur),
                self.nth_tail(tv, n as nat) == self.nth_tail(cur, (n - k) as nat),
            decreases n - k,
        {
            match cur {
                TaggedValue::Pair(_) => {
                    cur = self.cdr(cur);
                },
                _ => {
                    return None;
                },
            }
            k = k + 1;
        }
        Some(cur)
    }

    /// How many more pairs can be allocated: free slots plus room left in
    /// the index range.
    pub open spec fn pair_room(&self) -> int {
        self.free_pair_list().len() + arena_limit() - self.pair_slots().len()
    }

    /// The pair slots `nodes` hold `items` as a chain ending in `tail`.
    pub open spec fn chain(&self, nodes: Seq<HeapIndex>, items: Seq<TaggedValue>, tail: TaggedValue) -> bool {
        &&& nodes.len() == items.len()
        &&& forall|i: int|
            0 <= i < nodes.len() ==> {
                &&& (#[trigger] nodes[i]) < self.pair_slots().len()
                &&& self.pair_slots()[nodes[i] as int] == (
                    items[i],
                    if i + 1 < nodes.len() {
                        TaggedValue::Pair(nodes[i + 1])
                    } else {
                        tail
                    },
                )
            }
    }

    proof fn lemma_chain_spine(&self, nodes: Seq<HeapIndex>, items: Seq<TaggedValue>, tail: TaggedValue)
        requires
            self.chain(nodes, items, tail),
        ensures
            self.spine(chain_head(nodes, tail), items, tail),
        decreases nodes.len(),
    {
        if nodes.len() > 0 {
            let rest = nodes.drop_first();
            assert(self.chain(rest, items.drop_first(), tail)) by {
                assert forall|i: int| 0 <= i < rest.len() implies {
                    &&& (#[trigger] rest[i]) < self.pair_slots().len()
                    &&& self.pair_slots()[rest[i] as int] == (
                        items.drop_first()[i],
                        if i + 1 < rest.len() {
                            TaggedValue::Pair(rest[i + 1])
                        } else {
                            tail
                        },
                    )
                } by {
                    assert(rest[i] == nodes[i + 1]);
                }
            }
            self.lemma_chain_spine(rest, items.drop_first(), tail);
            assert(self.pair_slots()[nodes[0] as int] == (items[0], chain_head(rest, tail)));
        }
    }

    /// A list of `items` ending in `tail`: `(a b . c)` for `[a, b]` and
    /// `c`. Conses from the back, so the partial list is never left
    /// unreferenced by a finished pair.
    pub fn list_from_iter_with_tail(&mut self, items: Vec<TaggedValue>, tail: TaggedValue) -> (r: TaggedValue)
        requires
            old(self).wf(),
            old(self).all_valid(items@),
            old(self).valid_value(tail),
            items@.len() <= old(self).pair_room(),
        ensures
            final(self).wf(),
            final(self).valid_value(r),
            final(self).spine(r, items@, tail),
            final(self).vector_slots() == old(self).vector_slots(),
            final(self).string_slots() == old(self).string_slots(),
            final(self).object_slots() == old(self).object_slots(),
            final(self).free_vector_list() == old(self).free_vector_list(),
            final(self).free_string_list() == old(self).free_string_list(),
            final(self).free_object_list() == old(self).free_object_list(),
            final(self).symbol_indices() == old(self).symbol_indices(),
            final(self).arenas_extend(old(self)),
    {
        let mut result = tail;
        let mut k: usize = items.len();
        let ghost mut nodes: Seq<HeapIndex> = Seq::empty();
        proof {
            assert(items@.skip(k as int) =~= Seq::<TaggedValue>::empty());
        }
        while k > 0
            invariant
                self.wf(),
                k <= items@.len(),
                old(self).all_valid(items@),
                self.arenas_extend(old(self)),
                k <= self.pair_room(),
                self.valid_value(result),
                self.chain(nodes, items@.skip(k as int), tail),
                result == chain_head(nodes, tail),
                forall|i: int| 0 <= i < nodes.len() ==> !self.free_pair_list().contains(#[trigger] nodes[i]),
                self.vector_slots() == old(self).vector_slots(),
                self.string_slots() == old(self).string_slots(),
                self.object_slots() == old(self).object_slots(),
                self.free_vector_list() == old(self).free_vector_list(),
                self.free_string_list() == old(self).free_string_list(),
                self.free_object_list() == old(self).free_object_list(),
                self.symbol_indices() == old(self).symbol_indices(),
            decreases k,
        {
            let item = items[k - 1];
            let ghost before = *self;
            proof {
                self.lemma_valid_grows(old(self));
            }
            let p = self.alloc_pair(item, result);
            let ghost q = p.spec_heap_index();
            proof {
                let b = before;
                let tail_items = items@.skip(k as int);
                let new_items = items@.skip(k - 1);
                assert(new_items =~= seq![item] + tail_items);
                assert forall|i: int| 0 <= i < nodes.len() implies (#[trigger] nodes[i]) != q by {
                    if b.free_pair_list().len() > 0 {
                        assert(b.free_pair_list().contains(b.free_pair_list().last()));
                    }
                }
                let new_nodes = seq![q] + nodes;
                assert forall|i: int| 0 <= i < new_nodes.len() implies {
                    &&& (#[trigger] new_nodes[i]) < self.pair_slots().len()
                    &&& self.pair_slots()[new_nodes[i] as int] == (
                        new_items[i],
                        if i + 1 < new_nodes.len() {
                            TaggedValue::Pair(new_nodes[i + 1])
                        } else {
                            tail
                        },
                    )
                } by {
                    if i > 0 {
                        assert(new_nodes[i] == nodes[i - 1]);
                        assert(new_items[i] == tail_items[i - 1]);
                        assert(self.pair_slots()[nodes[i - 1] as int] == b.pair_slots()[nodes[i - 1] as int]);
                    } else {
                        if nodes.len() > 0 {
                            assert(new_nodes[1] == nodes[0]);
                        }
                    }
                }
                assert forall|i: int| 0 <= i < new_nodes.len() implies !self.free_pair_list().contains(
                    #[trigger] new_nodes[i],
                ) by {
                    if b.free_pair_list().len() > 0 {
                        let f = b.free_pair_list();
                        if i == 0 {
                            if f.drop_last().contains(q) {
                                let j = choose|j: int| 0 <= j < f.drop_last().len() && f.drop_last()[j] == q;
                                assert(f[j] == f[f.len() - 1]);
                            }
                        } else {
                            assert(new_nodes[i] == nodes[i - 1]);
                            if f.drop_last().contains(nodes[i - 1]) {
                                let j = choose|j: int| 0 <= j < f.drop_last().len() && f.drop_last()[j] == nodes[i - 1];
                                assert(f[j] == nodes[i - 1]);
                            }
                        }
                    } else {
                        if i > 0 {
                            assert(new_nodes[i] == nodes[i - 1]);
                        }
                    }
                }
                nodes = new_nodes;
                self.lemma_valid_grows(&b);
            }
            result = p;
            k = k - 1;
        }
        proof {
            assert(items@.skip(0) =~= items@);
            self.lemma_chain_spine(nodes, items@, tail);
        }
        result
    }

    /// The proper list of `items`.
    pub fn list_from_iter(&mut self, items: Vec<TaggedValue>) -> (r: TaggedValue)
        requires
            old(self).wf(),
            old(self).all_valid(items@),
            items@.len() <= old(self).pair_room(),
        ensures
            final(self).wf(),
            final(self).valid_value(r),
            final(self).proper_list(r, items@),
            final(self).vector_slots() == old(self).vector_slots(),
            final(self).string_slots() == old(self).string_slots(),
            final(self).object_slots() == old(self).object_slots(),
            final(self).symbol_indices() == old(self).symbol_indices(),
            final(self).arenas_extend(old(self)),
    {
        self.list_from_iter_with_tail(items, TaggedValue::Null)
    }

    /// The elements of the proper list `tv` in reverse order, as a new
    /// list; `None` when `tv` is improper or circular.
    pub fn list_reverse(&mut self, tv: TaggedValue) -> (r: Option<TaggedValue>)
        requires
            old(self).wf(),
            old(self).valid_value(tv),
            old(self).is_proper_list(tv) ==> old(self).list_items(tv).len() <= old(self).pair_room(),
        ensures
            final(self).wf(),
            r is Some <==> old(self).is_proper_list(tv),
            r is Some ==> final(self).proper_list(r->0, old(self).list_items(tv).reverse()),
            r is None ==> *final(self) == *old(self),
            final(self).arenas_extend(old(self)),
    {
        match self.list_to_vec(tv) {
            None => None,
            Some(v) => {
                let mut rev: Vec<TaggedValue> = Vec::new();
                let mut k: usize = v.len();
                while k > 0
                    invariant
                        k <= v@.len(),
                        rev@ == v@.skip(k as int).reverse(),
                    decreases k,
                {
                    rev.push(v[k - 1]);
                    proof {
                        assert(v@.skip(k - 1) =~= seq![v@[k - 1]] + v@.skip(k as int));
                        assert(rev@ =~= v@.skip(k - 1).reverse());
                    }
                    k = k - 1;
                }
                proof {
                    assert(v@.skip(0) =~= v@);
                    assert forall|j: int| 0 <= j < rev@.len() implies self.valid_value(
                        #[trigger] rev@[j],
                    ) by {
                        self.lemma_list_items_valid(tv, v@, v@.len() - 1 - j);
                    }
                }
                Some(self.list_from_iter(rev))
            },
        }
    }

    /// The elements of a proper list in a well-formed heap are valid values.
    pub proof fn lemma_list_items_valid(&self, tv: TaggedValue, items: Seq<TaggedValue>, j: int)
        requires
            self.wf(),
            self.proper_list(tv, items),
            0 <= j < items.len(),
        ensures
            self.valid_value(items[j]),
        decreases items.len(),
    {
        let i = tv.spec_heap_index() as int;
        assert(self.valid_value(self.pair_slots()[i].0));
        if j > 0 {
            self.lemma_list_items_valid(self.pair_slots()[i].1, items.drop_first(), j - 1);
        }
    }

    /// The elements of `first` followed by `second`: new pairs for
    /// `first`'s elements, `second` shared. `None` when `first` is improper
    /// or circular.
    pub fn list_append(&mut self, first: TaggedValue, second: TaggedValue) -> (r: Option<TaggedValue>)
        requires
            old(self).wf(),
            old(self).valid_value(first),
            old(self).valid_value(second),
            old(self).is_proper_list(first) ==> old(self).list_items(first).len() <= old(self).pair_room(),
        ensures
            final(self).wf(),
            r is Some <==> old(self).is_proper_list(first),
            r is Some ==> final(self).spine(r->0, old(self).list_items(first), second),
            r is None ==> *final(self) == *old(self),
            final(self).arenas_extend(old(self)),
    {
        if first.is_null() {
            proof {
                assert(self.proper_list(first, Seq::<TaggedValue>::empty()));
                self.lemma_proper_list_unique(first, Seq::<TaggedValue>::empty(), self.list_items(first));
            }
            return Some(second);
        }
        match self.list_to_vec(first) {
            None => None,
            Some(v) => {
                proof {
                    assert forall|j: int| 0 <= j < v@.len() implies self.valid_value(
                        #[trigger] v@[j],
                    ) by {
                        self.lemma_list_items_valid(first, v@, j);
                    }
                }
                Some(self.list_from_iter_with_tail(v, second))
            },
        }
    }
}

/// The first pair of a chain over `nodes`, or `tail` for an empty chain.
pub open spec fn chain_head(nodes: Seq<HeapIndex>, tail: TaggedValue) -> TaggedValue {
    if nodes.len() > 0 {
        TaggedValue::Pair(nodes[0])
    } else {
        tail
    }
}

} // verus!
