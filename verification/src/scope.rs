//! Scope sets for hygienic macro expansion.
//!
//! A scope set is a finite set of scope identifiers, held as a strictly
//! ascending vector so that equal sets have equal representations.
use vstd::prelude::*;
use crate::text::{decimal, push_decimal, push_str};

verus! {

/// A scope identifier.
pub type ScopeId = u64;

/// A finite set of scopes.
#[derive(Clone, Debug)]
pub struct ScopeSet {
    ids: Vec<ScopeId>,
}

/// Whether `s` is strictly ascending.
pub open spec fn strictly_ascending(s: Seq<ScopeId>) -> bool {
    forall|i: int, j: int| 0 <= i < j < s.len() ==> s[i] < s[j]
}

impl ScopeSet {
    /// The scope identifiers, in ascending order.
    pub closed spec fn ids_view(&self) -> Seq<ScopeId> {
        self.ids@
    }

    /// The set this value stands for.
    pub open spec fn view_set(&self) -> Set<ScopeId> {
        self.ids_view().to_set()
    }

    /// The representation is strictly ascending.
    pub closed spec fn wf(&self) -> bool {
        strictly_ascending(self.ids@)
    }

    /// The empty set.
    pub fn new() -> (r: ScopeSet)
        ensures
            r.wf(),
            r.ids_view() == Seq::<ScopeId>::empty(),
    {
        ScopeSet { ids: Vec::new() }
    }

    /// A copy of this set.
    pub fn duplicate(&self) -> (r: ScopeSet)
        ensures
            r.ids_view() == self.ids_view(),
            r.wf() == self.wf(),
    {
        let mut ids: Vec<ScopeId> = Vec::new();
        let mut k: usize = 0;
        while k < self.ids.len()
            invariant
                k <= self.ids@.len(),
                ids@ == self.ids@.take(k as int),
            decreases self.ids@.len() - k,
        {
            ids.push(self.ids[k]);
            assert(ids@ =~= self.ids@.take(k + 1));
            k = k + 1;
        }
        assert(ids@ =~= self.ids@);
        ScopeSet { ids }
    }

    /// Whether the set is empty.
    pub fn is_empty(&self) -> (r: bool)
        ensures
            r == (self.ids_view().len() == 0),
    {
        self.ids.len() == 0
    }

    /// The number of scopes in the set.
    pub fn len(&self) -> (r: usize)
        ensures
            r == self.ids_view().len(),
    {
        self.ids.len()
    }

    /// Whether `id` is in the set.
    pub fn contains(&self, id: ScopeId) -> (r: bool)
        ensures
            r == self.ids_view().contains(id),
    {
        let mut i: usize = 0;
        while i < self.ids.len()
            invariant
                i <= self.ids@.len(),
                forall|j: int| 0 <= j < i ==> self.ids@[j] != id,
            decreases self.ids@.len() - i,
        {
            if self.ids[i] == id {
                return true;
            }
            i += 1;
        }
        false
    }

    /// The set with `id` added.
    pub fn insert(&mut self, id: ScopeId)
        requires
            old(self).wf(),
        ensures
            final(self).wf(),
            final(self).view_set() == old(self).view_set().insert(id),
    {
        let n = self.ids.len();
        let mut pos: usize = 0;
        while pos < n && self.ids[pos] < id
            invariant
                n == self.ids@.len(),
                pos <= n,
                forall|j: int| 0 <= j < pos ==> self.ids@[j] < id,
            decreases n - pos,
        {
            pos += 1;
        }
        if pos < n && self.ids[pos] == id {
            return;
        }
        let ghost before = self.ids@;
        self.ids.insert(pos, id);
        proof {
            assert(self.ids@ =~= before.take(pos as int).push(id) + before.skip(pos as int));
            assert forall|i: int, j: int| 0 <= i < j < self.ids@.len() implies self.ids@[i]
                < self.ids@[j] by {
                if i < pos && j < pos {
                } else if i < pos && j == pos {
                } else if i < pos {
                    assert(self.ids@[j] == before[j - 1]);
                } else if i == pos {
                    assert(self.ids@[j] == before[j - 1]);
                    assert(before[pos as int] > id);
                } else {
                    assert(self.ids@[i] == before[i - 1]);
                    assert(self.ids@[j] == before[j - 1]);
                }
            }
            assert forall|x: ScopeId| self.ids@.contains(x) <==> before.contains(x) || x == id by {
                if self.ids@.contains(x) {
                    let k = choose|k: int| 0 <= k < self.ids@.len() && self.ids@[k] == x;
                    if k < pos {
                        assert(before[k] == x);
                    } else if k > pos {
                        assert(before[k - 1] == x);
                    }
                }
                if before.contains(x) {
                    let k = choose|k: int| 0 <= k < before.len() && before[k] == x;
                    if k < pos {
                        assert(self.ids@[k] == x);
                    } else {
                        assert(self.ids@[k + 1] == x);
                    }
                }
                if x == id {
                    assert(self.ids@[pos as int] == id);
                }
            }
            assert forall|x: ScopeId| #[trigger] self.view_set().contains(x) <==> old(
                self,
            ).view_set().insert(id).contains(x) by {
                assert(self.ids@.contains(x) <==> before.contains(x) || x == id);
            }
            assert(self.view_set() =~= old(self).view_set().insert(id));
        }
    }

    /// Whether the two sets hold the same scopes.
    pub fn same_as(&self, other: &ScopeSet) -> (r: bool)
        ensures
            r == (self.ids_view() == other.ids_view()),
    {
        if self.ids.len() != other.ids.len() {
            return false;
        }
        let mut i: usize = 0;
        while i < self.ids.len()
            invariant
                self.ids@.len() == other.ids@.len(),
                i <= self.ids@.len(),
                forall|j: int| 0 <= j < i ==> self.ids@[j] == other.ids@[j],
            decreases self.ids@.len() - i,
        {
            if self.ids[i] != other.ids[i] {
                return false;
            }
            i += 1;
        }
        proof {
            assert(self.ids@ =~= other.ids@);
        }
        true
    }

    /// Whether every scope of `self` is also in `other`.
    pub fn is_subset_of(&self, other: &ScopeSet) -> (r: bool)
        ensures
            r == self.view_set().subset_of(other.view_set()),
    {
        let mut i: usize = 0;
        while i < self.ids.len()
            invariant
                i <= self.ids@.len(),
                forall|j: int| 0 <= j < i ==> other.ids@.contains(#[trigger] self.ids@[j]),
            decreases self.ids@.len() - i,
        {
            if !other.contains(self.ids[i]) {
                proof {
                    assert(self.view_set().contains(self.ids@[i as int]));
                }
                return false;
            }
            i += 1;
        }
        proof {
            assert forall|x: ScopeId| self.view_set().contains(x) implies other.view_set().contains(
                x,
            ) by {
                let k = choose|k: int| 0 <= k < self.ids@.len() && self.ids@[k] == x;
                assert(other.ids@.contains(self.ids@[k]));
            }
        }
        true
    }
}

/// Scope identifiers written in decimal, separated by commas.
pub open spec fn ids_text(ids: Seq<ScopeId>) -> Seq<char>
    decreases ids.len(),
{
    if ids.len() == 0 {
        Seq::empty()
    } else if ids.len() == 1 {
        decimal(ids[0] as nat)
    } else {
        ids_text(ids.drop_last()) + ","@ + decimal(ids.last() as nat)
    }
}

/// How a scope set is written: its identifiers in ascending order, in
/// braces.
pub open spec fn scopes_text(s: ScopeSet) -> Seq<char> {
    "{"@ + ids_text(s.ids_view()) + "}"@
}

impl ScopeSet {
    /// Append how this set is written.
    pub fn push_text(&self, out: &mut Vec<char>)
        ensures
            final(out)@ == old(out)@ + scopes_text(*self),
    {
        push_str(out, "{");
        let ghost start = out@;
        let mut k: usize = 0;
        while k < self.ids.len()
            invariant
                k <= self.ids@.len(),
                out@ == start + ids_text(self.ids@.take(k as int)),
            decreases self.ids@.len() - k,
        {
            if k > 0 {
                push_str(out, ",");
            }
            push_decimal(out, self.ids[k]);
            proof {
                let next = self.ids@.take(k + 1);
                assert(next.drop_last() =~= self.ids@.take(k as int));
                if k == 0 {
                    assert(self.ids@.take(0) =~= Seq::<ScopeId>::empty());
                }
                assert(out@ =~= start + ids_text(next));
            }
            k = k + 1;
        }
        push_str(out, "}");
        proof {
            assert(self.ids@.take(k as int) =~= self.ids@);
            assert(out@ =~= old(out)@ + scopes_text(*self));
        }
    }
}

} // verus!
