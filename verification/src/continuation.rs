//! Identities for prompts and dynamic-wind extents, and the policy that walks
//! one wind stack to another.
use vstd::prelude::*;
use crate::tagged_value::TaggedValue;

verus! {

/// A source of fresh identities: each one handed out is larger than every
/// one before it, so no two are equal.
#[derive(Debug)]
pub struct IdSource {
    next: u64,
}

impl IdSource {
    /// The identity the next call hands out.
    pub closed spec fn spec_next(&self) -> u64 {
        self.next
    }

    /// A source whose first identity is `first`.
    pub fn starting_at(first: u64) -> (r: IdSource)
        ensures
            r.spec_next() == first,
    {
        IdSource { next: first }
    }

    /// A source whose first identity is 0.
    pub fn new() -> (r: IdSource)
        ensures
            r.spec_next() == 0,
    {
        IdSource { next: 0 }
    }

    /// Hand out a fresh identity.
    pub fn fresh(&mut self) -> (r: u64)
        requires
            old(self).spec_next() < u64::MAX,
        ensures
            r == old(self).spec_next(),
            final(self).spec_next() == r + 1,
    {
        let r = self.next;
        self.next = self.next + 1;
        r
    }
}

/// Mint a fresh prompt boundary identity.
pub fn next_prompt_id(ids: &mut IdSource) -> (r: u64)
    requires
        old(ids).spec_next() < u64::MAX,
    ensures
        r == old(ids).spec_next(),
        final(ids).spec_next() == r + 1,
{
    ids.fresh()
}

/// Mint a fresh `dynamic-wind` identity.
pub fn next_dynamic_wind_id(ids: &mut IdSource) -> (r: u64)
    requires
        old(ids).spec_next() < u64::MAX,
    ensures
        r == old(ids).spec_next(),
        final(ids).spec_next() == r + 1,
{
    ids.fresh()
}

/// Identities handed out by two calls of one source, the second after the
/// first, are distinct: the later one is strictly larger.
pub proof fn fresh_ids_are_distinct(first: u64, between: u64, second: u64)
    requires
        between == first + 1,
        between <= second,
    ensures
        first < second,
        first != second,
{
}

/// A dynamic extent: the identity of the `dynamic-wind` call, its before and
/// after thunks, and the handler stack in force at the call.
#[derive(Debug, Clone)]
pub struct WindRecord<H> {
    pub id: u64,
    pub before: TaggedValue,
    pub after: TaggedValue,
    pub handlers: Vec<H>,
}

impl<H> WindRecord<H> {
    /// A record with a fresh identity.
    pub fn new(before: TaggedValue, after: TaggedValue, handlers: Vec<H>, ids: &mut IdSource) -> (r:
        WindRecord<H>)
        requires
            old(ids).spec_next() < u64::MAX,
        ensures
            r.id == old(ids).spec_next(),
            final(ids).spec_next() == r.id + 1,
            r.before == before,
            r.after == after,
            r.handlers == handlers,
    {
        let id = next_dynamic_wind_id(ids);
        WindRecord { id, before, after, handlers }
    }
}

/// A dynamic extent's identity is per call, never per thunk: of two records
/// made one after the other from one id source, whatever thunks and
/// handlers each was given, the later has a larger id than the earlier.
pub proof fn lemma_wind_identity_is_per_call<H>(
    first: WindRecord<H>,
    next_after_first: u64,
    next_at_second: u64,
    second: WindRecord<H>,
)
    requires
        next_after_first == first.id + 1,
        next_after_first <= next_at_second,
        second.id == next_at_second,
    ensures
        first.id < second.id,
{
    fresh_ids_are_distinct(first.id, next_after_first, second.id);
}

/// An exception handler installed by `with-exception-handler`. Handlers
/// form a stack, as dynamic-wind records do; `raise` calls the topmost.
#[derive(Debug, Clone)]
pub struct ExceptionHandler {
    /// The handler procedure, `(lambda (condition) ...)`.
    pub handler: TaggedValue,
}

/// A dynamic extent whose handler stack holds exception handlers.
pub type DynamicWindRecord = WindRecord<ExceptionHandler>;

/// The next action of a continuation jump.
#[derive(Debug, Clone, Copy, PartialEq, Eq, Structural)]
pub enum WindStep {
    /// Pop the innermost live record before calling its after thunk.
    Exit,
    /// Call this target record's before thunk, then push it.
    Enter(usize),
    /// Install the target state and deliver the value.
    Arrive,
}

/// Length of the longest common prefix of two identity sequences.
pub open spec fn common_prefix_len(a: Seq<u64>, b: Seq<u64>) -> nat
    decreases a.len(),
{
    if a.len() == 0 || b.len() == 0 || a[0] != b[0] {
        0
    } else {
        1 + common_prefix_len(a.drop_first(), b.drop_first())
    }
}

/// The step that takes the live stack `current` one move toward `target`:
/// exit while the live stack is longer than the common prefix, then enter
/// the target's records in order, then arrive.
pub open spec fn spec_next_wind_step(current: Seq<u64>, target: Seq<u64>) -> WindStep {
    let common = common_prefix_len(current, target);
    if current.len() > common {
        WindStep::Exit
    } else if current.len() < target.len() {
        WindStep::Enter(current.len() as usize)
    } else {
        WindStep::Arrive
    }
}

proof fn lemma_common_prefix(a: Seq<u64>, b: Seq<u64>)
    ensures
        common_prefix_len(a, b) <= a.len(),
        common_prefix_len(a, b) <= b.len(),
        forall|i: int| 0 <= i < common_prefix_len(a, b) ==> a[i] == b[i],
        common_prefix_len(a, b) < a.len() && common_prefix_len(a, b) < b.len() ==> a[
            common_prefix_len(a, b) as int] != b[common_prefix_len(a, b) as int],
    decreases a.len(),
{
    if a.len() == 0 || b.len() == 0 || a[0] != b[0] {
    } else {
        lemma_common_prefix(a.drop_first(), b.drop_first());
        assert forall|i: int| 0 <= i < common_prefix_len(a, b) implies a[i] == b[i] by {
            if i > 0 {
                assert(a[i] == a.drop_first()[i - 1]);
                assert(b[i] == b.drop_first()[i - 1]);
            }
        }
    }
}

/// The next step of a full continuation jump from the live wind stack
/// `current` to `target`, both given by their records' identities,
/// outermost first.
pub fn next_wind_step(current: &[u64], target: &[u64]) -> (r: WindStep)
    ensures
        r == spec_next_wind_step(current@, target@),
{
    let mut common: usize = 0;
    while common < current.len() && common < target.len() && current[common] == target[common]
        invariant
            common <= current@.len(),
            common <= target@.len(),
            forall|i: int| 0 <= i < common ==> current@[i] == target@[i],
        decreases current@.len() - common,
    {
        common += 1;
    }
    proof {
        lemma_common_prefix(current@, target@);
        let c = common_prefix_len(current@, target@);
        if (common as nat) < c {
            assert(current@[common as int] == target@[common as int]);
        } else if (common as nat) > c {
            assert(current@[c as int] == target@[c as int]);
        }
        assert(common as nat == c);
    }
    if current.len() > common {
        WindStep::Exit
    } else if current.len() < target.len() {
        WindStep::Enter(current.len())
    } else {
        WindStep::Arrive
    }
}

/// Arrival is reached exactly when the live stack already is the target.
pub proof fn arrive_iff_stacks_equal(current: Seq<u64>, target: Seq<u64>)
    ensures
        (spec_next_wind_step(current, target) == WindStep::Arrive) <==> current == target,
{
    lemma_common_prefix(current, target);
    if current == target {
        if common_prefix_len(current, target) < current.len() {
            assert(current[common_prefix_len(current, target) as int] == target[common_prefix_len(
                current,
                target,
            ) as int]);
        }
    }
    if spec_next_wind_step(current, target) == WindStep::Arrive {
        assert(current =~= target);
    }
}

/// An `Enter` step enters the target record just past the live stack, and
/// the live stack is then a prefix of the target.
pub proof fn enter_extends_a_prefix(current: Seq<u64>, target: Seq<u64>, i: usize)
    requires
        current.len() <= usize::MAX,
        spec_next_wind_step(current, target) == WindStep::Enter(i),
    ensures
        i == current.len(),
        i < target.len(),
        current == target.take(i as int),
{
    lemma_common_prefix(current, target);
    let c = common_prefix_len(current, target);
    assert(c == current.len());
    assert forall|k: int| 0 <= k < current.len() implies current[k] == target.take(i as int)[k] by {
        assert(k < c);
    }
    assert(current =~= target.take(i as int));
}

/// Performing the step — pop on `Exit`, push the entered record on `Enter` —
/// brings the live stack strictly closer to the target: the distance
/// `(current.len() - common) + (target.len() - common)` falls by one.
pub proof fn step_makes_progress(current: Seq<u64>, target: Seq<u64>)
    requires
        current.len() <= usize::MAX,
    ensures
        spec_next_wind_step(current, target) == WindStep::Exit ==> {
            let next = current.drop_last();
            (next.len() - common_prefix_len(next, target)) + (target.len() - common_prefix_len(
                next,
                target,
            )) < (current.len() - common_prefix_len(current, target)) + (target.len()
                - common_prefix_len(current, target))
        },
        spec_next_wind_step(current, target) matches WindStep::Enter(i) ==> {
            let next = current.push(target[i as int]);
            (next.len() - common_prefix_len(next, target)) + (target.len() - common_prefix_len(
                next,
                target,
            )) < (current.len() - common_prefix_len(current, target)) + (target.len()
                - common_prefix_len(current, target))
        },
{
    lemma_common_prefix(current, target);
    let c = common_prefix_len(current, target);
    if spec_next_wind_step(current, target) == WindStep::Exit {
        let next = current.drop_last();
        lemma_common_prefix(next, target);
        lemma_prefix_monotone(next, target, c);
    }
    if let WindStep::Enter(i) = spec_next_wind_step(current, target) {
        let next = current.push(target[i as int]);
        lemma_common_prefix(next, target);
        assert(c == current.len());
        assert forall|k: int| 0 <= k < next.len() implies next[k] == target[k] by {
            if k < current.len() {
                assert(k < c);
            }
        }
        lemma_prefix_monotone(next, target, next.len());
    }
}

/// If `a` and `b` agree on their first `n` positions, their common prefix is
/// at least `n` long (capped by the shorter one).
proof fn lemma_prefix_monotone(a: Seq<u64>, b: Seq<u64>, n: nat)
    requires
        n <= a.len(),
        n <= b.len(),
        forall|i: int| 0 <= i < n ==> a[i] == b[i],
    ensures
        common_prefix_len(a, b) >= n,
    decreases n,
{
    if n > 0 {
        assert(a[0] == b[0]);
        assert forall|i: int| 0 <= i < n - 1 implies a.drop_first()[i] == b.drop_first()[i] by {
            assert(a[i + 1] == b[i + 1]);
        }
        lemma_prefix_monotone(a.drop_first(), b.drop_first(), (n - 1) as nat);
    }
}

} // verus!
