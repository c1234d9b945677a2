//! Environments: frames of variable bindings, chained to their parents.
//!
//! All environments of a program live in one [`Environments`] arena and are
//! named by their index in it; a frame's parent is always an earlier frame,
//! so every parent chain ends. A frame holds
//!
//! - plain bindings, in append-only slots: redefining a name overwrites its
//!   slot in place, so a slot index stays valid for the frame's life;
//! - links from slots to the slot of another frame that owns the location
//!   (an import shares the exporting library's location, so an assignment on
//!   either side is seen by both);
//! - bindings filed under scope sets, for hygienic lookup;
//! - macro-expansion aliases, names that stand for a binding elsewhere;
//! - the identities of macro-introduced top-level definitions the bytecode
//!   compiler renamed, and the hidden names minted for imported locations.
//!
//! Links and aliases can be chained, and nothing forbids a chain that comes
//! back to where it started. Every walk therefore carries a budget: one step
//! per slot and per alias the arena holds, which every chain that ends stays
//! within. A walk that runs out of budget has met a cycle.
use vstd::prelude::*;
use crate::scope::{scopes_text, ScopeId, ScopeSet};
use crate::text::{chars_of, push_str, string_from_chars};
use crate::tagged_value::TaggedValue;

verus! {

// ---------------------------------------------------------------------------
// Tables keyed by name
// ---------------------------------------------------------------------------

/// The first index at or after `k` whose key is `name`.
pub open spec fn find_from<X>(s: Seq<(String, X)>, name: Seq<char>, k: int) -> Option<int>
    decreases s.len() - k,
{
    if k < 0 || k >= s.len() {
        None
    } else if s[k].0@ == name {
        Some(k)
    } else {
        find_from(s, name, k + 1)
    }
}

/// The first index whose key is `name`.
pub open spec fn find_key<X>(s: Seq<(String, X)>, name: Seq<char>) -> Option<int> {
    find_from(s, name, 0)
}

/// What `find_from` finds is in range and has the key; keys before it
/// differ; nothing found means no key from `k` on matches.
pub proof fn lemma_find_from<X>(s: Seq<(String, X)>, name: Seq<char>, k: int)
    requires
        0 <= k,
    ensures
        match find_from(s, name, k) {
            Some(i) => k <= i < s.len() && s[i].0@ == name && forall|j: int|
                k <= j < i ==> s[j].0@ != name,
            None => forall|j: int| k <= j < s.len() ==> s[j].0@ != name,
        },
    decreases s.len() - k,
{
    if k < s.len() && s[k].0@ != name {
        lemma_find_from(s, name, k + 1);
    }
}

/// Two tables with the same keys find the same index.
pub proof fn lemma_find_same_keys<X, Y>(s: Seq<(String, X)>, t: Seq<(String, Y)>, name: Seq<char>, k: int)
    requires
        s.len() == t.len(),
        forall|j: int| 0 <= j < s.len() ==> s[j].0@ == t[j].0@,
    ensures
        find_from(s, name, k) == find_from(t, name, k),
    decreases s.len() - k,
{
    if 0 <= k < s.len() && s[k].0@ != name {
        lemma_find_same_keys(s, t, name, k + 1);
    }
}

/// The index of the entry keyed `name`, scanning from the front.
fn position_of<X>(v: &Vec<(String, X)>, name: &String) -> (r: Option<usize>)
    ensures
        match r {
            Some(k) => find_key(v@, name@) == Some(k as int) && k < v@.len(),
            None => find_key(v@, name@) is None,
        },
{
    let mut k: usize = 0;
    while k < v.len()
        invariant
            k <= v@.len(),
            find_key(v@, name@) == find_from(v@, name@, k as int),
        decreases v@.len() - k,
    {
        if v[k].0 == *name {
            return Some(k);
        }
        k = k + 1;
    }
    proof {
        assert(find_from(v@, name@, k as int) is None);
    }
    None
}

// ---------------------------------------------------------------------------
// The data
// ---------------------------------------------------------------------------

/// A binding filed under the scope set it was bound at.
#[derive(Debug)]
pub struct ScopedBinding {
    pub scopes: ScopeSet,
    pub tagged_value: TaggedValue,
    /// Whether a name-only lookup may fall back to this binding: false for
    /// a macro-introduced parameter, true for a macro-introduced definition.
    pub visible_by_name: bool,
}

/// Where a macro-expansion alias points: the environment holding the
/// binding (`None` for the one holding the alias), the name it has there,
/// and, for a definition reachable only under its scopes, that scope set.
#[derive(Debug)]
pub struct AliasTarget {
    pub env: Option<usize>,
    pub name: String,
    pub scopes: Option<ScopeSet>,
}

/// One environment's tables.
#[derive(Debug)]
pub struct Frame {
    /// Never reused, never zero.
    pub env_id: u64,
    pub parent: Option<usize>,
    /// Plain bindings; a name's slot is its index here.
    pub slots: Vec<(String, TaggedValue)>,
    /// Per slot, the frame and slot that own the location when another
    /// frame does; a slot past the end is this frame's own.
    pub links: Vec<Option<(usize, u32)>>,
    /// Scoped bindings, per name.
    pub scoped: Vec<(String, Vec<ScopedBinding>)>,
    /// Macro-expansion aliases.
    pub aliases: Vec<(String, AliasTarget)>,
    /// Per name, the scope sets its macro-introduced top-level definitions
    /// were introduced at, and the global each was renamed to.
    pub introduced: Vec<(String, Vec<(ScopeSet, String)>)>,
    /// Per imported location (owner frame and slot), the hidden aliases
    /// minted for it: the spelling asked about, and the alias.
    pub import_aliases: Vec<((usize, u32), Vec<(String, String)>)>,
    /// The distinct frames the links point into.
    pub owners: Vec<usize>,
}

/// Which location a name reaches by its by-name view: the id of the frame
/// that owns a plain binding and its slot, or the frame holding a scoped
/// definition, its spelling and its place among that spelling's bindings.
#[derive(Debug, Clone, PartialEq, Eq)]
pub enum BindingLocation {
    Slot(u64, u32),
    Scoped(u64, String, usize),
}

/// A place a name's walk ends at: a slot of a frame, or a scoped binding
/// (frame, entry of its name, index in the entry).
#[derive(Debug, Clone, Copy, PartialEq, Eq)]
pub enum Place {
    Slot(usize, usize),
    Scoped(usize, usize, usize),
}

/// Every environment of a program.
#[derive(Debug)]
pub struct Environments {
    frames: Vec<Frame>,
    /// The id the next frame gets.
    next_id: u64,
    /// Slots and aliases held, all frames together: the walks' budget.
    budget: u64,
}

// ---------------------------------------------------------------------------
// The model
// ---------------------------------------------------------------------------

/// The owner recorded for slot `s` of `f`.
pub open spec fn link_of(f: Frame, s: int) -> Option<(usize, u32)> {
    if 0 <= s < f.links@.len() {
        f.links@[s]
    } else {
        None
    }
}

/// The slot that holds slot `s` of frame `e`'s value: links followed for at
/// most `fuel` steps.
pub open spec fn resolve_slot(fr: Seq<Frame>, e: int, s: int, fuel: nat) -> (int, int)
    decreases fuel,
{
    match link_of(fr[e], s) {
        Some((o, os)) => if fuel > 0 {
            resolve_slot(fr, o as int, os as int, (fuel - 1) as nat)
        } else {
            (e, s)
        },
        None => (e, s),
    }
}

/// The value slot `s` of frame `e` reads as.
pub open spec fn slot_read(fr: Seq<Frame>, e: int, s: int, fuel: nat) -> TaggedValue {
    let (e2, s2) = resolve_slot(fr, e, s, fuel);
    fr[e2].slots@[s2].1
}

/// The alias `f` holds for `name`.
pub open spec fn alias_of(f: Frame, name: Seq<char>) -> Option<int> {
    find_key(f.aliases@, name)
}

/// The last index below `n` of a binding visible by name.
pub open spec fn last_visible(bs: Seq<ScopedBinding>, n: int) -> Option<int>
    decreases n,
{
    if n <= 0 {
        None
    } else if bs[n - 1].visible_by_name {
        Some(n - 1)
    } else {
        last_visible(bs, n - 1)
    }
}

/// The name-only view of `name`'s scoped bindings in `f`: the entry, and
/// the latest binding visible by name.
pub open spec fn visible_place(f: Frame, name: Seq<char>) -> Option<(int, int)> {
    match find_key(f.scoped@, name) {
        Some(en) => match last_visible(f.scoped@[en].1@, f.scoped@[en].1@.len() as int) {
            Some(i) => Some((en, i)),
            None => None,
        },
        None => None,
    }
}

/// The first index at or after `k` of a binding at exactly `sc`.
pub open spec fn scopes_from(bs: Seq<ScopedBinding>, sc: Seq<ScopeId>, k: int) -> Option<int>
    decreases bs.len() - k,
{
    if k < 0 || k >= bs.len() {
        None
    } else if bs[k].scopes.ids_view() == sc {
        Some(k)
    } else {
        scopes_from(bs, sc, k + 1)
    }
}

/// The scoped definition of `name` at exactly `sc` in frame `e`.
pub open spec fn scoped_definition_place(fr: Seq<Frame>, e: int, name: Seq<char>, sc: Seq<ScopeId>) -> Option<Place> {
    match find_key(fr[e].scoped@, name) {
        Some(en) => match scopes_from(fr[e].scoped@[en].1@, sc, 0) {
            Some(i) => Some(Place::Scoped(e as usize, en as usize, i as usize)),
            None => None,
        },
        None => None,
    }
}

/// Where the by-name view of `name` leads from frame `e`: a plain binding
/// of the frame, else the binding an alias of the frame names, else the
/// latest scoped definition visible by name, else the parent's answer.
/// `Err` carries the name the walk last looked for.
pub open spec fn walk(fr: Seq<Frame>, e: int, name: Seq<char>, fuel: nat) -> Result<Place, Seq<char>>
    decreases fuel, e,
{
    if !(0 <= e < fr.len()) {
        Err(name)
    } else {
        let f = fr[e];
        match find_key(f.slots@, name) {
            Some(s) => Ok(Place::Slot(e as usize, s as usize)),
            None => match alias_of(f, name) {
                Some(a) => {
                    let t = f.aliases@[a].1;
                    let te: int = match t.env {
                        Some(x) => x as int,
                        None => e,
                    };
                    if fuel == 0 {
                        Err(t.name@)
                    } else {
                        match t.scopes {
                            None => walk(fr, te, t.name@, (fuel - 1) as nat),
                            Some(sc) => if 0 <= te < fr.len() {
                                match scoped_definition_place(fr, te, t.name@, sc.ids_view()) {
                                    Some(p) => Ok(p),
                                    None => Err(t.name@),
                                }
                            } else {
                                Err(t.name@)
                            },
                        }
                    }
                },
                None => match visible_place(f, name) {
                    Some((en, i)) => Ok(Place::Scoped(e as usize, en as usize, i as usize)),
                    None => match f.parent {
                        Some(p) => if 0 <= p < e {
                            walk(fr, p as int, name, fuel)
                        } else {
                            Err(name)
                        },
                        None => Err(name),
                    },
                },
            },
        }
    }
}

/// The value at a place.
pub open spec fn place_value(fr: Seq<Frame>, p: Place, fuel: nat) -> TaggedValue {
    match p {
        Place::Slot(e, s) => slot_read(fr, e as int, s as int, fuel),
        Place::Scoped(e, en, i) => fr[e as int].scoped@[en as int].1@[i as int].tagged_value,
    }
}

/// The location a place names: a linked slot by its owner, one step.
pub open spec fn place_location(fr: Seq<Frame>, p: Place) -> BindingLocation {
    match p {
        Place::Slot(e, s) => match link_of(fr[e as int], s as int) {
            Some((o, os)) => BindingLocation::Slot(fr[o as int].env_id, os),
            None => BindingLocation::Slot(fr[e as int].env_id, s as u32),
        },
        Place::Scoped(e, en, i) => BindingLocation::Scoped(
            fr[e as int].env_id,
            fr[e as int].scoped@[en as int].0,
            i,
        ),
    }
}

/// The arena is sound: parents come first, links and alias targets point
/// at frames that exist, and ids are distinct and below the next one.
pub open spec fn frames_wf(fr: Seq<Frame>, next_id: u64) -> bool {
    &&& forall|e: int|
        0 <= e < fr.len() ==> match (#[trigger] fr[e]).parent {
            Some(p) => p < e,
            None => true,
        }
    &&& forall|e: int, s: int|
        0 <= e < fr.len() && 0 <= s < fr[e].links@.len() ==> match (#[trigger] fr[e].links@[s]) {
            Some((o, os)) => o < fr.len() && os < fr[o as int].slots@.len(),
            None => true,
        }
    &&& forall|e: int| 0 <= e < fr.len() ==> (#[trigger] fr[e]).links@.len() <= fr[e].slots@.len()
    &&& forall|e: int| 0 <= e < fr.len() ==> (#[trigger] fr[e]).slots@.len() < u32::MAX
    &&& forall|e: int, a: int|
        0 <= e < fr.len() && 0 <= a < fr[e].aliases@.len() ==> match (
        #[trigger] fr[e].aliases@[a]).1.env {
            Some(t) => t < fr.len(),
            None => true,
        }
    &&& forall|e: int, k: int|
        0 <= e < fr.len() && 0 <= k < fr[e].owners@.len() ==> (#[trigger] fr[e].owners@[k])
            < fr.len()
    &&& forall|e: int|
        0 <= e < fr.len() ==> 0 < (#[trigger] fr[e]).env_id && fr[e].env_id < next_id
    &&& forall|e1: int, e2: int|
        0 <= e1 < e2 < fr.len() ==> (#[trigger] fr[e1]).env_id != (#[trigger] fr[e2]).env_id
}

impl Environments {
    /// The frames.
    pub closed spec fn frames_view(&self) -> Seq<Frame> {
        self.frames@
    }

    /// The walks' budget.
    pub closed spec fn fuel(&self) -> nat {
        self.budget as nat
    }

    /// The arena's soundness.
    pub closed spec fn wf(&self) -> bool {
        &&& frames_wf(self.frames@, self.next_id)
        &&& self.next_id == self.frames@.len() + 1
    }

    /// Whether `e` names an environment here.
    pub open spec fn has_env(&self, e: usize) -> bool {
        e < self.frames_view().len()
    }

    /// What `get` answers for `name` from `e`.
    pub open spec fn spec_get(&self, e: usize, name: Seq<char>) -> Option<TaggedValue> {
        match walk(self.frames_view(), e as int, name, self.fuel()) {
            Ok(p) => Some(place_value(self.frames_view(), p, self.fuel())),
            Err(_) => None,
        }
    }

    /// What `binding_location` answers for `name` from `e`.
    pub open spec fn spec_location(&self, e: usize, name: Seq<char>) -> Option<BindingLocation> {
        match walk(self.frames_view(), e as int, name, self.fuel()) {
            Ok(p) => Some(place_location(self.frames_view(), p)),
            Err(_) => None,
        }
    }

    /// The slot `name` has in frame `e`'s own table.
    pub open spec fn spec_local_slot(&self, e: usize, name: Seq<char>) -> Option<int> {
        find_key(self.frames_view()[e as int].slots@, name)
    }

    /// An empty arena.
    pub fn new() -> (r: Environments)
        ensures
            r.wf(),
            r.frames_view().len() == 0,
    {
        Environments { frames: Vec::new(), next_id: 1, budget: 0 }
    }
}


impl Frame {
    /// A frame with nothing bound.
    fn empty(env_id: u64, parent: Option<usize>) -> (r: Frame)
        ensures
            r.env_id == env_id,
            r.parent == parent,
            r.slots@.len() == 0,
            r.links@.len() == 0,
            r.scoped@.len() == 0,
            r.aliases@.len() == 0,
            r.introduced@.len() == 0,
            r.import_aliases@.len() == 0,
            r.owners@.len() == 0,
    {
        Frame {
            env_id,
            parent,
            slots: Vec::new(),
            links: Vec::new(),
            scoped: Vec::new(),
            aliases: Vec::new(),
            introduced: Vec::new(),
            import_aliases: Vec::new(),
            owners: Vec::new(),
        }
    }
}

impl Environments {
    fn push_frame(&mut self, parent: Option<usize>) -> (r: usize)
        requires
            old(self).wf(),
            old(self).frames_view().len() < u64::MAX - 1,
            match parent {
                Some(p) => p < old(self).frames_view().len(),
                None => true,
            },
        ensures
            final(self).wf(),
            r == old(self).frames_view().len(),
            final(self).frames_view().len() == r + 1,
            final(self).frames_view().subrange(0, r as int) == old(self).frames_view(),
            final(self).frames_view()[r as int].parent == parent,
            final(self).frames_view()[r as int].slots@.len() == 0,
            final(self).frames_view()[r as int].links@.len() == 0,
            final(self).frames_view()[r as int].scoped@.len() == 0,
            final(self).frames_view()[r as int].aliases@.len() == 0,
            final(self).frames_view()[r as int].introduced@.len() == 0,
            final(self).frames_view()[r as int].import_aliases@.len() == 0,
            final(self).frames_view()[r as int].owners@.len() == 0,
            final(self).fuel() == old(self).fuel(),
    {
        let id = self.next_id;
        let r = self.frames.len();
        self.frames.push(Frame::empty(id, parent));
        self.next_id = id + 1;
        proof {
            let fr = self.frames@;
            assert(fr.subrange(0, r as int) =~= old(self).frames@);
            assert forall|e: int| 0 <= e < fr.len() implies match (#[trigger] fr[e]).parent {
                Some(p) => p < e,
                None => true,
            } by {
                if e < r {
                    assert(fr[e] == old(self).frames@[e]);
                }
            }
            assert forall|e: int, k: int|
                0 <= e < fr.len() && 0 <= k < fr[e].links@.len() implies match (
                #[trigger] fr[e].links@[k]) {
                Some((o, os)) => o < fr.len() && os < fr[o as int].slots@.len(),
                None => true,
            } by {
                assert(e < r);
                assert(fr[e] == old(self).frames@[e]);
                match fr[e].links@[k] {
                    Some((o, os)) => {
                        assert(fr[o as int] == old(self).frames@[o as int]);
                    },
                    None => {},
                }
            }
            assert forall|e1: int, e2: int|
                0 <= e1 < e2 < fr.len() implies (#[trigger] fr[e1]).env_id != (#[trigger] fr[e2]).env_id by {
                if e2 < r {
                    assert(fr[e1] == old(self).frames@[e1]);
                    assert(fr[e2] == old(self).frames@[e2]);
                } else {
                    assert(fr[e1] == old(self).frames@[e1]);
                }
            }
            assert forall|e: int| 0 <= e < fr.len() implies (#[trigger] fr[e]).links@.len() <= fr[e].slots@.len() by {
                if e < r {
                    assert(fr[e] == old(self).frames@[e]);
                }
            }
            assert forall|e: int| 0 <= e < fr.len() implies (#[trigger] fr[e]).slots@.len() < u32::MAX by {
                if e < r {
                    assert(fr[e] == old(self).frames@[e]);
                }
            }
            assert forall|e: int, a: int|
                0 <= e < fr.len() && 0 <= a < fr[e].aliases@.len() implies match (
                #[trigger] fr[e].aliases@[a]).1.env {
                Some(t) => t < fr.len(),
                None => true,
            } by {
                assert(fr[e] == old(self).frames@[e]);
            }
            assert forall|e: int, k: int|
                0 <= e < fr.len() && 0 <= k < fr[e].owners@.len() implies (
                #[trigger] fr[e].owners@[k]) < fr.len() by {
                assert(fr[e] == old(self).frames@[e]);
            }
            assert forall|e: int| 0 <= e < fr.len() implies 0 < (#[trigger] fr[e]).env_id
                && fr[e].env_id < self.next_id by {
                if e < r {
                    assert(fr[e] == old(self).frames@[e]);
                }
            }
        }
        r
    }

    /// A new environment without a parent.
    pub fn new_env(&mut self) -> (r: usize)
        requires
            old(self).wf(),
            old(self).frames_view().len() < u64::MAX - 1,
        ensures
            final(self).wf(),
            r == old(self).frames_view().len(),
            final(self).frames_view().len() == r + 1,
            final(self).frames_view().subrange(0, r as int) == old(self).frames_view(),
            final(self).frames_view()[r as int].parent is None,
            final(self).frames_view()[r as int].slots@.len() == 0,
            final(self).frames_view()[r as int].aliases@.len() == 0,
            final(self).frames_view()[r as int].scoped@.len() == 0,
            final(self).fuel() == old(self).fuel(),
    {
        self.push_frame(None)
    }

    /// A new environment whose parent is `parent`.
    pub fn with_parent(&mut self, parent: usize) -> (r: usize)
        requires
            old(self).wf(),
            old(self).has_env(parent),
            old(self).frames_view().len() < u64::MAX - 1,
        ensures
            final(self).wf(),
            r == old(self).frames_view().len(),
            final(self).frames_view().len() == r + 1,
            final(self).frames_view().subrange(0, r as int) == old(self).frames_view(),
            final(self).frames_view()[r as int].parent == Some(parent),
            final(self).frames_view()[r as int].slots@.len() == 0,
            final(self).frames_view()[r as int].aliases@.len() == 0,
            final(self).frames_view()[r as int].scoped@.len() == 0,
            final(self).fuel() == old(self).fuel(),
    {
        self.push_frame(Some(parent))
    }

    /// The id of environment `e`: never zero, and no other environment of
    /// the arena has it.
    pub fn env_id(&self, e: usize) -> (r: u64)
        requires
            self.wf(),
            self.has_env(e),
        ensures
            r == self.frames_view()[e as int].env_id,
            r != 0,
            forall|o: int|
                0 <= o < self.frames_view().len() && o != e ==> self.frames_view()[o].env_id != r,
    {
        proof {
            assert(0 < self.frames@[e as int].env_id);
            assert forall|o: int| 0 <= o < self.frames@.len() && o != e implies self.frames@[o].env_id
                != self.frames@[e as int].env_id by {
                if o < e {
                    assert(self.frames@[o].env_id != self.frames@[e as int].env_id);
                } else {
                    assert(self.frames@[e as int].env_id != self.frames@[o].env_id);
                }
            }
        }
        self.frames[e].env_id
    }

    /// The parent of environment `e`.
    pub fn parent(&self, e: usize) -> (r: Option<usize>)
        requires
            self.has_env(e),
        ensures
            r == self.frames_view()[e as int].parent,
    {
        self.frames[e].parent
    }

    /// The slot `name` has in `e`'s own plain bindings; parents are not
    /// consulted.
    pub fn local_slot(&self, e: usize, name: &str) -> (r: Option<u32>)
        requires
            self.wf(),
            self.has_env(e),
        ensures
            match self.spec_local_slot(e, name@) {
                Some(s) => r == Some(s as u32),
                None => r is None,
            },
    {
        let key = name.to_owned();
        match position_of(&self.frames[e].slots, &key) {
            Some(s) => {
                proof {
                    lemma_find_from(self.frames@[e as int].slots@, name@, 0);
                    assert(s < self.frames@[e as int].slots@.len());
                    assert(self.frames@[e as int].slots@.len() < u32::MAX);
                }
                Some(s as u32)
            },
            None => None,
        }
    }
}

/// A place whose indices are in range.
pub open spec fn place_valid(fr: Seq<Frame>, p: Place) -> bool {
    match p {
        Place::Slot(e, s) => e < fr.len() && s < fr[e as int].slots@.len(),
        Place::Scoped(e, en, i) => e < fr.len() && en < fr[e as int].scoped@.len() && i
            < fr[e as int].scoped@[en as int].1@.len(),
    }
}

/// `new` is `old` with the value of slot `s` of frame `e` replaced by `v`.
pub open spec fn slot_written(old: Seq<Frame>, new: Seq<Frame>, e: int, s: int, v: TaggedValue) -> bool {
    &&& new.len() == old.len()
    &&& forall|j: int| 0 <= j < old.len() && j != e ==> new[j] == old[j]
    &&& new[e].env_id == old[e].env_id
    &&& new[e].parent == old[e].parent
    &&& new[e].links == old[e].links
    &&& new[e].scoped == old[e].scoped
    &&& new[e].aliases == old[e].aliases
    &&& new[e].introduced == old[e].introduced
    &&& new[e].import_aliases == old[e].import_aliases
    &&& new[e].owners == old[e].owners
    &&& new[e].slots@ == old[e].slots@.update(s, (old[e].slots@[s].0, v))
}

impl Environments {
    /// The slot holding the value of slot `s` of frame `e`.
    fn resolve_exec(&self, e: usize, s: usize) -> (r: (usize, usize))
        requires
            self.wf(),
            e < self.frames_view().len(),
            s < self.frames_view()[e as int].slots@.len(),
        ensures
            (r.0 as int, r.1 as int) == resolve_slot(self.frames_view(), e as int, s as int, self.fuel()),
            r.0 < self.frames_view().len(),
            r.1 < self.frames_view()[r.0 as int].slots@.len(),
    {
        let mut ce = e;
        let mut cs = s;
        let mut fuel = self.budget;
        while fuel > 0
            invariant
                self.wf(),
                ce < self.frames@.len(),
                cs < self.frames@[ce as int].slots@.len(),
                resolve_slot(self.frames@, e as int, s as int, self.budget as nat) == resolve_slot(
                    self.frames@,
                    ce as int,
                    cs as int,
                    fuel as nat,
                ),
            decreases fuel,
        {
            let next = if cs < self.frames[ce].links.len() {
                self.frames[ce].links[cs]
            } else {
                None
            };
            match next {
                Some((o, os)) => {
                    proof {
                        assert(self.frames@[ce as int].links@[cs as int] == next);
                    }
                    ce = o;
                    cs = os as usize;
                    fuel = fuel - 1;
                },
                None => {
                    return (ce, cs);
                },
            }
        }
        (ce, cs)
    }

    /// The value in slot `slot` of environment `e`: for an imported
    /// binding, what its owner holds now.
    pub fn slot_value(&self, e: usize, slot: u32) -> (r: TaggedValue)
        requires
            self.wf(),
            self.has_env(e),
            slot < self.frames_view()[e as int].slots@.len(),
        ensures
            r == slot_read(self.frames_view(), e as int, slot as int, self.fuel()),
    {
        let (e2, s2) = self.resolve_exec(e, slot as usize);
        self.frames[e2].slots[s2].1
    }

    fn write_slot(&mut self, e: usize, s: usize, value: TaggedValue)
        requires
            old(self).wf(),
            e < old(self).frames_view().len(),
            s < old(self).frames_view()[e as int].slots@.len(),
        ensures
            final(self).wf(),
            slot_written(old(self).frames_view(), final(self).frames_view(), e as int, s as int, value),
            final(self).fuel() == old(self).fuel(),
    {
        let ghost old_fr = self.frames@;
        let mut f = Frame::empty(0, None);
        self.frames.set_and_swap(e, &mut f);
        let name = f.slots[s].0.clone();
        f.slots.set(s, (name, value));
        self.frames.set_and_swap(e, &mut f);
        proof {
            let fr = self.frames@;
            assert(fr[e as int].slots@ =~= old_fr[e as int].slots@.update(
                s as int,
                (old_fr[e as int].slots@[s as int].0, value),
            ));
            assert forall|j: int| 0 <= j < fr.len() && j != e implies fr[j] == old_fr[j] by {}
            self.lemma_wf_after_value_write(old_fr, e as int, s as int, value);
        }
    }

    proof fn lemma_wf_after_value_write(&self, old_fr: Seq<Frame>, e: int, s: int, value: TaggedValue)
        requires
            frames_wf(old_fr, self.next_id),
            self.next_id == old_fr.len() + 1,
            0 <= e < old_fr.len(),
            0 <= s < old_fr[e].slots@.len(),
            slot_written(old_fr, self.frames@, e, s, value),
        ensures
            self.wf(),
    {
        let fr = self.frames@;
        assert forall|j: int| 0 <= j < fr.len() implies fr[j].slots@.len() == old_fr[j].slots@.len() by {
            if j != e {
                assert(fr[j] == old_fr[j]);
            }
        }
        assert forall|j: int| 0 <= j < fr.len() implies {
            &&& fr[j].parent == old_fr[j].parent
            &&& fr[j].links@ == old_fr[j].links@
            &&& fr[j].aliases@ == old_fr[j].aliases@
            &&& fr[j].owners@ == old_fr[j].owners@
            &&& fr[j].env_id == old_fr[j].env_id
        } by {
            if j != e {
                assert(fr[j] == old_fr[j]);
            }
        }
        assert forall|e1: int, e2: int|
            0 <= e1 < e2 < fr.len() implies (#[trigger] fr[e1]).env_id != (#[trigger] fr[e2]).env_id by {
            assert(old_fr[e1].env_id != old_fr[e2].env_id);
        }
        assert forall|j: int, k: int|
            0 <= j < fr.len() && 0 <= k < fr[j].links@.len() implies match (#[trigger] fr[j].links@[k]) {
            Some((o, os)) => o < fr.len() && os < fr[o as int].slots@.len(),
            None => true,
        } by {
            assert(fr[j].links@[k] == old_fr[j].links@[k]);
        }
        assert forall|j: int, a: int|
            0 <= j < fr.len() && 0 <= a < fr[j].aliases@.len() implies match (
            #[trigger] fr[j].aliases@[a]).1.env {
            Some(t) => t < fr.len(),
            None => true,
        } by {
            assert(fr[j].aliases@[a] == old_fr[j].aliases@[a]);
        }
        assert forall|j: int, k: int|
            0 <= j < fr.len() && 0 <= k < fr[j].owners@.len() implies (#[trigger] fr[j].owners@[k])
            < fr.len() by {
            assert(fr[j].owners@[k] == old_fr[j].owners@[k]);
        }
    }

    /// Store `value` in slot `slot` of environment `e`: for an imported
    /// binding, in its owner's slot.
    pub fn set_slot_value(&mut self, e: usize, slot: u32, value: TaggedValue)
        requires
            old(self).wf(),
            old(self).has_env(e),
            slot < old(self).frames_view()[e as int].slots@.len(),
        ensures
            final(self).wf(),
            ({
                let (e2, s2) = resolve_slot(old(self).frames_view(), e as int, slot as int, old(self).fuel());
                slot_written(old(self).frames_view(), final(self).frames_view(), e2, s2, value)
            }),
            final(self).fuel() == old(self).fuel(),
    {
        let (e2, s2) = self.resolve_exec(e, slot as usize);
        self.write_slot(e2, s2, value);
    }
}

/// The latest binding visible by name among the first `n` of `bs`.
fn last_visible_exec(bs: &Vec<ScopedBinding>) -> (r: Option<usize>)
    ensures
        match r {
            Some(i) => last_visible(bs@, bs@.len() as int) == Some(i as int) && i < bs@.len(),
            None => last_visible(bs@, bs@.len() as int) is None,
        },
{
    let mut k: usize = bs.len();
    while k > 0
        invariant
            k <= bs@.len(),
            last_visible(bs@, bs@.len() as int) == last_visible(bs@, k as int),
        decreases k,
    {
        if bs[k - 1].visible_by_name {
            return Some(k - 1);
        }
        k = k - 1;
    }
    None
}

/// The first binding of `bs` at exactly `sc`.
fn scopes_position(bs: &Vec<ScopedBinding>, sc: &ScopeSet) -> (r: Option<usize>)
    ensures
        match r {
            Some(i) => scopes_from(bs@, sc.ids_view(), 0) == Some(i as int) && i < bs@.len(),
            None => scopes_from(bs@, sc.ids_view(), 0) is None,
        },
{
    let mut k: usize = 0;
    while k < bs.len()
        invariant
            k <= bs@.len(),
            scopes_from(bs@, sc.ids_view(), 0) == scopes_from(bs@, sc.ids_view(), k as int),
        decreases bs@.len() - k,
    {
        if bs[k].scopes.same_as(sc) {
            return Some(k);
        }
        k = k + 1;
    }
    None
}

/// Every index `scopes_from` finds is in range.
proof fn lemma_scopes_from(bs: Seq<ScopedBinding>, sc: Seq<ScopeId>, k: int)
    requires
        0 <= k,
    ensures
        match scopes_from(bs, sc, k) {
            Some(i) => k <= i < bs.len() && bs[i].scopes.ids_view() == sc,
            None => true,
        },
    decreases bs.len() - k,
{
    if k < bs.len() && bs[k].scopes.ids_view() != sc {
        lemma_scopes_from(bs, sc, k + 1);
    }
}

/// Every index `last_visible` finds is in range and visible.
proof fn lemma_last_visible(bs: Seq<ScopedBinding>, n: int)
    requires
        n <= bs.len(),
    ensures
        match last_visible(bs, n) {
            Some(i) => 0 <= i < n && bs[i].visible_by_name,
            None => forall|i: int| 0 <= i < n ==> !bs[i].visible_by_name,
        },
    decreases n,
{
    if n > 0 && !bs[n - 1].visible_by_name {
        lemma_last_visible(bs, n - 1);
    }
}

impl Environments {
    fn visible_place_exec(&self, e: usize, name: &String) -> (r: Option<(usize, usize)>)
        requires
            self.wf(),
            e < self.frames_view().len(),
        ensures
            match r {
                Some((en, i)) => visible_place(self.frames_view()[e as int], name@) == Some((en as int, i as int)),
                None => visible_place(self.frames_view()[e as int], name@) is None,
            },
            r matches Some((en, i)) ==> place_valid(self.frames_view(), Place::Scoped(e, en, i)),
    {
        match position_of(&self.frames[e].scoped, name) {
            Some(en) => {
                proof {
                    lemma_find_from(self.frames@[e as int].scoped@, name@, 0);
                }
                let bs = &self.frames[e].scoped[en].1;
                match last_visible_exec(bs) {
                    Some(i) => {
                        proof {
                            lemma_last_visible(bs@, bs@.len() as int);
                        }
                        Some((en, i))
                    },
                    None => None,
                }
            },
            None => None,
        }
    }

    fn scoped_definition_exec(&self, e: usize, name: &String, sc: &ScopeSet) -> (r: Option<Place>)
        requires
            self.wf(),
            e < self.frames_view().len(),
        ensures
            r == scoped_definition_place(self.frames_view(), e as int, name@, sc.ids_view()),
            r matches Some(p) ==> place_valid(self.frames_view(), p),
    {
        match position_of(&self.frames[e].scoped, name) {
            Some(en) => {
                proof {
                    lemma_find_from(self.frames@[e as int].scoped@, name@, 0);
                }
                match scopes_position(&self.frames[e].scoped[en].1, sc) {
                    Some(i) => {
                        proof {
                            lemma_scopes_from(self.frames@[e as int].scoped@[en as int].1@, sc.ids_view(), 0);
                        }
                        Some(Place::Scoped(e, en, i))
                    },
                    None => None,
                }
            },
            None => None,
        }
    }

    /// The walk of `name` from `e`, as `walk` has it.
    fn walk_exec(&self, e: usize, name: &String, fuel: u64) -> (r: Result<Place, String>)
        requires
            self.wf(),
        ensures
            match walk(self.frames_view(), e as int, name@, fuel as nat) {
                Ok(p) => r == Ok::<Place, String>(p),
                Err(n) => r is Err && r->Err_0@ == n,
            },
            r matches Ok(p) ==> place_valid(self.frames_view(), p),
        decreases fuel, e,
    {
        if e >= self.frames.len() {
            return Err(name.clone());
        }
        match position_of(&self.frames[e].slots, name) {
            Some(s) => {
                proof {
                    lemma_find_from(self.frames@[e as int].slots@, name@, 0);
                }
                return Ok(Place::Slot(e, s));
            },
            None => {},
        }
        match position_of(&self.frames[e].aliases, name) {
            Some(a) => {
                proof {
                    lemma_find_from(self.frames@[e as int].aliases@, name@, 0);
                }
                let t = &self.frames[e].aliases[a].1;
                let te = match t.env {
                    Some(x) => x,
                    None => e,
                };
                if fuel == 0 {
                    return Err(t.name.clone());
                }
                match &t.scopes {
                    None => {
                        return self.walk_exec(te, &t.name, fuel - 1);
                    },
                    Some(sc) => {
                        if te < self.frames.len() {
                            return match self.scoped_definition_exec(te, &t.name, sc) {
                                Some(p) => Ok(p),
                                None => Err(t.name.clone()),
                            };
                        } else {
                            return Err(t.name.clone());
                        }
                    },
                }
            },
            None => {},
        }
        match self.visible_place_exec(e, name) {
            Some((en, i)) => {
                return Ok(Place::Scoped(e, en, i));
            },
            None => {},
        }
        match self.frames[e].parent {
            Some(p) => if p < e {
                self.walk_exec(p, name, fuel)
            } else {
                Err(name.clone())
            },
            None => Err(name.clone()),
        }
    }

    /// The value at a valid place.
    fn place_value_exec(&self, p: Place) -> (r: TaggedValue)
        requires
            self.wf(),
            place_valid(self.frames_view(), p),
        ensures
            r == place_value(self.frames_view(), p, self.fuel()),
    {
        match p {
            Place::Slot(e, s) => {
                let (e2, s2) = self.resolve_exec(e, s);
                self.frames[e2].slots[s2].1
            },
            Place::Scoped(e, en, i) => self.frames[e].scoped[en].1[i].tagged_value,
        }
    }

    /// The value `name` has from `e`: a plain binding of `e`, else what a
    /// macro-expansion alias of `e` names, else the latest scoped
    /// definition of `e` visible by name, else the parent's answer; an
    /// imported binding is read from its owner.
    pub fn get(&self, e: usize, name: &str) -> (r: Option<TaggedValue>)
        requires
            self.wf(),
        ensures
            r == self.spec_get(e, name@),
    {
        let key = name.to_owned();
        match self.walk_exec(e, &key, self.budget) {
            Ok(p) => Some(self.place_value_exec(p)),
            Err(_) => None,
        }
    }

    /// The location `get` reads for `name` from `e`.
    pub fn binding_location(&self, e: usize, name: &str) -> (r: Option<BindingLocation>)
        requires
            self.wf(),
        ensures
            r == self.spec_location(e, name@),
    {
        let key = name.to_owned();
        match self.walk_exec(e, &key, self.budget) {
            Ok(p) => Some(
                match p {
                    Place::Slot(e1, s) => {
                        let link = if s < self.frames[e1].links.len() {
                            self.frames[e1].links[s]
                        } else {
                            None
                        };
                        match link {
                            Some((o, os)) => BindingLocation::Slot(self.frames[o].env_id, os),
                            None => BindingLocation::Slot(self.frames[e1].env_id, s as u32),
                        }
                    },
                    Place::Scoped(e1, en, i) => BindingLocation::Scoped(
                        self.frames[e1].env_id,
                        self.frames[e1].scoped[en].0.clone(),
                        i,
                    ),
                },
            ),
            Err(_) => None,
        }
    }
}

// ---------------------------------------------------------------------------
// Shape: everything but the values bound
// ---------------------------------------------------------------------------

/// Two frames agree on everything a walk reads: names, links, aliases,
/// scope sets and visibility, parents and ids.
pub open spec fn frame_same_shape(x: Frame, y: Frame) -> bool {
    &&& x.env_id == y.env_id
    &&& x.parent == y.parent
    &&& x.links == y.links
    &&& x.aliases == y.aliases
    &&& x.introduced == y.introduced
    &&& x.import_aliases == y.import_aliases
    &&& x.owners == y.owners
    &&& x.slots@.len() == y.slots@.len()
    &&& forall|s: int| 0 <= s < x.slots@.len() ==> (#[trigger] x.slots@[s]).0@ == y.slots@[s].0@
    &&& x.scoped@.len() == y.scoped@.len()
    &&& forall|en: int|
        0 <= en < x.scoped@.len() ==> {
            &&& (#[trigger] x.scoped@[en]).0@ == y.scoped@[en].0@
            &&& x.scoped@[en].1@.len() == y.scoped@[en].1@.len()
            &&& forall|i: int|
                0 <= i < x.scoped@[en].1@.len() ==> (#[trigger] x.scoped@[en].1@[i]).scopes
                    == y.scoped@[en].1@[i].scopes && x.scoped@[en].1@[i].visible_by_name
                    == y.scoped@[en].1@[i].visible_by_name
        }
}

/// Two arenas agree on everything but the values bound.
pub open spec fn same_shape(a: Seq<Frame>, b: Seq<Frame>) -> bool {
    &&& a.len() == b.len()
    &&& forall|j: int| 0 <= j < a.len() ==> frame_same_shape(#[trigger] a[j], b[j])
}

proof fn lemma_last_visible_same(bs: Seq<ScopedBinding>, cs: Seq<ScopedBinding>, n: int)
    requires
        bs.len() == cs.len(),
        n <= bs.len(),
        forall|i: int| 0 <= i < bs.len() ==> (#[trigger] bs[i]).visible_by_name == cs[i].visible_by_name,
    ensures
        last_visible(bs, n) == last_visible(cs, n),
    decreases n,
{
    if n > 0 {
        lemma_last_visible_same(bs, cs, n - 1);
    }
}

proof fn lemma_scopes_from_same(bs: Seq<ScopedBinding>, cs: Seq<ScopedBinding>, sc: Seq<ScopeId>, k: int)
    requires
        bs.len() == cs.len(),
        forall|i: int| 0 <= i < bs.len() ==> (#[trigger] bs[i]).scopes == cs[i].scopes,
    ensures
        scopes_from(bs, sc, k) == scopes_from(cs, sc, k),
    decreases bs.len() - k,
{
    if 0 <= k < bs.len() {
        lemma_scopes_from_same(bs, cs, sc, k + 1);
    }
}

/// Frames of one shape answer the name-only view of scoped bindings alike.
proof fn lemma_frame_views_same(x: Frame, y: Frame, name: Seq<char>)
    requires
        frame_same_shape(x, y),
    ensures
        find_key(x.slots@, name) == find_key(y.slots@, name),
        alias_of(x, name) == alias_of(y, name),
        visible_place(x, name) == visible_place(y, name),
        find_key(x.scoped@, name) == find_key(y.scoped@, name),
{
    lemma_find_same_keys(x.slots@, y.slots@, name, 0);
    lemma_find_same_keys(x.scoped@, y.scoped@, name, 0);
    lemma_find_from(x.scoped@, name, 0);
    match find_key(x.scoped@, name) {
        Some(en) => {
            let bs = x.scoped@[en].1@;
            let cs = y.scoped@[en].1@;
            assert forall|i: int| 0 <= i < bs.len() implies (#[trigger] bs[i]).visible_by_name
                == cs[i].visible_by_name by {
                assert(x.scoped@[en].1@[i].visible_by_name == y.scoped@[en].1@[i].visible_by_name);
            }
            lemma_last_visible_same(bs, cs, bs.len() as int);
        },
        None => {},
    }
}

proof fn lemma_scoped_definition_same(a: Seq<Frame>, b: Seq<Frame>, e: int, name: Seq<char>, sc: Seq<ScopeId>)
    requires
        same_shape(a, b),
        0 <= e < a.len(),
    ensures
        scoped_definition_place(a, e, name, sc) == scoped_definition_place(b, e, name, sc),
{
    assert(frame_same_shape(a[e], b[e]));
    lemma_frame_views_same(a[e], b[e], name);
    lemma_find_from(a[e].scoped@, name, 0);
    match find_key(a[e].scoped@, name) {
        Some(en) => {
            let bs = a[e].scoped@[en].1@;
            let cs = b[e].scoped@[en].1@;
            assert forall|i: int| 0 <= i < bs.len() implies (#[trigger] bs[i]).scopes == cs[i].scopes by {
                assert(a[e].scoped@[en].1@[i].scopes == b[e].scoped@[en].1@[i].scopes);
            }
            lemma_scopes_from_same(bs, cs, sc, 0);
        },
        None => {},
    }
}

/// Arenas of one shape walk alike.
pub proof fn lemma_walk_same_shape(a: Seq<Frame>, b: Seq<Frame>, e: int, name: Seq<char>, fuel: nat)
    requires
        same_shape(a, b),
    ensures
        walk(a, e, name, fuel) == walk(b, e, name, fuel),
    decreases fuel, e,
{
    if 0 <= e < a.len() {
        assert(frame_same_shape(a[e], b[e]));
        lemma_frame_views_same(a[e], b[e], name);
        let f = a[e];
        match find_key(f.slots@, name) {
            Some(_) => {},
            None => match alias_of(f, name) {
                Some(al) => {
                    let t = f.aliases@[al].1;
                    let te: int = match t.env {
                        Some(x) => x as int,
                        None => e,
                    };
                    if fuel > 0 {
                        match t.scopes {
                            None => lemma_walk_same_shape(a, b, te, t.name@, (fuel - 1) as nat),
                            Some(sc) => if 0 <= te < a.len() {
                                lemma_scoped_definition_same(a, b, te, t.name@, sc.ids_view());
                            },
                        }
                    }
                },
                None => match visible_place(f, name) {
                    Some(_) => {},
                    None => match f.parent {
                        Some(p) => if 0 <= p < e {
                            lemma_walk_same_shape(a, b, p as int, name, fuel);
                        },
                        None => {},
                    },
                },
            },
        }
    }
}

/// Arenas with the same links resolve slots alike.
pub proof fn lemma_resolve_same_shape(a: Seq<Frame>, b: Seq<Frame>, e: int, s: int, fuel: nat)
    requires
        same_shape(a, b),
        0 <= e < a.len(),
        forall|j: int, k: int|
            0 <= j < a.len() && 0 <= k < a[j].links@.len() ==> match (#[trigger] a[j].links@[k]) {
                Some((o, os)) => o < a.len(),
                None => true,
            },
    ensures
        resolve_slot(a, e, s, fuel) == resolve_slot(b, e, s, fuel),
    decreases fuel,
{
    assert(frame_same_shape(a[e], b[e]));
    match link_of(a[e], s) {
        Some((o, os)) => if fuel > 0 {
            lemma_resolve_same_shape(a, b, o as int, os as int, (fuel - 1) as nat);
        },
        None => {},
    }
}

/// Writing a slot's value keeps the shape.
proof fn lemma_slot_written_shape(old: Seq<Frame>, new: Seq<Frame>, e: int, s: int, v: TaggedValue)
    requires
        slot_written(old, new, e, s, v),
        0 <= e < old.len(),
        0 <= s < old[e].slots@.len(),
    ensures
        same_shape(old, new),
{
    assert forall|j: int| 0 <= j < old.len() implies frame_same_shape(#[trigger] old[j], new[j]) by {
        if j == e {
            assert forall|k: int| 0 <= k < old[j].slots@.len() implies (#[trigger] old[j].slots@[k]).0@
                == new[j].slots@[k].0@ by {
                if k == s {
                } else {
                    assert(new[j].slots@[k] == old[j].slots@[k]);
                }
            }
        }
    }
}

/// Same-shape arenas are equally sound.
proof fn lemma_wf_same_shape(a: Seq<Frame>, b: Seq<Frame>, next_id: u64)
    requires
        same_shape(a, b),
        frames_wf(a, next_id),
    ensures
        frames_wf(b, next_id),
{
    assert forall|e: int| 0 <= e < b.len() implies (#[trigger] b[e]).slots@.len() == a[e].slots@.len()
        && b[e].links@ == a[e].links@ && b[e].parent == a[e].parent && b[e].aliases@ == a[e].aliases@
        && b[e].owners@ == a[e].owners@ && b[e].env_id == a[e].env_id by {
        assert(frame_same_shape(a[e], b[e]));
    }
    assert forall|e1: int, e2: int|
        0 <= e1 < e2 < b.len() implies (#[trigger] b[e1]).env_id != (#[trigger] b[e2]).env_id by {
        assert(a[e1].env_id != a[e2].env_id);
    }
    assert forall|j: int, k: int|
        0 <= j < b.len() && 0 <= k < b[j].links@.len() implies match (#[trigger] b[j].links@[k]) {
        Some((o, os)) => o < b.len() && os < b[o as int].slots@.len(),
        None => true,
    } by {
        assert(b[j].links@[k] == a[j].links@[k]);
    }
    assert forall|j: int, al: int|
        0 <= j < b.len() && 0 <= al < b[j].aliases@.len() implies match (
        #[trigger] b[j].aliases@[al]).1.env {
        Some(t) => t < b.len(),
        None => true,
    } by {
        assert(b[j].aliases@[al] == a[j].aliases@[al]);
    }
    assert forall|j: int, k: int|
        0 <= j < b.len() && 0 <= k < b[j].owners@.len() implies (#[trigger] b[j].owners@[k]) < b.len() by {
        assert(b[j].owners@[k] == a[j].owners@[k]);
    }
}

/// `new` is `old` with the value of scoped binding `i` of entry `en` of
/// frame `e` replaced by `v`.
pub open spec fn scoped_written(old: Seq<Frame>, new: Seq<Frame>, e: int, en: int, i: int, v: TaggedValue) -> bool {
    &&& new.len() == old.len()
    &&& forall|j: int| 0 <= j < old.len() && j != e ==> new[j] == old[j]
    &&& new[e].env_id == old[e].env_id
    &&& new[e].parent == old[e].parent
    &&& new[e].slots == old[e].slots
    &&& new[e].links == old[e].links
    &&& new[e].aliases == old[e].aliases
    &&& new[e].introduced == old[e].introduced
    &&& new[e].import_aliases == old[e].import_aliases
    &&& new[e].owners == old[e].owners
    &&& new[e].scoped@.len() == old[e].scoped@.len()
    &&& forall|k: int| 0 <= k < old[e].scoped@.len() && k != en ==> new[e].scoped@[k] == old[e].scoped@[k]
    &&& new[e].scoped@[en].0 == old[e].scoped@[en].0
    &&& new[e].scoped@[en].1@.len() == old[e].scoped@[en].1@.len()
    &&& forall|k: int|
        0 <= k < old[e].scoped@[en].1@.len() && k != i ==> new[e].scoped@[en].1@[k]
            == old[e].scoped@[en].1@[k]
    &&& new[e].scoped@[en].1@[i].scopes == old[e].scoped@[en].1@[i].scopes
    &&& new[e].scoped@[en].1@[i].visible_by_name == old[e].scoped@[en].1@[i].visible_by_name
    &&& new[e].scoped@[en].1@[i].tagged_value == v
}

/// What a write at place `p` leaves: the slot it resolves to, or the
/// scoped binding, holding `v`.
pub open spec fn place_written(old: Seq<Frame>, new: Seq<Frame>, p: Place, v: TaggedValue, fuel: nat) -> bool {
    match p {
        Place::Slot(e, s) => {
            let (e2, s2) = resolve_slot(old, e as int, s as int, fuel);
            slot_written(old, new, e2, s2, v)
        },
        Place::Scoped(e, en, i) => scoped_written(old, new, e as int, en as int, i as int, v),
    }
}

proof fn lemma_scoped_written_shape(old: Seq<Frame>, new: Seq<Frame>, e: int, en: int, i: int, v: TaggedValue)
    requires
        scoped_written(old, new, e, en, i, v),
        0 <= e < old.len(),
        0 <= en < old[e].scoped@.len(),
        0 <= i < old[e].scoped@[en].1@.len(),
    ensures
        same_shape(old, new),
{
    assert forall|j: int| 0 <= j < old.len() implies frame_same_shape(#[trigger] old[j], new[j]) by {
        if j == e {
            assert forall|k: int| 0 <= k < old[j].scoped@.len() implies {
                &&& (#[trigger] old[j].scoped@[k]).0@ == new[j].scoped@[k].0@
                &&& old[j].scoped@[k].1@.len() == new[j].scoped@[k].1@.len()
                &&& forall|m: int|
                    0 <= m < old[j].scoped@[k].1@.len() ==> (#[trigger] old[j].scoped@[k].1@[m]).scopes
                        == new[j].scoped@[k].1@[m].scopes && old[j].scoped@[k].1@[m].visible_by_name
                        == new[j].scoped@[k].1@[m].visible_by_name
            } by {
                if k == en {
                    assert forall|m: int| 0 <= m < old[j].scoped@[k].1@.len() implies (
                    #[trigger] old[j].scoped@[k].1@[m]).scopes == new[j].scoped@[k].1@[m].scopes
                        && old[j].scoped@[k].1@[m].visible_by_name
                        == new[j].scoped@[k].1@[m].visible_by_name by {
                        if m != i {
                            assert(new[j].scoped@[k].1@[m] == old[j].scoped@[k].1@[m]);
                        }
                    }
                }
            }
        }
    }
}

impl Environments {
    fn write_scoped(&mut self, e: usize, en: usize, i: usize, value: TaggedValue)
        requires
            old(self).wf(),
            place_valid(old(self).frames_view(), Place::Scoped(e, en, i)),
        ensures
            final(self).wf(),
            scoped_written(old(self).frames_view(), final(self).frames_view(), e as int, en as int, i as int, value),
            final(self).fuel() == old(self).fuel(),
    {
        let ghost old_fr = self.frames@;
        let mut f = Frame::empty(0, None);
        self.frames.set_and_swap(e, &mut f);
        let mut entry: (String, Vec<ScopedBinding>) = (String::new(), Vec::new());
        f.scoped.set_and_swap(en, &mut entry);
        let mut b = ScopedBinding { scopes: ScopeSet::new(), tagged_value: value, visible_by_name: false };
        entry.1.set_and_swap(i, &mut b);
        b.tagged_value = value;
        entry.1.set_and_swap(i, &mut b);
        f.scoped.set_and_swap(en, &mut entry);
        self.frames.set_and_swap(e, &mut f);
        proof {
            lemma_scoped_written_shape(old_fr, self.frames@, e as int, en as int, i as int, value);
            lemma_wf_same_shape(old_fr, self.frames@, self.next_id);
        }
    }

    fn write_place(&mut self, p: Place, value: TaggedValue)
        requires
            old(self).wf(),
            place_valid(old(self).frames_view(), p),
        ensures
            final(self).wf(),
            place_written(old(self).frames_view(), final(self).frames_view(), p, value, old(self).fuel()),
            same_shape(old(self).frames_view(), final(self).frames_view()),
            final(self).fuel() == old(self).fuel(),
    {
        match p {
            Place::Slot(e, s) => {
                let (e2, s2) = self.resolve_exec(e, s);
                self.write_slot(e2, s2, value);
                proof {
                    lemma_slot_written_shape(old(self).frames@, self.frames@, e2 as int, s2 as int, value);
                }
            },
            Place::Scoped(e, en, i) => {
                self.write_scoped(e, en, i, value);
            },
        }
    }

    /// After a write at a valid place, the place reads back the value.
    proof fn lemma_read_back(old: Seq<Frame>, new: Seq<Frame>, p: Place, v: TaggedValue, fuel: nat, next_id: u64)
        requires
            frames_wf(old, next_id),
            place_valid(old, p),
            place_written(old, new, p, v, fuel),
            same_shape(old, new),
        ensures
            place_value(new, p, fuel) == v,
    {
        match p {
            Place::Slot(e, s) => {
                lemma_resolve_same_shape(old, new, e as int, s as int, fuel);
                lemma_resolve_in_range(old, e as int, s as int, fuel, next_id);
            },
            Place::Scoped(e, en, i) => {},
        }
    }

    /// Assign `value` to the binding `get` reads for `name` from `e`. `Err`
    /// carries the name the walk last looked for when it finds nothing, and
    /// then nothing changed.
    pub fn set(&mut self, e: usize, name: &str, value: TaggedValue) -> (r: Result<(), String>)
        requires
            old(self).wf(),
        ensures
            final(self).wf(),
            final(self).fuel() == old(self).fuel(),
            match walk(old(self).frames_view(), e as int, name@, old(self).fuel()) {
                Ok(p) => r is Ok && place_written(
                    old(self).frames_view(),
                    final(self).frames_view(),
                    p,
                    value,
                    old(self).fuel(),
                ),
                Err(n) => r is Err && r->Err_0@ == n && final(self).frames_view() == old(
                    self,
                ).frames_view(),
            },
            r is Ok ==> final(self).spec_get(e, name@) == Some(value),
    {
        let key = name.to_owned();
        match self.walk_exec(e, &key, self.budget) {
            Ok(p) => {
                self.write_place(p, value);
                proof {
                    lemma_walk_same_shape(old(self).frames@, self.frames@, e as int, name@, self.budget as nat);
                    Self::lemma_read_back(old(self).frames@, self.frames@, p, value, self.budget as nat, self.next_id);
                }
                Ok(())
            },
            Err(n) => Err(n),
        }
    }
}

/// Resolution stays inside the arena.
proof fn lemma_resolve_in_range(fr: Seq<Frame>, e: int, s: int, fuel: nat, next_id: u64)
    requires
        frames_wf(fr, next_id),
        0 <= e < fr.len(),
        0 <= s < fr[e].slots@.len(),
    ensures
        ({
            let (e2, s2) = resolve_slot(fr, e, s, fuel);
            0 <= e2 < fr.len() && 0 <= s2 < fr[e2].slots@.len()
        }),
    decreases fuel,
{
    match link_of(fr[e], s) {
        Some((o, os)) => if fuel > 0 {
            assert(fr[e].links@[s] == Some((o, os)));
            lemma_resolve_in_range(fr, o as int, os as int, (fuel - 1) as nat, next_id);
        },
        None => {},
    }
}

/// Appending an entry under a name not yet present makes it the name's
/// first entry.
pub proof fn lemma_find_push<X>(s: Seq<(String, X)>, x: (String, X), name: Seq<char>, k: int)
    requires
        0 <= k <= s.len(),
        find_from(s, name, k) is None,
        x.0@ == name,
    ensures
        find_from(s.push(x), name, k) == Some(s.len() as int),
    decreases s.len() - k,
{
    if k < s.len() {
        assert(s.push(x)[k] == s[k]);
        lemma_find_push(s, x, name, k + 1);
    }
}

/// Appending an entry keeps what was found before.
pub proof fn lemma_find_push_kept<X>(s: Seq<(String, X)>, x: (String, X), name: Seq<char>, k: int)
    requires
        0 <= k,
        find_from(s, name, k) is Some,
    ensures
        find_from(s.push(x), name, k) == find_from(s, name, k),
    decreases s.len() - k,
{
    if k < s.len() && s[k].0@ != name {
        assert(s.push(x)[k] == s[k]);
        lemma_find_push_kept(s, x, name, k + 1);
    } else if k < s.len() {
        assert(s.push(x)[k] == s[k]);
    }
}

/// Frame `e` changed in ways that keep the arena sound: same id and
/// parent, slots that only grow (within their bound), and links, aliases
/// and owners that point into the arena.
pub open spec fn frame_change_ok(old: Seq<Frame>, new: Seq<Frame>, e: int) -> bool {
    &&& new.len() == old.len()
    &&& 0 <= e < old.len()
    &&& forall|j: int| 0 <= j < old.len() && j != e ==> new[j] == old[j]
    &&& new[e].env_id == old[e].env_id
    &&& new[e].parent == old[e].parent
    &&& old[e].slots@.len() <= new[e].slots@.len() < u32::MAX
    &&& new[e].links@.len() <= new[e].slots@.len()
    &&& forall|k: int|
        0 <= k < new[e].links@.len() ==> match #[trigger] new[e].links@[k] {
            Some((o, os)) => o < new.len() && os < new[o as int].slots@.len(),
            None => true,
        }
    &&& forall|a: int|
        0 <= a < new[e].aliases@.len() ==> match (#[trigger] new[e].aliases@[a]).1.env {
            Some(t) => t < new.len(),
            None => true,
        }
    &&& forall|k: int| 0 <= k < new[e].owners@.len() ==> (#[trigger] new[e].owners@[k]) < new.len()
}

proof fn lemma_wf_frame_changed(old: Seq<Frame>, new: Seq<Frame>, e: int, next_id: u64)
    requires
        frames_wf(old, next_id),
        frame_change_ok(old, new, e),
    ensures
        frames_wf(new, next_id),
{
    assert forall|j: int| 0 <= j < new.len() implies old[j].slots@.len() <= (#[trigger] new[j]).slots@.len()
        && new[j].parent == old[j].parent && new[j].env_id == old[j].env_id by {
        if j != e {
            assert(new[j] == old[j]);
        }
    }
    assert forall|e1: int, e2: int|
        0 <= e1 < e2 < new.len() implies (#[trigger] new[e1]).env_id != (#[trigger] new[e2]).env_id by {
        assert(old[e1].env_id != old[e2].env_id);
    }
    assert forall|j: int, k: int|
        0 <= j < new.len() && 0 <= k < new[j].links@.len() implies match (#[trigger] new[j].links@[k]) {
        Some((o, os)) => o < new.len() && os < new[o as int].slots@.len(),
        None => true,
    } by {
        if j != e {
            assert(new[j] == old[j]);
            match old[j].links@[k] {
                Some((o, os)) => {
                    assert(old[o as int].slots@.len() <= new[o as int].slots@.len());
                },
                None => {},
            }
        }
    }
    assert forall|j: int, a: int|
        0 <= j < new.len() && 0 <= a < new[j].aliases@.len() implies match (
        #[trigger] new[j].aliases@[a]).1.env {
        Some(t) => t < new.len(),
        None => true,
    } by {
        if j != e {
            assert(new[j] == old[j]);
        }
    }
    assert forall|j: int, k: int|
        0 <= j < new.len() && 0 <= k < new[j].owners@.len() implies (#[trigger] new[j].owners@[k])
        < new.len() by {
        if j != e {
            assert(new[j] == old[j]);
        }
    }
    assert forall|j: int| 0 <= j < new.len() implies (#[trigger] new[j]).links@.len() <= new[j].slots@.len()
        && new[j].slots@.len() < u32::MAX by {
        if j != e {
            assert(new[j] == old[j]);
        }
    }
    assert forall|j: int| 0 <= j < new.len() implies 0 < (#[trigger] new[j]).env_id && new[j].env_id
        < next_id by {
        if j != e {
            assert(new[j] == old[j]);
        }
    }
}

impl Environments {
    /// Frame `e`'s own binding of `name`: overwritten in place when there is
    /// one, appended otherwise. Answers the slot, and whether the slot was a
    /// link to another frame's location, which it no longer is.
    fn define_slot(&mut self, e: usize, name: String, value: TaggedValue) -> (r: (usize, bool))
        requires
            old(self).wf(),
            old(self).has_env(e),
            old(self).frames_view()[e as int].slots@.len() + 1 < u32::MAX,
        ensures
            final(self).wf(),
            frame_change_ok(old(self).frames_view(), final(self).frames_view(), e as int),
            final(self).frames_view()[e as int].aliases == old(self).frames_view()[e as int].aliases,
            final(self).frames_view()[e as int].owners == old(self).frames_view()[e as int].owners,
            final(self).frames_view()[e as int].scoped == old(self).frames_view()[e as int].scoped,
            final(self).frames_view()[e as int].introduced == old(self).frames_view()[e as int].introduced,
            final(self).frames_view()[e as int].import_aliases == old(self).frames_view()[e as int].import_aliases,
            match find_key(old(self).frames_view()[e as int].slots@, name@) {
                Some(s) => r.0 == s && r.1 == (link_of(old(self).frames_view()[e as int], s) is Some)
                    && final(self).frames_view()[e as int].slots@ == old(self).frames_view()[e as int].slots@.update(
                    s,
                    (old(self).frames_view()[e as int].slots@[s].0, value),
                ) && final(self).frames_view()[e as int].links@ == (if s < old(self).frames_view()[e as int].links@.len() {
                    old(self).frames_view()[e as int].links@.update(s, None)
                } else {
                    old(self).frames_view()[e as int].links@
                }),
                None => r.0 == old(self).frames_view()[e as int].slots@.len() && !r.1
                    && final(self).frames_view()[e as int].slots@ == old(self).frames_view()[e as int].slots@.push(
                    (name, value),
                ) && final(self).frames_view()[e as int].links == old(self).frames_view()[e as int].links,
            },
            find_key(final(self).frames_view()[e as int].slots@, name@) == Some(r.0 as int),
            link_of(final(self).frames_view()[e as int], r.0 as int) is None,
            final(self).fuel() >= old(self).fuel(),
    {
        let ghost old_fr = self.frames@;
        let ghost nm = name;
        match position_of(&self.frames[e].slots, &name) {
            Some(s) => {
                let was = if s < self.frames[e].links.len() {
                    self.frames[e].links[s].is_some()
                } else {
                    false
                };
                let mut f = Frame::empty(0, None);
                self.frames.set_and_swap(e, &mut f);
                let old_name = f.slots[s].0.clone();
                f.slots.set(s, (old_name, value));
                if s < f.links.len() {
                    f.links.set(s, None);
                }
                self.frames.set_and_swap(e, &mut f);
                proof {
                    let fr = self.frames@;
                    assert(fr[e as int].slots@ =~= old_fr[e as int].slots@.update(
                        s as int,
                        (old_fr[e as int].slots@[s as int].0, value),
                    ));
                    assert forall|j: int| 0 <= j < fr.len() && j != e implies fr[j] == old_fr[j] by {}
                    assert forall|k: int| 0 <= k < fr[e as int].links@.len() implies match #[trigger] fr[
                        e as int].links@[k] {
                        Some((o, os)) => o < fr.len() && os < fr[o as int].slots@.len(),
                        None => true,
                    } by {
                        if k != s {
                            assert(fr[e as int].links@[k] == old_fr[e as int].links@[k]);
                            match old_fr[e as int].links@[k] {
                                Some((o, os)) => {
                                    assert(old_fr[o as int].slots@.len() <= fr[o as int].slots@.len());
                                },
                                None => {},
                            }
                        }
                    }
                    assert forall|k: int| 0 <= k < fr[e as int].slots@.len() implies (
                    #[trigger] fr[e as int].slots@[k]).0@ == old_fr[e as int].slots@[k].0@ by {}
                    lemma_find_same_keys(fr[e as int].slots@, old_fr[e as int].slots@, nm@, 0);
                    lemma_wf_frame_changed(old_fr, fr, e as int, self.next_id);
                }
                (s, was)
            },
            None => {
                let n = self.frames[e].slots.len();
                let mut f = Frame::empty(0, None);
                self.frames.set_and_swap(e, &mut f);
                f.slots.push((name, value));
                self.frames.set_and_swap(e, &mut f);
                self.budget = self.budget.saturating_add(1);
                proof {
                    let fr = self.frames@;
                    assert forall|j: int| 0 <= j < fr.len() && j != e implies fr[j] == old_fr[j] by {}
                    assert forall|k: int| 0 <= k < fr[e as int].links@.len() implies match #[trigger] fr[
                        e as int].links@[k] {
                        Some((o, os)) => o < fr.len() && os < fr[o as int].slots@.len(),
                        None => true,
                    } by {
                        match old_fr[e as int].links@[k] {
                            Some((o, os)) => {
                                assert(old_fr[o as int].slots@.len() <= fr[o as int].slots@.len());
                            },
                            None => {},
                        }
                    }
                    lemma_find_push(old_fr[e as int].slots@, (nm, value), nm@, 0);
                    lemma_wf_frame_changed(old_fr, fr, e as int, self.next_id);
                }
                (n, false)
            },
        }
    }

    /// Bind `name` in `e` itself to `value`: overwrite its slot in place, or
    /// append a new one. A binding that was imported becomes `e`'s own, and
    /// the library's location is left alone.
    pub fn define(&mut self, e: usize, name: &str, value: TaggedValue)
        requires
            old(self).wf(),
            old(self).has_env(e),
            old(self).frames_view()[e as int].slots@.len() + 1 < u32::MAX,
        ensures
            final(self).wf(),
            frame_change_ok(old(self).frames_view(), final(self).frames_view(), e as int),
            final(self).frames_view()[e as int].aliases == old(self).frames_view()[e as int].aliases,
            final(self).frames_view()[e as int].scoped == old(self).frames_view()[e as int].scoped,
            match find_key(old(self).frames_view()[e as int].slots@, name@) {
                Some(s) => final(self).frames_view()[e as int].slots@.len() == old(self).frames_view()[e as int].slots@.len()
                    && final(self).frames_view()[e as int].slots@[s].1 == value,
                None => final(self).frames_view()[e as int].slots@.len() == old(self).frames_view()[e as int].slots@.len() + 1,
            },
            final(self).spec_local_slot(e, name@) == (match find_key(old(self).frames_view()[e as int].slots@, name@) {
                Some(s) => Some(s),
                None => Some(old(self).frames_view()[e as int].slots@.len() as int),
            }),
            final(self).spec_get(e, name@) == Some(value),
    {
        let ghost old_fr = self.frames@;
        let (s, _) = self.define_slot(e, name.to_owned(), value);
        proof {
            let fr = self.frames@;
            lemma_find_from(old_fr[e as int].slots@, name@, 0);
            assert(fr[e as int].slots@[s as int].1 == value);
            assert(resolve_slot(fr, e as int, s as int, self.budget as nat) == (e as int, s as int));
            assert(walk(fr, e as int, name@, self.budget as nat) == Ok::<Place, Seq<char>>(Place::Slot(e, s)));
        }
    }
}

/// The location slot `s` of frame `e` stands for: its link's target, or
/// itself.
pub open spec fn slot_owner(f: Frame, e: usize, s: usize) -> (usize, u32) {
    match link_of(f, s as int) {
        Some(owner) => owner,
        None => (e, s as u32),
    }
}

/// `links` with entry `slot` set to `owner`, grown with `None` first when
/// it is shorter.
fn set_link(links: &mut Vec<Option<(usize, u32)>>, slot: usize, owner: (usize, u32))
    ensures
        final(links)@.len() == if old(links)@.len() > slot { old(links)@.len() as int } else { slot + 1 },
        final(links)@[slot as int] == Some(owner),
        forall|m: int| 0 <= m < old(links)@.len() && m != slot ==> final(links)@[m] == old(links)@[m],
        forall|m: int| old(links)@.len() <= m < final(links)@.len() && m != slot ==> final(links)@[m] is None,
{
    let ghost before = links@;
    while links.len() <= slot
        invariant
            links@.len() >= before.len(),
            links@.len() <= if before.len() > slot { before.len() as int } else { slot + 1 },
            forall|m: int| 0 <= m < before.len() ==> links@[m] == before[m],
            forall|m: int| before.len() <= m < links@.len() ==> links@[m] is None,
        decreases slot + 1 - links@.len(),
    {
        links.push(None);
    }
    links.set(slot, Some(owner));
}

impl Environments {
    /// Record that slot `slot` of `e` is the location `owner` owns.
    fn set_owner(&mut self, e: usize, slot: usize, owner: (usize, u32))
        requires
            old(self).wf(),
            old(self).has_env(e),
            slot < old(self).frames_view()[e as int].slots@.len(),
            owner.0 < old(self).frames_view().len(),
            owner.1 < old(self).frames_view()[owner.0 as int].slots@.len(),
        ensures
            final(self).wf(),
            frame_change_ok(old(self).frames_view(), final(self).frames_view(), e as int),
            final(self).frames_view()[e as int].slots == old(self).frames_view()[e as int].slots,
            final(self).frames_view()[e as int].aliases == old(self).frames_view()[e as int].aliases,
            final(self).frames_view()[e as int].scoped == old(self).frames_view()[e as int].scoped,
            final(self).frames_view()[e as int].introduced == old(self).frames_view()[e as int].introduced,
            final(self).frames_view()[e as int].import_aliases == old(self).frames_view()[e as int].import_aliases,
            link_of(final(self).frames_view()[e as int], slot as int) == Some(owner),
            forall|k: int| k != slot ==> link_of(final(self).frames_view()[e as int], k) == link_of(
                old(self).frames_view()[e as int],
                k,
            ),
            final(self).frames_view()[e as int].owners@.contains(owner.0),
            forall|o: usize| old(self).frames_view()[e as int].owners@.contains(o) ==> final(self).frames_view()[e as int].owners@.contains(o),
            forall|o: usize| final(self).frames_view()[e as int].owners@.contains(o) ==> o == owner.0 || old(self).frames_view()[e as int].owners@.contains(o),
            final(self).frames_view()[e as int].owners@.no_duplicates() == old(self).frames_view()[e as int].owners@.no_duplicates(),
            final(self).fuel() == old(self).fuel(),
    {
        let ghost old_fr = self.frames@;
        let mut f = Frame::empty(0, None);
        self.frames.set_and_swap(e, &mut f);
        let mut known = false;
        let mut k: usize = 0;
        while k < f.owners.len()
            invariant
                k <= f.owners@.len(),
                known == (exists|m: int| 0 <= m < k && f.owners@[m] == owner.0),
            decreases f.owners@.len() - k,
        {
            if f.owners[k] == owner.0 {
                known = true;
            }
            k = k + 1;
        }
        let ghost owners_before = f.owners@;
        if !known {
            f.owners.push(owner.0);
        }
        set_link(&mut f.links, slot, owner);
        self.frames.set_and_swap(e, &mut f);
        proof {
            let fr = self.frames@;
            assert forall|j: int| 0 <= j < fr.len() && j != e implies fr[j] == old_fr[j] by {}
            assert forall|m: int| 0 <= m < fr[e as int].links@.len() implies match #[trigger] fr[e as int].links@[m] {
                Some((o, os)) => o < fr.len() && os < fr[o as int].slots@.len(),
                None => true,
            } by {
                if m == slot {
                    assert(fr[e as int].links@[m] == Some(owner));
                    if owner.0 != e {
                        assert(fr[owner.0 as int] == old_fr[owner.0 as int]);
                    }
                } else if m < old_fr[e as int].links@.len() {
                    assert(fr[e as int].links@[m] == old_fr[e as int].links@[m]);
                    match old_fr[e as int].links@[m] {
                        Some((o, os)) => {
                            if o != e {
                                assert(fr[o as int] == old_fr[o as int]);
                            }
                        },
                        None => {},
                    }
                } else {
                    assert(fr[e as int].links@[m] is None);
                }
            }
            assert forall|m: int| 0 <= m < fr[e as int].owners@.len() implies (#[trigger] fr[e as int].owners@[m]) < fr.len() by {
                if m < old_fr[e as int].owners@.len() {
                    assert(fr[e as int].owners@[m] == old_fr[e as int].owners@[m]);
                }
            }
            assert forall|kk: int| kk != slot implies link_of(fr[e as int], kk) == link_of(old_fr[e as int], kk) by {
                if 0 <= kk < old_fr[e as int].links@.len() {
                    assert(fr[e as int].links@[kk] == old_fr[e as int].links@[kk]);
                }
            }
            if !known {
                assert(fr[e as int].owners@ == owners_before.push(owner.0));
                assert(fr[e as int].owners@[owners_before.len() as int] == owner.0);
                assert forall|o: usize| owners_before.contains(o) implies fr[e as int].owners@.contains(o) by {
                    let m = choose|m: int| 0 <= m < owners_before.len() && owners_before[m] == o;
                    assert(fr[e as int].owners@[m] == o);
                }
                assert forall|o: usize| fr[e as int].owners@.contains(o) implies o == owner.0 || owners_before.contains(o) by {
                    let m = choose|m: int| 0 <= m < fr[e as int].owners@.len() && fr[e as int].owners@[m] == o;
                    if m < owners_before.len() {
                        assert(owners_before[m] == o);
                    }
                }
                if owners_before.no_duplicates() {
                    assert(fr[e as int].owners@.no_duplicates());
                }
                if fr[e as int].owners@.no_duplicates() {
                    assert(owners_before.no_duplicates()) by {
                        assert forall|a: int, b: int| 0 <= a < owners_before.len() && 0 <= b < owners_before.len() && a != b implies owners_before[a] != owners_before[b] by {
                            assert(fr[e as int].owners@[a] == owners_before[a]);
                            assert(fr[e as int].owners@[b] == owners_before[b]);
                        }
                    }
                }
            } else {
                assert(fr[e as int].owners@ == owners_before);
            }
            lemma_wf_frame_changed(old_fr, fr, e as int, self.next_id);
        }
    }

    /// Make `name` in `e` stand for the location `owner`: a slot of `e`
    /// linked to it, or, when `owner` is in `e` itself, a copy of its value
    /// under the new name (a frame never links to itself).
    fn forward(&mut self, e: usize, name: String, owner: (usize, u32))
        requires
            old(self).wf(),
            old(self).has_env(e),
            owner.0 < old(self).frames_view().len(),
            owner.1 < old(self).frames_view()[owner.0 as int].slots@.len(),
            old(self).frames_view()[e as int].slots@.len() + 1 < u32::MAX,
        ensures
            final(self).wf(),
            frame_change_ok(old(self).frames_view(), final(self).frames_view(), e as int),
            final(self).frames_view()[e as int].aliases == old(self).frames_view()[e as int].aliases,
            final(self).frames_view()[e as int].scoped == old(self).frames_view()[e as int].scoped,
            final(self).frames_view()[e as int].introduced == old(self).frames_view()[e as int].introduced,
            final(self).frames_view()[e as int].import_aliases == old(self).frames_view()[e as int].import_aliases,
            owner.0 != e ==> match find_key(final(self).frames_view()[e as int].slots@, name@) {
                Some(s) => link_of(final(self).frames_view()[e as int], s) == Some(owner),
                None => false,
            },
            owner.0 != e ==> final(self).frames_view()[e as int].owners@.contains(owner.0),
            owner.0 == e ==> final(self).frames_view()[e as int].owners == old(self).frames_view()[e as int].owners,
            owner.0 == e ==> find_key(final(self).frames_view()[e as int].slots@, name@) is Some,
            forall|o: usize| old(self).frames_view()[e as int].owners@.contains(o) ==> final(self).frames_view()[e as int].owners@.contains(o),
            forall|o: usize| final(self).frames_view()[e as int].owners@.contains(o) ==> o == owner.0 || old(self).frames_view()[e as int].owners@.contains(o),
            final(self).frames_view()[e as int].owners@.no_duplicates() == old(self).frames_view()[e as int].owners@.no_duplicates(),
    {
        if owner.0 == e {
            let here = match position_of(&self.frames[e].slots, &name) {
                Some(s) => s == owner.1 as usize,
                None => false,
            };
            if !here {
                let v = self.slot_value(e, owner.1);
                self.define_slot(e, name, v);
            } else {
                proof {
                    lemma_wf_frame_changed(self.frames@, self.frames@, e as int, self.next_id);
                }
            }
            return;
        }
        let ghost nm = name;
        let (slot, _) = self.define_slot(e, name, TaggedValue::Unspecified);
        proof {
            lemma_find_from(self.frames@[e as int].slots@, nm@, 0);
        }
        self.set_owner(e, slot, owner);
        proof {
            let fr = self.frames@;
            assert forall|k: int| 0 <= k < fr[e as int].slots@.len() implies (#[trigger] fr[e as int].slots@[k]).0@ == fr[e as int].slots@[k].0@ by {}
        }
    }
}

impl Environments {
    fn take_binding(&mut self, e: usize, name: &str, source: usize, source_name: &str, source_owns: bool) -> (r: bool)
        requires
            old(self).wf(),
            old(self).has_env(e),
            old(self).has_env(source),
            old(self).frames_view()[e as int].slots@.len() + 1 < u32::MAX,
        ensures
            final(self).wf(),
            r == old(self).spec_local_slot(source, source_name@) is Some,
            !r ==> final(self).frames_view() == old(self).frames_view(),
            r ==> frame_change_ok(old(self).frames_view(), final(self).frames_view(), e as int),
            match old(self).spec_local_slot(source, source_name@) {
                Some(slot) => {
                    let f = old(self).frames_view()[source as int];
                    if link_of(f, slot) is None && !source_owns {
                        final(self).spec_get(e, name@) == Some(f.slots@[slot].1)
                    } else {
                        slot_owner(f, source, slot as usize).0 != e ==> final(self).spec_location(e, name@)
                            == old(self).spec_location(source, source_name@)
                    }
                },
                None => true,
            },
    {
        let slot = match self.local_slot(source, source_name) {
            Some(s) => s,
            None => {
                return false;
            },
        };
        proof {
            lemma_find_from(self.frames@[source as int].slots@, source_name@, 0);
        }
        let link = if (slot as usize) < self.frames[source].links.len() {
            self.frames[source].links[slot as usize]
        } else {
            None
        };
        let owner = match link {
            Some(o) => o,
            None => if source_owns {
                (source, slot)
            } else {
                let v = self.frames[source].slots[slot as usize].1;
                self.define(e, name, v);
                return true;
            },
        };
        proof {
            let f = self.frames@[source as int];
            assert(slot_owner(f, source, slot as usize) == owner);
            if link is Some {
                assert(f.links@[slot as int] == link);
            }
        }
        let ghost old_fr = self.frames@;
        self.forward(e, name.to_owned(), owner);
        proof {
            let fr = self.frames@;
            if owner.0 != e {
                lemma_find_from(fr[e as int].slots@, name@, 0);
                let s2 = find_key(fr[e as int].slots@, name@)->0;
                assert(walk(fr, e as int, name@, self.budget as nat) == Ok::<Place, Seq<char>>(Place::Slot(e, s2 as usize)));
                assert(walk(old_fr, source as int, source_name@, old(self).budget as nat) == Ok::<Place, Seq<char>>(Place::Slot(source, slot as usize)));
                assert(fr[owner.0 as int].env_id == old_fr[owner.0 as int].env_id) by {
                    if owner.0 != e {
                        assert(fr[owner.0 as int] == old_fr[owner.0 as int]);
                    }
                }
            }
        }
        true
    }

    /// Make `name` in `e` the binding `source_name` is in `source`, as an
    /// import does: `e` then reads and writes the location of the library
    /// that owns it. `false`, with nothing changed, when `source` has no
    /// plain binding of that name.
    pub fn share_binding(&mut self, e: usize, name: &str, source: usize, source_name: &str) -> (r: bool)
        requires
            old(self).wf(),
            old(self).has_env(e),
            old(self).has_env(source),
            old(self).frames_view()[e as int].slots@.len() + 1 < u32::MAX,
        ensures
            final(self).wf(),
            r == old(self).spec_local_slot(source, source_name@) is Some,
            !r ==> final(self).frames_view() == old(self).frames_view(),
            r ==> frame_change_ok(old(self).frames_view(), final(self).frames_view(), e as int),
            match old(self).spec_local_slot(source, source_name@) {
                Some(slot) => slot_owner(old(self).frames_view()[source as int], source, slot as usize).0
                    != e ==> final(self).spec_location(e, name@) == old(self).spec_location(
                    source,
                    source_name@,
                ),
                None => true,
            },
    {
        self.take_binding(e, name, source, source_name, true)
    }

    /// Bring a binding out of a staging environment, which owns nothing: a
    /// linked slot arrives as the same link, a plain one as its value.
    pub fn copy_binding(&mut self, e: usize, name: &str, staging: usize, staged_name: &str) -> (r: bool)
        requires
            old(self).wf(),
            old(self).has_env(e),
            old(self).has_env(staging),
            old(self).frames_view()[e as int].slots@.len() + 1 < u32::MAX,
        ensures
            final(self).wf(),
            r == old(self).spec_local_slot(staging, staged_name@) is Some,
            !r ==> final(self).frames_view() == old(self).frames_view(),
            r ==> frame_change_ok(old(self).frames_view(), final(self).frames_view(), e as int),
            match old(self).spec_local_slot(staging, staged_name@) {
                Some(slot) => {
                    let f = old(self).frames_view()[staging as int];
                    if link_of(f, slot) is None {
                        final(self).spec_get(e, name@) == Some(f.slots@[slot].1)
                    } else {
                        slot_owner(f, staging, slot as usize).0 != e ==> final(self).spec_location(e, name@)
                            == old(self).spec_location(staging, staged_name@)
                    }
                },
                None => true,
            },
    {
        self.take_binding(e, name, staging, staged_name, false)
    }

    /// Whether `name` has a plain binding in `e` or one of its ancestors.
    pub fn has(&self, e: usize, name: &str) -> (r: bool)
        requires
            self.wf(),
            self.has_env(e),
        ensures
            r == has_plain(self.frames_view(), e as int, name@),
        decreases e,
    {
        match self.local_slot(e, name) {
            Some(_) => true,
            None => match self.frames[e].parent {
                Some(p) => {
                    proof {
                        assert(p < e);
                    }
                    self.has(p, name)
                },
                None => false,
            },
        }
    }

    /// The id of the root of `e`'s parent chain.
    pub fn root_id(&self, e: usize) -> (r: u64)
        requires
            self.wf(),
            self.has_env(e),
        ensures
            r == self.frames_view()[root_of(self.frames_view(), e as int)].env_id,
    {
        let root = self.root(e);
        self.frames[root].env_id
    }

    /// The root of `e`'s parent chain.
    pub fn root(&self, e: usize) -> (r: usize)
        requires
            self.wf(),
            self.has_env(e),
        ensures
            r == root_of(self.frames_view(), e as int),
            r < self.frames_view().len(),
            self.frames_view()[r as int].parent is None,
        decreases e,
    {
        match self.frames[e].parent {
            Some(p) => {
                proof {
                    assert(p < e);
                }
                self.root(p)
            },
            None => e,
        }
    }
}

/// Whether `name` has a plain binding in frame `e` or an ancestor.
pub open spec fn has_plain(fr: Seq<Frame>, e: int, name: Seq<char>) -> bool
    decreases e,
{
    if !(0 <= e < fr.len()) {
        false
    } else if find_key(fr[e].slots@, name) is Some {
        true
    } else {
        match fr[e].parent {
            Some(p) => if 0 <= p < e {
                has_plain(fr, p as int, name)
            } else {
                false
            },
            None => false,
        }
    }
}

/// The root of frame `e`'s parent chain.
pub open spec fn root_of(fr: Seq<Frame>, e: int) -> int
    decreases e,
{
    if !(0 <= e < fr.len()) {
        e
    } else {
        match fr[e].parent {
            Some(p) => if 0 <= p < e {
                root_of(fr, p as int)
            } else {
                e
            },
            None => e,
        }
    }
}

/// Slot `s` of `f` is a hidden import alias: its name is an alias minted
/// for a location, and the slot still forwards to that location.
pub open spec fn slot_hidden(f: Frame, s: int) -> bool {
    exists|k: int, m: int|
        0 <= k < f.import_aliases@.len() && 0 <= m < f.import_aliases@[k].1@.len() && (
        #[trigger] f.import_aliases@[k].1@[m]).1@ == f.slots@[s].0@ && link_of(f, s) == Some(
            f.import_aliases@[k].0,
        )
}

/// The slots of `f` below `n` that a program bound, with their names, in
/// slot order.
pub open spec fn visible_slots_below(f: Frame, n: int) -> Seq<(u32, Seq<char>)>
    decreases n,
{
    if n <= 0 {
        Seq::empty()
    } else if slot_hidden(f, n - 1) {
        visible_slots_below(f, n - 1)
    } else {
        visible_slots_below(f, n - 1).push(((n - 1) as u32, f.slots@[n - 1].0@))
    }
}

impl Environments {
    fn slot_is_hidden(&self, e: usize, s: usize) -> (r: bool)
        requires
            self.wf(),
            self.has_env(e),
            s < self.frames_view()[e as int].slots@.len(),
        ensures
            r == slot_hidden(self.frames_view()[e as int], s as int),
    {
        let f = &self.frames[e];
        let link = if s < f.links.len() {
            f.links[s]
        } else {
            None
        };
        let mut k: usize = 0;
        while k < f.import_aliases.len()
            invariant
                k <= f.import_aliases@.len(),
                e < self.frames@.len(),
                *f == self.frames@[e as int],
                s < f.slots@.len(),
                link == link_of(*f, s as int),
                forall|kk: int, m: int|
                    0 <= kk < k && 0 <= m < f.import_aliases@[kk].1@.len() ==> !((
                    #[trigger] f.import_aliases@[kk].1@[m]).1@ == f.slots@[s as int].0@ && link == Some(
                        f.import_aliases@[kk].0,
                    )),
            decreases f.import_aliases@.len() - k,
        {
            let entry = &f.import_aliases[k];
            let mut m: usize = 0;
            while m < entry.1.len()
                invariant
                    m <= entry.1@.len(),
                    e < self.frames@.len(),
                    *f == self.frames@[e as int],
                    k < f.import_aliases@.len(),
                    s < f.slots@.len(),
                    link == link_of(*f, s as int),
                    *entry == f.import_aliases@[k as int],
                    forall|mm: int|
                        0 <= mm < m ==> !((#[trigger] entry.1@[mm]).1@ == f.slots@[s as int].0@ && link == Some(
                            entry.0,
                        )),
                decreases entry.1@.len() - m,
            {
                if entry.1[m].1 == f.slots[s].0 && link == Some(entry.0) {
                    proof {
                        assert(f.import_aliases@[k as int].1@[m as int] == entry.1@[m as int]);
                        assert(f.import_aliases@[k as int].1@[m as int].1@ == f.slots@[s as int].0@);
                        assert(slot_hidden(*f, s as int));
                    }
                    return true;
                }
                m = m + 1;
            }
            k = k + 1;
        }
        false
    }

    /// Each name a program bound in `e` with its slot, in slot order; the
    /// hidden aliases minted for imported locations are left out.
    fn visible_slots(&self, e: usize) -> (r: Vec<(u32, String)>)
        requires
            self.wf(),
            self.has_env(e),
        ensures
            r@.len() == visible_slots_below(self.frames_view()[e as int], self.frames_view()[e as int].slots@.len() as int).len(),
            forall|k: int| 0 <= k < r@.len() ==> (#[trigger] r@[k]).0 == visible_slots_below(
                self.frames_view()[e as int],
                self.frames_view()[e as int].slots@.len() as int,
            )[k].0 && r@[k].1@ == visible_slots_below(
                self.frames_view()[e as int],
                self.frames_view()[e as int].slots@.len() as int,
            )[k].1,
            forall|k: int| 0 <= k < r@.len() ==> (#[trigger] r@[k]).0 < self.frames_view()[e as int].slots@.len(),
    {
        let mut out: Vec<(u32, String)> = Vec::new();
        let n = self.frames[e].slots.len();
        let mut s: usize = 0;
        while s < n
            invariant
                self.wf(),
                self.has_env(e),
                n == self.frames@[e as int].slots@.len(),
                s <= n,
                out@.len() == visible_slots_below(self.frames@[e as int], s as int).len(),
                forall|k: int| 0 <= k < out@.len() ==> (#[trigger] out@[k]).0 == visible_slots_below(
                    self.frames@[e as int],
                    s as int,
                )[k].0 && out@[k].1@ == visible_slots_below(self.frames@[e as int], s as int)[k].1,
                forall|k: int| 0 <= k < out@.len() ==> (#[trigger] out@[k]).0 < n,
            decreases n - s,
        {
            if !self.slot_is_hidden(e, s) {
                proof {
                    assert(n < u32::MAX);
                }
                out.push((s as u32, self.frames[e].slots[s].0.clone()));
            }
            s = s + 1;
        }
        out
    }

    /// The names a program bound in `e` itself, in slot order.
    pub fn local_names(&self, e: usize) -> (r: Vec<String>)
        requires
            self.wf(),
            self.has_env(e),
        ensures
            r@.len() == visible_slots_below(self.frames_view()[e as int], self.frames_view()[e as int].slots@.len() as int).len(),
            forall|k: int| 0 <= k < r@.len() ==> (#[trigger] r@[k])@ == visible_slots_below(
                self.frames_view()[e as int],
                self.frames_view()[e as int].slots@.len() as int,
            )[k].1,
    {
        let slots = self.visible_slots(e);
        let mut out: Vec<String> = Vec::new();
        let mut k: usize = 0;
        while k < slots.len()
            invariant
                k <= slots@.len(),
                out@.len() == k,
                forall|m: int| 0 <= m < k ==> (#[trigger] out@[m])@ == slots@[m].1@,
            decreases slots@.len() - k,
        {
            out.push(slots[k].1.clone());
            k = k + 1;
        }
        out
    }

    /// The bindings a program made in `e` itself, with what each reads as,
    /// in slot order.
    pub fn bindings(&self, e: usize) -> (r: Vec<(String, TaggedValue)>)
        requires
            self.wf(),
            self.has_env(e),
        ensures
            r@.len() == visible_slots_below(self.frames_view()[e as int], self.frames_view()[e as int].slots@.len() as int).len(),
            forall|k: int| 0 <= k < r@.len() ==> {
                let v = visible_slots_below(
                    self.frames_view()[e as int],
                    self.frames_view()[e as int].slots@.len() as int,
                )[k];
                &&& (#[trigger] r@[k]).0@ == v.1
                &&& r@[k].1 == slot_read(self.frames_view(), e as int, v.0 as int, self.fuel())
            },
    {
        let slots = self.visible_slots(e);
        let mut out: Vec<(String, TaggedValue)> = Vec::new();
        let mut k: usize = 0;
        while k < slots.len()
            invariant
                self.wf(),
                self.has_env(e),
                k <= slots@.len(),
                out@.len() == k,
                forall|m: int| 0 <= m < slots@.len() ==> (#[trigger] slots@[m]).0 < self.frames@[e as int].slots@.len(),
                forall|m: int| 0 <= m < k ==> (#[trigger] out@[m]).0@ == slots@[m].1@ && out@[m].1
                    == slot_read(self.frames@, e as int, slots@[m].0 as int, self.budget as nat),
            decreases slots@.len() - k,
        {
            let v = self.slot_value(e, slots[k].0);
            out.push((slots[k].1.clone(), v));
            k = k + 1;
        }
        out
    }

    /// The frames that own locations `e` imported, each once.
    pub fn shared_owners(&self, e: usize) -> (r: Vec<usize>)
        requires
            self.has_env(e),
        ensures
            r@ == self.frames_view()[e as int].owners@,
    {
        let f = &self.frames[e];
        let mut out: Vec<usize> = Vec::new();
        let mut k: usize = 0;
        while k < f.owners.len()
            invariant
                k <= f.owners@.len(),
                out@ == f.owners@.take(k as int),
            decreases f.owners@.len() - k,
        {
            out.push(f.owners[k]);
            assert(out@ =~= f.owners@.take(k + 1));
            k = k + 1;
        }
        assert(out@ =~= f.owners@);
        out
    }

    /// Every value `e` itself holds, plain and scoped: what the collector
    /// must keep alive for it.
    pub fn local_values(&self, e: usize) -> (r: Vec<TaggedValue>)
        requires
            self.has_env(e),
        ensures
            forall|s: int|
                0 <= s < self.frames_view()[e as int].slots@.len() ==> r@.contains(
                    #[trigger] self.frames_view()[e as int].slots@[s].1,
                ),
            forall|en: int, i: int|
                0 <= en < self.frames_view()[e as int].scoped@.len() && 0 <= i
                    < self.frames_view()[e as int].scoped@[en].1@.len() ==> r@.contains(
                    (#[trigger] self.frames_view()[e as int].scoped@[en].1@[i]).tagged_value,
                ),
    {
        let f = &self.frames[e];
        let mut out: Vec<TaggedValue> = Vec::new();
        let mut s: usize = 0;
        while s < f.slots.len()
            invariant
                s <= f.slots@.len(),
                forall|k: int| 0 <= k < s ==> out@.contains(#[trigger] f.slots@[k].1),
            decreases f.slots@.len() - s,
        {
            let ghost before = out@;
            out.push(f.slots[s].1);
            proof {
                assert(out@[out@.len() - 1] == f.slots@[s as int].1);
                assert forall|k: int| 0 <= k < s + 1 implies out@.contains(#[trigger] f.slots@[k].1) by {
                    if k < s {
                        assert(before.contains(f.slots@[k].1));
                        let w = choose|w: int| 0 <= w < before.len() && before[w] == f.slots@[k].1;
                        assert(out@[w] == f.slots@[k].1);
                    }
                }
            }
            s = s + 1;
        }
        let ghost after_slots = out@;
        let mut en: usize = 0;
        while en < f.scoped.len()
            invariant
                en <= f.scoped@.len(),
                forall|k: int| 0 <= k < f.slots@.len() ==> out@.contains(#[trigger] f.slots@[k].1),
                forall|a: int, i: int|
                    0 <= a < en && 0 <= i < f.scoped@[a].1@.len() ==> out@.contains(
                        (#[trigger] f.scoped@[a].1@[i]).tagged_value,
                    ),
            decreases f.scoped@.len() - en,
        {
            let bs = &f.scoped[en].1;
            let mut i: usize = 0;
            while i < bs.len()
                invariant
                    i <= bs@.len(),
                    *bs == f.scoped@[en as int].1,
                    forall|k: int| 0 <= k < f.slots@.len() ==> out@.contains(#[trigger] f.slots@[k].1),
                    forall|a: int, ii: int|
                        0 <= a < en && 0 <= ii < f.scoped@[a].1@.len() ==> out@.contains(
                            (#[trigger] f.scoped@[a].1@[ii]).tagged_value,
                        ),
                    forall|ii: int| 0 <= ii < i ==> out@.contains((#[trigger] bs@[ii]).tagged_value),
                decreases bs@.len() - i,
            {
                let ghost before = out@;
                out.push(bs[i].tagged_value);
                proof {
                    assert forall|x: TaggedValue| before.contains(x) implies out@.contains(x) by {
                        let w = choose|w: int| 0 <= w < before.len() && before[w] == x;
                        assert(out@[w] == x);
                    }
                    assert(out@[out@.len() - 1] == bs@[i as int].tagged_value);
                }
                i = i + 1;
            }
            proof {
                assert forall|a: int, ii: int|
                    0 <= a < en + 1 && 0 <= ii < f.scoped@[a].1@.len() implies out@.contains(
                    (#[trigger] f.scoped@[a].1@[ii]).tagged_value,
                ) by {
                    if a == en {
                        assert(f.scoped@[a].1@[ii] == bs@[ii]);
                    }
                }
            }
            en = en + 1;
        }
        out
    }

    /// The frames `e`'s macro-expansion aliases point into (an alias into
    /// `e` itself is left out).
    pub fn alias_targets(&self, e: usize) -> (r: Vec<usize>)
        requires
            self.has_env(e),
        ensures
            forall|a: int|
                0 <= a < self.frames_view()[e as int].aliases@.len() ==> match (
                #[trigger] self.frames_view()[e as int].aliases@[a]).1.env {
                    Some(t) => r@.contains(t),
                    None => true,
                },
            r@.len() <= self.frames_view()[e as int].aliases@.len(),
    {
        let f = &self.frames[e];
        let mut out: Vec<usize> = Vec::new();
        let mut a: usize = 0;
        while a < f.aliases.len()
            invariant
                a <= f.aliases@.len(),
                out@.len() <= a,
                forall|b: int|
                    0 <= b < a ==> match (#[trigger] f.aliases@[b]).1.env {
                        Some(t) => out@.contains(t),
                        None => true,
                    },
            decreases f.aliases@.len() - a,
        {
            match f.aliases[a].1.env {
                Some(t) => {
                    let ghost before = out@;
                    out.push(t);
                    proof {
                        assert(out@[out@.len() - 1] == t);
                        assert forall|b: int|
                            0 <= b < a + 1 implies match (#[trigger] f.aliases@[b]).1.env {
                            Some(t2) => out@.contains(t2),
                            None => true,
                        } by {
                            if b < a {
                                match f.aliases@[b].1.env {
                                    Some(t2) => {
                                        let w = choose|w: int| 0 <= w < before.len() && before[w] == t2;
                                        assert(out@[w] == t2);
                                    },
                                    None => {},
                                }
                            }
                        }
                    }
                },
                None => {},
            }
            a = a + 1;
        }
        out
    }
}

impl Environments {
    fn install_alias(&mut self, e: usize, alias: String, target_env: usize, name: String, scopes: Option<ScopeSet>)
        requires
            old(self).wf(),
            old(self).has_env(e),
            old(self).has_env(target_env),
        ensures
            final(self).wf(),
            frame_change_ok(old(self).frames_view(), final(self).frames_view(), e as int),
            final(self).frames_view()[e as int].slots == old(self).frames_view()[e as int].slots,
            final(self).frames_view()[e as int].links == old(self).frames_view()[e as int].links,
            final(self).frames_view()[e as int].scoped == old(self).frames_view()[e as int].scoped,
            final(self).frames_view()[e as int].introduced == old(self).frames_view()[e as int].introduced,
            final(self).frames_view()[e as int].import_aliases == old(self).frames_view()[e as int].import_aliases,
            final(self).frames_view()[e as int].owners == old(self).frames_view()[e as int].owners,
            match find_key(final(self).frames_view()[e as int].aliases@, alias@) {
                Some(a) => final(self).frames_view()[e as int].aliases@[a].1 == (AliasTarget {
                    env: if target_env == e { None } else { Some(target_env) },
                    name,
                    scopes,
                }),
                None => false,
            },
            old(self).frames_view()[e as int].aliases@.len() <= final(self).frames_view()[e as int].aliases@.len(),
            forall|k: int|
                0 <= k < old(self).frames_view()[e as int].aliases@.len() && old(self).frames_view()[e as int].aliases@[k].0@
                    != alias@ ==> final(self).frames_view()[e as int].aliases@[k] == old(self).frames_view()[e as int].aliases@[k],
    {
        let ghost old_fr = self.frames@;
        let ghost nm = alias;
        let env = if target_env == e {
            None
        } else {
            Some(target_env)
        };
        let target = AliasTarget { env, name, scopes };
        let ghost tg = target;
        let found = position_of(&self.frames[e].aliases, &alias);
        let mut f = Frame::empty(0, None);
        self.frames.set_and_swap(e, &mut f);
        let ghost before = f.aliases@;
        match found {
            Some(a) => {
                f.aliases.set(a, (alias, target));
            },
            None => {
                f.aliases.push((alias, target));
                self.budget = self.budget.saturating_add(1);
            },
        }
        self.frames.set_and_swap(e, &mut f);
        proof {
            let fr = self.frames@;
            let now = fr[e as int].aliases@;
            assert forall|j: int| 0 <= j < fr.len() && j != e implies fr[j] == old_fr[j] by {}
            assert forall|k: int| 0 <= k < fr[e as int].links@.len() implies match #[trigger] fr[e as int].links@[k] {
                Some((o, os)) => o < fr.len() && os < fr[o as int].slots@.len(),
                None => true,
            } by {
                match old_fr[e as int].links@[k] {
                    Some((o, os)) => {
                        if o != e {
                            assert(fr[o as int] == old_fr[o as int]);
                        }
                    },
                    None => {},
                }
            }
            assert forall|a: int| 0 <= a < now.len() implies match (#[trigger] now[a]).1.env {
                Some(t) => t < fr.len(),
                None => true,
            } by {
                if a < before.len() && !(found == Some(a as usize)) {
                    assert(now[a] == before[a]);
                }
            }
            match found {
                Some(a) => {
                    lemma_find_from(before, nm@, 0);
                    assert(before[a as int].0@ == nm@);
                    assert forall|k: int| 0 <= k < now.len() implies (#[trigger] now[k]).0@ == before[k].0@ by {
                        if k == a {
                        } else {
                            assert(now[k] == before[k]);
                        }
                    }
                    lemma_find_same_keys(now, before, nm@, 0);
                },
                None => {
                    lemma_find_push(before, (nm, tg), nm@, 0);
                },
            }
            lemma_wf_frame_changed(old_fr, fr, e as int, self.next_id);
        }
    }

    /// Install a macro-expansion alias in `e`: `alias` stands for
    /// `target_name` as bound in `target_env`, looked up afresh on every
    /// access. A second install under the same alias replaces the first.
    pub fn define_alias(&mut self, e: usize, alias: &str, target_env: usize, target_name: &str)
        requires
            old(self).wf(),
            old(self).has_env(e),
            old(self).has_env(target_env),
        ensures
            final(self).wf(),
            frame_change_ok(old(self).frames_view(), final(self).frames_view(), e as int),
            match alias_of(final(self).frames_view()[e as int], alias@) {
                Some(a) => {
                    let t = final(self).frames_view()[e as int].aliases@[a].1;
                    &&& t.env == (if target_env == e { None } else { Some(target_env) })
                    &&& t.name@ == target_name@
                    &&& t.scopes is None
                },
                None => false,
            },
    {
        self.install_alias(e, alias.to_owned(), target_env, target_name.to_owned(), None);
    }

    /// An alias to the definition of `target_name` in `target_env` filed
    /// under exactly `scopes`.
    pub fn define_scoped_alias(&mut self, e: usize, alias: &str, target_env: usize, target_name: &str, scopes: ScopeSet)
        requires
            old(self).wf(),
            old(self).has_env(e),
            old(self).has_env(target_env),
        ensures
            final(self).wf(),
            frame_change_ok(old(self).frames_view(), final(self).frames_view(), e as int),
            match alias_of(final(self).frames_view()[e as int], alias@) {
                Some(a) => {
                    let t = final(self).frames_view()[e as int].aliases@[a].1;
                    &&& t.env == (if target_env == e { None } else { Some(target_env) })
                    &&& t.name@ == target_name@
                    &&& t.scopes == Some(scopes)
                },
                None => false,
            },
    {
        self.install_alias(e, alias.to_owned(), target_env, target_name.to_owned(), Some(scopes));
    }
}

/// Appending an entry under another name finds nothing new.
pub proof fn lemma_find_push_none<X>(s: Seq<(String, X)>, x: (String, X), name: Seq<char>, k: int)
    requires
        0 <= k,
        find_from(s, name, k) is None,
        x.0@ != name,
    ensures
        find_from(s.push(x), name, k) is None,
    decreases s.push(x).len() - k,
{
    if k < s.push(x).len() {
        if k < s.len() {
            assert(s.push(x)[k] == s[k]);
        }
        lemma_find_push_none(s, x, name, k + 1);
    }
}

// ---------------------------------------------------------------------------
// Scoped resolution
// ---------------------------------------------------------------------------

/// A reference names two bindings, neither of whose scope sets contains
/// the other, so no binding is the most specific.
#[derive(Debug)]
pub struct AmbiguousReference {
    /// The name referred to.
    pub name: String,
    /// The reference's scopes.
    pub scopes: ScopeSet,
}

/// Why a scoped assignment did not happen.
#[derive(Debug)]
pub enum ScopedSetError {
    /// No binding of this name was reachable. Carries the name.
    Undefined(String),
    /// The reference names two bindings, neither containing the other;
    /// nothing was written.
    Ambiguous(AmbiguousReference),
}

/// How a macro-introduced top-level definition is held: renamed to a
/// global of its own, or filed under its scope set.
#[derive(Debug)]
pub enum IntroducedDefinition {
    Renamed(String),
    Scoped(ScopeSet),
}

/// A sequence of scope-set-keyed entries, each scope set by its
/// identifiers.
pub open spec fn keyed_view<X>(s: Seq<(ScopeSet, X)>) -> Seq<(Seq<ScopeId>, X)> {
    s.map_values(|p: (ScopeSet, X)| (p.0.ids_view(), p.1))
}

/// The candidates among `bs[k..n]` for a reference at `refset`, latest
/// first: those whose scope set is a subset of it.
pub open spec fn candidates_down(bs: Seq<ScopedBinding>, refset: Set<ScopeId>, n: int, k: int) -> Seq<(Seq<ScopeId>, TaggedValue)>
    decreases n - k,
{
    if k < 0 || k >= n {
        Seq::empty()
    } else {
        let rest = candidates_down(bs, refset, n, k + 1);
        if bs[k].scopes.view_set().subset_of(refset) {
            rest.push((bs[k].scopes.ids_view(), bs[k].tagged_value))
        } else {
            rest
        }
    }
}

/// The same candidates as places to write.
pub open spec fn places_down(bs: Seq<ScopedBinding>, e: int, en: int, refset: Set<ScopeId>, n: int, k: int) -> Seq<(Seq<ScopeId>, Place)>
    decreases n - k,
{
    if k < 0 || k >= n {
        Seq::empty()
    } else {
        let rest = places_down(bs, e, en, refset, n, k + 1);
        if bs[k].scopes.view_set().subset_of(refset) {
            rest.push((bs[k].scopes.ids_view(), Place::Scoped(e as usize, en as usize, k as usize)))
        } else {
            rest
        }
    }
}

/// Frame `f`'s scoped candidates for `name` at `refset`.
pub open spec fn frame_candidates(f: Frame, name: Seq<char>, refset: Set<ScopeId>) -> Seq<(Seq<ScopeId>, TaggedValue)> {
    match find_key(f.scoped@, name) {
        Some(en) => candidates_down(f.scoped@[en].1@, refset, f.scoped@[en].1@.len() as int, 0),
        None => Seq::empty(),
    }
}

/// The renamed macro-introduced globals among the first `k` of `items`
/// whose scope set is a candidate and whose global is bound in frame
/// `root`, with what that global holds, in order.
pub open spec fn introduced_upto(
    fr: Seq<Frame>,
    root: int,
    items: Seq<(ScopeSet, String)>,
    refset: Set<ScopeId>,
    fuel: nat,
    k: int,
) -> Seq<(Seq<ScopeId>, TaggedValue)>
    decreases k,
{
    if k <= 0 {
        Seq::empty()
    } else {
        let rest = introduced_upto(fr, root, items, refset, fuel, k - 1);
        let it = items[k - 1];
        if it.0.view_set().subset_of(refset) {
            match find_key(fr[root].slots@, it.1@) {
                Some(s) => rest.push((it.0.ids_view(), slot_read(fr, root, s, fuel))),
                None => rest,
            }
        } else {
            rest
        }
    }
}

/// The root's renamed macro-introduced globals of `name` that are
/// candidates.
pub open spec fn introduced_candidates(fr: Seq<Frame>, root: int, name: Seq<char>, refset: Set<ScopeId>, fuel: nat) -> Seq<(Seq<ScopeId>, TaggedValue)> {
    match find_key(fr[root].introduced@, name) {
        Some(en) => introduced_upto(fr, root, fr[root].introduced@[en].1@, refset, fuel, fr[root].introduced@[en].1@.len() as int),
        None => Seq::empty(),
    }
}

/// Every candidate a scoped read of `name` at `refset` from frame `e`
/// weighs: latest first within a frame, innermost frame first, and the
/// root's renamed introduced globals last.
pub open spec fn read_candidates(fr: Seq<Frame>, e: int, name: Seq<char>, refset: Set<ScopeId>, fuel: nat) -> Seq<(Seq<ScopeId>, TaggedValue)>
    decreases e,
{
    if !(0 <= e < fr.len()) {
        Seq::empty()
    } else {
        frame_candidates(fr[e], name, refset) + match fr[e].parent {
            Some(p) => if 0 <= p < e {
                read_candidates(fr, p as int, name, refset, fuel)
            } else {
                Seq::empty()
            },
            None => introduced_candidates(fr, e, name, refset, fuel),
        }
    }
}

/// Every scoped binding a scoped write of `name` at `refset` from frame
/// `e` weighs, in the read's order, as places.
pub open spec fn write_candidates(fr: Seq<Frame>, e: int, name: Seq<char>, refset: Set<ScopeId>) -> Seq<(Seq<ScopeId>, Place)>
    decreases e,
{
    if !(0 <= e < fr.len()) {
        Seq::empty()
    } else {
        let f = fr[e];
        let here = match find_key(f.scoped@, name) {
            Some(en) => places_down(f.scoped@[en].1@, e, en, refset, f.scoped@[en].1@.len() as int, 0),
            None => Seq::empty(),
        };
        here + match f.parent {
            Some(p) => if 0 <= p < e {
                write_candidates(fr, p as int, name, refset)
            } else {
                Seq::empty()
            },
            None => Seq::empty(),
        }
    }
}

/// Candidate `i`'s scope set contains every candidate's.
pub open spec fn dominates<X>(c: Seq<(Seq<ScopeId>, X)>, i: int) -> bool {
    forall|j: int| 0 <= j < c.len() ==> (#[trigger] c[j]).0.to_set().subset_of(c[i].0.to_set())
}

/// The first candidate from `k` on that contains every candidate.
pub open spec fn first_dominating<X>(c: Seq<(Seq<ScopeId>, X)>, k: int) -> Option<int>
    decreases c.len() - k,
{
    if k < 0 || k >= c.len() {
        None
    } else if dominates(c, k) {
        Some(k)
    } else {
        first_dominating(c, k + 1)
    }
}

/// The resolution rule: no candidate, no binding (`Some(None)`); else the
/// first candidate whose scope set contains every candidate's — the most
/// specific, ties going to the innermost and latest (`Some(Some(i))`);
/// when none does, the reference is ambiguous (`None`).
pub open spec fn resolution<X>(c: Seq<(Seq<ScopeId>, X)>) -> Option<Option<int>> {
    if c.len() == 0 {
        Some(None)
    } else {
        match first_dominating(c, 0) {
            Some(i) => Some(Some(i)),
            None => None,
        }
    }
}

/// What an alias target reaches from the frame `holder` holding it.
pub open spec fn alias_walk(fr: Seq<Frame>, holder: int, t: AliasTarget, fuel: nat) -> Result<Place, Seq<char>> {
    let te: int = match t.env {
        Some(x) => x as int,
        None => holder,
    };
    if fuel == 0 {
        Err(t.name@)
    } else {
        match t.scopes {
            None => walk(fr, te, t.name@, (fuel - 1) as nat),
            Some(sc) => if 0 <= te < fr.len() {
                match scoped_definition_place(fr, te, t.name@, sc.ids_view()) {
                    Some(p) => Ok(p),
                    None => Err(t.name@),
                }
            } else {
                Err(t.name@)
            },
        }
    }
}

/// The by-name fallback of a scoped reference no scoped binding answered:
/// `walk`'s steps, except that a frame's name-only view is passed over
/// when its binding is not a candidate for `refset`.
pub open spec fn fallback_walk(fr: Seq<Frame>, e: int, name: Seq<char>, refset: Set<ScopeId>, fuel: nat) -> Result<Place, Seq<char>>
    decreases e,
{
    if !(0 <= e < fr.len()) {
        Err(name)
    } else {
        let f = fr[e];
        match find_key(f.slots@, name) {
            Some(s) => Ok(Place::Slot(e as usize, s as usize)),
            None => match alias_of(f, name) {
                Some(a) => alias_walk(fr, e, f.aliases@[a].1, fuel),
                None => {
                    let rest = match f.parent {
                        Some(p) => if 0 <= p < e {
                            fallback_walk(fr, p as int, name, refset, fuel)
                        } else {
                            Err(name)
                        },
                        None => Err(name),
                    };
                    match visible_place(f, name) {
                        Some((en, i)) => if f.scoped@[en].1@[i].scopes.view_set().subset_of(refset) {
                            Ok(Place::Scoped(e as usize, en as usize, i as usize))
                        } else {
                            rest
                        },
                        None => rest,
                    }
                },
            },
        }
    }
}

impl Environments {
    /// What `resolve_with_scopes` answers: `Err` for an ambiguous reference,
    /// else the value and whether a scoped binding was selected.
    pub open spec fn spec_resolve(&self, e: usize, name: Seq<char>, refv: Seq<ScopeId>) -> Result<(Option<TaggedValue>, bool), ()> {
        let fr = self.frames_view();
        let fuel = self.fuel();
        if refv.len() == 0 {
            Ok((self.spec_get(e, name), false))
        } else {
            let c = read_candidates(fr, e as int, name, refv.to_set(), fuel);
            match resolution(c) {
                None => Err(()),
                Some(Some(i)) => Ok((Some(c[i].1), true)),
                Some(None) => Ok(
                    (
                        match fallback_walk(fr, e as int, name, refv.to_set(), fuel) {
                            Ok(p) => Some(place_value(fr, p, fuel)),
                            Err(_) => None,
                        },
                        false,
                    ),
                ),
            }
        }
    }
}

/// The index of the first candidate whose scope set contains every
/// candidate's; `None` when none does.
fn first_dominating_exec<X>(c: &Vec<(ScopeSet, X)>) -> (r: Option<usize>)
    ensures
        match r {
            Some(i) => first_dominating(keyed_view(c@), 0) == Some(i as int) && i < c@.len(),
            None => first_dominating(keyed_view(c@), 0) is None,
        },
{
    let ghost kv = keyed_view(c@);
    let mut i: usize = 0;
    while i < c.len()
        invariant
            i <= c@.len(),
            kv == keyed_view(c@),
            first_dominating(kv, 0) == first_dominating(kv, i as int),
        decreases c@.len() - i,
    {
        let mut all = true;
        let mut j: usize = 0;
        while j < c.len()
            invariant
                j <= c@.len(),
                i < c@.len(),
                kv == keyed_view(c@),
                all == forall|m: int| 0 <= m < j ==> (#[trigger] kv[m]).0.to_set().subset_of(kv[i as int].0.to_set()),
            decreases c@.len() - j,
        {
            let sub = c[j].0.is_subset_of(&c[i].0);
            proof {
                assert(kv[j as int].0 == c@[j as int].0.ids_view());
                assert(kv[i as int].0 == c@[i as int].0.ids_view());
            }
            all = all && sub;
            j = j + 1;
        }
        if all {
            return Some(i);
        }
        i = i + 1;
    }
    None
}

impl Environments {
    /// Append frame `e`'s scoped candidates for `name` at `refs` to `out`.
    fn push_frame_candidates(&self, e: usize, name: &String, refs: &ScopeSet, out: &mut Vec<(ScopeSet, TaggedValue)>)
        requires
            self.wf(),
            self.has_env(e),
        ensures
            keyed_view(final(out)@) == keyed_view(old(out)@) + frame_candidates(self.frames_view()[e as int], name@, refs.view_set()),
    {
        let ghost start = keyed_view(out@);
        match position_of(&self.frames[e].scoped, name) {
            Some(en) => {
                let bs = &self.frames[e].scoped[en].1;
                let n = bs.len();
                let mut k: usize = n;
                while k > 0
                    invariant
                        k <= n,
                        n == bs@.len(),
                        keyed_view(out@) == start + candidates_down(bs@, refs.view_set(), n as int, k as int),
                    decreases k,
                {
                    let b = &bs[k - 1];
                    if b.scopes.is_subset_of(refs) {
                        let ghost before = out@;
                        out.push((b.scopes.duplicate(), b.tagged_value));
                        proof {
                            assert(keyed_view(out@) =~= keyed_view(before).push((b.scopes.ids_view(), b.tagged_value)));
                        }
                    }
                    k = k - 1;
                }
            },
            None => {
                proof {
                    assert(keyed_view(out@) =~= start + Seq::<(Seq<ScopeId>, TaggedValue)>::empty());
                }
            },
        }
    }

    /// Append the root `root`'s renamed introduced globals of `name` that
    /// are candidates at `refs` to `out`.
    fn push_introduced_candidates(&self, root: usize, name: &String, refs: &ScopeSet, out: &mut Vec<(ScopeSet, TaggedValue)>)
        requires
            self.wf(),
            self.has_env(root),
        ensures
            keyed_view(final(out)@) == keyed_view(old(out)@) + introduced_candidates(
                self.frames_view(),
                root as int,
                name@,
                refs.view_set(),
                self.fuel(),
            ),
    {
        let ghost start = keyed_view(out@);
        match position_of(&self.frames[root].introduced, name) {
            Some(en) => {
                let items = &self.frames[root].introduced[en].1;
                let mut k: usize = 0;
                while k < items.len()
                    invariant
                        self.wf(),
                        self.has_env(root),
                        k <= items@.len(),
                        *items == self.frames@[root as int].introduced@[en as int].1,
                        keyed_view(out@) == start + introduced_upto(
                            self.frames@,
                            root as int,
                            items@,
                            refs.view_set(),
                            self.budget as nat,
                            k as int,
                        ),
                    decreases items@.len() - k,
                {
                    let it = &items[k];
                    if it.0.is_subset_of(refs) {
                        match position_of(&self.frames[root].slots, &it.1) {
                            Some(slot) => {
                                proof {
                                    assert(self.frames@[root as int].slots@.len() < u32::MAX);
                                }
                                let v = self.slot_value(root, slot as u32);
                                let ghost before = out@;
                                out.push((it.0.duplicate(), v));
                                proof {
                                    assert(keyed_view(out@) =~= keyed_view(before).push((it.0.ids_view(), v)));
                                }
                            },
                            None => {},
                        }
                    }
                    k = k + 1;
                }
            },
            None => {
                proof {
                    assert(keyed_view(out@) =~= start + Seq::<(Seq<ScopeId>, TaggedValue)>::empty());
                }
            },
        }
    }

    /// Append every candidate a scoped read of `name` at `refs` from `e`
    /// weighs to `out`.
    fn push_read_candidates(&self, e: usize, name: &String, refs: &ScopeSet, out: &mut Vec<(ScopeSet, TaggedValue)>)
        requires
            self.wf(),
            self.has_env(e),
        ensures
            keyed_view(final(out)@) == keyed_view(old(out)@) + read_candidates(
                self.frames_view(),
                e as int,
                name@,
                refs.view_set(),
                self.fuel(),
            ),
        decreases e,
    {
        let ghost start = keyed_view(out@);
        self.push_frame_candidates(e, name, refs, out);
        let ghost mid = keyed_view(out@);
        match self.frames[e].parent {
            Some(p) => {
                proof {
                    assert(p < e);
                }
                self.push_read_candidates(p, name, refs, out);
            },
            None => {
                self.push_introduced_candidates(e, name, refs, out);
            },
        }
        proof {
            assert(keyed_view(out@) =~= start + read_candidates(self.frames@, e as int, name@, refs.view_set(), self.budget as nat));
        }
    }

    /// Append every scoped binding a scoped write of `name` at `refs` from
    /// `e` weighs to `out`, as places.
    fn push_write_candidates(&self, e: usize, name: &String, refs: &ScopeSet, out: &mut Vec<(ScopeSet, Place)>)
        requires
            self.wf(),
            self.has_env(e),
        ensures
            keyed_view(final(out)@) == keyed_view(old(out)@) + write_candidates(self.frames_view(), e as int, name@, refs.view_set()),
            forall|k: int| 0 <= k < old(out)@.len() ==> #[trigger] final(out)@[k] == old(out)@[k],
            forall|k: int| old(out)@.len() <= k < final(out)@.len() ==> place_valid(self.frames_view(), (#[trigger] final(out)@[k]).1),
            forall|k: int| 0 <= k < final(out)@.len() ==> (#[trigger] final(out)@[k]).1 == keyed_view(final(out)@)[k].1,
        decreases e,
    {
        let ghost start = keyed_view(out@);
        let ghost out0 = out@;
        let ghost here_v: Seq<(Seq<ScopeId>, Place)> = Seq::empty();
        match position_of(&self.frames[e].scoped, name) {
            Some(en) => {
                let bs = &self.frames[e].scoped[en].1;
                let n = bs.len();
                let mut k: usize = n;
                while k > 0
                    invariant
                        self.wf(),
                        self.has_env(e),
                        en < self.frames@[e as int].scoped@.len(),
                        *bs == self.frames@[e as int].scoped@[en as int].1,
                        k <= n,
                        n == bs@.len(),
                        keyed_view(out@) == start + places_down(bs@, e as int, en as int, refs.view_set(), n as int, k as int),
                        out@.len() >= out0.len(),
                        forall|m: int| 0 <= m < out0.len() ==> #[trigger] out@[m] == out0[m],
                        forall|m: int| out0.len() <= m < out@.len() ==> place_valid(self.frames@, (#[trigger] out@[m]).1),
                    decreases k,
                {
                    let b = &bs[k - 1];
                    if b.scopes.is_subset_of(refs) {
                        let ghost before = out@;
                        out.push((b.scopes.duplicate(), Place::Scoped(e, en, k - 1)));
                        proof {
                            assert(keyed_view(out@) =~= keyed_view(before).push(
                                (b.scopes.ids_view(), Place::Scoped(e, en, (k - 1) as usize)),
                            ));
                        }
                    }
                    k = k - 1;
                }
            },
            None => {},
        }
        match self.frames[e].parent {
            Some(p) => {
                proof {
                    assert(p < e);
                }
                self.push_write_candidates(p, name, refs, out);
            },
            None => {},
        }
        proof {
            assert(keyed_view(out@) =~= start + write_candidates(self.frames@, e as int, name@, refs.view_set()));
        }
    }
}

impl Environments {
    fn alias_walk_exec(&self, holder: usize, t: &AliasTarget, fuel: u64) -> (r: Result<Place, String>)
        requires
            self.wf(),
            holder < self.frames_view().len(),
        ensures
            match alias_walk(self.frames_view(), holder as int, *t, fuel as nat) {
                Ok(p) => r == Ok::<Place, String>(p),
                Err(n) => r is Err && r->Err_0@ == n,
            },
            r matches Ok(p) ==> place_valid(self.frames_view(), p),
    {
        let te = match t.env {
            Some(x) => x,
            None => holder,
        };
        if fuel == 0 {
            return Err(t.name.clone());
        }
        match &t.scopes {
            None => self.walk_exec(te, &t.name, fuel - 1),
            Some(sc) => {
                if te < self.frames.len() {
                    match self.scoped_definition_exec(te, &t.name, sc) {
                        Some(p) => Ok(p),
                        None => Err(t.name.clone()),
                    }
                } else {
                    Err(t.name.clone())
                }
            },
        }
    }

    fn fallback_exec(&self, e: usize, name: &String, refs: &ScopeSet) -> (r: Result<Place, String>)
        requires
            self.wf(),
        ensures
            match fallback_walk(self.frames_view(), e as int, name@, refs.view_set(), self.fuel()) {
                Ok(p) => r == Ok::<Place, String>(p),
                Err(n) => r is Err && r->Err_0@ == n,
            },
            r matches Ok(p) ==> place_valid(self.frames_view(), p),
        decreases e,
    {
        if e >= self.frames.len() {
            return Err(name.clone());
        }
        match position_of(&self.frames[e].slots, name) {
            Some(s) => {
                return Ok(Place::Slot(e, s));
            },
            None => {},
        }
        match position_of(&self.frames[e].aliases, name) {
            Some(a) => {
                return self.alias_walk_exec(e, &self.frames[e].aliases[a].1, self.budget);
            },
            None => {},
        }
        match self.visible_place_exec(e, name) {
            Some((en, i)) => {
                if self.frames[e].scoped[en].1[i].scopes.is_subset_of(refs) {
                    return Ok(Place::Scoped(e, en, i));
                }
            },
            None => {},
        }
        match self.frames[e].parent {
            Some(p) => if p < e {
                self.fallback_exec(p, name, refs)
            } else {
                Err(name.clone())
            },
            None => Err(name.clone()),
        }
    }

    /// Resolve a scoped reference: every binding of `name` on `e`'s chain
    /// whose scope set is a subset of `scopes` is a candidate; the one whose
    /// scope set contains all the others' answers, and `true` says so. No
    /// candidate: the by-name fallback answers, which passes over a
    /// name-only view the rule did not accept. `Err` when candidates exist
    /// and none contains the rest. Empty scopes are a plain `get`.
    pub fn resolve_with_scopes(&self, e: usize, name: &str, scopes: &ScopeSet) -> (r: Result<(Option<TaggedValue>, bool), AmbiguousReference>)
        requires
            self.wf(),
            self.has_env(e),
        ensures
            match self.spec_resolve(e, name@, scopes.ids_view()) {
                Ok(x) => r is Ok && r->Ok_0 == x,
                Err(_) => r is Err && r->Err_0.name@ == name@,
            },
    {
        if scopes.is_empty() {
            return Ok((self.get(e, name), false));
        }
        let key = name.to_owned();
        let mut cands: Vec<(ScopeSet, TaggedValue)> = Vec::new();
        self.push_read_candidates(e, &key, scopes, &mut cands);
        proof {
            assert(keyed_view(cands@) =~= read_candidates(self.frames@, e as int, name@, scopes.view_set(), self.budget as nat));
        }
        if cands.len() == 0 {
            let value = match self.fallback_exec(e, &key, scopes) {
                Ok(p) => Some(self.place_value_exec(p)),
                Err(_) => None,
            };
            return Ok((value, false));
        }
        match first_dominating_exec(&cands) {
            Some(i) => {
                proof {
                    assert(keyed_view(cands@)[i as int].1 == cands@[i as int].1);
                }
                Ok((Some(cands[i].1), true))
            },
            None => Err(AmbiguousReference { name: key, scopes: scopes.duplicate() }),
        }
    }

    /// The value a scoped reference reaches, as `resolve_with_scopes` finds it.
    pub fn get_with_scopes(&self, e: usize, name: &str, scopes: &ScopeSet) -> (r: Result<Option<TaggedValue>, AmbiguousReference>)
        requires
            self.wf(),
            self.has_env(e),
        ensures
            match self.spec_resolve(e, name@, scopes.ids_view()) {
                Ok(x) => r is Ok && r->Ok_0 == x.0,
                Err(_) => r is Err && r->Err_0.name@ == name@,
            },
    {
        match self.resolve_with_scopes(e, name, scopes) {
            Ok((v, _)) => Ok(v),
            Err(amb) => Err(amb),
        }
    }

    /// The scope set of the binding a scoped reference denotes; `None`
    /// when no scoped binding is a candidate (or `scopes` is empty).
    pub fn scoped_binding_of(&self, e: usize, name: &str, scopes: &ScopeSet) -> (r: Result<Option<ScopeSet>, AmbiguousReference>)
        requires
            self.wf(),
            self.has_env(e),
        ensures
            scopes.ids_view().len() == 0 ==> r is Ok && r->Ok_0 is None,
            scopes.ids_view().len() > 0 ==> {
                let c = read_candidates(self.frames_view(), e as int, name@, scopes.view_set(), self.fuel());
                match resolution(c) {
                    None => r is Err && r->Err_0.name@ == name@,
                    Some(None) => r is Ok && r->Ok_0 is None,
                    Some(Some(i)) => r is Ok && r->Ok_0 is Some && r->Ok_0->0.ids_view() == c[i].0,
                }
            },
    {
        if scopes.is_empty() {
            return Ok(None);
        }
        let key = name.to_owned();
        let mut cands: Vec<(ScopeSet, TaggedValue)> = Vec::new();
        self.push_read_candidates(e, &key, scopes, &mut cands);
        proof {
            assert(keyed_view(cands@) =~= read_candidates(self.frames@, e as int, name@, scopes.view_set(), self.budget as nat));
        }
        if cands.len() == 0 {
            return Ok(None);
        }
        match first_dominating_exec(&cands) {
            Some(i) => {
                proof {
                    assert(keyed_view(cands@)[i as int].0 == cands@[i as int].0.ids_view());
                }
                Ok(Some(cands[i].0.duplicate()))
            },
            None => Err(AmbiguousReference { name: key, scopes: scopes.duplicate() }),
        }
    }
}

impl Environments {
    /// What a scoped assignment writes to: `Err(None)` for an ambiguous
    /// reference, `Err(Some(n))` when nothing is reached (`n` the name the
    /// walk last looked for), else the place.
    pub open spec fn spec_set_target(&self, e: usize, name: Seq<char>, refv: Seq<ScopeId>) -> Result<Place, Option<Seq<char>>> {
        let fr = self.frames_view();
        let fuel = self.fuel();
        if refv.len() == 0 {
            match walk(fr, e as int, name, fuel) {
                Ok(p) => Ok(p),
                Err(n) => Err(Some(n)),
            }
        } else {
            let wc = write_candidates(fr, e as int, name, refv.to_set());
            match resolution(wc) {
                None => Err(None),
                Some(Some(i)) => Ok(wc[i].1),
                Some(None) => match fallback_walk(fr, e as int, name, refv.to_set(), fuel) {
                    Ok(p) => Ok(p),
                    Err(n) => Err(Some(n)),
                },
            }
        }
    }

    /// Assign through a scoped reference, resolving exactly as a scoped read
    /// does over the scoped bindings of the chain: the binding the rule
    /// names is written; with no candidate the by-name fallback's binding
    /// is; an ambiguous reference, or one that reaches nothing, writes
    /// nothing and says which. Empty scopes are a plain `set`.
    pub fn set_with_scopes(&mut self, e: usize, name: &str, scopes: &ScopeSet, value: TaggedValue) -> (r: Result<(), ScopedSetError>)
        requires
            old(self).wf(),
            old(self).has_env(e),
        ensures
            final(self).wf(),
            final(self).fuel() == old(self).fuel(),
            match old(self).spec_set_target(e, name@, scopes.ids_view()) {
                Ok(p) => r is Ok && place_written(old(self).frames_view(), final(self).frames_view(), p, value, old(self).fuel())
                    && same_shape(old(self).frames_view(), final(self).frames_view()),
                Err(None) => r matches Err(ScopedSetError::Ambiguous(a)) && a.name@ == name@
                    && final(self).frames_view() == old(self).frames_view(),
                Err(Some(n)) => r matches Err(ScopedSetError::Undefined(m)) && m@ == n
                    && final(self).frames_view() == old(self).frames_view(),
            },
    {
        let key = name.to_owned();
        if scopes.is_empty() {
            return match self.walk_exec(e, &key, self.budget) {
                Ok(p) => {
                    self.write_place(p, value);
                    Ok(())
                },
                Err(n) => Err(ScopedSetError::Undefined(n)),
            };
        }
        let mut cands: Vec<(ScopeSet, Place)> = Vec::new();
        self.push_write_candidates(e, &key, scopes, &mut cands);
        proof {
            assert(keyed_view(cands@) =~= write_candidates(self.frames@, e as int, name@, scopes.view_set()));
        }
        if cands.len() == 0 {
            return match self.fallback_exec(e, &key, scopes) {
                Ok(p) => {
                    self.write_place(p, value);
                    Ok(())
                },
                Err(n) => Err(ScopedSetError::Undefined(n)),
            };
        }
        match first_dominating_exec(&cands) {
            Some(i) => {
                let p = cands[i].1;
                self.write_place(p, value);
                Ok(())
            },
            None => Err(ScopedSetError::Ambiguous(AmbiguousReference { name: key, scopes: scopes.duplicate() })),
        }
    }
}

/// The first entry from `k` on of `items` at exactly `sc`.
pub open spec fn item_from(items: Seq<(ScopeSet, String)>, sc: Seq<ScopeId>, k: int) -> Option<int>
    decreases items.len() - k,
{
    if k < 0 || k >= items.len() {
        None
    } else if items[k].0.ids_view() == sc {
        Some(k)
    } else {
        item_from(items, sc, k + 1)
    }
}

/// The global the introduced definition of `name` at exactly `sc` was
/// renamed to in `f`, if `f` recorded one.
pub open spec fn introduced_global_of(f: Frame, name: Seq<char>, sc: Seq<ScopeId>) -> Option<String> {
    match find_key(f.introduced@, name) {
        Some(en) => match item_from(f.introduced@[en].1@, sc, 0) {
            Some(k) => Some(f.introduced@[en].1@[k].1),
            None => None,
        },
        None => None,
    }
}

proof fn lemma_item_from(items: Seq<(ScopeSet, String)>, sc: Seq<ScopeId>, k: int)
    requires
        0 <= k,
    ensures
        match item_from(items, sc, k) {
            Some(i) => k <= i < items.len() && items[i].0.ids_view() == sc,
            None => true,
        },
    decreases items.len() - k,
{
    if k < items.len() && items[k].0.ids_view() != sc {
        lemma_item_from(items, sc, k + 1);
    }
}

fn item_position(items: &Vec<(ScopeSet, String)>, sc: &ScopeSet) -> (r: Option<usize>)
    ensures
        match r {
            Some(k) => item_from(items@, sc.ids_view(), 0) == Some(k as int) && k < items@.len(),
            None => item_from(items@, sc.ids_view(), 0) is None,
        },
{
    let mut k: usize = 0;
    while k < items.len()
        invariant
            k <= items@.len(),
            item_from(items@, sc.ids_view(), 0) == item_from(items@, sc.ids_view(), k as int),
        decreases items@.len() - k,
    {
        if items[k].0.same_as(sc) {
            return Some(k);
        }
        k = k + 1;
    }
    None
}

impl Environments {
    /// Frame `e` with its scoped table replaced by `scoped`.
    fn replace_scoped(&mut self, e: usize, scoped: Vec<(String, Vec<ScopedBinding>)>)
        requires
            old(self).wf(),
            old(self).has_env(e),
        ensures
            final(self).wf(),
            frame_change_ok(old(self).frames_view(), final(self).frames_view(), e as int),
            final(self).frames_view()[e as int].scoped == scoped,
            final(self).frames_view()[e as int].slots == old(self).frames_view()[e as int].slots,
            final(self).frames_view()[e as int].links == old(self).frames_view()[e as int].links,
            final(self).frames_view()[e as int].aliases == old(self).frames_view()[e as int].aliases,
            final(self).frames_view()[e as int].introduced == old(self).frames_view()[e as int].introduced,
            final(self).frames_view()[e as int].import_aliases == old(self).frames_view()[e as int].import_aliases,
            final(self).frames_view()[e as int].owners == old(self).frames_view()[e as int].owners,
            final(self).fuel() == old(self).fuel(),
    {
        let ghost old_fr = self.frames@;
        let mut f = Frame::empty(0, None);
        self.frames.set_and_swap(e, &mut f);
        f.scoped = scoped;
        self.frames.set_and_swap(e, &mut f);
        proof {
            let fr = self.frames@;
            assert forall|j: int| 0 <= j < fr.len() && j != e implies fr[j] == old_fr[j] by {}
            assert forall|k: int| 0 <= k < fr[e as int].links@.len() implies match #[trigger] fr[e as int].links@[k] {
                Some((o, os)) => o < fr.len() && os < fr[o as int].slots@.len(),
                None => true,
            } by {
                match old_fr[e as int].links@[k] {
                    Some((o, os)) => {
                        if o != e {
                            assert(fr[o as int] == old_fr[o as int]);
                        }
                    },
                    None => {},
                }
            }
            lemma_wf_frame_changed(old_fr, fr, e as int, self.next_id);
        }
    }

    /// Frame `e` with its introduced-global table replaced by `introduced`.
    fn replace_introduced(&mut self, e: usize, introduced: Vec<(String, Vec<(ScopeSet, String)>)>)
        requires
            old(self).wf(),
            old(self).has_env(e),
        ensures
            final(self).wf(),
            frame_change_ok(old(self).frames_view(), final(self).frames_view(), e as int),
            final(self).frames_view()[e as int].introduced == introduced,
            final(self).frames_view()[e as int].slots == old(self).frames_view()[e as int].slots,
            final(self).frames_view()[e as int].links == old(self).frames_view()[e as int].links,
            final(self).frames_view()[e as int].aliases == old(self).frames_view()[e as int].aliases,
            final(self).frames_view()[e as int].scoped == old(self).frames_view()[e as int].scoped,
            final(self).frames_view()[e as int].import_aliases == old(self).frames_view()[e as int].import_aliases,
            final(self).frames_view()[e as int].owners == old(self).frames_view()[e as int].owners,
            final(self).fuel() == old(self).fuel(),
    {
        let ghost old_fr = self.frames@;
        let mut f = Frame::empty(0, None);
        self.frames.set_and_swap(e, &mut f);
        f.introduced = introduced;
        self.frames.set_and_swap(e, &mut f);
        proof {
            let fr = self.frames@;
            assert forall|j: int| 0 <= j < fr.len() && j != e implies fr[j] == old_fr[j] by {}
            assert forall|k: int| 0 <= k < fr[e as int].links@.len() implies match #[trigger] fr[e as int].links@[k] {
                Some((o, os)) => o < fr.len() && os < fr[o as int].slots@.len(),
                None => true,
            } by {
                match old_fr[e as int].links@[k] {
                    Some((o, os)) => {
                        if o != e {
                            assert(fr[o as int] == old_fr[o as int]);
                        }
                    },
                    None => {},
                }
            }
            lemma_wf_frame_changed(old_fr, fr, e as int, self.next_id);
        }
    }

    /// Store a binding of `name` under `scopes` in `e` — or by name alone
    /// when `scopes` is empty. A binding already at exactly those scopes is
    /// overwritten, not doubled.
    fn insert_scoped(&mut self, e: usize, name: &str, scopes: ScopeSet, value: TaggedValue, visible_by_name: bool)
        requires
            old(self).wf(),
            old(self).has_env(e),
            old(self).frames_view()[e as int].slots@.len() + 1 < u32::MAX,
        ensures
            final(self).wf(),
            frame_change_ok(old(self).frames_view(), final(self).frames_view(), e as int),
            scopes.ids_view().len() == 0 ==> final(self).spec_get(e, name@) == Some(value),
            scopes.ids_view().len() > 0 ==> {
                let f0 = old(self).frames_view()[e as int];
                let f1 = final(self).frames_view()[e as int];
                &&& f1.slots == f0.slots
                &&& f1.links == f0.links
                &&& f1.aliases == f0.aliases
                &&& f1.introduced == f0.introduced
                &&& match find_key(f1.scoped@, name@) {
                    Some(en) => scopes_from(f1.scoped@[en].1@, scopes.ids_view(), 0) matches Some(i)
                        && f1.scoped@[en].1@[i].tagged_value == value && f1.scoped@[en].1@[i].visible_by_name
                        == visible_by_name,
                    None => false,
                }
            },
    {
        if scopes.is_empty() {
            self.define(e, name, value);
            return;
        }
        let key = name.to_owned();
        let ghost sc = scopes.ids_view();
        let mut table: Vec<(String, Vec<ScopedBinding>)> = Vec::new();
        let mut f = Frame::empty(0, None);
        self.frames.set_and_swap(e, &mut f);
        let ghost f0 = f;
        std::mem::swap(&mut table, &mut f.scoped);
        self.frames.set_and_swap(e, &mut f);
        proof {
            assert(table@ == f0.scoped@);
        }
        match position_of(&table, &key) {
            Some(en) => {
                let mut entry: (String, Vec<ScopedBinding>) = (String::new(), Vec::new());
                table.set_and_swap(en, &mut entry);
                match scopes_position(&entry.1, &scopes) {
                    Some(i) => {
                        let mut b = ScopedBinding { scopes: ScopeSet::new(), tagged_value: value, visible_by_name };
                        entry.1.set_and_swap(i, &mut b);
                        b.tagged_value = value;
                        b.visible_by_name = visible_by_name;
                        entry.1.set_and_swap(i, &mut b);
                        proof {
                            lemma_scopes_from(entry.1@, sc, 0);
                            assert forall|k: int| 0 <= k < entry.1@.len() implies (#[trigger] entry.1@[k]).scopes == f0.scoped@[en as int].1@[k].scopes by {}
                            lemma_scopes_from_same(entry.1@, f0.scoped@[en as int].1@, sc, 0);
                        }
                    },
                    None => {
                        let ghost before = entry.1@;
                        entry.1.push(ScopedBinding { scopes, tagged_value: value, visible_by_name });
                        proof {
                            lemma_scopes_push(before, entry.1@[before.len() as int], sc, 0);
                        }
                    },
                }
                table.set_and_swap(en, &mut entry);
                proof {
                    lemma_find_from(f0.scoped@, key@, 0);
                    assert forall|k: int| 0 <= k < table@.len() implies (#[trigger] table@[k]).0@ == f0.scoped@[k].0@ by {
                        if k != en {
                            assert(table@[k] == f0.scoped@[k]);
                        }
                    }
                    lemma_find_same_keys(table@, f0.scoped@, key@, 0);
                }
            },
            None => {
                let mut bs: Vec<ScopedBinding> = Vec::new();
                bs.push(ScopedBinding { scopes, tagged_value: value, visible_by_name });
                proof {
                    assert(scopes_from(bs@, sc, 0) == Some(0int));
                }
                let ghost before = table@;
                table.push((key, bs));
                proof {
                    lemma_find_push(before, table@[before.len() as int], key@, 0);
                }
            },
        }
        self.replace_scoped(e, table);
    }

    /// Bind `name` under `scopes` in `e`, for hygienic lookup; a name-only
    /// lookup does not see it.
    pub fn define_with_scopes(&mut self, e: usize, name: &str, scopes: ScopeSet, value: TaggedValue)
        requires
            old(self).wf(),
            old(self).has_env(e),
            old(self).frames_view()[e as int].slots@.len() + 1 < u32::MAX,
        ensures
            final(self).wf(),
            frame_change_ok(old(self).frames_view(), final(self).frames_view(), e as int),
            scopes.ids_view().len() == 0 ==> final(self).spec_get(e, name@) == Some(value),
            scopes.ids_view().len() > 0 ==> {
                let f1 = final(self).frames_view()[e as int];
                match find_key(f1.scoped@, name@) {
                    Some(en) => scopes_from(f1.scoped@[en].1@, scopes.ids_view(), 0) matches Some(i)
                        && f1.scoped@[en].1@[i].tagged_value == value && !f1.scoped@[en].1@[i].visible_by_name,
                    None => false,
                }
            },
    {
        self.insert_scoped(e, name, scopes, value, false);
    }

    /// Bind `name` under `scopes` in `e`, reachable by a name-only lookup
    /// too: the definition a macro introduced.
    pub fn define_scoped_definition(&mut self, e: usize, name: &str, scopes: ScopeSet, value: TaggedValue)
        requires
            old(self).wf(),
            old(self).has_env(e),
            old(self).frames_view()[e as int].slots@.len() + 1 < u32::MAX,
        ensures
            final(self).wf(),
            frame_change_ok(old(self).frames_view(), final(self).frames_view(), e as int),
            scopes.ids_view().len() == 0 ==> final(self).spec_get(e, name@) == Some(value),
            scopes.ids_view().len() > 0 ==> {
                let f1 = final(self).frames_view()[e as int];
                match find_key(f1.scoped@, name@) {
                    Some(en) => scopes_from(f1.scoped@[en].1@, scopes.ids_view(), 0) matches Some(i)
                        && f1.scoped@[en].1@[i].tagged_value == value && f1.scoped@[en].1@[i].visible_by_name,
                    None => false,
                }
            },
    {
        self.insert_scoped(e, name, scopes, value, true);
    }
}

/// Appending a binding at a scope set not yet present makes it the first
/// binding at that set.
proof fn lemma_scopes_push(bs: Seq<ScopedBinding>, b: ScopedBinding, sc: Seq<ScopeId>, k: int)
    requires
        0 <= k <= bs.len(),
        scopes_from(bs, sc, k) is None,
        b.scopes.ids_view() == sc,
    ensures
        scopes_from(bs.push(b), sc, k) == Some(bs.len() as int),
    decreases bs.len() - k,
{
    if k < bs.len() {
        assert(bs.push(b)[k] == bs[k]);
        lemma_scopes_push(bs, b, sc, k + 1);
    }
}

/// Whether the by-name view of `name` from frame `e` is the binding a
/// reference that `chosen` names (by the scope set resolution chose, or
/// `None` when it fell back by name) denotes.
pub open spec fn reaches_walk(fr: Seq<Frame>, e: int, name: Seq<char>, chosen: Option<Seq<ScopeId>>) -> bool
    decreases e,
{
    if !(0 <= e < fr.len()) {
        false
    } else {
        let f = fr[e];
        if find_key(f.slots@, name) is Some {
            chosen is None
        } else if alias_of(f, name) is Some {
            let t = f.aliases@[alias_of(f, name)->0].1;
            match chosen {
                None => true,
                Some(ch) => t.env is None && t.scopes is None && match introduced_global_of(f, name, ch) {
                    Some(g) => g@ == t.name@,
                    None => false,
                },
            }
        } else if visible_place(f, name) is Some {
            let (en, i) = visible_place(f, name)->0;
            match chosen {
                Some(ch) => f.scoped@[en].1@[i].scopes.ids_view() == ch,
                None => false,
            }
        } else {
            match f.parent {
                Some(p) => if 0 <= p < e {
                    reaches_walk(fr, p as int, name, chosen)
                } else {
                    false
                },
                None => false,
            }
        }
    }
}

impl Environments {
    /// The binding a scoped reference denotes, by the scope set resolution
    /// chose: `Some(None)` when none (empty scopes, or no candidate),
    /// `None` when ambiguous.
    pub open spec fn spec_chosen(&self, e: usize, name: Seq<char>, refv: Seq<ScopeId>) -> Option<Option<Seq<ScopeId>>> {
        if refv.len() == 0 {
            Some(None)
        } else {
            let c = read_candidates(self.frames_view(), e as int, name, refv.to_set(), self.fuel());
            match resolution(c) {
                None => None,
                Some(None) => Some(None),
                Some(Some(i)) => Some(Some(c[i].0)),
            }
        }
    }

    /// The global `e` recorded for the introduced definition of `name` at
    /// exactly `scopes`.
    fn introduced_global(&self, e: usize, name: &String, scopes: &ScopeSet) -> (r: Option<String>)
        requires
            self.has_env(e),
        ensures
            match introduced_global_of(self.frames_view()[e as int], name@, scopes.ids_view()) {
                Some(g) => r is Some && r->0@ == g@,
                None => r is None,
            },
    {
        match position_of(&self.frames[e].introduced, name) {
            Some(en) => {
                match item_position(&self.frames[e].introduced[en].1, scopes) {
                    Some(k) => Some(self.frames[e].introduced[en].1[k].1.clone()),
                    None => None,
                }
            },
            None => None,
        }
    }

    /// Record that the macro-introduced top-level definition of `name` at
    /// `scopes` was renamed to the global `renamed_to`. The same identity
    /// recorded again overwrites.
    pub fn define_introduced_global(&mut self, e: usize, name: &str, scopes: ScopeSet, renamed_to: &str)
        requires
            old(self).wf(),
            old(self).has_env(e),
        ensures
            final(self).wf(),
            frame_change_ok(old(self).frames_view(), final(self).frames_view(), e as int),
            final(self).frames_view()[e as int].slots == old(self).frames_view()[e as int].slots,
            final(self).frames_view()[e as int].scoped == old(self).frames_view()[e as int].scoped,
            final(self).frames_view()[e as int].aliases == old(self).frames_view()[e as int].aliases,
            match introduced_global_of(final(self).frames_view()[e as int], name@, scopes.ids_view()) {
                Some(g) => g@ == renamed_to@,
                None => false,
            },
    {
        let key = name.to_owned();
        let renamed = renamed_to.to_owned();
        let ghost sc = scopes.ids_view();
        let mut table: Vec<(String, Vec<(ScopeSet, String)>)> = Vec::new();
        let mut f = Frame::empty(0, None);
        self.frames.set_and_swap(e, &mut f);
        let ghost f0 = f;
        std::mem::swap(&mut table, &mut f.introduced);
        self.frames.set_and_swap(e, &mut f);
        match position_of(&table, &key) {
            Some(en) => {
                let mut entry: (String, Vec<(ScopeSet, String)>) = (String::new(), Vec::new());
                table.set_and_swap(en, &mut entry);
                match item_position(&entry.1, &scopes) {
                    Some(k) => {
                        let mut item: (ScopeSet, String) = (ScopeSet::new(), String::new());
                        entry.1.set_and_swap(k, &mut item);
                        item.1 = renamed;
                        entry.1.set_and_swap(k, &mut item);
                        proof {
                            lemma_item_from(entry.1@, sc, 0);
                            assert forall|m: int| 0 <= m < entry.1@.len() implies (#[trigger] entry.1@[m]).0 == f0.introduced@[en as int].1@[m].0 by {}
                            lemma_item_from_same(entry.1@, f0.introduced@[en as int].1@, sc, 0);
                        }
                    },
                    None => {
                        let ghost before = entry.1@;
                        entry.1.push((scopes, renamed));
                        proof {
                            lemma_item_push(before, entry.1@[before.len() as int], sc, 0);
                        }
                    },
                }
                table.set_and_swap(en, &mut entry);
                proof {
                    lemma_find_from(f0.introduced@, key@, 0);
                    assert forall|m: int| 0 <= m < table@.len() implies (#[trigger] table@[m]).0@ == f0.introduced@[m].0@ by {
                        if m != en {
                            assert(table@[m] == f0.introduced@[m]);
                        }
                    }
                    lemma_find_same_keys(table@, f0.introduced@, key@, 0);
                }
            },
            None => {
                let mut items: Vec<(ScopeSet, String)> = Vec::new();
                items.push((scopes, renamed));
                proof {
                    assert(item_from(items@, sc, 0) == Some(0int));
                }
                let ghost before = table@;
                table.push((key, items));
                proof {
                    lemma_find_push(before, table@[before.len() as int], key@, 0);
                }
            },
        }
        self.replace_introduced(e, table);
    }

    /// Every macro-introduced top-level definition of `name` that `e`
    /// recorded: the scope set it was introduced at, and the global it was
    /// renamed to. Parents are not walked.
    pub fn introduced_globals(&self, e: usize, name: &str) -> (r: Vec<(ScopeSet, String)>)
        requires
            self.has_env(e),
        ensures
            match find_key(self.frames_view()[e as int].introduced@, name@) {
                Some(en) => {
                    let items = self.frames_view()[e as int].introduced@[en].1@;
                    &&& r@.len() == items.len()
                    &&& forall|k: int| 0 <= k < items.len() ==> (#[trigger] r@[k]).0.ids_view() == items[k].0.ids_view()
                        && r@[k].1@ == items[k].1@
                },
                None => r@.len() == 0,
            },
    {
        let key = name.to_owned();
        let mut out: Vec<(ScopeSet, String)> = Vec::new();
        match position_of(&self.frames[e].introduced, &key) {
            Some(en) => {
                let items = &self.frames[e].introduced[en].1;
                let mut k: usize = 0;
                while k < items.len()
                    invariant
                        k <= items@.len(),
                        out@.len() == k,
                        forall|m: int| 0 <= m < k ==> (#[trigger] out@[m]).0.ids_view() == items@[m].0.ids_view()
                            && out@[m].1@ == items@[m].1@,
                    decreases items@.len() - k,
                {
                    out.push((items[k].0.duplicate(), items[k].1.clone()));
                    k = k + 1;
                }
            },
            None => {},
        }
        out
    }

    /// Whether the root of `e`'s chain holds any macro-introduced top-level
    /// definition of `name`: a renamed global, or a scoped binding.
    pub fn has_introduced_definition(&self, e: usize, name: &str) -> (r: bool)
        requires
            self.wf(),
            self.has_env(e),
        ensures
            ({
                let f = self.frames_view()[root_of(self.frames_view(), e as int)];
                r == ((find_key(f.introduced@, name@) matches Some(en) && f.introduced@[en].1@.len() > 0)
                    || (find_key(f.scoped@, name@) matches Some(en) && f.scoped@[en].1@.len() > 0))
            }),
    {
        let root = self.root(e);
        let key = name.to_owned();
        let renamed = match position_of(&self.frames[root].introduced, &key) {
            Some(en) => self.frames[root].introduced[en].1.len() > 0,
            None => false,
        };
        renamed || match position_of(&self.frames[root].scoped, &key) {
            Some(en) => self.frames[root].scoped[en].1.len() > 0,
            None => false,
        }
    }

    /// The top-level definition a macro introduced that `scopes` selects for
    /// `name`, as an alias can point at it: the root holding it, and whether
    /// it was renamed to a global or is filed under its scope set. `None`
    /// when `scopes` selects anything else, or is ambiguous.
    pub fn introduced_definition(&self, e: usize, name: &str, scopes: &ScopeSet) -> (r: Option<(usize, IntroducedDefinition)>)
        requires
            self.wf(),
            self.has_env(e),
        ensures
            match self.spec_chosen(e, name@, scopes.ids_view()) {
                Some(Some(ch)) => {
                    let root = root_of(self.frames_view(), e as int);
                    match introduced_global_of(self.frames_view()[root], name@, ch) {
                        Some(g) => r matches Some((ro, IntroducedDefinition::Renamed(x))) && ro == root && x@ == g@,
                        None => if scoped_definition_place(self.frames_view(), root, name@, ch) is Some {
                            r matches Some((ro, IntroducedDefinition::Scoped(s))) && ro == root && s.ids_view() == ch
                        } else {
                            r is None
                        },
                    }
                },
                _ => r is None,
            },
    {
        let chosen = match self.scoped_binding_of(e, name, scopes) {
            Ok(Some(c)) => c,
            _ => {
                return None;
            },
        };
        let root = self.root(e);
        let key = name.to_owned();
        match self.introduced_global(root, &key, &chosen) {
            Some(g) => {
                return Some((root, IntroducedDefinition::Renamed(g)));
            },
            None => {},
        }
        match self.scoped_definition_exec(root, &key, &chosen) {
            Some(_) => Some((root, IntroducedDefinition::Scoped(chosen))),
            None => None,
        }
    }

    /// An alias in `e` to the definition `introduced_definition` found:
    /// `found`, of `name`, held by `home`.
    pub fn define_alias_to_introduced(&mut self, e: usize, alias: &str, home: usize, name: &str, found: IntroducedDefinition)
        requires
            old(self).wf(),
            old(self).has_env(e),
            old(self).has_env(home),
        ensures
            final(self).wf(),
            frame_change_ok(old(self).frames_view(), final(self).frames_view(), e as int),
            match alias_of(final(self).frames_view()[e as int], alias@) {
                Some(a) => {
                    let t = final(self).frames_view()[e as int].aliases@[a].1;
                    &&& t.env == (if home == e { None } else { Some(home) })
                    &&& match found {
                        IntroducedDefinition::Renamed(g) => t.name@ == g@ && t.scopes is None,
                        IntroducedDefinition::Scoped(sc) => t.name@ == name@ && t.scopes == Some(sc),
                    }
                },
                None => false,
            },
    {
        match found {
            IntroducedDefinition::Renamed(renamed) => self.define_alias(e, alias, home, renamed.as_str()),
            IntroducedDefinition::Scoped(scopes) => self.define_scoped_alias(e, alias, home, name, scopes),
        }
    }

    fn reaches_exec(&self, e: usize, name: &String, chosen: &Option<ScopeSet>) -> (r: bool)
        requires
            self.wf(),
        ensures
            r == reaches_walk(self.frames_view(), e as int, name@, match chosen {
                Some(c) => Some(c.ids_view()),
                None => None,
            }),
        decreases e,
    {
        if e >= self.frames.len() {
            return false;
        }
        if position_of(&self.frames[e].slots, name).is_some() {
            return chosen.is_none();
        }
        match position_of(&self.frames[e].aliases, name) {
            Some(a) => {
                let t = &self.frames[e].aliases[a].1;
                return match chosen {
                    None => true,
                    Some(ch) => {
                        let renamed = self.introduced_global(e, name, ch);
                        t.env.is_none() && t.scopes.is_none() && match renamed {
                            Some(g) => g == t.name,
                            None => false,
                        }
                    },
                };
            },
            None => {},
        }
        match self.visible_place_exec(e, name) {
            Some((en, i)) => {
                return match chosen {
                    Some(ch) => self.frames[e].scoped[en].1[i].scopes.same_as(ch),
                    None => false,
                };
            },
            None => {},
        }
        match self.frames[e].parent {
            Some(p) => if p < e {
                self.reaches_exec(p, name, chosen)
            } else {
                false
            },
            None => false,
        }
    }

    /// Whether the name-only view of `name` from `e` is the binding a
    /// reference at `scopes` denotes — by binding, not by value. `Err` for
    /// an ambiguous reference.
    pub fn name_reaches_binding_of(&self, e: usize, name: &str, scopes: &ScopeSet) -> (r: Result<bool, AmbiguousReference>)
        requires
            self.wf(),
            self.has_env(e),
        ensures
            scopes.ids_view().len() == 0 ==> r == Ok::<bool, AmbiguousReference>(true),
            scopes.ids_view().len() > 0 ==> match self.spec_chosen(e, name@, scopes.ids_view()) {
                None => r is Err && r->Err_0.name@ == name@,
                Some(ch) => r is Ok && r->Ok_0 == reaches_walk(self.frames_view(), e as int, name@, ch),
            },
    {
        if scopes.is_empty() {
            return Ok(true);
        }
        let chosen = match self.scoped_binding_of(e, name, scopes) {
            Ok(c) => c,
            Err(a) => {
                return Err(a);
            },
        };
        let key = name.to_owned();
        Ok(self.reaches_exec(e, &key, &chosen))
    }
}

proof fn lemma_item_from_same(a: Seq<(ScopeSet, String)>, b: Seq<(ScopeSet, String)>, sc: Seq<ScopeId>, k: int)
    requires
        a.len() == b.len(),
        forall|m: int| 0 <= m < a.len() ==> (#[trigger] a[m]).0 == b[m].0,
    ensures
        item_from(a, sc, k) == item_from(b, sc, k),
    decreases a.len() - k,
{
    if 0 <= k < a.len() {
        lemma_item_from_same(a, b, sc, k + 1);
    }
}

proof fn lemma_item_push(items: Seq<(ScopeSet, String)>, it: (ScopeSet, String), sc: Seq<ScopeId>, k: int)
    requires
        0 <= k <= items.len(),
        item_from(items, sc, k) is None,
        it.0.ids_view() == sc,
    ensures
        item_from(items.push(it), sc, k) == Some(items.len() as int),
    decreases items.len() - k,
{
    if k < items.len() {
        assert(items.push(it)[k] == items[k]);
        lemma_item_push(items, it, sc, k + 1);
    }
}

/// The entry of `table` for location `key`.
pub open spec fn location_from(table: Seq<((usize, u32), Vec<(String, String)>)>, key: (usize, u32), k: int) -> Option<int>
    decreases table.len() - k,
{
    if k < 0 || k >= table.len() {
        None
    } else if table[k].0 == key {
        Some(k)
    } else {
        location_from(table, key, k + 1)
    }
}

/// The alias remembered in `f` for the location `key` under the spelling
/// `name`.
pub open spec fn remembered_alias(f: Frame, key: (usize, u32), name: Seq<char>) -> Option<Seq<char>> {
    match location_from(f.import_aliases@, key, 0) {
        Some(k) => match find_key(f.import_aliases@[k].1@, name) {
            Some(m) => Some(f.import_aliases@[k].1@[m].1@),
            None => None,
        },
        None => None,
    }
}

/// The location `name` is imported from in `f`, when it is an import.
pub open spec fn import_location(f: Frame, name: Seq<char>) -> Option<(usize, u32)> {
    match find_key(f.slots@, name) {
        Some(s) => link_of(f, s),
        None => None,
    }
}

/// The alias remembered in `f` for the import `name`, when it still
/// forwards to the location `name` is imported from.
pub open spec fn kept_alias(f: Frame, name: Seq<char>) -> Option<Seq<char>> {
    match import_location(f, name) {
        Some(owner) => match remembered_alias(f, owner, name) {
            Some(a) => if import_location(f, a) == Some(owner) {
                Some(a)
            } else {
                None
            },
            None => None,
        },
        None => None,
    }
}

/// Two tables with the same locations find the same entry.
proof fn lemma_location_same_keys(
    s: Seq<((usize, u32), Vec<(String, String)>)>,
    t: Seq<((usize, u32), Vec<(String, String)>)>,
    key: (usize, u32),
    k: int,
)
    requires
        s.len() == t.len(),
        forall|j: int| 0 <= j < s.len() ==> s[j].0 == t[j].0,
    ensures
        location_from(s, key, k) == location_from(t, key, k),
    decreases s.len() - k,
{
    if 0 <= k < s.len() && s[k].0 != key {
        lemma_location_same_keys(s, t, key, k + 1);
    }
}

/// What `location_from` finds holds the location; none before it does.
proof fn lemma_location_from(s: Seq<((usize, u32), Vec<(String, String)>)>, key: (usize, u32), k: int)
    requires
        0 <= k,
    ensures
        match location_from(s, key, k) {
            Some(i) => k <= i < s.len() && s[i].0 == key && forall|j: int| k <= j < i ==> s[j].0 != key,
            None => forall|j: int| k <= j < s.len() ==> s[j].0 != key,
        },
    decreases s.len() - k,
{
    if k < s.len() && s[k].0 != key {
        lemma_location_from(s, key, k + 1);
    }
}

/// Appending an entry: its own location is found there when it was
/// nowhere before; any other location is found where it was.
proof fn lemma_location_push(
    s: Seq<((usize, u32), Vec<(String, String)>)>,
    x: ((usize, u32), Vec<(String, String)>),
    key: (usize, u32),
    k: int,
)
    requires
        0 <= k <= s.len(),
        x.0 == key ==> location_from(s, key, k) is None,
    ensures
        location_from(s.push(x), key, k) == (if x.0 == key {
            Some(s.len() as int)
        } else {
            location_from(s, key, k)
        }),
    decreases s.len() - k,
{
    if k < s.len() {
        assert(s.push(x)[k] == s[k]);
        if s[k].0 != key {
            lemma_location_push(s, x, key, k + 1);
        }
    } else {
        assert(s.push(x)[k] == x);
        assert(location_from(s.push(x), key, k + 1) is None);
    }
}

/// Replacing the entry at `m` by one under the same name: that name finds
/// the new entry, every other name what it found before.
proof fn lemma_find_set<X>(s: Seq<(String, X)>, m: int, x: (String, X), name: Seq<char>)
    requires
        0 <= m < s.len(),
        x.0@ == s[m].0@,
        find_key(s, x.0@) == Some(m),
    ensures
        find_key(s.update(m, x), name) == find_key(s, name),
{
    lemma_find_same_keys(s, s.update(m, x), name, 0);
}

fn location_position(table: &Vec<((usize, u32), Vec<(String, String)>)>, key: (usize, u32)) -> (r: Option<usize>)
    ensures
        match r {
            Some(k) => location_from(table@, key, 0) == Some(k as int) && k < table@.len(),
            None => location_from(table@, key, 0) is None,
        },
{
    let mut k: usize = 0;
    while k < table.len()
        invariant
            k <= table@.len(),
            location_from(table@, key, 0) == location_from(table@, key, k as int),
        decreases table@.len() - k,
    {
        if table[k].0.0 == key.0 && table[k].0.1 == key.1 {
            return Some(k);
        }
        k = k + 1;
    }
    None
}

impl Environments {
    /// The owner of `e`'s plain binding of `name`, when `name` is an import.
    fn import_owner(&self, e: usize, name: &String) -> (r: Option<(usize, u32)>)
        requires
            self.wf(),
            self.has_env(e),
        ensures
            match find_key(self.frames_view()[e as int].slots@, name@) {
                Some(s) => r == link_of(self.frames_view()[e as int], s),
                None => r is None,
            },
            r matches Some(o) ==> o.0 < self.frames_view().len() && o.1 < self.frames_view()[o.0 as int].slots@.len(),
    {
        match position_of(&self.frames[e].slots, name) {
            Some(s) => {
                if s < self.frames[e].links.len() {
                    proof {
                        assert(self.frames@[e as int].links@[s as int] == self.frames[e as int].links@[s as int]);
                    }
                    self.frames[e].links[s]
                } else {
                    None
                }
            },
            None => None,
        }
    }

    /// Record `alias` as the hidden name minted in `e` for the location
    /// `key` under the spelling `name`, replacing an earlier one.
    fn remember_import_alias(&mut self, e: usize, key: (usize, u32), name: String, alias: String)
        requires
            old(self).wf(),
            old(self).has_env(e),
        ensures
            final(self).wf(),
            frame_change_ok(old(self).frames_view(), final(self).frames_view(), e as int),
            final(self).frames_view()[e as int].slots == old(self).frames_view()[e as int].slots,
            final(self).frames_view()[e as int].links == old(self).frames_view()[e as int].links,
            final(self).frames_view()[e as int].aliases == old(self).frames_view()[e as int].aliases,
            final(self).frames_view()[e as int].scoped == old(self).frames_view()[e as int].scoped,
            final(self).frames_view()[e as int].introduced == old(self).frames_view()[e as int].introduced,
            final(self).frames_view()[e as int].owners == old(self).frames_view()[e as int].owners,
            forall|k2: (usize, u32), n2: Seq<char>|
                #[trigger] remembered_alias(final(self).frames_view()[e as int], k2, n2) == if k2 == key && n2
                    == name@ {
                    Some(alias@)
                } else {
                    remembered_alias(old(self).frames_view()[e as int], k2, n2)
                },
    {
        let ghost old_fr = self.frames@;
        let ghost nv = name@;
        let ghost av = alias@;
        let mut f = Frame::empty(0, None);
        self.frames.set_and_swap(e, &mut f);
        let ghost f0 = f;
        let ghost t0 = f.import_aliases@;
        match location_position(&f.import_aliases, key) {
            Some(k) => {
                let mut entry: ((usize, u32), Vec<(String, String)>) = ((0, 0), Vec::new());
                f.import_aliases.set_and_swap(k, &mut entry);
                let ghost l0 = entry.1@;
                proof {
                    lemma_location_from(t0, key, 0);
                }
                match position_of(&entry.1, &name) {
                    Some(m) => {
                        proof {
                            lemma_find_from(l0, nv, 0);
                        }
                        entry.1.set(m, (name, alias));
                        proof {
                            assert(entry.1@ == l0.update(m as int, entry.1@[m as int]));
                            assert forall|n2: Seq<char>| find_key(entry.1@, n2) == find_key(l0, n2) by {
                                lemma_find_set(l0, m as int, entry.1@[m as int], n2);
                            }
                        }
                    },
                    None => {
                        entry.1.push((name, alias));
                        proof {
                            assert forall|n2: Seq<char>| #[trigger] find_key(entry.1@, n2) == if n2 == nv {
                                Some(l0.len() as int)
                            } else {
                                find_key(l0, n2)
                            } by {
                                if n2 == nv {
                                    lemma_find_push(l0, (name, alias), n2, 0);
                                } else if find_key(l0, n2) is Some {
                                    lemma_find_push_kept(l0, (name, alias), n2, 0);
                                } else {
                                    lemma_find_push_none(l0, (name, alias), n2, 0);
                                }
                            }
                        }
                    },
                }
                f.import_aliases.set_and_swap(k, &mut entry);
                proof {
                    let t1 = f.import_aliases@;
                    assert(t1 =~= t0.update(k as int, t1[k as int]));
                    assert(t1[k as int].0 == key);
                    assert forall|k2: (usize, u32)| location_from(t1, k2, 0) == location_from(t0, k2, 0) by {
                        lemma_location_same_keys(t0, t1, k2, 0);
                    }
                    assert forall|k2: (usize, u32), n2: Seq<char>|
                        #[trigger] remembered_alias(f, k2, n2) == if k2 == key && n2 == nv {
                            Some(av)
                        } else {
                            remembered_alias(f0, k2, n2)
                        } by {
                        lemma_location_from(t0, k2, 0);
                        if k2 == key {
                            if n2 != nv {
                                match find_key(l0, n2) {
                                    Some(j) => {
                                        lemma_find_from(l0, n2, 0);
                                    },
                                    None => {},
                                }
                            }
                        }
                    }
                }
            },
            None => {
                let mut list: Vec<(String, String)> = Vec::new();
                list.push((name, alias));
                f.import_aliases.push((key, list));
                proof {
                    let t1 = f.import_aliases@;
                    assert(find_key(list@, nv) == Some(0int));
                    assert forall|k2: (usize, u32), n2: Seq<char>|
                        #[trigger] remembered_alias(f, k2, n2) == if k2 == key && n2 == nv {
                            Some(av)
                        } else {
                            remembered_alias(f0, k2, n2)
                        } by {
                        lemma_location_push(t0, (key, list), k2, 0);
                        lemma_location_from(t0, k2, 0);
                        if k2 == key && n2 != nv {
                            lemma_find_from(list@, n2, 0);
                        }
                    }
                }
            },
        }
        self.frames.set_and_swap(e, &mut f);
        proof {
            let fr = self.frames@;
            assert forall|j: int| 0 <= j < fr.len() && j != e implies fr[j] == old_fr[j] by {}
            assert forall|k: int| 0 <= k < fr[e as int].links@.len() implies match #[trigger] fr[e as int].links@[k] {
                Some((o, os)) => o < fr.len() && os < fr[o as int].slots@.len(),
                None => true,
            } by {
                match old_fr[e as int].links@[k] {
                    Some((o, os)) => {
                        if o != e {
                            assert(fr[o as int] == old_fr[o as int]);
                        }
                    },
                    None => {},
                }
            }
            lemma_wf_frame_changed(old_fr, fr, e as int, self.next_id);
        }
    }

    /// A name of `e`'s own for the location `name` is imported from, which
    /// goes on meaning that location whatever `name` later comes to mean in
    /// `e`; `None` when `name` is not an import of `e`'s. One alias per
    /// spelling and location: a remembered one is handed out again while
    /// it still forwards to the location, and otherwise `mint` is asked for
    /// spellings until one is unbound in `e`.
    pub fn import_alias<F: FnMut() -> String>(&mut self, e: usize, name: &str, mint: F) -> (r: Option<String>)
        requires
            old(self).wf(),
            old(self).has_env(e),
            old(self).frames_view()[e as int].slots@.len() + 1 < u32::MAX,
            forall|m: F| #[trigger] call_requires(m, ()),
        ensures
            final(self).wf(),
            (match find_key(old(self).frames_view()[e as int].slots@, name@) {
                Some(s) => link_of(old(self).frames_view()[e as int], s) is None,
                None => true,
            }) ==> r is None && final(self).frames_view() == old(self).frames_view(),
            r matches Some(alias) ==> match find_key(old(self).frames_view()[e as int].slots@, name@) {
                Some(s) => match link_of(old(self).frames_view()[e as int], s) {
                    Some(owner) => owner.0 != e ==> match find_key(final(self).frames_view()[e as int].slots@, alias@) {
                        Some(s2) => link_of(final(self).frames_view()[e as int], s2) == Some(owner),
                        None => false,
                    },
                    None => false,
                },
                None => false,
            },
            kept_alias(old(self).frames_view()[e as int], name@) matches Some(a) ==> r matches Some(x) && x@
                == a && final(self).frames_view() == old(self).frames_view(),
            r matches Some(x) ==> match import_location(old(self).frames_view()[e as int], name@) {
                Some(owner) => remembered_alias(final(self).frames_view()[e as int], owner, name@) == Some(
                    x@,
                ),
                None => false,
            },
    {
        let key = name.to_owned();
        let owner = match self.import_owner(e, &key) {
            Some(o) => o,
            None => {
                return None;
            },
        };
        let known: Option<String> = match location_position(&self.frames[e].import_aliases, owner) {
            Some(k) => match position_of(&self.frames[e].import_aliases[k].1, &key) {
                Some(m) => Some(self.frames[e].import_aliases[k].1[m].1.clone()),
                None => None,
            },
            None => None,
        };
        match known {
            Some(alias) => {
                let still = match self.import_owner(e, &alias) {
                    Some(o) => o.0 == owner.0 && o.1 == owner.1,
                    None => false,
                };
                if still {
                    return Some(alias);
                }
            },
            None => {},
        }
        let mut mint = mint;
        let mut tries: u64 = u64::MAX;
        let mut found: Option<String> = None;
        while tries > 0
            invariant
                forall|m: F| #[trigger] call_requires(m, ()),
                self.frames@ == old(self).frames@,
                self.budget == old(self).budget,
                self.next_id == old(self).next_id,
                self.has_env(e),
            decreases tries,
        {
            let candidate = mint();
            if position_of(&self.frames[e].slots, &candidate).is_none() {
                found = Some(candidate);
                break;
            }
            tries = tries - 1;
        }
        let alias = match found {
            Some(a) => a,
            None => {
                return None;
            },
        };
        let ghost al = alias;
        let alias_copy = alias.clone();
        self.forward(e, alias, owner);
        let ghost mid = self.frames@;
        self.remember_import_alias(e, owner, key, alias_copy.clone());
        proof {
            let fr = self.frames@;
            assert(fr[e as int].slots == mid[e as int].slots);
            assert(fr[e as int].links == mid[e as int].links);
        }
        Some(alias_copy)
    }
}

/// How an ambiguous reference is reported.
pub open spec fn ambiguity_text(a: AmbiguousReference) -> Seq<char> {
    "ambiguous reference to "@ + a.name@ + " at "@ + scopes_text(a.scopes)
        + ": two bindings match and neither is more specific"@
}

/// How a refused scoped assignment is reported.
pub open spec fn set_error_text(e: ScopedSetError) -> Seq<char> {
    match e {
        ScopedSetError::Undefined(name) => "undefined variable: "@ + name@,
        ScopedSetError::Ambiguous(a) => ambiguity_text(a),
    }
}

impl AmbiguousReference {
    /// The sentence reporting this reference.
    pub fn to_display_string(&self) -> (r: String)
        ensures
            r@ == ambiguity_text(*self),
    {
        let mut out: Vec<char> = Vec::new();
        push_str(&mut out, "ambiguous reference to ");
        push_str(&mut out, self.name.as_str());
        push_str(&mut out, " at ");
        self.scopes.push_text(&mut out);
        push_str(&mut out, ": two bindings match and neither is more specific");
        string_from_chars(&out)
    }
}

impl ScopedSetError {
    /// The sentence reporting this refusal.
    pub fn to_display_string(&self) -> (r: String)
        ensures
            r@ == set_error_text(*self),
    {
        match self {
            ScopedSetError::Undefined(name) => {
                let mut out: Vec<char> = Vec::new();
                push_str(&mut out, "undefined variable: ");
                push_str(&mut out, name.as_str());
                string_from_chars(&out)
            },
            ScopedSetError::Ambiguous(a) => a.to_display_string(),
        }
    }
}

// ---------------------------------------------------------------------------
// A scoped reference reads what it writes
// ---------------------------------------------------------------------------

/// The value of a scoped binding's place.
pub open spec fn scoped_value(fr: Seq<Frame>, p: Place) -> TaggedValue {
    match p {
        Place::Scoped(e, en, i) => fr[e as int].scoped@[en as int].1@[i as int].tagged_value,
        Place::Slot(e, s) => fr[e as int].slots@[s as int].1,
    }
}

/// Read candidates `rc` are write candidates `wc` with their values.
pub open spec fn candidates_agree(fr: Seq<Frame>, rc: Seq<(Seq<ScopeId>, TaggedValue)>, wc: Seq<(Seq<ScopeId>, Place)>) -> bool {
    &&& rc.len() == wc.len()
    &&& forall|k: int| 0 <= k < rc.len() ==> (#[trigger] rc[k]).0 == wc[k].0 && rc[k].1 == scoped_value(fr, wc[k].1)
}

proof fn lemma_down_agree(fr: Seq<Frame>, e: int, en: int, refset: Set<ScopeId>, n: int, k: int)
    requires
        sized(fr),
        0 <= e < fr.len(),
        0 <= en < fr[e].scoped@.len(),
        n == fr[e].scoped@[en].1@.len(),
        0 <= k <= n,
    ensures
        candidates_agree(
            fr,
            candidates_down(fr[e].scoped@[en].1@, refset, n, k),
            places_down(fr[e].scoped@[en].1@, e, en, refset, n, k),
        ),
    decreases n - k,
{
    if k < n {
        lemma_down_agree(fr, e, en, refset, n, k + 1);
    }
}

proof fn lemma_read_write_agree(fr: Seq<Frame>, e: int, name: Seq<char>, refset: Set<ScopeId>, fuel: nat)
    requires
        sized(fr),
        0 <= e < fr.len(),
        find_key(fr[root_of(fr, e)].introduced@, name) is None,
    ensures
        candidates_agree(fr, read_candidates(fr, e, name, refset, fuel), write_candidates(fr, e, name, refset)),
    decreases e,
{
    let f = fr[e];
    lemma_find_from(f.scoped@, name, 0);
    let rhere = frame_candidates(f, name, refset);
    let where_ = match find_key(f.scoped@, name) {
        Some(en) => places_down(f.scoped@[en].1@, e, en, refset, f.scoped@[en].1@.len() as int, 0),
        None => Seq::empty(),
    };
    match find_key(f.scoped@, name) {
        Some(en) => {
            lemma_down_agree(fr, e, en, refset, f.scoped@[en].1@.len() as int, 0);
        },
        None => {},
    }
    let rrest = match f.parent {
        Some(p) => if 0 <= p < e {
            read_candidates(fr, p as int, name, refset, fuel)
        } else {
            Seq::empty()
        },
        None => introduced_candidates(fr, e, name, refset, fuel),
    };
    let wrest = match f.parent {
        Some(p) => if 0 <= p < e {
            write_candidates(fr, p as int, name, refset)
        } else {
            Seq::empty()
        },
        None => Seq::empty(),
    };
    match f.parent {
        Some(p) => if 0 <= p < e {
            lemma_read_write_agree(fr, p as int, name, refset, fuel);
        },
        None => {
            assert(root_of(fr, e) == e);
        },
    }
    assert(read_candidates(fr, e, name, refset, fuel) == rhere + rrest);
    assert(write_candidates(fr, e, name, refset) == where_ + wrest);
    assert forall|k: int| 0 <= k < rhere.len() + rrest.len() implies (#[trigger] (rhere + rrest)[k]).0 == (where_ + wrest)[k].0
        && (rhere + rrest)[k].1 == scoped_value(fr, (where_ + wrest)[k].1) by {
        if k < rhere.len() {
            assert((rhere + rrest)[k] == rhere[k]);
            assert((where_ + wrest)[k] == where_[k]);
        } else {
            assert((rhere + rrest)[k] == rrest[k - rhere.len()]);
            assert((where_ + wrest)[k] == wrest[k - where_.len()]);
        }
    }
}

/// Resolution looks at scope sets only.
proof fn lemma_resolution_keys<X, Y>(a: Seq<(Seq<ScopeId>, X)>, b: Seq<(Seq<ScopeId>, Y)>)
    requires
        a.len() == b.len(),
        forall|k: int| 0 <= k < a.len() ==> (#[trigger] a[k]).0 == b[k].0,
    ensures
        resolution(a) == resolution(b),
{
    assert forall|i: int| 0 <= i < a.len() implies dominates(a, i) == dominates(b, i) by {
        assert(a[i].0 == b[i].0);
        if dominates(a, i) {
            assert forall|j: int| 0 <= j < b.len() implies (#[trigger] b[j]).0.to_set().subset_of(b[i].0.to_set()) by {
                assert(a[j].0 == b[j].0);
                if 0 <= i < a.len() {
                    assert(a[i].0 == b[i].0);
                }
            }
        }
        if dominates(b, i) {
            assert forall|j: int| 0 <= j < a.len() implies (#[trigger] a[j]).0.to_set().subset_of(a[i].0.to_set()) by {
                assert(a[j].0 == b[j].0);
                if 0 <= i < a.len() {
                    assert(a[i].0 == b[i].0);
                }
            }
        }
    }
    lemma_first_dominating_same(a, b, 0);
}

proof fn lemma_first_dominating_same<X, Y>(a: Seq<(Seq<ScopeId>, X)>, b: Seq<(Seq<ScopeId>, Y)>, k: int)
    requires
        a.len() == b.len(),
        forall|i: int| 0 <= i < a.len() ==> dominates(a, i) == dominates(b, i),
    ensures
        first_dominating(a, k) == first_dominating(b, k),
    decreases a.len() - k,
{
    if 0 <= k < a.len() {
        lemma_first_dominating_same(a, b, k + 1);
    }
}

proof fn lemma_first_dominating_range<X>(c: Seq<(Seq<ScopeId>, X)>, k: int)
    requires
        0 <= k,
    ensures
        first_dominating(c, k) matches Some(i) ==> k <= i < c.len(),
    decreases c.len() - k,
{
    if k < c.len() {
        lemma_first_dominating_range(c, k + 1);
    }
}

/// Same-shape arenas weigh the same write candidates.
proof fn lemma_write_candidates_same(a: Seq<Frame>, b: Seq<Frame>, e: int, name: Seq<char>, refset: Set<ScopeId>)
    requires
        same_shape(a, b),
    ensures
        write_candidates(a, e, name, refset) == write_candidates(b, e, name, refset),
    decreases e,
{
    if 0 <= e < a.len() {
        assert(frame_same_shape(a[e], b[e]));
        lemma_frame_views_same(a[e], b[e], name);
        lemma_find_from(a[e].scoped@, name, 0);
        match find_key(a[e].scoped@, name) {
            Some(en) => {
                lemma_places_same(a[e].scoped@[en].1@, b[e].scoped@[en].1@, e, en, refset, a[e].scoped@[en].1@.len() as int, 0);
            },
            None => {},
        }
        match a[e].parent {
            Some(p) => if 0 <= p < e {
                lemma_write_candidates_same(a, b, p as int, name, refset);
            },
            None => {},
        }
    }
}

proof fn lemma_places_same(bs: Seq<ScopedBinding>, cs: Seq<ScopedBinding>, e: int, en: int, refset: Set<ScopeId>, n: int, k: int)
    requires
        bs.len() == cs.len(),
        n == bs.len(),
        forall|i: int| 0 <= i < bs.len() ==> (#[trigger] bs[i]).scopes == cs[i].scopes,
    ensures
        places_down(bs, e, en, refset, n, k) == places_down(cs, e, en, refset, n, k),
    decreases n - k,
{
    if 0 <= k < n {
        lemma_places_same(bs, cs, e, en, refset, n, k + 1);
    }
}

/// Same-shape arenas fall back alike.
proof fn lemma_fallback_same(a: Seq<Frame>, b: Seq<Frame>, e: int, name: Seq<char>, refset: Set<ScopeId>, fuel: nat)
    requires
        same_shape(a, b),
    ensures
        fallback_walk(a, e, name, refset, fuel) == fallback_walk(b, e, name, refset, fuel),
    decreases e,
{
    if 0 <= e < a.len() {
        assert(frame_same_shape(a[e], b[e]));
        lemma_frame_views_same(a[e], b[e], name);
        let f = a[e];
        match find_key(f.slots@, name) {
            Some(_) => {},
            None => match alias_of(f, name) {
                Some(al) => {
                    let t = f.aliases@[al].1;
                    let te: int = match t.env {
                        Some(x) => x as int,
                        None => e,
                    };
                    if fuel > 0 {
                        match t.scopes {
                            None => lemma_walk_same_shape(a, b, te, t.name@, (fuel - 1) as nat),
                            Some(sc) => if 0 <= te < a.len() {
                                lemma_scoped_definition_same(a, b, te, t.name@, sc.ids_view());
                            },
                        }
                    }
                },
                None => {
                    match visible_place(f, name) {
                        Some((en, i)) => {
                            lemma_find_from(f.scoped@, name, 0);
                            lemma_last_visible(f.scoped@[en].1@, f.scoped@[en].1@.len() as int);
                            assert(a[e].scoped@[en].1@[i].scopes == b[e].scoped@[en].1@[i].scopes);
                        },
                        None => {},
                    }
                    match f.parent {
                        Some(p) => if 0 <= p < e {
                            lemma_fallback_same(a, b, p as int, name, refset, fuel);
                        },
                        None => {},
                    }
                },
            },
        }
    }
}

/// Write candidates name valid places.
proof fn lemma_write_candidates_valid(fr: Seq<Frame>, e: int, name: Seq<char>, refset: Set<ScopeId>)
    requires
        sized(fr),
    ensures
        forall|k: int| 0 <= k < write_candidates(fr, e, name, refset).len() ==> place_valid(fr, (#[trigger] write_candidates(fr, e, name, refset)[k]).1)
            && write_candidates(fr, e, name, refset)[k].1 is Scoped,
    decreases e,
{
    if 0 <= e < fr.len() {
        let f = fr[e];
        lemma_find_from(f.scoped@, name, 0);
        match find_key(f.scoped@, name) {
            Some(en) => {
                lemma_places_valid(fr, e, en, refset, f.scoped@[en].1@.len() as int, 0);
            },
            None => {},
        }
        match f.parent {
            Some(p) => if 0 <= p < e {
                lemma_write_candidates_valid(fr, p as int, name, refset);
            },
            None => {},
        }
        let here = match find_key(f.scoped@, name) {
            Some(en) => places_down(f.scoped@[en].1@, e, en, refset, f.scoped@[en].1@.len() as int, 0),
            None => Seq::empty(),
        };
        let rest = match f.parent {
            Some(p) => if 0 <= p < e {
                write_candidates(fr, p as int, name, refset)
            } else {
                Seq::empty()
            },
            None => Seq::empty(),
        };
        assert(write_candidates(fr, e, name, refset) == here + rest);
        assert forall|k: int| 0 <= k < (here + rest).len() implies place_valid(fr, (#[trigger] (here + rest)[k]).1)
            && (here + rest)[k].1 is Scoped by {
            if k < here.len() {
                assert((here + rest)[k] == here[k]);
            } else {
                assert((here + rest)[k] == rest[k - here.len()]);
            }
        }
    }
}

proof fn lemma_places_valid(fr: Seq<Frame>, e: int, en: int, refset: Set<ScopeId>, n: int, k: int)
    requires
        sized(fr),
        0 <= e < fr.len(),
        0 <= en < fr[e].scoped@.len(),
        n == fr[e].scoped@[en].1@.len(),
        0 <= k,
    ensures
        forall|m: int| 0 <= m < places_down(fr[e].scoped@[en].1@, e, en, refset, n, k).len() ==> place_valid(
            fr,
            (#[trigger] places_down(fr[e].scoped@[en].1@, e, en, refset, n, k)[m]).1,
        ) && places_down(fr[e].scoped@[en].1@, e, en, refset, n, k)[m].1 is Scoped,
    decreases n - k,
{
    if k < n {
        lemma_places_valid(fr, e, en, refset, n, k + 1);
    }
}

impl Environments {
    /// The law: a scoped assignment that succeeded is what a scoped read of
    /// the same reference then reads — where the root holds no renamed
    /// introduced global of the name, which a read weighs and a write does
    /// not.
    pub proof fn lemma_scoped_reads_what_it_writes(
        before: &Environments,
        after: &Environments,
        e: usize,
        name: Seq<char>,
        refv: Seq<ScopeId>,
        value: TaggedValue,
    )
        requires
            before.wf(),
            before.has_env(e),
            find_key(before.frames_view()[root_of(before.frames_view(), e as int)].introduced@, name) is None,
            before.spec_set_target(e, name, refv) is Ok,
            place_written(before.frames_view(), after.frames_view(), before.spec_set_target(e, name, refv)->Ok_0, value, before.fuel()),
            same_shape(before.frames_view(), after.frames_view()),
            after.fuel() == before.fuel(),
        ensures
            after.spec_resolve(e, name, refv) matches Ok((x, _)) && x == Some(value),
    {
        let a = before.frames_view();
        let b = after.frames_view();
        let fuel = before.fuel();
        before.lemma_sized();
        after.lemma_sized();
        let p = before.spec_set_target(e, name, refv)->Ok_0;
        if refv.len() == 0 {
            lemma_walk_same_shape(a, b, e as int, name, fuel);
            lemma_walk_valid(a, e as int, name, fuel, before.next_id);
            Self::lemma_read_back(a, b, p, value, fuel, before.next_id);
        } else {
            let refset = refv.to_set();
            let wa = write_candidates(a, e as int, name, refset);
            lemma_write_candidates_same(a, b, e as int, name, refset);
            lemma_wf_same_shape(a, b, before.next_id);
            assert(frame_same_shape(a[e as int], b[e as int]));
            lemma_root_same(a, b, e as int);
            assert(b[root_of(b, e as int)].introduced == a[root_of(a, e as int)].introduced) by {
                lemma_root_in_range(a, e as int);
                assert(frame_same_shape(a[root_of(a, e as int)], b[root_of(a, e as int)]));
            }
            lemma_read_write_agree(b, e as int, name, refset, fuel);
            let rb = read_candidates(b, e as int, name, refset, fuel);
            lemma_resolution_keys(rb, wa);
            lemma_write_candidates_valid(a, e as int, name, refset);
            match resolution(wa) {
                Some(Some(i)) => {
                    lemma_first_dominating_range(wa, 0);
                    assert(rb[i].1 == scoped_value(b, wa[i].1));
                    assert(p == wa[i].1);
                },
                Some(None) => {
                    lemma_fallback_same(a, b, e as int, name, refset, fuel);
                    lemma_fallback_valid(a, e as int, name, refset, fuel, before.next_id);
                    Self::lemma_read_back(a, b, p, value, fuel, before.next_id);
                },
                None => {},
            }
        }
    }
}

proof fn lemma_root_same(a: Seq<Frame>, b: Seq<Frame>, e: int)
    requires
        same_shape(a, b),
    ensures
        root_of(a, e) == root_of(b, e),
    decreases e,
{
    if 0 <= e < a.len() {
        assert(frame_same_shape(a[e], b[e]));
        match a[e].parent {
            Some(p) => if 0 <= p < e {
                lemma_root_same(a, b, p as int);
            },
            None => {},
        }
    }
}

proof fn lemma_root_in_range(fr: Seq<Frame>, e: int)
    requires
        0 <= e < fr.len(),
    ensures
        0 <= root_of(fr, e) < fr.len(),
    decreases e,
{
    match fr[e].parent {
        Some(p) => if 0 <= p < e {
            lemma_root_in_range(fr, p as int);
        },
        None => {},
    }
}

proof fn lemma_scoped_definition_valid(fr: Seq<Frame>, e: int, name: Seq<char>, sc: Seq<ScopeId>)
    requires
        sized(fr),
        0 <= e < fr.len(),
    ensures
        scoped_definition_place(fr, e, name, sc) matches Some(p) ==> place_valid(fr, p),
{
    lemma_find_from(fr[e].scoped@, name, 0);
    match find_key(fr[e].scoped@, name) {
        Some(en) => lemma_scopes_from(fr[e].scoped@[en].1@, sc, 0),
        None => {},
    }
}

proof fn lemma_visible_valid(fr: Seq<Frame>, e: int, name: Seq<char>)
    requires
        sized(fr),
        0 <= e < fr.len(),
    ensures
        visible_place(fr[e], name) matches Some((en, i)) ==> place_valid(fr, Place::Scoped(e as usize, en as usize, i as usize))
            && 0 <= en && 0 <= i,
{
    lemma_find_from(fr[e].scoped@, name, 0);
    match find_key(fr[e].scoped@, name) {
        Some(en) => lemma_last_visible(fr[e].scoped@[en].1@, fr[e].scoped@[en].1@.len() as int),
        None => {},
    }
}

/// A walk ends at a valid place.
proof fn lemma_walk_valid(fr: Seq<Frame>, e: int, name: Seq<char>, fuel: nat, next_id: u64)
    requires
        sized(fr),
        frames_wf(fr, next_id),
    ensures
        walk(fr, e, name, fuel) matches Ok(p) ==> place_valid(fr, p),
    decreases fuel, e,
{
    if 0 <= e < fr.len() {
        let f = fr[e];
        lemma_find_from(f.slots@, name, 0);
        lemma_find_from(f.aliases@, name, 0);
        lemma_visible_valid(fr, e, name);
        match find_key(f.slots@, name) {
            Some(_) => {},
            None => match alias_of(f, name) {
                Some(a) => {
                    let t = f.aliases@[a].1;
                    let te: int = match t.env {
                        Some(x) => x as int,
                        None => e,
                    };
                    if fuel > 0 {
                        match t.scopes {
                            None => lemma_walk_valid(fr, te, t.name@, (fuel - 1) as nat, next_id),
                            Some(sc) => if 0 <= te < fr.len() {
                                lemma_scoped_definition_valid(fr, te, t.name@, sc.ids_view());
                            },
                        }
                    }
                },
                None => match visible_place(f, name) {
                    Some(_) => {},
                    None => match f.parent {
                        Some(p) => if 0 <= p < e {
                            lemma_walk_valid(fr, p as int, name, fuel, next_id);
                        },
                        None => {},
                    },
                },
            },
        }
    }
}

/// A fallback walk ends at a valid place.
proof fn lemma_fallback_valid(fr: Seq<Frame>, e: int, name: Seq<char>, refset: Set<ScopeId>, fuel: nat, next_id: u64)
    requires
        sized(fr),
        frames_wf(fr, next_id),
    ensures
        fallback_walk(fr, e, name, refset, fuel) matches Ok(p) ==> place_valid(fr, p),
    decreases e,
{
    if 0 <= e < fr.len() {
        let f = fr[e];
        lemma_find_from(f.slots@, name, 0);
        lemma_find_from(f.aliases@, name, 0);
        lemma_visible_valid(fr, e, name);
        match find_key(f.slots@, name) {
            Some(_) => {},
            None => match alias_of(f, name) {
                Some(a) => {
                    let t = f.aliases@[a].1;
                    let te: int = match t.env {
                        Some(x) => x as int,
                        None => e,
                    };
                    if fuel > 0 {
                        match t.scopes {
                            None => lemma_walk_valid(fr, te, t.name@, (fuel - 1) as nat, next_id),
                            Some(sc) => if 0 <= te < fr.len() {
                                lemma_scoped_definition_valid(fr, te, t.name@, sc.ids_view());
                            },
                        }
                    }
                },
                None => match f.parent {
                    Some(p) => if 0 <= p < e {
                        lemma_fallback_valid(fr, p as int, name, refset, fuel, next_id);
                    },
                    None => {},
                },
            },
        }
    }
}

/// Every index of the arena fits a `usize`.
pub open spec fn sized(fr: Seq<Frame>) -> bool {
    &&& fr.len() <= usize::MAX
    &&& forall|e: int|
        0 <= e < fr.len() ==> (#[trigger] fr[e]).scoped@.len() <= usize::MAX && fr[e].slots@.len() <= usize::MAX
    &&& forall|e: int, en: int|
        0 <= e < fr.len() && 0 <= en < fr[e].scoped@.len() ==> (#[trigger] fr[e].scoped@[en]).1@.len()
            <= usize::MAX
}

impl Environments {
    /// The arena's indices fit a `usize`.
    pub proof fn lemma_sized(&self)
        ensures
            sized(self.frames_view()),
    {
        let fr = self.frames@;
        assert(fr.len() == self.frames.len());
        assert forall|e: int| 0 <= e < fr.len() implies (#[trigger] fr[e]).scoped@.len() <= usize::MAX
            && fr[e].slots@.len() <= usize::MAX by {
            assert(fr[e].scoped@.len() == fr[e].scoped.len());
            assert(fr[e].slots@.len() == fr[e].slots.len());
        }
        assert forall|e: int, en: int|
            0 <= e < fr.len() && 0 <= en < fr[e].scoped@.len() implies (#[trigger] fr[e].scoped@[en]).1@.len()
            <= usize::MAX by {
            assert(fr[e].scoped@[en].1@.len() == fr[e].scoped@[en].1.len());
        }
    }
}

// ---------------------------------------------------------------------------
// Every name, in order
// ---------------------------------------------------------------------------

/// Lexicographic order on texts from position `k`, by code point: what
/// `Ord for String` gives, UTF-8 preserving the order of code points.
pub open spec fn less_from(a: Seq<char>, b: Seq<char>, k: int) -> bool
    decreases a.len() - k,
{
    if k < 0 {
        false
    } else if k >= a.len() {
        k < b.len()
    } else if k >= b.len() {
        false
    } else if a[k] != b[k] {
        (a[k] as u32) < (b[k] as u32)
    } else {
        less_from(a, b, k + 1)
    }
}

/// `a` sorts before `b`.
pub open spec fn text_less(a: Seq<char>, b: Seq<char>) -> bool {
    less_from(a, b, 0)
}

proof fn lemma_less_irreflexive(a: Seq<char>, k: int)
    requires
        0 <= k,
    ensures
        !less_from(a, a, k),
    decreases a.len() - k,
{
    if k < a.len() {
        lemma_less_irreflexive(a, k + 1);
    }
}

proof fn lemma_less_transitive(a: Seq<char>, b: Seq<char>, c: Seq<char>, k: int)
    requires
        0 <= k,
        less_from(a, b, k),
        less_from(b, c, k),
    ensures
        less_from(a, c, k),
    decreases a.len() - k,
{
    if k < a.len() && k < b.len() && k < c.len() && a[k] == b[k] && b[k] == c[k] {
        lemma_less_transitive(a, b, c, k + 1);
    }
}

proof fn lemma_less_total(a: Seq<char>, b: Seq<char>, k: int)
    requires
        0 <= k <= a.len(),
        k <= b.len(),
        a.subrange(k, a.len() as int) != b.subrange(k, b.len() as int),
    ensures
        less_from(a, b, k) || less_from(b, a, k),
    decreases a.len() - k,
{
    if k < a.len() && k < b.len() {
        if a[k] == b[k] {
            assert(a.subrange(k, a.len() as int) =~= seq![a[k]] + a.subrange(k + 1, a.len() as int));
            assert(b.subrange(k, b.len() as int) =~= seq![b[k]] + b.subrange(k + 1, b.len() as int));
            lemma_less_total(a, b, k + 1);
        } else {
            vstd::utf8::char_u32_cast(a[k], a[k] as u32);
            vstd::utf8::char_u32_cast(b[k], b[k] as u32);
        }
    } else if k == a.len() && k == b.len() {
        assert(a.subrange(k, a.len() as int) =~= b.subrange(k, b.len() as int));
    }
}

/// Whether `a` sorts before `b`.
fn text_less_exec(a: &Vec<char>, b: &Vec<char>) -> (r: bool)
    ensures
        r == text_less(a@, b@),
{
    let mut k: usize = 0;
    while k < a.len() && k < b.len()
        invariant
            k <= a@.len(),
            k <= b@.len(),
            text_less(a@, b@) == less_from(a@, b@, k as int),
        decreases a@.len() - k,
    {
        if a[k] != b[k] {
            return (a[k] as u32) < (b[k] as u32);
        }
        k = k + 1;
    }
    k < b.len() && k >= a.len()
}

/// `s` is strictly increasing.
pub open spec fn strictly_sorted_texts(s: Seq<Seq<char>>) -> bool {
    forall|i: int, j: int| 0 <= i < j < s.len() ==> text_less(#[trigger] s[i], #[trigger] s[j])
}

/// Insert `x` into the strictly increasing `out`, unless it is there.
fn insert_sorted_text(out: &mut Vec<String>, x: String)
    requires
        strictly_sorted_texts(old(out)@.map_values(|t: String| t@)),
    ensures
        strictly_sorted_texts(final(out)@.map_values(|t: String| t@)),
        final(out)@.map_values(|t: String| t@).to_set() == old(out)@.map_values(|t: String| t@).to_set().insert(x@),
{
    let ghost v0 = out@.map_values(|t: String| t@);
    let xc = chars_of(x.as_str());
    let mut i: usize = 0;
    let mut searching = true;
    while searching && i < out.len()
        invariant
            i <= out@.len(),
            v0 == out@.map_values(|t: String| t@),
            xc@ == x@,
            forall|m: int| 0 <= m < i ==> text_less(#[trigger] v0[m], x@),
            !searching ==> i < v0.len() && !text_less(v0[i as int], x@),
        decreases out@.len() - i, if searching { 1int } else { 0int },
    {
        let oc = chars_of(out[i].as_str());
        if text_less_exec(&oc, &xc) {
            i = i + 1;
        } else {
            searching = false;
        }
    }
    if i < out.len() && out[i] == x {
        proof {
            assert(v0[i as int] == x@);
            assert(v0.to_set().insert(x@) =~= v0.to_set());
        }
        return;
    }
    proof {
        if i < v0.len() {
            assert(!text_less(v0[i as int], x@));
            assert(v0[i as int] != x@);
            assert(v0[i as int].subrange(0, v0[i as int].len() as int) =~= v0[i as int]);
            assert(x@.subrange(0, x@.len() as int) =~= x@);
            lemma_less_total(x@, v0[i as int], 0);
        }
    }
    let ghost xv = x@;
    out.insert(i, x);
    proof {
        let v1 = out@.map_values(|t: String| t@);
        assert(v1 =~= v0.insert(i as int, xv));
        assert forall|a: int, b: int| 0 <= a < b < v1.len() implies text_less(#[trigger] v1[a], #[trigger] v1[b]) by {
            if b < i {
                assert(v1[a] == v0[a] && v1[b] == v0[b]);
            } else if b == i {
                assert(v1[a] == v0[a]);
            } else if a == i {
                assert(v1[b] == v0[b - 1]);
                if b - 1 > i {
                    lemma_less_transitive(xv, v0[i as int], v0[b - 1], 0);
                }
            } else if a < i {
                assert(v1[a] == v0[a] && v1[b] == v0[b - 1]);
            } else {
                assert(v1[a] == v0[a - 1] && v1[b] == v0[b - 1]);
            }
        }
        assert(v1.to_set() =~= v0.to_set().insert(xv)) by {
            assert forall|t: Seq<char>| v1.to_set().contains(t) implies v0.to_set().insert(xv).contains(t) by {
                let k = choose|k: int| 0 <= k < v1.len() && v1[k] == t;
                if k < i {
                    assert(v0[k] == t);
                } else if k > i {
                    assert(v0[k - 1] == t);
                }
            }
            assert forall|t: Seq<char>| v0.to_set().insert(xv).contains(t) implies v1.to_set().contains(t) by {
                if t == xv {
                    assert(v1[i as int] == t);
                } else {
                    let k = choose|k: int| 0 <= k < v0.len() && v0[k] == t;
                    if k < i {
                        assert(v1[k] == t);
                    } else {
                        assert(v1[k + 1] == t);
                    }
                }
            }
        }
    }
}

/// The names a program bound in frame `f`: its visible plain bindings and
/// its scoped bindings' names.
pub open spec fn frame_names(f: Frame) -> Set<Seq<char>> {
    visible_slots_below(f, f.slots@.len() as int).map_values(|p: (u32, Seq<char>)| p.1).to_set()
        + f.scoped@.map_values(|p: (String, Vec<ScopedBinding>)| p.0@).to_set()
}

/// Every name bound in frame `e` and its ancestors.
pub open spec fn chain_names(fr: Seq<Frame>, e: int) -> Set<Seq<char>>
    decreases e,
{
    if !(0 <= e < fr.len()) {
        Set::empty()
    } else {
        frame_names(fr[e]) + match fr[e].parent {
            Some(p) => if 0 <= p < e {
                chain_names(fr, p as int)
            } else {
                Set::empty()
            },
            None => Set::empty(),
        }
    }
}

impl Environments {
    fn insert_chain_names(&self, e: usize, out: &mut Vec<String>)
        requires
            self.wf(),
            self.has_env(e),
            strictly_sorted_texts(old(out)@.map_values(|t: String| t@)),
        ensures
            strictly_sorted_texts(final(out)@.map_values(|t: String| t@)),
            final(out)@.map_values(|t: String| t@).to_set() == old(out)@.map_values(|t: String| t@).to_set()
                + chain_names(self.frames_view(), e as int),
        decreases e,
    {
        let ghost s0 = out@.map_values(|t: String| t@).to_set();
        let names = self.local_names(e);
        let mut k: usize = 0;
        while k < names.len()
            invariant
                k <= names@.len(),
                strictly_sorted_texts(out@.map_values(|t: String| t@)),
                out@.map_values(|t: String| t@).to_set() == s0 + names@.take(k as int).map_values(|t: String| t@).to_set(),
            decreases names@.len() - k,
        {
            insert_sorted_text(out, names[k].clone());
            proof {
                assert(names@.take(k + 1).map_values(|t: String| t@) =~= names@.take(k as int).map_values(|t: String| t@).push(names@[k as int]@));
                names@.take(k as int).map_values(|t: String| t@).lemma_push_to_set_commute(names@[k as int]@);
                assert(out@.map_values(|t: String| t@).to_set() =~= s0 + names@.take(k + 1).map_values(|t: String| t@).to_set());
            }
            k = k + 1;
        }
        let ghost s1 = out@.map_values(|t: String| t@).to_set();
        let mut m: usize = 0;
        while m < self.frames[e].scoped.len()
            invariant
                self.has_env(e),
                m <= self.frames@[e as int].scoped@.len(),
                strictly_sorted_texts(out@.map_values(|t: String| t@)),
                out@.map_values(|t: String| t@).to_set() == s1 + self.frames@[e as int].scoped@.take(m as int).map_values(
                    |p: (String, Vec<ScopedBinding>)| p.0@,
                ).to_set(),
            decreases self.frames@[e as int].scoped@.len() - m,
        {
            insert_sorted_text(out, self.frames[e].scoped[m].0.clone());
            proof {
                let sc = self.frames@[e as int].scoped@;
                assert(sc.take(m + 1).map_values(|p: (String, Vec<ScopedBinding>)| p.0@) =~= sc.take(m as int).map_values(
                    |p: (String, Vec<ScopedBinding>)| p.0@,
                ).push(sc[m as int].0@));
                sc.take(m as int).map_values(|p: (String, Vec<ScopedBinding>)| p.0@).lemma_push_to_set_commute(sc[m as int].0@);
                assert(out@.map_values(|t: String| t@).to_set() =~= s1 + sc.take(m + 1).map_values(
                    |p: (String, Vec<ScopedBinding>)| p.0@,
                ).to_set());
            }
            m = m + 1;
        }
        proof {
            let f = self.frames@[e as int];
            assert(names@.take(names@.len() as int) =~= names@);
            assert(f.scoped@.take(f.scoped@.len() as int) =~= f.scoped@);
            let vs = visible_slots_below(f, f.slots@.len() as int);
            assert(names@.map_values(|t: String| t@) =~= vs.map_values(|p: (u32, Seq<char>)| p.1));
        }
        match self.frames[e].parent {
            Some(p) => {
                proof {
                    assert(p < e);
                }
                self.insert_chain_names(p, out);
            },
            None => {},
        }
        proof {
            assert(out@.map_values(|t: String| t@).to_set() =~= s0 + chain_names(self.frames@, e as int));
        }
    }

    /// Every name bound in `e` and its ancestors — plain bindings a program
    /// made and scoped bindings' names — sorted, each once.
    pub fn get_all_names(&self, e: usize) -> (r: Vec<String>)
        requires
            self.wf(),
            self.has_env(e),
        ensures
            strictly_sorted_texts(r@.map_values(|t: String| t@)),
            r@.map_values(|t: String| t@).to_set() == chain_names(self.frames_view(), e as int),
    {
        let mut out: Vec<String> = Vec::new();
        proof {
            assert(out@.map_values(|t: String| t@).to_set() =~= Set::<Seq<char>>::empty());
        }
        self.insert_chain_names(e, &mut out);
        proof {
            assert(Set::<Seq<char>>::empty() + chain_names(self.frames@, e as int) =~= chain_names(self.frames@, e as int));
        }
        out
    }
}
} // verus!

