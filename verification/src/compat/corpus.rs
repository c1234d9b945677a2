//! The corpus layout: where a search root keeps a library's source, and
//! which vendored package provides each library name.
use vstd::prelude::*;
use std::collections::BTreeMap;
use std::path::PathBuf;
use crate::text::{chars_of, string_from_chars};
use crate::heap::Heap;
use crate::tagged_value::TaggedValue;
use crate::compat::run::{names_of, to_strings};
use crate::scan::{insert_sorted, strictly_sorted, views};
use crate::compat::sexp::{
    clause_arg,
    clause_argument,
    cond_expand_bodies,
    form_rest,
    library_name,
    library_name_text,
    opt_text,
    pooled_bodies,
    row_arg,
    row_field,
    string_text,
    string_value,
    tagged_form,
};

verus! {

#[verifier::external_type_specification]
#[verifier::external_body]
pub struct ExPathBuf(PathBuf);

/// One vendored package.
#[derive(Debug)]
pub struct Package {
    pub slug: String,
    pub root: PathBuf,
    /// Library names this package defines, e.g. `"chibi match"`.
    pub provides: Vec<String>,
    /// Library names its libraries and programs import, every conditional
    /// branch pooled.
    pub depends: Vec<String>,
    /// Library names only the package's test program imports; they widen
    /// the search for this package's own run and are never followed
    /// transitively.
    pub test_depends: Vec<String>,
    /// The package's own test program, when it ships one.
    pub test_script: Option<PathBuf>,
    /// Libraries whose `.sld` does not sit where its name says it should.
    pub off_path_libraries: Vec<OffPathLibrary>,
}

/// A library whose declared path is not the one its name implies.
#[derive(Debug)]
pub struct OffPathLibrary {
    /// Library name, e.g. `"chibi irregex"`.
    pub name: String,
    /// The `.sld` where the package actually keeps it.
    pub source: PathBuf,
}

/// The text of the path under which a search root holds library `name`:
/// its space-separated parts joined by `/`, then `.sld`, so that
/// `(a b c)` lives at `a/b/c.sld`.
pub open spec fn sld_path_text(name: Seq<char>) -> Seq<char> {
    name.map_values(|c: char| if c == ' ' { '/' } else { c }) + ".sld"@
}

/// The path that std's `PathBuf::from` makes of a text.
pub uninterp spec fn path_from(text: Seq<char>) -> PathBuf;

/// Calls std's `PathBuf::from` on an owned string. The contract only names
/// the result: a path made of the string alone, the same for the same text.
#[verifier::external_body]
fn path_buf_from(text: String) -> (p: PathBuf)
    ensures
        p == path_from(text@),
{
    PathBuf::from(text)
}

/// The characters of `sld_path_text(name)`.
pub fn sld_path_chars(name: &str) -> (v: Vec<char>)
    ensures
        v@ == sld_path_text(name@),
{
    let cs = chars_of(name);
    let mut v: Vec<char> = Vec::new();
    let mut i: usize = 0;
    while i < cs.len()
        invariant
            i <= cs.len(),
            cs@ == name@,
            v@ == name@.subrange(0, i as int).map_values(
                |c: char| if c == ' ' { '/' } else { c },
            ),
        decreases cs.len() - i,
    {
        let c = cs[i];
        if c == ' ' {
            v.push('/');
        } else {
            v.push(c);
        }
        proof {
            assert(name@.subrange(0, i + 1) =~= name@.subrange(0, i as int).push(c));
        }
        i = i + 1;
    }
    proof {
        assert(name@.subrange(0, name@.len() as int) =~= name@);
    }
    let ghost before = v@;
    v.push('.');
    v.push('s');
    v.push('l');
    v.push('d');
    proof {
        reveal_strlit(".sld");
        assert(v@ =~= before + ".sld"@);
    }
    v
}

/// Where a search root must hold library `name`: `a/b/c.sld` for
/// `"a b c"`. The library resolver reads the same layout.
pub fn name_relative_path(name: &str) -> (p: PathBuf)
    ensures
        p == path_from(sld_path_text(name@)),
{
    let v = sld_path_chars(name);
    let text = string_from_chars(&v);
    path_buf_from(text)
}

/// Whether a package declares library `name` at a path other than where
/// a search root must hold it, `name_relative_path(name)`: such a library
/// is staged into a search root before a run.
pub fn declared_off_path(name: &str, declared: &str) -> (r: bool)
    ensures
        r == !same_path(path_from(declared@), path_from(sld_path_text(name@))),
{
    let expected = name_relative_path(name);
    let text = string_from_chars(&chars_of(declared));
    let given = path_buf_from(text);
    !paths_equal(&given, &expected)
}

/// Whether `lib` is one of the names that some package of `ps` provides.
pub open spec fn provided(ps: Seq<Package>, lib: String) -> bool {
    exists|i: int| 0 <= i < ps.len() && (#[trigger] ps[i]).provides@.contains(lib)
}

/// Whether package `i` is the first of `ps`, in order, to provide `lib`.
pub open spec fn first_provider(ps: Seq<Package>, lib: String, i: int) -> bool {
    &&& 0 <= i < ps.len()
    &&& ps[i].provides@.contains(lib)
    &&& forall|k: int| 0 <= k < i ==> !(#[trigger] ps[k]).provides@.contains(lib)
}

/// Whether std's ordering of strings obeys the laws that vstd's
/// specification of `BTreeMap` is stated under.
pub open spec fn string_keys_ordered() -> bool {
    vstd::laws_cmp::obeys_cmp::<String>()
}

/// The map from library name to the index of the package that provides it.
pub open spec fn provider_map_law(ps: Seq<Package>, m: Map<String, usize>) -> bool {
    &&& forall|lib: String| #[trigger] m.contains_key(lib) <==> provided(ps, lib)
    &&& forall|lib: String| #[trigger] m.contains_key(lib) ==> first_provider(ps, lib, m[lib] as int)
}

/// What the map holds after packages `0..i` were taken in, with the first
/// `j` names of package `i` too.
pub open spec fn provider_prefix(ps: Seq<Package>, i: int, j: int, m: Map<String, usize>) -> bool {
    &&& forall|lib: String| #[trigger] m.contains_key(lib) <==> (
        provided(ps.subrange(0, i), lib)
        || ps[i].provides@.subrange(0, j).contains(lib))
    &&& forall|lib: String| #[trigger] m.contains_key(lib) ==> first_provider(ps, lib, m[lib] as int)
}

/// Every provided library name, mapped to the index of the first package
/// (in the order given, which is slug order) that provides it. Stated under
/// `string_keys_ordered()`, which vstd's `BTreeMap` contracts assume.
pub fn providers(packages: &[Package]) -> (m: BTreeMap<String, usize>)
    ensures
        string_keys_ordered() ==> provider_map_law(packages@, m@),
{
    broadcast use vstd::std_specs::btree::group_btree_axioms;
    let mut map: BTreeMap<String, usize> = BTreeMap::new();
    let mut i: usize = 0;
    while i < packages.len()
        invariant
            i <= packages.len(),
            string_keys_ordered() ==> provider_prefix(packages@, i as int, 0, map@),
        decreases packages.len() - i,
    {
        let p = &packages[i];
        let mut j: usize = 0;
        proof {
            if string_keys_ordered() {
                assert forall|lib: String| #[trigger] map@.contains_key(lib) <==> (
                    provided(packages@.subrange(0, i as int), lib)
                    || p.provides@.subrange(0, 0).contains(lib)) by {
                    if i < packages.len() && provided(packages@.subrange(0, i as int), lib) {
                    }
                }
            }
        }
        while j < p.provides.len()
            invariant
                i < packages.len(),
                p == packages@[i as int],
                j <= p.provides.len(),
                string_keys_ordered() ==> provider_prefix(packages@, i as int, j as int, map@),
            decreases p.provides.len() - j,
        {
            let lib = &p.provides[j];
            let ghost old_map = map@;
            if !map.contains_key(lib) {
                map.insert(lib.clone(), i);
            }
            proof {
                if string_keys_ordered() {
                    assert(forall|x: String| #[trigger] map@.contains_key(x) <==>
                        (old_map.contains_key(x) || x == *lib));
                    let pre = p.provides@.subrange(0, j as int);
                    let post = p.provides@.subrange(0, j + 1);
                    assert(post =~= pre.push(*lib));
                    assert forall|x: String| #[trigger] map@.contains_key(x) <==> (
                        provided(packages@.subrange(0, i as int), x) || post.contains(x)) by {
                        assert(post[pre.len() as int] == *lib);
                        if post.contains(x) {
                            let w = choose|w: int| 0 <= w < post.len() && post[w] == x;
                            if w < pre.len() {
                                assert(pre[w] == x);
                            }
                        }
                        if pre.contains(x) {
                            let w = choose|w: int| 0 <= w < pre.len() && pre[w] == x;
                            assert(post[w] == x);
                        }
                    }
                    assert forall|x: String| #[trigger] map@.contains_key(x) implies
                        first_provider(packages@, x, map@[x] as int) by {
                        if !old_map.contains_key(x) {
                            assert(x == *lib);
                            assert(p.provides@[j as int] == x);
                            assert forall|k: int| 0 <= k < i implies
                                !(#[trigger] packages@[k]).provides@.contains(x) by {
                                if packages@[k].provides@.contains(x) {
                                    assert(packages@.subrange(0, i as int)[k] == packages@[k]);
                                }
                            }
                        }
                    }
                }
            }
            j = j + 1;
        }
        proof {
            if string_keys_ordered() {
                assert(p.provides@.subrange(0, p.provides@.len() as int) =~= p.provides@);
                assert forall|x: String| #[trigger] map@.contains_key(x) <==>
                    provided(packages@.subrange(0, i + 1), x) by {
                    let s1 = packages@.subrange(0, i + 1);
                    let s0 = packages@.subrange(0, i as int);
                    if provided(s0, x) {
                        let k = choose|k: int| 0 <= k < s0.len() && (#[trigger] s0[k]).provides@.contains(x);
                        assert(s1[k] == s0[k]);
                    }
                    if p.provides@.contains(x) {
                        assert(s1[i as int] == p);
                    }
                    if provided(s1, x) {
                        let k = choose|k: int| 0 <= k < s1.len() && (#[trigger] s1[k]).provides@.contains(x);
                        if k < i {
                            assert(s0[k] == s1[k]);
                        }
                    }
                }
            }
        }
        i = i + 1;
    }
    proof {
        if string_keys_ordered() {
            assert(packages@.subrange(0, packages@.len() as int) =~= packages@);
        }
    }
    map
}

// ---------------------------------------------------------------------------
// Reading a package's metadata from its parsed forms
// ---------------------------------------------------------------------------

/// The spec an import-set modifier wraps: the first argument of the first
/// of `only`, `except`, `prefix`, `rename` that `spec` is.
pub open spec fn wrapped_spec(h: &Heap, spec: TaggedValue) -> Option<TaggedValue> {
    match clause_arg(h, spec, "only"@) {
        Some(a) => Some(a),
        None => match clause_arg(h, spec, "except"@) {
            Some(a) => Some(a),
            None => match clause_arg(h, spec, "prefix"@) {
                Some(a) => Some(a),
                None => clause_arg(h, spec, "rename"@),
            },
        },
    }
}

/// The library an import spec names, unwrapping at most `depth` modifiers.
pub open spec fn spec_library(h: &Heap, spec: TaggedValue, depth: nat) -> Option<Seq<char>>
    decreases depth,
{
    match wrapped_spec(h, spec) {
        Some(inner) => if depth == 0 {
            None
        } else {
            spec_library(h, inner, (depth - 1) as nat)
        },
        None => library_name_text(h, spec),
    }
}

/// How deep a parsed form can nest: no acyclic form nests deeper than the
/// heap has pairs.
pub open spec fn nesting_bound(h: &Heap) -> nat {
    h.pair_slots().len()
}

fn import_spec_library_within(spec: TaggedValue, heap: &Heap, depth: usize) -> (r: Option<String>)
    requires
        heap.wf(),
        heap.valid_value(spec),
    ensures
        opt_text(r) == spec_library(heap, spec, depth as nat),
    decreases depth,
{
    let inner = match clause_argument(spec, "only", heap) {
        Some(a) => Some(a),
        None => match clause_argument(spec, "except", heap) {
            Some(a) => Some(a),
            None => match clause_argument(spec, "prefix", heap) {
                Some(a) => Some(a),
                None => clause_argument(spec, "rename", heap),
            },
        },
    };
    match inner {
        Some(i) => if depth == 0 {
            None
        } else {
            import_spec_library_within(i, heap, depth - 1)
        },
        None => library_name(spec, heap),
    }
}

/// The library a possibly wrapped import spec names: the four R7RS
/// modifiers unwrap to the spec in their first position, nesting included,
/// and anything else is read as a library name.
pub fn import_spec_library(spec: TaggedValue, heap: &Heap) -> (r: Option<String>)
    requires
        heap.wf(),
        heap.valid_value(spec),
    ensures
        opt_text(r) == spec_library(heap, spec, nesting_bound(heap)),
{
    import_spec_library_within(spec, heap, heap.stats().pairs)
}

/// The names of the libraries among `specs`; specs naming none are
/// skipped.
pub open spec fn spec_libraries(h: &Heap, specs: Seq<TaggedValue>, depth: nat) -> Seq<Seq<char>>
    decreases specs.len(),
{
    if specs.len() == 0 {
        Seq::empty()
    } else {
        spec_libraries(h, specs.drop_last(), depth) + match spec_library(h, specs.last(), depth) {
            Some(n) => seq![n],
            None => Seq::empty(),
        }
    }
}

/// The libraries every `(import ...)` in `form` names, descending into
/// `cond-expand` bodies (conditions ignored) and `begin`, at most `depth`
/// forms deep.
pub open spec fn imports_of(h: &Heap, form: TaggedValue, depth: nat) -> Seq<Seq<char>>
    decreases depth, 0int,
{
    match form_rest(h, form, "import"@) {
        Some(specs) => spec_libraries(h, specs, depth),
        None => if depth == 0 {
            Seq::empty()
        } else {
            match form_rest(h, form, "cond-expand"@) {
                Some(clauses) => imports_of_all(h, pooled_bodies(h, clauses), (depth - 1) as nat),
                None => match form_rest(h, form, "begin"@) {
                    Some(body) => imports_of_all(h, body, (depth - 1) as nat),
                    None => Seq::empty(),
                },
            }
        },
    }
}

/// The imports of each of `forms`, in order.
pub open spec fn imports_of_all(h: &Heap, forms: Seq<TaggedValue>, depth: nat) -> Seq<Seq<char>>
    decreases depth, forms.len() + 1,
{
    if forms.len() == 0 {
        Seq::empty()
    } else {
        imports_of_all(h, forms.drop_last(), depth) + imports_of(h, forms.last(), depth)
    }
}

fn push_spec_libraries(specs: &Vec<TaggedValue>, found: &mut Vec<String>, heap: &Heap, depth: usize)
    requires
        heap.wf(),
        heap.all_valid(specs@),
    ensures
        names_of(*final(found)) == names_of(*old(found)) + spec_libraries(heap, specs@, depth as nat),
{
    let ghost start = names_of(*found);
    let mut k: usize = 0;
    while k < specs.len()
        invariant
            heap.wf(),
            heap.all_valid(specs@),
            k <= specs@.len(),
            names_of(*found) == start + spec_libraries(heap, specs@.take(k as int), depth as nat),
        decreases specs@.len() - k,
    {
        proof {
            assert(heap.valid_value(specs@[k as int]));
            assert(specs@.take(k + 1).drop_last() =~= specs@.take(k as int));
            assert(specs@.take(k + 1).last() == specs@[k as int]);
        }
        let ghost pre = names_of(*found);
        match import_spec_library_within(specs[k], heap, depth) {
            Some(n) => {
                let ghost nv = n@;
                found.push(n);
                assert(names_of(*found) =~= pre.push(nv));
            },
            None => {},
        }
        proof {
            assert(names_of(*found) =~= start + spec_libraries(heap, specs@.take(k + 1), depth as nat));
        }
        k = k + 1;
    }
    proof {
        assert(specs@.take(k as int) =~= specs@);
    }
}

fn collect_imports_all(forms: &Vec<TaggedValue>, found: &mut Vec<String>, heap: &Heap, depth: usize)
    requires
        heap.wf(),
        heap.all_valid(forms@),
    ensures
        names_of(*final(found)) == names_of(*old(found)) + imports_of_all(heap, forms@, depth as nat),
    decreases depth, forms@.len() + 1,
{
    let ghost start = names_of(*found);
    let mut k: usize = 0;
    while k < forms.len()
        invariant
            heap.wf(),
            heap.all_valid(forms@),
            k <= forms@.len(),
            names_of(*found) == start + imports_of_all(heap, forms@.take(k as int), depth as nat),
        decreases forms@.len() - k,
    {
        proof {
            assert(heap.valid_value(forms@[k as int]));
            assert(forms@.take(k + 1).drop_last() =~= forms@.take(k as int));
            assert(forms@.take(k + 1).last() == forms@[k as int]);
        }
        collect_imports_within(forms[k], found, heap, depth);
        proof {
            assert(names_of(*found) =~= start + imports_of_all(heap, forms@.take(k + 1), depth as nat));
        }
        k = k + 1;
    }
    proof {
        assert(forms@.take(k as int) =~= forms@);
    }
}

fn collect_imports_within(form: TaggedValue, found: &mut Vec<String>, heap: &Heap, depth: usize)
    requires
        heap.wf(),
        heap.valid_value(form),
    ensures
        names_of(*final(found)) == names_of(*old(found)) + imports_of(heap, form, depth as nat),
    decreases depth, 0int,
{
    match tagged_form(form, "import", heap) {
        Some(specs) => {
            push_spec_libraries(&specs, found, heap, depth);
        },
        None => {
            if depth == 0 {
                assert(names_of(*found) =~= names_of(*old(found)) + Seq::<Seq<char>>::empty());
                return;
            }
            match cond_expand_bodies(form, heap) {
                Some(bodies) => {
                    collect_imports_all(&bodies, found, heap, depth - 1);
                },
                None => match tagged_form(form, "begin", heap) {
                    Some(body) => {
                        collect_imports_all(&body, found, heap, depth - 1);
                    },
                    None => {
                        assert(names_of(*found) =~= names_of(*old(found)) + Seq::<Seq<char>>::empty());
                    },
                },
            }
        },
    }
}

/// Append the library names of every `(import ...)` in `form`, descending
/// into `cond-expand` clause bodies (conditions ignored) and `begin`.
pub fn collect_imports(form: TaggedValue, found: &mut Vec<String>, heap: &Heap)
    requires
        heap.wf(),
        heap.valid_value(form),
    ensures
        names_of(*final(found)) == names_of(*old(found)) + imports_of(heap, form, nesting_bound(heap)),
{
    collect_imports_within(form, found, heap, heap.stats().pairs)
}

/// The library names among `vs`; values naming none are skipped.
pub open spec fn library_names_in(h: &Heap, vs: Seq<TaggedValue>) -> Seq<Seq<char>>
    decreases vs.len(),
{
    if vs.len() == 0 {
        Seq::empty()
    } else {
        library_names_in(h, vs.drop_last()) + match library_name_text(h, vs.last()) {
            Some(n) => seq![n],
            None => Seq::empty(),
        }
    }
}

/// What one declaration of a `library` or `program` component adds to the
/// provided and the depended-on names, at most `depth` forms deep.
pub open spec fn decl_names(h: &Heap, decl: TaggedValue, depth: nat) -> (Seq<Seq<char>>, Seq<Seq<char>>)
    decreases depth, 0int,
{
    match clause_arg(h, decl, "name"@) {
        Some(n) => (
            match library_name_text(h, n) {
                Some(s) => seq![s],
                None => Seq::empty(),
            },
            Seq::empty(),
        ),
        None => match form_rest(h, decl, "depends"@) {
            Some(rest) => (Seq::empty(), library_names_in(h, rest)),
            None => match form_rest(h, decl, "cond-expand"@) {
                Some(clauses) => if depth == 0 {
                    (Seq::empty(), Seq::empty())
                } else {
                    component_names(h, pooled_bodies(h, clauses), (depth - 1) as nat)
                },
                None => (Seq::empty(), Seq::empty()),
            },
        },
    }
}

/// The provided and depended-on names of a component body, in order.
pub open spec fn component_names(h: &Heap, body: Seq<TaggedValue>, depth: nat) -> (Seq<Seq<char>>, Seq<Seq<char>>)
    decreases depth, body.len() + 1,
{
    if body.len() == 0 {
        (Seq::empty(), Seq::empty())
    } else {
        let prev = component_names(h, body.drop_last(), depth);
        let last = decl_names(h, body.last(), depth);
        (prev.0 + last.0, prev.1 + last.1)
    }
}

fn push_library_names(vs: &Vec<TaggedValue>, out: &mut Vec<String>, heap: &Heap)
    requires
        heap.wf(),
        heap.all_valid(vs@),
    ensures
        names_of(*final(out)) == names_of(*old(out)) + library_names_in(heap, vs@),
{
    let ghost start = names_of(*out);
    let mut k: usize = 0;
    while k < vs.len()
        invariant
            heap.wf(),
            heap.all_valid(vs@),
            k <= vs@.len(),
            names_of(*out) == start + library_names_in(heap, vs@.take(k as int)),
        decreases vs@.len() - k,
    {
        proof {
            assert(heap.valid_value(vs@[k as int]));
            assert(vs@.take(k + 1).drop_last() =~= vs@.take(k as int));
            assert(vs@.take(k + 1).last() == vs@[k as int]);
        }
        let ghost pre = names_of(*out);
        match library_name(vs[k], heap) {
            Some(n) => {
                let ghost nv = n@;
                out.push(n);
                assert(names_of(*out) =~= pre.push(nv));
            },
            None => {},
        }
        proof {
            assert(names_of(*out) =~= start + library_names_in(heap, vs@.take(k + 1)));
        }
        k = k + 1;
    }
    proof {
        assert(vs@.take(k as int) =~= vs@);
    }
}

fn collect_component_within(
    body: &[TaggedValue],
    provides: &mut Vec<String>,
    depends: &mut Vec<String>,
    heap: &Heap,
    depth: usize,
)
    requires
        heap.wf(),
        heap.all_valid(body@),
    ensures
        names_of(*final(provides)) == names_of(*old(provides)) + component_names(heap, body@, depth as nat).0,
        names_of(*final(depends)) == names_of(*old(depends)) + component_names(heap, body@, depth as nat).1,
    decreases depth, body@.len() + 1,
{
    let ghost p0 = names_of(*provides);
    let ghost d0 = names_of(*depends);
    let mut k: usize = 0;
    while k < body.len()
        invariant
            heap.wf(),
            heap.all_valid(body@),
            k <= body@.len(),
            names_of(*provides) == p0 + component_names(heap, body@.take(k as int), depth as nat).0,
            names_of(*depends) == d0 + component_names(heap, body@.take(k as int), depth as nat).1,
        decreases body@.len() - k,
    {
        let decl = body[k];
        proof {
            assert(heap.valid_value(body@[k as int]));
            assert(body@.take(k + 1).drop_last() =~= body@.take(k as int));
            assert(body@.take(k + 1).last() == decl);
        }
        let ghost pb = names_of(*provides);
        let ghost db = names_of(*depends);
        match clause_argument(decl, "name", heap) {
            Some(name) => {
                match library_name(name, heap) {
                    Some(n) => {
                        let ghost nv = n@;
                        provides.push(n);
                        assert(names_of(*provides) =~= pb.push(nv));
                    },
                    None => {},
                }
            },
            None => match tagged_form(decl, "depends", heap) {
                Some(rest) => {
                    push_library_names(&rest, depends, heap);
                },
                None => {
                    if depth > 0 {
                        match cond_expand_bodies(decl, heap) {
                            Some(bodies) => {
                                collect_component_within(
                                    bodies.as_slice(),
                                    provides,
                                    depends,
                                    heap,
                                    depth - 1,
                                );
                            },
                            None => {},
                        }
                    }
                },
            },
        }
        proof {
            let d = decl_names(heap, decl, depth as nat);
            assert(names_of(*provides) =~= pb + d.0);
            assert(names_of(*depends) =~= db + d.1);
            assert(names_of(*provides) =~= p0 + component_names(heap, body@.take(k + 1), depth as nat).0);
            assert(names_of(*depends) =~= d0 + component_names(heap, body@.take(k + 1), depth as nat).1);
        }
        k = k + 1;
    }
    proof {
        assert(body@.take(k as int) =~= body@);
    }
}

/// Append the `(name ...)` and every `(depends ...)` of a `library` or
/// `program` component body, `cond-expand` branches included and their
/// conditions ignored.
pub fn collect_component(
    body: &[TaggedValue],
    provides: &mut Vec<String>,
    depends: &mut Vec<String>,
    heap: &Heap,
)
    requires
        heap.wf(),
        heap.all_valid(body@),
    ensures
        names_of(*final(provides)) == names_of(*old(provides)) + component_names(
            heap,
            body@,
            nesting_bound(heap),
        ).0,
        names_of(*final(depends)) == names_of(*old(depends)) + component_names(
            heap,
            body@,
            nesting_bound(heap),
        ).1,
{
    collect_component_within(body, provides, depends, heap, heap.stats().pairs)
}

/// The names sorted and with repeats removed: ascending, each once, the
/// same set.
pub fn sorted_unique(names: &Vec<String>) -> (r: Vec<String>)
    ensures
        strictly_sorted(names_of(r)),
        names_of(r).to_set() == names_of(*names).to_set(),
{
    let mut set: Vec<Vec<char>> = Vec::new();
    let mut k: usize = 0;
    proof {
        assert(views(set@) =~= Seq::<Seq<char>>::empty());
        assert(names_of(*names).take(0).to_set() =~= Set::<Seq<char>>::empty());
    }
    while k < names.len()
        invariant
            k <= names@.len(),
            strictly_sorted(views(set@)),
            views(set@).to_set() == names_of(*names).take(k as int).to_set(),
        decreases names@.len() - k,
    {
        let x = chars_of(names[k].as_str());
        insert_sorted(&mut set, x);
        proof {
            let t = names_of(*names);
            assert(t.take(k + 1) =~= t.take(k as int).push(names@[k as int]@));
            t.take(k as int).lemma_push_to_set_commute(names@[k as int]@);
        }
        k = k + 1;
    }
    proof {
        assert(names_of(*names).take(k as int) =~= names_of(*names));
    }
    to_strings(&set)
}

/// What a package's metadata declares, read from its parsed forms. Where
/// files sit on disk is no part of it: that is checked by the caller.
#[derive(Debug)]
pub struct PackageDecls {
    /// Library and program names the package defines.
    pub provides: Vec<String>,
    /// Names its components depend on, in declaration order.
    pub depends: Vec<String>,
    /// Names its `(test-depends ...)` clauses list.
    pub test_depends: Vec<String>,
    /// The programs its `(test "...")` clauses name, in order.
    pub tests: Vec<String>,
    /// Each library's name and the path it declares, when it declares both.
    pub library_paths: Vec<(String, String)>,
}

/// The name a component body declares for itself and the path it
/// declares: the first `name` clause read as a library name, the first
/// `path` clause read as a string.
pub open spec fn declared_path(h: &Heap, body: Seq<TaggedValue>) -> Option<(Seq<char>, Seq<char>)> {
    match row_arg(h, body, "name"@) {
        Some(n) => match library_name_text(h, n) {
            Some(name) => match row_arg(h, body, "path"@) {
                Some(p) => match string_text(h, p) {
                    Some(path) => Some((name, path)),
                    None => None,
                },
                None => None,
            },
            None => None,
        },
        None => None,
    }
}

/// A package's declarations as read: provides, depends, test depends, test
/// programs, and library paths.
pub type DeclsView = (
    Seq<Seq<char>>,
    Seq<Seq<char>>,
    Seq<Seq<char>>,
    Seq<Seq<char>>,
    Seq<(Seq<char>, Seq<char>)>,
);

/// The empty declarations.
pub open spec fn no_decls() -> DeclsView {
    (Seq::empty(), Seq::empty(), Seq::empty(), Seq::empty(), Seq::empty())
}

/// Two sets of declarations, one after the other.
pub open spec fn decls_then(a: DeclsView, b: DeclsView) -> DeclsView {
    (a.0 + b.0, a.1 + b.1, a.2 + b.2, a.3 + b.3, a.4 + b.4)
}

/// What one clause of a `(package ...)` form declares.
pub open spec fn package_clause(h: &Heap, decl: TaggedValue) -> DeclsView {
    let depth = nesting_bound(h);
    match form_rest(h, decl, "library"@) {
        Some(body) => {
            let c = component_names(h, body, depth);
            (
                c.0,
                c.1,
                Seq::empty(),
                Seq::empty(),
                match declared_path(h, body) {
                    Some(lp) => seq![lp],
                    None => Seq::empty(),
                },
            )
        },
        None => match form_rest(h, decl, "program"@) {
            Some(body) => {
                let c = component_names(h, body, depth);
                (c.0, c.1, Seq::empty(), Seq::empty(), Seq::empty())
            },
            None => match form_rest(h, decl, "test-depends"@) {
                Some(rest) => (
                    Seq::empty(),
                    Seq::empty(),
                    library_names_in(h, rest),
                    Seq::empty(),
                    Seq::empty(),
                ),
                None => match clause_arg(h, decl, "test"@) {
                    Some(t) => match string_text(h, t) {
                        Some(name) => (
                            Seq::empty(),
                            Seq::empty(),
                            Seq::empty(),
                            seq![name],
                            Seq::empty(),
                        ),
                        None => no_decls(),
                    },
                    None => no_decls(),
                },
            },
        },
    }
}

/// What a list of package clauses declares, in order.
pub open spec fn package_clauses(h: &Heap, decls: Seq<TaggedValue>) -> DeclsView
    decreases decls.len(),
{
    if decls.len() == 0 {
        no_decls()
    } else {
        decls_then(package_clauses(h, decls.drop_last()), package_clause(h, decls.last()))
    }
}

/// What every `(package ...)` form among `forms` declares, in order; other
/// forms declare nothing.
pub open spec fn package_forms(h: &Heap, forms: Seq<TaggedValue>) -> DeclsView
    decreases forms.len(),
{
    if forms.len() == 0 {
        no_decls()
    } else {
        decls_then(
            package_forms(h, forms.drop_last()),
            match form_rest(h, forms.last(), "package"@) {
                Some(decls) => package_clauses(h, decls),
                None => no_decls(),
            },
        )
    }
}

/// How a set of declarations reads.
pub open spec fn decls_view(d: PackageDecls) -> DeclsView {
    (
        names_of(d.provides),
        names_of(d.depends),
        names_of(d.test_depends),
        names_of(d.tests),
        d.library_paths@.map_values(|lp: (String, String)| (lp.0@, lp.1@)),
    )
}

impl PackageDecls {
    /// Nothing declared yet.
    pub fn new() -> (r: PackageDecls)
        ensures
            decls_view(r) == no_decls(),
    {
        let r = PackageDecls {
            provides: Vec::new(),
            depends: Vec::new(),
            test_depends: Vec::new(),
            tests: Vec::new(),
            library_paths: Vec::new(),
        };
        proof {
            assert(decls_view(r).0 =~= Seq::<Seq<char>>::empty());
            assert(decls_view(r).1 =~= Seq::<Seq<char>>::empty());
            assert(decls_view(r).2 =~= Seq::<Seq<char>>::empty());
            assert(decls_view(r).3 =~= Seq::<Seq<char>>::empty());
            assert(decls_view(r).4 =~= Seq::<(Seq<char>, Seq<char>)>::empty());
        }
        r
    }
}

/// The first `name` clause's library name and the first `path` clause's
/// string of a component body, when both are there.
fn library_path_of(body: &Vec<TaggedValue>, heap: &Heap) -> (r: Option<(String, String)>)
    requires
        heap.wf(),
        heap.all_valid(body@),
    ensures
        match r {
            Some(lp) => declared_path(heap, body@) == Some((lp.0@, lp.1@)),
            None => declared_path(heap, body@) is None,
        },
{
    let name = match row_field(body.as_slice(), "name", heap) {
        Some(n) => match library_name(n, heap) {
            Some(s) => s,
            None => return None,
        },
        None => return None,
    };
    let path = match row_field(body.as_slice(), "path", heap) {
        Some(p) => match string_value(p, heap) {
            Some(s) => s,
            None => return None,
        },
        None => return None,
    };
    Some((name, path))
}

/// Add what one package clause declares.
fn add_package_clause(decl: TaggedValue, out: &mut PackageDecls, heap: &Heap)
    requires
        heap.wf(),
        heap.valid_value(decl),
    ensures
        decls_view(*final(out)) == decls_then(decls_view(*old(out)), package_clause(heap, decl)),
{
    let ghost before = decls_view(*out);
    match tagged_form(decl, "library", heap) {
        Some(body) => {
            collect_component(body.as_slice(), &mut out.provides, &mut out.depends, heap);
            let ghost lps = out.library_paths@;
            match library_path_of(&body, heap) {
                Some(lp) => {
                    let ghost lv = (lp.0@, lp.1@);
                    out.library_paths.push(lp);
                    proof {
                        assert(out.library_paths@.map_values(|lp: (String, String)| (lp.0@, lp.1@))
                            =~= lps.map_values(|lp: (String, String)| (lp.0@, lp.1@)).push(lv));
                    }
                },
                None => {},
            }
        },
        None => match tagged_form(decl, "program", heap) {
            Some(body) => {
                collect_component(body.as_slice(), &mut out.provides, &mut out.depends, heap);
            },
            None => match tagged_form(decl, "test-depends", heap) {
                Some(rest) => {
                    push_library_names(&rest, &mut out.test_depends, heap);
                },
                None => match clause_argument(decl, "test", heap) {
                    Some(t) => match string_value(t, heap) {
                        Some(name) => {
                            let ghost pre = names_of(out.tests);
                            let ghost nv = name@;
                            out.tests.push(name);
                            proof {
                                assert(names_of(out.tests) =~= pre.push(nv));
                            }
                        },
                        None => {},
                    },
                    None => {},
                },
            },
        },
    }
    proof {
        let c = package_clause(heap, decl);
        let now = decls_view(*out);
        assert(now.0 =~= before.0 + c.0);
        assert(now.1 =~= before.1 + c.1);
        assert(now.2 =~= before.2 + c.2);
        assert(now.3 =~= before.3 + c.3);
        assert(now.4 =~= before.4 + c.4);
    }
}

/// What a package's metadata declares, read from its parsed top-level
/// forms: every `(package ...)` form's library and program components,
/// `(test-depends ...)` clauses and `(test "...")` clauses, in order.
pub fn package_decls(forms: &[TaggedValue], heap: &Heap) -> (r: PackageDecls)
    requires
        heap.wf(),
        heap.all_valid(forms@),
    ensures
        decls_view(r) == package_forms(heap, forms@),
{
    let mut out = PackageDecls::new();
    let mut k: usize = 0;
    while k < forms.len()
        invariant
            heap.wf(),
            heap.all_valid(forms@),
            k <= forms@.len(),
            decls_view(out) == package_forms(heap, forms@.take(k as int)),
        decreases forms@.len() - k,
    {
        proof {
            assert(heap.valid_value(forms@[k as int]));
            assert(forms@.take(k + 1).drop_last() =~= forms@.take(k as int));
            assert(forms@.take(k + 1).last() == forms@[k as int]);
        }
        let ghost before = decls_view(out);
        match tagged_form(forms[k], "package", heap) {
            Some(decls) => {
                let mut j: usize = 0;
                while j < decls.len()
                    invariant
                        heap.wf(),
                        heap.all_valid(decls@),
                        j <= decls@.len(),
                        decls_view(out) == decls_then(before, package_clauses(heap, decls@.take(j as int))),
                    decreases decls@.len() - j,
                {
                    proof {
                        assert(heap.valid_value(decls@[j as int]));
                        assert(decls@.take(j + 1).drop_last() =~= decls@.take(j as int));
                        assert(decls@.take(j + 1).last() == decls@[j as int]);
                    }
                    let ghost mid = decls_view(out);
                    add_package_clause(decls[j], &mut out, heap);
                    proof {
                        let a = package_clauses(heap, decls@.take(j as int));
                        let c = package_clause(heap, decls@[j as int]);
                        let now = decls_view(out);
                        let want = decls_then(before, package_clauses(heap, decls@.take(j + 1)));
                        assert(now.0 =~= want.0);
                        assert(now.1 =~= want.1);
                        assert(now.2 =~= want.2);
                        assert(now.3 =~= want.3);
                        assert(now.4 =~= want.4);
                    }
                    j = j + 1;
                }
                proof {
                    assert(decls@.take(j as int) =~= decls@);
                }
            },
            None => {
                proof {
                    let now = decls_view(out);
                    let want = decls_then(before, no_decls());
                    assert(now.0 =~= want.0);
                    assert(now.1 =~= want.1);
                    assert(now.2 =~= want.2);
                    assert(now.3 =~= want.3);
                    assert(now.4 =~= want.4);
                }
            },
        }
        k = k + 1;
    }
    proof {
        assert(forms@.take(k as int) =~= forms@);
    }
    out
}

// ---------------------------------------------------------------------------
// The dependency closure of a run
// ---------------------------------------------------------------------------

/// Whether two paths are equal, as std's `PartialEq for PathBuf` compares
/// them: component by component.
pub uninterp spec fn same_path(a: PathBuf, b: PathBuf) -> bool;

/// Calls std's `PartialEq for PathBuf`. The contract only names the
/// answer, which depends on the two paths alone.
#[verifier::external_body]
fn paths_equal(a: &PathBuf, b: &PathBuf) -> (r: bool)
    ensures
        r == same_path(*a, *b),
{
    a == b
}

/// The index of the package that provides `lib`, by the providers map.
pub open spec fn provider_in(m: Map<String, usize>, lib: String) -> Option<usize> {
    if m.contains_key(lib) {
        Some(m[lib])
    } else {
        None
    }
}

/// The library names a run starts from: what the package depends on, and,
/// when its own test program is what runs, what that program depends on.
pub open spec fn seed_names(p: Package, is_test_run: bool) -> Seq<String> {
    if is_test_run {
        p.depends@ + p.test_depends@
    } else {
        p.depends@
    }
}

/// The packages reached within `n` steps: the providers of the seeds, then
/// the providers of what every reached package depends on.
pub open spec fn closure_within(
    all: Seq<Package>,
    m: Map<String, usize>,
    seeds: Seq<String>,
    n: nat,
) -> Set<usize>
    decreases n,
{
    if n == 0 {
        Set::new(|i: usize| exists|k: int| 0 <= k < seeds.len() && provider_in(m, seeds[k]) == Some(i))
    } else {
        let prev = closure_within(all, m, seeds, (n - 1) as nat);
        prev.union(
            Set::new(
                |i: usize|
                    exists|j: usize, k: int|
                        prev.contains(j) && j < all.len() && 0 <= k < all[j as int].depends@.len()
                            && provider_in(m, all[j as int].depends@[k]) == Some(i),
            ),
        )
    }
}

/// Whether the package at `i` is in the dependency closure of the seeds.
pub open spec fn in_closure(all: Seq<Package>, m: Map<String, usize>, seeds: Seq<String>, i: usize) -> bool {
    exists|n: nat| #[trigger] closure_within(all, m, seeds, n).contains(i)
}

/// Whether every provider index the map holds names a package of `all`.
pub open spec fn providers_in_range(m: Map<String, usize>, n: nat) -> bool {
    forall|lib: String| #[trigger] m.contains_key(lib) ==> m[lib] < n
}

/// Whether `lib`'s provider, when there is one, has been reached.
pub open spec fn provider_seen(m: Map<String, usize>, seen: Seq<bool>, lib: String) -> bool {
    match provider_in(m, lib) {
        Some(p) => p < seen.len() && seen[p as int],
        None => true,
    }
}

/// The queue's contents: seeds, and what reached packages depend on.
pub open spec fn queue_ok(all: Seq<Package>, seeds: Seq<String>, seen: Seq<bool>, queue: Seq<String>) -> bool {
    forall|q: int|
        0 <= q < queue.len() ==> seeds.contains(#[trigger] queue[q]) || exists|i: int, d: int|
            0 <= i < seen.len() && seen[i] && 0 <= d < all[i].depends@.len() && all[i].depends@[d]
                == queue[q]
}

/// Nothing is lost: every seed and every dependency of a reached package
/// is still queued or has its provider reached.
pub open spec fn frontier_ok(
    all: Seq<Package>,
    m: Map<String, usize>,
    seeds: Seq<String>,
    seen: Seq<bool>,
    queue: Seq<String>,
) -> bool {
    &&& forall|s: int| 0 <= s < seeds.len() ==> queue.contains(#[trigger] seeds[s]) || provider_seen(m, seen, seeds[s])
    &&& forall|i: int, d: int|
        #![trigger seen[i], all[i].depends@[d]]
        0 <= i < seen.len() && seen[i] && 0 <= d < all[i].depends@.len() ==> queue.contains(
            all[i].depends@[d],
        ) || provider_seen(m, seen, all[i].depends@[d])
}

/// What is reached is in the closure.
pub open spec fn seen_sound(all: Seq<Package>, m: Map<String, usize>, seeds: Seq<String>, seen: Seq<bool>) -> bool {
    forall|i: int| 0 <= i < seen.len() && #[trigger] seen[i] ==> in_closure(all, m, seeds, i as usize)
}

/// Append clones of `more`.
fn push_clones(queue: &mut Vec<String>, more: &Vec<String>)
    ensures
        final(queue)@ == old(queue)@ + more@,
{
    let mut d: usize = 0;
    while d < more.len()
        invariant
            d <= more@.len(),
            queue@ == old(queue)@ + more@.take(d as int),
        decreases more@.len() - d,
    {
        queue.push(more[d].clone());
        assert(queue@ =~= old(queue)@ + more@.take(d + 1));
        d = d + 1;
    }
    assert(more@.take(d as int) =~= more@);
}

/// The packages a run of `package` needs on its search path besides
/// itself: every package in the dependency closure of its seeds, each
/// once, in the order the walk first reaches it, leaving out those whose
/// root is the package's own. Stated under `string_keys_ordered()`, which
/// vstd's `BTreeMap` contracts assume.
pub fn search_closure(
    package: &Package,
    all: &[Package],
    providers: &BTreeMap<String, usize>,
    is_test_run: bool,
) -> (r: Vec<usize>)
    requires
        string_keys_ordered() ==> providers_in_range(providers@, all@.len()),
    ensures
        r@.no_duplicates(),
        forall|k: int| 0 <= k < r@.len() ==> (#[trigger] r@[k]) < all@.len(),
        string_keys_ordered() ==> forall|i: usize|
            #![trigger r@.contains(i)]
            r@.contains(i) <==> (i < all@.len() && in_closure(
                all@,
                providers@,
                seed_names(*package, is_test_run),
                i,
            ) && !same_path(all@[i as int].root, package.root)),
{
    broadcast use vstd::std_specs::btree::group_btree_axioms;
    let n = all.len();
    let ghost m = providers@;
    let ghost seeds = seed_names(*package, is_test_run);
    let ghost ordered = string_keys_ordered();
    let mut queue: Vec<String> = Vec::new();
    push_clones(&mut queue, &package.depends);
    if is_test_run {
        push_clones(&mut queue, &package.test_depends);
    }
    assert(queue@ =~= seeds);
    let mut seen: Vec<bool> = Vec::new();
    let mut j: usize = 0;
    while j < n
        invariant
            j <= n,
            n == all@.len(),
            seen@.len() == j,
            forall|i: int| 0 <= i < j ==> !seen@[i],
        decreases n - j,
    {
        seen.push(false);
        j = j + 1;
    }
    proof {
        lemma_count_none(seen@);
        assert forall|s: int| 0 <= s < seeds.len() implies queue@.contains(#[trigger] seeds[s]) by {
            assert(queue@[s] == seeds[s]);
        }
    }
    let mut members: Vec<usize> = Vec::new();
    while queue.len() > 0
        invariant
            n == all@.len(),
            m == providers@,
            seeds == seed_names(*package, is_test_run),
            ordered == string_keys_ordered(),
            ordered ==> providers_in_range(m, n as nat),
            seen@.len() == n,
            members@.no_duplicates(),
            forall|k: int| 0 <= k < members@.len() ==> (#[trigger] members@[k]) < n,
            forall|i: usize|
                #![trigger members@.contains(i)]
                members@.contains(i) <==> (i < n && seen@[i as int] && !same_path(
                    all@[i as int].root,
                    package.root,
                )),
            ordered ==> seen_sound(all@, m, seeds, seen@),
            queue_ok(all@, seeds, seen@, queue@),
            ordered ==> frontier_ok(all@, m, seeds, seen@, queue@),
            crate::heap::gc::count_true(seen@) <= n,
        decreases n - crate::heap::gc::count_true(seen@), queue@.len(),
    {
        let ghost q0 = queue@;
        let ghost s0 = seen@;
        let lib = queue.pop().unwrap();
        proof {
            assert(q0 =~= queue@.push(lib));
            assert(q0[q0.len() - 1] == lib);
        }
        let idx = match providers.get(&lib) {
            Some(i) => *i,
            None => {
                proof {
                    if ordered {
                        assert(provider_in(m, lib) is None);
                        lemma_frontier_pop(all@, m, seeds, seen@, queue@, lib);
                    }
                    lemma_queue_pop(all@, seeds, seen@, queue@, lib);
                }
                continue;
            },
        };
        proof {
            if ordered {
                assert(provider_in(m, lib) == Some(idx));
            }
        }
        if idx >= n || seen[idx] {
            proof {
                if ordered {
                    lemma_frontier_pop(all@, m, seeds, seen@, queue@, lib);
                }
                lemma_queue_pop(all@, seeds, seen@, queue@, lib);
            }
            continue;
        }
        seen.set(idx, true);
        proof {
            crate::heap::gc::lemma_count_true_set(s0, idx as int);
            crate::heap::gc::lemma_count_true_le(seen@);
            if ordered {
                lemma_reached_sound(all@, m, seeds, s0, q0, idx);
            }
        }
        let ghost mem0 = members@;
        proof {
            assert(!mem0.contains(idx));
        }
        if !paths_equal(&all[idx].root, &package.root) {
            members.push(idx);
            proof {
                assert(members@.no_duplicates()) by {
                    assert forall|a: int, b: int| 0 <= a < b < members@.len() implies members@[a]
                        != members@[b] by {
                        if b == mem0.len() {
                            assert(members@[a] == mem0[a]);
                        } else {
                            assert(members@[a] == mem0[a]);
                            assert(members@[b] == mem0[b]);
                        }
                    }
                }
                assert forall|i: usize| #![trigger members@.contains(i)]
                    members@.contains(i) <==> (i < n && seen@[i as int] && !same_path(
                        all@[i as int].root,
                        package.root,
                    )) by {
                    if i == idx {
                        assert(members@[mem0.len() as int] == idx);
                    } else if mem0.contains(i) {
                        let w = choose|w: int| 0 <= w < mem0.len() && mem0[w] == i;
                        assert(members@[w] == i);
                    } else if members@.contains(i) {
                        let w = choose|w: int| 0 <= w < members@.len() && members@[w] == i;
                        if w < mem0.len() {
                            assert(mem0[w] == i);
                        }
                    }
                }
            }
        } else {
            proof {
                assert forall|i: usize| #![trigger members@.contains(i)]
                    members@.contains(i) <==> (i < n && seen@[i as int] && !same_path(
                        all@[i as int].root,
                        package.root,
                    )) by {
                    if i < n && i != idx {
                        assert(seen@[i as int] == s0[i as int]);
                    }
                }
            }
        }
        let ghost base = queue@;
        push_clones(&mut queue, &all[idx].depends);
        proof {
            lemma_after_reach(all@, m, seeds, s0, seen@, base, queue@, lib, idx, ordered);
        }
    }
    proof {
        if ordered {
            assert forall|i: usize| #![trigger members@.contains(i)]
                members@.contains(i) <==> (i < all@.len() && in_closure(all@, m, seeds, i)
                    && !same_path(all@[i as int].root, package.root)) by {
                if i < n && in_closure(all@, m, seeds, i) {
                    let lvl = choose|lvl: nat| #[trigger] closure_within(all@, m, seeds, lvl).contains(i);
                    lemma_closure_seen(all@, m, seeds, seen@, lvl, i);
                }
            }
        }
    }
    members
}

/// Popping a value keeps the queue's provenance.
proof fn lemma_queue_pop(all: Seq<Package>, seeds: Seq<String>, seen: Seq<bool>, rest: Seq<String>, lib: String)
    requires
        queue_ok(all, seeds, seen, rest.push(lib)),
    ensures
        queue_ok(all, seeds, seen, rest),
{
    assert forall|q: int| 0 <= q < rest.len() implies seeds.contains(#[trigger] rest[q]) || exists|i: int, d: int|
        0 <= i < seen.len() && seen[i] && 0 <= d < all[i].depends@.len() && all[i].depends@[d]
            == rest[q] by {
        assert(rest.push(lib)[q] == rest[q]);
    }
}

/// Popping a value whose provider is absent or already reached keeps the
/// frontier.
proof fn lemma_frontier_pop(
    all: Seq<Package>,
    m: Map<String, usize>,
    seeds: Seq<String>,
    seen: Seq<bool>,
    rest: Seq<String>,
    lib: String,
)
    requires
        frontier_ok(all, m, seeds, seen, rest.push(lib)),
        provider_seen(m, seen, lib),
    ensures
        frontier_ok(all, m, seeds, seen, rest),
{
    let q = rest.push(lib);
    assert forall|x: String| q.contains(x) implies rest.contains(x) || x == lib by {
        let w = choose|w: int| 0 <= w < q.len() && q[w] == x;
        if w < rest.len() {
            assert(rest[w] == x);
        }
    }
}

/// The provider of a popped value is in the closure.
proof fn lemma_reached_sound(
    all: Seq<Package>,
    m: Map<String, usize>,
    seeds: Seq<String>,
    seen: Seq<bool>,
    q: Seq<String>,
    idx: usize,
)
    requires
        q.len() > 0,
        seen.len() == all.len(),
        all.len() <= usize::MAX,
        queue_ok(all, seeds, seen, q),
        seen_sound(all, m, seeds, seen),
        provider_in(m, q[q.len() - 1]) == Some(idx),
    ensures
        in_closure(all, m, seeds, idx),
{
    let lib = q[q.len() - 1];
    if seeds.contains(lib) {
        let k = choose|k: int| 0 <= k < seeds.len() && seeds[k] == lib;
        assert(closure_within(all, m, seeds, 0).contains(idx));
    } else {
        let (i, d) = choose|i: int, d: int|
            0 <= i < seen.len() && seen[i] && 0 <= d < all[i].depends@.len() && all[i].depends@[d]
                == lib;
        let iu = i as usize;
        assert(iu as int == i);
        assert(in_closure(all, m, seeds, iu));
        let lvl = choose|lvl: nat| #[trigger] closure_within(all, m, seeds, lvl).contains(iu);
        let next = lvl + 1;
        let prev = closure_within(all, m, seeds, lvl);
        assert(prev.contains(iu) && iu < all.len() && 0 <= d < all[iu as int].depends@.len()
            && provider_in(m, all[iu as int].depends@[d]) == Some(idx));
        assert(closure_within(all, m, seeds, next) == prev.union(
            Set::new(
                |x: usize|
                    exists|j: usize, k: int|
                        prev.contains(j) && j < all.len() && 0 <= k < all[j as int].depends@.len()
                            && provider_in(m, all[j as int].depends@[k]) == Some(x),
            ),
        ));
        assert(closure_within(all, m, seeds, next).contains(idx));
    }
}

/// After reaching `idx` and queueing what it depends on, the invariants
/// hold again.
proof fn lemma_after_reach(
    all: Seq<Package>,
    m: Map<String, usize>,
    seeds: Seq<String>,
    s0: Seq<bool>,
    s1: Seq<bool>,
    base: Seq<String>,
    q1: Seq<String>,
    lib: String,
    idx: usize,
    ordered: bool,
)
    requires
        idx < s0.len(),
        !s0[idx as int],
        s1 == s0.update(idx as int, true),
        s0.len() == all.len(),
        q1 == base + all[idx as int].depends@,
        queue_ok(all, seeds, s0, base.push(lib)),
        ordered ==> frontier_ok(all, m, seeds, s0, base.push(lib)),
        ordered ==> seen_sound(all, m, seeds, s0),
        ordered ==> in_closure(all, m, seeds, idx),
        ordered ==> provider_in(m, lib) == Some(idx),
    ensures
        queue_ok(all, seeds, s1, q1),
        ordered ==> frontier_ok(all, m, seeds, s1, q1),
        ordered ==> seen_sound(all, m, seeds, s1),
{
    let q0 = base.push(lib);
    assert forall|q: int| 0 <= q < q1.len() implies seeds.contains(#[trigger] q1[q]) || exists|i: int, d: int|
        0 <= i < s1.len() && s1[i] && 0 <= d < all[i].depends@.len() && all[i].depends@[d]
            == q1[q] by {
        if q < base.len() {
            assert(q0[q] == q1[q]);
            if !seeds.contains(q1[q]) {
                let (i, d) = choose|i: int, d: int|
                    0 <= i < s0.len() && s0[i] && 0 <= d < all[i].depends@.len() && all[i].depends@[d]
                        == q0[q];
                assert(s1[i]);
            }
        } else {
            let d = q - base.len();
            assert(all[idx as int].depends@[d] == q1[q]);
            assert(s1[idx as int]);
        }
    }
    if ordered {
        assert forall|x: String| q0.contains(x) implies q1.contains(x) || x == lib by {
            let w = choose|w: int| 0 <= w < q0.len() && q0[w] == x;
            if w < base.len() {
                assert(q1[w] == x);
            }
        }
        assert forall|lib2: String| provider_seen(m, s0, lib2) implies provider_seen(m, s1, lib2) by {
            match provider_in(m, lib2) {
                Some(p) => {
                    assert(s1[p as int]);
                },
                None => {},
            }
        }
        assert(provider_seen(m, s1, lib));
        assert forall|s: int| 0 <= s < seeds.len() implies q1.contains(#[trigger] seeds[s]) || provider_seen(
            m,
            s1,
            seeds[s],
        ) by {
            if q0.contains(seeds[s]) && seeds[s] != lib {
            }
        }
        assert forall|i: int, d: int|
            #![trigger s1[i], all[i].depends@[d]]
            0 <= i < s1.len() && s1[i] && 0 <= d < all[i].depends@.len() implies q1.contains(
                all[i].depends@[d],
            ) || provider_seen(m, s1, all[i].depends@[d]) by {
            if i == idx as int {
                assert(q1[base.len() + d] == all[i].depends@[d]);
            } else {
                assert(s0[i]);
            }
        }
        assert forall|i: int| 0 <= i < s1.len() && #[trigger] s1[i] implies in_closure(
            all,
            m,
            seeds,
            i as usize,
        ) by {
            if i != idx as int {
                assert(s0[i]);
            }
        }
    }
}

/// Once the queue is empty, everything in the closure has been reached.
proof fn lemma_closure_seen(
    all: Seq<Package>,
    m: Map<String, usize>,
    seeds: Seq<String>,
    seen: Seq<bool>,
    lvl: nat,
    i: usize,
)
    requires
        seen.len() == all.len(),
        providers_in_range(m, all.len()),
        frontier_ok(all, m, seeds, seen, Seq::empty()),
        closure_within(all, m, seeds, lvl).contains(i),
    ensures
        i < seen.len(),
        seen[i as int],
    decreases lvl,
{
    if lvl == 0 {
        let k = choose|k: int| 0 <= k < seeds.len() && provider_in(m, seeds[k]) == Some(i);
        assert(provider_seen(m, seen, seeds[k]));
    } else {
        let prev = closure_within(all, m, seeds, (lvl - 1) as nat);
        if prev.contains(i) {
            lemma_closure_seen(all, m, seeds, seen, (lvl - 1) as nat, i);
        } else {
            let (j, k) = choose|j: usize, k: int|
                prev.contains(j) && j < all.len() && 0 <= k < all[j as int].depends@.len()
                    && provider_in(m, all[j as int].depends@[k]) == Some(i);
            lemma_closure_seen(all, m, seeds, seen, (lvl - 1) as nat, j);
            assert(provider_seen(m, seen, all[j as int].depends@[k]));
        }
    }
}

/// A sequence with no `true` entry counts none.
proof fn lemma_count_none(s: Seq<bool>)
    requires
        forall|i: int| 0 <= i < s.len() ==> !#[trigger] s[i],
    ensures
        crate::heap::gc::count_true(s) == 0,
    decreases s.len(),
{
    if s.len() > 0 {
        lemma_count_none(s.drop_last());
    }
}

} // verus!
