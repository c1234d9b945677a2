//! The feature identifiers `cond-expand` tests and `(features)` lists.
use vstd::prelude::*;
use crate::scan::{views, strictly_sorted, insert_sorted, lex_lt};
use crate::text::{chars_of, chars_eq, string_from_chars, str_is};
use crate::compat::run::names_of;

verus! {

/// The implementation's features: a set of names, held in ascending order
/// with nothing twice.
#[derive(Debug, Clone)]
pub struct FeatureRegistry {
    features: Vec<Vec<char>>,
}

/// The features every platform has.
pub open spec fn portable_features() -> Set<Seq<char>> {
    set![
        "r7rs"@,
        "patina"@,
        "ratios"@,
        "exact-closed"@,
        "ieee-float"@,
        "full-unicode"@,
        "full-unicode-strings"@,
    ]
}

/// The features an operating system, architecture and byte order add.
pub open spec fn platform_features(os: Seq<char>, arch: Seq<char>, little_endian: bool) -> Set<Seq<char>> {
    let by_os: Set<Seq<char>> = if os == "macos"@ {
        set!["darwin"@, "macosx"@, "posix"@, "unix"@]
    } else if os == "linux"@ {
        set!["linux"@, "gnu-linux"@, "posix"@, "unix"@]
    } else if os == "freebsd"@ {
        set!["freebsd"@, "bsd"@, "posix"@, "unix"@]
    } else if os == "windows"@ {
        set!["windows"@]
    } else {
        Set::empty()
    };
    let by_arch: Set<Seq<char>> = if arch == "x86_64"@ {
        set!["x86-64"@]
    } else if arch == "x86"@ {
        set!["i386"@]
    } else if arch == "aarch64"@ {
        set!["aarch64"@]
    } else if arch == "arm"@ {
        set!["arm"@]
    } else {
        Set::empty()
    };
    by_os.union(by_arch).insert(if little_endian {
        "little-endian"@
    } else {
        "big-endian"@
    })
}

impl FeatureRegistry {
    /// The features held.
    pub closed spec fn spec_features(&self) -> Set<Seq<char>> {
        views(self.features@).to_set()
    }

    /// Held in ascending order, nothing twice.
    pub closed spec fn wf(&self) -> bool {
        strictly_sorted(views(self.features@))
    }

    /// A registry with nothing in it.
    fn empty() -> (r: FeatureRegistry)
        ensures
            r.wf(),
            r.spec_features() == Set::<Seq<char>>::empty(),
    {
        let r = FeatureRegistry { features: Vec::new() };
        assert(views(r.features@).to_set() =~= Set::<Seq<char>>::empty());
        r
    }

    /// The portable features: R7RS, the implementation's name, its numeric
    /// capabilities and its Unicode support.
    fn portable() -> (r: FeatureRegistry)
        ensures
            r.wf(),
            r.spec_features() == portable_features(),
    {
        let mut r = Self::empty();
        r.add_feature("r7rs");
        r.add_feature("patina");
        r.add_feature("ratios");
        r.add_feature("exact-closed");
        r.add_feature("ieee-float");
        r.add_feature("full-unicode");
        r.add_feature("full-unicode-strings");
        assert(r.spec_features() =~= portable_features());
        r
    }

    /// Patina's features: the portable ones and those of the platform it
    /// runs on, given as the host reports it: its operating system
    /// (`"macos"`, `"linux"`, `"freebsd"`, `"windows"`), architecture
    /// (`"x86_64"`, `"x86"`, `"aarch64"`, `"arm"`) and byte order.
    pub fn new(os: &str, arch: &str, little_endian: bool) -> (r: FeatureRegistry)
        ensures
            r.wf(),
            r.spec_features() == portable_features().union(
                platform_features(os@, arch@, little_endian),
            ),
    {
        let mut r = Self::portable();
        let ghost base = r.spec_features();
        if str_is(os, "macos") {
            r.add_feature("darwin");
            r.add_feature("macosx");
            r.add_feature("posix");
            r.add_feature("unix");
        } else if str_is(os, "linux") {
            r.add_feature("linux");
            r.add_feature("gnu-linux");
            r.add_feature("posix");
            r.add_feature("unix");
        } else if str_is(os, "freebsd") {
            r.add_feature("freebsd");
            r.add_feature("bsd");
            r.add_feature("posix");
            r.add_feature("unix");
        } else if str_is(os, "windows") {
            r.add_feature("windows");
        }
        if str_is(arch, "x86_64") {
            r.add_feature("x86-64");
        } else if str_is(arch, "x86") {
            r.add_feature("i386");
        } else if str_is(arch, "aarch64") {
            r.add_feature("aarch64");
        } else if str_is(arch, "arm") {
            r.add_feature("arm");
        }
        if little_endian {
            r.add_feature("little-endian");
        } else {
            r.add_feature("big-endian");
        }
        assert(r.spec_features() =~= portable_features().union(
            platform_features(os@, arch@, little_endian),
        ));
        r
    }

    /// Whether `name` is a feature.
    pub fn has_feature(&self, name: &str) -> (r: bool)
        ensures
            r == self.spec_features().contains(name@),
    {
        let target = chars_of(name);
        let mut k: usize = 0;
        while k < self.features.len()
            invariant
                k <= self.features@.len(),
                target@ == name@,
                forall|j: int| 0 <= j < k ==> (#[trigger] self.features@[j])@ != name@,
            decreases self.features@.len() - k,
        {
            if chars_eq(self.features[k].as_slice(), target.as_slice()) {
                proof {
                    assert(views(self.features@)[k as int] == name@);
                }
                return true;
            }
            k = k + 1;
        }
        proof {
            if views(self.features@).contains(name@) {
                let j = choose|j: int| 0 <= j < views(self.features@).len() && views(self.features@)[j] == name@;
                assert(self.features@[j]@ == name@);
            }
        }
        false
    }

    /// Every feature, in ascending order.
    pub fn all_features(&self) -> (r: Vec<String>)
        requires
            self.wf(),
        ensures
            strictly_sorted(names_of(r)),
            names_of(r).to_set() == self.spec_features(),
    {
        let mut r: Vec<String> = Vec::new();
        let mut k: usize = 0;
        while k < self.features.len()
            invariant
                k <= self.features@.len(),
                r@.len() == k,
                names_of(r) == views(self.features@).take(k as int),
            decreases self.features@.len() - k,
        {
            let s = string_from_chars(&self.features[k]);
            let ghost before = r@;
            r.push(s);
            proof {
                assert forall|j: int| 0 <= j < k + 1 implies #[trigger] names_of(r)[j]
                    == views(self.features@).take(k + 1)[j] by {
                    if j < k {
                        assert(r@[j] == before[j]);
                    }
                }
                assert(names_of(r) =~= views(self.features@).take(k + 1));
            }
            k = k + 1;
        }
        proof {
            assert(views(self.features@).take(k as int) =~= views(self.features@));
        }
        r
    }

    /// Add a feature.
    pub fn add_feature(&mut self, name: &str)
        requires
            old(self).wf(),
        ensures
            final(self).wf(),
            final(self).spec_features() == old(self).spec_features().insert(name@),
    {
        insert_sorted(&mut self.features, chars_of(name));
    }

    /// Remove a feature.
    pub fn remove_feature(&mut self, name: &str)
        requires
            old(self).wf(),
        ensures
            final(self).wf(),
            final(self).spec_features() == old(self).spec_features().remove(name@),
    {
        let target = chars_of(name);
        let ghost s0 = views(self.features@);
        let mut k: usize = 0;
        while k < self.features.len()
            invariant
                k <= self.features@.len(),
                target@ == name@,
                views(self.features@) == s0,
                s0 == views(old(self).features@),
                strictly_sorted(s0),
                forall|j: int| 0 <= j < k ==> (#[trigger] self.features@[j])@ != name@,
            decreases self.features@.len() - k,
        {
            if chars_eq(self.features[k].as_slice(), target.as_slice()) {
                self.features.remove(k);
                proof {
                    let s1 = views(self.features@);
                    assert(s1 =~= s0.remove(k as int));
                    assert forall|i: int, j: int| 0 <= i < j < s1.len() implies crate::scan::seq_lt(
                        #[trigger] s1[i],
                        #[trigger] s1[j],
                    ) by {
                        let i0 = if i < k { i } else { i + 1 };
                        let j0 = if j < k { j } else { j + 1 };
                        assert(s1[i] == s0[i0] && s1[j] == s0[j0]);
                    }
                    assert forall|e: Seq<char>| #[trigger] s1.to_set().contains(e) == s0.to_set().remove(name@).contains(e) by {
                        if s1.contains(e) {
                            let i = choose|i: int| 0 <= i < s1.len() && s1[i] == e;
                            let i0 = if i < k { i } else { i + 1 };
                            assert(s0[i0] == e);
                            if e == name@ {
                                crate::scan::lemma_lt_irreflexive(e);
                                if i0 < k {
                                    assert(crate::scan::seq_lt(s0[i0], s0[k as int]));
                                } else {
                                    assert(crate::scan::seq_lt(s0[k as int], s0[i0]));
                                }
                            }
                        }
                        if s0.contains(e) && e != name@ {
                            let i = choose|i: int| 0 <= i < s0.len() && s0[i] == e;
                            if i < k {
                                assert(s1[i] == e);
                            } else {
                                assert(i != k);
                                assert(s1[i - 1] == e);
                            }
                        }
                    }
                    assert(s1.to_set() =~= s0.to_set().remove(name@));
                    assert(old(self).spec_features() == s0.to_set());
                    assert(self.spec_features() == s1.to_set());
                }
                return;
            }
            k = k + 1;
        }
        proof {
            assert forall|e: Seq<char>| #[trigger] s0.to_set().contains(e) ==> e != name@ by {
                if s0.contains(e) {
                    let i = choose|i: int| 0 <= i < s0.len() && s0[i] == e;
                    assert(self.features@[i]@ == e);
                }
            }
            assert(s0.to_set() =~= s0.to_set().remove(name@));
        }
    }
}

/// The registry a fresh interpreter starts with on the given platform.
pub fn default_features(os: &str, arch: &str, little_endian: bool) -> (r: FeatureRegistry)
    ensures
        r.wf(),
        r.spec_features() == portable_features().union(platform_features(os@, arch@, little_endian)),
{
    FeatureRegistry::new(os, arch, little_endian)
}

} // verus!
