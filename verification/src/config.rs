//! The variant policy resolver.
//!
//! Package metadata declares, per architecture, a set of CPU model names
//! and a set of explicit feature lists. Command-line overrides replace
//! either set, but only for the architecture of the current target, and
//! only when non-empty. The resolver unions the compiler expansions of the
//! CPU models with the explicit lists into one canonical, deduplicated
//! slate of feature sets to build.

use vstd::prelude::*;
use vstd::pervasive::VecAdditionalExecFns;

use crate::features::{canonical_set_of, tokens_sorted, CpuFeatures};
use crate::order::{
    featlist_lt, lemma_featlist_lt_transitive, lemma_featlist_lt_trichotomy, str_same,
};

verus! {

/// The views of a sequence of feature sets.
pub open spec fn views_of(ls: Seq<CpuFeatures>) -> Seq<Seq<Seq<char>>> {
    ls.map_values(|c: CpuFeatures| c@)
}

/// A configuration failure surfaced to the user.
#[derive(Clone, Copy, Debug, PartialEq, Eq, Structural)]
pub enum ConfigError {
    /// Neither the CLI nor the package metadata configured any variant for
    /// the current architecture.
    NoVariants,
}

/// Sorted strictly ascending in the canonical feature-list order: sorted
/// and duplicate-free.
pub open spec fn lists_sorted(ls: Seq<CpuFeatures>) -> bool {
    forall|i: int, j: int| 0 <= i < j < ls.len() ==> featlist_lt(ls[i]@, ls[j]@)
}

/// The per-architecture policy: CPU model names to expand, and explicit
/// feature lists, both as canonical sets.
pub struct ArchConfig {
    /// CPU model names, e.g. `x86-64-v3`; each is expanded by a compiler
    /// query into a feature set.
    pub cpus: Vec<String>,
    /// Explicit feature lists, one variant each.
    pub cpufeatures_lists: Vec<CpuFeatures>,
}

impl ArchConfig {
    pub open spec fn wf(&self) -> bool {
        &&& tokens_sorted(self.cpus.deep_view())
        &&& lists_sorted(self.cpufeatures_lists@)
        &&& forall|k: int|
            0 <= k < self.cpufeatures_lists@.len() ==> (
            #[trigger] self.cpufeatures_lists@[k]).wf()
    }

    /// Normalizes raw metadata fields into a canonical policy.
    pub fn new(cpus: Vec<String>, lists: Vec<CpuFeatures>) -> (r: ArchConfig)
        requires
            forall|k: int| 0 <= k < lists@.len() ==> (#[trigger] lists@[k]).wf(),
        ensures
            r.wf(),
            canonical_set_of(r.cpus.deep_view(), cpus.deep_view()),
            forall|l: Seq<Seq<char>>|
                #[trigger] r.cpufeatures_lists.deep_view().contains(l)
                    <==> lists.deep_view().contains(l),
    {
        let cpu_set = CpuFeatures::from_iter(cpus);
        let mut out: Vec<CpuFeatures> = Vec::new();
        let ghost orig = lists@;
        let mut rest = lists;
        let ghost m: int = 0;
        while rest.len() > 0
            invariant
                0 <= m <= orig.len(),
                rest@ =~= orig.skip(m),
                lists_sorted(out@),
                forall|k: int| 0 <= k < out@.len() ==> (#[trigger] out@[k]).wf(),
                forall|k: int| 0 <= k < orig.len() ==> (#[trigger] orig[k]).wf(),
                forall|l: Seq<Seq<char>>|
                    #[trigger] out.deep_view().contains(l) <==> views_of(
                        orig.take(m),
                    ).contains(l),
            decreases rest@.len(),
        {
            let x = rest.remove(0);
            proof {
                assert(x == orig[m]);
                assert(rest@ =~= orig.skip(m + 1));
            }
            insert_feats(&mut out, x);
            proof {
                let prev = views_of(orig.take(m));
                let cur = views_of(orig.take(m + 1));
                assert(cur =~= prev.push(orig[m]@));
                assert forall|l: Seq<Seq<char>>|
                    #[trigger] out.deep_view().contains(l) <==> cur.contains(l) by {
                    if prev.contains(l) {
                        let q = choose|q: int| 0 <= q < prev.len() && prev[q] == l;
                        assert(cur[q] == l);
                    }
                    if l == orig[m]@ {
                        assert(cur[m] == l);
                    }
                    if cur.contains(l) {
                        let q = choose|q: int| 0 <= q < cur.len() && cur[q] == l;
                        if q < m {
                            assert(prev[q] == l);
                        }
                    }
                }
                m = m + 1;
            }
        }
        proof {
            assert(orig.take(m) =~= orig);
            assert(views_of(orig.take(m)) =~= lists.deep_view());
        }
        ArchConfig { cpus: cpu_set.tokens, cpufeatures_lists: out }
    }
}

/// Adds a feature list to a canonically ordered slate, keeping it sorted
/// and duplicate-free.
fn insert_feats(out: &mut Vec<CpuFeatures>, x: CpuFeatures)
    requires
        lists_sorted(old(out)@),
        x.wf(),
        forall|k: int| 0 <= k < old(out)@.len() ==> (#[trigger] old(out)@[k]).wf(),
    ensures
        lists_sorted(final(out)@),
        forall|k: int| 0 <= k < final(out)@.len() ==> (#[trigger] final(out)@[k]).wf(),
        forall|l: Seq<Seq<char>>|
            #[trigger] final(out).deep_view().contains(l) <==> old(out).deep_view().contains(l)
                || l == x@,
{
    let n = out.len();
    let mut p: usize = 0;
    while p < n
        invariant
            p <= n,
            n == out@.len(),
            out@ == old(out)@,
            forall|q: int| 0 <= q < p ==> featlist_lt(out@[q]@, x@),
        ensures
            p <= n,
            n == out@.len(),
            out@ == old(out)@,
            forall|q: int| 0 <= q < p ==> featlist_lt(out@[q]@, x@),
            p < n ==> !featlist_lt(out@[p as int]@, x@),
        decreases n - p,
    {
        if !out[p].feats_less(&x) {
            break;
        }
        p = p + 1;
    }
    if p < n && out[p].feats_same(&x) {
        proof {
            assert(out.deep_view()[p as int] == x@);
            assert forall|l: Seq<Seq<char>>|
                #[trigger] out.deep_view().contains(l) <==> old(out).deep_view().contains(l)
                    || l == x@ by {
                if l == x@ {
                    assert(out.deep_view()[p as int] == l);
                }
            }
        }
        return ;
    }
    proof {
        if p < n {
            lemma_featlist_lt_trichotomy(out@[p as int]@, x@);
            assert(featlist_lt(x@, out@[p as int]@));
            assert forall|q: int| p <= q < n implies featlist_lt(x@, out@[q]@) by {
                if q > p {
                    lemma_featlist_lt_transitive(x@, out@[p as int]@, out@[q]@);
                }
            }
        }
        assert forall|q: int| 0 <= q < p implies out@[q]@ != x@ by {
            lemma_featlist_lt_trichotomy(out@[q]@, x@);
        }
    }
    let ghost pre = out@;
    out.insert(p, x);
    proof {
        assert(out@ =~= pre.insert(p as int, x));
        assert(lists_sorted(out@)) by {
            assert forall|k1: int, k2: int|
                0 <= k1 < k2 < out@.len() implies featlist_lt(out@[k1]@, out@[k2]@) by {
                if k1 < p && k2 < p {
                } else if k1 < p && k2 == p {
                } else if k1 == p {
                    assert(out@[k2] == pre[k2 - 1]);
                } else if k1 < p && k2 > p {
                    assert(out@[k1] == pre[k1] && out@[k2] == pre[k2 - 1]);
                } else {
                    assert(out@[k1] == pre[k1 - 1] && out@[k2] == pre[k2 - 1]);
                }
            }
        }
        assert(old(out).deep_view() =~= views_of(pre));
        assert forall|l: Seq<Seq<char>>|
            #[trigger] out.deep_view().contains(l) <==> views_of(pre).contains(l) || l
                == x@ by {
            let predv = views_of(pre);
            let curdv = out.deep_view();
            if curdv.contains(l) {
                let k = choose|k: int| 0 <= k < curdv.len() && curdv[k] == l;
                if k < p {
                    assert(predv[k] == l);
                } else if k > p {
                    assert(out@[k] == pre[k - 1]);
                    assert(predv[k - 1] == l);
                } else {
                    assert(out@[p as int] == x);
                }
            }
            if predv.contains(l) {
                let k = choose|k: int| 0 <= k < predv.len() && predv[k] == l;
                if k < p {
                    assert(curdv[k] == l);
                } else {
                    assert(out@[k + 1] == pre[k]);
                    assert(curdv[k + 1] == l);
                }
            }
            if l == x@ {
                assert(out@[p as int] == x);
                assert(curdv[p as int] == l);
            }
        }
    }
}

/// No two entries name the same architecture.
pub open spec fn keys_unique(archs: Seq<(String, ArchConfig)>) -> bool {
    forall|i: int, j: int| #![trigger archs[i], archs[j]]
        0 <= i < j < archs.len() ==> archs[i].0@ != archs[j].0@
}

/// Whether some entry names this architecture.
pub open spec fn has_arch(archs: Seq<(String, ArchConfig)>, key: Seq<char>) -> bool {
    exists|t: int| 0 <= t < archs.len() && #[trigger] archs[t].0@ == key
}

/// The merge of the first `m` metadata entries: every merged entry is the
/// last input entry naming its architecture, and every input architecture
/// is present.
pub open spec fn entries_merged(
    entries: Seq<(String, ArchConfig)>,
    m: int,
    archs: Seq<(String, ArchConfig)>,
) -> bool {
    &&& forall|i: int| #![trigger archs[i]]
        0 <= i < archs.len() ==> exists|j: int|
            #![trigger entries[j]]
            0 <= j < m && entries[j] == archs[i] && (forall|j2: int|
                j < j2 < m ==> (#[trigger] entries[j2]).0@ != archs[i].0@)
    &&& forall|j: int| #![trigger entries[j]]
        0 <= j < m ==> has_arch(archs, entries[j].0@)
}

/// The multi-variant policy for one target: the target triple, its
/// architecture tag, and the per-architecture policies drawn from package
/// metadata and overrides.
pub struct ConfigMultiArch {
    /// The target triple the build is for.
    pub target_triple: String,
    /// The architecture portion of the triple, keying into the policies.
    pub target_arch: String,
    /// Per-architecture policies, keyed by architecture tag.
    pub archs: Vec<(String, ArchConfig)>,
}

impl ConfigMultiArch {
    pub open spec fn wf(&self) -> bool {
        keys_unique(self.archs@) && (forall|i: int|
            0 <= i < self.archs@.len() ==> (#[trigger] self.archs@[i]).1.wf())
    }

    /// A policy with no architecture configured.
    pub fn new(target_triple: String, target_arch: String) -> (r: Self)
        ensures
            r.wf(),
            r.target_triple == target_triple,
            r.target_arch == target_arch,
            r.archs@.len() == 0,
    {
        ConfigMultiArch { target_triple, target_arch, archs: Vec::new() }
    }

    /// Takes the per-architecture policies read from the package's
    /// metadata table; with several entries for one architecture the last
    /// wins. A package without the table leaves the policy empty.
    pub fn load_cargo_toml(self, entries: Vec<(String, ArchConfig)>) -> (r: Self)
        requires
            forall|j: int| 0 <= j < entries@.len() ==> (#[trigger] entries@[j]).1.wf(),
        ensures
            r.target_triple == self.target_triple,
            r.target_arch == self.target_arch,
            r.wf(),
            entries_merged(entries@, entries@.len() as int, r.archs@),
    {
        let ghost orig = entries@;
        let mut rest = entries;
        let mut archs: Vec<(String, ArchConfig)> = Vec::new();
        let ghost m: int = 0;
        while rest.len() > 0
            invariant
                0 <= m <= orig.len(),
                rest@ =~= orig.skip(m),
                keys_unique(archs@),
                forall|j: int| 0 <= j < orig.len() ==> (#[trigger] orig[j]).1.wf(),
                forall|i: int| 0 <= i < archs@.len() ==> (#[trigger] archs@[i]).1.wf(),
                entries_merged(orig, m, archs@),
            decreases rest@.len(),
        {
            let e = rest.remove(0);
            proof {
                assert(e == orig[m]);
                assert(rest@ =~= orig.skip(m + 1));
            }
            let n = archs.len();
            let mut p: usize = 0;
            while p < n
                invariant
                    p <= n,
                    n == archs@.len(),
                    forall|q: int| 0 <= q < p ==> archs@[q].0@ != e.0@,
                ensures
                    p <= n,
                    n == archs@.len(),
                    forall|q: int| 0 <= q < p ==> archs@[q].0@ != e.0@,
                    p < n ==> archs@[p as int].0@ == e.0@,
                decreases n - p,
            {
                if str_same(archs[p].0.as_str(), e.0.as_str()) {
                    break;
                }
                p = p + 1;
            }
            let ghost pre = archs@;
            let ghost ev = e;
            if p < n {
                archs.set(p, e);
            } else {
                archs.push(e);
            }
            proof {
                assert(p < pre.len() ==> archs@ =~= pre.update(p as int, ev));
                assert(p == pre.len() ==> archs@ =~= pre.push(ev));
                lemma_upsert_step(orig, pre, archs@, ev, m, p as int);
                m = m + 1;
            }
        }
        proof {
            assert(orig.skip(m).len() == 0);
            assert(m == orig.len());
            assert(entries_merged(entries@, entries@.len() as int, archs@));
        }
        ConfigMultiArch {
            target_triple: self.target_triple,
            target_arch: self.target_arch,
            archs,
        }
    }
}

/// Replacing the entry that names an architecture — or appending a new
/// one — keeps keys unique, keeps every entry well-formed, and merges one
/// more metadata entry.
#[verifier::spinoff_prover]
proof fn lemma_upsert_step(
    orig: Seq<(String, ArchConfig)>,
    pre: Seq<(String, ArchConfig)>,
    cur: Seq<(String, ArchConfig)>,
    e: (String, ArchConfig),
    m: int,
    p: int,
)
    requires
        0 <= m < orig.len(),
        e == orig[m],
        keys_unique(pre),
        entries_merged(orig, m, pre),
        forall|i: int| 0 <= i < pre.len() ==> (#[trigger] pre[i]).1.wf(),
        forall|j: int| 0 <= j < orig.len() ==> (#[trigger] orig[j]).1.wf(),
        0 <= p <= pre.len(),
        forall|q: int| 0 <= q < p ==> pre[q].0@ != e.0@,
        p < pre.len() ==> pre[p].0@ == e.0@ && cur =~= pre.update(p, e),
        p == pre.len() ==> cur =~= pre.push(e),
    ensures
        keys_unique(cur),
        forall|i: int| 0 <= i < cur.len() ==> (#[trigger] cur[i]).1.wf(),
        entries_merged(orig, m + 1, cur),
{
    if p < pre.len() {
        assert(keys_unique(cur)) by {
            assert forall|i: int, j: int| #![trigger cur[i], cur[j]]
                0 <= i < j < cur.len() implies cur[i].0@ != cur[j].0@ by {
                if i != p && j != p {
                    assert(cur[i] == pre[i] && cur[j] == pre[j]);
                } else if i == p {
                    assert(cur[j] == pre[j] && pre[p].0@ == e.0@);
                } else {
                    assert(cur[i] == pre[i] && pre[p].0@ == e.0@);
                }
            }
        }
        assert forall|i: int| #![trigger cur[i]]
            0 <= i < cur.len() implies exists|j: int|
            #![trigger orig[j]]
            0 <= j < m + 1 && orig[j] == cur[i] && (forall|j2: int|
                j < j2 < m + 1 ==> (#[trigger] orig[j2]).0@ != cur[i].0@) by {
            if i == p {
                assert(orig[m] == cur[i]);
            } else {
                assert(cur[i] == pre[i]);
                let j = choose|j: int|
                    #![trigger orig[j]]
                    0 <= j < m && orig[j] == pre[i] && (forall|j2: int|
                        j < j2 < m ==> (#[trigger] orig[j2]).0@ != pre[i].0@);
                assert(pre[i].0@ != pre[p].0@);
                assert(orig[m].0@ == e.0@);
                assert(orig[j] == cur[i]);
            }
        }
        assert forall|j: int| #![trigger orig[j]]
            0 <= j < m + 1 implies has_arch(cur, orig[j].0@) by {
            if j == m {
                assert(cur[p].0@ == orig[j].0@);
            } else {
                assert(has_arch(pre, orig[j].0@));
                let t = choose|t: int| 0 <= t < pre.len() && #[trigger] pre[t].0@ == orig[j].0@;
                if t == p {
                    assert(cur[t].0@ == e.0@ && pre[t].0@ == e.0@);
                } else {
                    assert(cur[t] == pre[t]);
                }
            }
        }
    } else {
        assert(keys_unique(cur)) by {
            assert forall|i: int, j: int| #![trigger cur[i], cur[j]]
                0 <= i < j < cur.len() implies cur[i].0@ != cur[j].0@ by {
                if j < pre.len() {
                    assert(cur[i] == pre[i] && cur[j] == pre[j]);
                } else {
                    assert(cur[i] == pre[i]);
                    assert(pre[i].0@ != e.0@);
                }
            }
        }
        assert forall|i: int| #![trigger cur[i]]
            0 <= i < cur.len() implies exists|j: int|
            #![trigger orig[j]]
            0 <= j < m + 1 && orig[j] == cur[i] && (forall|j2: int|
                j < j2 < m + 1 ==> (#[trigger] orig[j2]).0@ != cur[i].0@) by {
            if i == pre.len() {
                assert(orig[m] == cur[i]);
            } else {
                assert(cur[i] == pre[i]);
                let j = choose|j: int|
                    #![trigger orig[j]]
                    0 <= j < m && orig[j] == pre[i] && (forall|j2: int|
                        j < j2 < m ==> (#[trigger] orig[j2]).0@ != pre[i].0@);
                assert(orig[m].0@ == e.0@);
                assert(orig[j] == cur[i]);
            }
        }
        assert forall|j: int| #![trigger orig[j]]
            0 <= j < m + 1 implies has_arch(cur, orig[j].0@) by {
            if j == m {
                assert(cur[pre.len() as int].0@ == orig[j].0@);
            } else {
                assert(has_arch(pre, orig[j].0@));
                let t = choose|t: int| 0 <= t < pre.len() && #[trigger] pre[t].0@ == orig[j].0@;
                assert(cur[t] == pre[t]);
            }
        }
    }
}

/// Copies a list of strings; the copy holds the same values.
fn clone_strings(v: &Vec<String>) -> (r: Vec<String>)
    ensures
        r@ == v@,
{
    let mut r: Vec<String> = Vec::new();
    let n = v.len();
    let mut k: usize = 0;
    while k < n
        invariant
            k <= n,
            n == v@.len(),
            r@ =~= v@.take(k as int),
        decreases n - k,
    {
        r.push(v[k].clone());
        proof {
            assert(r@ =~= v@.take(k + 1));
        }
        k = k + 1;
    }
    proof {
        assert(v@.take(n as int) =~= v@);
    }
    r
}

/// Copies a slate of feature sets; the copy holds the same views.
fn clone_lists(v: &Vec<CpuFeatures>) -> (r: Vec<CpuFeatures>)
    ensures
        r@.len() == v@.len(),
        forall|k: int| 0 <= k < v@.len() ==> #[trigger] r@[k]@ == v@[k]@,
        r.deep_view() == v.deep_view(),
{
    let mut r: Vec<CpuFeatures> = Vec::new();
    let n = v.len();
    let mut k: usize = 0;
    while k < n
        invariant
            k <= n,
            n == v@.len(),
            r@.len() == k,
            forall|q: int| 0 <= q < k ==> #[trigger] r@[q]@ == v@[q]@,
        decreases n - k,
    {
        r.push(v[k].clone());
        k = k + 1;
    }
    proof {
        assert(r.deep_view() =~= v.deep_view());
    }
    r
}

impl ConfigMultiArch {
    /// The CPU model names configured for the current architecture; empty
    /// when none is configured. Each is to be expanded by a compiler query.
    pub fn cpus_for_current_arch(&self) -> (r: Vec<String>)
        requires
            self.wf(),
        ensures
            !has_arch(self.archs@, self.target_arch@) ==> r@.len() == 0,
            forall|t: int|
                0 <= t < self.archs@.len() && (#[trigger] self.archs@[t]).0@
                    == self.target_arch@ ==> r@ == self.archs@[t].1.cpus@,
    {
        let n = self.archs.len();
        let mut p: usize = 0;
        while p < n
            invariant
                p <= n,
                n == self.archs@.len(),
                self.wf(),
                forall|q: int| 0 <= q < p ==> (#[trigger] self.archs@[q]).0@ != self.target_arch@,
            decreases n - p,
        {
            if str_same(self.archs[p].0.as_str(), self.target_arch.as_str()) {
                let r = clone_strings(&self.archs[p].1.cpus);
                proof {
                    assert forall|t: int|
                        0 <= t < self.archs@.len() && (#[trigger] self.archs@[t]).0@
                            == self.target_arch@ implies r@ == self.archs@[t].1.cpus@ by {
                        if t != p {
                            assert(self.archs@[p as int].0@ == self.archs@[t].0@);
                            assert(false);
                        }
                    }
                }
                return r;
            }
            p = p + 1;
        }
        proof {
            if has_arch(self.archs@, self.target_arch@) {
                let t = choose|t: int|
                    0 <= t < self.archs@.len() && #[trigger] self.archs@[t].0@
                        == self.target_arch@;
                assert(false);
            }
        }
        Vec::new()
    }

    /// Applies the CLI CPU list: a non-empty list replaces the configured
    /// CPU models of the current architecture — creating its entry when
    /// none exists — while an empty list changes nothing.
    pub fn override_cpus(self, cpus: Vec<String>) -> (r: Self)
        requires
            self.wf(),
        ensures
            r.wf(),
            r.target_triple == self.target_triple,
            r.target_arch == self.target_arch,
            cpus@.len() == 0 ==> r == self,
            cpus@.len() > 0 && has_arch(self.archs@, self.target_arch@) ==> r.archs@.len()
                == self.archs@.len() && (forall|t: int|
                0 <= t < self.archs@.len() && (#[trigger] self.archs@[t]).0@
                    == self.target_arch@ ==> (forall|i: int|
                    0 <= i < r.archs@.len() && i != t ==> #[trigger] r.archs@[i]
                        == self.archs@[i]) && r.archs@[t].0@ == self.target_arch@
                    && canonical_set_of(r.archs@[t].1.cpus.deep_view(), cpus.deep_view())
                    && r.archs@[t].1.cpufeatures_lists.deep_view()
                    == self.archs@[t].1.cpufeatures_lists.deep_view()),
            cpus@.len() > 0 && !has_arch(self.archs@, self.target_arch@) ==> r.archs@.len()
                == self.archs@.len() + 1 && (forall|i: int|
                0 <= i < self.archs@.len() ==> #[trigger] r.archs@[i] == self.archs@[i])
                && r.archs@.last().0@ == self.target_arch@ && canonical_set_of(
                r.archs@.last().1.cpus.deep_view(),
                cpus.deep_view(),
            ) && r.archs@.last().1.cpufeatures_lists@.len() == 0,
    {
        if cpus.len() == 0 {
            return self;
        }
        let canon = CpuFeatures::from_iter(cpus);
        let mut me = self;
        let n = me.archs.len();
        let mut p: usize = 0;
        while p < n
            invariant
                p <= n,
                n == me.archs@.len(),
                me == self,
                forall|q: int| 0 <= q < p ==> (#[trigger] me.archs@[q]).0@ != me.target_arch@,
            ensures
                p <= n,
                n == me.archs@.len(),
                me == self,
                forall|q: int| 0 <= q < p ==> (#[trigger] me.archs@[q]).0@ != me.target_arch@,
                p < n ==> me.archs@[p as int].0@ == me.target_arch@,
            decreases n - p,
        {
            if str_same(me.archs[p].0.as_str(), me.target_arch.as_str()) {
                break;
            }
            p = p + 1;
        }
        let ghost pre = me.archs@;
        if p < n {
            let key = me.archs[p].0.clone();
            let kept = clone_lists(&me.archs[p].1.cpufeatures_lists);
            let cfg = ArchConfig { cpus: canon.tokens, cpufeatures_lists: kept };
            me.archs.set(p, (key, cfg));
            proof {
                assert(me.archs@[p as int].0@ == self.target_arch@);
                assert(keys_unique(me.archs@)) by {
                    assert forall|i: int, j: int| #![trigger me.archs@[i], me.archs@[j]]
                        0 <= i < j < me.archs@.len() implies me.archs@[i].0@
                        != me.archs@[j].0@ by {
                        if i != p && j != p {
                            assert(me.archs@[i] == pre[i] && me.archs@[j] == pre[j]);
                        } else if i == p {
                            assert(me.archs@[j] == pre[j] && pre[p as int].0@
                                == me.archs@[i].0@);
                        } else {
                            assert(me.archs@[i] == pre[i] && pre[p as int].0@
                                == me.archs@[j].0@);
                        }
                    }
                }
                assert forall|i: int|
                    0 <= i < me.archs@.len() implies (#[trigger] me.archs@[i]).1.wf() by {
                    if i != p {
                        assert(me.archs@[i] == pre[i]);
                    } else {
                        assert(lists_sorted(me.archs@[p as int].1.cpufeatures_lists@)) by {
                            assert forall|k1: int, k2: int|
                                0 <= k1 < k2
                                    < me.archs@[p as int].1.cpufeatures_lists@.len() implies featlist_lt(
                                me.archs@[p as int].1.cpufeatures_lists@[k1]@,
                                me.archs@[p as int].1.cpufeatures_lists@[k2]@,
                            ) by {
                                assert(me.archs@[p as int].1.cpufeatures_lists@[k1]@
                                    == pre[p as int].1.cpufeatures_lists@[k1]@);
                                assert(me.archs@[p as int].1.cpufeatures_lists@[k2]@
                                    == pre[p as int].1.cpufeatures_lists@[k2]@);
                            }
                        }
                        assert forall|k: int|
                            0 <= k < me.archs@[p as int].1.cpufeatures_lists@.len() implies (
                        #[trigger] me.archs@[p as int].1.cpufeatures_lists@[k]).wf() by {
                            assert(me.archs@[p as int].1.cpufeatures_lists@[k]@
                                == pre[p as int].1.cpufeatures_lists@[k]@);
                            assert(pre[p as int].1.cpufeatures_lists@[k].wf());
                        }
                    }
                }
                assert forall|t: int|
                    0 <= t < pre.len() && (#[trigger] pre[t]).0@ == self.target_arch@
                        implies t == p by {
                    if t != p {
                        assert(pre[p as int].0@ == pre[t].0@);
                        assert(false);
                    }
                }
            }
            return me;
        }
        let key2 = me.target_arch.clone();
        let cfg = ArchConfig { cpus: canon.tokens, cpufeatures_lists: Vec::new() };
        me.archs.push((key2, cfg));
        proof {
            assert(me.archs@.last().0@ == self.target_arch@);
            assert(!has_arch(pre, self.target_arch@)) by {
                if has_arch(pre, self.target_arch@) {
                    let t = choose|t: int|
                        0 <= t < pre.len() && #[trigger] pre[t].0@ == self.target_arch@;
                    assert(false);
                }
            }
            assert(keys_unique(me.archs@)) by {
                assert forall|i: int, j: int| #![trigger me.archs@[i], me.archs@[j]]
                    0 <= i < j < me.archs@.len() implies me.archs@[i].0@ != me.archs@[j].0@ by {
                    if j < pre.len() {
                        assert(me.archs@[i] == pre[i] && me.archs@[j] == pre[j]);
                    } else {
                        assert(me.archs@[i] == pre[i]);
                    }
                }
            }
            assert forall|i: int|
                0 <= i < me.archs@.len() implies (#[trigger] me.archs@[i]).1.wf() by {
                if i < pre.len() {
                    assert(me.archs@[i] == pre[i]);
                }
            }
        }
        me
    }

    /// Applies the CLI feature lists: a non-empty slate replaces the
    /// configured feature lists of the current architecture — creating its
    /// entry when none exists — while an empty slate changes nothing.
    pub fn override_features_lists(self, lists: Vec<CpuFeatures>) -> (r: Self)
        requires
            self.wf(),
            forall|k: int| 0 <= k < lists@.len() ==> (#[trigger] lists@[k]).wf(),
        ensures
            r.wf(),
            r.target_triple == self.target_triple,
            r.target_arch == self.target_arch,
            lists@.len() == 0 ==> r == self,
            lists@.len() > 0 && has_arch(self.archs@, self.target_arch@) ==> r.archs@.len()
                == self.archs@.len() && (forall|t: int|
                0 <= t < self.archs@.len() && (#[trigger] self.archs@[t]).0@
                    == self.target_arch@ ==> (forall|i: int|
                    0 <= i < r.archs@.len() && i != t ==> #[trigger] r.archs@[i]
                        == self.archs@[i]) && r.archs@[t].0@ == self.target_arch@
                    && r.archs@[t].1.cpus@ == self.archs@[t].1.cpus@ && (forall|
                    l: Seq<Seq<char>>,
                |
                    #[trigger] r.archs@[t].1.cpufeatures_lists.deep_view().contains(l)
                        <==> lists.deep_view().contains(l))),
            lists@.len() > 0 && !has_arch(self.archs@, self.target_arch@) ==> r.archs@.len()
                == self.archs@.len() + 1 && (forall|i: int|
                0 <= i < self.archs@.len() ==> #[trigger] r.archs@[i] == self.archs@[i])
                && r.archs@.last().0@ == self.target_arch@ && r.archs@.last().1.cpus@.len()
                == 0 && (forall|l: Seq<Seq<char>>|
                #[trigger] r.archs@.last().1.cpufeatures_lists.deep_view().contains(l)
                    <==> lists.deep_view().contains(l)),
    {
        if lists.len() == 0 {
            return self;
        }
        let cfg_src = ArchConfig::new(Vec::new(), lists);
        let canon_lists = cfg_src.cpufeatures_lists;
        let mut me = self;
        let n = me.archs.len();
        let mut p: usize = 0;
        while p < n
            invariant
                p <= n,
                n == me.archs@.len(),
                me == self,
                forall|q: int| 0 <= q < p ==> (#[trigger] me.archs@[q]).0@ != me.target_arch@,
            ensures
                p <= n,
                n == me.archs@.len(),
                me == self,
                forall|q: int| 0 <= q < p ==> (#[trigger] me.archs@[q]).0@ != me.target_arch@,
                p < n ==> me.archs@[p as int].0@ == me.target_arch@,
            decreases n - p,
        {
            if str_same(me.archs[p].0.as_str(), me.target_arch.as_str()) {
                break;
            }
            p = p + 1;
        }
        let ghost pre = me.archs@;
        if p < n {
            let key = me.archs[p].0.clone();
            let kept_cpus = clone_strings(&me.archs[p].1.cpus);
            let cfg = ArchConfig { cpus: kept_cpus, cpufeatures_lists: canon_lists };
            me.archs.set(p, (key, cfg));
            proof {
                assert(me.archs@[p as int].0@ == self.target_arch@);
                assert(keys_unique(me.archs@)) by {
                    assert forall|i: int, j: int| #![trigger me.archs@[i], me.archs@[j]]
                        0 <= i < j < me.archs@.len() implies me.archs@[i].0@
                        != me.archs@[j].0@ by {
                        if i != p && j != p {
                            assert(me.archs@[i] == pre[i] && me.archs@[j] == pre[j]);
                        } else if i == p {
                            assert(me.archs@[j] == pre[j] && pre[p as int].0@
                                == me.archs@[i].0@);
                        } else {
                            assert(me.archs@[i] == pre[i] && pre[p as int].0@
                                == me.archs@[j].0@);
                        }
                    }
                }
                assert forall|i: int|
                    0 <= i < me.archs@.len() implies (#[trigger] me.archs@[i]).1.wf() by {
                    if i != p {
                        assert(me.archs@[i] == pre[i]);
                    } else {
                        assert(tokens_sorted(pre[p as int].1.cpus.deep_view()));
                        assert(me.archs@[p as int].1.cpus.deep_view()
                            =~= pre[p as int].1.cpus.deep_view());
                    }
                }
                assert forall|t: int|
                    0 <= t < pre.len() && (#[trigger] pre[t]).0@ == self.target_arch@
                        implies t == p by {
                    if t != p {
                        assert(pre[p as int].0@ == pre[t].0@);
                        assert(false);
                    }
                }
            }
            return me;
        }
        let key2 = me.target_arch.clone();
        let cfg = ArchConfig { cpus: Vec::new(), cpufeatures_lists: canon_lists };
        me.archs.push((key2, cfg));
        proof {
            assert(me.archs@.last().0@ == self.target_arch@);
            assert(!has_arch(pre, self.target_arch@)) by {
                if has_arch(pre, self.target_arch@) {
                    let t = choose|t: int|
                        0 <= t < pre.len() && #[trigger] pre[t].0@ == self.target_arch@;
                    assert(false);
                }
            }
            assert(keys_unique(me.archs@)) by {
                assert forall|i: int, j: int| #![trigger me.archs@[i], me.archs@[j]]
                    0 <= i < j < me.archs@.len() implies me.archs@[i].0@ != me.archs@[j].0@ by {
                    if j < pre.len() {
                        assert(me.archs@[i] == pre[i] && me.archs@[j] == pre[j]);
                    } else {
                        assert(me.archs@[i] == pre[i]);
                    }
                }
            }
            assert forall|i: int|
                0 <= i < me.archs@.len() implies (#[trigger] me.archs@[i]).1.wf() by {
                if i < pre.len() {
                    assert(me.archs@[i] == pre[i]);
                }
            }
        }
        me
    }

    /// Unions the compiler expansions of the configured CPU models with the
    /// configured explicit lists into one canonical slate. The caller hands
    /// in one expansion per query it made; an architecture with no policy
    /// yields the empty slate.
    pub fn get_cpu_features(&self, expansions: &Vec<CpuFeatures>) -> (r: Vec<CpuFeatures>)
        requires
            self.wf(),
            forall|k: int| 0 <= k < expansions@.len() ==> (#[trigger] expansions@[k]).wf(),
        ensures
            lists_sorted(r@),
            forall|k: int| 0 <= k < r@.len() ==> (#[trigger] r@[k]).wf(),
            !has_arch(self.archs@, self.target_arch@) ==> r@.len() == 0,
            forall|t: int|
                0 <= t < self.archs@.len() && (#[trigger] self.archs@[t]).0@
                    == self.target_arch@ ==> (forall|l: Seq<Seq<char>>|
                    #[trigger] r.deep_view().contains(l) <==> expansions.deep_view().contains(
                        l,
                    ) || self.archs@[t].1.cpufeatures_lists.deep_view().contains(l)),
    {
        let n = self.archs.len();
        let mut p: usize = 0;
        while p < n
            invariant
                p <= n,
                n == self.archs@.len(),
                self.wf(),
                forall|q: int| 0 <= q < p ==> (#[trigger] self.archs@[q]).0@ != self.target_arch@,
            ensures
                p <= n,
                n == self.archs@.len(),
                forall|q: int| 0 <= q < p ==> (#[trigger] self.archs@[q]).0@ != self.target_arch@,
                p < n ==> self.archs@[p as int].0@ == self.target_arch@,
            decreases n - p,
        {
            if str_same(self.archs[p].0.as_str(), self.target_arch.as_str()) {
                break;
            }
            p = p + 1;
        }
        if p == n {
            proof {
                if has_arch(self.archs@, self.target_arch@) {
                    let t = choose|t: int|
                        0 <= t < self.archs@.len() && #[trigger] self.archs@[t].0@
                            == self.target_arch@;
                    assert(false);
                }
            }
            return Vec::new();
        }
        let mut out: Vec<CpuFeatures> = Vec::new();
        let ne = expansions.len();
        let mut k: usize = 0;
        while k < ne
            invariant
                k <= ne,
                ne == expansions@.len(),
                lists_sorted(out@),
                forall|q: int| 0 <= q < out@.len() ==> (#[trigger] out@[q]).wf(),
                forall|q: int| 0 <= q < ne ==> (#[trigger] expansions@[q]).wf(),
                forall|l: Seq<Seq<char>>|
                    #[trigger] out.deep_view().contains(l) <==> views_of(
                        expansions@.take(k as int),
                    ).contains(l),
            decreases ne - k,
        {
            let x = expansions[k].clone();
            insert_feats(&mut out, x);
            proof {
                let prev = views_of(expansions@.take(k as int));
                let cur = views_of(expansions@.take(k + 1));
                assert(cur =~= prev.push(expansions@[k as int]@));
                assert forall|l: Seq<Seq<char>>|
                    #[trigger] out.deep_view().contains(l) <==> cur.contains(l) by {
                    if prev.contains(l) {
                        let q = choose|q: int| 0 <= q < prev.len() && prev[q] == l;
                        assert(cur[q] == l);
                    }
                    if l == expansions@[k as int]@ {
                        assert(cur[k as int] == l);
                    }
                    if cur.contains(l) {
                        let q = choose|q: int| 0 <= q < cur.len() && cur[q] == l;
                        if q < k {
                            assert(prev[q] == l);
                        }
                    }
                }
            }
            k = k + 1;
        }
        proof {
            assert(expansions@.take(ne as int) =~= expansions@);
            assert(views_of(expansions@) =~= expansions.deep_view());
        }
        let nl = self.archs[p].1.cpufeatures_lists.len();
        let mut k2: usize = 0;
        while k2 < nl
            invariant
                k2 <= nl,
                p < self.archs@.len(),
                nl == self.archs@[p as int].1.cpufeatures_lists@.len(),
                self.wf(),
                lists_sorted(out@),
                forall|q: int| 0 <= q < out@.len() ==> (#[trigger] out@[q]).wf(),
                forall|l: Seq<Seq<char>>|
                    #[trigger] out.deep_view().contains(l) <==> expansions.deep_view().contains(
                        l,
                    ) || views_of(
                        self.archs@[p as int].1.cpufeatures_lists@.take(k2 as int),
                    ).contains(l),
            decreases nl - k2,
        {
            let ghost lseq = self.archs@[p as int].1.cpufeatures_lists@;
            let x = self.archs[p].1.cpufeatures_lists[k2].clone();
            insert_feats(&mut out, x);
            proof {
                let prev = views_of(lseq.take(k2 as int));
                let cur = views_of(lseq.take(k2 + 1));
                assert(cur =~= prev.push(lseq[k2 as int]@));
                assert forall|l: Seq<Seq<char>>|
                    #[trigger] out.deep_view().contains(l) <==> expansions.deep_view().contains(
                        l,
                    ) || cur.contains(l) by {
                    if prev.contains(l) {
                        let q = choose|q: int| 0 <= q < prev.len() && prev[q] == l;
                        assert(cur[q] == l);
                    }
                    if l == lseq[k2 as int]@ {
                        assert(cur[k2 as int] == l);
                    }
                    if cur.contains(l) {
                        let q = choose|q: int| 0 <= q < cur.len() && cur[q] == l;
                        if q < k2 {
                            assert(prev[q] == l);
                        }
                    }
                }
            }
            k2 = k2 + 1;
        }
        proof {
            let lseq = self.archs@[p as int].1.cpufeatures_lists@;
            assert(lseq.take(nl as int) =~= lseq);
            assert(views_of(lseq) =~= self.archs@[p as int].1.cpufeatures_lists.deep_view());
            assert forall|t: int|
                0 <= t < self.archs@.len() && (#[trigger] self.archs@[t]).0@
                    == self.target_arch@ implies t == p by {
                if t != p {
                    assert(self.archs@[p as int].0@ == self.archs@[t].0@);
                    assert(false);
                }
            }
        }
        out
    }

    /// Resolves the final slate of variants: the union of CPU-model
    /// expansions and explicit lists. An empty slate — nothing configured
    /// for this architecture — is an error.
    pub fn resolve_variants(&self, expansions: &Vec<CpuFeatures>) -> (r: Result<
        Vec<CpuFeatures>,
        ConfigError,
    >)
        requires
            self.wf(),
            forall|k: int| 0 <= k < expansions@.len() ==> (#[trigger] expansions@[k]).wf(),
        ensures
            r matches Ok(v) ==> v@.len() > 0 && lists_sorted(v@) && (forall|k: int|
                0 <= k < v@.len() ==> (#[trigger] v@[k]).wf()) && (forall|t: int|
                0 <= t < self.archs@.len() && (#[trigger] self.archs@[t]).0@
                    == self.target_arch@ ==> (forall|l: Seq<Seq<char>>|
                    #[trigger] v.deep_view().contains(l) <==> expansions.deep_view().contains(
                        l,
                    ) || self.archs@[t].1.cpufeatures_lists.deep_view().contains(l))),
            r is Err ==> (!has_arch(self.archs@, self.target_arch@) || (expansions@.len() == 0
                && (forall|t: int|
                0 <= t < self.archs@.len() && (#[trigger] self.archs@[t]).0@
                    == self.target_arch@
                    ==> self.archs@[t].1.cpufeatures_lists@.len() == 0))),
            r is Err <== !has_arch(self.archs@, self.target_arch@),
            r is Err <== expansions@.len() == 0 && (forall|t: int|
                0 <= t < self.archs@.len() && (#[trigger] self.archs@[t]).0@
                    == self.target_arch@
                    ==> self.archs@[t].1.cpufeatures_lists@.len() == 0),
    {
        let out = self.get_cpu_features(expansions);
        if out.len() > 0 {
            proof {
                if !has_arch(self.archs@, self.target_arch@) {
                    assert(out@.len() == 0);
                    assert(false);
                }
                if expansions@.len() == 0 && (forall|t: int|
                    0 <= t < self.archs@.len() && (#[trigger] self.archs@[t]).0@
                        == self.target_arch@
                        ==> self.archs@[t].1.cpufeatures_lists@.len() == 0) {
                    let t = choose|t: int|
                        0 <= t < self.archs@.len() && #[trigger] self.archs@[t].0@
                            == self.target_arch@;
                    assert(out.deep_view()[0] == out@[0]@);
                    assert(out.deep_view().contains(out@[0]@));
                    let ls = self.archs@[t].1.cpufeatures_lists;
                    if expansions.deep_view().contains(out@[0]@) {
                        let q = choose|q: int|
                            0 <= q < expansions.deep_view().len() && expansions.deep_view()[q]
                                == out@[0]@;
                        assert(false);
                    }
                    if ls.deep_view().contains(out@[0]@) {
                        let q = choose|q: int|
                            0 <= q < ls.deep_view().len() && ls.deep_view()[q] == out@[0]@;
                        assert(false);
                    }
                    assert(false);
                }
            }
            return Ok(out);
        }
        if out.len() == 0 {
            proof {
                if has_arch(self.archs@, self.target_arch@) {
                    let t = choose|t: int|
                        0 <= t < self.archs@.len() && #[trigger] self.archs@[t].0@
                            == self.target_arch@;
                    if expansions@.len() > 0 {
                        assert(expansions.deep_view()[0] == expansions@[0]@);
                        assert(out.deep_view().contains(expansions@[0]@));
                        assert(false);
                    }
                    assert forall|t2: int|
                        0 <= t2 < self.archs@.len() && (#[trigger] self.archs@[t2]).0@
                            == self.target_arch@
                            implies self.archs@[t2].1.cpufeatures_lists@.len() == 0 by {
                        let ls = self.archs@[t2].1.cpufeatures_lists;
                        if ls@.len() > 0 {
                            assert(ls.deep_view()[0] == ls@[0]@);
                            assert(out.deep_view().contains(ls@[0]@));
                            assert(false);
                        }
                    }
                }
            }
            return Err(ConfigError::NoVariants);
        }
        Ok(out)
    }
}

} // verus!
