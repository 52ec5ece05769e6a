//! Built variants and the artifact manifest.
//!
//! Each compiled variant is recorded with the path of its copy, its feature
//! set, the basename the compiler chose, and the SHA-256 digest of its
//! bytes. Before packing, variants whose bytes match another's are dropped;
//! the survivor of a digest is always one with the fewest declared features,
//! so a variant that could serve as the fallback is never discarded for a
//! higher-specificity duplicate.

use vstd::prelude::*;
use vstd::pervasive::VecAdditionalExecFns;

use crate::codec::{sha256, sha256_of};
use crate::features::CpuFeatures;
use crate::order::{
    bytes_less, bytes_lt, bytes_same, lemma_bytes_lt_transitive, lemma_bytes_lt_trichotomy,
};

verus! {

/// One compiled variant of the user's package.
pub struct BuiltVariant {
    /// Where the stable copy of the executable lies.
    pub path: String,
    /// The feature set the variant was built for; empty for the fallback.
    pub cpufeatures: CpuFeatures,
    /// The basename the compiler gave the executable, when one was seen.
    pub original_filename: Option<String>,
    /// The SHA-256 digest of the executable's bytes.
    pub digest: Vec<u8>,
}

impl BuiltVariant {
    pub open spec fn wf(&self) -> bool {
        self.cpufeatures.wf() && self.digest@.len() == 32
    }

    /// Records a compiled variant, digesting its bytes.
    pub fn describe(
        path: String,
        cpufeatures: CpuFeatures,
        original_filename: Option<String>,
        bytes: &[u8],
    ) -> (r: BuiltVariant)
        requires
            cpufeatures.wf(),
        ensures
            r.wf(),
            r.path == path,
            r.cpufeatures == cpufeatures,
            r.original_filename == original_filename,
            r.digest@ == sha256_of(bytes@),
    {
        let digest = sha256(bytes);
        BuiltVariant { path, cpufeatures, original_filename, digest }
    }
}

/// The two records describe the same variant: all fields agree as values.
pub open spec fn variant_like(a: BuiltVariant, b: BuiltVariant) -> bool {
    &&& a.path@ == b.path@
    &&& a.cpufeatures@ == b.cpufeatures@
    &&& a.original_filename.deep_view() == b.original_filename.deep_view()
    &&& a.digest@ == b.digest@
}

impl Clone for BuiltVariant {
    fn clone(&self) -> (r: Self)
        ensures
            variant_like(*self, r),
    {
        let path = self.path.clone();
        let cpufeatures = self.cpufeatures.clone();
        let original_filename = self.original_filename.clone();
        let digest = vstd::slice::slice_to_vec(self.digest.as_slice());
        proof {
            if self.original_filename.is_some() {
                assert(cloned::<String>(
                    self.original_filename.unwrap(),
                    original_filename.unwrap(),
                ));
            }
        }
        BuiltVariant { path, cpufeatures, original_filename, digest }
    }
}

/// Sorted strictly ascending by digest: no two entries share one.
pub open spec fn digests_sorted(vs: Seq<BuiltVariant>) -> bool {
    forall|k1: int, k2: int|
        0 <= k1 < k2 < vs.len() ==> bytes_lt(vs[k1].digest@, vs[k2].digest@)
}

/// `x` is the canonical survivor of its digest class among the first `m`
/// inputs: it describes the first input whose declared feature count is
/// minimal among all of them sharing its digest.
#[verifier::opaque]
pub open spec fn canonical_rep(vs: Seq<BuiltVariant>, m: int, x: BuiltVariant) -> bool {
    exists|j: int|
        #![trigger vs[j]]
        0 <= j < m && variant_like(vs[j], x) && (forall|j2: int|
            0 <= j2 < m && (#[trigger] vs[j2]).digest@ == x.digest@ ==> x.cpufeatures@.len()
                <= vs[j2].cpufeatures@.len()) && (forall|j2: int|
            0 <= j2 < j && (#[trigger] vs[j2]).digest@ == x.digest@ ==> x.cpufeatures@.len()
                < vs[j2].cpufeatures@.len())
}

/// Two canonical survivors of one digest class describe the same record:
/// deduplication settles on one survivor per digest, whatever ties the
/// inputs hold.
pub proof fn lemma_dedup_survivor_unique(
    vs: Seq<BuiltVariant>,
    m: int,
    x1: BuiltVariant,
    x2: BuiltVariant,
)
    requires
        canonical_rep(vs, m, x1),
        canonical_rep(vs, m, x2),
        x1.digest@ == x2.digest@,
    ensures
        variant_like(x1, x2),
{
    reveal(canonical_rep);
    let j1 = choose|j: int|
        #![trigger vs[j]]
        0 <= j < m && variant_like(vs[j], x1) && (forall|j2: int|
            0 <= j2 < m && (#[trigger] vs[j2]).digest@ == x1.digest@ ==> x1.cpufeatures@.len()
                <= vs[j2].cpufeatures@.len()) && (forall|j2: int|
            0 <= j2 < j && (#[trigger] vs[j2]).digest@ == x1.digest@ ==> x1.cpufeatures@.len()
                < vs[j2].cpufeatures@.len());
    let j2 = choose|j: int|
        #![trigger vs[j]]
        0 <= j < m && variant_like(vs[j], x2) && (forall|j2: int|
            0 <= j2 < m && (#[trigger] vs[j2]).digest@ == x2.digest@ ==> x2.cpufeatures@.len()
                <= vs[j2].cpufeatures@.len()) && (forall|j2: int|
            0 <= j2 < j && (#[trigger] vs[j2]).digest@ == x2.digest@ ==> x2.cpufeatures@.len()
                < vs[j2].cpufeatures@.len());
    assert(vs[j1].digest@ == x2.digest@);
    assert(vs[j2].digest@ == x1.digest@);
    if j1 < j2 {
        assert(x2.cpufeatures@.len() < vs[j1].cpufeatures@.len());
        assert(x1.cpufeatures@.len() <= vs[j2].cpufeatures@.len());
        assert(false);
    } else if j2 < j1 {
        assert(x1.cpufeatures@.len() < vs[j2].cpufeatures@.len());
        assert(x2.cpufeatures@.len() <= vs[j1].cpufeatures@.len());
        assert(false);
    }
}

/// Unpacks a canonical survivor: the input index it describes.
proof fn lemma_canonical_unpack(vs: Seq<BuiltVariant>, m: int, x: BuiltVariant) -> (j: int)
    requires
        canonical_rep(vs, m, x),
    ensures
        0 <= j < m,
        variant_like(vs[j], x),
{
    reveal(canonical_rep);
    choose|j: int|
        #![trigger vs[j]]
        0 <= j < m && variant_like(vs[j], x) && (forall|j2: int|
            0 <= j2 < m && (#[trigger] vs[j2]).digest@ == x.digest@ ==> x.cpufeatures@.len()
                <= vs[j2].cpufeatures@.len()) && (forall|j2: int|
            0 <= j2 < j && (#[trigger] vs[j2]).digest@ == x.digest@ ==> x.cpufeatures@.len()
                < vs[j2].cpufeatures@.len())
}

/// Unpacks a coverage fact: the index of the record carrying the digest.
proof fn lemma_covered_unpack(list: Seq<BuiltVariant>, x: BuiltVariant) -> (k: int)
    requires
        covered_in(list, x),
    ensures
        0 <= k < list.len(),
        list[k].digest@ == x.digest@,
        list[k].cpufeatures@.len() <= x.cpufeatures@.len(),
{
    reveal(covered_in);
    choose|k: int|
        0 <= k < list.len() && list[k].digest@ == x.digest@ && list[k].cpufeatures@.len()
            <= x.cpufeatures@.len()
}

/// Aligns two deduplicated manifests index by index: both are strictly
/// digest-sorted and drawn from the same inputs, so past any prefix on
/// which their digests agree they keep agreeing, and they end together.
#[verifier::spinoff_prover]
proof fn lemma_dedup_digests_align(
    vs: Seq<BuiltVariant>,
    r1: Seq<BuiltVariant>,
    r2: Seq<BuiltVariant>,
    k: int,
)
    requires
        digests_sorted(r1),
        digests_sorted(r2),
        forall|i: int| #![trigger r1[i]]
            0 <= i < r1.len() ==> canonical_rep(vs, vs.len() as int, r1[i]),
        forall|i: int| #![trigger r2[i]]
            0 <= i < r2.len() ==> canonical_rep(vs, vs.len() as int, r2[i]),
        forall|j: int| #![trigger vs[j]] 0 <= j < vs.len() ==> covered_in(r1, vs[j]),
        forall|j: int| #![trigger vs[j]] 0 <= j < vs.len() ==> covered_in(r2, vs[j]),
        0 <= k <= r1.len(),
        k <= r2.len(),
        forall|i: int| 0 <= i < k ==> (#[trigger] r1[i]).digest@ == r2[i].digest@,
    ensures
        r1.len() == r2.len(),
        forall|i: int| 0 <= i < r1.len() ==> (#[trigger] r1[i]).digest@ == r2[i].digest@,
    decreases r1.len() - k,
{
    if k == r1.len() && k == r2.len() {
    } else if k == r1.len() {
        // r2 still has an entry; its digest stems from some input, which
        // r1 also covers — inside the shared prefix, where r2 already
        // carries that digest once.
        let j = lemma_canonical_unpack(vs, vs.len() as int, r2[k]);
        let k1 = lemma_covered_unpack(r1, vs[j]);
        assert(r2[k1].digest@ == r2[k].digest@);
        lemma_bytes_lt_trichotomy(r2[k1].digest@, r2[k].digest@);
        assert(false);
    } else if k == r2.len() {
        let j = lemma_canonical_unpack(vs, vs.len() as int, r1[k]);
        let k2 = lemma_covered_unpack(r2, vs[j]);
        assert(r1[k2].digest@ == r1[k].digest@);
        lemma_bytes_lt_trichotomy(r1[k2].digest@, r1[k].digest@);
        assert(false);
    } else {
        // Both lists go on. Each list carries the other's next digest at
        // or past position k, so by sortedness the two next digests bound
        // each other and must be one digest.
        let j1 = lemma_canonical_unpack(vs, vs.len() as int, r1[k]);
        let k2 = lemma_covered_unpack(r2, vs[j1]);
        assert(r2[k2].digest@ == r1[k].digest@);
        if k2 < k {
            assert(r1[k2].digest@ == r2[k2].digest@);
            lemma_bytes_lt_trichotomy(r1[k2].digest@, r1[k].digest@);
            assert(false);
        }
        let j2 = lemma_canonical_unpack(vs, vs.len() as int, r2[k]);
        let k1 = lemma_covered_unpack(r1, vs[j2]);
        assert(r1[k1].digest@ == r2[k].digest@);
        if k1 < k {
            assert(r1[k1].digest@ == r2[k1].digest@);
            lemma_bytes_lt_trichotomy(r2[k1].digest@, r2[k].digest@);
            assert(false);
        }
        assert(r1[k].digest@ == r2[k].digest@) by {
            if k2 > k {
                assert(bytes_lt(r2[k].digest@, r2[k2].digest@));
            }
            if k1 > k {
                assert(bytes_lt(r1[k].digest@, r1[k1].digest@));
            }
            lemma_bytes_lt_trichotomy(r1[k].digest@, r2[k].digest@);
        }
        lemma_dedup_digests_align(vs, r1, r2, k + 1);
    }
}

/// Deduplication is a function of its input: any two manifests satisfying
/// its contract over the same variants hold the same records in the same
/// order. With the packer pinned as a function of the manifest, a re-run
/// of the verified pipeline over the same compiler outputs packs the same
/// image.
pub proof fn lemma_dedup_deterministic(
    vs: Seq<BuiltVariant>,
    r1: Seq<BuiltVariant>,
    r2: Seq<BuiltVariant>,
)
    requires
        digests_sorted(r1),
        digests_sorted(r2),
        forall|i: int| #![trigger r1[i]]
            0 <= i < r1.len() ==> canonical_rep(vs, vs.len() as int, r1[i]),
        forall|i: int| #![trigger r2[i]]
            0 <= i < r2.len() ==> canonical_rep(vs, vs.len() as int, r2[i]),
        forall|j: int| #![trigger vs[j]] 0 <= j < vs.len() ==> covered_in(r1, vs[j]),
        forall|j: int| #![trigger vs[j]] 0 <= j < vs.len() ==> covered_in(r2, vs[j]),
    ensures
        r1.len() == r2.len(),
        forall|i: int| 0 <= i < r1.len() ==> variant_like(#[trigger] r1[i], r2[i]),
{
    lemma_dedup_digests_align(vs, r1, r2, 0);
    assert forall|i: int| 0 <= i < r1.len() implies variant_like(
        #[trigger] r1[i],
        r2[i],
    ) by {
        lemma_dedup_survivor_unique(vs, vs.len() as int, r1[i], r2[i]);
    }
}

/// Some record in the list carries this digest while declaring no more
/// features.
#[verifier::opaque]
pub open spec fn covered_in(list: Seq<BuiltVariant>, x: BuiltVariant) -> bool {
    exists|k: int|
        0 <= k < list.len() && list[k].digest@ == x.digest@ && list[k].cpufeatures@.len()
            <= x.cpufeatures@.len()
}

/// The merged list resolves one old record against the new one: the new
/// record stands in its place when it shares the digest and declares
/// strictly fewer features; otherwise the old record stays.
#[verifier::opaque]
pub open spec fn pinned_in(cur: Seq<BuiltVariant>, old_rec: BuiltVariant, v: BuiltVariant) -> bool {
    exists|k: int|
        #![trigger cur[k]]
        0 <= k < cur.len() && (if v.digest@ == old_rec.digest@ && v.cpufeatures@.len()
            < old_rec.cpufeatures@.len() {
            cur[k] == v
        } else {
            cur[k] == old_rec
        })
}

/// Folds one variant into a digest-sorted list: a new digest is inserted in
/// order; a digest already present keeps whichever record declares fewer
/// features.
#[verifier::rlimit(100)]
#[verifier::spinoff_prover]
fn merge_variant(out: &mut Vec<BuiltVariant>, v: BuiltVariant)
    requires
        digests_sorted(old(out)@),
    ensures
        digests_sorted(final(out)@),
        forall|k: int| #![trigger final(out)@[k]]
            0 <= k < final(out)@.len() ==> old(out)@.contains(final(out)@[k]) || final(out)@[k]
                == v,
        forall|q: int| #![trigger old(out)@[q]]
            0 <= q < old(out)@.len() ==> covered_in(final(out)@, old(out)@[q]),
        covered_in(final(out)@, v),
        forall|q: int| #![trigger old(out)@[q]]
            0 <= q < old(out)@.len() ==> pinned_in(final(out)@, old(out)@[q], v),
{
    let olen = out.len();
    let mut p: usize = 0;
    while p < olen
        invariant
            p <= olen,
            olen == out@.len(),
            out@ == old(out)@,
            forall|q: int| 0 <= q < p ==> bytes_lt(out@[q].digest@, v.digest@),
        ensures
            p <= olen,
            olen == out@.len(),
            out@ == old(out)@,
            forall|q: int| 0 <= q < p ==> bytes_lt(out@[q].digest@, v.digest@),
            p < olen ==> !bytes_lt(out@[p as int].digest@, v.digest@),
        decreases olen - p,
    {
        if !bytes_less(&out[p].digest, &v.digest) {
            break;
        }
        p = p + 1;
    }
    let ghost pre = out@;
    if p < olen && bytes_same(&out[p].digest, &v.digest) {
        if v.cpufeatures.len() < out[p].cpufeatures.len() {
            out.set(p, v);
            proof {
                reveal(covered_in);
                assert(out@[p as int].digest@ == pre[p as int].digest@);
                assert forall|k1: int, k2: int|
                    0 <= k1 < k2 < out@.len() implies bytes_lt(
                    out@[k1].digest@,
                    out@[k2].digest@,
                ) by {
                    assert(out@[k1].digest@ == pre[k1].digest@);
                    assert(out@[k2].digest@ == pre[k2].digest@);
                }
                assert forall|q: int| #![trigger pre[q]]
                    0 <= q < pre.len() implies covered_in(out@, pre[q]) by {
                    if q == p {
                        assert(out@[p as int].digest@ == pre[q].digest@);
                        assert(out@[p as int].cpufeatures@.len() <= pre[q].cpufeatures@.len());
                    } else {
                        assert(out@[q] == pre[q]);
                    }
                }
                assert(covered_in(out@, v)) by {
                    assert(out@[p as int].digest@ == v.digest@
                        && out@[p as int].cpufeatures@.len() <= v.cpufeatures@.len());
                }
                assert forall|k: int| #![trigger out@[k]]
                    0 <= k < out@.len() implies pre.contains(out@[k]) || out@[k] == v by {
                    if k != p {
                        assert(out@[k] == pre[k]);
                    }
                }
                assert forall|q: int| #![trigger pre[q]]
                    0 <= q < pre.len() implies pinned_in(out@, pre[q], v) by {
                    reveal(pinned_in);
                    if q == p {
                        assert(out@[p as int] == v);
                    } else {
                        assert(pre[q].digest@ != v.digest@) by {
                            if q < p {
                                lemma_bytes_lt_trichotomy(
                                    pre[q].digest@,
                                    pre[p as int].digest@,
                                );
                            } else {
                                lemma_bytes_lt_trichotomy(
                                    pre[p as int].digest@,
                                    pre[q].digest@,
                                );
                            }
                        }
                        assert(out@[q] == pre[q]);
                    }
                }
            }
        } else {
            proof {
                reveal(covered_in);
                assert forall|q: int| #![trigger pre[q]]
                    0 <= q < pre.len() implies covered_in(out@, pre[q]) by {
                    assert(out@[q] == pre[q]);
                }
                assert(covered_in(out@, v)) by {
                    assert(out@[p as int].digest@ == v.digest@
                        && out@[p as int].cpufeatures@.len() <= v.cpufeatures@.len());
                }
                assert forall|k: int| #![trigger out@[k]]
                    0 <= k < out@.len() implies pre.contains(out@[k]) || out@[k] == v by {
                    assert(out@[k] == pre[k]);
                }
                assert forall|q: int| #![trigger pre[q]]
                    0 <= q < pre.len() implies pinned_in(out@, pre[q], v) by {
                    reveal(pinned_in);
                    if q != p {
                        assert(pre[q].digest@ != v.digest@) by {
                            if q < p {
                                lemma_bytes_lt_trichotomy(
                                    pre[q].digest@,
                                    pre[p as int].digest@,
                                );
                            } else {
                                lemma_bytes_lt_trichotomy(
                                    pre[p as int].digest@,
                                    pre[q].digest@,
                                );
                            }
                        }
                    }
                    assert(out@[q] == pre[q]);
                }
            }
        }
    } else {
        proof {
            if p < olen {
                lemma_bytes_lt_trichotomy(pre[p as int].digest@, v.digest@);
                assert(bytes_lt(v.digest@, pre[p as int].digest@));
                assert forall|q: int| p <= q < olen implies bytes_lt(
                    v.digest@,
                    pre[q].digest@,
                ) by {
                    if q > p {
                        lemma_bytes_lt_transitive(
                            v.digest@,
                            pre[p as int].digest@,
                            pre[q].digest@,
                        );
                    }
                }
            }
        }
        out.insert(p, v);
        proof {
            reveal(covered_in);
            assert(out@ =~= pre.insert(p as int, v));
            assert forall|k1: int, k2: int|
                0 <= k1 < k2 < out@.len() implies bytes_lt(
                out@[k1].digest@,
                out@[k2].digest@,
            ) by {
                if k1 < p && k2 < p {
                } else if k1 < p && k2 == p {
                } else if k1 == p {
                    assert(out@[k2] == pre[k2 - 1]);
                } else if k1 < p && k2 > p {
                    assert(out@[k1] == pre[k1] && out@[k2] == pre[k2 - 1]);
                } else {
                    assert(out@[k1] == pre[k1 - 1] && out@[k2] == pre[k2 - 1]);
                }
            }
            assert forall|k: int| #![trigger out@[k]]
                0 <= k < out@.len() implies pre.contains(out@[k]) || out@[k] == v by {
                if k < p {
                    assert(out@[k] == pre[k]);
                } else if k > p {
                    assert(out@[k] == pre[k - 1]);
                }
            }
            assert forall|q: int| #![trigger pre[q]]
                0 <= q < pre.len() implies covered_in(out@, pre[q]) by {
                if q < p {
                    assert(out@[q] == pre[q]);
                } else {
                    assert(out@[q + 1] == pre[q]);
                }
            }
            assert(covered_in(out@, v)) by {
                assert(out@[p as int] == v);
            }
            assert forall|q: int| #![trigger pre[q]]
                0 <= q < pre.len() implies pinned_in(out@, pre[q], v) by {
                reveal(pinned_in);
                assert(pre[q].digest@ != v.digest@) by {
                    if q < p {
                        lemma_bytes_lt_trichotomy(pre[q].digest@, v.digest@);
                    } else {
                        lemma_bytes_lt_trichotomy(v.digest@, pre[q].digest@);
                    }
                }
                if q < p {
                    assert(out@[q] == pre[q]);
                } else {
                    assert(out@[q + 1] == pre[q]);
                }
            }
        }
    }
}

/// One folding step keeps the manifest invariants: every record is still
/// the canonical survivor of its digest class among the inputs seen so
/// far, and every input seen so far stays covered.
#[verifier::rlimit(100)]
#[verifier::spinoff_prover]
proof fn lemma_dedup_step(
    vs: Seq<BuiltVariant>,
    pre: Seq<BuiltVariant>,
    cur: Seq<BuiltVariant>,
    v: BuiltVariant,
    m: int,
)
    requires
        0 <= m < vs.len(),
        variant_like(vs[m], v),
        digests_sorted(cur),
        forall|k: int| #![trigger pre[k]]
            0 <= k < pre.len() ==> canonical_rep(vs, m, pre[k]),
        forall|j: int| #![trigger vs[j]] 0 <= j < m ==> covered_in(pre, vs[j]),
        forall|k: int| #![trigger cur[k]]
            0 <= k < cur.len() ==> pre.contains(cur[k]) || cur[k] == v,
        forall|q: int| #![trigger pre[q]] 0 <= q < pre.len() ==> covered_in(cur, pre[q]),
        covered_in(cur, v),
        forall|q: int| #![trigger pre[q]]
            0 <= q < pre.len() ==> pinned_in(cur, pre[q], v),
    ensures
        forall|k: int| #![trigger cur[k]]
            0 <= k < cur.len() ==> canonical_rep(vs, m + 1, cur[k]),
        forall|j: int| #![trigger vs[j]] 0 <= j < m + 1 ==> covered_in(cur, vs[j]),
{
    assert forall|k: int| #![trigger cur[k]]
        0 <= k < cur.len() implies canonical_rep(vs, m + 1, cur[k]) by {
        reveal(canonical_rep);
        reveal(covered_in);
        if pre.contains(cur[k]) {
            let q = choose|q: int| 0 <= q < pre.len() && pre[q] == cur[k];
            let j = choose|j: int|
                #![trigger vs[j]]
                0 <= j < m && variant_like(vs[j], pre[q]) && (forall|j2: int|
                    0 <= j2 < m && (#[trigger] vs[j2]).digest@ == pre[q].digest@
                        ==> pre[q].cpufeatures@.len() <= vs[j2].cpufeatures@.len()) && (
                forall|j2: int|
                    0 <= j2 < j && (#[trigger] vs[j2]).digest@ == pre[q].digest@
                        ==> pre[q].cpufeatures@.len() < vs[j2].cpufeatures@.len());
            if vs[m].digest@ == cur[k].digest@ {
                // The new input shares this digest; were it strictly
                // smaller, the survivor would be the new record, not this
                // one: two records of one digest cannot both stay.
                if v.cpufeatures@.len() < pre[q].cpufeatures@.len() {
                    assert(pinned_in(cur, pre[q], v));
                    reveal(pinned_in);
                    let k2 = choose|k2: int|
                        #![trigger cur[k2]]
                        0 <= k2 < cur.len() && (if v.digest@ == pre[q].digest@
                            && v.cpufeatures@.len() < pre[q].cpufeatures@.len() {
                            cur[k2] == v
                        } else {
                            cur[k2] == pre[q]
                        });
                    assert(cur[k2] == v);
                    if k < k2 {
                        lemma_bytes_lt_trichotomy(cur[k].digest@, cur[k2].digest@);
                    } else if k2 < k {
                        lemma_bytes_lt_trichotomy(cur[k2].digest@, cur[k].digest@);
                    }
                    assert(false);
                }
            }
            assert(canonical_rep(vs, m + 1, cur[k])) by {
                assert(0 <= j < m + 1 && variant_like(vs[j], cur[k]));
                assert forall|j2: int|
                    0 <= j2 < m + 1 && (#[trigger] vs[j2]).digest@ == cur[k].digest@
                        implies cur[k].cpufeatures@.len() <= vs[j2].cpufeatures@.len() by {
                    if j2 == m {
                        assert(!(v.cpufeatures@.len() < pre[q].cpufeatures@.len()));
                    }
                }
            }
        } else {
            assert(cur[k] == v);
            assert forall|j2: int|
                0 <= j2 < m && (#[trigger] vs[j2]).digest@ == cur[k].digest@
                    implies cur[k].cpufeatures@.len() < vs[j2].cpufeatures@.len() by {
                assert(covered_in(pre, vs[j2]));
                let q = choose|q: int|
                    0 <= q < pre.len() && pre[q].digest@ == vs[j2].digest@
                        && pre[q].cpufeatures@.len() <= vs[j2].cpufeatures@.len();
                if v.cpufeatures@.len() < pre[q].cpufeatures@.len() {
                } else {
                    // The survivor of this digest class is the old record,
                    // so the new one cannot be in the list — yet it is.
                    assert(pinned_in(cur, pre[q], v));
                    reveal(pinned_in);
                    let k2 = choose|k2: int|
                        #![trigger cur[k2]]
                        0 <= k2 < cur.len() && (if v.digest@ == pre[q].digest@
                            && v.cpufeatures@.len() < pre[q].cpufeatures@.len() {
                            cur[k2] == v
                        } else {
                            cur[k2] == pre[q]
                        });
                    assert(cur[k2] == pre[q]);
                    if k < k2 {
                        lemma_bytes_lt_trichotomy(cur[k].digest@, cur[k2].digest@);
                    } else if k2 < k {
                        lemma_bytes_lt_trichotomy(cur[k2].digest@, cur[k].digest@);
                    }
                    assert(cur[k] == pre[q]);
                    assert(pre.contains(cur[k]));
                    assert(false);
                }
            }
            assert(canonical_rep(vs, m + 1, cur[k])) by {
                assert(0 <= m < m + 1 && variant_like(vs[m], cur[k]));
            }
        }
    }
    assert forall|j: int| #![trigger vs[j]]
        0 <= j < m + 1 implies covered_in(cur, vs[j]) by {
        reveal(covered_in);
        if j == m {
            let k = choose|k: int|
                0 <= k < cur.len() && cur[k].digest@ == v.digest@ && cur[k].cpufeatures@.len()
                    <= v.cpufeatures@.len();
            assert(cur[k].digest@ == vs[j].digest@ && cur[k].cpufeatures@.len()
                <= vs[j].cpufeatures@.len());
        } else {
            assert(covered_in(pre, vs[j]));
            let q = choose|q: int|
                0 <= q < pre.len() && pre[q].digest@ == vs[j].digest@
                    && pre[q].cpufeatures@.len() <= vs[j].cpufeatures@.len();
            assert(covered_in(cur, pre[q]));
            let k = choose|k: int|
                0 <= k < cur.len() && cur[k].digest@ == pre[q].digest@
                    && cur[k].cpufeatures@.len() <= pre[q].cpufeatures@.len();
            assert(cur[k].digest@ == vs[j].digest@ && cur[k].cpufeatures@.len()
                <= vs[j].cpufeatures@.len());
        }
    }
}

/// Drops duplicate outputs: of all variants sharing a content digest the
/// survivor is pinned — the first input with the fewest declared features.
/// The result is ordered by digest, and covers every input digest.
#[verifier::spinoff_prover]
pub fn dedup_variants(vs: Vec<BuiltVariant>) -> (r: Vec<BuiltVariant>)
    ensures
        digests_sorted(r@),
        forall|k1: int, k2: int| #![trigger r@[k1], r@[k2]]
            0 <= k1 < k2 < r@.len() ==> r@[k1].digest@ != r@[k2].digest@,
        forall|k: int| #![trigger r@[k]]
            0 <= k < r@.len() ==> canonical_rep(vs@, vs@.len() as int, r@[k]),
        forall|j: int| #![trigger vs@[j]] 0 <= j < vs@.len() ==> covered_in(r@, vs@[j]),
{
    let n = vs.len();
    let mut out: Vec<BuiltVariant> = Vec::new();
    let mut m: usize = 0;
    while m < n
        invariant
            m <= n,
            n == vs@.len(),
            digests_sorted(out@),
            forall|k: int| #![trigger out@[k]]
                0 <= k < out@.len() ==> canonical_rep(vs@, m as int, out@[k]),
            forall|j: int| #![trigger vs@[j]] 0 <= j < m ==> covered_in(out@, vs@[j]),
        decreases n - m,
    {
        let v = vs[m].clone();
        let ghost vv = v;
        let ghost pre = out@;
        merge_variant(&mut out, v);
        proof {
            lemma_dedup_step(vs@, pre, out@, vv, m as int);
        }
        m = m + 1;
    }
    proof {
        assert forall|k1: int, k2: int| #![trigger out@[k1], out@[k2]]
            0 <= k1 < k2 < out@.len() implies out@[k1].digest@ != out@[k2].digest@ by {
            lemma_bytes_lt_trichotomy(out@[k1].digest@, out@[k2].digest@);
        }
    }
    out
}

} // verus!
