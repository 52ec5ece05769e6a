//! The patch/pack builder.
//!
//! Takes the deduplicated variants with their bytes, orders them by
//! declared feature count (largest first, manifest order within equal
//! counts), takes the last — the one with the fewest features — as the
//! fallback, compresses it, and stores every other variant as a binary
//! delta against it. The resulting image depends on nothing but the input,
//! so re-runs over the same variants produce the same image.

use vstd::prelude::*;

use crate::codec::{bsdiff_diff, bsdiff_of, patch_header_valid, zstd_compress, zstd_of, PackError};
use crate::dispatch::FatBin;
use crate::features::CpuFeatures;

verus! {

/// One variant entering the packer: its feature set and the bytes of its
/// executable.
pub struct VariantBytes {
    pub cpufeatures: CpuFeatures,
    pub bytes: Vec<u8>,
}

/// Inserts a variant after every entry declaring at least as many features:
/// the insertion step of a stable sort, descending by feature count.
pub open spec fn insert_by_count(s: Seq<VariantBytes>, x: VariantBytes) -> Seq<VariantBytes>
    decreases s.len(),
{
    if s.len() == 0 {
        seq![x]
    } else if s[0].cpufeatures@.len() >= x.cpufeatures@.len() {
        seq![s[0]] + insert_by_count(s.skip(1), x)
    } else {
        seq![x] + s
    }
}

/// The packer's ordering: descending by feature count, manifest order kept
/// within equal counts.
pub open spec fn order_by_count(s: Seq<VariantBytes>) -> Seq<VariantBytes>
    decreases s.len(),
{
    if s.len() == 0 {
        Seq::empty()
    } else {
        insert_by_count(order_by_count(s.drop_last()), s.last())
    }
}

/// Descending by declared feature count.
pub open spec fn counts_descending(s: Seq<VariantBytes>) -> bool {
    forall|k1: int, k2: int|
        0 <= k1 < k2 < s.len() ==> s[k1].cpufeatures@.len() >= s[k2].cpufeatures@.len()
}

proof fn lemma_insert_by_count_at(s: Seq<VariantBytes>, x: VariantBytes, p: int)
    requires
        0 <= p <= s.len(),
        forall|q: int| 0 <= q < p ==> s[q].cpufeatures@.len() >= x.cpufeatures@.len(),
        p < s.len() ==> s[p].cpufeatures@.len() < x.cpufeatures@.len(),
    ensures
        insert_by_count(s, x) =~= s.insert(p, x),
    decreases p,
{
    if p == 0 {
        assert(insert_by_count(s, x) =~= s.insert(0, x));
    } else {
        lemma_insert_by_count_at(s.skip(1), x, p - 1);
        assert(insert_by_count(s, x) =~= seq![s[0]] + s.skip(1).insert(p - 1, x));
        assert(seq![s[0]] + s.skip(1).insert(p - 1, x) =~= s.insert(p, x));
    }
}

/// Whatever the ordering produced holds an element of the input.
proof fn lemma_insert_by_count_membership(s: Seq<VariantBytes>, x: VariantBytes, y: VariantBytes)
    requires
        insert_by_count(s, x).contains(y),
    ensures
        s.contains(y) || y == x,
    decreases s.len(),
{
    if s.len() == 0 {
    } else if s[0].cpufeatures@.len() >= x.cpufeatures@.len() {
        let t = seq![s[0]] + insert_by_count(s.skip(1), x);
        let i = choose|i: int| 0 <= i < t.len() && t[i] == y;
        if i == 0 {
            assert(s[0] == y);
        } else {
            assert(insert_by_count(s.skip(1), x)[i - 1] == y);
            lemma_insert_by_count_membership(s.skip(1), x, y);
            if s.skip(1).contains(y) {
                let j = choose|j: int| 0 <= j < s.skip(1).len() && s.skip(1)[j] == y;
                assert(s[j + 1] == y);
            }
        }
    } else {
        let t = seq![x] + s;
        let i = choose|i: int| 0 <= i < t.len() && t[i] == y;
        if i > 0 {
            assert(s[i - 1] == y);
        }
    }
}

proof fn lemma_order_by_count_membership(s: Seq<VariantBytes>, y: VariantBytes)
    requires
        order_by_count(s).contains(y),
    ensures
        s.contains(y),
    decreases s.len(),
{
    if s.len() == 0 {
    } else {
        lemma_insert_by_count_membership(order_by_count(s.drop_last()), s.last(), y);
        if order_by_count(s.drop_last()).contains(y) {
            lemma_order_by_count_membership(s.drop_last(), y);
            let j = choose|j: int| 0 <= j < s.drop_last().len() && s.drop_last()[j] == y;
            assert(s[j] == y);
        } else {
            assert(s.last() == y);
        }
    }
}

/// Sorts the variants as the packer orders them: descending by feature
/// count, stable within equal counts.
pub fn sort_by_features(vs: Vec<VariantBytes>) -> (r: Vec<VariantBytes>)
    ensures
        r@ == order_by_count(vs@),
        counts_descending(r@),
{
    let ghost orig = vs@;
    let mut rest = vs;
    let mut out: Vec<VariantBytes> = Vec::new();
    let ghost m: int = 0;
    while rest.len() > 0
        invariant
            0 <= m <= orig.len(),
            rest@ =~= orig.skip(m),
            out@ == order_by_count(orig.take(m)),
            counts_descending(out@),
        decreases rest@.len(),
    {
        let x = rest.remove(0);
        proof {
            assert(x == orig[m]);
            assert(rest@ =~= orig.skip(m + 1));
        }
        let olen = out.len();
        let mut p: usize = 0;
        while p < olen
            invariant
                p <= olen,
                olen == out@.len(),
                forall|q: int|
                    0 <= q < p ==> out@[q].cpufeatures@.len() >= x.cpufeatures@.len(),
            ensures
                p <= olen,
                olen == out@.len(),
                forall|q: int|
                    0 <= q < p ==> out@[q].cpufeatures@.len() >= x.cpufeatures@.len(),
                p < olen ==> out@[p as int].cpufeatures@.len() < x.cpufeatures@.len(),
            decreases olen - p,
        {
            if out[p].cpufeatures.len() < x.cpufeatures.len() {
                break;
            }
            p = p + 1;
        }
        let ghost pre = out@;
        out.insert(p, x);
        proof {
            lemma_insert_by_count_at(pre, x, p as int);
            assert(out@ =~= pre.insert(p as int, x));
            assert(out@ =~= insert_by_count(pre, x));
            let cur = orig.take(m + 1);
            assert(cur.drop_last() =~= orig.take(m));
            assert(cur.last() == orig[m]);
            assert(out@ == order_by_count(cur));
            assert(counts_descending(out@)) by {
                assert forall|k1: int, k2: int|
                    0 <= k1 < k2 < out@.len() implies out@[k1].cpufeatures@.len()
                    >= out@[k2].cpufeatures@.len() by {
                    if k1 < p && k2 == p {
                    } else if k1 == p {
                        assert(out@[k2] == pre[k2 - 1]);
                    } else if k1 < p && k2 > p {
                        assert(out@[k1] == pre[k1] && out@[k2] == pre[k2 - 1]);
                    } else if k1 > p {
                        assert(out@[k1] == pre[k1 - 1] && out@[k2] == pre[k2 - 1]);
                    }
                }
            }
            m = m + 1;
        }
    }
    proof {
        assert(orig.take(m) =~= orig);
    }
    out
}

/// What the packer emits for the given variants: nothing at all for an
/// empty slate; otherwise the compressed fallback — the last entry in
/// packing order — and one (features, delta) pair per remaining variant,
/// in packing order.
pub open spec fn is_packed_image(vs: Seq<VariantBytes>, img: FatBin) -> bool {
    let ordered = order_by_count(vs);
    if ordered.len() == 0 {
        img.default_exe@.len() == 0 && img.patches_features_lists@.len() == 0
            && img.patches@.len() == 0
    } else {
        let fb = ordered.last();
        &&& img.default_exe@ == zstd_of(fb.bytes@)
        &&& img.default_exe@.len() > 0
        &&& img.patches_features_lists@.len() == ordered.len() - 1
        &&& img.patches@.len() == ordered.len() - 1
        &&& forall|k: int|
            0 <= k < ordered.len() - 1 ==> #[trigger] img.lists()[k]
                == ordered[k].cpufeatures@
        &&& forall|k: int|
            0 <= k < ordered.len() - 1 ==> #[trigger] img.patches@[k]@ == bsdiff_of(
                fb.bytes@,
                ordered[k].bytes@,
            ) && patch_header_valid(img.patches@[k]@)
    }
}

/// Packs the variants into a fat-binary image. The image is a function of
/// the variants alone and packing into memory never fails; an empty slate
/// yields the empty image, which the packer's caller reports as a warning.
pub fn build_fatbin(vs: Vec<VariantBytes>) -> (r: Result<FatBin, PackError>)
    requires
        forall|k: int| 0 <= k < vs@.len() ==> #[trigger] vs@[k].bytes@.len() <= 0x7fff_ffff,
    ensures
        r is Ok,
        r matches Ok(img) ==> is_packed_image(vs@, img) && img.wf(),
{
    let ghost origv = vs@;
    let mut ordered = sort_by_features(vs);
    proof {
        if origv.len() == 0 {
            assert(order_by_count(origv).len() == 0);
        }
    }
    if ordered.len() == 0 {
        let img = FatBin {
            default_exe: Vec::new(),
            patches_features_lists: Vec::new(),
            patches: Vec::new(),
        };
        proof {
            assert(order_by_count(origv).len() == 0);
            assert(img.default_exe@.len() == 0);
            assert(img.patches_features_lists@.len() == 0);
            assert(img.patches@.len() == 0);
        }
        return Ok(img);
    }
    let ghost osorted = ordered@;
    let fb = match ordered.pop() {
        Some(v) => v,
        None => {
            proof {
                assert(false);
            }
            return Err(PackError::Compress);
        },
    };
    proof {
        assert(fb == osorted.last());
        assert(osorted.contains(fb));
        lemma_order_by_count_membership(origv, fb);
        let j = choose|j: int| 0 <= j < origv.len() && origv[j] == fb;
        assert(origv[j].bytes@.len() <= 0x7fff_ffff);
    }
    let default_exe = match zstd_compress(fb.bytes.as_slice()) {
        Ok(v) => v,
        Err(e) => {
            proof {
                assert(false);
            }
            return Err(e);
        },
    };
    let n = ordered.len();
    proof {
        assert(ordered@ =~= osorted.drop_last());
    }
    let mut lists: Vec<CpuFeatures> = Vec::new();
    let mut patches: Vec<Vec<u8>> = Vec::new();
    let mut k: usize = 0;
    while k < n
        invariant
            k <= n,
            n == ordered@.len(),
            vs@ == origv,
            origv.len() > 0,
            ordered@ == osorted.drop_last(),
            osorted.len() == n + 1,
            fb == osorted.last(),
            fb.bytes@.len() <= 0x7fff_ffff,
            lists@.len() == k,
            patches@.len() == k,
            forall|q: int|
                0 <= q < k ==> #[trigger] lists.deep_view()[q] == osorted[q].cpufeatures@,
            forall|q: int|
                0 <= q < k ==> #[trigger] patches@[q]@ == bsdiff_of(
                    fb.bytes@,
                    osorted[q].bytes@,
                ) && patch_header_valid(patches@[q]@),
        decreases n - k,
    {
        let patch = match bsdiff_diff(
            fb.bytes.as_slice(),
            ordered[k].bytes.as_slice(),
        ) {
            Ok(p) => p,
            Err(e) => {
                proof {
                    assert(false);
                }
                return Err(e);
            },
        };
        let c = ordered[k].cpufeatures.clone();
        let ghost pre_dv = lists.deep_view();
        lists.push(c);
        patches.push(patch);
        proof {
            assert forall|q: int| 0 <= q < k + 1 implies #[trigger] lists.deep_view()[q]
                == osorted[q].cpufeatures@ by {
                if q < k {
                    assert(lists.deep_view()[q] == pre_dv[q]);
                } else {
                    assert(lists@[k as int] == c);
                    assert(lists.deep_view()[q] == c@);
                    assert(ordered@[k as int] == osorted[q]);
                }
            }
        }
        k = k + 1;
    }
    let img = FatBin { default_exe, patches_features_lists: lists, patches };
    proof {
        assert(order_by_count(origv) == osorted);
        assert forall|q: int| 0 <= q < osorted.len() - 1 implies #[trigger] img.lists()[q]
            == osorted[q].cpufeatures@ by {
            assert(img.lists()[q] == lists.deep_view()[q]);
        }
    }
    Ok(img)
}

/// A fat binary packed from a single variant carries that variant as its
/// fallback and nothing else: no entries to rank, a non-empty compressed
/// fallback, and a frame the dispatcher can decompress — exactly the
/// premises under which dispatch always chooses none and succeeds.
pub proof fn lemma_fallback_only_image_launches(vs: Seq<VariantBytes>, img: FatBin)
    requires
        is_packed_image(vs, img),
        order_by_count(vs).len() == 1,
    ensures
        img.lists().len() == 0,
        img.patches@.len() == 0,
        img.default_exe@.len() > 0,
        exists|a: Seq<u8>| img.default_exe@ == zstd_of(a),
{
    let fb = order_by_count(vs).last();
    assert(img.default_exe@ == zstd_of(fb.bytes@));
}

/// Re-running the packer over the same variants gives the same image: the
/// fallback frame, the feature lists, and the deltas all agree.
pub proof fn lemma_pack_deterministic(vs: Seq<VariantBytes>, img1: FatBin, img2: FatBin)
    requires
        is_packed_image(vs, img1),
        is_packed_image(vs, img2),
    ensures
        img1.default_exe@ == img2.default_exe@,
        img1.lists() =~= img2.lists(),
        img1.patches@.len() == img2.patches@.len(),
        forall|k: int|
            0 <= k < img1.patches@.len() ==> #[trigger] img1.patches@[k]@ == img2.patches@[k]@,
{
    if order_by_count(vs).len() == 0 {
        assert(img1.lists() =~= img2.lists());
        assert(img1.default_exe@ =~= img2.default_exe@);
    }
}

} // verus!
