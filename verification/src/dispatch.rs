//! The runtime core of the fat binary.
//!
//! A `FatBin` holds the compressed fallback executable and, for every other
//! variant, its feature list and a binary delta against the fallback. Given
//! the host's CPU features, the dispatcher keeps the variants the host can
//! run, ranks them, and rebuilds the winner's bytes.

use vstd::prelude::*;
use vstd::string::{StrSliceExecFns, StringExecFns};

use crate::codec::{
    bsdiff_of, patch_header_valid, reconstruct_variant, zstd_decompress, zstd_of, UnpackError,
};
use crate::features::CpuFeatures;
use crate::order::str_same;
use crate::rank::{get_top_ranked, score_le, score_lt, score_of};

verus! {

/// Every token of `xs` occurs in `ys`.
pub open spec fn tokens_subset(xs: Seq<Seq<char>>, ys: Seq<Seq<char>>) -> bool {
    forall|k: int| 0 <= k < xs.len() ==> ys.contains(xs[k])
}

/// Whether the list of strings holds one with the given characters.
pub fn list_contains(hay: &Vec<String>, needle: &str) -> (r: bool)
    ensures
        r == hay.deep_view().contains(needle@),
{
    let n = hay.len();
    let mut i: usize = 0;
    while i < n
        invariant
            i <= n,
            n == hay@.len(),
            forall|k: int| 0 <= k < i ==> hay.deep_view()[k] != needle@,
        decreases n - i,
    {
        if str_same(hay[i].as_str(), needle) {
            proof {
                assert(hay.deep_view()[i as int] == needle@);
            }
            return true;
        }
        i = i + 1;
    }
    proof {
        if hay.deep_view().contains(needle@) {
            let k = choose|k: int|
                0 <= k < hay.deep_view().len() && hay.deep_view()[k] == needle@;
            assert(false);
        }
    }
    false
}

/// Whether the host supports every token of the feature set.
pub fn is_supported(fs: &CpuFeatures, host: &Vec<String>) -> (r: bool)
    ensures
        r == tokens_subset(fs@, host.deep_view()),
{
    let n = fs.tokens.len();
    let mut i: usize = 0;
    while i < n
        invariant
            i <= n,
            n == fs@.len(),
            forall|k: int| 0 <= k < i ==> host.deep_view().contains(fs@[k]),
        decreases n - i,
    {
        if !list_contains(host, fs.tokens[i].as_str()) {
            proof {
                assert(fs@[i as int] == fs.tokens[i as int]@);
            }
            return false;
        }
        i = i + 1;
    }
    true
}

/// A failure of the runtime dispatcher.
#[derive(Clone, Copy, Debug, PartialEq, Eq, Structural)]
pub enum DispatchError {
    /// The image holds no variant at all.
    EmptyImage,
    /// The chosen variant could not be rebuilt.
    Unpack(UnpackError),
}

impl DispatchError {
    /// The sysexit class of the failure: software error for an empty image,
    /// IO error for a failed reconstruction.
    pub open spec fn spec_exit_code(&self) -> u8 {
        match self {
            DispatchError::EmptyImage => 70,
            DispatchError::Unpack(_) => 74,
        }
    }

    /// The sysexit-style process exit code for this failure.
    pub fn exit_code(&self) -> (r: u8)
        ensures
            r == self.spec_exit_code(),
    {
        match self {
            DispatchError::EmptyImage => 70,
            DispatchError::Unpack(_) => 74,
        }
    }
}

/// The embedded image: compressed fallback plus (features, delta) entries,
/// ordered by declared feature count, largest first.
pub struct FatBin {
    /// The zstd-compressed fallback executable; empty when the image holds
    /// no variant at all.
    pub default_exe: Vec<u8>,
    /// The feature list of each non-fallback variant.
    pub patches_features_lists: Vec<CpuFeatures>,
    /// The delta of each non-fallback variant against the fallback, in
    /// matching order.
    pub patches: Vec<Vec<u8>>,
}

/// The patch rebuilds some variant when applied against this fallback.
pub open spec fn delta_of(patch: Seq<u8>, fallback: Seq<u8>) -> bool {
    exists|b: Seq<u8>| patch == bsdiff_of(fallback, b)
}

/// The id the dispatcher settles on: the earliest entry the host supports
/// whose score no other supported entry exceeds, or none when the host
/// supports no entry.
pub open spec fn is_best_choice(
    lists: Seq<Seq<Seq<char>>>,
    host: Seq<Seq<char>>,
    id: Option<usize>,
) -> bool {
    match id {
        None => forall|j: int| 0 <= j < lists.len() ==> !tokens_subset(lists[j], host),
        Some(i) => i < lists.len() && tokens_subset(lists[i as int], host) && (forall|j: int|
            0 <= j < lists.len() && tokens_subset(lists[j], host) ==> score_le(
                score_of(lists[j]),
                score_of(lists[i as int]),
            )) && (forall|j: int|
            0 <= j < i && tokens_subset(lists[j], host) ==> score_lt(
                score_of(lists[j]),
                score_of(lists[i as int]),
            )),
    }
}

/// For one image and one host the dispatcher settles on one choice:
/// ranking is deterministic given identical host features.
pub proof fn lemma_best_choice_unique(
    lists: Seq<Seq<Seq<char>>>,
    host: Seq<Seq<char>>,
    id1: Option<usize>,
    id2: Option<usize>,
)
    requires
        is_best_choice(lists, host, id1),
        is_best_choice(lists, host, id2),
    ensures
        id1 == id2,
{
    match (id1, id2) {
        (Some(i1), Some(i2)) => {
            if i1 < i2 {
                assert(score_lt(score_of(lists[i1 as int]), score_of(lists[i2 as int])));
                assert(score_le(score_of(lists[i2 as int]), score_of(lists[i1 as int])));
                assert(false);
            } else if i2 < i1 {
                assert(score_lt(score_of(lists[i2 as int]), score_of(lists[i1 as int])));
                assert(score_le(score_of(lists[i1 as int]), score_of(lists[i2 as int])));
                assert(false);
            }
        },
        (Some(i1), None) => {
            assert(!tokens_subset(lists[i1 as int], host));
            assert(false);
        },
        (None, Some(i2)) => {
            assert(!tokens_subset(lists[i2 as int], host));
            assert(false);
        },
        (None, None) => {},
    }
}

/// Joins tokens with underscores: `avx_avx2`.
pub open spec fn underscore_join(ts: Seq<Seq<char>>) -> Seq<char>
    decreases ts.len(),
{
    if ts.len() == 0 {
        Seq::empty()
    } else if ts.len() == 1 {
        ts[0]
    } else {
        underscore_join(ts.drop_last()) + seq!['_'] + ts.last()
    }
}

/// The diagnostic name of the launched variant: the prefix (argv\[0\]),
/// an underscore, then the joined feature tokens, or `generic` for the
/// fallback.
pub open spec fn flavor_name_of(prefix: Seq<char>, feats: Option<Seq<Seq<char>>>) -> Seq<
    char,
> {
    match feats {
        Some(ts) => prefix + seq!['_'] + underscore_join(ts),
        None => prefix + seq!['_'] + "generic"@,
    }
}

/// Builds the diagnostic name of a variant.
pub fn flavor_name(prefix: &str, feats: Option<&CpuFeatures>) -> (r: String)
    ensures
        feats matches Some(f) ==> r@ == flavor_name_of(prefix@, Some(f@)),
        feats is None ==> r@ == flavor_name_of(prefix@, None::<Seq<Seq<char>>>),
{
    let mut out = prefix.to_owned();
    proof {
        reveal_strlit("_");
        reveal_strlit("generic");
    }
    out.append("_");
    match feats {
        None => {
            out.append("generic");
            out
        },
        Some(f) => {
            let n = f.tokens.len();
            let mut i: usize = 0;
            while i < n
                invariant
                    i <= n,
                    n == f@.len(),
                    out@ == prefix@ + seq!['_'] + underscore_join(f@.take(i as int)),
                decreases n - i,
            {
                proof {
                    reveal_strlit("_");
                }
                if i > 0 {
                    out.append("_");
                }
                out.append(f.tokens[i].as_str());
                proof {
                    let cur = f@.take(i + 1);
                    assert(cur.drop_last() =~= f@.take(i as int));
                    assert(cur.last() == f@[i as int]);
                    assert(out@ =~= prefix@ + seq!['_'] + underscore_join(cur));
                }
                i = i + 1;
            }
            proof {
                assert(f@.take(n as int) =~= f@);
            }
            out
        },
    }
}

impl FatBin {
    /// Feature lists and patches pair up one to one.
    pub open spec fn wf(&self) -> bool {
        self.patches_features_lists@.len() == self.patches@.len()
    }

    /// The feature lists of the entries, as views.
    pub open spec fn lists(&self) -> Seq<Seq<Seq<char>>> {
        self.patches_features_lists.deep_view()
    }

    /// The host can run entry `j`.
    pub open spec fn supported_entry(&self, host: Seq<Seq<char>>, j: int) -> bool {
        tokens_subset(self.lists()[j], host)
    }

    /// The feature lists of the entries, in image order.
    pub fn get_features_lists(&self) -> (r: &Vec<CpuFeatures>)
        ensures
            r.deep_view() == self.lists(),
    {
        &self.patches_features_lists
    }

    /// Keeps the entries the host can run, with their image indices,
    /// in image order.
    pub fn get_supported_binaries(&self, host: &Vec<String>) -> (r: (
        Vec<usize>,
        Vec<CpuFeatures>,
    ))
        ensures
            r.0@.len() == r.1@.len(),
            forall|k: int|
                0 <= k < r.0@.len() ==> r.0@[k] < self.lists().len() && r.1@[k]@
                    == self.lists()[r.0@[k] as int] && self.supported_entry(
                    host.deep_view(),
                    r.0@[k] as int,
                ),
            forall|k1: int, k2: int| 0 <= k1 < k2 < r.0@.len() ==> r.0@[k1] < r.0@[k2],
            forall|j: int|
                0 <= j < self.lists().len() && self.supported_entry(host.deep_view(), j)
                    ==> exists|k: int| 0 <= k < r.0@.len() && r.0@[k] as int == j,
    {
        let n = self.patches_features_lists.len();
        let mut indices: Vec<usize> = Vec::new();
        let mut feats: Vec<CpuFeatures> = Vec::new();
        let mut i: usize = 0;
        while i < n
            invariant
                i <= n,
                n == self.lists().len(),
                indices@.len() == feats@.len(),
                forall|k: int|
                    0 <= k < indices@.len() ==> indices@[k] < i && feats@[k]@
                        == self.lists()[indices@[k] as int] && self.supported_entry(
                        host.deep_view(),
                        indices@[k] as int,
                    ),
                forall|k1: int, k2: int|
                    0 <= k1 < k2 < indices@.len() ==> indices@[k1] < indices@[k2],
                forall|j: int|
                    0 <= j < i && self.supported_entry(host.deep_view(), j) ==> exists|k: int|
                        0 <= k < indices@.len() && indices@[k] as int == j,
            decreases n - i,
        {
            let ghost pre = indices@;
            if is_supported(&self.patches_features_lists[i], host) {
                indices.push(i);
                feats.push(self.patches_features_lists[i].clone());
            }
            proof {
                assert forall|j: int|
                    0 <= j < i + 1 && self.supported_entry(host.deep_view(), j)
                    implies exists|k: int|
                    0 <= k < indices@.len() && indices@[k] as int == j by {
                    if j < i {
                        let k = choose|k: int| 0 <= k < pre.len() && pre[k] as int == j;
                        assert(indices@[k] as int == j);
                    } else {
                        assert(indices@[pre.len() as int] as int == i);
                    }
                }
            }
            i = i + 1;
        }
        (indices, feats)
    }

    /// The index of the best variant for this host, or none when the host
    /// supports no entry; the chosen entry's features are all present on
    /// the host.
    pub fn get_best_flavor_id(&self, host: &Vec<String>) -> (r: Option<usize>)
        ensures
            is_best_choice(self.lists(), host.deep_view(), r),
    {
        let (indices, feat_lists) = self.get_supported_binaries(host);
        let ghost hostv = host.deep_view();
        if indices.len() == 0 {
            proof {
                assert forall|j: int|
                    0 <= j < self.lists().len() implies !tokens_subset(
                    self.lists()[j],
                    hostv,
                ) by {
                    if self.supported_entry(hostv, j) {
                        let k = choose|k: int|
                            0 <= k < indices@.len() && indices@[k] as int == j;
                        assert(false);
                    }
                }
            }
            return None;
        }
        match get_top_ranked(&feat_lists) {
            Some(t) => {
                let i = indices[t];
                proof {
                    let lists = self.lists();
                    assert(feat_lists@[t as int]@ == lists[i as int]);
                    assert forall|j: int|
                        0 <= j < lists.len() && tokens_subset(lists[j], hostv) implies score_le(
                        score_of(lists[j]),
                        score_of(lists[i as int]),
                    ) by {
                        assert(self.supported_entry(hostv, j));
                        assert(exists|k: int|
                            0 <= k < indices@.len() && indices@[k] as int == j);
                        let k = choose|k: int|
                            0 <= k < indices@.len() && indices@[k] as int == j;
                        assert(feat_lists@[k]@ == lists[indices@[k] as int]);
                        assert(score_le(
                            score_of(feat_lists@[k]@),
                            score_of(feat_lists@[t as int]@),
                        ));
                    }
                    assert forall|j: int|
                        0 <= j < i && tokens_subset(lists[j], hostv) implies score_lt(
                        score_of(lists[j]),
                        score_of(lists[i as int]),
                    ) by {
                        assert(self.supported_entry(hostv, j));
                        assert(exists|k: int|
                            0 <= k < indices@.len() && indices@[k] as int == j);
                        let k = choose|k: int|
                            0 <= k < indices@.len() && indices@[k] as int == j;
                        assert(feat_lists@[k]@ == lists[indices@[k] as int]);
                        if k > t {
                            assert(indices@[t as int] < indices@[k]);
                            assert(false);
                        } else if k == t {
                            assert(false);
                        }
                        assert(score_lt(
                            score_of(feat_lists@[k]@),
                            score_of(feat_lists@[t as int]@),
                        ));
                    }
                }
                Some(i)
            },
            None => {
                proof {
                    assert(false);
                }
                None
            },
        }
    }

    /// Rebuilds one variant's bytes: the fallback for `None`, otherwise the
    /// fallback with the chosen delta applied.
    pub fn extract_flavor(&self, id: Option<usize>) -> (r: Result<Vec<u8>, UnpackError>)
        requires
            id matches Some(i) ==> i < self.patches@.len(),
        ensures
            id is None ==> (r is Ok <== exists|a: Seq<u8>| self.default_exe@ == zstd_of(a)),
            id is None ==> (r matches Ok(v) ==> forall|a: Seq<u8>|
                self.default_exe@ == zstd_of(a) ==> v@ == a),
            id matches Some(i) ==> (r is Ok <== patch_header_valid(self.patches@[i as int]@)
                && (exists|a: Seq<u8>, b: Seq<u8>|
                self.default_exe@ == zstd_of(a) && self.patches@[i as int]@ == bsdiff_of(
                    a,
                    b,
                ))),
            id matches Some(i) ==> (r matches Ok(v) ==> forall|a: Seq<u8>, b: Seq<u8>|
                self.default_exe@ == zstd_of(a) && self.patches@[i as int]@ == bsdiff_of(a, b)
                    ==> v@ == b),
    {
        match id {
            None => zstd_decompress(self.default_exe.as_slice()),
            Some(i) => reconstruct_variant(
                self.default_exe.as_slice(),
                self.patches[i].as_slice(),
            ),
        }
    }

    /// Chooses the best variant for this host, rebuilds its bytes, and names
    /// it for diagnostics. An image without any variant is refused as empty;
    /// a fat binary with only a fallback decompresses it directly.
    pub fn get_best_flavor(&self, host: &Vec<String>, name_prefix: &str) -> (r: Result<
        (String, Vec<u8>),
        DispatchError,
    >)
        requires
            self.wf(),
        ensures
            (r == Err::<(String, Vec<u8>), DispatchError>(DispatchError::EmptyImage)) <==> self
                .default_exe@.len() == 0,
            r matches Ok(p) ==> exists|id: Option<usize>|
                {
                    &&& #[trigger] is_best_choice(self.lists(), host.deep_view(), id)
                    &&& match id {
                        Some(i) => p.0@ == flavor_name_of(
                            name_prefix@,
                            Some(self.lists()[i as int]),
                        ),
                        None => p.0@ == flavor_name_of(name_prefix@, None::<Seq<Seq<char>>>),
                    }
                    &&& match id {
                        None => forall|a: Seq<u8>|
                            self.default_exe@ == zstd_of(a) ==> p.1@ == a,
                        Some(i) => forall|a: Seq<u8>, b: Seq<u8>|
                            self.default_exe@ == zstd_of(a) && self.patches@[i as int]@
                                == bsdiff_of(a, b) ==> p.1@ == b,
                    }
                },
            (self.lists().len() == 0 && self.default_exe@.len() != 0 && (exists|a: Seq<u8>|
                self.default_exe@ == zstd_of(a))) ==> r is Ok,
            (self.default_exe@.len() != 0 && (exists|a: Seq<u8>|
                #![trigger zstd_of(a)]
                self.default_exe@ == zstd_of(a) && (forall|k: int|
                    0 <= k < self.patches@.len() ==> delta_of(
                        (#[trigger] self.patches@[k])@,
                        a,
                    ) && patch_header_valid(self.patches@[k]@)))) ==> r is Ok,
    {
        if self.default_exe.len() == 0 {
            return Err(DispatchError::EmptyImage);
        }
        let best_id = self.get_best_flavor_id(host);
        let name = match best_id {
            Some(i) => flavor_name(name_prefix, Some(&self.patches_features_lists[i])),
            None => flavor_name(name_prefix, None),
        };
        let bytes = match self.extract_flavor(best_id) {
            Ok(b) => b,
            Err(e) => {
                proof {
                    if exists|a: Seq<u8>|
                        #![trigger zstd_of(a)]
                        self.default_exe@ == zstd_of(a) && (forall|k: int|
                            0 <= k < self.patches@.len() ==> delta_of(
                                (#[trigger] self.patches@[k])@,
                                a,
                            ) && patch_header_valid(self.patches@[k]@)) {
                        let a = choose|a: Seq<u8>|
                            #![trigger zstd_of(a)]
                            self.default_exe@ == zstd_of(a) && (forall|k: int|
                                0 <= k < self.patches@.len() ==> delta_of(
                                    (#[trigger] self.patches@[k])@,
                                    a,
                                ) && patch_header_valid(self.patches@[k]@));
                        match best_id {
                            Some(i) => {
                                assert(i < self.patches@.len());
                                assert(delta_of(self.patches@[i as int]@, a));
                                assert(patch_header_valid(self.patches@[i as int]@));
                                let b = choose|b: Seq<u8>|
                                    self.patches@[i as int]@ == bsdiff_of(a, b);
                                assert(exists|a2: Seq<u8>, b2: Seq<u8>|
                                    self.default_exe@ == zstd_of(a2) && self.patches@[
                                        i as int
                                    ]@ == bsdiff_of(a2, b2));
                                assert(false);
                            },
                            None => {
                                assert(exists|a2: Seq<u8>| self.default_exe@ == zstd_of(a2));
                                assert(false);
                            },
                        }
                    }
                }
                return Err(DispatchError::Unpack(e));
            },
        };
        Ok((name, bytes))
    }
}

} // verus!
