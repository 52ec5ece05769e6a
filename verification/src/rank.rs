//! Variant ranking for x86-64 hosts.
//!
//! Every token the taxonomy knows is mapped to a (level, weight) pair taken
//! from the x86-64 microarchitecture levels. A variant's score is the
//! highest (level, weight) among its tokens together with the number of
//! tokens tied at that pair; variants compare lexicographically by
//! (level, weight, count), and ties go to the earliest entry, which by
//! image ordering declares the most features.

use vstd::prelude::*;

use crate::features::CpuFeatures;
use crate::order::str_same;

verus! {

/// The (level, weight) of a token; (0, 0) for tokens outside the table.
pub open spec fn token_rank(t: Seq<char>) -> (nat, nat) {
    if t == "sse3"@ {
        (2nat, 1nat)
    } else if t == "ssse3"@ {
        (2nat, 2nat)
    } else if t == "sse4.1"@ {
        (2nat, 3nat)
    } else if t == "popcnt"@ {
        (2nat, 4nat)
    } else if t == "sse4.2"@ {
        (2nat, 5nat)
    } else if t == "avx"@ {
        (3nat, 1nat)
    } else if t == "avx2"@ {
        (3nat, 2nat)
    } else if t == "lzcnt"@ {
        (3nat, 2nat)
    } else if t == "bmi"@ {
        (3nat, 2nat)
    } else if t == "bmi2"@ {
        (3nat, 2nat)
    } else if t == "avx512f"@ {
        (4nat, 1nat)
    } else if t == "avx512cd"@ {
        (4nat, 1nat)
    } else if t == "avx512vl"@ {
        (4nat, 2nat)
    } else if t == "avx512dq"@ {
        (4nat, 2nat)
    } else if t == "avx512bw"@ {
        (4nat, 2nat)
    } else {
        (0nat, 0nat)
    }
}

/// The (level, weight, count) score of a token sequence: the maximal
/// (level, weight) over its ranked tokens, and how many tokens reach it.
/// Tokens outside the table are passed over.
pub open spec fn score_of(ts: Seq<Seq<char>>) -> (nat, nat, nat)
    decreases ts.len(),
{
    if ts.len() == 0 {
        (0nat, 0nat, 0nat)
    } else {
        let prev = score_of(ts.drop_last());
        let lr = token_rank(ts.last());
        if lr == (0nat, 0nat) {
            prev
        } else if lr.0 > prev.0 || (lr.0 == prev.0 && lr.1 > prev.1) {
            (lr.0, lr.1, 1nat)
        } else if lr.0 == prev.0 && lr.1 == prev.1 {
            (prev.0, prev.1, prev.2 + 1)
        } else {
            prev
        }
    }
}

/// Lexicographic order on scores.
pub open spec fn score_le(a: (nat, nat, nat), b: (nat, nat, nat)) -> bool {
    a.0 < b.0 || (a.0 == b.0 && (a.1 < b.1 || (a.1 == b.1 && a.2 <= b.2)))
}

pub open spec fn score_lt(a: (nat, nat, nat), b: (nat, nat, nat)) -> bool {
    score_le(a, b) && a != b
}

/// The table lookup for one token.
pub fn rank_of(t: &str) -> (r: (u8, u8))
    ensures
        token_rank(t@) == (r.0 as nat, r.1 as nat),
{
    if str_same(t, "sse3") {
        (2, 1)
    } else if str_same(t, "ssse3") {
        (2, 2)
    } else if str_same(t, "sse4.1") {
        (2, 3)
    } else if str_same(t, "popcnt") {
        (2, 4)
    } else if str_same(t, "sse4.2") {
        (2, 5)
    } else if str_same(t, "avx") {
        (3, 1)
    } else if str_same(t, "avx2") {
        (3, 2)
    } else if str_same(t, "lzcnt") {
        (3, 2)
    } else if str_same(t, "bmi") {
        (3, 2)
    } else if str_same(t, "bmi2") {
        (3, 2)
    } else if str_same(t, "avx512f") {
        (4, 1)
    } else if str_same(t, "avx512cd") {
        (4, 1)
    } else if str_same(t, "avx512vl") {
        (4, 2)
    } else if str_same(t, "avx512dq") {
        (4, 2)
    } else if str_same(t, "avx512bw") {
        (4, 2)
    } else {
        (0, 0)
    }
}

/// Folds a variant's tokens into its (level, weight, count) score.
pub fn score_of_feats(fs: &CpuFeatures) -> (r: (u8, u8, usize))
    ensures
        score_of(fs@) == (r.0 as nat, r.1 as nat, r.2 as nat),
        r.2 <= fs@.len(),
{
    let n = fs.tokens.len();
    let mut bl: u8 = 0;
    let mut bw: u8 = 0;
    let mut c: usize = 0;
    let mut i: usize = 0;
    while i < n
        invariant
            i <= n,
            n == fs@.len(),
            c <= i,
            score_of(fs@.take(i as int)) == (bl as nat, bw as nat, c as nat),
        decreases n - i,
    {
        let (l, w) = rank_of(self_token(fs, i));
        if l == 0 && w == 0 {
        } else if l > bl || (l == bl && w > bw) {
            bl = l;
            bw = w;
            c = 1;
        } else if l == bl && w == bw {
            c = c + 1;
        }
        proof {
            let cur = fs@.take(i + 1);
            assert(cur.drop_last() =~= fs@.take(i as int));
            assert(cur.last() == fs@[i as int]);
        }
        i = i + 1;
    }
    proof {
        assert(fs@.take(n as int) =~= fs@);
    }
    (bl, bw, c)
}

/// One token of a feature set, as a string slice.
fn self_token(fs: &CpuFeatures, i: usize) -> (r: &str)
    requires
        i < fs@.len(),
    ensures
        r@ == fs@[i as int],
{
    fs.tokens[i].as_str()
}

/// Picks the top-ranked entry: the earliest whose score no other exceeds.
/// Yields an index only when the slate is non-empty.
pub fn get_top_ranked(lists: &Vec<CpuFeatures>) -> (r: Option<usize>)
    ensures
        (r is Some) == (lists@.len() > 0),
        r matches Some(i) ==> i < lists@.len() && (forall|j: int|
            0 <= j < lists@.len() ==> score_le(
                score_of(lists@[j]@),
                score_of(lists@[i as int]@),
            )) && (forall|j: int|
            0 <= j < i ==> score_lt(score_of(lists@[j]@), score_of(lists@[i as int]@))),
{
    let n = lists.len();
    if n == 0 {
        return None;
    }
    let mut best: usize = 0;
    let mut bs = score_of_feats(&lists[0]);
    let mut i: usize = 1;
    while i < n
        invariant
            1 <= i <= n,
            n == lists@.len(),
            best < i,
            score_of(lists@[best as int]@) == (bs.0 as nat, bs.1 as nat, bs.2 as nat),
            forall|j: int|
                0 <= j < i ==> score_le(score_of(lists@[j]@), score_of(lists@[best as int]@)),
            forall|j: int|
                0 <= j < best ==> score_lt(score_of(lists@[j]@), score_of(lists@[best as int]@)),
        decreases n - i,
    {
        let s = score_of_feats(&lists[i]);
        let greater = s.0 > bs.0 || (s.0 == bs.0 && (s.1 > bs.1 || (s.1 == bs.1 && s.2
            > bs.2)));
        if greater {
            proof {
                assert forall|j: int| 0 <= j < i implies score_lt(
                    score_of(lists@[j]@),
                    score_of(lists@[i as int]@),
                ) by {
                    assert(score_le(score_of(lists@[j]@), score_of(lists@[best as int]@)));
                }
            }
            best = i;
            bs = s;
        }
        i = i + 1;
    }
    Some(best)
}

} // verus!
