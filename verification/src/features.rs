//! Feature tokens and feature sets.
//!
//! A feature token is a short identifier such as `avx2`, compared by code
//! point. A `CpuFeatures` value is a canonical set of tokens: sorted
//! ascending and free of duplicates, so that two sets are equal exactly when
//! they hold the same tokens.

use vstd::prelude::*;
use vstd::string::{StrSliceExecFns, StringExecFns};

use crate::order::{
    featlist_lt, lemma_str_lt_transitive, lemma_str_lt_trichotomy, str_less, str_lt, str_same,
};

verus! {

/// Tokens are strictly ascending: sorted and free of duplicates.
pub open spec fn tokens_sorted(ts: Seq<Seq<char>>) -> bool {
    forall|i: int, j: int| 0 <= i < j < ts.len() ==> str_lt(ts[i], ts[j])
}

/// `set` is the canonical form of the set of strings in `items`: sorted,
/// duplicate-free, and holding exactly the same members.
pub open spec fn canonical_set_of(set: Seq<Seq<char>>, items: Seq<Seq<char>>) -> bool {
    tokens_sorted(set) && (forall|x: Seq<char>|
        #[trigger] set.contains(x) <==> items.contains(x))
}

/// A canonical set of CPU feature tokens. The fallback variant is the one
/// whose set is empty.
#[derive(Debug)]
pub struct CpuFeatures {
    pub tokens: Vec<String>,
}

impl View for CpuFeatures {
    type V = Seq<Seq<char>>;

    open spec fn view(&self) -> Seq<Seq<char>> {
        self.tokens.deep_view()
    }
}

impl DeepView for CpuFeatures {
    type V = Seq<Seq<char>>;

    open spec fn deep_view(&self) -> Seq<Seq<char>> {
        self.view()
    }
}

/// The `rustc -C target-feature=` form of a token sequence: empty when there
/// are no tokens, otherwise `+tok1,+tok2,...`.
pub open spec fn flags_of(ts: Seq<Seq<char>>) -> Seq<char>
    decreases ts.len(),
{
    if ts.len() == 0 {
        Seq::empty()
    } else if ts.len() == 1 {
        seq!['+'] + ts[0]
    } else {
        flags_of(ts.drop_last()) + seq![','] + seq!['+'] + ts.last()
    }
}

impl Clone for CpuFeatures {
    fn clone(&self) -> (r: Self)
        ensures
            r@ == self@,
    {
        let tokens = self.tokens.clone();
        proof {
            assert forall|i: int| 0 <= i < self.tokens@.len() implies tokens.deep_view()[i]
                == self.tokens.deep_view()[i] by {
                assert(cloned::<String>(self.tokens[i], tokens[i]));
            }
            assert(tokens.deep_view() =~= self.tokens.deep_view());
            vstd::std_specs::vec::vec_clone_deep_view_proof::<String, std::alloc::Global>(
                self.tokens,
                tokens,
            );
        }
        CpuFeatures { tokens }
    }
}

impl CpuFeatures {
    pub open spec fn wf(&self) -> bool {
        tokens_sorted(self@)
    }

    /// The empty feature set, marking the fallback variant.
    pub fn new() -> (r: Self)
        ensures
            r.wf(),
            r@ =~= Seq::<Seq<char>>::empty(),
    {
        CpuFeatures { tokens: Vec::new() }
    }

    pub fn len(&self) -> (n: usize)
        ensures
            n == self@.len(),
    {
        self.tokens.len()
    }

    pub fn is_empty(&self) -> (r: bool)
        ensures
            r == (self@.len() == 0),
    {
        self.tokens.len() == 0
    }

    /// The tokens, in canonical order.
    pub fn iter(&self) -> (r: &Vec<String>)
        ensures
            r.deep_view() == self@,
    {
        &self.tokens
    }

    /// Adds a token, keeping the set sorted and duplicate-free.
    pub fn insert_token(&mut self, t: String)
        requires
            old(self).wf(),
        ensures
            final(self).wf(),
            forall|x: Seq<char>|
                final(self)@.contains(x) <==> (old(self)@.contains(x) || x == t@),
    {
        let n = self.tokens.len();
        let mut i: usize = 0;
        while i < n
            invariant
                i <= n,
                n == self@.len(),
                self.wf(),
                forall|k: int| 0 <= k < i ==> str_lt(self@[k], t@),
            ensures
                i <= n,
                n == self@.len(),
                self.wf(),
                forall|k: int| 0 <= k < i ==> str_lt(self@[k], t@),
                i < n ==> !str_lt(self@[i as int], t@),
            decreases n - i,
        {
            if !str_less(self.tokens[i].as_str(), t.as_str()) {
                break;
            }
            i = i + 1;
        }
        if i < n && str_same(self.tokens[i].as_str(), t.as_str()) {
            proof {
                assert(old(self)@.contains(t@)) by {
                    assert(old(self)@[i as int] == t@);
                }
                assert(forall|x: Seq<char>|
                    old(self)@.contains(x) || x == t@ ==> old(self)@.contains(x));
            }
            return ;
        }
        proof {
            if i < n {
                lemma_str_lt_trichotomy(self@[i as int], t@);
                assert(str_lt(t@, self@[i as int]));
                assert forall|k: int| i <= k < n implies str_lt(t@, self@[k]) by {
                    if k > i {
                        lemma_str_lt_transitive(t@, self@[i as int], self@[k]);
                    }
                }
            }
            assert forall|k: int| 0 <= k < i implies self@[k] != t@ by {
                lemma_str_lt_trichotomy(self@[k], t@);
            }
        }
        let ghost pre = self@;
        self.tokens.insert(i, t);
        proof {
            assert(self@ =~= pre.insert(i as int, t@)) by {
                assert forall|k: int| 0 <= k < self@.len() implies self@[k] == pre.insert(
                    i as int,
                    t@,
                )[k] by {}
            }
            pre.insert_ensures(i as int, t@);
            assert(tokens_sorted(self@)) by {
                assert forall|p: int, q: int| 0 <= p < q < self@.len() implies str_lt(
                    self@[p],
                    self@[q],
                ) by {
                    if p < i && q < i {
                    } else if p < i && q == i {
                    } else if p == i {
                        assert(self@[q] == pre[q - 1]);
                    } else if p < i && q > i {
                        assert(self@[p] == pre[p] && self@[q] == pre[q - 1]);
                    } else {
                        assert(self@[p] == pre[p - 1] && self@[q] == pre[q - 1]);
                    }
                }
            }
            assert forall|x: Seq<char>|
                self@.contains(x) <==> (pre.contains(x) || x == t@) by {
                if self@.contains(x) {
                    let k = choose|k: int| 0 <= k < self@.len() && self@[k] == x;
                    if k < i {
                        assert(pre[k] == x);
                    } else if k == i {
                    } else {
                        assert(pre[k - 1] == x);
                    }
                }
                if pre.contains(x) {
                    let k = choose|k: int| 0 <= k < pre.len() && pre[k] == x;
                    if k < i {
                        assert(self@[k] == x);
                    } else {
                        assert(self@[k + 1] == x);
                    }
                }
                if x == t@ {
                    assert(self@[i as int] == x);
                }
            }
        }
    }

    /// Builds the canonical set holding exactly the given tokens.
    pub fn from_iter(items: Vec<String>) -> (r: Self)
        ensures
            r.wf(),
            forall|x: Seq<char>|
                r@.contains(x) <==> items.deep_view().contains(x),
    {
        let mut r = CpuFeatures::new();
        let n = items.len();
        let mut k: usize = 0;
        while k < n
            invariant
                k <= n,
                n == items@.len(),
                r.wf(),
                forall|x: Seq<char>|
                    r@.contains(x) <==> items.deep_view().take(k as int).contains(x),
            decreases n - k,
        {
            let t = items[k].clone();
            r.insert_token(t);
            proof {
                let dv = items.deep_view();
                let prev = dv.take(k as int);
                let cur = dv.take(k + 1);
                assert forall|x: Seq<char>| r@.contains(x) <==> cur.contains(x) by {
                    if prev.contains(x) {
                        let j = choose|j: int| 0 <= j < prev.len() && prev[j] == x;
                        assert(cur[j] == x);
                    }
                    if x == dv[k as int] {
                        assert(cur[k as int] == x);
                    }
                    if cur.contains(x) {
                        let j = choose|j: int| 0 <= j < cur.len() && cur[j] == x;
                        if j < k {
                            assert(prev[j] == x);
                        }
                    }
                }
            }
            k = k + 1;
        }
        proof {
            assert(items.deep_view().take(n as int) =~= items.deep_view());
        }
        r
    }

    /// Compares two feature sets in the canonical order of `featlist_lt`.
    pub fn feats_less(&self, other: &CpuFeatures) -> (r: bool)
        ensures
            r == featlist_lt(self@, other@),
    {
        let a_len = self.tokens.len();
        let b_len = other.tokens.len();
        let mut i: usize = 0;
        proof {
            assert(self@.skip(0) =~= self@);
            assert(other@.skip(0) =~= other@);
        }
        loop
            invariant
                i <= a_len,
                i <= b_len,
                a_len == self@.len(),
                b_len == other@.len(),
                featlist_lt(self@, other@) == featlist_lt(
                    self@.skip(i as int),
                    other@.skip(i as int),
                ),
            decreases a_len - i,
        {
            if i == b_len {
                return false;
            }
            if i == a_len {
                return true;
            }
            if !str_same(self.tokens[i].as_str(), other.tokens[i].as_str()) {
                proof {
                    assert(self@.skip(i as int)[0] == self@[i as int]);
                    assert(other@.skip(i as int)[0] == other@[i as int]);
                }
                return str_less(self.tokens[i].as_str(), other.tokens[i].as_str());
            }
            proof {
                assert(self@.skip(i as int)[0] == self@[i as int]);
                assert(other@.skip(i as int)[0] == other@[i as int]);
                assert(self@.skip(i as int).skip(1) =~= self@.skip(i + 1));
                assert(other@.skip(i as int).skip(1) =~= other@.skip(i + 1));
            }
            i = i + 1;
        }
    }

    /// Whether the two sets hold the same tokens in the same order.
    pub fn feats_same(&self, other: &CpuFeatures) -> (r: bool)
        ensures
            r == (self@ == other@),
    {
        let a_len = self.tokens.len();
        let b_len = other.tokens.len();
        if a_len != b_len {
            proof {
                assert(self@.len() != other@.len());
            }
            return false;
        }
        let mut i: usize = 0;
        while i < a_len
            invariant
                i <= a_len,
                a_len == self@.len(),
                a_len == other@.len(),
                forall|k: int| 0 <= k < i ==> self@[k] == other@[k],
            decreases a_len - i,
        {
            if !str_same(self.tokens[i].as_str(), other.tokens[i].as_str()) {
                proof {
                    assert(self@[i as int] != other@[i as int]);
                }
                return false;
            }
            i = i + 1;
        }
        proof {
            assert(self@ =~= other@);
        }
        true
    }

    /// Builds the string given to `rustc -C target-feature=`, e.g.
    /// `+avx,+avx2`; empty for the fallback.
    pub fn to_compiler_flags(&self) -> (r: String)
        ensures
            r@ == flags_of(self@),
    {
        let mut out = String::new();
        let n = self.tokens.len();
        let mut i: usize = 0;
        while i < n
            invariant
                i <= n,
                n == self@.len(),
                out@ == flags_of(self@.take(i as int)),
            decreases n - i,
        {
            proof {
                reveal_strlit(",");
                reveal_strlit("+");
            }
            if i > 0 {
                out.append(",");
            }
            out.append("+");
            out.append(self.tokens[i].as_str());
            proof {
                let taken = self@.take(i + 1);
                assert(taken.drop_last() =~= self@.take(i as int));
                assert(taken.last() == self@[i as int]);
                assert(out@ =~= flags_of(taken));
            }
            i = i + 1;
        }
        proof {
            assert(self@.take(n as int) =~= self@);
        }
        out
    }
}

} // verus!
