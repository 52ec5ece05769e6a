//! Plain-text helpers for reading compiler output: line splitting as a
//! buffered reader does it, prefix and substring tests, and their exact
//! specifications.

use vstd::prelude::*;
use vstd::string::{StrSliceExecFns, StringExecFns};

use crate::order::str_same;

verus! {

/// The position of the first newline, or -1 when there is none.
pub open spec fn first_nl(s: Seq<char>) -> int
    decreases s.len(),
{
    if s.len() == 0 {
        -1
    } else if s[0] == '\n' {
        0
    } else {
        let r = first_nl(s.skip(1));
        if r == -1 {
            -1
        } else {
            r + 1
        }
    }
}

/// Drops one trailing carriage return, as a buffered line reader does.
pub open spec fn strip_cr(l: Seq<char>) -> Seq<char> {
    if l.len() > 0 && l.last() == '\r' {
        l.drop_last()
    } else {
        l
    }
}

/// The lines of a text: split at newlines, one trailing carriage return
/// removed per line, no empty line after a final newline.
pub open spec fn spec_lines(s: Seq<char>) -> Seq<Seq<char>>
    decreases s.len(),
{
    if s.len() == 0 {
        Seq::empty()
    } else {
        let i = first_nl(s);
        if i < 0 || i >= s.len() {
            seq![strip_cr(s)]
        } else {
            seq![strip_cr(s.take(i))] + spec_lines(s.skip(i + 1))
        }
    }
}

/// `p` occurs in `s` as a contiguous run.
pub open spec fn contains_sub(s: Seq<char>, p: Seq<char>) -> bool {
    exists|i: int| 0 <= i <= s.len() - p.len() && #[trigger] s.skip(i).take(p.len() as int)
        == p
}

proof fn lemma_first_nl_at(s: Seq<char>, i: int)
    requires
        0 <= i < s.len(),
        s[i] == '\n',
        forall|k: int| 0 <= k < i ==> s[k] != '\n',
    ensures
        first_nl(s) == i,
    decreases i,
{
    if i == 0 {
    } else {
        assert forall|k: int| 0 <= k < i - 1 implies s.skip(1)[k] != '\n' by {
            assert(s.skip(1)[k] == s[k + 1]);
        }
        assert(s.skip(1)[i - 1] == s[i]);
        lemma_first_nl_at(s.skip(1), i - 1);
    }
}

proof fn lemma_first_nl_none(s: Seq<char>)
    requires
        forall|k: int| 0 <= k < s.len() ==> s[k] != '\n',
    ensures
        first_nl(s) == -1,
    decreases s.len(),
{
    if s.len() > 0 {
        assert forall|k: int| 0 <= k < s.skip(1).len() implies s.skip(1)[k] != '\n' by {
            assert(s.skip(1)[k] == s[k + 1]);
        }
        lemma_first_nl_none(s.skip(1));
    }
}

/// Splits a text into its lines, exactly as `spec_lines` describes.
pub fn split_lines(s: &str) -> (r: Vec<String>)
    ensures
        r.deep_view() == spec_lines(s@),
{
    let n = s.unicode_len();
    let mut out: Vec<String> = Vec::new();
    let mut start: usize = 0;
    let mut i: usize = 0;
    proof {
        assert(s@.skip(0) =~= s@);
    }
    while i < n
        invariant
            start <= i <= n,
            n == s@.len(),
            forall|k: int| start <= k < i ==> s@[k] != '\n',
            out.deep_view() + spec_lines(s@.skip(start as int)) =~= spec_lines(s@),
        decreases n - i,
    {
        if s.get_char(i) == '\n' {
            let seg =
                if i > start && s.get_char(i - 1) == '\r' {
                    s.substring_char(start, i - 1)
                } else {
                    s.substring_char(start, i)
                };
            let ghost pre = out.deep_view();
            out.push(seg.to_owned());
            proof {
                let rest = s@.skip(start as int);
                assert forall|k: int| 0 <= k < i - start implies rest[k] != '\n' by {
                    assert(rest[k] == s@[start + k]);
                }
                assert(rest[i - start] == s@[i as int]);
                lemma_first_nl_at(rest, i - start);
                assert(rest.take(i - start) =~= s@.subrange(start as int, i as int));
                assert(seg@ =~= strip_cr(rest.take(i - start))) by {
                    if i > start && s@[i - 1] == '\r' {
                        assert(rest.take(i - start).last() == s@[i - 1]);
                        assert(seg@ =~= rest.take(i - start).drop_last());
                    }
                }
                assert(rest.skip(i - start + 1) =~= s@.skip(i + 1));
                assert(spec_lines(rest) =~= seq![strip_cr(rest.take(i - start))] + spec_lines(
                    s@.skip(i + 1),
                ));
                assert(out.deep_view() =~= pre.push(seg@));
                assert(out.deep_view() + spec_lines(s@.skip(i + 1)) =~= spec_lines(s@));
            }
            start = i + 1;
        }
        i = i + 1;
    }
    if start < n {
        let seg =
            if s.get_char(n - 1) == '\r' {
                s.substring_char(start, n - 1)
            } else {
                s.substring_char(start, n)
            };
        let ghost pre = out.deep_view();
        out.push(seg.to_owned());
        proof {
            let rest = s@.skip(start as int);
            assert forall|k: int| 0 <= k < rest.len() implies rest[k] != '\n' by {
                assert(rest[k] == s@[start + k]);
            }
            lemma_first_nl_none(rest);
            assert(seg@ =~= strip_cr(rest)) by {
                assert(rest =~= s@.subrange(start as int, n as int));
                if s@[n - 1] == '\r' {
                    assert(rest.last() == s@[n - 1]);
                    assert(seg@ =~= rest.drop_last());
                }
            }
            assert(spec_lines(rest) =~= seq![strip_cr(rest)]);
            assert(out.deep_view() =~= pre.push(seg@));
            assert(out.deep_view() =~= spec_lines(s@));
        }
    } else {
        proof {
            assert(s@.skip(start as int).len() == 0);
            assert(out.deep_view() =~= spec_lines(s@));
        }
    }
    out
}

/// Whether `p` opens `s`.
pub fn str_starts_with(s: &str, p: &str) -> (r: bool)
    ensures
        r == p@.is_prefix_of(s@),
{
    let sn = s.unicode_len();
    let pn = p.unicode_len();
    if pn > sn {
        return false;
    }
    let head = s.substring_char(0, pn);
    proof {
        assert(head@ =~= s@.take(pn as int));
        assert(p@.is_prefix_of(s@) == (s@.take(pn as int) == p@));
    }
    str_same(head, p)
}

/// Whether `p` occurs anywhere in `s`.
pub fn str_contains(s: &str, p: &str) -> (r: bool)
    ensures
        r == contains_sub(s@, p@),
{
    let sn = s.unicode_len();
    let pn = p.unicode_len();
    if pn > sn {
        proof {
            if contains_sub(s@, p@) {
                let i = choose|i: int|
                    0 <= i <= s@.len() - p@.len() && #[trigger] s@.skip(i).take(
                        p@.len() as int,
                    ) == p@;
                assert(false);
            }
        }
        return false;
    }
    if pn == 0 {
        proof {
            assert(s@.skip(0).take(0) =~= p@);
        }
        return true;
    }
    let mut i: usize = 0;
    while i <= sn - pn
        invariant
            0 <= i <= sn - pn + 1,
            1 <= pn <= sn,
            sn == s@.len(),
            pn == p@.len(),
            forall|k: int|
                0 <= k < i ==> #[trigger] s@.skip(k).take(p@.len() as int) != p@,
        decreases sn - pn - i + 1,
    {
        let w = s.substring_char(i, i + pn);
        if str_same(w, p) {
            proof {
                assert(s@.skip(i as int).take(p@.len() as int) =~= w@);
            }
            return true;
        }
        proof {
            assert(s@.skip(i as int).take(p@.len() as int) =~= w@);
        }
        i = i + 1;
    }
    proof {
        if contains_sub(s@, p@) {
            let k = choose|k: int|
                0 <= k <= s@.len() - p@.len() && #[trigger] s@.skip(k).take(p@.len() as int)
                    == p@;
            assert(false);
        }
    }
    false
}

/// The text after the prefix, when the prefix opens the string.
pub fn str_strip_prefix(s: &str, p: &str) -> (r: Option<String>)
    ensures
        r is Some <==> p@.is_prefix_of(s@),
        r matches Some(v) ==> v@ == s@.skip(p@.len() as int),
{
    if str_starts_with(s, p) {
        let pn = p.unicode_len();
        let sn = s.unicode_len();
        let tail = s.substring_char(pn, sn);
        proof {
            assert(tail@ =~= s@.skip(p@.len() as int));
        }
        Some(tail.to_owned())
    } else {
        None
    }
}

/// Whether `p` closes `s`.
pub fn str_ends_with(s: &str, p: &str) -> (r: bool)
    ensures
        r == p@.is_suffix_of(s@),
{
    let sn = s.unicode_len();
    let pn = p.unicode_len();
    if pn > sn {
        return false;
    }
    let tail = s.substring_char(sn - pn, sn);
    proof {
        assert(tail@ =~= s@.skip(sn - pn));
        assert(p@.is_suffix_of(s@) == (s@.skip(sn - pn) == p@));
    }
    str_same(tail, p)
}

} // verus!
