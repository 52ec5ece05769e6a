//! Reading the compiler's answers.
//!
//! The build driver asks `rustc` for its release channel, the host triple,
//! the host CPU, and the feature set a CPU model implies. Running the
//! compiler is the caller's business; the functions here take the text it
//! printed and extract the answers, character for character as the
//! specifications state.

use vstd::prelude::*;
use vstd::string::{StrSliceExecFns, StringExecFns};

use crate::text::{
    contains_sub, spec_lines, split_lines, str_contains, str_ends_with, str_starts_with,
    str_strip_prefix,
};

verus! {

/// Wrapper around the `rustc` command's output.
pub struct Rustc;

/// Which listing to print instead of building.
#[derive(Clone, Copy, Debug, PartialEq, Eq, Structural)]
pub enum Print {
    /// Every target triple the compiler can build for.
    TargetList,
    /// Every CPU available for the chosen target triple.
    TargetCpus,
    /// Every CPU feature the chosen CPU supports.
    TargetCpuFeatures,
}

/// A compiler answer that could not be read.
#[derive(Clone, Copy, Debug, PartialEq, Eq, Structural)]
pub enum QueryError {
    /// The version listing named no host triple.
    NoHostTarget,
    /// The CPU listing named no host CPU.
    NoHostCpu,
    /// The compiler rejected the CPU model.
    InvalidCpu,
}

/// Line `i` is the first one that `p` opens.
pub open spec fn first_prefixed(ls: Seq<Seq<char>>, p: Seq<char>, i: int) -> bool {
    0 <= i < ls.len() && p.is_prefix_of(ls[i]) && (forall|j: int|
        0 <= j < i ==> !p.is_prefix_of(#[trigger] ls[j]))
}

/// The first line that two distinct indices both claim is one index.
proof fn lemma_first_prefixed_unique(ls: Seq<Seq<char>>, p: Seq<char>, i1: int, i2: int)
    requires
        first_prefixed(ls, p, i1),
        first_prefixed(ls, p, i2),
    ensures
        i1 == i2,
{
    if i1 < i2 {
        assert(!p.is_prefix_of(ls[i1]));
    } else if i2 < i1 {
        assert(!p.is_prefix_of(ls[i2]));
    }
}

/// The rest of the first line the prefix opens, when any line does.
fn first_suffix(lines: &Vec<String>, p: &str) -> (r: Option<String>)
    ensures
        r is None ==> forall|i: int|
            0 <= i < lines.deep_view().len() ==> !p@.is_prefix_of(
                #[trigger] lines.deep_view()[i],
            ),
        r matches Some(v) ==> exists|i: int|
            #[trigger] first_prefixed(lines.deep_view(), p@, i) && v@
                == lines.deep_view()[i].skip(p@.len() as int),
{
    let n = lines.len();
    let mut i: usize = 0;
    while i < n
        invariant
            i <= n,
            n == lines@.len(),
            forall|j: int| 0 <= j < i ==> !p@.is_prefix_of(#[trigger] lines.deep_view()[j]),
        decreases n - i,
    {
        match str_strip_prefix(lines[i].as_str(), p) {
            Some(v) => {
                proof {
                    assert(lines.deep_view()[i as int] == lines@[i as int]@);
                    assert(first_prefixed(lines.deep_view(), p@, i as int));
                }
                return Some(v);
            },
            None => {
                proof {
                    assert(lines.deep_view()[i as int] == lines@[i as int]@);
                }
            },
        }
        i = i + 1;
    }
    None
}

/// The `rustc -vV` listing says the release channel is nightly: its first
/// `release: ` line names a release containing `nightly`.
pub open spec fn is_nightly_of(out: Seq<char>) -> bool {
    exists|i: int|
        #[trigger] first_prefixed(spec_lines(out), "release: "@, i) && contains_sub(
            spec_lines(out)[i].skip("release: "@.len() as int),
            "nightly"@,
        )
}

impl Rustc {
    /// Reads a `rustc -vV` listing: true exactly when its release line
    /// names a nightly channel.
    pub fn is_nightly(vv_output: &str) -> (r: bool)
        ensures
            r == is_nightly_of(vv_output@),
    {
        let lines = split_lines(vv_output);
        match first_suffix(&lines, "release: ") {
            Some(rest) => {
                let c = str_contains(rest.as_str(), "nightly");
                proof {
                    let ls = spec_lines(vv_output@);
                    let i = choose|i: int|
                        #[trigger] first_prefixed(ls, "release: "@, i) && rest@ == ls[i].skip(
                            "release: "@.len() as int,
                        );
                    if is_nightly_of(vv_output@) {
                        let i2 = choose|i2: int|
                            #[trigger] first_prefixed(ls, "release: "@, i2) && contains_sub(
                                ls[i2].skip("release: "@.len() as int),
                                "nightly"@,
                            );
                        lemma_first_prefixed_unique(ls, "release: "@, i, i2);
                    }
                }
                c
            },
            None => {
                proof {
                    if is_nightly_of(vv_output@) {
                        let i = choose|i: int|
                            #[trigger] first_prefixed(spec_lines(vv_output@), "release: "@, i)
                                && contains_sub(
                                spec_lines(vv_output@)[i].skip("release: "@.len() as int),
                                "nightly"@,
                            );
                        assert(false);
                    }
                }
                false
            },
        }
    }

    /// Reads a `rustc -vV` listing: the triple its first `host: ` line
    /// names, or an error when no line names one.
    pub fn get_host_target(vv_output: &str) -> (r: Result<String, QueryError>)
        ensures
            r matches Ok(v) ==> exists|i: int|
                #[trigger] first_prefixed(spec_lines(vv_output@), "host: "@, i) && v@
                    == spec_lines(vv_output@)[i].skip("host: "@.len() as int),
            r is Err <==> forall|i: int|
                0 <= i < spec_lines(vv_output@).len() ==> !"host: "@.is_prefix_of(
                    #[trigger] spec_lines(vv_output@)[i],
                ),
            r matches Err(e) ==> e == QueryError::NoHostTarget,
    {
        let lines = split_lines(vv_output);
        match first_suffix(&lines, "host: ") {
            Some(v) => {
                proof {
                    let i = choose|i: int|
                        #[trigger] first_prefixed(spec_lines(vv_output@), "host: "@, i) && v@
                            == spec_lines(vv_output@)[i].skip("host: "@.len() as int);
                }
                Ok(v)
            },
            None => Err(QueryError::NoHostTarget),
        }
    }
}

/// The line of a `--print=target-cpus` listing that names the host CPU.
pub open spec fn native_cpu_prefix() -> Seq<char> {
    "    native                  - Select the CPU of the current host (currently "@
}

/// Whether a listing line names the host CPU: the native-CPU text opens it
/// and `).` closes it.
pub open spec fn host_cpu_line(l: Seq<char>) -> bool {
    native_cpu_prefix().is_prefix_of(l) && ")."@.is_suffix_of(
        l.skip(native_cpu_prefix().len() as int),
    )
}

/// The CPU name such a line carries.
pub open spec fn host_cpu_of_line(l: Seq<char>) -> Seq<char> {
    let rest = l.skip(native_cpu_prefix().len() as int);
    rest.take(rest.len() - 2)
}

impl Rustc {
    /// Reads a `--print=target-cpus` listing: the CPU its first native-CPU
    /// line names, or an error when no line names one.
    pub fn get_host_cpu(cpus_output: &str) -> (r: Result<String, QueryError>)
        ensures
            r matches Ok(v) ==> exists|i: int|
                0 <= i < spec_lines(cpus_output@).len() && #[trigger] host_cpu_line(
                    spec_lines(cpus_output@)[i],
                ) && (forall|j: int|
                    0 <= j < i ==> !host_cpu_line(#[trigger] spec_lines(cpus_output@)[j]))
                    && v@ == host_cpu_of_line(spec_lines(cpus_output@)[i]),
            r is Err <==> forall|i: int|
                0 <= i < spec_lines(cpus_output@).len() ==> !host_cpu_line(
                    #[trigger] spec_lines(cpus_output@)[i],
                ),
            r matches Err(e) ==> e == QueryError::NoHostCpu,
    {
        let lines = split_lines(cpus_output);
        let n = lines.len();
        let ghost ls = spec_lines(cpus_output@);
        let mut i: usize = 0;
        while i < n
            invariant
                i <= n,
                n == ls.len(),
                ls == lines.deep_view(),
                ls == spec_lines(cpus_output@),
                forall|j: int| 0 <= j < i ==> !host_cpu_line(#[trigger] ls[j]),
            decreases n - i,
        {
            proof {
                assert(lines.deep_view()[i as int] == lines@[i as int]@);
            }
            match str_strip_prefix(
                lines[i].as_str(),
                "    native                  - Select the CPU of the current host (currently ",
            ) {
                Some(rest) => {
                    if str_ends_with(rest.as_str(), ").") {
                        let m = rest.unicode_len();
                        proof {
                            reveal_strlit(").");
                            assert(")."@.is_suffix_of(rest@));
                            assert(m >= 2);
                        }
                        let cpu = rest.as_str().substring_char(0, m - 2);
                        proof {
                            assert(rest@ == ls[i as int].skip(
                                native_cpu_prefix().len() as int,
                            ));
                            assert(host_cpu_line(ls[i as int]));
                            assert(cpu@ =~= host_cpu_of_line(ls[i as int]));
                        }
                        return Ok(cpu.to_owned());
                    }
                    proof {
                        assert(!host_cpu_line(ls[i as int]));
                    }
                },
                None => {
                    proof {
                        assert(!host_cpu_line(ls[i as int]));
                    }
                },
            }
            i = i + 1;
        }
        Err(QueryError::NoHostCpu)
    }
}

/// Whether a `--print=cfg` line declares a target feature:
/// `target_feature="` opens it and a quote closes it.
pub open spec fn feature_line(l: Seq<char>) -> bool {
    "target_feature=\""@.is_prefix_of(l) && l.len() > "target_feature=\""@.len() && l.last()
        == '"'
}

/// The token such a line declares.
pub open spec fn feature_of_line(l: Seq<char>) -> Seq<char> {
    l.subrange("target_feature=\""@.len() as int, l.len() - 1)
}

/// The tokens declared by a listing's lines, in listing order.
pub open spec fn collect_features(ls: Seq<Seq<char>>) -> Seq<Seq<char>>
    decreases ls.len(),
{
    if ls.len() == 0 {
        Seq::empty()
    } else {
        collect_features(ls.drop_last()) + (if feature_line(ls.last()) {
            seq![feature_of_line(ls.last())]
        } else {
            Seq::empty()
        })
    }
}

impl Rustc {
    /// Reads a `--print=cfg` listing taken with `-Ctarget-cpu=<model>`: the
    /// feature tokens the model implies, in listing order. A failed or
    /// noisy compiler run means the CPU model is invalid.
    pub fn get_cpufeatures_for_programs(
        cfg_output: &str,
        status_ok: bool,
        stderr_empty: bool,
    ) -> (r: Result<Vec<String>, QueryError>)
        ensures
            r is Ok <==> status_ok && stderr_empty,
            r matches Err(e) ==> e == QueryError::InvalidCpu,
            r matches Ok(v) ==> v.deep_view() == collect_features(spec_lines(cfg_output@)),
    {
        if !status_ok || !stderr_empty {
            return Err(QueryError::InvalidCpu);
        }
        let lines = split_lines(cfg_output);
        let n = lines.len();
        let ghost ls = spec_lines(cfg_output@);
        let mut out: Vec<String> = Vec::new();
        let mut i: usize = 0;
        while i < n
            invariant
                i <= n,
                n == ls.len(),
                ls == lines.deep_view(),
                ls == spec_lines(cfg_output@),
                out.deep_view() =~= collect_features(ls.take(i as int)),
            decreases n - i,
        {
            proof {
                assert(lines.deep_view()[i as int] == lines@[i as int]@);
            }
            let ghost pre = out.deep_view();
            let line = lines[i].as_str();
            let ln = line.unicode_len();
            let pn = "target_feature=\"".unicode_len();
            if str_starts_with(line, "target_feature=\"") && ln > pn && str_ends_with(
                line,
                "\"",
            ) {
                let tok = line.substring_char(pn, ln - 1);
                proof {
                    assert(ls[i as int].last() == '"') by {
                        reveal_strlit("\"");
                        assert("\""@.len() == 1);
                        assert("\""@.is_suffix_of(ls[i as int]));
                        assert("\""@ =~= ls[i as int].subrange(
                            ls[i as int].len() - 1,
                            ls[i as int].len() as int,
                        ));
                        assert(ls[i as int].last() == "\""@[0]);
                    }
                    assert(feature_line(ls[i as int]));
                    assert(tok@ =~= feature_of_line(ls[i as int]));
                }
                out.push(tok.to_owned());
                proof {
                    assert(out.deep_view() =~= pre.push(feature_of_line(ls[i as int])));
                }
            } else {
                proof {
                    assert(!feature_line(ls[i as int])) by {
                        if feature_line(ls[i as int]) {
                            reveal_strlit("\"");
                            assert("\""@.is_suffix_of(ls[i as int])) by {
                                assert("\""@ =~= ls[i as int].subrange(ln - 1, ln as int));
                            }
                        }
                    }
                }
            }
            proof {
                let cur = ls.take(i + 1);
                assert(cur.drop_last() =~= ls.take(i as int));
                assert(cur.last() == ls[i as int]);
            }
            i = i + 1;
        }
        proof {
            assert(ls.take(n as int) =~= ls);
        }
        Ok(out)
    }
}

/// `parts` joined with newlines between them.
pub open spec fn join_nl(ls: Seq<Seq<char>>) -> Seq<char>
    decreases ls.len(),
{
    if ls.len() == 0 {
        Seq::empty()
    } else if ls.len() == 1 {
        ls[0]
    } else {
        join_nl(ls.drop_last()) + seq!['\n'] + ls.last()
    }
}

impl Rustc {
    /// Cuts a `--print=target-features` listing at the first line opening
    /// the code-generation section, and joins what comes before it: the
    /// per-feature part of the listing, the part a reader is shown.
    pub fn filter_features_listing(listing: &str) -> (r: String)
        ensures
            exists|cut: int|
                #![trigger spec_lines(listing@).take(cut)]
                0 <= cut <= spec_lines(listing@).len() && r@ == join_nl(
                    spec_lines(listing@).take(cut),
                ) && (cut < spec_lines(listing@).len()
                    ==> "Code-generation features supported by LLVM"@.is_prefix_of(
                    spec_lines(listing@)[cut],
                )) && (forall|j: int|
                    0 <= j < cut
                        ==> !"Code-generation features supported by LLVM"@.is_prefix_of(
                        #[trigger] spec_lines(listing@)[j],
                    )),
    {
        let lines = split_lines(listing);
        let n = lines.len();
        let ghost ls = spec_lines(listing@);
        let mut out = String::new();
        let mut i: usize = 0;
        while i < n
            invariant
                i <= n,
                n == ls.len(),
                ls == lines.deep_view(),
                ls == spec_lines(listing@),
                out@ == join_nl(ls.take(i as int)),
                forall|j: int|
                    0 <= j < i
                        ==> !"Code-generation features supported by LLVM"@.is_prefix_of(
                        #[trigger] ls[j],
                    ),
            ensures
                i <= n,
                n == ls.len(),
                out@ == join_nl(ls.take(i as int)),
                forall|j: int|
                    0 <= j < i
                        ==> !"Code-generation features supported by LLVM"@.is_prefix_of(
                        #[trigger] ls[j],
                    ),
                i < n ==> "Code-generation features supported by LLVM"@.is_prefix_of(
                    ls[i as int],
                ),
            decreases n - i,
        {
            proof {
                assert(lines.deep_view()[i as int] == lines@[i as int]@);
            }
            if str_starts_with(
                lines[i].as_str(),
                "Code-generation features supported by LLVM",
            ) {
                break;
            }
            proof {
                reveal_strlit("\n");
            }
            if i > 0 {
                out.append("\n");
            }
            out.append(lines[i].as_str());
            proof {
                let cur = ls.take(i + 1);
                assert(cur.drop_last() =~= ls.take(i as int));
                assert(cur.last() == ls[i as int]);
                assert(out@ =~= join_nl(cur));
            }
            i = i + 1;
        }
        out
    }

    /// Lays out one compiler answer as the report the user is shown: the
    /// description, then the compiler's standard output and standard error
    /// under their own headers, then the end marker.
    pub fn format_query_report(desc: &str, stdout: &str, stderr: &str) -> (r: String)
        ensures
            r@ == desc@ + "\n[rustc-stdout]\n"@ + stdout@ + "\n[rustc-stderr]\n"@ + stderr@
                + "\n[rustc-end]"@,
    {
        let mut out = desc.to_owned();
        out.append("\n[rustc-stdout]\n");
        out.append(stdout);
        out.append("\n[rustc-stderr]\n");
        out.append(stderr);
        out.append("\n[rustc-end]");
        out
    }
}

} // verus!
