//! The compute side of the compiler driver: the flag strings handed to the
//! compiler and the stable per-variant file names, each pinned character
//! for character.

use vstd::prelude::*;
use vstd::string::{StrSliceExecFns, StringExecFns};

use crate::dispatch::underscore_join;
use crate::features::CpuFeatures;

verus! {

/// The directory a build profile's artifacts land in: `dev` builds land in
/// `debug`, every other profile in a directory of its own name.
pub open spec fn profile_dir_of_spec(profile: Seq<char>) -> Seq<char> {
    if profile == "dev"@ {
        "debug"@
    } else {
        profile
    }
}

/// Maps a profile name to its artifact directory.
pub fn profile_dir_of(profile: &str) -> (r: String)
    ensures
        r@ == profile_dir_of_spec(profile@),
{
    if crate::order::str_same(profile, "dev") {
        String::from_str("debug")
    } else {
        profile.to_owned()
    }
}

/// Appends the target-feature selection to the caller's compiler flags:
/// the environment's flags are augmented, never replaced.
pub fn augment_rustflags(rustflags: &str, arch_flags: &str) -> (r: String)
    ensures
        r@ == rustflags@ + " -Ctarget-feature="@ + arch_flags@,
{
    let mut out = rustflags.to_owned();
    out.append(" -Ctarget-feature=");
    out.append(arch_flags);
    out
}

/// Appends the linker flag that asks the Microsoft toolchain for
/// reproducible binaries, so byte-equality deduplication keeps working.
pub fn with_reproducible_linking(rustflags: &str) -> (r: String)
    ensures
        r@ == rustflags@ + " -C link-args=/Brepro"@,
{
    let mut out = rustflags.to_owned();
    out.append(" -C link-args=/Brepro");
    out
}

/// The stable scratch name of one variant's executable: `bin-` and the
/// feature tokens joined by underscores, with the platform's executable
/// extension when there is one.
pub open spec fn variant_file_name_of(ts: Seq<Seq<char>>, ext: Seq<char>) -> Seq<char> {
    let stem = "bin-"@ + underscore_join(ts);
    if ext.len() > 0 {
        stem + seq!['.'] + ext
    } else {
        stem
    }
}

/// Builds the stable scratch file name for a variant.
pub fn variant_file_name(feats: &CpuFeatures, ext: &str) -> (r: String)
    ensures
        r@ == variant_file_name_of(feats@, ext@),
{
    let mut out = String::from_str("bin-");
    let n = feats.tokens.len();
    let mut i: usize = 0;
    while i < n
        invariant
            i <= n,
            n == feats@.len(),
            out@ == "bin-"@ + underscore_join(feats@.take(i as int)),
        decreases n - i,
    {
        proof {
            reveal_strlit("_");
        }
        if i > 0 {
            out.append("_");
        }
        out.append(feats.tokens[i].as_str());
        proof {
            let cur = feats@.take(i + 1);
            assert(cur.drop_last() =~= feats@.take(i as int));
            assert(cur.last() == feats@[i as int]);
            assert(out@ =~= "bin-"@ + underscore_join(cur));
        }
        i = i + 1;
    }
    proof {
        assert(feats@.take(n as int) =~= feats@);
    }
    if ext.unicode_len() > 0 {
        proof {
            reveal_strlit(".");
        }
        out.append(".");
        out.append(ext);
        proof {
            assert(out@ =~= variant_file_name_of(feats@, ext@));
        }
    }
    out
}

} // verus!
