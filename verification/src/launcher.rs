//! The generated launcher package.
//!
//! The final fat binary is built from a small synthesized package: a
//! manifest declaring one binary with a size-oriented, stripped,
//! panic-abort release profile and a path dependency on the dispatcher
//! library, and an entry file that re-exports the dispatcher's entry
//! symbol. The texts are pinned character for character; writing them to
//! disk and building the package is the caller's business.

use vstd::prelude::*;
use vstd::string::StringExecFns;

verus! {

/// The manifest of the launcher package, around the dispatcher path.
pub open spec fn launcher_manifest_of(dispatcher_path: Seq<char>) -> Seq<char> {
    "[package]\nname = \"multiarch-dispatch-autogen\"\npublish = false\nedition = \"2021\"\n\n[dependencies]\nmultiarch-dispatch = { path = \""@
        + dispatcher_path
        + "\" }\n\n[profile.release]\nlto = true\nstrip = \"symbols\"\nopt-level = \"z\"\ncodegen-units = 1\npanic = \"abort\"\n\n[workspace]\n"@
}

/// The entry file of the launcher package.
pub open spec fn launcher_main_of() -> Seq<char> {
    "#![no_main]\npub use multiarch_dispatch::main;\n"@
}

/// The synthesized launcher package: where it lives and what its two
/// files hold.
pub struct FatbinCrate {
    /// The scratch directory the package tree lives under.
    pub outdir: String,
    /// The path of the package's manifest file.
    pub cargo_toml: String,
    /// The manifest's text.
    pub manifest_text: String,
    /// The entry file's text.
    pub main_text: String,
}

impl FatbinCrate {
    /// Lays out the launcher package for the given dispatcher library: the
    /// two file texts, pinned to the path handed in.
    pub fn generate(outdir: String, cargo_toml: String, dispatcher_path: &str) -> (r:
        FatbinCrate)
        ensures
            r.outdir == outdir,
            r.cargo_toml == cargo_toml,
            r.manifest_text@ == launcher_manifest_of(dispatcher_path@),
            r.main_text@ == launcher_main_of(),
    {
        let mut manifest_text = String::from_str(
            "[package]\nname = \"multiarch-dispatch-autogen\"\npublish = false\nedition = \"2021\"\n\n[dependencies]\nmultiarch-dispatch = { path = \"",
        );
        manifest_text.append(dispatcher_path);
        manifest_text.append(
            "\" }\n\n[profile.release]\nlto = true\nstrip = \"symbols\"\nopt-level = \"z\"\ncodegen-units = 1\npanic = \"abort\"\n\n[workspace]\n",
        );
        let main_text = String::from_str("#![no_main]\npub use multiarch_dispatch::main;\n");
        FatbinCrate { outdir, cargo_toml, manifest_text, main_text }
    }
}

} // verus!
