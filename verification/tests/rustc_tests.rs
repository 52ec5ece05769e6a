use cargo_multiarch::driver::{
    augment_rustflags, profile_dir_of, variant_file_name, with_reproducible_linking,
};
use cargo_multiarch::features::CpuFeatures;
use cargo_multiarch::launcher::FatbinCrate;
use cargo_multiarch::rustc_queries::{QueryError, Rustc};

fn set(tokens: &[&str]) -> CpuFeatures {
    CpuFeatures::from_iter(tokens.iter().map(|t| t.to_string()).collect())
}

#[test]
fn nightly_is_read_from_the_release_line() {
    let out = "rustc 1.81.0-nightly (abcdef 2024-06-01)\nbinary: rustc\nrelease: 1.81.0-nightly\nhost: x86_64-unknown-linux-gnu\n";
    assert!(Rustc::is_nightly(out));
    let stable = "rustc 1.81.0\nrelease: 1.81.0\nhost: x86_64-unknown-linux-gnu\n";
    assert!(!Rustc::is_nightly(stable));
    assert!(!Rustc::is_nightly(""));
    assert!(!Rustc::is_nightly("no such line\n"));
}

#[test]
fn host_target_is_read_from_the_host_line() {
    let out = "rustc 1.81.0\nrelease: 1.81.0\nhost: x86_64-unknown-linux-gnu\n";
    assert_eq!(
        Rustc::get_host_target(out),
        Ok("x86_64-unknown-linux-gnu".to_string())
    );
    assert_eq!(
        Rustc::get_host_target("release: 1.81.0\n"),
        Err(QueryError::NoHostTarget)
    );
}

#[test]
fn host_cpu_is_read_from_the_native_line() {
    let out = "Available CPUs for this target:\n    native                  - Select the CPU of the current host (currently alderlake).\n    x86-64                  - baseline.\n";
    assert_eq!(Rustc::get_host_cpu(out), Ok("alderlake".to_string()));
    assert_eq!(
        Rustc::get_host_cpu("nothing here\n"),
        Err(QueryError::NoHostCpu)
    );
}

#[test]
fn cpu_features_are_read_from_cfg_lines() {
    let out = "debug_assertions\ntarget_feature=\"avx\"\ntarget_feature=\"avx2\"\nunix\ntarget_feature=\"sse4.2\"\n";
    let feats = Rustc::get_cpufeatures_for_programs(out, true, true).unwrap();
    assert_eq!(feats, vec!["avx".to_string(), "avx2".to_string(), "sse4.2".to_string()]);
}

#[test]
fn failed_cfg_query_means_invalid_cpu() {
    assert_eq!(
        Rustc::get_cpufeatures_for_programs("", false, true),
        Err(QueryError::InvalidCpu)
    );
    assert_eq!(
        Rustc::get_cpufeatures_for_programs("", true, false),
        Err(QueryError::InvalidCpu)
    );
    assert_eq!(Rustc::get_cpufeatures_for_programs("", true, true), Ok(Vec::new()));
}

#[test]
fn feature_listing_is_cut_at_the_codegen_section() {
    let listing = "Features supported by rustc:\n    avx\n    avx2\nCode-generation features supported by LLVM (not rustc):\n    secret\n";
    assert_eq!(
        Rustc::filter_features_listing(listing),
        "Features supported by rustc:\n    avx\n    avx2"
    );
    assert_eq!(Rustc::filter_features_listing("a\nb"), "a\nb");
}

#[test]
fn query_report_layout() {
    let r = Rustc::format_query_report("Querying CPUs for target 'x'", "out", "err");
    assert_eq!(
        r,
        "Querying CPUs for target 'x'\n[rustc-stdout]\nout\n[rustc-stderr]\nerr\n[rustc-end]"
    );
}

#[test]
fn profile_directories() {
    assert_eq!(profile_dir_of("dev"), "debug");
    assert_eq!(profile_dir_of("release"), "release");
    assert_eq!(profile_dir_of("bench"), "bench");
}

#[test]
fn rustflags_are_augmented_not_replaced() {
    assert_eq!(
        augment_rustflags("-O", "+avx,+avx2"),
        "-O -Ctarget-feature=+avx,+avx2"
    );
    assert_eq!(augment_rustflags("", ""), " -Ctarget-feature=");
    assert_eq!(
        with_reproducible_linking("-O"),
        "-O -C link-args=/Brepro"
    );
}

#[test]
fn variant_file_names() {
    assert_eq!(variant_file_name(&set(&["avx", "avx2"]), ""), "bin-avx_avx2");
    assert_eq!(variant_file_name(&set(&["avx"]), "exe"), "bin-avx.exe");
    assert_eq!(variant_file_name(&CpuFeatures::new(), ""), "bin-");
}

#[test]
fn launcher_package_texts() {
    let fb = FatbinCrate::generate(
        "target/cargo-multiarch".to_string(),
        "target/cargo-multiarch/multiarch-dispatch-autogen/Cargo.toml".to_string(),
        "/src/multiarch-dispatch",
    );
    assert!(fb.manifest_text.contains("name = \"multiarch-dispatch-autogen\""));
    assert!(fb.manifest_text.contains("path = \"/src/multiarch-dispatch\""));
    assert!(fb.manifest_text.contains("panic = \"abort\""));
    assert!(fb.manifest_text.contains("lto = true"));
    assert!(fb.manifest_text.contains("codegen-units = 1"));
    assert!(fb.manifest_text.contains("opt-level = \"z\""));
    assert!(fb.manifest_text.contains("strip = \"symbols\""));
    assert!(fb.manifest_text.ends_with("[workspace]\n"));
    assert_eq!(fb.main_text, "#![no_main]\npub use multiarch_dispatch::main;\n");
    assert_eq!(fb.outdir, "target/cargo-multiarch");
}
