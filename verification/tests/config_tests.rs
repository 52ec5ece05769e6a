use cargo_multiarch::config::{ArchConfig, ConfigError, ConfigMultiArch};
use cargo_multiarch::features::CpuFeatures;

fn set(tokens: &[&str]) -> CpuFeatures {
    CpuFeatures::from_iter(tokens.iter().map(|t| t.to_string()).collect())
}

fn strings(items: &[&str]) -> Vec<String> {
    items.iter().map(|t| t.to_string()).collect()
}

fn x86_config(cpus: &[&str], lists: &[&[&str]]) -> ConfigMultiArch {
    let cfg = ArchConfig::new(strings(cpus), lists.iter().map(|l| set(l)).collect());
    ConfigMultiArch::new(
        "x86_64-unknown-linux-gnu".to_string(),
        "x86_64".to_string(),
    )
    .load_cargo_toml(vec![("x86_64".to_string(), cfg)])
}

fn flags_of(lists: &Vec<CpuFeatures>) -> Vec<String> {
    lists.iter().map(|l| l.to_compiler_flags()).collect()
}

#[test]
fn metadata_lists_are_canonicalized() {
    let cfg = x86_config(&["x86-64-v3", "x86-64-v2", "x86-64-v3"], &[&["avx"], &[], &["avx"]]);
    assert_eq!(cfg.archs.len(), 1);
    let (arch, policy) = &cfg.archs[0];
    assert_eq!(arch, "x86_64");
    assert_eq!(policy.cpus, strings(&["x86-64-v2", "x86-64-v3"]));
    assert_eq!(policy.cpufeatures_lists.len(), 2);
    assert_eq!(flags_of(&policy.cpufeatures_lists), strings(&["", "+avx"]));
}

#[test]
fn empty_overrides_leave_metadata_untouched() {
    let cfg = x86_config(&["x86-64-v3"], &[&["avx"]]);
    let cfg = cfg.override_cpus(Vec::new());
    let cfg = cfg.override_features_lists(Vec::new());
    assert_eq!(cfg.archs.len(), 1);
    assert_eq!(cfg.archs[0].1.cpus, strings(&["x86-64-v3"]));
    assert_eq!(flags_of(&cfg.archs[0].1.cpufeatures_lists), strings(&["+avx"]));
}

#[test]
fn cpu_override_on_empty_metadata_creates_the_entry() {
    let cfg = ConfigMultiArch::new(
        "x86_64-unknown-linux-gnu".to_string(),
        "x86_64".to_string(),
    );
    let cfg = cfg.override_cpus(strings(&["x86-64-v3"]));
    assert_eq!(cfg.archs.len(), 1);
    assert_eq!(cfg.archs[0].0, "x86_64");
    assert_eq!(cfg.archs[0].1.cpus, strings(&["x86-64-v3"]));
    assert!(cfg.archs[0].1.cpufeatures_lists.is_empty());
}

#[test]
fn cpu_override_replaces_only_the_current_arch() {
    let arm = ArchConfig::new(strings(&["cortex-a76"]), vec![]);
    let x86 = ArchConfig::new(strings(&["x86-64-v2"]), vec![set(&["avx"])]);
    let cfg = ConfigMultiArch::new(
        "x86_64-unknown-linux-gnu".to_string(),
        "x86_64".to_string(),
    )
    .load_cargo_toml(vec![("aarch64".to_string(), arm), ("x86_64".to_string(), x86)]);
    let cfg = cfg.override_cpus(strings(&["x86-64-v4"]));
    assert_eq!(cfg.archs.len(), 2);
    assert_eq!(cfg.archs[0].1.cpus, strings(&["cortex-a76"]));
    assert_eq!(cfg.archs[1].1.cpus, strings(&["x86-64-v4"]));
    // The explicit lists of the overridden architecture are kept.
    assert_eq!(flags_of(&cfg.archs[1].1.cpufeatures_lists), strings(&["+avx"]));
}

#[test]
fn feature_list_override_replaces_metadata_lists() {
    // Metadata declares [["avx"], ["avx2"]]; the user passes sse4.2.
    let cfg = x86_config(&[], &[&["avx"], &["avx2"]]);
    let cfg = cfg.override_features_lists(vec![set(&["sse4.2"])]);
    let slate = cfg.get_cpu_features(&Vec::new());
    assert_eq!(flags_of(&slate), strings(&["+sse4.2"]));
}

#[test]
fn resolver_unions_expansions_with_explicit_lists() {
    let cfg = x86_config(&["x86-64-v3"], &[&[], &["sse3"]]);
    // The caller expanded x86-64-v3 through the compiler query.
    let expansions = vec![set(&["avx", "avx2", "bmi", "bmi2", "fma", "lzcnt", "movbe",
        "popcnt", "sse4.2"])];
    let slate = cfg.resolve_variants(&expansions).unwrap();
    assert_eq!(
        flags_of(&slate),
        strings(&[
            "",
            "+avx,+avx2,+bmi,+bmi2,+fma,+lzcnt,+movbe,+popcnt,+sse4.2",
            "+sse3",
        ])
    );
}

#[test]
fn duplicate_lists_collapse_in_the_slate() {
    let cfg = x86_config(&[], &[&["avx"], &["avx"]]);
    let slate = cfg.get_cpu_features(&vec![set(&["avx"])]);
    assert_eq!(flags_of(&slate), strings(&["+avx"]));
}

#[test]
fn nothing_configured_is_an_error() {
    let cfg = ConfigMultiArch::new(
        "x86_64-unknown-linux-gnu".to_string(),
        "x86_64".to_string(),
    );
    assert!(matches!(cfg.resolve_variants(&Vec::new()), Err(ConfigError::NoVariants)));
    // An architecture entry without any content is an error too.
    let cfg = x86_config(&[], &[]);
    assert!(matches!(cfg.resolve_variants(&Vec::new()), Err(ConfigError::NoVariants)));
}

#[test]
fn other_architectures_are_ignored_by_the_resolver() {
    let arm = ArchConfig::new(vec![], vec![set(&["neon"])]);
    let cfg = ConfigMultiArch::new(
        "x86_64-unknown-linux-gnu".to_string(),
        "x86_64".to_string(),
    )
    .load_cargo_toml(vec![("aarch64".to_string(), arm)]);
    assert!(matches!(cfg.resolve_variants(&Vec::new()), Err(ConfigError::NoVariants)));
}

#[test]
fn cpus_for_current_arch_reads_the_policy() {
    let cfg = x86_config(&["x86-64-v2", "x86-64-v3"], &[]);
    assert_eq!(cfg.cpus_for_current_arch(), strings(&["x86-64-v2", "x86-64-v3"]));
    let none = ConfigMultiArch::new("t".to_string(), "riscv64".to_string());
    assert!(none.cpus_for_current_arch().is_empty());
}

#[test]
fn last_metadata_entry_for_an_architecture_wins() {
    let first = ArchConfig::new(strings(&["a"]), vec![]);
    let second = ArchConfig::new(strings(&["b"]), vec![]);
    let cfg = ConfigMultiArch::new("t".to_string(), "x86_64".to_string())
        .load_cargo_toml(vec![
            ("x86_64".to_string(), first),
            ("x86_64".to_string(), second),
        ]);
    assert_eq!(cfg.archs.len(), 1);
    assert_eq!(cfg.archs[0].1.cpus, strings(&["b"]));
}

#[test]
fn fallback_only_metadata_yields_one_empty_variant() {
    // cpus = [] and cpufeatures_lists = [[]]: a single variant, the
    // fallback, so the driver can skip packing entirely.
    let cfg = x86_config(&[], &[&[]]);
    let slate = cfg.resolve_variants(&Vec::new()).unwrap();
    assert_eq!(slate.len(), 1);
    assert!(slate[0].is_empty());
}
