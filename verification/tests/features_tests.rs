use cargo_multiarch::features::CpuFeatures;

fn set(tokens: &[&str]) -> CpuFeatures {
    CpuFeatures::from_iter(tokens.iter().map(|t| t.to_string()).collect())
}

#[test]
fn compiler_flags_of_two_tokens() {
    let fs = set(&["avx", "avx2"]);
    assert_eq!(fs.to_compiler_flags(), "+avx,+avx2");
}

#[test]
fn compiler_flags_of_empty_set_is_empty() {
    let fs = CpuFeatures::new();
    assert_eq!(fs.to_compiler_flags(), "");
}

#[test]
fn compiler_flags_of_single_token() {
    let fs = set(&["sse4.2"]);
    assert_eq!(fs.to_compiler_flags(), "+sse4.2");
}

#[test]
fn tokens_are_sorted_and_unique() {
    // The canonical form drops duplicates and orders by code point.
    let fs = set(&["sse3", "avx", "bmi", "avx", "sse3"]);
    let tokens: Vec<&String> = fs.iter().iter().collect();
    assert_eq!(tokens, ["avx", "bmi", "sse3"].iter().map(|s| s.to_string()).collect::<Vec<_>>().iter().collect::<Vec<_>>());
}

#[test]
fn insert_token_keeps_canonical_order() {
    let mut fs = set(&["bmi"]);
    fs.insert_token("avx".to_string());
    fs.insert_token("sse3".to_string());
    fs.insert_token("avx".to_string());
    assert_eq!(fs.len(), 3);
    assert_eq!(fs.to_compiler_flags(), "+avx,+bmi,+sse3");
}

#[test]
fn dotted_tokens_sort_as_raw_bytes() {
    let fs = set(&["sse4.2", "sse4.1", "popcnt"]);
    assert_eq!(fs.to_compiler_flags(), "+popcnt,+sse4.1,+sse4.2");
}

#[test]
fn feats_comparisons() {
    let a = set(&["avx"]);
    let b = set(&["avx", "avx2"]);
    assert!(a.feats_less(&b));
    assert!(!b.feats_less(&a));
    assert!(!a.feats_less(&a));
    assert!(a.feats_same(&set(&["avx"])));
    assert!(!a.feats_same(&b));
}
