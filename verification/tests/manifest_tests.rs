use cargo_multiarch::features::CpuFeatures;
use cargo_multiarch::manifest::{dedup_variants, BuiltVariant};

fn set(tokens: &[&str]) -> CpuFeatures {
    CpuFeatures::from_iter(tokens.iter().map(|t| t.to_string()).collect())
}

fn variant(path: &str, tokens: &[&str], bytes: &[u8]) -> BuiltVariant {
    BuiltVariant::describe(path.to_string(), set(tokens), None, bytes)
}

#[test]
fn digest_is_32_bytes_and_deterministic() {
    let a = variant("a", &[], &[1, 2, 3]);
    let b = variant("b", &["avx"], &[1, 2, 3]);
    let c = variant("c", &[], &[1, 2, 4]);
    assert_eq!(a.digest.len(), 32);
    assert_eq!(a.digest, b.digest);
    assert_ne!(a.digest, c.digest);
}

#[test]
fn describe_keeps_the_record_fields() {
    let v = BuiltVariant::describe(
        "target/bin-avx".to_string(),
        set(&["avx"]),
        Some("tool".to_string()),
        &[5, 6],
    );
    assert_eq!(v.path, "target/bin-avx");
    assert_eq!(v.original_filename, Some("tool".to_string()));
    assert_eq!(v.cpufeatures.to_compiler_flags(), "+avx");
}

#[test]
fn dedup_drops_nothing_when_digests_differ() {
    let vs = vec![
        variant("a", &[], &[1]),
        variant("b", &["avx"], &[2]),
        variant("c", &["avx", "avx2"], &[3]),
    ];
    let out = dedup_variants(vs);
    assert_eq!(out.len(), 3);
    // No two survivors share a digest.
    for i in 0..out.len() {
        for j in 0..out.len() {
            if i != j {
                assert_ne!(out[i].digest, out[j].digest);
            }
        }
    }
}

#[test]
fn dedup_keeps_the_fewest_features_per_digest() {
    // Two variants with byte-identical output: the one with fewer declared
    // features survives, so a possible fallback is never discarded.
    let vs = vec![
        variant("sse3", &["sse3"], &[7, 7, 7]),
        variant("plain", &[], &[7, 7, 7]),
        variant("avx", &["avx"], &[8, 8]),
    ];
    let out = dedup_variants(vs);
    assert_eq!(out.len(), 2);
    for v in &out {
        if v.digest == variant("x", &[], &[7, 7, 7]).digest {
            assert_eq!(v.cpufeatures.len(), 0);
            assert_eq!(v.path, "plain");
        }
    }
}

#[test]
fn duplicate_collapse_to_single_fallback() {
    // A toolchain where the sse3 build is byte-identical to the fallback:
    // after dedup only the empty-feature variant survives.
    let vs = vec![
        variant("plain", &[], &[9, 9, 9, 9]),
        variant("sse3", &["sse3"], &[9, 9, 9, 9]),
    ];
    let out = dedup_variants(vs);
    assert_eq!(out.len(), 1);
    assert_eq!(out[0].cpufeatures.len(), 0);
    assert_eq!(out[0].path, "plain");
}
