use cargo_multiarch::codec::{patch_header_check, reconstruct_variant, UnpackError};
use cargo_multiarch::features::CpuFeatures;
use cargo_multiarch::pack::{build_fatbin, sort_by_features, VariantBytes};

fn set(tokens: &[&str]) -> CpuFeatures {
    CpuFeatures::from_iter(tokens.iter().map(|t| t.to_string()).collect())
}

fn strings(items: &[&str]) -> Vec<String> {
    items.iter().map(|t| t.to_string()).collect()
}

fn fallback_bytes() -> Vec<u8> {
    let mut v = Vec::new();
    for i in 0..4096u32 {
        v.push((i % 251) as u8);
    }
    v
}

fn variant_bytes() -> Vec<u8> {
    let mut v = fallback_bytes();
    v[100] = 7;
    v[2000] = 9;
    v.push(42);
    v
}

#[test]
fn sorting_is_descending_and_stable() {
    let vs = vec![
        VariantBytes { cpufeatures: CpuFeatures::new(), bytes: vec![0] },
        VariantBytes { cpufeatures: set(&["avx"]), bytes: vec![1] },
        VariantBytes { cpufeatures: set(&["sse3"]), bytes: vec![2] },
        VariantBytes { cpufeatures: set(&["avx", "avx2"]), bytes: vec![3] },
    ];
    let sorted = sort_by_features(vs);
    let marks: Vec<u8> = sorted.iter().map(|v| v.bytes[0]).collect();
    // Two variants declare one feature each; manifest order is kept there.
    assert_eq!(marks, vec![3, 1, 2, 0]);
}

#[test]
fn round_trip_through_diff_compress_apply() {
    // apply(diff(A, B), decompress(compress(A))) == B, byte for byte.
    let a = fallback_bytes();
    let b = variant_bytes();
    let vs = vec![
        VariantBytes { cpufeatures: CpuFeatures::new(), bytes: a.clone() },
        VariantBytes { cpufeatures: set(&["avx", "avx2"]), bytes: b.clone() },
    ];
    let img = build_fatbin(vs).unwrap();
    assert_eq!(img.patches.len(), 1);
    assert_eq!(img.patches_features_lists.len(), 1);
    assert_eq!(img.patches_features_lists[0].to_compiler_flags(), "+avx,+avx2");
    let rebuilt = reconstruct_variant(&img.default_exe, &img.patches[0]).unwrap();
    assert_eq!(rebuilt, b);
    let fallback = img.extract_flavor(None).unwrap();
    assert_eq!(fallback, a);
    let patched = img.extract_flavor(Some(0)).unwrap();
    assert_eq!(patched, b);
}

#[test]
fn packing_twice_gives_identical_images() {
    let mk = || {
        vec![
            VariantBytes { cpufeatures: CpuFeatures::new(), bytes: fallback_bytes() },
            VariantBytes { cpufeatures: set(&["avx"]), bytes: variant_bytes() },
        ]
    };
    let img1 = build_fatbin(mk()).unwrap();
    let img2 = build_fatbin(mk()).unwrap();
    assert_eq!(img1.default_exe, img2.default_exe);
    assert_eq!(img1.patches, img2.patches);
    assert_eq!(
        img1.patches_features_lists.len(),
        img2.patches_features_lists.len()
    );
}

#[test]
fn empty_slate_packs_to_the_empty_image() {
    let img = build_fatbin(Vec::new()).unwrap();
    assert!(img.default_exe.is_empty());
    assert!(img.patches.is_empty());
    assert!(img.patches_features_lists.is_empty());
}

#[test]
fn single_variant_image_runs_the_fallback() {
    // A slate with only one variant packs to a patchless image whose
    // fallback is that variant; the dispatcher decompresses it directly.
    let b = variant_bytes();
    let vs = vec![VariantBytes { cpufeatures: set(&["avx", "avx2"]), bytes: b.clone() }];
    let img = build_fatbin(vs).unwrap();
    assert!(img.patches.is_empty());
    let host = strings(&["avx", "avx2"]);
    let (name, bytes) = img.get_best_flavor(&host, "prog").unwrap();
    assert_eq!(name, "prog_generic");
    assert_eq!(bytes, b);
}

#[test]
fn dispatch_rebuilds_the_chosen_variant() {
    let a = fallback_bytes();
    let b = variant_bytes();
    let vs = vec![
        VariantBytes { cpufeatures: CpuFeatures::new(), bytes: a.clone() },
        VariantBytes { cpufeatures: set(&["avx", "avx2"]), bytes: b.clone() },
    ];
    let img = build_fatbin(vs).unwrap();
    // Host with AVX2: the patched variant wins and is rebuilt exactly.
    let (name, bytes) = img.get_best_flavor(&strings(&["avx", "avx2"]), "prog").unwrap();
    assert_eq!(name, "prog_avx_avx2");
    assert_eq!(bytes, b);
    // Host without AVX: the fallback is decompressed directly.
    let (name, bytes) = img.get_best_flavor(&strings(&["sse3"]), "prog").unwrap();
    assert_eq!(name, "prog_generic");
    assert_eq!(bytes, a);
}

#[test]
fn crafted_negative_size_patch_is_an_error_not_a_panic() {
    // A 32-byte patch with the right magic whose first size field decodes
    // negative; a naive header check wraps on it. The library refuses it.
    let mut bad = Vec::new();
    bad.extend_from_slice(&[66, 83, 68, 73, 70, 70, 52, 48]);
    bad.extend_from_slice(&[1, 0, 0, 0, 0, 0, 0, 0x80]);
    bad.extend_from_slice(&[0; 16]);
    assert!(!patch_header_check(&bad));

    let a = fallback_bytes();
    let vs = vec![
        VariantBytes { cpufeatures: CpuFeatures::new(), bytes: a.clone() },
        VariantBytes { cpufeatures: set(&["avx"]), bytes: variant_bytes() },
    ];
    let mut img = build_fatbin(vs).unwrap();
    img.patches[0] = bad.clone();
    assert!(matches!(img.extract_flavor(Some(0)), Err(UnpackError::Patch)));
    assert!(matches!(
        reconstruct_variant(&img.default_exe, &bad),
        Err(UnpackError::Patch)
    ));
}

#[test]
fn genuine_patches_carry_a_valid_header() {
    let vs = vec![
        VariantBytes { cpufeatures: CpuFeatures::new(), bytes: fallback_bytes() },
        VariantBytes { cpufeatures: set(&["avx"]), bytes: variant_bytes() },
    ];
    let img = build_fatbin(vs).unwrap();
    assert!(patch_header_check(&img.patches[0]));
    assert!(!patch_header_check(&[]));
    assert!(!patch_header_check(&[66, 83, 68, 73, 70, 70, 52, 48]));
}
