use cargo_multiarch::codec::UnpackError;
use cargo_multiarch::dispatch::{flavor_name, is_supported, list_contains, DispatchError, FatBin};
use cargo_multiarch::features::CpuFeatures;
use cargo_multiarch::rank::{get_top_ranked, rank_of, score_of_feats};

fn set(tokens: &[&str]) -> CpuFeatures {
    CpuFeatures::from_iter(tokens.iter().map(|t| t.to_string()).collect())
}

fn strings(items: &[&str]) -> Vec<String> {
    items.iter().map(|t| t.to_string()).collect()
}

#[test]
fn ranking_table_levels_and_weights() {
    assert_eq!(rank_of("sse3"), (2, 1));
    assert_eq!(rank_of("ssse3"), (2, 2));
    assert_eq!(rank_of("sse4.1"), (2, 3));
    assert_eq!(rank_of("popcnt"), (2, 4));
    assert_eq!(rank_of("sse4.2"), (2, 5));
    assert_eq!(rank_of("avx"), (3, 1));
    assert_eq!(rank_of("avx2"), (3, 2));
    assert_eq!(rank_of("lzcnt"), (3, 2));
    assert_eq!(rank_of("bmi"), (3, 2));
    assert_eq!(rank_of("bmi2"), (3, 2));
    assert_eq!(rank_of("avx512f"), (4, 1));
    assert_eq!(rank_of("avx512cd"), (4, 1));
    assert_eq!(rank_of("avx512vl"), (4, 2));
    assert_eq!(rank_of("avx512dq"), (4, 2));
    assert_eq!(rank_of("avx512bw"), (4, 2));
    assert_eq!(rank_of("aes"), (0, 0));
}

#[test]
fn score_folds_to_max_level_weight_and_count() {
    // avx2, lzcnt, bmi, bmi2 all sit at (3, 2): count 4.
    let fs = set(&["avx", "avx2", "bmi", "bmi2", "lzcnt", "sse4.2"]);
    assert_eq!(score_of_feats(&fs), (3, 2, 4));
    // Unranked tokens are passed over.
    assert_eq!(score_of_feats(&set(&["aes"])), (0, 0, 0));
    assert_eq!(score_of_feats(&CpuFeatures::new()), (0, 0, 0));
}

#[test]
fn top_ranked_prefers_higher_score_and_earlier_ties() {
    let lists = vec![set(&["avx"]), set(&["avx2"]), set(&["bmi"])];
    // avx2 and bmi tie at (3,2,1); avx2 comes first among the maximal.
    assert_eq!(get_top_ranked(&lists), Some(1));
    assert_eq!(get_top_ranked(&Vec::new()), None);
    // All-zero scores still pick the earliest entry.
    let plain = vec![set(&["aes"]), set(&["sha"])];
    assert_eq!(get_top_ranked(&plain), Some(0));
}

#[test]
fn host_feature_membership() {
    let host = strings(&["avx", "avx2", "sse3"]);
    assert!(list_contains(&host, "avx2"));
    assert!(!list_contains(&host, "bmi"));
    assert!(is_supported(&set(&["avx", "sse3"]), &host));
    assert!(!is_supported(&set(&["avx", "bmi"]), &host));
    assert!(is_supported(&CpuFeatures::new(), &host));
}

fn two_variant_image() -> FatBin {
    // Compressed fallback is fabricated; these tests never decompress it.
    FatBin {
        default_exe: vec![1, 2, 3],
        patches_features_lists: vec![set(&["avx", "avx2"])],
        patches: vec![vec![9, 9]],
    }
}

#[test]
fn host_with_avx2_picks_the_avx2_variant() {
    let img = two_variant_image();
    let host = strings(&["avx", "avx2"]);
    assert_eq!(img.get_best_flavor_id(&host), Some(0));
}

#[test]
fn host_without_avx_falls_through_to_fallback() {
    let img = two_variant_image();
    let host = strings(&["sse3"]);
    assert_eq!(img.get_best_flavor_id(&host), None);
}

#[test]
fn only_fallback_image_always_chooses_none() {
    let img = FatBin {
        default_exe: vec![1],
        patches_features_lists: Vec::new(),
        patches: Vec::new(),
    };
    assert_eq!(img.get_best_flavor_id(&strings(&["avx", "avx2"])), None);
    assert_eq!(img.get_best_flavor_id(&Vec::new()), None);
}

#[test]
fn empty_image_is_a_software_error() {
    let img = FatBin {
        default_exe: Vec::new(),
        patches_features_lists: Vec::new(),
        patches: Vec::new(),
    };
    let r = img.get_best_flavor(&Vec::new(), "prog");
    assert_eq!(r, Err(DispatchError::EmptyImage));
    assert_eq!(DispatchError::EmptyImage.exit_code(), 70);
    assert_eq!(DispatchError::Unpack(UnpackError::Patch).exit_code(), 74);
    assert_eq!(DispatchError::Unpack(UnpackError::Decompress).exit_code(), 74);
}

#[test]
fn flavor_names_for_variant_and_fallback() {
    assert_eq!(flavor_name("prog", Some(&set(&["avx", "avx2"]))), "prog_avx_avx2");
    assert_eq!(flavor_name("prog", None), "prog_generic");
    assert_eq!(flavor_name("prog", Some(&CpuFeatures::new())), "prog_");
}

#[test]
fn get_features_lists_reflects_entries() {
    let img = two_variant_image();
    assert_eq!(img.get_features_lists().len(), 1);
    assert_eq!(img.get_features_lists()[0].to_compiler_flags(), "+avx,+avx2");
}
