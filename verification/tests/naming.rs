use std::collections::HashSet;

use rustortion::preset::naming::{
    hashed_stem, is_unreserved, percent_encode, sanitize_filename, stable_hash,
    HASH_SUFFIX_BYTES, MAX_STEM_BYTES,
};

#[test]
fn sanitize_filename_leaves_already_safe_names_unchanged() {
    for name in ["Rock", "lead-tone_2", "ABC123", "_", "-", "a"] {
        assert_eq!(sanitize_filename(name), name, "name {name:?} was rewritten");
    }
}

#[test]
fn sanitize_filename_distinguishes_zh_cn_names() {
    let metal = sanitize_filename("重金属");
    let clean = sanitize_filename("清音");

    assert_eq!(metal, "%E9%87%8D%E9%87%91%E5%B1%9E");
    assert_eq!(clean, "%E6%B8%85%E9%9F%B3");
    assert_ne!(metal, clean);
    assert!(!metal.contains('_'));
    assert!(!clean.contains('_'));
}

#[test]
fn sanitize_filename_distinguishes_punctuation_only_differences() {
    let names = [
        "My Preset",
        "My-Preset",
        "My_Preset",
        "My.Preset",
        "My/Preset",
        "My:Preset",
        "MyPreset",
        "My%20Preset",
    ];

    let stems: HashSet<String> = names.iter().map(|n| sanitize_filename(n)).collect();
    assert_eq!(stems.len(), names.len(), "punctuation variants collided");

    assert_eq!(sanitize_filename("My Preset"), "My%20Preset");
    assert_eq!(sanitize_filename("My%20Preset"), "My%2520Preset");
    assert!(!sanitize_filename("My/Preset").contains('/'));
}

#[test]
fn sanitize_filename_bounds_length_without_colliding() {
    let long_ascii = "x".repeat(500);
    let long_zh = "重".repeat(500);

    for stem in [
        sanitize_filename(&long_ascii),
        sanitize_filename(&long_zh),
        sanitize_filename(&format!("{long_ascii}y")),
    ] {
        assert!(
            stem.len() <= MAX_STEM_BYTES,
            "stem too long: {}",
            stem.len()
        );
    }

    assert_ne!(
        sanitize_filename(&format!("{long_ascii}a")),
        sanitize_filename(&format!("{long_ascii}b"))
    );
    assert_ne!(
        sanitize_filename(&format!("{long_zh}重")),
        sanitize_filename(&format!("{long_zh}金"))
    );
}

#[test]
fn sanitize_filename_handles_the_empty_name() {
    assert_eq!(sanitize_filename(""), "%");
    assert_eq!(sanitize_filename("%"), "%25");
    assert_ne!(sanitize_filename(""), sanitize_filename("%"));
}

#[test]
fn stable_hash_matches_pinned_values() {
    assert_eq!(stable_hash(b""), 0xcbf2_9ce4_8422_2325);
    assert_eq!(stable_hash(b"rustortion"), 0x79c8_6023_c73e_36c0);
    assert_eq!(stable_hash("重金属".as_bytes()), 0x980e_d7b0_0cf5_300d);
    assert_eq!(
        stable_hash("x".repeat(500).as_bytes()),
        0xb682_2c71_b050_1b75
    );

    assert_eq!(
        sanitize_filename(&"x".repeat(500)),
        format!(
            "{}-b6822c71b0501b75",
            "x".repeat(MAX_STEM_BYTES - HASH_SUFFIX_BYTES)
        )
    );
}

#[test]
fn sanitize_filename_is_deterministic() {
    assert_eq!(sanitize_filename("重金属"), sanitize_filename("重金属"));
    let long = "重".repeat(500);
    assert_eq!(sanitize_filename(&long), sanitize_filename(&long));
}

#[test]
fn unreserved_bytes_are_exactly_alphanumerics_dash_and_underscore() {
    for b in 0u8..=255 {
        let expected = b.is_ascii_alphanumeric() || b == b'-' || b == b'_';
        assert_eq!(is_unreserved(b), expected, "byte {b}");
    }
}

#[test]
fn percent_encode_reports_whether_the_name_fit() {
    assert_eq!(percent_encode("a b", 10), ("a%20b".to_owned(), false));
    // A unit that would cross the budget is not split.
    assert_eq!(percent_encode("ab c", 4), ("ab".to_owned(), true));
    assert_eq!(percent_encode("", 0), (String::new(), false));
}

#[test]
fn hashed_stem_is_the_truncated_encoding_plus_the_digest() {
    let stem = hashed_stem("High_Gain");
    assert_eq!(stem, format!("High_Gain-{:016x}", stable_hash(b"High_Gain")));
    let long = hashed_stem(&"x".repeat(500));
    assert_eq!(long.len(), MAX_STEM_BYTES);
    assert!(long.ends_with("-b6822c71b0501b75"));
}

#[test]
fn a_truncated_stem_is_its_own_encoding() {
    let long = "x".repeat(500);
    let namesake = sanitize_filename(&long);
    assert_eq!(sanitize_filename(&namesake), namesake);
}

fn decode(stem: &str) -> Vec<u8> {
    let b = stem.as_bytes();
    let mut out = Vec::new();
    let mut i = 0;
    while i < b.len() {
        if b[i] == b'%' && i + 2 < b.len() {
            let hex = std::str::from_utf8(&b[i + 1..i + 3]).unwrap();
            out.push(u8::from_str_radix(hex, 16).unwrap());
            i += 3;
        } else {
            out.push(b[i]);
            i += 1;
        }
    }
    out
}

#[test]
fn a_whole_stem_decodes_back_to_the_name() {
    for name in ["My Preset", "重金属", "a/b\\c", "100%", "x"] {
        assert_eq!(decode(&sanitize_filename(name)), name.as_bytes());
    }
}

#[test]
fn beyond_the_bound_a_stem_can_be_its_own_stem() {
    let s = sanitize_filename(&"x".repeat(500));
    assert_eq!(sanitize_filename(&s), s);
}
