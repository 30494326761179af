use epochoxide::fuzzy::{mask, score, score_lower};

#[test]
fn mask_is_necessary_condition_for_match() {
    let m = mask("firefox");
    assert_eq!(mask("fox") & m, mask("fox"));
    assert_ne!(mask("zzz") & m, mask("zzz"));
}

#[test]
fn fuzzy_matches_in_order() {
    let (score, info) = score("ff", "Firefox", false, "text").unwrap();
    assert!(score > 0);
    assert_eq!(info.positions, vec![0, 4]);
}

#[test]
fn exact_requires_substring() {
    assert!(score("fox", "Firefox", true, "text").is_some());
    assert!(score("fx", "Firefox", true, "text").is_none());
}

#[test]
fn scores_follow_the_formulas() {
    // 10000 - 4 + 3 * 100
    assert_eq!(score("fox", "Firefox", true, "text").unwrap().0, 10_296);
    // 1000 + 2 * 100 + (100 - 5) + 500
    assert_eq!(score("ff", "Firefox", false, "text").unwrap().0, 1_795);
    assert_eq!(score("", "anything", false, "text").unwrap().0, 1);
}

#[test]
fn exact_positions_count_bytes_and_others_characters() {
    let (_, exact) = score_lower("b", "éb", true, "text").unwrap();
    assert_eq!(exact.start, 2);
    assert_eq!(exact.positions, vec![2]);
    let (_, spread) = score_lower("b", "éb", false, "name").unwrap();
    assert_eq!(spread.positions, vec![1]);
    assert_eq!(spread.field, "name");
    assert_eq!(score("ÉB", "éb", true, "text").unwrap().1.positions, vec![0, 1, 2]);
}
