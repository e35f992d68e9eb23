use geocoder::model::{LocationInfo, Village};
use geocoder::rank::rank_order;
use geocoder::search::{
    candidate_pool, effective_limit, location_info, present_pool, rank, search_text, village_holds,
    village_matches, Candidate,
    DEFAULT_LIMIT, MAX_LIMIT, POOL_CAP,
};
use geocoder::text::{
    chars_of, contains_chars, holds_keyword, is_whitespace, keywords, like_pattern, split_words,
};

fn village(id: &str, name: &str, district: &str, regency: &str, province: &str) -> Village<(f64, f64)> {
    Village {
        id: id.to_string(),
        name: name.to_string(),
        district: district.to_string(),
        regency: regency.to_string(),
        province: province.to_string(),
        centroid: (-6.2, 106.8),
    }
}

fn candidate(v: Village<(f64, f64)>, distance: Option<i64>) -> Candidate<(f64, f64)> {
    Candidate { village: v, distance_meters: distance }
}

fn ids(out: &Vec<LocationInfo<(f64, f64)>>) -> Vec<String> {
    out.iter().map(|i| i.id.clone()).collect()
}

fn sample_rows() -> Vec<Candidate<(f64, f64)>> {
    vec![
        candidate(village("1", "Kebayoran Lama Utara", "Kebayoran Lama", "Kota Jakarta Selatan", "DKI Jakarta"), Some(500)),
        candidate(village("2", "Menteng", "Menteng", "Kota Jakarta Pusat", "DKI Jakarta"), Some(200)),
        candidate(village("3", "Selatan", "Banjarmasin Selatan", "Kota Banjarmasin", "Kalimantan Selatan"), Some(900)),
        candidate(village("4", "Tebet", "Tebet", "Kota Jakarta Selatan", "DKI Jakarta"), Some(300)),
    ]
}

#[test]
fn limit_zero_is_default() {
    assert_eq!(effective_limit(0), 10);
    assert_eq!(DEFAULT_LIMIT, 10);
}

#[test]
fn limit_is_clamped() {
    assert_eq!(effective_limit(1000), 50);
    assert_eq!(effective_limit(51), 50);
    assert_eq!(effective_limit(50), 50);
    assert_eq!(effective_limit(1), 1);
    assert_eq!(effective_limit(37), 37);
    assert_eq!(MAX_LIMIT, 50);
}

#[test]
fn whitespace_is_unicode_white_space() {
    for c in [' ', '\t', '\n', '\r', '\u{0B}', '\u{0C}', '\u{85}', '\u{A0}', '\u{1680}', '\u{2003}', '\u{2028}', '\u{2029}', '\u{202F}', '\u{205F}', '\u{3000}'] {
        assert!(is_whitespace(c));
    }
    for c in ['a', '0', '%', '\u{200B}', '\u{180E}', '\u{FEFF}'] {
        assert!(!is_whitespace(c));
    }
}

#[test]
fn whitespace_agrees_with_std() {
    let mut n: u32 = 0;
    while n <= 0x3100 {
        if let Some(c) = char::from_u32(n) {
            assert_eq!(is_whitespace(c), c.is_whitespace());
        }
        n += 1;
    }
}

#[test]
fn split_words_on_runs_of_whitespace() {
    assert_eq!(split_words("  jakarta \t selatan\n"), vec!["jakarta".to_string(), "selatan".to_string()]);
    assert_eq!(split_words("one"), vec!["one".to_string()]);
    assert_eq!(split_words(""), Vec::<String>::new());
    assert_eq!(split_words("a\u{3000}b"), vec!["a".to_string(), "b".to_string()]);
}

#[test]
fn split_words_agrees_with_std() {
    for text in ["", " ", "a", " a", "a ", "ab  cd e", "\tx\ny\r\nz ", "é ü", "  Kota  Jakarta   Selatan"] {
        let expected: Vec<String> = text.split_whitespace().map(|s| s.to_string()).collect();
        assert_eq!(split_words(text), expected);
    }
}

#[test]
fn keywords_are_lowercase() {
    assert_eq!(keywords("JaKarta  SELATAN"), vec!["jakarta".to_string(), "selatan".to_string()]);
    assert_eq!(keywords("ÉCOLE"), vec!["école".to_string()]);
}

#[test]
fn keywords_of_blank_query_are_none() {
    assert!(keywords("").is_empty());
    assert!(keywords("   ").is_empty());
    assert!(keywords(" \t\n ").is_empty());
}

#[test]
fn like_pattern_wraps_keyword() {
    assert_eq!(like_pattern("jakarta"), "%jakarta%");
    assert_eq!(like_pattern(""), "%%");
}

#[test]
fn chars_of_lists_characters() {
    assert_eq!(chars_of("aé"), vec!['a', 'é']);
    assert_eq!(chars_of(""), Vec::<char>::new());
}

#[test]
fn contains_chars_finds_substrings() {
    let hay = chars_of("kota jakarta selatan");
    assert!(contains_chars(&hay, &chars_of("jakarta")));
    assert!(contains_chars(&hay, &chars_of("kota")));
    assert!(contains_chars(&hay, &chars_of("selatan")));
    assert!(contains_chars(&hay, &chars_of("a s")));
    assert!(contains_chars(&hay, &chars_of("")));
    assert!(contains_chars(&hay, &hay));
    assert!(!contains_chars(&hay, &chars_of("jakartaa")));
    assert!(!contains_chars(&hay, &chars_of("utara")));
    assert!(!contains_chars(&chars_of("ab"), &chars_of("abc")));
    assert!(contains_chars(&chars_of(""), &chars_of("")));
    assert!(contains_chars(&chars_of("aab"), &chars_of("ab")));
}

#[test]
fn holds_keyword_ignores_case_of_text() {
    assert!(holds_keyword("Kota Jakarta Selatan", &chars_of("jakarta")));
    assert!(holds_keyword("JAKARTA", &chars_of("kart")));
    assert!(!holds_keyword("jakarta", &chars_of("JAKARTA")));
    assert!(!holds_keyword("Bandung", &chars_of("jakarta")));
}

#[test]
fn filter_is_conjunctive_over_fields() {
    let rows = sample_rows();
    let kws = keywords("jakarta selatan");
    assert!(village_matches(&rows[0].village, &kws));
    assert!(!village_matches(&rows[1].village, &kws));
    assert!(!village_matches(&rows[2].village, &kws));
    assert!(village_matches(&rows[3].village, &kws));
    assert_eq!(candidate_pool(&rows, &kws), vec![0, 3]);
}

#[test]
fn filter_matches_keywords_in_different_fields() {
    let v = village("9", "Menteng", "Menteng", "Kota Jakarta Pusat", "DKI Jakarta");
    assert!(village_matches(&v, &keywords("menteng dki")));
    assert!(village_matches(&v, &keywords("PUSAT menteng")));
    assert!(!village_matches(&v, &keywords("menteng selatan")));
    assert!(village_matches(&v, &Vec::new()));
    assert!(village_holds(&v, &chars_of("jakarta")));
    assert!(!village_holds(&v, &chars_of("bandung")));
}

#[test]
fn pool_is_capped() {
    let mut rows = Vec::new();
    for i in 0..150 {
        let name = if i % 3 == 0 { "Other" } else { "Sukamaju" };
        rows.push(candidate(village(&i.to_string(), name, "D", "R", "P"), None));
    }
    let pool = candidate_pool(&rows, &keywords("sukamaju"));
    assert_eq!(pool.len(), POOL_CAP);
    assert_eq!(POOL_CAP, 100);
    let expected: Vec<usize> = (0..150).filter(|i| i % 3 != 0).take(100).collect();
    assert_eq!(pool, expected);
}

#[test]
fn location_info_fills_every_field() {
    let v = village("3174", "Tebet Barat", "Tebet", "Kota Jakarta Selatan", "DKI Jakarta");
    let info = location_info(&v, Some(42));
    assert_eq!(info.level, "village");
    assert_eq!(info.id, "3174");
    assert_eq!(info.name, "Tebet Barat");
    assert_eq!(info.location_detail.village, "Tebet Barat");
    assert_eq!(info.location_detail.district, "Tebet");
    assert_eq!(info.location_detail.regency, "Kota Jakarta Selatan");
    assert_eq!(info.location_detail.province, "DKI Jakarta");
    assert_eq!(info.full_name, "Kelurahan Tebet Barat, Kecamatan Tebet, Kota Jakarta Selatan, DKI Jakarta");
    assert_eq!(info.centroid, (-6.2, 106.8));
    assert_eq!(info.distance_meters, Some(42));
    assert_eq!(location_info(&v, None).distance_meters, None);
}

#[test]
fn rank_order_is_ascending_and_stable() {
    assert_eq!(rank_order(&vec![5, 1, 3]), vec![1, 2, 0]);
    assert_eq!(rank_order(&vec![2, 1, 2, 1, 2]), vec![1, 3, 0, 2, 4]);
    assert_eq!(rank_order(&vec![]), Vec::<usize>::new());
    assert_eq!(rank_order(&vec![7]), vec![0]);
    assert_eq!(rank_order(&vec![-1, -5, 10, -5]), vec![1, 3, 0, 2]);
}

#[test]
fn ranking_without_reference_prefers_short_names() {
    let long = location_info(&village("long", "Longname", "D", "R", "P"), None);
    let short = location_info(&village("short", "A", "D", "R", "P"), None);
    assert_eq!(short.full_name.chars().count() < long.full_name.chars().count(), true);
    let out = rank(&vec![long, short], false, 10);
    assert_eq!(ids(&out), vec!["short", "long"]);
}

#[test]
fn ranking_counts_characters_of_names() {
    let accented = location_info(&village("e", "ééé", "D", "R", "P"), None);
    let plain = location_info(&village("p", "abcd", "D", "R", "P"), None);
    let out = rank(&vec![plain, accented], false, 10);
    assert_eq!(ids(&out), vec!["e", "p"]);
}

#[test]
fn ranking_with_reference_prefers_near() {
    let far = location_info(&village("far", "A", "D", "R", "P"), Some(500));
    let near = location_info(&village("near", "Longname", "D", "R", "P"), Some(200));
    let out = rank(&vec![far, near], true, 10);
    assert_eq!(ids(&out), vec!["near", "far"]);
    assert_eq!(out[0].distance_meters, Some(200));
    assert_eq!(out[1].distance_meters, Some(500));
}

#[test]
fn ranking_puts_missing_distance_last() {
    let none = location_info(&village("none", "A", "D", "R", "P"), None);
    let some = location_info(&village("some", "B", "D", "R", "P"), Some(9_000_000));
    let out = rank(&vec![none, some], true, 10);
    assert_eq!(ids(&out), vec!["some", "none"]);
}

#[test]
fn ranking_keeps_ties_in_order_and_truncates() {
    let infos: Vec<LocationInfo<(f64, f64)>> = vec![("a", 3), ("b", 1), ("c", 3), ("d", 1), ("e", 2)]
        .into_iter()
        .map(|(id, d)| location_info(&village(id, "N", "D", "R", "P"), Some(d)))
        .collect();
    assert_eq!(ids(&rank(&infos, true, 10)), vec!["b", "d", "e", "a", "c"]);
    assert_eq!(ids(&rank(&infos, true, 3)), vec!["b", "d", "e"]);
    assert_eq!(ids(&rank(&infos, true, 0)), Vec::<String>::new());
    assert_eq!(ids(&rank(&infos, false, 10)), vec!["a", "b", "c", "d", "e"]);
}

#[test]
fn search_blank_query_is_empty() {
    let rows = sample_rows();
    assert!(search_text("", 10, &rows, false).is_empty());
    assert!(search_text("   \t ", 10, &rows, true).is_empty());
}

#[test]
fn search_filters_then_ranks_by_distance() {
    let rows = sample_rows();
    let out = search_text("Jakarta", 0, &rows, true);
    assert_eq!(ids(&out), vec!["2", "4", "1"]);
    assert_eq!(out[0].distance_meters, Some(200));
    let out = search_text("jakarta selatan", 0, &rows, true);
    assert_eq!(ids(&out), vec!["4", "1"]);
}

#[test]
fn search_without_reference_ranks_by_name_and_has_no_distance() {
    let rows = sample_rows();
    let out = search_text("jakarta", 5, &rows, false);
    assert_eq!(ids(&out), vec!["4", "2", "1"]);
    assert!(out.iter().all(|i| i.distance_meters.is_none()));
    assert_eq!(out[0].full_name, "Kelurahan Tebet, Kecamatan Tebet, Kota Jakarta Selatan, DKI Jakarta");
}

#[test]
fn search_respects_limit_and_clamp() {
    let mut rows = Vec::new();
    for i in 0..120 {
        rows.push(candidate(village(&i.to_string(), "Sukamaju", "D", "R", "P"), Some(1000 - i)));
    }
    assert_eq!(search_text("sukamaju", 0, &rows, true).len(), 10);
    assert_eq!(search_text("sukamaju", 1000, &rows, true).len(), 50);
    let out = search_text("sukamaju", 3, &rows, true);
    assert_eq!(ids(&out), vec!["99", "98", "97"]);
    assert!(search_text("nowhere", 3, &rows, true).is_empty());
}

#[test]
fn present_pool_presents_in_pool_order() {
    let rows = sample_rows();
    let with = present_pool(&rows, &vec![3, 0], true);
    assert_eq!(ids(&with), vec!["4", "1"]);
    assert_eq!(with[0].distance_meters, Some(300));
    assert_eq!(with[1].distance_meters, Some(500));
    let without = present_pool(&rows, &vec![3, 0], false);
    assert_eq!(without[0].distance_meters, None);
    assert_eq!(without[1].full_name, "Kelurahan Kebayoran Lama Utara, Kecamatan Kebayoran Lama, Kota Jakarta Selatan, DKI Jakarta");
}

#[test]
fn duplicate_copies_every_field() {
    let info = location_info(&village("7", "Tebet", "D", "R", "P"), Some(5));
    let copy = info.duplicate();
    assert_eq!(copy.id, info.id);
    assert_eq!(copy.level, info.level);
    assert_eq!(copy.name, info.name);
    assert_eq!(copy.full_name, info.full_name);
    assert_eq!(copy.location_detail.village, info.location_detail.village);
    assert_eq!(copy.location_detail.district, info.location_detail.district);
    assert_eq!(copy.location_detail.regency, info.location_detail.regency);
    assert_eq!(copy.location_detail.province, info.location_detail.province);
    assert_eq!(copy.centroid, info.centroid);
    assert_eq!(copy.distance_meters, info.distance_meters);
}

#[test]
fn ranked_results_ascend() {
    let rows = sample_rows();
    let out = search_text("a", 50, &rows, true);
    assert_eq!(out.len(), 4);
    for w in out.windows(2) {
        assert!(w[0].distance_meters.unwrap() <= w[1].distance_meters.unwrap());
    }
    let out = search_text("a", 50, &rows, false);
    for w in out.windows(2) {
        assert!(w[0].name.chars().count() <= w[1].name.chars().count());
    }
}

#[test]
fn shorter_of_two_names_sorts_first() {
    let long = location_info(&village("long", "Kelurahan Longname", "D", "R", "P"), None);
    let short = location_info(&village("short", "Kelurahan A", "D", "R", "P"), None);
    assert_eq!(short.name.chars().count(), 11);
    let out = rank(&vec![long, short], false, 10);
    assert_eq!(ids(&out), vec!["short", "long"]);
}

#[test]
fn nearer_of_two_candidates_sorts_first() {
    let rows = vec![
        candidate(village("far", "Sukamaju", "D", "R", "P"), Some(500)),
        candidate(village("near", "Sukamaju", "D", "R", "P"), Some(200)),
    ];
    let out = search_text("sukamaju", 10, &rows, true);
    assert_eq!(ids(&out), vec!["near", "far"]);
}

#[test]
fn keywords_agree_with_lowercasing_the_whole_query() {
    for query in ["Jakarta Selatan", "  KOTA\tBANDUNG ", "ΟΔΥΣΣΕΥΣ ΑΣ Σ", "İstanbul ÉCOLE", "a\u{2003}B", ""] {
        let expected: Vec<String> =
            query.to_lowercase().split_whitespace().map(|s| s.to_string()).collect();
        assert_eq!(keywords(query), expected);
    }
}
