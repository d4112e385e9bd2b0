use bt_player::ai_strategy::{analyze_file_path, analyze_files, keywords_in};

#[test]
fn keywords_found_in_keyword_order() {
    assert_eq!(keywords_in("casino_ad.mp4"), vec!["ad".to_string(), "casino".to_string()]);
    assert_eq!(keywords_in("movie.mkv"), Vec::<String>::new());
}

#[test]
fn keywords_found_in_chinese_names() {
    assert_eq!(keywords_in("扫码领取二维码.png"), vec!["扫码".to_string(), "二维码".to_string()]);
    assert_eq!(keywords_in("广告推广"), vec!["广告".to_string(), "推广".to_string()]);
}

#[test]
fn analysis_lowercases_the_path() {
    let (suspected, matched) = analyze_file_path("Movie/TRAILER.mp4");
    assert!(suspected);
    assert_eq!(matched, vec!["trailer".to_string()]);
}

#[test]
fn clean_file_is_not_suspected() {
    let (suspected, matched) = analyze_file_path("Movie/Feature.mkv");
    assert!(!suspected);
    assert!(matched.is_empty());
}

#[test]
fn suspicion_follows_matches() {
    for p in ["x.mp4", "www.casino.com.txt", "Sample.mkv", "wechat.jpg", "预告片.mp4"] {
        let (suspected, matched) = analyze_file_path(p);
        assert_eq!(suspected, !matched.is_empty());
    }
}

#[test]
fn keyword_inside_a_word_matches() {
    // "ad" occurs in "download": the heuristic matches substrings.
    let (suspected, matched) = analyze_file_path("download/readme.txt");
    assert!(suspected);
    assert_eq!(matched, vec!["ad".to_string()]);
}

#[test]
fn analyze_files_keeps_order_and_indexes() {
    let paths = vec!["a/movie.mkv".to_string(), "a/AD.mp4".to_string(), "a/bet365.txt".to_string()];
    let r = analyze_files(&paths);
    assert_eq!(r.len(), 3);
    assert_eq!(r[0].index, 0);
    assert_eq!(r[0].path, "a/movie.mkv");
    assert!(!r[0].is_suspected_ad);
    assert_eq!(r[1].index, 1);
    assert!(r[1].is_suspected_ad);
    assert_eq!(r[1].matched_keywords, vec!["ad".to_string()]);
    assert_eq!(r[2].matched_keywords, vec!["bet".to_string()]);
}

#[test]
fn analyze_no_files() {
    assert!(analyze_files(&Vec::new()).is_empty());
}
