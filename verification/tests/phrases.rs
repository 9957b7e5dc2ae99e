use xai_dict::phrase::{
    append_phrase, char_similarity, is_alike, needs_space_between, pick_dual_final, preedit_update,
    truncate_log,
};

fn read(state: &mut (String, String, u8), new: &str) -> Option<String> {
    preedit_update(&mut state.0, &mut state.1, &mut state.2, new)
}

#[test]
fn similarity() {
    let s = char_similarity("", "");
    assert_eq!((s.num, s.den), (1, 1));
    let s = char_similarity("", "a");
    assert_eq!((s.num, s.den), (0, 1));
    let s = char_similarity("night", "nacht");
    assert_eq!((s.num, s.den), (2, 8));
    let s = char_similarity("aaaa", "aa");
    assert_eq!((s.num, s.den), (2, 4));
    let s = char_similarity("你", "你");
    assert_eq!((s.num, s.den), (2, 2));
    let s = char_similarity("你", "你好");
    assert_eq!((s.num, s.den), (0, 2));
}

#[test]
fn similarity_is_symmetric() {
    for (a, b) in [("今天天气", "天气很好"), ("abab", "baba"), ("x", "")] {
        assert_eq!(char_similarity(a, b), char_similarity(b, a));
        let s = char_similarity(a, a);
        assert_eq!(s.num, s.den);
    }
    assert!(is_alike("abcdefghijklmn", "abcdefghijklmx", 65));
    assert!(!is_alike("abcd", "wxyz", 1));
    assert!(is_alike("abcd", "wxyz", 0));
}

#[test]
fn growth_and_retractions_are_shown() {
    let mut s = (String::new(), String::new(), 0);
    assert_eq!(read(&mut s, " 今天 "), Some("今天".into()));
    assert_eq!(read(&mut s, "今天"), None);
    assert_eq!(read(&mut s, "今天天气很好"), Some("今天天气很好".into()));
    assert_eq!(read(&mut s, "今天"), Some("今天".into()));
    assert_eq!(read(&mut s, "   "), None);
    assert_eq!(s, ("今天".into(), String::new(), 0));
}

#[test]
fn rewrites_need_two_reads() {
    let mut s = ("今天天气".to_string(), String::new(), 0);
    assert_eq!(read(&mut s, "完全不同"), None);
    assert_eq!(s.2, 1);
    assert_eq!(read(&mut s, "又是别的"), None);
    assert_eq!(read(&mut s, "完全不同"), None);
    assert_eq!(read(&mut s, "完全不同"), Some("完全不同".into()));
    assert_eq!(s, ("完全不同".into(), String::new(), 0));
}

#[test]
fn large_retractions_are_shown_at_once() {
    let mut s = ("abcdefgh".to_string(), String::new(), 0);
    assert_eq!(read(&mut s, "a"), Some("a".into()));
    assert_eq!(s, ("a".into(), String::new(), 0));
}

#[test]
fn reads_in_between_start_the_count_anew() {
    for between in ["ab", "", "  "] {
        let mut s = ("ab".to_string(), String::new(), 0);
        assert_eq!(read(&mut s, "xy"), None);
        assert_eq!(s, ("ab".into(), "xy".into(), 1));
        assert_eq!(read(&mut s, between), None);
        assert_eq!(s, ("ab".into(), String::new(), 0));
        assert_eq!(read(&mut s, "xy"), None);
        assert_eq!(read(&mut s, "xy"), Some("xy".into()));
    }
}

#[test]
fn final_text() {
    assert_eq!(pick_dual_final(" 你好 ", "世界", 0, 16_000), "你好");
    assert_eq!(pick_dual_final("", " 世界 ", 16_000, 16_000), "世界");
    assert_eq!(pick_dual_final("", "世", 16_000, 16_000), "");
    assert_eq!(pick_dual_final(" ", "世界", 80_000, 16_000), "世界");
    assert_eq!(pick_dual_final(" ", "世界", 80_001, 16_000), "");
    // Half a second: three characters would do, but four are always allowed.
    assert_eq!(pick_dual_final("", "一二三四", 16_000, 16_000), "一二三四");
    assert_eq!(pick_dual_final("", "一二三四五", 16_000, 16_000), "");
    // Two seconds allow twelve.
    assert_eq!(pick_dual_final("", "一二三四五六七八九十甲乙", 64_000, 16_000), "一二三四五六七八九十甲乙");
    assert_eq!(pick_dual_final("", "一二三四五六七八九十甲乙丙", 64_000, 16_000), "");
    assert_eq!(pick_dual_final("", "世界", 10, 0), "");
}

#[test]
fn fallback_length_is_that_of_seconds() {
    for bytes in [0usize, 1, 5334, 10_667, 16_000, 31_999, 64_000, 80_000] {
        let secs = bytes as f64 / (16_000.0 * 2.0);
        let most = ((secs * 6.0).ceil() as usize).clamp(4, 28);
        let fits = "字".repeat(most);
        let long = "字".repeat(most + 1);
        assert_eq!(pick_dual_final("", &fits, bytes, 16_000), fits);
        assert_eq!(pick_dual_final("", &long, bytes, 16_000), "");
    }
}

#[test]
fn phrases_are_joined() {
    let mut s = String::new();
    append_phrase(&mut s, "hello");
    append_phrase(&mut s, "");
    append_phrase(&mut s, "world");
    append_phrase(&mut s, "你好");
    append_phrase(&mut s, "2");
    assert_eq!(s, "hello world你好2");
    assert!(needs_space_between("a", "1"));
    assert!(!needs_space_between("a", "，"));
    assert!(!needs_space_between("é", "a"));
    assert!(!needs_space_between("", "a"));
}

#[test]
fn log_lines_are_short() {
    assert_eq!(truncate_log("你好", 2), "你好");
    assert_eq!(truncate_log("你好吗", 2), "你好…");
    assert_eq!(truncate_log("", 0), "");
}
