use xai_dict::text;

#[test]
fn white_space_is_that_of_std() {
    for n in 0..0x11_0000u32 {
        if let Some(c) = char::from_u32(n) {
            assert_eq!(text::white(c), c.is_whitespace(), "{n:x}");
        }
    }
}

#[test]
fn trimming_agrees_with_std() {
    for s in ["", "  ", "a", " a b\t\n", "\u{3000}你好\u{a0}", "\u{200b}x", "x \r\n"] {
        assert_eq!(text::trim(s), s.trim());
        assert_eq!(text::trim(text::trim(s)), text::trim(s));
    }
}

#[test]
fn prefixes_and_suffixes() {
    assert!(text::starts_with("socks5://h", "socks5://"));
    assert!(!text::starts_with("soc", "socks"));
    assert!(text::ends_with("a.monitor", ".monitor"));
    assert_eq!(text::strip_prefix("OK 你好", "OK "), Some("你好"));
    assert_eq!(text::strip_prefix("ERR", "OK "), None);
    assert!(text::contains("say \"text\" now", "\"text\""));
    assert!(text::contains("", ""));
    assert!(!text::contains("ab", "ba"));
    assert!(text::same("你", "你"));
    assert!(!text::same("你", "你 "));
}

#[test]
fn case_is_ascii_only() {
    assert_eq!(text::to_lower("ÀBc你"), "ÀBc你".to_ascii_lowercase());
    assert_eq!(text::to_upper("straße"), "straße".to_ascii_uppercase());
}

#[test]
fn lines_agree_with_std() {
    for s in ["", "\n", "a", "a\n", "a\r\nb\n\n", "a\rb", "x\n\r\n", "\r"] {
        let want: Vec<String> = s.lines().map(String::from).collect();
        assert_eq!(text::lines(s), want);
    }
}

#[test]
fn words_agree_with_std() {
    for s in ["", "  ", "a", " Uid:\t1000 1000 ", "一 二\u{3000}三\n"] {
        let want: Vec<String> = s.split_whitespace().map(String::from).collect();
        assert_eq!(text::words(s), want);
    }
}

#[test]
fn numbers_agree_with_std() {
    for n in [0u64, 7, 10, 101, 65535, u64::MAX] {
        assert_eq!(text::number(n), n.to_string());
    }
    for s in ["0", "007", "+5", "-5", "", "+", "4294967295", "4294967296", "1x", " 1", "٣"] {
        assert_eq!(text::parse_unsigned(s, u32::MAX as u64).map(|n| n as u32), s.parse::<u32>().ok());
        assert_eq!(text::parse_unsigned(s, u64::MAX), s.parse::<u64>().ok());
    }
    assert_eq!(text::parse_unsigned("18446744073709551616", u64::MAX), None);
    assert_eq!(text::first_number("u 42 7", u32::MAX as u64), Some(42));
    assert_eq!(text::first_number("no id", u32::MAX as u64), None);
}

#[test]
fn cutting_agrees_with_std() {
    for s in ["", "/", "a//", "a/b/", "///"] {
        assert_eq!(text::trim_end_of(s, '/', '/'), s.trim_end_matches('/'));
    }
    for s in ["x\r\n", "x\n\r", "x", "\n"] {
        assert_eq!(text::trim_end_of(s, '\r', '\n'), s.trim_end_matches(['\r', '\n']));
    }
    for s in ["/v1/v1/stt", "/v1", "v1", "/v1/stt", ""] {
        assert_eq!(text::trim_starts(s, "/v1"), s.trim_start_matches("/v1"));
    }
    for s in ["48. Mic [vol]", "none", ".", "a.b.c"] {
        assert_eq!(text::after_char(s, '.'), s.split_once('.').map(|p| p.1));
        assert_eq!(text::before_char(s, '['), s.split('[').next().unwrap());
    }
    for s in ["input:x:104:me", "input:x", ""] {
        for k in 0..4 {
            assert_eq!(text::field(s, ':', k), s.split(':').nth(k));
        }
    }
    assert_eq!(text::suffix("你好吗", 2), "好吗");
    assert_eq!(text::suffix("你", 2), "你");
    assert_eq!(text::prefix("你好吗", 2), "你好");
    assert_eq!(text::one_line("a\nb\r\n"), "a b\r ");
}

#[test]
fn paths_join_like_std() {
    for d in ["", ".", "/run/user/1000", "/run/", "x"] {
        let want = std::path::PathBuf::from(d).join("xai-dict.sock");
        assert_eq!(text::join_path(d, "xai-dict.sock"), want.display().to_string());
    }
}

#[test]
fn joining() {
    let parts = vec!["a".to_string(), "".to_string(), "b".to_string()];
    assert_eq!(text::join(&parts, ", "), parts.join(", "));
    assert_eq!(text::join(&Vec::new(), ", "), "");
    assert_eq!(text::cat("a", "你"), "a你");
    assert_eq!(text::find_line("x\nUid:\t1\nUid:\t2", "Uid:"), Some("Uid:\t1".to_string()));
}
