use dbx_desktop::numbers::{parse_hex_u16, parse_u16, parse_u32, parse_u64};
use dbx_desktop::text::{chars_of, is_space_char, split_lines, split_words, trim_bounds};

fn chars(s: &str) -> Vec<char> {
    s.chars().collect()
}

fn text(v: &[char]) -> String {
    v.iter().collect()
}

#[test]
fn white_space_class_matches_std() {
    for code in 0u32..0x3100 {
        if let Some(c) = char::from_u32(code) {
            assert_eq!(is_space_char(c), c.is_whitespace(), "U+{code:04X}");
        }
    }
    for c in ['\u{feff}', '\u{10ffff}', '\u{1f600}'] {
        assert_eq!(is_space_char(c), c.is_whitespace());
    }
}

const SAMPLES: &[&str] = &[
    "",
    "a",
    "\n",
    "\r\n",
    "\r",
    "a\r",
    "a\r\nb",
    "a\n\nb\n",
    "a\r\r\nb\r",
    " x  y\t z \u{3000}w\u{a0}",
    "one\ntwo\r\nthree",
    "\u{2028}mid\u{85}dle ",
];

#[test]
fn lines_and_words_match_std() {
    for s in SAMPLES {
        let lines: Vec<String> = split_lines(&chars_of(s)).iter().map(|l| text(l)).collect();
        let std_lines: Vec<String> = s.lines().map(|l| l.to_string()).collect();
        assert_eq!(lines, std_lines, "{s:?}");
        let words: Vec<String> = split_words(&chars(s)).iter().map(|w| text(w)).collect();
        let std_words: Vec<String> = s.split_whitespace().map(|w| w.to_string()).collect();
        assert_eq!(words, std_words, "{s:?}");
        let v = chars(s);
        let (a, b) = trim_bounds(&v);
        assert_eq!(text(&v[a..b]), s.trim(), "{s:?}");
    }
}

#[test]
fn integers_match_std() {
    let samples = [
        "", "+", "-", "0", "+0", "-0", "00", "42", "+42", "4 2", "65535", "65536", "0065535",
        "4294967295", "4294967296", "18446744073709551615", "18446744073709551616", "1f", "1F",
        "ff", "FFFF", "10000", "z", "٣", "+-1", "++1",
    ];
    for s in samples {
        let v = chars(s);
        assert_eq!(parse_u16(&v), s.parse::<u16>().ok(), "{s:?}");
        assert_eq!(parse_u32(&v), s.parse::<u32>().ok(), "{s:?}");
        assert_eq!(parse_u64(&v), s.parse::<u64>().ok(), "{s:?}");
        assert_eq!(parse_hex_u16(&v), u16::from_str_radix(s, 16).ok(), "{s:?}");
    }
}

fn reference_token(token: &str) -> bool {
    if token == "dbx" {
        return true;
    }
    if let Some(name) = std::path::Path::new(token).file_name().and_then(|f| f.to_str()) {
        let stem = name
            .strip_suffix(".exe")
            .or_else(|| name.strip_suffix(".cmd"))
            .or_else(|| name.strip_suffix(".bat"))
            .or_else(|| name.strip_suffix(".com"))
            .unwrap_or(name);
        if stem == "dbx" {
            return true;
        }
    }
    token.contains(r"\dbx\")
        || token.contains("/dbx/")
        || token.contains(r"\dbx/")
        || token.contains(r"/dbx\")
}

#[test]
fn dbx_tokens_match_path_rules() {
    let samples = [
        "", "/", ".", "..", "./", "./dbx", "dbx/", "dbx//", "dbx/.", "dbx/..", "/dbx", "//dbx",
        "a/./dbx", "a/dbx/./", "dbx.exe", "dbx.com", "dbx.bat", "dbx.cmd", "dbx.exe.exe",
        "x/dbx.EXE", "dbx.", ".dbx", "dbxx", "a\\dbx", "a\\dbx\\b", "a/dbx\\b", "a\\dbx/b",
        "/usr/local/bin/dbx", "C:\\tools\\dbx\\dbx.exe", "node", "--flag=dbx", "/x/.../dbx",
        "/x/dbx/..", "./.", "dbx/./.", "/opt/dbx", "opt/dbx.exe/",
    ];
    for t in samples {
        assert_eq!(dbx_desktop::is_dbx_token(t), reference_token(t), "{t:?}");
    }
}
