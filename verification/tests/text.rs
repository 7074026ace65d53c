use azure_vm_info::text::{
    contains, ends_with, is_whitespace, replace_char, same_text, split_char, starts_with,
    strip_prefix, strip_prefix_or_self, strip_suffix, trim, trim_matches, trim_start,
};

const SAMPLES: [&str; 12] = [
    "",
    " ",
    "abc",
    "  abc  ",
    "\t\n a b \r\u{85}",
    "\u{a0}x\u{3000}",
    "\u{2028}\u{2029}\u{202f}\u{205f}\u{1680}\u{2000}\u{200a}y",
    "\u{200b}z\u{200b}",
    "'''",
    "'a'b'",
    "\u{1c}q\u{1f}",
    "é ü",
];

#[test]
fn trimming_agrees_with_std() {
    for s in SAMPLES {
        assert_eq!(trim(s), s.trim(), "trim of {:?}", s);
        assert_eq!(trim_start(s), s.trim_start(), "trim_start of {:?}", s);
        assert_eq!(trim_matches(s, '\''), s.trim_matches('\''), "trim_matches of {:?}", s);
    }
}

#[test]
fn whitespace_agrees_with_std() {
    for code in 0u32..0x3100 {
        if let Some(c) = char::from_u32(code) {
            assert_eq!(is_whitespace(c), c.is_whitespace(), "char {:#x}", code);
        }
    }
}

#[test]
fn prefixes_and_suffixes() {
    assert!(starts_with("Standard_B2s", "Standard_"));
    assert!(!starts_with("Standard", "Standard_"));
    assert!(starts_with("x", ""));
    assert!(ends_with("Virtual Machines BS Series Windows", "Windows"));
    assert!(!ends_with("Windows Series", "Windows"));
    assert_eq!(strip_prefix("Standard_B2s", "Standard_"), Some("B2s"));
    assert_eq!(strip_prefix("B2s", "Standard_"), None);
    assert_eq!(strip_suffix("D2 Spot", " Spot"), Some("D2"));
    assert_eq!(strip_suffix("D2 Spot ", " Spot"), None);
    assert_eq!(strip_prefix_or_self("B2s", "Standard_"), "B2s");
    assert_eq!(strip_prefix_or_self("Standard_Standard_", "Standard_"), "Standard_");
}

#[test]
fn substrings() {
    assert!(contains("D11 v2/DS11 v2 Spot", "DS11 v2"));
    assert!(contains("abc", ""));
    assert!(contains("", ""));
    assert!(!contains("", "a"));
    assert!(!contains("ab", "abc"));
    assert!(contains("aaab", "aab"));
    assert!(same_text("Reservation", "Reservation"));
    assert!(!same_text("Reservation", "reservation"));
    assert!(!same_text("a", "ab"));
}

#[test]
fn replacing_and_splitting() {
    assert_eq!(replace_char("DS11_v2", '_', " "), "DS11 v2");
    assert_eq!(replace_char("a\"b\"", '"', "\"\""), "a\"\"b\"\"");
    assert_eq!(replace_char("x\ny\n", '\n', ""), "xy");
    assert_eq!(replace_char("", 'a', "bb"), "");
    for (s, c) in [("a/b/c", '/'), ("", '/'), ("/", '/'), ("a,,b,", ','), ("é/ü", '/')] {
        let mine = split_char(s, c);
        let std: Vec<&str> = s.split(c).collect();
        assert_eq!(mine, std);
    }
}
