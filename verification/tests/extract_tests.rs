use partlookup::extract::extract;
use partlookup::text::{
    contains_chars, decimal_string, is_digit_char, is_whitespace_char, matches_at, same_text,
    starts_with_text, strip_quotes, trim,
};
use regex::Regex;

fn some(code: &str) -> Option<String> {
    Some(code.to_string())
}

/// The same resolution written with regular expressions, to hold `extract`
/// against. In these patterns a digit of any script counts as a digit, so the
/// two agree only where the digits of the input are ASCII.
fn extract_by_patterns(raw: &str) -> Option<String> {
    let term = raw.trim();
    let closing_segment = Regex::new(r"/(C\d+)$").unwrap();
    let in_file_name = Regex::new(r"_(C\d+)[^/]*\.html$").unwrap();
    let whole = Regex::new(r"^C(\d+)$").unwrap();
    let mut found = "";
    if term.contains("http") {
        if term.contains("jlcpcb.com") {
            if let Some(captures) = closing_segment.captures(term) {
                found = captures.get(1).unwrap().as_str();
            }
        } else if term.contains("lcsc.com") {
            if let Some(captures) = in_file_name.captures(term) {
                found = captures.get(1).unwrap().as_str();
            }
        }
    } else if term.starts_with("C") {
        found = term;
    }
    if whole.is_match(found) {
        Some(found.to_string())
    } else {
        None
    }
}

#[test]
fn bare_code_is_returned_unchanged() {
    assert_eq!(extract("C11702"), some("C11702"));
    assert_eq!(extract("C1"), some("C1"));
    assert_eq!(extract("C0000000000000000000000000000001"), some("C0000000000000000000000000000001"));
}

#[test]
fn surrounding_whitespace_is_trimmed() {
    assert_eq!(extract("  C11702\n"), some("C11702"));
    assert_eq!(extract("\tC25804 \r\n"), some("C25804"));
    assert_eq!(extract("\u{a0}C7\u{3000}"), some("C7"));
}

#[test]
fn text_without_prefix_or_url_gives_nothing() {
    assert_eq!(extract("11702"), None);
    assert_eq!(extract("c11702"), None);
    assert_eq!(extract("resistor 10k"), None);
    assert_eq!(extract("X C11702"), None);
    assert_eq!(extract("   "), None);
}

#[test]
fn jlcpcb_url_gives_its_last_segment() {
    assert_eq!(
        extract("https://item.jlcpcb.com/partdetail/Uniroyal-0402WGF1001TCE/C11702"),
        some("C11702")
    );
    assert_eq!(extract("https://item.jlcpcb.com/.../C11702"), some("C11702"));
    assert_eq!(extract("https://jlcpcb.com/partdetail/C25804"), some("C25804"));
    assert_eq!(extract(" http://jlcpcb.com/C5 "), some("C5"));
}

#[test]
fn jlcpcb_url_without_closing_code_gives_nothing() {
    assert_eq!(extract("https://jlcpcb.com/partdetail/C25804/"), None);
    assert_eq!(extract("https://jlcpcb.com/partdetail/C25804?x=1"), None);
    assert_eq!(extract("https://jlcpcb.com/partdetail/XC25804"), None);
    assert_eq!(extract("https://jlcpcb.com/partdetail/C"), None);
    assert_eq!(extract("https://jlcpcb.com/partdetail/25804"), None);
    assert_eq!(extract("https://jlcpcb.com"), None);
}

#[test]
fn lcsc_url_gives_the_code_in_its_file_name() {
    assert_eq!(
        extract("https://www.lcsc.com/product-detail/UNI-ROYAL-Uniroyal-Elec-0402WGF1001TCE_C11702.html"),
        some("C11702")
    );
    assert_eq!(
        extract("https://www.lcsc.com/product-detail/Chip-Resistor_C25804_extra.html"),
        some("C25804")
    );
    assert_eq!(
        extract("https://www.lcsc.com/product-detail/UNI-ROYAL..._C11702.html"),
        some("C11702")
    );
    assert_eq!(extract("https://lcsc.com/a_C1.html"), some("C1"));
}

#[test]
fn lcsc_url_takes_the_leftmost_code_of_the_file_name() {
    assert_eq!(extract("https://www.lcsc.com/product-detail/A_C12_C34.html"), some("C12"));
    assert_eq!(extract("https://www.lcsc.com/product-detail/A_Cx_C34.html"), some("C34"));
    assert_eq!(extract("https://www.lcsc.com/x_C9/A_C34.html"), some("C34"));
    assert_eq!(extract("https://www.lcsc.com/x_C9/A.html"), None);
}

#[test]
fn lcsc_url_without_code_gives_nothing() {
    assert_eq!(extract("https://www.lcsc.com/product-detail/C11702.html"), None);
    assert_eq!(extract("https://www.lcsc.com/product-detail/A_C11702.htm"), None);
    assert_eq!(extract("https://www.lcsc.com/product-detail/A_C11702.html?x"), None);
    assert_eq!(extract("https://www.lcsc.com/product-detail/A_C.html"), None);
    assert_eq!(extract("https://www.lcsc.com/_C1html"), None);
    assert_eq!(extract("https://www.lcsc.com/.html"), None);
}

#[test]
fn url_of_another_site_gives_nothing() {
    assert_eq!(extract("https://example.com/C11702"), None);
    assert_eq!(extract("https://example.com/A_C11702.html"), None);
    assert_eq!(extract("Chttp://example.com/C11702"), None);
}

#[test]
fn jlcpcb_marker_goes_before_lcsc_marker() {
    assert_eq!(extract("https://jlcpcb.com/lcsc.com/A_C11702.html"), None);
    assert_eq!(extract("https://lcsc.com/jlcpcb.com/C11702"), some("C11702"));
}

#[test]
fn code_with_trailing_text_gives_nothing() {
    assert_eq!(extract("C123abc"), None);
    assert_eq!(extract("C123-1"), None);
    assert_eq!(extract("C"), None);
    assert_eq!(extract("C 123"), None);
    assert_eq!(extract("CC123"), None);
    assert_eq!(extract("C12.5"), None);
}

#[test]
fn digits_outside_ascii_are_no_digits() {
    assert_eq!(extract("C\u{661}\u{662}"), None);
    assert_eq!(extract("C1\u{663}"), None);
    assert_eq!(extract("https://jlcpcb.com/partdetail/C\u{661}"), None);
    assert_eq!(extract("https://lcsc.com/a_C\u{661}.html"), None);
    assert_eq!(extract("https://lcsc.com/a_C1\u{661}.html"), some("C1"));
}

#[test]
fn empty_input_gives_nothing() {
    assert_eq!(extract(""), None);
}

#[test]
fn extract_agrees_with_the_patterns() {
    let inputs = [
        "C11702",
        " C11702 ",
        "C",
        "C1x",
        "",
        "http",
        "https://jlcpcb.com/partdetail/C1",
        "https://jlcpcb.com/partdetail/C1/C22",
        "https://jlcpcb.com/partdetail//C333",
        "https://jlcpcb.com/partdetail/C1C2",
        "https://jlcpcb.com/partdetail/_C44.html",
        "https://lcsc.com/p/_C44.html",
        "https://lcsc.com/p/_C44_C55.html.html",
        "https://lcsc.com/p/_C44/.html",
        "https://lcsc.com/p/__C44x.html",
        "https://lcsc.com/p/_C_C4.html",
        "https://lcsc.com/p/_C4\n.html",
        "https://lcsc.com/_C4.HTML",
        "lcsc.com/_C4.html",
        "C4 http",
        "https://www.lcsc.com/product-detail/Chip-Resistor-Surface-Mount_UNI-ROYAL_C11702.html",
    ];
    for input in inputs {
        assert_eq!(extract(input), extract_by_patterns(input), "input {:?}", input);
    }
}

#[test]
fn trim_cuts_what_std_cuts() {
    let mut n: u32 = 0;
    while n <= 0x3100 {
        if let Some(c) = char::from_u32(n) {
            let text = format!("{}a{}b{}", c, c, c);
            assert_eq!(trim(&text), text.trim(), "character {:x}", n);
        }
        n += 1;
    }
    assert_eq!(trim(" \t a b \n"), "a b");
    assert_eq!(trim("\u{feff}a"), "\u{feff}a");
    assert_eq!(trim(""), "");
    assert_eq!(trim(" \n "), "");
}

#[test]
fn strip_quotes_cuts_every_quote_at_the_ends() {
    assert_eq!(strip_quotes("\"abc\""), "abc");
    assert_eq!(strip_quotes("\"\"a\"b\"\"\""), "a\"b");
    assert_eq!(strip_quotes("abc"), "abc");
    assert_eq!(strip_quotes("\"\""), "");
    assert_eq!(strip_quotes("\""), "");
    assert_eq!(strip_quotes(""), "");
    assert_eq!(strip_quotes("\" a \""), " a ");
}

#[test]
fn decimal_string_writes_numerals() {
    assert_eq!(decimal_string(0), "0");
    assert_eq!(decimal_string(7), "7");
    assert_eq!(decimal_string(10), "10");
    assert_eq!(decimal_string(109), "109");
    assert_eq!(decimal_string(1234567890), "1234567890");
    assert_eq!(decimal_string(usize::MAX), usize::MAX.to_string());
}

#[test]
fn text_comparisons() {
    assert!(same_text("base", "base"));
    assert!(!same_text("base", "bas"));
    assert!(!same_text("base", "basE"));
    assert!(same_text("", ""));
    assert!(starts_with_text("meta_image3", "meta_"));
    assert!(starts_with_text("meta_", "meta_"));
    assert!(!starts_with_text("meta", "meta_"));
    assert!(!starts_with_text("Meta_x", "meta_"));
    assert!(starts_with_text("abc", ""));
}

#[test]
fn character_classes_are_those_of_std() {
    let mut n: u32 = 0;
    while n <= 0x10ffff {
        if let Some(c) = char::from_u32(n) {
            assert_eq!(is_whitespace_char(c), c.is_whitespace(), "character {:x}", n);
            assert_eq!(is_digit_char(c), c.is_ascii_digit(), "character {:x}", n);
        }
        n += 1;
    }
}

#[test]
fn search_finds_what_std_finds() {
    let texts = ["", "a", "http", "xhttp", "htthttp", "ht tp", "https://jlcpcb.com/x", "äöühttpß"];
    let patterns = ["", "a", "http", "jlcpcb.com", "ß", "tp"];
    for text in texts {
        let t: Vec<char> = text.chars().collect();
        for pattern in patterns {
            let p: Vec<char> = pattern.chars().collect();
            assert_eq!(contains_chars(&t, &p), text.contains(pattern), "{:?} {:?}", text, pattern);
            assert_eq!(matches_at(&t, &p, 0), text.starts_with(pattern), "{:?} {:?}", text, pattern);
        }
    }
    let t: Vec<char> = "abc".chars().collect();
    let p: Vec<char> = "c".chars().collect();
    assert!(matches_at(&t, &p, 2));
    assert!(!matches_at(&t, &p, 3));
    assert!(!matches_at(&t, &p, usize::MAX));
    assert!(matches_at(&t, &Vec::new(), 3));
    assert!(!matches_at(&t, &Vec::new(), 4));
}
