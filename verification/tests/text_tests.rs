use webdemo::text::chars_of;
use webdemo::text::is_whitespace;
use webdemo::text::to_decimal;
use webdemo::text::trim;

#[test]
fn whitespace_agrees_with_std_on_every_char() {
    let mut code: u32 = 0;
    while code <= 0x10FFFF {
        if let Some(c) = char::from_u32(code) {
            assert_eq!(is_whitespace(c), c.is_whitespace(), "U+{:04X}", code);
        }
        code += 1;
    }
}

#[test]
fn trim_strips_both_ends_only() {
    assert_eq!(trim("  hello world \t\r\n"), "hello world");
    assert_eq!(trim("hello"), "hello");
    assert_eq!(trim("\u{3000}a b\u{2003}"), "a b");
}

#[test]
fn trim_of_blank_text_is_empty() {
    assert_eq!(trim(""), "");
    assert_eq!(trim(" \t \n"), "");
}

#[test]
fn trim_agrees_with_std() {
    let samples = [
        "",
        " ",
        "a",
        " a",
        "a ",
        "  /join  lobby  ",
        "\u{a0}x\u{a0}",
        "é è",
        "\n\n日本語\n",
        "a\u{200b}",
    ];
    for s in samples {
        assert_eq!(trim(s), s.trim());
    }
}

#[test]
fn trim_is_idempotent() {
    let once = trim("  a  b  ");
    assert_eq!(trim(once), once);
}

#[test]
fn chars_of_keeps_every_char_in_order() {
    assert_eq!(chars_of("aé日"), vec!['a', 'é', '日']);
    assert_eq!(chars_of(""), Vec::<char>::new());
}

#[test]
fn decimal_of_small_and_large_numbers() {
    assert_eq!(to_decimal(0), "0");
    assert_eq!(to_decimal(7), "7");
    assert_eq!(to_decimal(10), "10");
    assert_eq!(to_decimal(1234567890), "1234567890");
    assert_eq!(to_decimal(usize::MAX), usize::MAX.to_string());
}

#[test]
fn decimal_agrees_with_std() {
    let mut n: usize = 0;
    while n < 2000 {
        assert_eq!(to_decimal(n), n.to_string());
        n += 1;
    }
}
