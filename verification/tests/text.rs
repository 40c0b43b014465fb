use sidekiq_stats::rss::{
    char_is_white_space, get_rss_kb, resident_kb, split_words, statm_resident_pages,
};
use sidekiq_stats::text::{chars_of, decimal_text, parse_u64};

fn parse(text: &str) -> Option<u64> {
    parse_u64(&chars_of(text))
}

#[test]
fn decimal_notation() {
    for n in [0, 7, 9, 10, 42, 100, 107068, 1_000_000_007, u64::MAX] {
        assert_eq!(decimal_text(n), n.to_string());
    }
    assert_eq!(decimal_text(107068), "107068");
}

#[test]
fn characters_of_a_text() {
    assert_eq!(chars_of("a\u{e9}\u{1f980}"), vec!['a', '\u{e9}', '\u{1f980}']);
    assert_eq!(chars_of(""), Vec::<char>::new());
}

#[test]
fn numbers_are_read_as_the_standard_library_reads_them() {
    let texts = [
        "0",
        "00012",
        "+5",
        "++5",
        "+",
        "",
        "-1",
        "-",
        "1_000",
        " 1",
        "1 ",
        "12a",
        "a12",
        "18446744073709551615",
        "18446744073709551616",
        "18446744073709551625",
        "99999999999999999999999",
        "000000000000000000000000018446744073709551615",
        "\u{0661}",
    ];
    for text in texts {
        assert_eq!(parse(text), text.parse::<u64>().ok(), "{text:?}");
    }
    assert_eq!(parse("18446744073709551615"), Some(u64::MAX));
    assert_eq!(parse("18446744073709551616"), None);
}

#[test]
fn a_written_number_is_read_back() {
    for n in [0, 1, 10, 4096, u64::MAX] {
        assert_eq!(parse(&decimal_text(n)), Some(n));
    }
}

#[test]
fn white_space_is_the_unicode_property() {
    for c in '\0'..=char::MAX {
        assert_eq!(char_is_white_space(c), c.is_whitespace(), "{c:?}");
    }
}

#[test]
fn words_are_those_of_the_standard_library() {
    let texts = [
        "",
        "   ",
        "one",
        " one two ",
        "one\ttwo\n\nthree",
        "a\u{a0}b\u{3000}c\u{200b}d",
        "\r\n x",
    ];
    for text in texts {
        let found: Vec<String> =
            split_words(&chars_of(text)).into_iter().map(|word| word.into_iter().collect()).collect();
        let expected: Vec<String> = text.split_whitespace().map(|word| word.to_string()).collect();
        assert_eq!(found, expected, "{text:?}");
    }
}

#[test]
fn resident_pages_are_the_second_word() {
    assert_eq!(statm_resident_pages("2212 511 420 6 0 180 0\n"), Some(511));
    assert_eq!(statm_resident_pages("2212"), None);
    assert_eq!(statm_resident_pages("2212 many"), None);
    assert_eq!(statm_resident_pages(""), None);
}

#[test]
fn resident_memory_in_kilobytes() {
    assert_eq!(get_rss_kb(Some("2212 511 420 6 0 180 0\n"), 4), 2044);
    assert_eq!(get_rss_kb(Some("2212 511 420 6 0 180 0\n"), 16), 8176);
    assert_eq!(get_rss_kb(Some("2212 511 420 6 0 180 0\n"), 64), 32704);
    assert_eq!(get_rss_kb(Some("2212 4611686018427387903"), 4), 18446744073709551612);
    assert_eq!(get_rss_kb(Some("2212 -1"), 4), 0);
    assert_eq!(get_rss_kb(Some(""), 4), 0);
    assert_eq!(get_rss_kb(None, 4), 0);
    assert_eq!(resident_kb(Some(2_097_152)), 2048);
    assert_eq!(resident_kb(Some(1023)), 0);
    assert_eq!(resident_kb(None), 0);
}
