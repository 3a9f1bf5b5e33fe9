use aa_editor::item_info::{item_info_text, item_number_from_info_text, push_decimal, text_stats};

#[test]
fn stats_of_empty_text() {
    assert_eq!(text_stats(""), (0, 1, 0));
}

#[test]
fn stats_count_lines_width_and_chars() {
    assert_eq!(text_stats("ab\ncde\r\nf"), (3, 3, 9));
}

#[test]
fn stats_keep_carriage_return_of_last_line() {
    assert_eq!(text_stats("a\r"), (2, 1, 2));
}

#[test]
fn stats_ignore_final_newline() {
    assert_eq!(text_stats("a\n"), (1, 1, 2));
    assert_eq!(text_stats("\n\n"), (0, 2, 2));
}

#[test]
fn stats_count_characters_not_bytes() {
    assert_eq!(text_stats("∩＿∩\n（´・ω・`）"), (7, 2, 11));
}

#[test]
fn info_text_layout() {
    assert_eq!(
        item_info_text(3, "ab\ncd"),
        "No. 3\n横幅: 2\n縦幅: 2\n文字数: 5\n行数: 2"
    );
}

#[test]
fn info_text_of_empty_text() {
    assert_eq!(item_info_text(0, ""), "No. 0\n横幅: 0\n縦幅: 1\n文字数: 0\n行数: 1");
}

#[test]
fn number_read_from_first_line() {
    assert_eq!(item_number_from_info_text("No. 12\n横幅: 3"), 12);
    assert_eq!(item_number_from_info_text("No. 5\r\nrest"), 5);
    assert_eq!(item_number_from_info_text("No. +7"), 7);
}

#[test]
fn number_zero_when_missing_or_malformed() {
    assert_eq!(item_number_from_info_text(""), 0);
    assert_eq!(item_number_from_info_text("No. x"), 0);
    assert_eq!(item_number_from_info_text("No. "), 0);
    assert_eq!(item_number_from_info_text("No. +"), 0);
    assert_eq!(item_number_from_info_text("No. -1"), 0);
    assert_eq!(item_number_from_info_text("no. 4"), 0);
    assert_eq!(item_number_from_info_text("\nNo. 4"), 0);
    assert_eq!(item_number_from_info_text("No. 99999999999999999999999"), 0);
}

#[test]
fn number_roundtrips_through_info_text() {
    for n in [0usize, 1, 9, 10, 42, 1000, usize::MAX] {
        assert_eq!(item_number_from_info_text(&item_info_text(n, "x\ny")), n);
    }
}

#[test]
fn decimal_notation() {
    let mut s = String::from("n=");
    push_decimal(&mut s, 1203);
    assert_eq!(s, "n=1203");
    let mut z = String::new();
    push_decimal(&mut z, 0);
    assert_eq!(z, "0");
}
