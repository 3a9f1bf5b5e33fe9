use aa_editor::mlt::{decode_mlt_text, join_mlt, mlt_texts_from_bytes, split_mlt};

fn strings(v: &[&str]) -> Vec<String> {
    v.iter().map(|s| s.to_string()).collect()
}

#[test]
fn split_at_each_marker() {
    assert_eq!(split_mlt("a[SPLIT]b[SPLIT]c"), strings(&["a", "b", "c"]));
}

#[test]
fn split_empty_text_gives_one_empty_piece() {
    assert_eq!(split_mlt(""), strings(&[""]));
}

#[test]
fn split_marker_alone_gives_two_empty_pieces() {
    assert_eq!(split_mlt("[SPLIT]"), strings(&["", ""]));
    assert_eq!(split_mlt("[SPLIT][SPLIT]"), strings(&["", "", ""]));
}

#[test]
fn split_ignores_partial_markers() {
    assert_eq!(split_mlt("a[SPLIT"), strings(&["a[SPLIT"]));
    assert_eq!(split_mlt("[[SPLIT]]"), strings(&["[", "]"]));
}

#[test]
fn split_keeps_multibyte_text() {
    assert_eq!(split_mlt("（´・ω・`）[SPLIT]∩＿∩"), strings(&["（´・ω・`）", "∩＿∩"]));
}

#[test]
fn join_puts_marker_between_texts() {
    assert_eq!(join_mlt(&strings(&["a", "b", "c"])), "a[SPLIT]b[SPLIT]c");
    assert_eq!(join_mlt(&strings(&["only"])), "only");
    assert_eq!(join_mlt(&Vec::new()), "");
}

#[test]
fn split_of_join_gives_texts_back() {
    let texts = strings(&["first\nline", "", "third"]);
    assert_eq!(split_mlt(&join_mlt(&texts)), texts);
}

#[test]
fn join_of_split_gives_text_back() {
    let text = "x[SPLIT][SPLIT]y[SPLI";
    assert_eq!(join_mlt(&split_mlt(text)), text);
}

#[test]
fn decode_utf8_bytes() {
    let bytes = "アスキーアート".as_bytes().to_vec();
    assert_eq!(decode_mlt_text(bytes), "アスキーアート");
}

#[test]
fn decode_shift_jis_bytes() {
    // "あい" in Shift_JIS: not valid UTF-8.
    let bytes = vec![0x82, 0xA0, 0x82, 0xA2];
    assert_eq!(decode_mlt_text(bytes), "あい");
}

#[test]
fn texts_from_shift_jis_bytes() {
    let mut bytes = vec![0x82, 0xA0];
    bytes.extend_from_slice(b"[SPLIT]");
    bytes.extend_from_slice(&[0x82, 0xA2]);
    assert_eq!(mlt_texts_from_bytes(bytes), strings(&["あ", "い"]));
}

#[test]
fn texts_from_utf8_bytes() {
    let bytes = "a[SPLIT]b".as_bytes().to_vec();
    assert_eq!(mlt_texts_from_bytes(bytes), strings(&["a", "b"]));
}
