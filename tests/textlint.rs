use ichigyo_ls::textlint::{offset_to_position, textlint_column_to_character, PositionEncoding};

#[test]
fn offset_to_position_ascii_single_line() {
    let text = "hello world";
    for enc in [
        PositionEncoding::Utf8,
        PositionEncoding::Utf16,
        PositionEncoding::Utf32,
    ] {
        let pos = offset_to_position(text, 6, enc);
        assert_eq!(pos.line, 0);
        assert_eq!(pos.character, 6);
    }
}

#[test]
fn offset_to_position_ascii_multi_line() {
    let text = "hello\nworld\nfoo";
    for enc in [
        PositionEncoding::Utf8,
        PositionEncoding::Utf16,
        PositionEncoding::Utf32,
    ] {
        let pos = offset_to_position(text, 6, enc);
        assert_eq!(pos.line, 1, "enc={enc:?}");
        assert_eq!(pos.character, 0, "enc={enc:?}");

        let pos = offset_to_position(text, 11, enc);
        assert_eq!(pos.line, 1, "enc={enc:?}");
        assert_eq!(pos.character, 5, "enc={enc:?}");

        let pos = offset_to_position(text, 12, enc);
        assert_eq!(pos.line, 2, "enc={enc:?}");
        assert_eq!(pos.character, 0, "enc={enc:?}");
    }
}

#[test]
fn offset_to_position_japanese_utf16() {
    let text = "あいう";
    let pos = offset_to_position(text, 1, PositionEncoding::Utf16);
    assert_eq!(pos.line, 0);
    assert_eq!(pos.character, 1);
}

#[test]
fn offset_to_position_japanese_utf8() {
    let text = "あいう";
    let pos = offset_to_position(text, 1, PositionEncoding::Utf8);
    assert_eq!(pos.line, 0);
    assert_eq!(pos.character, 3);

    let pos = offset_to_position(text, 2, PositionEncoding::Utf8);
    assert_eq!(pos.line, 0);
    assert_eq!(pos.character, 6);
}

#[test]
fn offset_to_position_japanese_utf32() {
    let text = "あいう";
    let pos = offset_to_position(text, 1, PositionEncoding::Utf32);
    assert_eq!(pos.line, 0);
    assert_eq!(pos.character, 1);
}

#[test]
fn offset_to_position_japanese_multi_line_utf8() {
    let text = "あいう\nかきく";
    let pos = offset_to_position(text, 4, PositionEncoding::Utf8);
    assert_eq!(pos.line, 1);
    assert_eq!(pos.character, 0);

    let pos = offset_to_position(text, 5, PositionEncoding::Utf8);
    assert_eq!(pos.line, 1);
    assert_eq!(pos.character, 3);
}

#[test]
fn offset_to_position_surrogate_pair() {
    let text = "a𠮷b";
    let pos = offset_to_position(text, 3, PositionEncoding::Utf16);
    assert_eq!(pos.character, 3);

    let pos = offset_to_position(text, 3, PositionEncoding::Utf8);
    assert_eq!(pos.character, 5);

    let pos = offset_to_position(text, 3, PositionEncoding::Utf32);
    assert_eq!(pos.character, 2);
}

#[test]
fn textlint_column_to_character_utf16() {
    let text = "あいう";
    assert_eq!(
        textlint_column_to_character(text, 0, 2, PositionEncoding::Utf16),
        1
    );
}

#[test]
fn textlint_column_to_character_utf8() {
    let text = "あいう";
    assert_eq!(
        textlint_column_to_character(text, 0, 2, PositionEncoding::Utf8),
        3
    );
}

#[test]
fn textlint_column_to_character_utf32() {
    let text = "あいう";
    assert_eq!(
        textlint_column_to_character(text, 0, 2, PositionEncoding::Utf32),
        1
    );
}

#[test]
fn textlint_column_to_character_second_line() {
    let text = "abc\nあいう";
    assert_eq!(
        textlint_column_to_character(text, 1, 2, PositionEncoding::Utf8),
        3
    );
    assert_eq!(
        textlint_column_to_character(text, 1, 2, PositionEncoding::Utf16),
        1
    );
    assert_eq!(
        textlint_column_to_character(text, 1, 2, PositionEncoding::Utf32),
        1
    );
}
