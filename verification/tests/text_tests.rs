//! Word wrapping and page chunking, with per-character widths in
//! micro-pixels (the fixed-width font these cases were measured with gives
//! every character the same width; the space is one micro-pixel wider).

use rpg_explore::text::{chunk_text, wrap_text, CharWidths};

const CHAR_W: u32 = 10_769_231;
const SPACE_W: u32 = 10_769_232;

fn fixed_width_font() -> CharWidths {
    let mut entries: Vec<(char, u32)> = Vec::new();
    for c in ' '..='~' {
        if c == ' ' {
            entries.push((c, SPACE_W));
        } else {
            entries.push((c, CHAR_W));
        }
    }
    CharWidths { entries }
}

#[test]
fn test_character_widths() {
    // a fixed width font: all characters share one width
    let font = fixed_width_font();
    let expected_width = CHAR_W;
    assert_eq!(font.character_width('a'), expected_width);
    assert_eq!(font.character_width('b'), expected_width);
    assert_eq!(font.character_width('H'), expected_width);
    assert_eq!(font.character_width('!'), expected_width);
    // space is slightly wider
    let expected_width = SPACE_W;
    assert_eq!(font.character_width(' '), expected_width);
}

#[test]
fn test_word_widths() {
    let font = fixed_width_font();
    let expected_char_width = CHAR_W as u128;
    assert_eq!(font.word_width("abc"), 3 * expected_char_width);
    assert_eq!(font.word_width("Hello!"), 6 * expected_char_width);
}

#[test]
fn test_wrap_texts() {
    let font = fixed_width_font();
    assert_eq!(wrap_text("abc", 600_000_000, &font), "abc");
    assert_eq!(
        wrap_text(
            "Here is some long text that should go on to the next line. You see, this game is starting to get some story.",
            600_000_000,
            &font,
        ),
        "Here is some long text that should go on to the next\nline. You see, this game is starting to get some story."
    );
    assert_eq!(
        wrap_text(
            "Here is some long text that should go on to the next line. You see, this game is starting to get some story.",
            100_000_000,
            &font,
        ),
        "Here is\nsome long\ntext that\nshould go\non to the\nnext\nline. You\nsee, this\ngame is\nstarting\nto get\nsome\nstory."
    );
}

#[test]
fn test_chunk_text() {
    let font = fixed_width_font();
    assert_eq!(
        chunk_text(
            "Here is some long text that should go on to the next line. You see, this game is starting to get some story.",
            100_000_000,
            3,
            &font,
        ),
        vec![
            "Here is\nsome long\ntext that",
            "should go\non to the\nnext",
            "line. You\nsee, this\ngame is",
            "starting\nto get\nsome",
            "story."
        ]
    );
}

#[test]
fn test_wrap_empty_text() {
    let font = fixed_width_font();
    assert_eq!(wrap_text("", 100_000_000, &font), "");
    assert_eq!(chunk_text("", 100_000_000, 3, &font), vec![""]);
}

#[test]
fn test_wrap_single_overwide_word() {
    // a word wider than the wrap width closes the (empty) current line and
    // then gets a line of its own
    let font = fixed_width_font();
    assert_eq!(wrap_text("abcdefgh", 20_000_000, &font), "\nabcdefgh");
    assert_eq!(wrap_text("abcdefgh xy", 20_000_000, &font), "\nabcdefgh\nxy");
}

#[test]
fn test_unknown_characters_have_zero_width() {
    let font = CharWidths { entries: Vec::new() };
    // with every width zero nothing ever exceeds the wrap width
    assert_eq!(wrap_text("a b c", 0, &font), "a b c");
}
