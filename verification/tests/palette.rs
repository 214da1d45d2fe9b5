use rand_bk::palette::{parse_colors, Palette, PaletteError};
use rand_bk::text::{chars_of, is_whitespace, trim_bounds};

fn by_std(content: &str) -> Vec<String> {
    content
        .lines()
        .map(|line| line.trim())
        .filter(|line| !line.is_empty() && line.starts_with('#'))
        .map(|line| line.to_string())
        .collect()
}

#[test]
fn test_parse_colors() {
    let test_content = "#ff0000\n#00ff00\n\n#0000ff\ninvalid_line\n#ffffff";
    let colors = parse_colors(test_content);
    assert_eq!(colors.len(), 4);
    assert_eq!(colors[0], "#ff0000");
    assert_eq!(colors[1], "#00ff00");
    assert_eq!(colors[2], "#0000ff");
    assert_eq!(colors[3], "#ffffff");
}

#[test]
fn parse_of_empty_text_is_empty() {
    assert!(parse_colors("").is_empty());
    assert!(parse_colors("\n\n\n").is_empty());
    assert!(parse_colors("   \t  ").is_empty());
}

#[test]
fn parse_drops_lines_without_marker() {
    assert!(parse_colors("ff0000\nred\n; #ffffff\nx#000000").is_empty());
}

#[test]
fn parse_trims_each_line() {
    let colors = parse_colors("  #111111  \n\t#222222\t\n#333333 \n");
    assert_eq!(colors, vec!["#111111", "#222222", "#333333"]);
}

#[test]
fn parse_keeps_what_follows_the_marker() {
    let colors = parse_colors("#\n# a comment, for all we know\n#12 34\n#'quoted'");
    assert_eq!(colors, vec!["#", "# a comment, for all we know", "#12 34", "#'quoted'"]);
}

#[test]
fn parse_takes_carriage_returns_as_whitespace() {
    let colors = parse_colors("#aaaaaa\r\n#bbbbbb\r\n\r\nnope\r\n#cccccc\r");
    assert_eq!(colors, vec!["#aaaaaa", "#bbbbbb", "#cccccc"]);
}

#[test]
fn parse_keeps_an_inner_carriage_return() {
    let colors = parse_colors("#aa\r#bb\n#cc");
    assert_eq!(colors, vec!["#aa\r#bb", "#cc"]);
}

#[test]
fn parse_trims_unicode_whitespace() {
    let colors = parse_colors("\u{a0}\u{2003}#abcdef\u{3000}\u{85}\n\u{feff}#123456\n\u{200b}#654321");
    assert_eq!(colors, vec!["#abcdef"]);
}

#[test]
fn parse_keeps_characters_beyond_ascii() {
    let colors = parse_colors("#caf\u{e9}\n  #\u{1f3a8} bunt \n\u{e9}#no");
    assert_eq!(colors, vec!["#caf\u{e9}", "#\u{1f3a8} bunt"]);
}

#[test]
fn parse_preserves_order_and_repeats() {
    let colors = parse_colors("#3\n#1\n#2\n#1\n");
    assert_eq!(colors, vec!["#3", "#1", "#2", "#1"]);
}

#[test]
fn parse_agrees_with_lines_trim_filter() {
    let inputs = [
        "",
        "\n",
        "#",
        "#\n",
        "\n#",
        "#a\n#b",
        "#a\r\n#b\r\n",
        "#a\r#b",
        "\r\n\r\n",
        " # spaced",
        "#ff0000\n#00ff00\n\n#0000ff\ninvalid_line\n#ffffff",
        "a\n\n\n#b\n\n",
        "\t#tab\t\n\u{b}#vt\u{c}\n",
        "\u{2028}#ls\u{2029}\n\u{1680}#ogham\n\u{180e}#mvs\n",
        "#\u{202f}\n#\u{205f}x\n",
        "line without end #x",
        "#caf\u{e9}\n#\u{1f3a8}\n",
    ];
    for input in inputs {
        assert_eq!(parse_colors(input), by_std(input), "on {:?}", input);
    }
}

#[test]
fn whitespace_is_what_std_takes_for_it() {
    for code in 0..=0x10ffffu32 {
        if let Some(c) = char::from_u32(code) {
            assert_eq!(is_whitespace(c), c.is_whitespace(), "at U+{:04X}", code);
        }
    }
}

#[test]
fn chars_of_lists_every_character() {
    assert_eq!(chars_of(""), Vec::<char>::new());
    assert_eq!(chars_of("a\u{e9}\u{1f3a8}\n"), vec!['a', '\u{e9}', '\u{1f3a8}', '\n']);
}

#[test]
fn trim_bounds_cut_whitespace_from_both_ends() {
    let chars = chars_of("x  ab c \t y");
    assert_eq!(trim_bounds(&chars, 1, 9), (3, 7));
    assert_eq!(trim_bounds(&chars, 0, chars.len()), (0, chars.len()));
    assert_eq!(trim_bounds(&chars, 1, 3), (3, 3));
    assert_eq!(trim_bounds(&chars, 4, 4), (4, 4));
}

#[test]
fn palette_of_text_without_entries_is_refused() {
    assert_eq!(Palette::from_text("").err(), Some(PaletteError::EmptyPalette));
    assert_eq!(Palette::from_text("red\ngreen\n").err(), Some(PaletteError::EmptyPalette));
    assert_eq!(Palette::from_text(" \n\t\n").err(), Some(PaletteError::EmptyPalette));
}

#[test]
fn palette_holds_the_parsed_entries() {
    let palette = Palette::from_text("#a\nskip\n #b \n").unwrap();
    assert_eq!(palette.len(), 2);
    assert_eq!(palette.entries(), &vec!["#a".to_string(), "#b".to_string()]);
    assert_eq!(palette.get(0).map(|s| s.as_str()), Some("#a"));
    assert_eq!(palette.get(1).map(|s| s.as_str()), Some("#b"));
    assert_eq!(palette.get(2), None);
    assert_eq!(palette.entry(1), "#b");
}

#[test]
fn empty_palette_has_a_message() {
    assert_eq!(PaletteError::EmptyPalette.message(), "No valid colors found");
}
