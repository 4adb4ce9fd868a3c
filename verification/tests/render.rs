use diagnostics::diagnostics::{Info, Level, Segment};
use diagnostics::locate::position;
use diagnostics::style::{strip_styles, Hue, TextStyle as SegStyle};

fn info(level: Level, position: Option<std::ops::Range<usize>>, source: Option<&str>) -> Info {
    Info {
        level,
        filename: "foo.txt".to_string(),
        message: "something went wrong".to_string(),
        position,
        source: source.map(|s| s.to_string()),
    }
}

#[test]
fn position_of_start_is_origin() {
    assert_eq!(position("hello", 0), (0, 0));
    assert_eq!(position("a\nb\nc", 0), (0, 0));
}

#[test]
fn position_just_after_newline_is_next_line() {
    // Offset 4 is the `d`, immediately after the newline at index 3.
    assert_eq!(position("abc\ndef", 4), (1, 0));
}

#[test]
fn position_at_newline_belongs_to_current_line() {
    // The newline itself attributes to the end of line 0.
    assert_eq!(position("abc\ndef", 3), (0, 3));
}

#[test]
fn position_at_end_of_text() {
    assert_eq!(position("abc", 3), (0, 3));
    assert_eq!(position("abc\n", 4), (1, 0));
}

#[test]
fn position_roundtrips_through_line_starts() {
    let source = "ab\ncd\ne\n\nfg";
    for i in 0..=source.len() {
        let (line, col) = position(source, i);
        // Cumulative byte offset of the start of `line`: each earlier
        // line's length plus one for its newline.
        let start: usize = source
            .split('\n')
            .take(line)
            .map(|l| l.len() + 1)
            .sum();
        assert_eq!(start + col, i, "offset {} mapped to {}:{}", i, line, col);
    }
}

#[test]
fn missing_position_renders_bare_header() {
    let d = info(Level::Error, None, Some("let x = 1;"));
    assert_eq!(
        d.render_plain(),
        "foo.txt error: something went wrong"
    );
}

#[test]
fn missing_source_renders_bare_header() {
    let d = info(Level::Warning, Some(2..5), None);
    assert_eq!(
        d.render_plain(),
        "foo.txt warning: something went wrong"
    );
}

#[test]
fn missing_location_segments_are_empty() {
    let d = info(Level::Error, Some(2..5), None);
    let segs: Vec<Segment> = d.segments();
    assert_eq!(segs.len(), 5);
    assert_eq!(segs[0].text, "foo.txt");
    assert_eq!(segs[3].text, "");
    assert_eq!(segs[4].text, "");
}

#[test]
fn error_span_on_second_line() {
    // Offsets 17..20 land on the `bad` of the second line.
    let d = info(Level::Error, Some(17..20), Some("let x = 1;\nlet y bad;"));
    assert_eq!(
        d.render_plain(),
        "foo.txt:2:7 error: something went wrong\nlet y bad;\n      ^~~"
    );
}

#[test]
fn error_span_at_start_of_second_line() {
    // Offsets 11..14 are the `let` opening the second line: the caret
    // line has no leading spaces, one caret, and two tildes.
    let d = info(Level::Error, Some(11..14), Some("let x = 1;\nlet y bad;"));
    assert_eq!(
        d.render_plain(),
        "foo.txt:2:1 error: something went wrong\nlet y bad;\n^~~"
    );
}

#[test]
fn warning_span_on_first_line() {
    let d = info(Level::Warning, Some(4..5), Some("let x = 1;\nlet y bad;"));
    assert_eq!(
        d.render_plain(),
        "foo.txt:1:5 warning: something went wrong\nlet x = 1;\n    ^"
    );
}

#[test]
fn width_one_span_gets_caret_and_no_tildes() {
    let d = info(Level::Error, Some(1..2), Some("abc"));
    assert_eq!(
        d.render_plain(),
        "foo.txt:1:2 error: something went wrong\nabc\n ^"
    );
}

#[test]
fn empty_span_still_gets_its_caret() {
    let d = info(Level::Error, Some(1..1), Some("abc"));
    assert_eq!(
        d.render_plain(),
        "foo.txt:1:2 error: something went wrong\nabc\n ^"
    );
}

#[test]
fn empty_source_renders_empty_context() {
    let d = info(Level::Error, Some(0..0), Some(""));
    assert_eq!(
        d.render_plain(),
        "foo.txt:1:1 error: something went wrong\n\n^"
    );
}

#[test]
fn multi_digit_line_and_column() {
    let mut source = String::new();
    for _ in 0..11 {
        source.push_str("aaaaaaaaaaaa\n");
    }
    source.push_str("bbbbbbbbbbbbbb");
    // Offset on line 12 (one-based), column 11 (one-based).
    let offset = 11 * 13 + 10;
    let d = info(Level::Error, Some(offset..offset + 1), Some(&source));
    let rendered = d.render_plain();
    assert!(rendered.starts_with("foo.txt:12:11 error: "), "{}", rendered);
}

#[test]
fn columns_count_bytes_not_characters() {
    // `ö` takes two bytes, so the byte column of `r` is 3.
    let d = info(Level::Error, Some(10..11), Some("héllo\nwörld"));
    assert_eq!(
        d.render_plain(),
        "foo.txt:2:4 error: something went wrong\nwörld\n   ^"
    );
}

#[test]
fn styled_error_uses_bold_and_red() {
    let d = info(Level::Error, Some(4..7), Some("let x = 1;"));
    assert_eq!(
        d.render(),
        "\u{1b}[1mfoo.txt:1:5\u{1b}[0m\
         \u{1b}[1;31m error: \u{1b}[0m\
         \u{1b}[1msomething went wrong\u{1b}[0m\
         \nlet x = 1;\
         \u{1b}[1;31m\n    ^~~\u{1b}[0m"
    );
}

#[test]
fn styled_warning_uses_bold_and_purple() {
    let d = info(Level::Warning, None, None);
    assert_eq!(
        d.render(),
        "\u{1b}[1mfoo.txt\u{1b}[0m\
         \u{1b}[1;35m warning: \u{1b}[0m\
         \u{1b}[1msomething went wrong\u{1b}[0m\
         \u{1b}[1;35m\u{1b}[0m"
    );
}

#[test]
fn styling_matches_ansi_term_output() {
    // The styled rendering must be byte-for-byte what ansi_term itself
    // writes for the same five pieces.
    let d = info(Level::Error, Some(17..20), Some("let x = 1;\nlet y bad;"));
    let bold = ansi_term::Style::new().bold();
    let red = ansi_term::Colour::Red.bold();
    let expected = format!(
        "{}{}{}{}{}",
        bold.paint("foo.txt:2:7"),
        red.paint(" error: "),
        bold.paint("something went wrong"),
        ansi_term::Style::default().paint("\nlet y bad;"),
        red.paint("\n      ^~~"),
    );
    assert_eq!(d.render(), expected);
}

#[test]
fn stripping_styles_recovers_plain_rendering() {
    for level in [Level::Warning, Level::Error] {
        let d = info(level, Some(17..20), Some("let x = 1;\nlet y bad;"));
        assert_eq!(strip_styles(&d.render()), d.render_plain());
        let bare = info(level, None, None);
        assert_eq!(strip_styles(&bare.render()), bare.render_plain());
    }
}

#[test]
fn strip_styles_removes_escape_sequences() {
    assert_eq!(strip_styles("\u{1b}[1mabc\u{1b}[0m"), "abc");
    assert_eq!(strip_styles("\u{1b}[1;35ma\u{1b}[0mb"), "ab");
    assert_eq!(strip_styles("plain text"), "plain text");
    assert_eq!(strip_styles(""), "");
}

#[test]
fn severity_labels_are_exact() {
    assert_eq!(Level::Warning.label(), " warning: ");
    assert_eq!(Level::Error.label(), " error: ");
}

#[test]
fn segment_styles_follow_severity() {
    let segs = info(Level::Warning, None, None).segments();
    assert_eq!(segs[0].style, SegStyle::Bold);
    assert_eq!(segs[1].style, SegStyle::BoldColored(Hue::Purple));
    assert_eq!(segs[2].style, SegStyle::Bold);
    assert_eq!(segs[3].style, SegStyle::Plain);
    assert_eq!(segs[4].style, SegStyle::BoldColored(Hue::Purple));
    let segs = info(Level::Error, None, None).segments();
    assert_eq!(segs[1].style, SegStyle::BoldColored(Hue::Red));
    assert_eq!(segs[4].style, SegStyle::BoldColored(Hue::Red));
}
