use webmud_gateway::ansi::{ansi2html, Styles};

#[test]
fn plain_text_gets_one_closing_tag() {
    assert_eq!(ansi2html("hello world"), "hello world</span>");
    assert_eq!(ansi2html(""), "</span>");
    assert_eq!(ansi2html("\x1b[mnot sgr"), "\x1b[mnot sgr</span>");
}

#[test]
fn single_colour() {
    assert_eq!(ansi2html("\x1b[31mred"), "<span class=\"tnc_red\">red</span>");
    assert_eq!(ansi2html("\x1b[44mx"), "<span class=\"tnc_bg_blue\">x</span>");
    assert_eq!(ansi2html("\x1b[37mx\x1b[47my"), "<span class=\"tnc_white\">x</span><span class=\"tnc_bg_silver tnc_white\">y</span>");
}

#[test]
fn class_order_is_fixed() {
    assert_eq!(
        ansi2html("\x1b[3;1;4;9;7;5;32;41mx"),
        "<span class=\"tnc_bg_red tnc_blink tnc_inverse tnc_line_through tnc_underline tnc_bold tnc_green tnc_italic\">x</span>"
    );
}

#[test]
fn run_of_sequences_is_one_transition() {
    assert_eq!(ansi2html("\x1b[1m\x1b[31mX"), "<span class=\"tnc_bold tnc_red\">X</span>");
    assert_eq!(ansi2html("\x1b[1;31mX\x1b[0mY"), "<span class=\"tnc_bold tnc_red\">X</span><span class=\"\">Y</span>");
}

#[test]
fn reset_twice_has_no_second_transition() {
    assert_eq!(ansi2html("a\x1b[0mb\x1b[0mc"), "abc</span>");
    assert_eq!(
        ansi2html("\x1b[31mA\x1b[0mB\x1b[0mC"),
        "<span class=\"tnc_red\">A</span><span class=\"\">BC</span>"
    );
}

#[test]
fn unchanged_style_is_dropped() {
    assert_eq!(ansi2html("\x1b[31mA\x1b[31mB"), "<span class=\"tnc_red\">AB</span>");
    assert_eq!(ansi2html("\x1b[99mA"), "A</span>");
    assert_eq!(ansi2html("\x1b[300mA"), "A</span>");
}

#[test]
fn off_codes_clear_attributes() {
    assert_eq!(ansi2html("\x1b[1mA\x1b[22mB"), "<span class=\"tnc_bold\">A</span><span class=\"\">B</span>");
    assert_eq!(ansi2html("\x1b[32mA\x1b[39mB"), "<span class=\"tnc_green\">A</span><span class=\"\">B</span>");
}

#[test]
fn calls_do_not_share_state() {
    let first = ansi2html("\x1b[32mgreen");
    assert_eq!(first, "<span class=\"tnc_green\">green</span>");
    assert_eq!(ansi2html("plain"), "plain</span>");
    assert_eq!(ansi2html("\x1b[32mgreen"), first);
}

#[test]
fn incomplete_sequence_is_text() {
    assert_eq!(ansi2html("\x1b[31;mx"), "\x1b[31;mx</span>");
    assert_eq!(ansi2html("\x1b[31"), "\x1b[31</span>");
}

#[test]
fn new_styles_are_plain() {
    let s = Styles::new();
    assert_eq!(s.background, None);
    assert_eq!(s.color, None);
    assert!(!s.bold && !s.italic && !s.underline && !s.blink && !s.inverse && !s.strikethrough);
    assert_eq!(s.with_code(31).color, Some(1));
    assert_eq!(s.with_code(1).with_code(0), Styles::new());
}

#[test]
fn trailing_reset_discards_earlier_codes() {
    assert_eq!(ansi2html("x\x1b[1;31;0my"), ansi2html("x\x1b[0my"));
    assert_eq!(ansi2html("\x1b[32mx\x1b[4;44;0m\x1b[1my"), ansi2html("\x1b[32mx\x1b[0m\x1b[1my"));
    assert_eq!(ansi2html("\x1b[33ma\x1b[5;0mb"), "<span class=\"tnc_yellow\">a</span><span class=\"\">b</span>");
}
