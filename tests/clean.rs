use webmud_gateway::sanitize::{sanitize, strip_telnet};

#[test]
fn angle_brackets_are_escaped() {
    assert_eq!(strip_telnet("<script>".to_string()), "&lt;script&gt;</span>");
}

#[test]
fn tab_becomes_five_spaces() {
    assert_eq!(strip_telnet("a\tb".to_string()), "a     b</span>");
}

#[test]
fn every_line_end_becomes_br() {
    let expected = "a<br>b</span>";
    assert_eq!(strip_telnet("a\r\nb".to_string()), expected);
    assert_eq!(strip_telnet("a\n\rb".to_string()), expected);
    assert_eq!(strip_telnet("a\rb".to_string()), expected);
    assert_eq!(strip_telnet("a\nb".to_string()), expected);
    assert_eq!(strip_telnet("a\u{FF}\u{F9}b".to_string()), expected);
}

#[test]
fn controls_marker_and_backtick_are_removed() {
    assert_eq!(strip_telnet("a\x07b\x00c".to_string()), "abc</span>");
    assert_eq!(strip_telnet("x_-SYSTEM: CHAT-_y".to_string()), "xy</span>");
    assert_eq!(strip_telnet("`q`".to_string()), "'q'</span>");
}

#[test]
fn colours_survive_cleaning() {
    assert_eq!(strip_telnet("\x1b[31mred\r\n".to_string()), "<span class=\"tnc_red\">red<br></span>");
    assert_eq!(strip_telnet("\x1b[x".to_string()), "[x</span>");
}

#[test]
fn raw_bytes_are_decoded_lossily() {
    assert_eq!(sanitize(b"hi\r\n"), "hi<br></span>");
    assert_eq!(sanitize(&[0x61, 0xC3, 0x62]), "a\u{FFFD}b</span>");
}
