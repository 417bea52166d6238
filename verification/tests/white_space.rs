use remote_shell::client::is_quit;
use remote_shell::executor::output_response;
use remote_shell::pipeline::split_words;
use remote_shell::text::{
    is_wide_space, space_width_at, space_width_ending_at, trim_bytes, trim_end_bytes, trim_start_len,
};

const SAMPLES: [&str; 12] = [
    "",
    "ls -l",
    "  ls -l \r\n",
    "\u{a0}ls\u{3000}-l\u{2003}\n",
    "\u{85}\u{1680}\u{2028}x\u{2029}\u{202f}\u{205f}",
    "caf\u{e9} \u{20ac}5\u{a0}",
    "\u{2000}\u{2001}\u{2002}\u{2003}\u{2004}\u{2005}\u{2006}\u{2007}\u{2008}\u{2009}\u{200a}",
    "a\u{200b}b\u{feff}c\u{180e}d",
    "\u{e2}\u{80}x",
    "x\u{c2}",
    "\t\u{b}\u{c}word\u{1c}\u{1f}",
    "\u{1f600} \u{1f600}",
];

#[test]
fn every_character_is_white_space_exactly_where_std_says_so() {
    let mut code: u32 = 0;
    while code <= 0x10FFFF {
        if let Some(c) = char::from_u32(code) {
            let mut buffer = [0u8; 4];
            let encoded = c.encode_utf8(&mut buffer).as_bytes();
            let expected = if c.is_whitespace() { encoded.len() } else { 0 };
            assert_eq!(space_width_at(encoded, 0), expected, "U+{:04X}", code);
            assert_eq!(space_width_ending_at(encoded, encoded.len()), expected, "U+{:04X}", code);
        }
        code += 1;
    }
}

#[test]
fn trimming_agrees_with_std_on_text() {
    for sample in SAMPLES {
        assert_eq!(trim_bytes(sample.as_bytes()), sample.trim().as_bytes(), "{:?}", sample);
        assert_eq!(trim_end_bytes(sample.as_bytes()), sample.trim_end().as_bytes(), "{:?}", sample);
        assert_eq!(
            &sample.as_bytes()[trim_start_len(sample.as_bytes())..],
            sample.trim_start().as_bytes(),
            "{:?}",
            sample
        );
    }
}

#[test]
fn words_agree_with_std_on_text() {
    for sample in SAMPLES {
        let expected: Vec<Vec<u8>> = sample.split_whitespace().map(|w| w.as_bytes().to_vec()).collect();
        assert_eq!(split_words(sample.as_bytes()), expected, "{:?}", sample);
    }
}

#[test]
fn white_space_of_several_bytes_is_trimmed_whole() {
    assert_eq!(trim_bytes("\u{a0}ls\u{3000}".as_bytes()), b"ls");
    assert_eq!(trim_end_bytes(&[b'x', 0xC2, 0xA0, 0xE2, 0x80, 0x83, b' ']), b"x");
    assert_eq!(output_response("out\u{2028}\n".as_bytes().to_vec()), b"out".to_vec());
    assert_eq!(output_response("\u{3000}\u{85}".as_bytes().to_vec()), b" ".to_vec());
}

#[test]
fn parts_of_a_white_space_character_are_kept() {
    // the last byte of U+00A0 without its first, and the first without its last
    assert_eq!(trim_end_bytes(&[b'x', 0xA0]), &[b'x', 0xA0]);
    assert_eq!(trim_end_bytes(&[b'x', 0xC2]), &[b'x', 0xC2]);
    assert_eq!(trim_end_bytes(&[b'x', 0xE2, 0x80]), &[b'x', 0xE2, 0x80]);
    assert_eq!(trim_bytes(&[0x80, 0x80, b'x']), &[0x80, 0x80, b'x']);
    // a broken character before a whole white-space character
    assert_eq!(trim_end_bytes(&[0xE2, 0xC2, 0xA0]), &[0xE2]);
}

#[test]
fn widths_at_an_index() {
    let text = "a \u{a0}\u{2003}b".as_bytes();
    assert_eq!(space_width_at(text, 0), 0);
    assert_eq!(space_width_at(text, 1), 1);
    assert_eq!(space_width_at(text, 2), 2);
    assert_eq!(space_width_at(text, 3), 0);
    assert_eq!(space_width_at(text, 4), 3);
    assert_eq!(space_width_at(text, 7), 0);
    assert_eq!(space_width_at(text, 8), 0);
    assert_eq!(space_width_at(text, 100), 0);
    assert_eq!(space_width_ending_at(text, 0), 0);
    assert_eq!(space_width_ending_at(text, 1), 0);
    assert_eq!(space_width_ending_at(text, 2), 1);
    assert_eq!(space_width_ending_at(text, 3), 0);
    assert_eq!(space_width_ending_at(text, 4), 2);
    assert_eq!(space_width_ending_at(text, 7), 3);
    assert_eq!(space_width_ending_at(text, 8), 0);
    assert_eq!(space_width_ending_at(text, 9), 0);
}

#[test]
fn wide_space_triples() {
    assert!(is_wide_space(0xE1, 0x9A, 0x80));
    assert!(is_wide_space(0xE2, 0x80, 0x80));
    assert!(is_wide_space(0xE2, 0x80, 0x8A));
    assert!(!is_wide_space(0xE2, 0x80, 0x8B));
    assert!(is_wide_space(0xE2, 0x80, 0xA8));
    assert!(is_wide_space(0xE2, 0x80, 0xA9));
    assert!(!is_wide_space(0xE2, 0x80, 0xAA));
    assert!(is_wide_space(0xE2, 0x80, 0xAF));
    assert!(is_wide_space(0xE2, 0x81, 0x9F));
    assert!(is_wide_space(0xE3, 0x80, 0x80));
    assert!(!is_wide_space(0xE3, 0x80, 0x81));
    assert!(!is_wide_space(0xE2, 0x82, 0xAC));
}

#[test]
fn quit_is_found_behind_any_white_space() {
    assert!(is_quit("quit\u{a0}\n".as_bytes()));
    assert!(is_quit("\u{3000}do_quit".as_bytes()));
    assert!(!is_quit("quit\u{200b}".as_bytes()));
}
