use address_check::loader::load_candidates;

fn strings(keys: &[&str]) -> Vec<String> {
    keys.iter().map(|k| k.to_string()).collect()
}

#[test]
fn empty_text_has_no_candidates() {
    assert_eq!(load_candidates(""), Vec::<String>::new());
}

#[test]
fn blank_text_has_no_candidates() {
    assert_eq!(load_candidates("\n\n   \n\t\n \r\n"), Vec::<String>::new());
}

#[test]
fn one_key_per_line_in_order() {
    assert_eq!(load_candidates("b\na\nc\n"), strings(&["b", "a", "c"]));
}

#[test]
fn last_line_needs_no_line_break() {
    assert_eq!(load_candidates("a\nb"), strings(&["a", "b"]));
}

#[test]
fn surrounding_whitespace_is_trimmed() {
    assert_eq!(load_candidates("  a \n\tb\t\n c"), strings(&["a", "b", "c"]));
}

#[test]
fn inner_whitespace_stays() {
    assert_eq!(load_candidates("  a  b \t c  \n"), strings(&["a  b \t c"]));
}

#[test]
fn blank_lines_between_keys_are_skipped() {
    assert_eq!(load_candidates("a\n\n   \nb\n\n"), strings(&["a", "b"]));
}

#[test]
fn carriage_returns_are_trimmed() {
    assert_eq!(load_candidates("a\r\nb\r\n\r\n"), strings(&["a", "b"]));
}

#[test]
fn unicode_whitespace_is_trimmed() {
    assert_eq!(load_candidates("\u{a0}a\u{2003}\n\u{3000}\n"), strings(&["a"]));
}

#[test]
fn keys_keep_characters_beyond_ascii() {
    assert_eq!(load_candidates(" \u{8d8a}x \n"), strings(&["\u{8d8a}x"]));
}

#[test]
fn duplicate_lines_stay_duplicates() {
    assert_eq!(load_candidates("a\na\n"), strings(&["a", "a"]));
}

#[test]
fn every_candidate_is_trimmed_and_not_empty() {
    let text = " x\n\n\ty y \n   \nz\r\n";
    for key in load_candidates(text) {
        assert!(!key.is_empty());
        assert_eq!(key.trim(), key);
    }
}

#[test]
fn whitespace_is_the_unicode_white_space_set() {
    let listed = |c: char| {
        let n = c as u32;
        (0x09..=0x0D).contains(&n)
            || n == 0x20
            || n == 0x85
            || n == 0xA0
            || n == 0x1680
            || (0x2000..=0x200A).contains(&n)
            || n == 0x2028
            || n == 0x2029
            || n == 0x202F
            || n == 0x205F
            || n == 0x3000
    };
    let mut count = 0;
    for n in 0..=0x10FFFF_u32 {
        if let Some(c) = char::from_u32(n) {
            assert_eq!(c.is_whitespace(), listed(c), "U+{:04X}", n);
            let line = format!("a{}", c);
            let expected = if listed(c) { "a".to_string() } else { line.clone() };
            if c != '\n' {
                assert_eq!(load_candidates(&line), vec![expected], "U+{:04X}", n);
            }
            if listed(c) {
                count += 1;
            }
        }
    }
    assert_eq!(count, 25);
}
