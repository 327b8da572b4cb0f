use cosmic_text::action::accepts_char;
use cosmic_text::attrs::{contains_text, str_eq};
use cosmic_text::hit::cluster_cuts;
use cosmic_text::text::{
    boundaries_from, boundaries_of, boundary_after, boundary_before, char_text, floor_index,
    is_boundary_of, join_text, snap_to_boundary, split_lines, split_text, text_len,
};

#[test]
fn text_len_counts_bytes() {
    assert_eq!(text_len(""), 0);
    assert_eq!(text_len("abc"), 3);
    assert_eq!(text_len("é"), 2);
    assert_eq!(text_len("日本"), 6);
}

#[test]
fn boundaries_of_ascii_text_are_all_offsets() {
    assert_eq!(boundaries_of("abc"), vec![0, 1, 2, 3]);
}

#[test]
fn every_printable_ascii_character_is_a_cluster_of_its_own() {
    let all: String = (0x20u8..=0x7E).map(|b| b as char).collect();
    let expected: Vec<usize> = (0..=all.len()).collect();
    assert_eq!(boundaries_of(&all), expected);
    for a in 0x20u8..=0x7E {
        for b in 0x20u8..=0x7E {
            let mut pair = String::new();
            pair.push(a as char);
            pair.push(b as char);
            assert_eq!(boundaries_of(&pair), vec![0, 1, 2], "{:?}", pair);
        }
    }
    assert_eq!(boundaries_of("XHello"), vec![0, 1, 2, 3, 4, 5, 6]);
    assert_eq!(boundaries_of("HelloWorld").len(), 11);
}

#[test]
fn boundaries_of_empty_text_is_zero() {
    assert_eq!(boundaries_of(""), vec![0]);
}

#[test]
fn boundaries_keep_combining_marks_with_their_base() {
    // 'e' followed by a combining acute accent, then 'x'
    assert_eq!(boundaries_of("e\u{301}x"), vec![0, 3, 4]);
}

#[test]
fn boundaries_keep_flag_pairs_and_line_breaks_together() {
    assert_eq!(boundaries_of("\u{1F1E9}\u{1F1EA}!"), vec![0, 8, 9]);
    assert_eq!(boundaries_of("a\r\nb"), vec![0, 1, 3, 4]);
}

#[test]
fn boundaries_from_adds_both_ends_to_the_starts() {
    assert_eq!(boundaries_from(&vec![0, 3], "e\u{301}x"), vec![0, 3, 4]);
    assert_eq!(boundaries_from(&vec![0, 1, 2], "abc"), vec![0, 1, 2, 3]);
    assert_eq!(boundaries_from(&vec![0], "abc"), vec![0, 3]);
    assert_eq!(boundaries_from(&Vec::new(), "abc"), vec![0, 3]);
    assert_eq!(boundaries_from(&Vec::new(), ""), vec![0]);
}

#[test]
fn boundaries_from_keeps_only_increasing_character_boundaries() {
    // Offset 2 lies inside the combining mark.
    assert_eq!(boundaries_from(&vec![5, 1, 1, 2, 100, 3, 0, 3], "e\u{301}x"), vec![0, 1, 3, 4]);
    assert_eq!(boundaries_from(&vec![4, 2], "e\u{301}x"), vec![0, 4]);
    assert_eq!(boundaries_from(&vec![7, usize::MAX], ""), vec![0]);
}

#[test]
fn snap_moves_back_to_a_boundary() {
    let text = "e\u{301}x";
    assert_eq!(snap_to_boundary(text, 0), 0);
    assert_eq!(snap_to_boundary(text, 1), 0);
    assert_eq!(snap_to_boundary(text, 2), 0);
    assert_eq!(snap_to_boundary(text, 3), 3);
    assert_eq!(snap_to_boundary(text, 4), 4);
    assert_eq!(snap_to_boundary(text, 100), 4);
    assert_eq!(snap_to_boundary("", 7), 0);
}

#[test]
fn boundary_before_and_after_step_over_clusters() {
    let text = "e\u{301}x";
    assert_eq!(boundary_before(text, 0), 0);
    assert_eq!(boundary_before(text, 3), 0);
    assert_eq!(boundary_before(text, 4), 3);
    assert_eq!(boundary_before(text, 2), 0);
    assert_eq!(boundary_after(text, 0), 3);
    assert_eq!(boundary_after(text, 1), 3);
    assert_eq!(boundary_after(text, 3), 4);
    assert_eq!(boundary_after(text, 4), 4);
    assert_eq!(boundary_after(text, 9), 4);
}

#[test]
fn is_boundary_of_tells_boundaries_apart() {
    let text = "e\u{301}x";
    assert!(is_boundary_of(text, 0));
    assert!(!is_boundary_of(text, 1));
    assert!(!is_boundary_of(text, 2));
    assert!(is_boundary_of(text, 3));
    assert!(is_boundary_of(text, 4));
    assert!(!is_boundary_of(text, 5));
}

#[test]
fn floor_index_finds_last_offset_at_most() {
    let b = vec![0usize, 3, 4, 9];
    assert_eq!(floor_index(&b, 0), 0);
    assert_eq!(floor_index(&b, 2), 0);
    assert_eq!(floor_index(&b, 3), 1);
    assert_eq!(floor_index(&b, 8), 2);
    assert_eq!(floor_index(&b, 9), 3);
    assert_eq!(floor_index(&b, 50), 3);
}

#[test]
fn split_text_cuts_at_byte_offset() {
    let mut text = String::from("héllo");
    let tail = split_text(&mut text, 3);
    assert_eq!(text, "hé");
    assert_eq!(tail, "llo");

    let mut text = String::from("abc");
    let tail = split_text(&mut text, 0);
    assert_eq!(text, "");
    assert_eq!(tail, "abc");

    let mut text = String::from("abc");
    let tail = split_text(&mut text, 3);
    assert_eq!(text, "abc");
    assert_eq!(tail, "");
}

#[test]
fn join_text_appends() {
    let mut text = String::from("hé");
    join_text(&mut text, "llo");
    assert_eq!(text, "héllo");
}

#[test]
fn char_text_holds_one_character() {
    assert_eq!(char_text('X'), "X");
    assert_eq!(char_text('日'), "日");
    assert_eq!(char_text('\t'), "\t");
}

#[test]
fn split_lines_splits_at_newlines() {
    assert_eq!(split_lines("Hello\nWorld"), vec!["Hello", "World"]);
    assert_eq!(split_lines("a\n\nb"), vec!["a", "", "b"]);
    assert_eq!(split_lines("one"), vec!["one"]);
}

#[test]
fn split_lines_drops_final_newline_and_carriage_returns() {
    assert_eq!(split_lines("a\r\nb\r\n"), vec!["a", "b"]);
    assert_eq!(split_lines("a\n"), vec!["a"]);
    assert_eq!(split_lines("\n"), vec![""]);
    assert_eq!(split_lines("\r\n"), vec![""]);
    assert_eq!(split_lines("\n\n"), vec!["", ""]);
}

#[test]
fn split_lines_keeps_bare_carriage_returns() {
    assert_eq!(split_lines("a\rb"), vec!["a\rb"]);
    assert_eq!(split_lines("a\r"), vec!["a\r"]);
    assert_eq!(split_lines("\r\r\n"), vec!["\r"]);
}

#[test]
fn split_lines_of_empty_text_is_empty() {
    assert!(split_lines("").is_empty());
}

#[test]
fn split_lines_agrees_with_std_lines() {
    for text in ["", "a", "a\nb", "a\r\nb", "\n", "a\n", "é\n日本\r\n\n", "x\r", "\r\n\r\n", "\n\r"] {
        let expected: Vec<String> = text.lines().map(|line| line.to_string()).collect();
        assert_eq!(split_lines(text), expected);
    }
}

#[test]
fn contains_text_finds_substrings() {
    assert!(contains_text("NotoColorEmoji", "Emoji"));
    assert!(contains_text("Emoji", "Emoji"));
    assert!(contains_text("EmoEmojiji", "Emoji"));
    assert!(contains_text("anything", ""));
    assert!(contains_text("", ""));
    assert!(!contains_text("", "Emoji"));
    assert!(!contains_text("Emoj", "Emoji"));
    assert!(!contains_text("emoji", "Emoji"));
    assert!(!contains_text("Emo ji", "Emoji"));
    assert!(contains_text("日本語", "本"));
    assert!(!contains_text("日本語", "木"));
}

#[test]
fn contains_text_agrees_with_std_contains() {
    let texts = ["", "a", "ab", "ba", "aab", "aba", "é", "eé", "日本", "本"];
    for hay in texts {
        for needle in texts {
            assert_eq!(contains_text(hay, needle), hay.contains(needle), "{:?} in {:?}", needle, hay);
        }
    }
}

#[test]
fn str_eq_compares_contents() {
    assert!(str_eq("", ""));
    assert!(str_eq("abc", "abc"));
    assert!(!str_eq("abc", "abd"));
    assert!(!str_eq("abc", "ab"));
    assert!(!str_eq("é", "e"));
}

#[test]
fn accepts_char_rejects_control_characters_that_are_not_allowed() {
    let tab = vec!['\t'];
    assert!(accepts_char('a', &tab));
    assert!(accepts_char(' ', &tab));
    assert!(accepts_char('\t', &tab));
    assert!(accepts_char('é', &tab));
    assert!(accepts_char('\u{A0}', &tab));
    assert!(!accepts_char('\n', &tab));
    assert!(!accepts_char('\r', &tab));
    assert!(!accepts_char('\0', &tab));
    assert!(!accepts_char('\u{1F}', &tab));
    assert!(!accepts_char('\u{7F}', &tab));
    assert!(!accepts_char('\u{92}', &tab));
    assert!(!accepts_char('\u{9F}', &tab));
    assert!(!accepts_char('\t', &Vec::new()));
    assert!(accepts_char('a', &Vec::new()));
    assert!(accepts_char('\u{92}', &vec!['\t', '\u{92}']));
    assert!(accepts_char('\t', &vec!['\u{92}', '\t']));
}

#[test]
fn cluster_cuts_lists_boundaries_inside_the_cluster() {
    let b = boundaries_of("ae\u{301}xy");
    assert_eq!(b, vec![0, 1, 4, 5, 6]);
    assert_eq!(cluster_cuts(&b, 0, 6), vec![0, 1, 4, 5, 6]);
    assert_eq!(cluster_cuts(&b, 1, 5), vec![1, 4, 5]);
    assert_eq!(cluster_cuts(&b, 1, 4), vec![1, 4]);
    assert_eq!(cluster_cuts(&b, 2, 5), vec![2, 4, 5]);
    assert_eq!(cluster_cuts(&b, 2, 3), vec![2, 3]);
    assert_eq!(cluster_cuts(&b, 4, 4), vec![4]);
    assert_eq!(cluster_cuts(&b, 5, 2), vec![5]);
    assert_eq!(cluster_cuts(&b, 5, 9), vec![5, 6, 9]);
}
