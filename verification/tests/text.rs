//! Character classes, widths, truncation, numbers and the order of names.
use music_player::text::{
    ascii_lower, bytes_before, chars_of, comes_before, display_width, is_control, is_whitespace, lower_chars,
    push_decimal, push_two_digits, repeat_char, same_text, truncate,
};

fn all_chars() -> impl Iterator<Item = char> {
    (0..=0x10FFFF_u32).filter_map(char::from_u32)
}

#[test]
fn whitespace_is_that_of_unicode() {
    for c in all_chars() {
        assert_eq!(is_whitespace(c), c.is_whitespace(), "{:?}", c);
    }
}

#[test]
fn control_characters_are_those_of_unicode() {
    for c in all_chars() {
        assert_eq!(is_control(c), c.is_control(), "{:?}", c);
    }
}

#[test]
fn only_ascii_letters_are_lowered() {
    for c in all_chars() {
        assert_eq!(ascii_lower(c), c.to_ascii_lowercase(), "{:?}", c);
    }
    assert_eq!(lower_chars("ÀZ[a"), vec!['À', 'z', '[', 'a']);
}

#[test]
fn characters_come_one_by_one() {
    assert_eq!(chars_of(""), Vec::<char>::new());
    assert_eq!(chars_of("a─🔁"), vec!['a', '─', '🔁']);
}

#[test]
fn characters_repeat() {
    assert_eq!(repeat_char('─', 0), "");
    assert_eq!(repeat_char('─', 3), "───");
}

#[test]
fn pictographs_are_wide() {
    assert_eq!(display_width(""), 0);
    assert_eq!(display_width("abc"), 3);
    assert_eq!(display_width("■ IDLE"), 6);
    assert_eq!(display_width("🔁 ALL"), 6);
    assert_eq!(display_width("\u{1EFFF}"), 1);
    assert_eq!(display_width("\u{1F000}"), 2);
    assert_eq!(display_width("\u{1F2FF}\u{1F300}\u{1F9FF}\u{10FFFF}"), 8);
}

#[test]
fn short_texts_are_not_cut() {
    assert_eq!(truncate("", 0), "");
    assert_eq!(truncate("song", 4), "song");
    assert_eq!(truncate("song", 10), "song");
}

#[test]
fn long_texts_are_cut() {
    assert_eq!(truncate("song", 3), "so~");
    assert_eq!(truncate("song", 2), "s~");
    assert_eq!(truncate("song", 1), "");
    assert_eq!(truncate("song", 0), "");
    assert_eq!(truncate("żółw", 3), "żó~");
}

#[test]
fn the_last_cut_counts() {
    for room in 0..9 {
        let once = truncate("melody", room);
        assert!(once.chars().count() <= room);
        for less in 0..=room {
            assert_eq!(truncate(&once, less), truncate("melody", less));
        }
    }
}

#[test]
fn numbers_are_written_in_decimal() {
    for n in [0, 7, 10, 99, 100, 65_535, u64::MAX] {
        let mut text = String::from("n=");
        push_decimal(&mut text, n);
        assert_eq!(text, format!("n={}", n));
        let mut padded = String::new();
        push_two_digits(&mut padded, n);
        assert_eq!(padded, format!("{:02}", n));
    }
}

#[test]
fn names_are_ordered_like_strings() {
    let names = ["", "A", "B", "a", "aa", "ab", "b", "é", "─", "🔁"];
    for left in names {
        for right in names {
            let (a, b) = (chars_of(left), chars_of(right));
            assert_eq!(comes_before(&a, &b), left < right);
            assert_eq!(same_text(&a, &b), left == right);
            assert_eq!(bytes_before(left.as_bytes(), right.as_bytes()), left < right);
        }
    }
}
