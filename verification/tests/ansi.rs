use dirlist::ansi::{remove_ansi_codes, visible_length};

#[test]
fn plain_text_is_left_alone() {
    assert_eq!(remove_ansi_codes("hello.txt"), "hello.txt");
    assert_eq!(visible_length("hello.txt"), 9);
}

#[test]
fn empty_text_has_no_visible_length() {
    assert_eq!(remove_ansi_codes(""), "");
    assert_eq!(visible_length(""), 0);
}

#[test]
fn colour_sequences_are_removed() {
    assert_eq!(remove_ansi_codes("\x1b[31mred\x1b[0m"), "red");
    assert_eq!(visible_length("\x1b[1;4;38;2;10;20;30mname\x1b[0m"), 4);
}

#[test]
fn sequence_without_parameters_is_removed() {
    assert_eq!(remove_ansi_codes("a\x1b[mb"), "ab");
    assert_eq!(remove_ansi_codes("a\x1b[Kb"), "ab");
}

#[test]
fn unfinished_sequence_stays() {
    assert_eq!(remove_ansi_codes("a\x1b[31"), "a\x1b[31");
    assert_eq!(remove_ansi_codes("a\x1b"), "a\x1b");
    assert_eq!(remove_ansi_codes("a\x1b[3 mb"), "a\x1b[3 mb");
    assert_eq!(remove_ansi_codes("\x1bmx"), "\x1bmx");
}

#[test]
fn sequence_ends_at_first_letter() {
    assert_eq!(remove_ansi_codes("\x1b[31mmm"), "mm");
    assert_eq!(remove_ansi_codes("\x1b[\x1b[0mx"), "\x1b[x");
}

#[test]
fn brackets_around_styled_text_are_visible() {
    assert_eq!(remove_ansi_codes("[\x1b[34m.env\x1b[0m]"), "[.env]");
    assert_eq!(visible_length("[\x1b[34m.env\x1b[0m]"), 6);
}

#[test]
fn visible_length_counts_characters_not_bytes() {
    assert_eq!(visible_length("\x1b[32mnaïve\x1b[0m"), 5);
    assert_eq!(visible_length("日本語"), 3);
}
