use dirlist::ansi::remove_ansi_codes;
use dirlist::color::{ColorSpec, Hue};
use dirlist::entry::Entry;
use dirlist::grid::{columns_for, render_grid, render_group, widest};
use dirlist::style::{Attributes, Config, RenderedItem, StyleRecord};
use dirlist::terminal::usable_width;

fn item(text: &str) -> RenderedItem {
    RenderedItem { attributed_text: text.to_string(), visible_length: text.chars().count() }
}

fn styled(text: &str, visible_length: usize) -> RenderedItem {
    RenderedItem { attributed_text: text.to_string(), visible_length }
}

fn three() -> Vec<RenderedItem> {
    vec![item("abc"), item("abcdefghij"), item("abcd")]
}

#[test]
fn narrow_terminal_gives_one_column() {
    assert_eq!(widest(&three()), 10);
    assert_eq!(columns_for(10, 20), 1);
    assert_eq!(render_grid(&three(), 20), "abc         \nabcdefghij  \nabcd        \n");
}

#[test]
fn each_item_on_its_own_line_in_one_column() {
    let text = render_grid(&three(), 20);
    let lines: Vec<&str> = text.lines().collect();
    assert_eq!(lines.len(), 3);
    assert!(lines.iter().all(|line| line.chars().count() == 12));
}

#[test]
fn two_columns_wrap_after_two_items() {
    assert_eq!(columns_for(10, 24), 2);
    assert_eq!(columns_for(10, 35), 2);
    assert_eq!(render_grid(&three(), 24), "abc         abcdefghij  \nabcd        \n");
}

#[test]
fn wide_terminal_takes_all_items_on_one_line() {
    assert_eq!(columns_for(10, 36), 3);
    assert_eq!(render_grid(&three(), 36), "abc         abcdefghij  abcd        \n");
    assert_eq!(render_grid(&three(), 1000), "abc         abcdefghij  abcd        \n");
}

#[test]
fn item_wider_than_the_terminal_still_gets_a_column() {
    assert_eq!(columns_for(10, 5), 1);
    assert_eq!(columns_for(10, 0), 1);
    assert_eq!(columns_for(10, 11), 1);
    assert_eq!(columns_for(10, 12), 1);
    assert_eq!(render_grid(&three(), 0), "abc         \nabcdefghij  \nabcd        \n");
}

#[test]
fn column_count_does_not_overflow() {
    assert_eq!(columns_for(usize::MAX, usize::MAX), 1);
    assert_eq!(columns_for(usize::MAX - 2, usize::MAX), 1);
    assert_eq!(columns_for(0, usize::MAX), usize::MAX / 2);
    assert_eq!(columns_for(0, 1), 1);
    assert_eq!(columns_for(0, 2), 1);
    assert_eq!(columns_for(0, 4), 2);
}

#[test]
fn empty_group_is_one_empty_line() {
    assert_eq!(widest(&Vec::new()), 0);
    assert_eq!(render_grid(&Vec::new(), 80), "\n");
}

#[test]
fn single_item_grid() {
    assert_eq!(render_grid(&vec![item("x")], 80), "x  \n");
}

#[test]
fn style_codes_do_not_count_for_alignment() {
    let items = vec![
        styled("\x1b[1;34mdir\x1b[0m", 3),
        styled("[\x1b[37m.env\x1b[0m]", 6),
        item("plain"),
        styled("\x1b[31mlonger-name\x1b[0m", 11),
    ];
    assert_eq!(widest(&items), 11);
    let expected = format!(
        "{}{}{}{}\n{}{}{}{}\n",
        "\x1b[1;34mdir\x1b[0m",
        " ".repeat(10),
        "[\x1b[37m.env\x1b[0m]",
        " ".repeat(7),
        "plain",
        " ".repeat(8),
        "\x1b[31mlonger-name\x1b[0m",
        " ".repeat(2),
    );
    assert_eq!(render_grid(&items, 30), expected);
}

#[test]
fn rendering_twice_gives_identical_text() {
    assert_eq!(render_grid(&three(), 24), render_grid(&three(), 24));
}

#[test]
fn group_is_styled_and_laid_out() {
    let config = Config {
        dir: StyleRecord::unstyled(),
        file: StyleRecord::unstyled(),
        readonly: StyleRecord::unstyled(),
    };
    let entries = vec![
        Entry {
            path: "./a".to_string(),
            display_name: "a".to_string(),
            is_directory: false,
            is_readonly: false,
            is_hidden: false,
        },
        Entry {
            path: "./.b".to_string(),
            display_name: ".b".to_string(),
            is_directory: false,
            is_readonly: true,
            is_hidden: false,
        },
    ];
    assert_eq!(render_group(&entries, &config, 80), "a     [.b]  \n");
    assert_eq!(render_group(&entries, &config, 10), "a     \n[.b]  \n");
}

fn named(name: &str, is_directory: bool, is_readonly: bool) -> Entry {
    Entry {
        path: format!("./{}", name),
        display_name: name.to_string(),
        is_directory,
        is_readonly,
        is_hidden: false,
    }
}

fn colourful() -> Config {
    let attributes = Attributes {
        bold: true,
        underline: false,
        reversed: false,
        italic: true,
        blink: false,
        hidden: false,
        strikethrough: false,
    };
    let record = StyleRecord {
        color: Some(ColorSpec::Named { hue: Hue::Blue, bright: true }),
        attributes,
        readonly_color: Some(ColorSpec::Rgb { r: 9, g: 8, b: 7 }),
        readonly_background_color: Some(ColorSpec::Named { hue: Hue::Yellow, bright: false }),
    };
    Config { dir: record, file: record, readonly: record }
}

#[test]
fn terminal_of_24_columns_takes_two_names_of_ten() {
    colored::control::set_override(true);
    let width = usable_width(Some((24, 10))).unwrap();
    let entries = vec![named("aaaaaaaaaa", false, false), named("bbbbbbbbbb", false, true)];
    let out = render_group(&entries, &colourful(), width);
    assert_eq!(remove_ansi_codes(&out), "aaaaaaaaaa  bbbbbbbbbb  \n");
    assert!(out.len() > 30);
}

#[test]
fn what_shows_of_a_styled_group_is_the_grid_of_its_names() {
    colored::control::set_override(true);
    let entries = vec![
        named("abc", true, false),
        named(".env", false, false),
        named("abcdefghij", false, true),
        named("abcd", false, false),
        named(".z", true, true),
    ];
    let shown = ["abc", "[.env]", "abcdefghij", "abcd", "[.z]"];
    for width in [0, 11, 12, 23, 24, 25, 36, 47, 48, 60, 200] {
        let columns = std::cmp::max(1, width / 12);
        let mut expected = String::new();
        for (i, name) in shown.iter().enumerate() {
            if i > 0 && i % columns == 0 {
                expected.push('\n');
            }
            expected.push_str(name);
            expected.push_str(&" ".repeat(12 - name.chars().count()));
        }
        expected.push('\n');
        let out = render_group(&entries, &colourful(), width);
        assert_eq!(remove_ansi_codes(&out), expected);
        assert!(out.contains("\x1b["));
    }
}
