use dirlist::ansi::remove_ansi_codes;
use dirlist::config::parse_config;
use dirlist::entry::Entry;
use dirlist::listing::{partition_entries, sort_dirs, Listing, Args};
use dirlist::output::{render_listing, render_paths};
use dirlist::pattern::Pattern;
use dirlist::sort::SortMode;
use dirlist::terminal::{line_width, usable_width};

fn file(name: &str) -> Entry {
    Entry {
        path: format!("./{}", name),
        display_name: name.to_string(),
        is_directory: false,
        is_readonly: false,
        is_hidden: false,
    }
}

fn dir(name: &str) -> Entry {
    Entry { is_directory: true, ..file(name) }
}

fn options(all: bool, unordered: bool, regex: &str) -> Args {
    Args {
        path: ".".to_string(),
        all,
        unordered,
        recursive: false,
        regex: regex.to_string(),
    }
}

fn names(entries: &Vec<Entry>) -> Vec<String> {
    entries.iter().map(|e| e.display_name.clone()).collect()
}

fn scanned() -> Vec<Entry> {
    vec![file("file1.txt"), file(".hidden"), dir("dirA")]
}

const CONFIG: &str = "{
    \"dir\": {\"color\": \"blue\", \"bold\": true},
    \"file\": {\"color\": \"white\"},
    \"readonly\": {\"color\": \"white\", \"readonly_color\": \"red\"}
}";

#[test]
fn defaults_hide_hidden_entries() {
    let listing = sort_dirs(scanned(), &options(false, false, "")).unwrap();
    assert_eq!(names(&listing.dirs), vec!["dirA"]);
    assert_eq!(names(&listing.files), vec!["file1.txt"]);
}

#[test]
fn inclusion_shows_hidden_entries() {
    let listing = sort_dirs(scanned(), &options(true, false, "")).unwrap();
    assert_eq!(names(&listing.dirs), vec!["dirA"]);
    assert_eq!(names(&listing.files), vec![".hidden", "file1.txt"]);
}

#[test]
fn end_to_end_with_defaults() {
    colored::control::set_override(true);
    let config = parse_config(CONFIG).unwrap().config;
    let listing = sort_dirs(scanned(), &options(false, false, "")).unwrap();
    let text = render_listing(&listing, &config, 79);
    assert_eq!(text, "\x1b[1;34mdirA\x1b[0m  \n\n\x1b[37mfile1.txt\x1b[0m  \n");
    assert!(!text.contains("hidden"));
}

#[test]
fn end_to_end_with_hidden_entries() {
    colored::control::set_override(true);
    let config = parse_config(CONFIG).unwrap().config;
    let listing = sort_dirs(scanned(), &options(true, false, "")).unwrap();
    let text = render_listing(&listing, &config, 79);
    assert_eq!(
        text,
        "\x1b[1;34mdirA\x1b[0m  \n\n[\x1b[37m.hidden\x1b[0m]  \x1b[37mfile1.txt\x1b[0m  \n"
    );
}

#[test]
fn what_shows_of_a_listing_is_the_same_with_colours() {
    colored::control::set_override(true);
    let config = parse_config(CONFIG).unwrap().config;
    let listing = sort_dirs(scanned(), &options(true, false, "")).unwrap();
    assert_eq!(
        remove_ansi_codes(&render_listing(&listing, &config, 79)),
        "dirA  \n\n[.hidden]  file1.txt  \n"
    );
    assert_eq!(
        remove_ansi_codes(&render_listing(&listing, &config, 12)),
        "dirA  \n\n[.hidden]  \nfile1.txt  \n"
    );
}

#[test]
fn pattern_filters_both_groups() {
    let entries = vec![file("a.txt"), file("b.log"), dir("sub")];
    let listing = sort_dirs(entries, &options(false, false, "\\.txt$")).unwrap();
    assert!(listing.dirs.is_empty());
    assert_eq!(names(&listing.files), vec!["a.txt"]);
}

#[test]
fn pattern_can_keep_directories() {
    let entries = vec![file("a.txt"), dir("sub"), dir("other"), file("sub.txt")];
    let listing = sort_dirs(entries, &options(false, false, "sub")).unwrap();
    assert_eq!(names(&listing.dirs), vec!["sub"]);
    assert_eq!(names(&listing.files), vec!["sub.txt"]);
}

#[test]
fn malformed_pattern_fails_before_listing() {
    let error = sort_dirs(scanned(), &options(false, false, "(")).unwrap_err();
    assert!(!error.message.is_empty());
}

#[test]
fn unordered_listing_keeps_scan_order() {
    let entries = vec![file("b"), dir("z"), file("a"), dir("y"), file(".c")];
    let listing = sort_dirs(entries, &options(true, true, "")).unwrap();
    assert_eq!(names(&listing.dirs), vec!["z", "y"]);
    assert_eq!(names(&listing.files), vec!["b", "a", ".c"]);
}

#[test]
fn ordered_listing_sorts_each_group() {
    let entries = vec![file("b"), dir("z"), file("a"), dir("y"), file(".c")];
    let listing = sort_dirs(entries, &options(true, false, "")).unwrap();
    assert_eq!(names(&listing.dirs), vec!["y", "z"]);
    assert_eq!(names(&listing.files), vec![".c", "a", "b"]);
}

#[test]
fn listing_twice_gives_the_same_listing() {
    let first = sort_dirs(scanned(), &options(true, false, "")).unwrap();
    let second = sort_dirs(scanned(), &options(true, false, "")).unwrap();
    assert_eq!(first, second);
}

#[test]
fn listing_nothing_gives_two_empty_groups() {
    let listing = sort_dirs(Vec::new(), &options(false, false, "")).unwrap();
    assert_eq!(listing, Listing { dirs: Vec::new(), files: Vec::new() });
    let config = parse_config("{}").unwrap().config;
    assert_eq!(render_listing(&listing, &config, 80), "\n\n\n");
}

#[test]
fn partition_keeps_scan_order() {
    let pattern = Pattern::compile("").ok().unwrap();
    let entries = vec![file("b"), dir("z"), file(".h"), file("a"), dir(".y")];
    let groups = partition_entries(entries.clone(), &pattern, false);
    assert_eq!(names(&groups.dirs), vec!["z"]);
    assert_eq!(names(&groups.files), vec!["b", "a"]);
    let groups = partition_entries(entries, &pattern, true);
    assert_eq!(names(&groups.dirs), vec!["z", ".y"]);
    assert_eq!(names(&groups.files), vec!["b", ".h", "a"]);
}

#[test]
fn options_choose_the_sort_mode() {
    assert_eq!(options(false, false, "").sort_mode(), SortMode::Ordered);
    assert_eq!(options(false, true, "").sort_mode(), SortMode::Unordered);
}

#[test]
fn paths_are_printed_one_per_line() {
    assert_eq!(render_paths(&Vec::new()), "");
    assert_eq!(render_paths(&vec!["a/b".to_string()]), "a/b\n");
    assert_eq!(
        render_paths(&vec!["a/b".to_string(), "".to_string(), "c".to_string()]),
        "a/b\n\nc\n"
    );
}

#[test]
fn usable_width_is_the_terminal_width() {
    assert_eq!(usable_width(Some((80, 24))), Some(80));
    assert_eq!(usable_width(Some((24, 5))), Some(24));
    assert_eq!(usable_width(Some((1, 1))), Some(1));
    assert_eq!(usable_width(Some((0, 24))), None);
    assert_eq!(usable_width(None), None);
    assert_eq!(usable_width(Some((usize::MAX, 0))), Some(usize::MAX));
}

#[test]
fn line_width_is_never_zero() {
    match line_width() {
        Some(width) => assert!(width > 0),
        None => {}
    }
}
