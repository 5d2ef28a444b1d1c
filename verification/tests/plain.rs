use dirlist::color::{ColorSpec, Hue};
use dirlist::config::parse_config;
use dirlist::entry::Entry;
use dirlist::listing::{sort_dirs, Args};
use dirlist::output::render_listing;
use dirlist::style::{apply_style, StyleRecord};

fn red() -> StyleRecord {
    StyleRecord {
        color: Some(ColorSpec::Named { hue: Hue::Red, bright: false }),
        ..StyleRecord::unstyled()
    }
}

fn entry(name: &str, is_directory: bool) -> Entry {
    Entry {
        path: format!("./{}", name),
        display_name: name.to_string(),
        is_directory,
        is_readonly: false,
        is_hidden: false,
    }
}

#[test]
fn nothing_is_emitted_when_colours_are_off() {
    colored::control::set_override(false);
    let item = apply_style(&red(), "name", true, false);
    assert_eq!(item.attributed_text, "name");
    assert_eq!(item.visible_length, 4);
    let hidden = apply_style(&red(), ".env", false, true);
    assert_eq!(hidden.attributed_text, "[.env]");
    assert_eq!(hidden.visible_length, 6);
}

#[test]
fn end_to_end_without_colours() {
    colored::control::set_override(false);
    let text = "{
        \"dir\": {\"color\": \"blue\", \"bold\": true},
        \"file\": {\"color\": \"white\"},
        \"readonly\": {\"color\": \"white\", \"readonly_color\": \"red\"}
    }";
    let config = parse_config(text).unwrap().config;
    let args = Args {
        path: ".".to_string(),
        all: true,
        unordered: false,
        recursive: false,
        regex: String::new(),
    };
    let scanned = vec![entry("file1.txt", false), entry(".hidden", false), entry("dirA", true)];
    let listing = sort_dirs(scanned, &args).unwrap();
    assert_eq!(render_listing(&listing, &config, 79), "dirA  \n\n[.hidden]  file1.txt  \n");
    assert_eq!(render_listing(&listing, &config, 12), "dirA  \n\n[.hidden]  \nfile1.txt  \n");
}
