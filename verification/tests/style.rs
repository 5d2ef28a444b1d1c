use dirlist::ansi::{remove_ansi_codes, visible_length};
use dirlist::color::{ColorSpec, Hue};
use dirlist::entry::{Category, Entry};
use dirlist::style::{
    apply_style, decorate, paint_name, resolve_paint, style_entry, Attributes, Config, Paint,
    StyleRecord,
};

fn no_attributes() -> Attributes {
    Attributes {
        bold: false,
        underline: false,
        reversed: false,
        italic: false,
        blink: false,
        hidden: false,
        strikethrough: false,
    }
}

fn color(hue: Hue) -> Option<ColorSpec> {
    Some(ColorSpec::Named { hue, bright: false })
}

fn record(hue: Hue) -> StyleRecord {
    StyleRecord { color: color(hue), ..StyleRecord::unstyled() }
}

fn entry(name: &str, is_directory: bool, is_readonly: bool) -> Entry {
    Entry {
        path: format!("./{}", name),
        display_name: name.to_string(),
        is_directory,
        is_readonly,
        is_hidden: false,
    }
}

fn config() -> Config {
    Config {
        dir: StyleRecord {
            attributes: Attributes { bold: true, ..no_attributes() },
            ..record(Hue::Blue)
        },
        file: record(Hue::White),
        readonly: StyleRecord {
            readonly_color: color(Hue::Red),
            readonly_background_color: color(Hue::Yellow),
            ..record(Hue::Green)
        },
    }
}

#[test]
fn unstyled_record_applies_nothing() {
    let plain = StyleRecord::unstyled();
    assert_eq!(plain.color, None);
    assert_eq!(plain.attributes, no_attributes());
    assert_eq!(plain.readonly_color, None);
    assert_eq!(plain.readonly_background_color, None);
    colored::control::set_override(true);
    let item = apply_style(&plain, "name", false, false);
    assert_eq!(item.attributed_text, "name");
    assert_eq!(item.visible_length, 4);
}

#[test]
fn paint_without_readonly_uses_base_colour() {
    let r = StyleRecord {
        readonly_color: color(Hue::Red),
        readonly_background_color: color(Hue::Yellow),
        ..record(Hue::Green)
    };
    assert_eq!(
        resolve_paint(&r, false),
        Paint { foreground: color(Hue::Green), background: None, attributes: no_attributes() }
    );
}

#[test]
fn readonly_paint_uses_the_overrides() {
    let r = StyleRecord {
        readonly_color: color(Hue::Red),
        readonly_background_color: color(Hue::Yellow),
        ..record(Hue::Green)
    };
    assert_eq!(
        resolve_paint(&r, true),
        Paint {
            foreground: color(Hue::Red),
            background: color(Hue::Yellow),
            attributes: no_attributes()
        }
    );
}

#[test]
fn readonly_paint_without_overrides_falls_back() {
    let r = record(Hue::Green);
    assert_eq!(resolve_paint(&r, true), resolve_paint(&r, false));
    assert_eq!(resolve_paint(&r, true).foreground, color(Hue::Green));
    assert_eq!(resolve_paint(&r, true).background, None);
}

#[test]
fn readonly_paint_with_only_a_background() {
    let r = StyleRecord { readonly_background_color: color(Hue::Cyan), ..record(Hue::Green) };
    let paint = resolve_paint(&r, true);
    assert_eq!(paint.foreground, color(Hue::Green));
    assert_eq!(paint.background, color(Hue::Cyan));
}

#[test]
fn colour_is_emitted_when_colours_are_on() {
    colored::control::set_override(true);
    let item = apply_style(&record(Hue::Red), "name", false, false);
    assert_eq!(item.attributed_text, "\x1b[31mname\x1b[0m");
    assert_eq!(item.visible_length, 4);
}

#[test]
fn bright_and_rgb_colours_are_emitted() {
    colored::control::set_override(true);
    let bright = StyleRecord {
        color: Some(ColorSpec::Named { hue: Hue::Cyan, bright: true }),
        ..StyleRecord::unstyled()
    };
    assert_eq!(apply_style(&bright, "n", false, false).attributed_text, "\x1b[96mn\x1b[0m");
    let rgb = StyleRecord {
        color: Some(ColorSpec::Rgb { r: 1, g: 2, b: 3 }),
        ..StyleRecord::unstyled()
    };
    let item = apply_style(&rgb, "n", false, false);
    assert!(item.attributed_text.starts_with("\x1b["));
    assert!(item.attributed_text.ends_with("mn\x1b[0m"));
    assert_eq!(item.visible_length, 1);
}

#[test]
fn attributes_add_up() {
    colored::control::set_override(true);
    let r = StyleRecord {
        attributes: Attributes { bold: true, underline: true, italic: true, ..no_attributes() },
        ..record(Hue::Blue)
    };
    let item = apply_style(&r, "name", false, false);
    assert_eq!(item.attributed_text, "\x1b[1;4;3;34mname\x1b[0m");
    assert_eq!(item.visible_length, 4);
}

#[test]
fn every_attribute_has_its_code() {
    colored::control::set_override(true);
    let all = Attributes {
        bold: true,
        underline: true,
        reversed: true,
        italic: true,
        blink: true,
        hidden: true,
        strikethrough: true,
    };
    let r = StyleRecord { attributes: all, ..StyleRecord::unstyled() };
    assert_eq!(apply_style(&r, "x", false, false).attributed_text, "\x1b[1;4;7;3;5;8;9mx\x1b[0m");
    let only = |attributes: Attributes| {
        apply_style(&StyleRecord { attributes, ..StyleRecord::unstyled() }, "x", false, false)
            .attributed_text
    };
    assert_eq!(only(Attributes { bold: true, ..no_attributes() }), "\x1b[1mx\x1b[0m");
    assert_eq!(only(Attributes { underline: true, ..no_attributes() }), "\x1b[4mx\x1b[0m");
    assert_eq!(only(Attributes { reversed: true, ..no_attributes() }), "\x1b[7mx\x1b[0m");
    assert_eq!(only(Attributes { italic: true, ..no_attributes() }), "\x1b[3mx\x1b[0m");
    assert_eq!(only(Attributes { blink: true, ..no_attributes() }), "\x1b[5mx\x1b[0m");
    assert_eq!(only(Attributes { hidden: true, ..no_attributes() }), "\x1b[8mx\x1b[0m");
    assert_eq!(only(Attributes { strikethrough: true, ..no_attributes() }), "\x1b[9mx\x1b[0m");
}

#[test]
fn readonly_entry_takes_override_colours() {
    colored::control::set_override(true);
    let r = StyleRecord {
        readonly_color: color(Hue::Red),
        readonly_background_color: color(Hue::Yellow),
        ..record(Hue::Green)
    };
    assert_eq!(apply_style(&r, "f", true, false).attributed_text, "\x1b[43;31mf\x1b[0m");
    assert_eq!(apply_style(&r, "f", false, false).attributed_text, "\x1b[32mf\x1b[0m");
}

#[test]
fn readonly_entry_without_override_keeps_base_style() {
    colored::control::set_override(true);
    let r = record(Hue::Green);
    assert_eq!(apply_style(&r, "f", true, false).attributed_text, "\x1b[32mf\x1b[0m");
    assert_eq!(apply_style(&r, "f", true, false), apply_style(&r, "f", false, false));
}

#[test]
fn hidden_entry_is_bracketed_after_styling() {
    colored::control::set_override(true);
    let item = apply_style(&record(Hue::Blue), ".env", false, true);
    assert_eq!(item.attributed_text, "[\x1b[34m.env\x1b[0m]");
    assert_eq!(item.visible_length, 6);
    assert_eq!(remove_ansi_codes(&item.attributed_text), "[.env]");
}

#[test]
fn visible_length_ignores_style_codes() {
    colored::control::set_override(true);
    let r = StyleRecord {
        attributes: Attributes { bold: true, blink: true, ..no_attributes() },
        readonly_color: Some(ColorSpec::Rgb { r: 200, g: 100, b: 50 }),
        readonly_background_color: Some(ColorSpec::Named { hue: Hue::Black, bright: true }),
        ..record(Hue::Green)
    };
    let item = apply_style(&r, "日本語.txt", true, true);
    assert_eq!(item.visible_length, 9);
    assert_eq!(item.visible_length, visible_length(&item.attributed_text));
    assert_eq!(remove_ansi_codes(&item.attributed_text), "[日本語.txt]");
    assert!(item.attributed_text.len() > 20);
}

#[test]
fn styling_the_same_name_twice_gives_the_same_text() {
    colored::control::set_override(true);
    let r = record(Hue::Magenta);
    assert_eq!(apply_style(&r, "twice", true, true), apply_style(&r, "twice", true, true));
}

#[test]
fn records_are_chosen_by_category() {
    let c = config();
    assert_eq!(c.record_for(Category::Directory), c.dir);
    assert_eq!(c.record_for(Category::RegularFile), c.file);
    assert_eq!(c.record_for(Category::ReadOnlyFile), c.readonly);
}

#[test]
fn entries_are_styled_by_their_category() {
    colored::control::set_override(true);
    let c = config();
    assert_eq!(
        style_entry(&entry("dirA", true, false), &c).attributed_text,
        "\x1b[1;34mdirA\x1b[0m"
    );
    assert_eq!(
        style_entry(&entry("file1.txt", false, false), &c).attributed_text,
        "\x1b[37mfile1.txt\x1b[0m"
    );
    assert_eq!(
        style_entry(&entry("locked", false, true), &c).attributed_text,
        "\x1b[43;31mlocked\x1b[0m"
    );
    let hidden = style_entry(&entry(".hidden", false, false), &c);
    assert_eq!(hidden.attributed_text, "[\x1b[37m.hidden\x1b[0m]");
    assert_eq!(hidden.visible_length, 9);
}

#[test]
fn plain_paint_leaves_any_name_alone() {
    colored::control::set_override(true);
    let plain = Paint { foreground: None, background: None, attributes: no_attributes() };
    assert!(plain.plain());
    assert_eq!(paint_name("name", &plain), "name");
    assert_eq!(paint_name("odd\x1b[0mname", &plain), "odd\x1b[0mname");
    assert_eq!(paint_name("", &plain), "");
}

#[test]
fn paint_with_anything_set_is_not_plain() {
    let plain = Paint { foreground: None, background: None, attributes: no_attributes() };
    assert!(!Paint { foreground: color(Hue::Red), ..plain }.plain());
    assert!(!Paint { background: color(Hue::Red), ..plain }.plain());
    assert!(!Paint { attributes: Attributes { blink: true, ..no_attributes() }, ..plain }.plain());
    assert!(!Paint { attributes: Attributes { strikethrough: true, ..no_attributes() }, ..plain }
        .plain());
}

#[test]
fn painted_name_carries_colour_and_background() {
    colored::control::set_override(true);
    let paint = Paint {
        foreground: color(Hue::Black),
        background: Some(ColorSpec::Named { hue: Hue::White, bright: true }),
        attributes: Attributes { reversed: true, ..no_attributes() },
    };
    assert_eq!(paint_name("n", &paint), "\x1b[7;107;30mn\x1b[0m");
}

#[test]
fn decoration_brackets_hidden_names_only() {
    let shown = decorate("abc".to_string(), false);
    assert_eq!(shown.attributed_text, "abc");
    assert_eq!(shown.visible_length, 3);
    let hidden = decorate("\x1b[31m.abc\x1b[0m".to_string(), true);
    assert_eq!(hidden.attributed_text, "[\x1b[31m.abc\x1b[0m]");
    assert_eq!(hidden.visible_length, 6);
    let empty = decorate(String::new(), true);
    assert_eq!(empty.attributed_text, "[]");
    assert_eq!(empty.visible_length, 2);
}

#[test]
fn name_with_escape_sequences_is_measured_by_what_shows() {
    colored::control::set_override(true);
    let item = apply_style(&record(Hue::Red), "a\x1b[0mb", false, false);
    assert_eq!(item.visible_length, 2);
    assert_eq!(remove_ansi_codes(&item.attributed_text), "ab");
}

#[test]
fn each_hue_has_its_code() {
    colored::control::set_override(true);
    let hues = [
        (Hue::Black, 0),
        (Hue::Red, 1),
        (Hue::Green, 2),
        (Hue::Yellow, 3),
        (Hue::Blue, 4),
        (Hue::Magenta, 5),
        (Hue::Cyan, 6),
        (Hue::White, 7),
    ];
    for (hue, offset) in hues {
        let plain = Paint { foreground: None, background: None, attributes: no_attributes() };
        let normal = Some(ColorSpec::Named { hue, bright: false });
        let bright = Some(ColorSpec::Named { hue, bright: true });
        assert_eq!(
            paint_name("n", &Paint { foreground: normal, ..plain }),
            format!("\x1b[{}mn\x1b[0m", 30 + offset)
        );
        assert_eq!(
            paint_name("n", &Paint { foreground: bright, ..plain }),
            format!("\x1b[{}mn\x1b[0m", 90 + offset)
        );
        assert_eq!(
            paint_name("n", &Paint { background: normal, ..plain }),
            format!("\x1b[{}mn\x1b[0m", 40 + offset)
        );
        assert_eq!(
            paint_name("n", &Paint { background: bright, ..plain }),
            format!("\x1b[{}mn\x1b[0m", 100 + offset)
        );
    }
}
