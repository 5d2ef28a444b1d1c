use dirlist::color::{conv_color, is_valid_color, ColorSpec, Hue};

fn named(hue: Hue, bright: bool) -> ColorSpec {
    ColorSpec::Named { hue, bright }
}

#[test]
fn basic_names_give_basic_colours() {
    assert_eq!(conv_color("red"), named(Hue::Red, false));
    assert_eq!(conv_color("blue"), named(Hue::Blue, false));
    assert_eq!(conv_color("green"), named(Hue::Green, false));
    assert_eq!(conv_color("yellow"), named(Hue::Yellow, false));
    assert_eq!(conv_color("cyan"), named(Hue::Cyan, false));
    assert_eq!(conv_color("magenta"), named(Hue::Magenta, false));
    assert_eq!(conv_color("white"), named(Hue::White, false));
    assert_eq!(conv_color("black"), named(Hue::Black, false));
}

#[test]
fn bright_names_give_bright_colours() {
    assert_eq!(conv_color("bright_red"), named(Hue::Red, true));
    assert_eq!(conv_color("bright_blue"), named(Hue::Blue, true));
    assert_eq!(conv_color("bright_green"), named(Hue::Green, true));
    assert_eq!(conv_color("bright_yellow"), named(Hue::Yellow, true));
    assert_eq!(conv_color("bright_cyan"), named(Hue::Cyan, true));
    assert_eq!(conv_color("bright_magenta"), named(Hue::Magenta, true));
    assert_eq!(conv_color("bright_white"), named(Hue::White, true));
    assert_eq!(conv_color("bright_black"), named(Hue::Black, true));
}

#[test]
fn three_channels_give_rgb() {
    assert_eq!(conv_color("10,20,30"), ColorSpec::Rgb { r: 10, g: 20, b: 30 });
    assert_eq!(conv_color("0,0,0"), ColorSpec::Rgb { r: 0, g: 0, b: 0 });
    assert_eq!(conv_color("255,255,255"), ColorSpec::Rgb { r: 255, g: 255, b: 255 });
    assert_eq!(conv_color("+7,007,000255"), ColorSpec::Rgb { r: 7, g: 7, b: 255 });
}

#[test]
fn malformed_channels_degrade_to_zero() {
    assert_eq!(conv_color("12,abc,300"), ColorSpec::Rgb { r: 12, g: 0, b: 0 });
    assert_eq!(conv_color("1, 2,3"), ColorSpec::Rgb { r: 1, g: 0, b: 3 });
    assert_eq!(conv_color("256,-1,+"), ColorSpec::Rgb { r: 0, g: 0, b: 0 });
    assert_eq!(conv_color("1,,3"), ColorSpec::Rgb { r: 1, g: 0, b: 3 });
}

#[test]
fn missing_channels_degrade_to_zero() {
    assert_eq!(conv_color(""), ColorSpec::Rgb { r: 0, g: 0, b: 0 });
    assert_eq!(conv_color("9"), ColorSpec::Rgb { r: 9, g: 0, b: 0 });
    assert_eq!(conv_color("9,8"), ColorSpec::Rgb { r: 9, g: 8, b: 0 });
}

#[test]
fn extra_channels_are_ignored() {
    assert_eq!(conv_color("1,2,3,4"), ColorSpec::Rgb { r: 1, g: 2, b: 3 });
}

#[test]
fn unknown_names_degrade_to_black() {
    assert_eq!(conv_color("purple"), ColorSpec::Rgb { r: 0, g: 0, b: 0 });
    assert_eq!(conv_color("Red"), ColorSpec::Rgb { r: 0, g: 0, b: 0 });
    assert_eq!(conv_color("bright_"), ColorSpec::Rgb { r: 0, g: 0, b: 0 });
    assert_eq!(conv_color("bright red"), ColorSpec::Rgb { r: 0, g: 0, b: 0 });
}

#[test]
fn large_numbers_do_not_wrap() {
    assert_eq!(conv_color("4294967296,99999999999999999999999,1"), ColorSpec::Rgb {
        r: 0,
        g: 0,
        b: 1
    });
}

#[test]
fn validity_of_colour_texts() {
    assert!(is_valid_color("red"));
    assert!(is_valid_color("bright_black"));
    assert!(is_valid_color("1,2,3"));
    assert!(is_valid_color("+1,002,255"));
    assert!(!is_valid_color(""));
    assert!(!is_valid_color("1,2"));
    assert!(!is_valid_color("1,2,3,4"));
    assert!(!is_valid_color("1,2,256"));
    assert!(!is_valid_color("1,2,x"));
    assert!(!is_valid_color("purple"));
}
