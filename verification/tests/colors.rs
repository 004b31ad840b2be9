//! The names of colors.
use prtop::colors::{parse_color, read_color, Color, ColorScheme};

#[test]
fn named_colors_case_insensitive() {
    assert_eq!(parse_color("red"), Some(Color::Red));
    assert_eq!(parse_color("RED"), Some(Color::Red));
    assert_eq!(parse_color("Cyan"), Some(Color::Cyan));
    assert_eq!(parse_color("white"), Some(Color::White));
    assert_eq!(parse_color("reset"), Some(Color::Reset));
}

#[test]
fn gray_aliases() {
    assert_eq!(parse_color("gray"), Some(Color::Gray));
    assert_eq!(parse_color("grey"), Some(Color::Gray));
    assert_eq!(parse_color("darkgray"), Some(Color::DarkGray));
    assert_eq!(parse_color("dark_gray"), Some(Color::DarkGray));
    assert_eq!(parse_color("darkgrey"), Some(Color::DarkGray));
    assert_eq!(parse_color("dark_grey"), Some(Color::DarkGray));
}

#[test]
fn light_variants() {
    assert_eq!(parse_color("lightred"), Some(Color::LightRed));
    assert_eq!(parse_color("light_red"), Some(Color::LightRed));
    assert_eq!(parse_color("lightgreen"), Some(Color::LightGreen));
    assert_eq!(parse_color("light_cyan"), Some(Color::LightCyan));
}

#[test]
fn hex_rgb() {
    assert_eq!(parse_color("#ff0000"), Some(Color::Rgb(255, 0, 0)));
    assert_eq!(parse_color("#00ff00"), Some(Color::Rgb(0, 255, 0)));
    assert_eq!(parse_color("#0000ff"), Some(Color::Rgb(0, 0, 255)));
    assert_eq!(parse_color("#1a2b3c"), Some(Color::Rgb(0x1a, 0x2b, 0x3c)));
    assert_eq!(parse_color("#000000"), Some(Color::Rgb(0, 0, 0)));
    assert_eq!(parse_color("#ffffff"), Some(Color::Rgb(255, 255, 255)));
}

#[test]
fn invalid_returns_none() {
    assert_eq!(parse_color("notacolor"), None);
    assert_eq!(parse_color(""), None);
    assert_eq!(parse_color("#12345"), None);   // too short
    assert_eq!(parse_color("#1234567"), None); // too long
    assert_eq!(parse_color("#gggggg"), None);  // invalid hex chars
    assert_eq!(parse_color("#"), None);
}
#[test]
fn every_name_has_its_color() {
    assert_eq!(parse_color("black"), Some(Color::Black));
    assert_eq!(parse_color("green"), Some(Color::Green));
    assert_eq!(parse_color("yellow"), Some(Color::Yellow));
    assert_eq!(parse_color("blue"), Some(Color::Blue));
    assert_eq!(parse_color("magenta"), Some(Color::Magenta));
    assert_eq!(parse_color("light_green"), Some(Color::LightGreen));
    assert_eq!(parse_color("lightyellow"), Some(Color::LightYellow));
    assert_eq!(parse_color("light_yellow"), Some(Color::LightYellow));
    assert_eq!(parse_color("lightblue"), Some(Color::LightBlue));
    assert_eq!(parse_color("light_blue"), Some(Color::LightBlue));
    assert_eq!(parse_color("lightmagenta"), Some(Color::LightMagenta));
    assert_eq!(parse_color("light_magenta"), Some(Color::LightMagenta));
    assert_eq!(parse_color("lightcyan"), Some(Color::LightCyan));
}

#[test]
fn case_is_folded_before_the_name_is_read() {
    assert_eq!(read_color("RED"), None);
    assert_eq!(parse_color("RED"), Some(Color::Red));
    // The Kelvin sign is a `k` in lower case.
    assert_eq!(parse_color("blac\u{212a}"), Some(Color::Black));
}

#[test]
fn hex_digits_in_either_case_and_nothing_else() {
    assert_eq!(parse_color("#FFa0Bc"), Some(Color::Rgb(255, 0xa0, 0xbc)));
    assert_eq!(parse_color("#+f0000"), None);
    assert_eq!(parse_color("#+f+f+f"), None);
    assert_eq!(parse_color("#\u{20ac}\u{20ac}"), None);
    assert_eq!(parse_color("#-f0000"), None);
    assert_eq!(parse_color("#++0000"), None);
    assert_eq!(parse_color("#a\u{e9}0000"), None);
}

#[test]
fn default_scheme() {
    let colors = ColorScheme::default();
    assert_eq!(colors.app_title, Color::Cyan);
    assert_eq!(colors.col_header, Color::DarkGray);
    assert_eq!(colors.role, Color::Cyan);
    assert_eq!(colors.number, Color::Yellow);
    assert_eq!(colors.repo, Color::Blue);
    assert_eq!(colors.new_pr, Color::Green);
    assert_eq!(colors.new_comment, Color::LightYellow);
    assert_eq!(colors.draft, Color::DarkGray);
    assert_eq!(colors.footer_count, Color::Green);
}
