//! Colors, their names, and which color the parts of the screen have.
use crate::text::{
    ascii_lowercase, chars_of, is_ascii_text, same_ignoring_case, same_text,
};
use vstd::prelude::*;
use vstd::string::*;

verus! {

/// A color of the terminal.
#[derive(Debug, Clone, Copy, PartialEq, Eq, Structural)]
pub enum Color {
    Reset,
    Black,
    Red,
    Green,
    Yellow,
    Blue,
    Magenta,
    Cyan,
    Gray,
    DarkGray,
    LightRed,
    LightGreen,
    LightYellow,
    LightBlue,
    LightMagenta,
    LightCyan,
    White,
    Rgb(u8, u8, u8),
}

/// Which color the parts of the screen have.
#[derive(Debug, Clone, Copy, PartialEq, Eq, Structural)]
pub struct ColorScheme {
    pub app_title: Color,
    pub col_header: Color,
    pub role: Color,
    pub number: Color,
    pub repo: Color,
    pub new_pr: Color,
    pub new_comment: Color,
    pub draft: Color,
    pub footer_count: Color,
}

/// The colors where nothing else is said.
pub open spec fn default_colors() -> ColorScheme {
    ColorScheme {
        app_title: Color::Cyan,
        col_header: Color::DarkGray,
        role: Color::Cyan,
        number: Color::Yellow,
        repo: Color::Blue,
        new_pr: Color::Green,
        new_comment: Color::LightYellow,
        draft: Color::DarkGray,
        footer_count: Color::Green,
    }
}

impl Default for ColorScheme {
    fn default() -> (r: ColorScheme)
        ensures
            r == default_colors(),
    {
        ColorScheme {
            app_title: Color::Cyan,
            col_header: Color::DarkGray,
            role: Color::Cyan,
            number: Color::Yellow,
            repo: Color::Blue,
            new_pr: Color::Green,
            new_comment: Color::LightYellow,
            draft: Color::DarkGray,
            footer_count: Color::Green,
        }
    }
}

/// The value of a hexadecimal digit.
pub open spec fn hex_value(c: char) -> Option<int> {
    if '0' <= c <= '9' {
        Some(c as int - '0' as int)
    } else if 'a' <= c <= 'f' {
        Some(c as int - 'a' as int + 10)
    } else if 'A' <= c <= 'F' {
        Some(c as int - 'A' as int + 10)
    } else {
        None
    }
}

/// The number that two hexadecimal digits denote.
pub open spec fn hex_pair(a: char, b: char) -> Option<u8> {
    match (hex_value(a), hex_value(b)) {
        (Some(x), Some(y)) => Some((16 * x + y) as u8),
        _ => None,
    }
}

/// The color that `#` and three pairs denote.
pub open spec fn hex_color(text: Seq<char>) -> Option<Color> {
    if text.len() == 7 && text[0] == '#' {
        match (hex_pair(text[1], text[2]), hex_pair(text[3], text[4]), hex_pair(text[5], text[6])) {
            (Some(r), Some(g), Some(b)) => Some(Color::Rgb(r, g, b)),
            _ => None,
        }
    } else {
        None
    }
}

/// The color that a text in lower case names or denotes.
pub open spec fn color_in(text: Seq<char>) -> Option<Color> {
    if text == "black"@ {
        Some(Color::Black)
    } else if text == "red"@ {
        Some(Color::Red)
    } else if text == "green"@ {
        Some(Color::Green)
    } else if text == "yellow"@ {
        Some(Color::Yellow)
    } else if text == "blue"@ {
        Some(Color::Blue)
    } else if text == "magenta"@ {
        Some(Color::Magenta)
    } else if text == "cyan"@ {
        Some(Color::Cyan)
    } else if text == "gray"@ || text == "grey"@ {
        Some(Color::Gray)
    } else if text == "darkgray"@ || text == "dark_gray"@ || text == "darkgrey"@ || text
        == "dark_grey"@ {
        Some(Color::DarkGray)
    } else if text == "lightred"@ || text == "light_red"@ {
        Some(Color::LightRed)
    } else if text == "lightgreen"@ || text == "light_green"@ {
        Some(Color::LightGreen)
    } else if text == "lightyellow"@ || text == "light_yellow"@ {
        Some(Color::LightYellow)
    } else if text == "lightblue"@ || text == "light_blue"@ {
        Some(Color::LightBlue)
    } else if text == "lightmagenta"@ || text == "light_magenta"@ {
        Some(Color::LightMagenta)
    } else if text == "lightcyan"@ || text == "light_cyan"@ {
        Some(Color::LightCyan)
    } else if text == "white"@ {
        Some(Color::White)
    } else if text == "reset"@ {
        Some(Color::Reset)
    } else {
        hex_color(text)
    }
}

/// The lower-case form of a text, as the standard library has it.
pub uninterp spec fn lowercase(text: Seq<char>) -> Seq<char>;

/// Calls `str::to_lowercase`. Its result depends on the text alone; of an ASCII text it is the text
/// with each of the letters `A` to `Z` in lower case.
#[verifier::external_body]
fn to_lowercase(s: &str) -> (r: String)
    ensures
        r@ == lowercase(s@),
        is_ascii_text(s@) ==> r@ == ascii_lowercase(s@),
{
    s.to_lowercase()
}

fn hex_digit(c: char) -> (r: Option<u8>)
    ensures
        r is Some <==> hex_value(c) is Some,
        r matches Some(d) ==> d == hex_value(c)->0 && d < 16,
{
    if c >= '0' && c <= '9' {
        Some((c as u32 - '0' as u32) as u8)
    } else if c >= 'a' && c <= 'f' {
        Some((c as u32 - 'a' as u32) as u8 + 10)
    } else if c >= 'A' && c <= 'F' {
        Some((c as u32 - 'A' as u32) as u8 + 10)
    } else {
        None
    }
}

fn read_hex_pair(a: char, b: char) -> (r: Option<u8>)
    ensures
        r == hex_pair(a, b),
{
    match (hex_digit(a), hex_digit(b)) {
        (Some(x), Some(y)) => Some(16 * x + y),
        _ => None,
    }
}

fn read_hex_color(s: &str) -> (r: Option<Color>)
    ensures
        r == hex_color(s@),
{
    let c = chars_of(s);
    if c.len() != 7 || c[0] != '#' {
        return None;
    }
    match (read_hex_pair(c[1], c[2]), read_hex_pair(c[3], c[4]), read_hex_pair(c[5], c[6])) {
        (Some(r), Some(g), Some(b)) => Some(Color::Rgb(r, g, b)),
        _ => None,
    }
}

/// The color that a text in lower case names, or denotes as `#rrggbb`.
pub fn read_color(s: &str) -> (r: Option<Color>)
    ensures
        r == color_in(s@),
{
    if same_text(s, "black") {
        Some(Color::Black)
    } else if same_text(s, "red") {
        Some(Color::Red)
    } else if same_text(s, "green") {
        Some(Color::Green)
    } else if same_text(s, "yellow") {
        Some(Color::Yellow)
    } else if same_text(s, "blue") {
        Some(Color::Blue)
    } else if same_text(s, "magenta") {
        Some(Color::Magenta)
    } else if same_text(s, "cyan") {
        Some(Color::Cyan)
    } else if same_text(s, "gray") || same_text(s, "grey") {
        Some(Color::Gray)
    } else if same_text(s, "darkgray") || same_text(s, "dark_gray") || same_text(s, "darkgrey")
        || same_text(s, "dark_grey") {
        Some(Color::DarkGray)
    } else if same_text(s, "lightred") || same_text(s, "light_red") {
        Some(Color::LightRed)
    } else if same_text(s, "lightgreen") || same_text(s, "light_green") {
        Some(Color::LightGreen)
    } else if same_text(s, "lightyellow") || same_text(s, "light_yellow") {
        Some(Color::LightYellow)
    } else if same_text(s, "lightblue") || same_text(s, "light_blue") {
        Some(Color::LightBlue)
    } else if same_text(s, "lightmagenta") || same_text(s, "light_magenta") {
        Some(Color::LightMagenta)
    } else if same_text(s, "lightcyan") || same_text(s, "light_cyan") {
        Some(Color::LightCyan)
    } else if same_text(s, "white") {
        Some(Color::White)
    } else if same_text(s, "reset") {
        Some(Color::Reset)
    } else {
        read_hex_color(s)
    }
}

/// The color that a text names, or denotes as `#rrggbb`, in whatever case.
pub fn parse_color(s: &str) -> (r: Option<Color>)
    ensures
        r == color_in(lowercase(s@)),
        is_ascii_text(s@) ==> r == color_in(ascii_lowercase(s@)),
{
    let lowered = to_lowercase(s);
    read_color(lowered.as_str())
}

/// The case of ASCII letters does not matter for a color.
pub proof fn case_does_not_matter(a: Seq<char>, b: Seq<char>)
    requires
        same_ignoring_case(a, b),
    ensures
        color_in(ascii_lowercase(a)) == color_in(ascii_lowercase(b)),
{
    assert(ascii_lowercase(a) =~= ascii_lowercase(b));
}

/// The small hexadecimal digit of a value below sixteen.
pub open spec fn hex_char(value: int) -> char {
    if value < 10 {
        (48 + value) as u8 as char
    } else {
        (87 + value) as u8 as char
    }
}

/// Every color is denoted by a hash and two digits each for its red, its green and its blue.
pub proof fn hex_digits_are_read_back(r: u8, g: u8, b: u8)
    ensures
        color_in(
            seq![
                '#',
                hex_char(r as int / 16),
                hex_char(r as int % 16),
                hex_char(g as int / 16),
                hex_char(g as int % 16),
                hex_char(b as int / 16),
                hex_char(b as int % 16),
            ],
        ) == Some(Color::Rgb(r, g, b)),
{
    let text = seq![
        '#',
        hex_char(r as int / 16),
        hex_char(r as int % 16),
        hex_char(g as int / 16),
        hex_char(g as int % 16),
        hex_char(b as int / 16),
        hex_char(b as int % 16),
    ];
    lemma_hash_is_no_name(text);
    lemma_hex_char(r as int / 16);
    lemma_hex_char(r as int % 16);
    lemma_hex_char(g as int / 16);
    lemma_hex_char(g as int % 16);
    lemma_hex_char(b as int / 16);
    lemma_hex_char(b as int % 16);
}

proof fn lemma_hex_char(value: int)
    requires
        0 <= value < 16,
    ensures
        hex_value(hex_char(value)) == Some(value),
{
}

/// No name of a color starts with a hash.
proof fn lemma_hash_is_no_name(text: Seq<char>)
    requires
        text.len() > 0,
        text[0] == '#',
    ensures
        color_in(text) == hex_color(text),
{
    reveal_strlit("black");
    reveal_strlit("red");
    reveal_strlit("green");
    reveal_strlit("yellow");
    reveal_strlit("blue");
    reveal_strlit("magenta");
    reveal_strlit("cyan");
    reveal_strlit("gray");
    reveal_strlit("grey");
    reveal_strlit("darkgray");
    reveal_strlit("dark_gray");
    reveal_strlit("darkgrey");
    reveal_strlit("dark_grey");
    reveal_strlit("lightred");
    reveal_strlit("light_red");
    reveal_strlit("lightgreen");
    reveal_strlit("light_green");
    reveal_strlit("lightyellow");
    reveal_strlit("light_yellow");
    reveal_strlit("lightblue");
    reveal_strlit("light_blue");
    reveal_strlit("lightmagenta");
    reveal_strlit("light_magenta");
    reveal_strlit("lightcyan");
    reveal_strlit("light_cyan");
    reveal_strlit("white");
    reveal_strlit("reset");
    assert("black"@[0] == 'b' && "red"@[0] == 'r' && "green"@[0] == 'g' && "yellow"@[0] == 'y');
    assert("blue"@[0] == 'b' && "magenta"@[0] == 'm' && "cyan"@[0] == 'c' && "gray"@[0] == 'g');
    assert("grey"@[0] == 'g' && "darkgray"@[0] == 'd' && "dark_gray"@[0] == 'd');
    assert("darkgrey"@[0] == 'd' && "dark_grey"@[0] == 'd' && "lightred"@[0] == 'l');
    assert("light_red"@[0] == 'l' && "lightgreen"@[0] == 'l' && "light_green"@[0] == 'l');
    assert("lightyellow"@[0] == 'l' && "light_yellow"@[0] == 'l' && "lightblue"@[0] == 'l');
    assert("light_blue"@[0] == 'l' && "lightmagenta"@[0] == 'l' && "light_magenta"@[0] == 'l');
    assert("lightcyan"@[0] == 'l' && "light_cyan"@[0] == 'l' && "white"@[0] == 'w');
    assert("reset"@[0] == 'r');
}

/// What starts with a hash is a color only where exactly six hexadecimal digits follow, each of them
/// a digit from 0 to 9 or a letter from A to F, and then it is the color of these digits.
pub proof fn only_six_digits_make_a_color(text: Seq<char>)
    requires
        text.len() > 0,
        text[0] == '#',
    ensures
        color_in(text) is Some <==> text.len() == 7 && forall|i: int|
            1 <= i < 7 ==> 48 <= (#[trigger] text[i]) as int <= 57 || 65 <= text[i] as int <= 70 || 97
                <= text[i] as int <= 102,
        color_in(text) matches Some(color) ==> color is Rgb,
{
    lemma_hash_is_no_name(text);
    if text.len() == 7 {
        assert forall|i: int| 1 <= i < 7 implies (hex_value(#[trigger] text[i]) is Some <==> (48
            <= text[i] as int <= 57 || 65 <= text[i] as int <= 70 || 97 <= text[i] as int
            <= 102)) by {
            lemma_is_hex(text[i]);
        }
        if hex_color(text) is Some {
            assert forall|i: int| 1 <= i < 7 implies hex_value(#[trigger] text[i]) is Some by {
                assert(i == 1 || i == 2 || i == 3 || i == 4 || i == 5 || i == 6);
            }
        }
        if forall|i: int|
            1 <= i < 7 ==> 48 <= (#[trigger] text[i]) as int <= 57 || 65 <= text[i] as int <= 70 || 97
                <= text[i] as int <= 102 {
            assert(hex_value(text[1]) is Some && hex_value(text[2]) is Some);
            assert(hex_value(text[3]) is Some && hex_value(text[4]) is Some);
            assert(hex_value(text[5]) is Some && hex_value(text[6]) is Some);
        }
    }
}

proof fn lemma_is_hex(c: char)
    ensures
        hex_value(c) is Some <==> (48 <= c as int <= 57 || 65 <= c as int <= 70 || 97 <= c as int
            <= 102),
{
}

/// What does not start with a hash is a color only by one of the names; each name is that of one
/// color, and the light and dark ones may be written with an underscore.
pub proof fn colors_have_their_names(text: Seq<char>)
    requires
        text.len() == 0 || text[0] != '#',
    ensures
        color_in(text) == Some(Color::Black) <==> text == "black"@,
        color_in(text) == Some(Color::Red) <==> text == "red"@,
        color_in(text) == Some(Color::Green) <==> text == "green"@,
        color_in(text) == Some(Color::Yellow) <==> text == "yellow"@,
        color_in(text) == Some(Color::Blue) <==> text == "blue"@,
        color_in(text) == Some(Color::Magenta) <==> text == "magenta"@,
        color_in(text) == Some(Color::Cyan) <==> text == "cyan"@,
        color_in(text) == Some(Color::Gray) <==> text == "gray"@ || text == "grey"@,
        color_in(text) == Some(Color::DarkGray) <==> text == "darkgray"@ || text == "dark_gray"@
            || text == "darkgrey"@ || text == "dark_grey"@,
        color_in(text) == Some(Color::LightRed) <==> text == "lightred"@ || text == "light_red"@,
        color_in(text) == Some(Color::LightGreen) <==> text == "lightgreen"@ || text
            == "light_green"@,
        color_in(text) == Some(Color::LightYellow) <==> text == "lightyellow"@ || text
            == "light_yellow"@,
        color_in(text) == Some(Color::LightBlue) <==> text == "lightblue"@ || text == "light_blue"@,
        color_in(text) == Some(Color::LightMagenta) <==> text == "lightmagenta"@ || text
            == "light_magenta"@,
        color_in(text) == Some(Color::LightCyan) <==> text == "lightcyan"@ || text == "light_cyan"@,
        color_in(text) == Some(Color::White) <==> text == "white"@,
        color_in(text) == Some(Color::Reset) <==> text == "reset"@,
        !(color_in(text) matches Some(color) && color is Rgb),
{
    reveal_strlit("black");
    reveal_strlit("red");
    reveal_strlit("green");
    reveal_strlit("yellow");
    reveal_strlit("blue");
    reveal_strlit("magenta");
    reveal_strlit("cyan");
    reveal_strlit("gray");
    reveal_strlit("grey");
    reveal_strlit("darkgray");
    reveal_strlit("dark_gray");
    reveal_strlit("darkgrey");
    reveal_strlit("dark_grey");
    reveal_strlit("lightred");
    reveal_strlit("light_red");
    reveal_strlit("lightgreen");
    reveal_strlit("light_green");
    reveal_strlit("lightyellow");
    reveal_strlit("light_yellow");
    reveal_strlit("lightblue");
    reveal_strlit("light_blue");
    reveal_strlit("lightmagenta");
    reveal_strlit("light_magenta");
    reveal_strlit("lightcyan");
    reveal_strlit("light_cyan");
    reveal_strlit("white");
    reveal_strlit("reset");
    // Names of one length, and where they differ.
    assert("red"@.len() == 3);
    assert("blue"@.len() == 4 && "cyan"@.len() == 4 && "gray"@.len() == 4 && "grey"@.len() == 4);
    assert("blue"@[0] == 'b' && "cyan"@[0] == 'c' && "gray"@[0] == 'g' && "grey"@[0] == 'g');
    assert("black"@.len() == 5 && "green"@.len() == 5 && "white"@.len() == 5);
    assert("reset"@.len() == 5);
    assert("black"@[0] == 'b' && "green"@[0] == 'g' && "white"@[0] == 'w' && "reset"@[0] == 'r');
    assert("yellow"@.len() == 6 && "magenta"@.len() == 7);
    assert("darkgray"@.len() == 8 && "darkgrey"@.len() == 8 && "lightred"@.len() == 8);
    assert("darkgray"@[0] == 'd' && "darkgrey"@[0] == 'd' && "lightred"@[0] == 'l');
    assert("dark_gray"@.len() == 9 && "dark_grey"@.len() == 9 && "light_red"@.len() == 9);
    assert("lightblue"@.len() == 9 && "lightcyan"@.len() == 9);
    assert("dark_gray"@[0] == 'd' && "dark_grey"@[0] == 'd' && "light_red"@[5] == '_');
    assert("lightblue"@[5] == 'b' && "lightcyan"@[5] == 'c' && "lightblue"@[0] == 'l');
    assert("light_red"@[0] == 'l' && "lightcyan"@[0] == 'l');
    assert("lightgreen"@.len() == 10 && "light_blue"@.len() == 10 && "light_cyan"@.len() == 10);
    assert("lightgreen"@[5] == 'g' && "light_blue"@[6] == 'b' && "light_cyan"@[6] == 'c');
    assert("lightgreen"@[6] == 'r');
    assert("light_green"@.len() == 11 && "lightyellow"@.len() == 11);
    assert("light_green"@[5] == '_' && "lightyellow"@[5] == 'y');
    assert("light_yellow"@.len() == 12 && "lightmagenta"@.len() == 12);
    assert("light_yellow"@[5] == '_' && "lightmagenta"@[5] == 'm');
    assert("light_magenta"@.len() == 13);
}

/// The colors of the parts of the screen, where nothing is set.
pub proof fn default_colors_are_these()
    ensures
        default_colors().app_title == Color::Cyan,
        default_colors().col_header == Color::DarkGray,
        default_colors().role == Color::Cyan,
        default_colors().number == Color::Yellow,
        default_colors().repo == Color::Blue,
        default_colors().new_pr == Color::Green,
        default_colors().new_comment == Color::LightYellow,
        default_colors().draft == Color::DarkGray,
        default_colors().footer_count == Color::Green,
{
}

} // verus!
