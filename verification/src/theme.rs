//! Themes: the named colors the renderer paints with, their textual
//! form ("red", an ANSI code, or a "#RRGGBB" triple), and the theme
//! tables read out of a configuration value.
use vstd::prelude::*;

verus! {

use crate::text::str_chars;
use crate::value::Value;
use crate::value::spec_get;

/// A terminal color.
#[derive(Clone, Copy, PartialEq, Eq, Structural, Debug)]
pub enum Color {
    Black,
    Red,
    Green,
    Yellow,
    Blue,
    Magenta,
    Cyan,
    White,
    /// An ANSI palette entry.
    Ansi(u8),
    /// A 24-bit color.
    Rgb(u8, u8, u8),
}

/// Why a color string did not parse; each carries the folded text.
#[derive(Debug)]
pub enum ParseColorError {
    InvalidAnsi(String),
    InvalidRgb(String),
}

/// The case folding of a character sequence.
pub uninterp spec fn lower_of(s: Seq<char>) -> Seq<char>;

/// Relies on str::to_lowercase: the lowercase form of the string, a
/// function of its characters alone.
#[verifier::external_body]
fn lowercase(s: &str) -> (r: String)
    ensures
        r@ == lower_of(s@),
{
    s.to_lowercase()
}

/// The value of a decimal digit.
pub open spec fn digit_val(c: char) -> Option<u8> {
    if 48 <= c as u32 <= 57 {
        Some(((c as u32) - 48) as u8)
    } else {
        None
    }
}

/// The value of a hexadecimal digit, either case.
pub open spec fn hex_val(c: char) -> Option<u8> {
    if 48 <= c as u32 <= 57 {
        Some(((c as u32) - 48) as u8)
    } else if 97 <= c as u32 <= 102 {
        Some(((c as u32) - 87) as u8)
    } else if 65 <= c as u32 <= 70 {
        Some(((c as u32) - 55) as u8)
    } else {
        None
    }
}

/// A two-character hexadecimal byte, a leading `+` standing in for a
/// zero digit, as integer parsing accepts it.
pub open spec fn spec_hex_pair(a: char, b: char) -> Option<u8> {
    if a == '+' {
        hex_val(b)
    } else {
        match (hex_val(a), hex_val(b)) {
            (Some(x), Some(y)) => Some((x * 16 + y) as u8),
            _ => None,
        }
    }
}

/// The decimal digits of `s` from `i` on, accumulated onto `acc`;
/// `None` on a non-digit or once the value leaves a byte's range.
pub open spec fn spec_digits_from(s: Seq<char>, i: int, acc: int) -> Option<u8>
    decreases s.len() - i,
{
    if i < 0 || i >= s.len() {
        Some(acc as u8)
    } else {
        match digit_val(s[i]) {
            Some(d) => if acc * 10 + d > 255 {
                None
            } else {
                spec_digits_from(s, i + 1, acc * 10 + d)
            },
            None => None,
        }
    }
}

/// A byte written in decimal, with an optional leading `+`.
pub open spec fn spec_parse_u8(s: Seq<char>) -> Option<u8> {
    let start: int = if s.len() > 0 && s[0] == '+' {
        1
    } else {
        0
    };
    if s.len() == start {
        None
    } else {
        spec_digits_from(s, start, 0)
    }
}

/// The color named by `s`, among the eight base names.
pub open spec fn spec_named_color(s: Seq<char>) -> Option<Color> {
    if s == "black"@ {
        Some(Color::Black)
    } else if s == "red"@ {
        Some(Color::Red)
    } else if s == "green"@ {
        Some(Color::Green)
    } else if s == "yellow"@ {
        Some(Color::Yellow)
    } else if s == "blue"@ {
        Some(Color::Blue)
    } else if s == "magenta"@ {
        Some(Color::Magenta)
    } else if s == "cyan"@ {
        Some(Color::Cyan)
    } else if s == "white"@ {
        Some(Color::White)
    } else {
        None
    }
}

/// The color a folded string denotes: a base name, a `#RRGGBB` triple of
/// exactly six hexadecimal digits, or a decimal ANSI palette entry.
pub open spec fn spec_parse_color(s: Seq<char>) -> Option<Color> {
    match spec_named_color(s) {
        Some(c) => Some(c),
        None => if s.len() > 0 && s[0] == '#' {
            if s.len() != 7 {
                None
            } else {
                match (spec_hex_pair(s[1], s[2]), spec_hex_pair(s[3], s[4]), spec_hex_pair(
                    s[5],
                    s[6],
                )) {
                    (Some(r), Some(g), Some(b)) => Some(Color::Rgb(r, g, b)),
                    _ => None,
                }
            }
        } else {
            match spec_parse_u8(s) {
                Some(v) => Some(Color::Ansi(v)),
                None => None,
            }
        },
    }
}

/// Whether a failed parse of `s` is blamed on the 24-bit form.
pub open spec fn spec_color_err_rgb(s: Seq<char>) -> bool {
    spec_named_color(s) is None && s.len() > 0 && s[0] == '#'
}

/// Whether two strings hold the same characters.
fn str_eq(a: &str, b: &str) -> (r: bool)
    ensures
        r == (a@ == b@),
{
    a.to_owned().eq(&b.to_owned())
}

/// The value of a hexadecimal digit, either case.
fn hex_digit(c: char) -> (r: Option<u8>)
    ensures
        r == hex_val(c),
{
    let u: u32 = c as u32;
    if 48 <= u && u <= 57 {
        Some((u - 48) as u8)
    } else if 97 <= u && u <= 102 {
        Some((u - 87) as u8)
    } else if 65 <= u && u <= 70 {
        Some((u - 55) as u8)
    } else {
        None
    }
}

/// A two-character hexadecimal byte, as integer parsing reads it.
fn hex_pair(a: char, b: char) -> (r: Option<u8>)
    ensures
        r == spec_hex_pair(a, b),
{
    if a == '+' {
        hex_digit(b)
    } else {
        match (hex_digit(a), hex_digit(b)) {
            (Some(x), Some(y)) => Some(x * 16 + y),
            _ => None,
        }
    }
}

/// A byte written in decimal, with an optional leading `+`.
fn parse_u8_chars(cs: &Vec<char>) -> (r: Option<u8>)
    ensures
        r == spec_parse_u8(cs@),
{
    let n: usize = cs.len();
    let start: usize = if n > 0 && cs[0] == '+' {
        1
    } else {
        0
    };
    if n == start {
        return None;
    }
    let mut acc: u16 = 0;
    let mut i: usize = start;
    while i < n
        invariant
            start <= i <= n == cs@.len(),
            acc <= 255,
            spec_parse_u8(cs@) == spec_digits_from(cs@, i as int, acc as int),
        decreases n - i,
    {
        let u: u32 = cs[i] as u32;
        if u < 48 || u > 57 {
            return None;
        }
        let d: u16 = (u - 48) as u16;
        if acc * 10 + d > 255 {
            return None;
        }
        acc = acc * 10 + d;
        i = i + 1;
    }
    Some(acc as u8)
}

impl Color {
    /// Parses an already case-folded color string exactly: a base name,
    /// `#RRGGBB`, or a decimal palette entry; the error carries the text
    /// and blames the form that was attempted.
    pub fn parse_folded(t: &str) -> (r: Result<Color, ParseColorError>)
        ensures
            match r {
                Ok(c) => spec_parse_color(t@) == Some(c),
                Err(e) => spec_parse_color(t@) is None && (match e {
                    ParseColorError::InvalidRgb(p) => p@ == t@ && spec_color_err_rgb(t@),
                    ParseColorError::InvalidAnsi(p) => p@ == t@ && !spec_color_err_rgb(t@),
                }),
            },
    {
        if str_eq(t, "black") {
            return Ok(Color::Black);
        }
        if str_eq(t, "red") {
            return Ok(Color::Red);
        }
        if str_eq(t, "green") {
            return Ok(Color::Green);
        }
        if str_eq(t, "yellow") {
            return Ok(Color::Yellow);
        }
        if str_eq(t, "blue") {
            return Ok(Color::Blue);
        }
        if str_eq(t, "magenta") {
            return Ok(Color::Magenta);
        }
        if str_eq(t, "cyan") {
            return Ok(Color::Cyan);
        }
        if str_eq(t, "white") {
            return Ok(Color::White);
        }
        let cs: Vec<char> = str_chars(t);
        if cs.len() > 0 && cs[0] == '#' {
            if cs.len() != 7 {
                return Err(ParseColorError::InvalidRgb(t.to_owned()));
            }
            let r1: Option<u8> = hex_pair(cs[1], cs[2]);
            let r2: Option<u8> = hex_pair(cs[3], cs[4]);
            let r3: Option<u8> = hex_pair(cs[5], cs[6]);
            if r1.is_none() || r2.is_none() || r3.is_none() {
                return Err(ParseColorError::InvalidRgb(t.to_owned()));
            }
            Ok(Color::Rgb(r1.unwrap(), r2.unwrap(), r3.unwrap()))
        } else {
            match parse_u8_chars(&cs) {
                Some(v) => Ok(Color::Ansi(v)),
                None => Err(ParseColorError::InvalidAnsi(t.to_owned())),
            }
        }
    }

    /// Parses a color string: the text is case folded first, so the base
    /// names match in any case.
    pub fn parse(s: &str) -> (r: Result<Color, ParseColorError>)
        ensures
            match r {
                Ok(c) => spec_parse_color(lower_of(s@)) == Some(c),
                Err(e) => spec_parse_color(lower_of(s@)) is None && (match e {
                    ParseColorError::InvalidRgb(p) => p@ == lower_of(s@) && spec_color_err_rgb(
                        lower_of(s@),
                    ),
                    ParseColorError::InvalidAnsi(p) => p@ == lower_of(s@) && !spec_color_err_rgb(
                        lower_of(s@),
                    ),
                }),
            },
    {
        let folded: String = lowercase(s);
        Color::parse_folded(folded.as_str())
    }
}

} // verus!

verus! {

/// The colors one session paints with.
#[derive(Clone, Copy, PartialEq, Eq, Structural, Debug)]
pub struct Theme {
    /// The background, painted only when set.
    pub bg: Option<Color>,
    pub correct: Color,
    pub error: Color,
    pub extra: Color,
    pub empty: Color,
}

impl Default for Theme {
    /// Green on black with red mistakes.
    fn default() -> (t: Theme)
        ensures
            t == (Theme {
                bg: Some(Color::Black),
                correct: Color::Green,
                error: Color::Red,
                extra: Color::Red,
                empty: Color::White,
            }),
    {
        Theme {
            bg: Some(Color::Black),
            correct: Color::Green,
            error: Color::Red,
            extra: Color::Red,
            empty: Color::White,
        }
    }
}

/// Why one theme failed to load.
#[derive(Debug)]
pub enum ThemeLoadError {
    /// The named color field is absent.
    Missing(String),
    /// The named color field is not a string.
    NotStr(String),
    /// The color string did not parse.
    ParseColor(ParseColorError),
}

/// The color a theme table gives for `name`, when present, a string and
/// parseable.
pub open spec fn spec_color_field(v: Value, name: Seq<char>) -> Option<Color> {
    match spec_get(v, name) {
        Some(Value::Str(s)) => spec_parse_color(lower_of(s@)),
        _ => None,
    }
}

/// The theme a table describes, when every color field loads; the
/// background alone may be absent.
pub open spec fn spec_theme_of(v: Value) -> Option<Theme> {
    let bg_ok = match spec_get(v, "bg"@) {
        None => true,
        _ => spec_color_field(v, "bg"@) is Some,
    };
    if bg_ok && spec_color_field(v, "correct"@) is Some && spec_color_field(v, "error"@) is Some
        && spec_color_field(v, "extra"@) is Some && spec_color_field(v, "empty"@) is Some {
        Some(
            Theme {
                bg: if spec_get(v, "bg"@) is None {
                    None
                } else {
                    spec_color_field(v, "bg"@)
                },
                correct: spec_color_field(v, "correct"@)->Some_0,
                error: spec_color_field(v, "error"@)->Some_0,
                extra: spec_color_field(v, "extra"@)->Some_0,
                empty: spec_color_field(v, "empty"@)->Some_0,
            },
        )
    } else {
        None
    }
}

/// Loads one color field out of a theme table.
fn load_color(value: &Value, name: &str) -> (r: Result<Color, ThemeLoadError>)
    ensures
        match r {
            Ok(c) => spec_color_field(*value, name@) == Some(c),
            Err(e) => spec_color_field(*value, name@) is None && (match e {
                ThemeLoadError::Missing(n) => n@ == name@ && spec_get(*value, name@) is None,
                ThemeLoadError::NotStr(n) => n@ == name@ && (match spec_get(*value, name@) {
                    Some(x) => !(x matches Value::Str(_)),
                    None => false,
                }),
                ThemeLoadError::ParseColor(_) => match spec_get(*value, name@) {
                    Some(x) => x matches Value::Str(_),
                    None => false,
                },
            }),
        },
{
    match value.get(name) {
        None => Err(ThemeLoadError::Missing(name.to_owned())),
        Some(v) => match v.as_str() {
            Some(s) => match Color::parse(s.as_str()) {
                Ok(c) => Ok(c),
                Err(e) => Err(ThemeLoadError::ParseColor(e)),
            },
            None => Err(ThemeLoadError::NotStr(name.to_owned())),
        },
    }
}

impl Theme {
    /// Reads a theme out of a table: the background is optional, the four
    /// foreground colors are required, and a field that fails stops the
    /// load, in the order background, correct, error, extra, empty.
    pub fn from_value(value: &Value) -> (r: Result<Theme, ThemeLoadError>)
        requires
            value matches Value::Table(_),
        ensures
            match r {
                Ok(t) => spec_theme_of(*value) == Some(t),
                Err(_) => spec_theme_of(*value) is None,
            },
    {
        let bg: Option<Color> = match value.get("bg") {
            None => None,
            Some(_) => match load_color(value, "bg") {
                Ok(c) => Some(c),
                Err(e) => {
                    return Err(e);
                },
            },
        };
        let correct: Color = match load_color(value, "correct") {
            Ok(c) => c,
            Err(e) => {
                return Err(e);
            },
        };
        let error: Color = match load_color(value, "error") {
            Ok(c) => c,
            Err(e) => {
                return Err(e);
            },
        };
        let extra: Color = match load_color(value, "extra") {
            Ok(c) => c,
            Err(e) => {
                return Err(e);
            },
        };
        let empty: Color = match load_color(value, "empty") {
            Ok(c) => c,
            Err(e) => {
                return Err(e);
            },
        };
        Ok(Theme { bg, correct, error, extra, empty })
    }
}

/// Why a theme set failed to load.
#[derive(Debug)]
pub enum ThemeError {
    /// The named theme failed.
    Load(String, ThemeLoadError),
    /// No `themes` table exists.
    MissingThemeTable,
    /// The `themes` entry is not a table.
    InvalidThemeTable,
}

/// The named themes a configuration offers.
#[derive(Debug)]
pub struct Themes {
    themes: Vec<(String, Theme)>,
}

impl View for Themes {
    type V = Seq<(String, Theme)>;

    closed spec fn view(&self) -> Seq<(String, Theme)> {
        self.themes@
    }
}

/// The first theme under `name`.
pub open spec fn spec_theme_lookup(ts: Seq<(String, Theme)>, name: Seq<char>) -> Option<Theme>
    decreases ts.len(),
{
    if ts.len() == 0 {
        None
    } else if ts[0].0@ == name {
        Some(ts[0].1)
    } else {
        spec_theme_lookup(ts.drop_first(), name)
    }
}

impl Themes {
    /// Reads every theme under the `themes` table of a configuration
    /// value. Every entry of that table must itself be a table.
    pub fn from_value(value: &Value) -> (r: Result<Themes, ThemeError>)
        requires
            match spec_get(*value, "themes"@) {
                Some(Value::Table(entries)) => forall|i: int|
                    0 <= i < entries@.len() ==> (#[trigger] entries@[i].1) matches Value::Table(_),
                _ => true,
            },
        ensures
            match r {
                Ok(ts) => match spec_get(*value, "themes"@) {
                    Some(Value::Table(entries)) => ts@.len() == entries@.len() && forall|i: int|
                        0 <= i < entries@.len() ==> (#[trigger] ts@[i]).0 == entries@[i].0
                            && spec_theme_of(entries@[i].1) == Some(ts@[i].1),
                    _ => false,
                },
                Err(ThemeError::MissingThemeTable) => spec_get(*value, "themes"@) is None,
                Err(ThemeError::InvalidThemeTable) => match spec_get(*value, "themes"@) {
                    Some(x) => !(x matches Value::Table(_)),
                    None => false,
                },
                Err(ThemeError::Load(_, _)) => match spec_get(*value, "themes"@) {
                    Some(Value::Table(entries)) => exists|i: int|
                        0 <= i < entries@.len() && spec_theme_of(#[trigger] entries@[i].1)
                            is None,
                    _ => false,
                },
            },
    {
        let table: &Value = match value.get("themes") {
            Some(t) => t,
            None => {
                return Err(ThemeError::MissingThemeTable);
            },
        };
        let entries: &Vec<(String, Value)> = match table.as_table() {
            Some(es) => es,
            None => {
                return Err(ThemeError::InvalidThemeTable);
            },
        };
        let mut themes: Vec<(String, Theme)> = Vec::new();
        let n: usize = entries.len();
        let mut i: usize = 0;
        while i < n
            invariant
                i <= n == entries@.len(),
                spec_get(*value, "themes"@) == Some(Value::Table(*entries)),
                themes@.len() == i,
                forall|j: int|
                    0 <= j < entries@.len() ==> (#[trigger] entries@[j].1) matches Value::Table(
                        _,
                    ),
                forall|j: int|
                    0 <= j < i ==> (#[trigger] themes@[j]).0 == entries@[j].0 && spec_theme_of(
                        entries@[j].1,
                    ) == Some(themes@[j].1),
            decreases n - i,
        {
            let name: String = entries[i].0.clone();
            match Theme::from_value(&entries[i].1) {
                Ok(t) => {
                    themes.push((name, t));
                },
                Err(e) => {
                    proof {
                        assert(spec_theme_of(entries@[i as int].1) is None);
                    }
                    return Err(ThemeError::Load(name, e));
                },
            }
            i = i + 1;
        }
        Ok(Themes { themes })
    }

    /// The theme under `name`, if any.
    pub fn get(&self, name: &str) -> (r: Option<Theme>)
        ensures
            r == spec_theme_lookup(self@, name@),
    {
        let k: String = name.to_owned();
        let n: usize = self.themes.len();
        proof {
            assert(self.themes@.subrange(0, n as int) =~= self.themes@);
        }
        let mut i: usize = 0;
        while i < n
            invariant
                i <= n == self.themes@.len(),
                k@ == name@,
                spec_theme_lookup(self@, name@) == spec_theme_lookup(
                    self.themes@.subrange(i as int, n as int),
                    name@,
                ),
                self@ == self.themes@,
            decreases n - i,
        {
            proof {
                assert(self.themes@.subrange(i as int, n as int).drop_first()
                    =~= self.themes@.subrange(i + 1, n as int));
                assert(self.themes@.subrange(i as int, n as int)[0] == self.themes@[i as int]);
            }
            if self.themes[i].0.eq(&k) {
                return Some(self.themes[i].1);
            }
            i = i + 1;
        }
        None
    }

    /// The names of all themes, in their table order.
    pub fn names(&self) -> (r: Vec<String>)
        ensures
            r@.len() == self@.len(),
            forall|i: int| 0 <= i < self@.len() ==> #[trigger] r@[i] == self@[i].0,
    {
        let mut r: Vec<String> = Vec::new();
        let n: usize = self.themes.len();
        let mut i: usize = 0;
        while i < n
            invariant
                i <= n == self.themes@.len(),
                r@.len() == i,
                self@ == self.themes@,
                forall|j: int| 0 <= j < i ==> #[trigger] r@[j] == self.themes@[j].0,
            decreases n - i,
        {
            r.push(self.themes[i].0.clone());
            i = i + 1;
        }
        r
    }
}

} // verus!
