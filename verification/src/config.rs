//! The configuration: where the database and the word sets live, which
//! theme paints the session, and whether the background is drawn. The
//! surrounding layer reads and parses the file and walks directories;
//! every choice made from the parsed value is verified here.
use vstd::prelude::*;

verus! {

use crate::text::str_chars;
use crate::text::string_from_chars;
use crate::theme::Theme;
use crate::theme::ThemeError;
use crate::theme::Themes;
use crate::theme::spec_theme_lookup;
use crate::theme::spec_theme_of;
use crate::value::Value;
use crate::value::spec_get;

/// Why the configuration failed to load.
#[derive(Debug)]
pub enum ConfigError {
    /// The file could not be read.
    Read(String),
    /// The file is not valid configuration text.
    Toml(String),
    /// The theme table failed to load.
    Theme(ThemeError),
    /// The selected theme does not exist.
    NoTheme(String),
    /// No database path is given and none can be derived.
    NoDatabase,
    /// No word set directory is given and none can be derived.
    NoSetsDir,
    /// The word set directory does not exist or is not a directory.
    InvalidSetsDir(String),
    /// The word set directory could not be read.
    CollectSets(String),
}

/// A directory joined with one further component.
pub open spec fn spec_join(dir: Seq<char>, name: Seq<char>) -> Seq<char> {
    dir.push('/') + name
}

/// Joins a directory with one further path component.
pub fn path_join(dir: &str, name: &str) -> (r: String)
    ensures
        r@ == spec_join(dir@, name@),
{
    let mut cs: Vec<char> = str_chars(dir);
    cs.push('/');
    let mut rest: Vec<char> = str_chars(name);
    cs.append(&mut rest);
    let r: String = string_from_chars(&cs);
    proof {
        assert(r@ =~= spec_join(dir@, name@));
    }
    r
}

/// The database path: the configured `db` string, else `typre.db` under
/// the data directory.
pub open spec fn spec_db_path(v: Value, data_dir: Option<Seq<char>>) -> Option<Seq<char>> {
    match spec_get(v, "db"@) {
        Some(Value::Str(s)) => Some(s@),
        _ => match data_dir {
            Some(d) => Some(spec_join(d, "typre.db"@)),
            None => None,
        },
    }
}

/// The word set directory: the configured `sets_dir` string, else `sets`
/// under the data directory.
pub open spec fn spec_sets_dir(v: Value, data_dir: Option<Seq<char>>) -> Option<Seq<char>> {
    match spec_get(v, "sets_dir"@) {
        Some(Value::Str(s)) => Some(s@),
        _ => match data_dir {
            Some(d) => Some(spec_join(d, "sets"@)),
            None => None,
        },
    }
}

/// The loaded configuration.
#[derive(Debug)]
pub struct Config {
    /// Where results are stored.
    pub db_path: String,
    /// The word sets found, each name with its path.
    pub sets: Vec<(String, String)>,
    /// The theme the session paints with.
    pub theme: Theme,
    /// Every named theme the configuration offers.
    pub themes: Themes,
    /// Whether the background color is drawn.
    pub show_bg: bool,
}

impl Config {
    /// Resolves the database path and the word set directory out of the
    /// configuration value, falling back to the data directory; the
    /// database is resolved first.
    pub fn paths_of(value: &Value, data_dir: Option<String>) -> (r: Result<
        (String, String),
        ConfigError,
    >)
        ensures
            ({
                let dd = match data_dir {
                    Some(d) => Some(d@),
                    None => None::<Seq<char>>,
                };
                match r {
                    Ok(p) => spec_db_path(*value, dd) == Some(p.0@) && spec_sets_dir(*value, dd)
                        == Some(p.1@),
                    Err(ConfigError::NoDatabase) => spec_db_path(*value, dd) is None,
                    Err(ConfigError::NoSetsDir) => spec_db_path(*value, dd) is Some
                        && spec_sets_dir(*value, dd) is None,
                    Err(_) => false,
                }
            }),
    {
        let db_path: String = match value.get("db") {
            Some(v) => match v.as_str() {
                Some(s) => s.clone(),
                None => match &data_dir {
                    Some(d) => path_join(d.as_str(), "typre.db"),
                    None => {
                        return Err(ConfigError::NoDatabase);
                    },
                },
            },
            None => match &data_dir {
                Some(d) => path_join(d.as_str(), "typre.db"),
                None => {
                    return Err(ConfigError::NoDatabase);
                },
            },
        };
        let sets_dir: String = match value.get("sets_dir") {
            Some(v) => match v.as_str() {
                Some(s) => s.clone(),
                None => match &data_dir {
                    Some(d) => path_join(d.as_str(), "sets"),
                    None => {
                        return Err(ConfigError::NoSetsDir);
                    },
                },
            },
            None => match &data_dir {
                Some(d) => path_join(d.as_str(), "sets"),
                None => {
                    return Err(ConfigError::NoSetsDir);
                },
            },
        };
        Ok((db_path, sets_dir))
    }

    /// Assembles the configuration out of the parsed value, the resolved
    /// database path and the collected word sets: the theme table loads,
    /// the selected theme must exist in it, and the background flag
    /// defaults to on.
    pub fn from_parts(value: &Value, db_path: String, sets: Vec<(String, String)>) -> (r: Result<
        Config,
        ConfigError,
    >)
        requires
            match spec_get(*value, "themes"@) {
                Some(Value::Table(entries)) => forall|i: int|
                    0 <= i < entries@.len() ==> (#[trigger] entries@[i].1) matches Value::Table(_),
                _ => true,
            },
        ensures
            match r {
                Ok(c) => {
                    &&& c.db_path == db_path
                    &&& c.sets == sets
                    &&& (match spec_get(*value, "theme"@) {
                        Some(Value::Str(name)) => spec_theme_lookup(c.themes@, name@) == Some(
                            c.theme,
                        ),
                        _ => c.theme == (Theme {
                            bg: Some(crate::theme::Color::Black),
                            correct: crate::theme::Color::Green,
                            error: crate::theme::Color::Red,
                            extra: crate::theme::Color::Red,
                            empty: crate::theme::Color::White,
                        }),
                    })
                    &&& (match spec_get(*value, "show_bg"@) {
                        Some(Value::Bool(b)) => c.show_bg == b,
                        _ => c.show_bg == true,
                    })
                },
                Err(ConfigError::Theme(te)) => match te {
                    ThemeError::MissingThemeTable => spec_get(*value, "themes"@) is None,
                    ThemeError::InvalidThemeTable => match spec_get(*value, "themes"@) {
                        Some(x) => !(x matches Value::Table(_)),
                        None => false,
                    },
                    ThemeError::Load(_, _) => match spec_get(*value, "themes"@) {
                        Some(Value::Table(entries)) => exists|i: int|
                            0 <= i < entries@.len() && spec_theme_of(
                                #[trigger] entries@[i].1,
                            ) is None,
                        _ => false,
                    },
                },
                Err(ConfigError::NoTheme(name)) => match spec_get(*value, "theme"@) {
                    Some(Value::Str(n)) => n@ == name@,
                    _ => false,
                },
                Err(_) => false,
            },
    {
        let themes: Themes = match Themes::from_value(value) {
            Ok(ts) => ts,
            Err(e) => {
                return Err(ConfigError::Theme(e));
            },
        };
        let theme: Theme = match value.get("theme") {
            Some(v) => match v.as_str() {
                Some(name) => match themes.get(name.as_str()) {
                    Some(t) => t,
                    None => {
                        return Err(ConfigError::NoTheme(name.clone()));
                    },
                },
                None => Theme::default(),
            },
            None => Theme::default(),
        };
        let show_bg: bool = match value.get("show_bg") {
            Some(v) => match v.as_bool() {
                Some(b) => b,
                None => true,
            },
            None => true,
        };
        Ok(Config { db_path, sets, theme, themes, show_bg })
    }
}

} // verus!
