use typre::config::Config;
use typre::text::{chars_equal, decimal_chars, str_chars, string_from_chars};
use typre::theme::{Color, ParseColorError, Theme, ThemeError, ThemeLoadError, Themes};
use typre::value::Value;
use typre::words::{punctuate, WordSet};
use typre::Rng;

fn theme_table(pairs: &[(&str, &str)]) -> Value {
    Value::Table(
        pairs
            .iter()
            .map(|(k, v)| (k.to_string(), Value::Str(v.to_string())))
            .collect(),
    )
}

fn full_theme() -> Value {
    theme_table(&[
        ("bg", "black"),
        ("correct", "green"),
        ("error", "red"),
        ("extra", "#ff8800"),
        ("empty", "245"),
    ])
}

#[test]
fn named_colors_parse_in_any_case() {
    assert!(matches!(Color::parse("red"), Ok(Color::Red)));
    assert!(matches!(Color::parse("RED"), Ok(Color::Red)));
    assert!(matches!(Color::parse("White"), Ok(Color::White)));
    assert!(matches!(Color::parse("magenta"), Ok(Color::Magenta)));
}

#[test]
fn rgb_colors_parse_exactly() {
    assert!(matches!(Color::parse("#ff0000"), Ok(Color::Rgb(255, 0, 0))));
    assert!(matches!(Color::parse("#00FF7f"), Ok(Color::Rgb(0, 255, 127))));
    assert!(matches!(Color::parse("#123456"), Ok(Color::Rgb(0x12, 0x34, 0x56))));
}

#[test]
fn ansi_colors_parse_as_bytes() {
    assert!(matches!(Color::parse("0"), Ok(Color::Ansi(0))));
    assert!(matches!(Color::parse("255"), Ok(Color::Ansi(255))));
    assert!(matches!(Color::parse("042"), Ok(Color::Ansi(42))));
}

#[test]
fn bad_colors_blame_the_right_form() {
    match Color::parse("#ff00") {
        Err(ParseColorError::InvalidRgb(s)) => assert_eq!(s, "#ff00"),
        other => panic!("expected an rgb error, got {other:?}"),
    }
    match Color::parse("#gg0000") {
        Err(ParseColorError::InvalidRgb(_)) => {}
        other => panic!("expected an rgb error, got {other:?}"),
    }
    match Color::parse("256") {
        Err(ParseColorError::InvalidAnsi(s)) => assert_eq!(s, "256"),
        other => panic!("expected an ansi error, got {other:?}"),
    }
    assert!(matches!(Color::parse(""), Err(ParseColorError::InvalidAnsi(_))));
    assert!(matches!(Color::parse("teal"), Err(ParseColorError::InvalidAnsi(_))));
}

#[test]
fn theme_loads_all_fields() {
    let t = Theme::from_value(&full_theme()).expect("loads");
    assert_eq!(t.bg, Some(Color::Black));
    assert_eq!(t.correct, Color::Green);
    assert_eq!(t.error, Color::Red);
    assert_eq!(t.extra, Color::Rgb(255, 136, 0));
    assert_eq!(t.empty, Color::Ansi(245));
}

#[test]
fn theme_background_is_optional() {
    let t = Theme::from_value(&theme_table(&[
        ("correct", "green"),
        ("error", "red"),
        ("extra", "red"),
        ("empty", "white"),
    ]))
    .expect("loads");
    assert_eq!(t.bg, None);
}

#[test]
fn theme_errors_name_the_field() {
    match Theme::from_value(&theme_table(&[("bg", "black")])) {
        Err(ThemeLoadError::Missing(n)) => assert_eq!(n, "correct"),
        other => panic!("expected a missing field, got {other:?}"),
    }
    let v = Value::Table(vec![
        ("bg".to_string(), Value::Bool(true)),
    ]);
    assert!(matches!(Theme::from_value(&v), Err(ThemeLoadError::NotStr(_))));
    match Theme::from_value(&theme_table(&[
        ("bg", "black"),
        ("correct", "notacolor"),
    ])) {
        Err(ThemeLoadError::ParseColor(_)) => {}
        other => panic!("expected a parse error, got {other:?}"),
    }
}

#[test]
fn themes_load_by_name() {
    let config = Value::Table(vec![(
        "themes".to_string(),
        Value::Table(vec![("mine".to_string(), full_theme())]),
    )]);
    let themes = Themes::from_value(&config).expect("loads");
    assert_eq!(themes.names(), vec!["mine".to_string()]);
    assert!(themes.get("mine").is_some());
    assert!(themes.get("other").is_none());
}

#[test]
fn themes_errors_cover_each_shape() {
    assert!(matches!(
        Themes::from_value(&Value::Table(vec![])),
        Err(ThemeError::MissingThemeTable)
    ));
    let bad = Value::Table(vec![("themes".to_string(), Value::Bool(true))]);
    assert!(matches!(Themes::from_value(&bad), Err(ThemeError::InvalidThemeTable)));
    let failing = Value::Table(vec![(
        "themes".to_string(),
        Value::Table(vec![("broken".to_string(), Value::Table(vec![]))]),
    )]);
    match Themes::from_value(&failing) {
        Err(ThemeError::Load(name, _)) => assert_eq!(name, "broken"),
        other => panic!("expected a load error, got {other:?}"),
    }
}

#[test]
fn config_paths_prefer_explicit_values() {
    let v = Value::Table(vec![
        ("db".to_string(), Value::Str("/tmp/db.sqlite".to_string())),
        ("sets_dir".to_string(), Value::Str("/tmp/sets".to_string())),
    ]);
    let (db, sets) = Config::paths_of(&v, None).expect("resolves");
    assert_eq!(db, "/tmp/db.sqlite");
    assert_eq!(sets, "/tmp/sets");
}

#[test]
fn config_paths_fall_back_to_data_dir() {
    let v = Value::Table(vec![]);
    let (db, sets) = Config::paths_of(&v, Some("/data".to_string())).expect("resolves");
    assert_eq!(db, "/data/typre.db");
    assert_eq!(sets, "/data/sets");
}

#[test]
fn config_without_any_database_fails() {
    let v = Value::Table(vec![]);
    assert!(matches!(
        Config::paths_of(&v, None),
        Err(typre::config::ConfigError::NoDatabase)
    ));
}

#[test]
fn config_without_any_sets_dir_fails() {
    let v = Value::Table(vec![(
        "db".to_string(),
        Value::Str("/tmp/db.sqlite".to_string()),
    )]);
    assert!(matches!(
        Config::paths_of(&v, None),
        Err(typre::config::ConfigError::NoSetsDir)
    ));
}

#[test]
fn picking_nothing_yields_nothing() {
    let set = WordSet::new(vec!["one".to_string()]);
    let mut rng = Rng::with_seed(30);
    assert!(set.pick(&mut rng, 0).is_empty());
    assert!(set.choose_with(&mut rng, 0, true, true).is_empty());
}

#[test]
fn config_selects_theme_and_background() {
    let v = Value::Table(vec![
        (
            "themes".to_string(),
            Value::Table(vec![("mine".to_string(), full_theme())]),
        ),
        ("theme".to_string(), Value::Str("mine".to_string())),
        ("show_bg".to_string(), Value::Bool(false)),
    ]);
    let c = Config::from_parts(&v, "db".to_string(), Vec::new()).expect("assembles");
    assert_eq!(c.theme.correct, Color::Green);
    assert!(!c.show_bg);
    let defaulted = Config::from_parts(&Value::Table(vec![
        ("themes".to_string(), Value::Table(vec![])),
    ]), "db".to_string(), Vec::new())
    .expect("assembles");
    assert!(defaulted.show_bg);
    assert_eq!(defaulted.theme.correct, Color::Green);
    assert_eq!(defaulted.theme.bg, Some(Color::Black));
}

#[test]
fn config_rejects_an_unknown_theme() {
    let v = Value::Table(vec![
        ("themes".to_string(), Value::Table(vec![])),
        ("theme".to_string(), Value::Str("ghost".to_string())),
    ]);
    match Config::from_parts(&v, "db".to_string(), Vec::new()) {
        Err(typre::config::ConfigError::NoTheme(n)) => assert_eq!(n, "ghost"),
        other => panic!("expected a missing theme, got {other:?}"),
    }
}

#[test]
fn decimal_renderings_are_exact() {
    assert_eq!(decimal_chars(0), vec!['0']);
    assert_eq!(decimal_chars(7), vec!['7']);
    assert_eq!(decimal_chars(42), vec!['4', '2']);
    assert_eq!(decimal_chars(100), vec!['1', '0', '0']);
    assert_eq!(decimal_chars(255), vec!['2', '5', '5']);
}

#[test]
fn strings_round_trip_through_chars() {
    let cs = str_chars("héllo");
    assert_eq!(cs, vec!['h', 'é', 'l', 'l', 'o']);
    assert_eq!(string_from_chars(&cs), "héllo");
    assert!(chars_equal(&cs, &str_chars("héllo")));
    assert!(!chars_equal(&cs, &str_chars("hello")));
}

#[test]
fn picks_whole_small_corpora() {
    let set = WordSet::new(vec!["one".to_string(), "two".to_string()]);
    let mut rng = Rng::with_seed(8);
    assert_eq!(set.pick(&mut rng, 10), vec!["one".to_string(), "two".to_string()]);
}

#[test]
fn numbers_replace_some_words_with_decimals() {
    let corpus: Vec<String> = (0..64).map(|i| format!("word{i}")).collect();
    let set = WordSet::new(corpus.clone());
    let mut rng = Rng::with_seed(9);
    let got = set.choose_with(&mut rng, 64, false, true);
    assert_eq!(got.len(), 64);
    let replaced: Vec<&String> = got.iter().filter(|w| !corpus.contains(w)).collect();
    assert_eq!(replaced.len(), 4);
    for w in replaced {
        let v: u32 = w.parse().expect("a decimal replacement");
        assert!(v <= 255);
    }
}

#[test]
fn punctuation_decorates_without_reordering() {
    let words: Vec<String> = (0..200).map(|i| format!("w{i}")).collect();
    let mut subject = words.clone();
    let mut rng = Rng::with_seed(10);
    punctuate(&mut subject, &mut rng);
    assert_eq!(subject.len(), words.len());
    let terminal = ['.', '?', '!'];
    let pause = [',', ';', ':'];
    let separators = ["-", "/", "..."];
    let wraps = [('"', '"'), ('\'', '\''), ('(', ')'), ('[', ']'), ('{', '}'), ('<', '>')];
    let mut decorated = 0;
    for (orig, out) in words.iter().zip(subject.iter()) {
        let base_upper = {
            let mut cs: Vec<char> = orig.chars().collect();
            cs[0] = cs[0].to_ascii_uppercase();
            cs.into_iter().collect::<String>()
        };
        let matches_base = |b: &str, out: &str| {
            out == b
                || (out.len() == b.len() + 1
                    && out.starts_with(b)
                    && (terminal.contains(&out.chars().last().unwrap())
                        || pause.contains(&out.chars().last().unwrap())))
                || wraps.iter().any(|(l, r)| {
                    let mut s = String::new();
                    s.push(*l);
                    s.push_str(b);
                    s.push(*r);
                    s == out
                })
                || separators.contains(&out)
        };
        assert!(
            matches_base(orig, out) || matches_base(&base_upper, out),
            "unexpected decoration of {orig}: {out}"
        );
        if out != orig {
            decorated += 1;
        }
    }
    // Roughly 30% of the words gain punctuation.
    assert!(decorated > 20 && decorated < 120, "decorated {decorated}");
}

#[test]
fn capitalization_follows_a_sentence_end() {
    let terminal = ['.', '?', '!'];
    let separators = ["-", "/", "..."];
    let mut seen = 0;
    for seed in 0..200u64 {
        let mut words = vec!["ab".to_string(), "cd".to_string()];
        let mut rng = Rng::with_seed(seed);
        punctuate(&mut words, &mut rng);
        let first = &words[0];
        if first.len() == 3
            && first.starts_with("ab")
            && terminal.contains(&first.chars().last().unwrap())
        {
            seen += 1;
            // The next word starts uppercase, unless it was replaced by a
            // separator token outright.
            let second = &words[1];
            assert!(
                second.contains('C') || separators.contains(&second.as_str()),
                "expected capitalization after {first}: {second}"
            );
        }
    }
    assert!(seen > 0, "no sentence end drawn over 200 seeds");
}
