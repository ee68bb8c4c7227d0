use movie_rename::args::{default_pattern, parse_config, process_args, ArgsError, ConfigError, Settings};
use movie_rename::language::{get_long_lang, Language};
use movie_rename::movie::{director_credit, needs_director, sanitize, year_string, CrewMember, MovieEntry, MovieSummary};

fn entry(title: &str, year: Option<&str>, director: Option<&str>) -> MovieEntry {
    MovieEntry {
        title: String::from(title),
        id: 27205,
        director: director.map(String::from),
        year: year.map(String::from),
        language: String::from("en"),
    }
}

fn crew(job: &str, name: &str) -> CrewMember {
    CrewMember { job: String::from(job), name: String::from(name) }
}

#[test]
fn absent_year_and_director_give_bare_title() {
    let e = entry("Inception", None, None);
    assert_eq!(e.rename_format(String::from("{title} ({year}) - {director}")), "Inception");
    assert_eq!(e.rename_format(String::from("{year} - {title} - {director}")), "Inception");
    assert_eq!(e.rename_format(String::from("{title} - {year} - {director}")), "Inception");
}

#[test]
fn full_entry_fills_pattern() {
    let e = entry("Inception", Some("2010"), Some("Christopher Nolan"));
    assert_eq!(
        e.rename_format(default_pattern()),
        "Inception (2010) - Christopher Nolan"
    );
    assert_eq!(e.rename_format(String::from("{year}.{title}")), "2010.Inception");
}

#[test]
fn title_is_sanitized_and_truncated() {
    let e = entry("Mission: Impossible?", None, None);
    assert_eq!(e.rename_format(String::from("{title}")), "Mission\u{2236} Impossible\u{fe56}");
    let long = "a".repeat(200);
    let e = entry(&long, None, None);
    assert_eq!(e.rename_format(String::from("{title}")).len(), 159);
    let wide = "\u{e9}".repeat(100);
    let e = entry(&wide, None, None);
    assert_eq!(e.rename_format(String::from("{title}")), "\u{e9}".repeat(79));
}

#[test]
fn sanitize_drops_and_replaces() {
    assert_eq!(sanitize(String::from("a:b?c/d*e<f>g|h\"i\\j^k~l+m=n`o")), "a\u{2236}b\u{fe56}cdefghijklmno");
}

#[test]
fn long_language_names() {
    assert_eq!(get_long_lang("fr"), "French");
    assert_eq!(get_long_lang("none"), "None");
    assert_eq!(get_long_lang("zu"), "Zulu");
    assert_eq!(get_long_lang("xx"), "xx");
    assert_eq!(get_long_lang("French"), "French");
}

#[test]
fn offered_languages() {
    let list = Language::generate_list();
    let shorts: Vec<&str> = list.iter().map(|l| l.short.as_str()).collect();
    assert_eq!(shorts, vec!["en", "hi", "bn", "fr", "ja", "de", "sp", "none"]);
    assert_eq!(list[0].long, "English");
    assert_eq!(list[6].long, "sp");
    assert_eq!(list[7].label(), "None");
}

#[test]
fn directors_joined_with_and() {
    assert_eq!(director_credit(&vec![crew("Writer", "A")]), None);
    assert_eq!(
        director_credit(&vec![crew("Director", "A"), crew("Writer", "B"), crew("Director", "C")]).as_deref(),
        Some("A and C")
    );
    assert_eq!(
        director_credit(&vec![crew("Director", "A"), crew("Director", "B"), crew("Director", "C")]).as_deref(),
        Some("A, B and C")
    );
    assert_eq!(director_credit(&vec![crew("Director", "Nolan")]).as_deref(), Some("Nolan"));
}

#[test]
fn years_as_calendars_write_them() {
    assert_eq!(year_string(2010), "2010");
    assert_eq!(year_string(999), "0999");
    assert_eq!(year_string(0), "0000");
    assert_eq!(year_string(10000), "+10000");
    assert_eq!(year_string(-5), "-0005");
}

#[test]
fn entry_from_summary() {
    let e = MovieEntry::from(MovieSummary {
        title: String::from("Inception"),
        id: 27205,
        release_year: Some(2010),
        original_language: String::from("en"),
    });
    assert_eq!(e.title, "Inception");
    assert_eq!(e.id, 27205);
    assert_eq!(e.year.as_deref(), Some("2010"));
    assert_eq!(e.language, "English");
    assert!(e.director.is_none());
}

#[test]
fn entry_description() {
    let e = entry("Inception", Some("2010"), Some("Christopher Nolan"));
    assert_eq!(
        e.describe(),
        "Inception (2010), Language: English, Directed by: Christopher Nolan, TMDB ID: 27205"
    );
    let bare = entry("Inception", None, None);
    assert_eq!(bare.describe(), "Inception Language: English, TMDB ID: 27205");
}

#[test]
fn arguments_give_settings() {
    let flags = vec![
        (String::from("directory"), true),
        (String::from("dry-run"), false),
        (String::from("i-feel-lucky"), true),
        (String::from("version"), false),
    ];
    let (entries, settings) = process_args(flags, Some(vec![String::from("a.mkv")])).unwrap();
    assert_eq!(entries, vec![String::from("a.mkv")]);
    assert_eq!(settings, Settings { directory: true, dry_run: false, lucky: true });
}

#[test]
fn arguments_without_entries_refused() {
    assert_eq!(process_args(Vec::new(), None).err(), Some(ArgsError::NoEntries));
    assert_eq!(process_args(Vec::new(), Some(Vec::new())).err(), Some(ArgsError::NoEntries));
}

#[test]
fn config_key_and_pattern() {
    let c = parse_config("SECRET-REDACTED\n{title} [{year}]\n").unwrap();
    assert_eq!(c.api_key, "SECRET-REDACTED");
    assert_eq!(c.pattern, "{title} [{year}]");
    let d = parse_config("key\r\npattern\r\n").unwrap();
    assert_eq!(d.api_key, "key");
    assert_eq!(d.pattern, "pattern");
}

#[test]
fn config_default_pattern() {
    let c = parse_config("key").unwrap();
    assert_eq!(c.pattern, "{title} ({year}) - {director}");
    let d = parse_config("key\n").unwrap();
    assert_eq!(d.pattern, "{title} ({year}) - {director}");
}

#[test]
fn config_without_key_refused() {
    assert!(matches!(parse_config(""), Err(ConfigError::MissingApiKey)));
    assert!(matches!(parse_config("\npattern"), Err(ConfigError::MissingApiKey)));
}

#[test]
fn director_needed_only_when_named() {
    assert!(needs_director("{title} ({year}) - {director}"));
    assert!(!needs_director("{title} ({year})"));
    assert!(!needs_director("{director"));
}

#[test]
fn dash_gaps_of_any_width_collapse() {
    let e = MovieEntry {
        title: String::from("Heat"),
        id: 949,
        director: Some(String::from("Michael Mann")),
        year: None,
        language: String::from("en"),
    };
    assert_eq!(e.rename_format(String::from("{title} - {year} - {director}")), "Heat - Michael Mann");
}

#[test]
fn title_parentheses_are_kept() {
    let e = entry("()", None, None);
    assert_eq!(e.rename_format(String::from("{title}")), "()");
    let f = entry("Up (Pixar)", Some("2009"), None);
    assert_eq!(f.rename_format(String::from("{title} ({year}) ({director})")), "Up (Pixar) (2009)");
}

#[test]
fn leftover_placeholders_are_removed() {
    let e = entry("{year}", None, None);
    assert_eq!(e.rename_format(String::from("{title}{year}{director}")), "");
    let f = entry("Heat", None, None);
    assert_eq!(f.rename_format(String::from("{title} {{year}year}")), "Heat");
}

#[test]
fn credit_line_keeps_commas_in_names() {
    assert_eq!(director_credit(&vec![crew("Director", "A,B")]).as_deref(), Some("A,B"));
    assert_eq!(
        director_credit(&vec![crew("Director", "X, Jr."), crew("Director", "Y")]).as_deref(),
        Some("X, Jr. and Y")
    );
}

#[test]
fn title_text_comes_through_unchanged() {
    let e = entry("{title}", None, None);
    assert_eq!(e.rename_format(String::from("{title}")), "{title}");
    let f = entry("A -  B", None, None);
    assert_eq!(f.rename_format(String::from("{title}")), "A -  B");
    let g = entry("Heat", None, Some("Michael Mann"));
    assert_eq!(g.rename_format(String::from("{title} -   - {year} - {director}")), "Heat - Michael Mann");
}
