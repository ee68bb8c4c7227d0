use movie_rename::decisions::{file_outcome, DecisionMap, FileEnd, FileOutcome};
use movie_rename::naming::{
    decide_rename, directory_path, examine_file, extension_after_prompt, extension_with_language, is_parser_safe,
    language_step, pick_candidate, split_file_name, target_for, FileStart, LanguageStep, Pick,
    RenameAction,
};

fn named(stem: &str, name: &str) -> FileOutcome {
    file_outcome(String::from(stem), FileEnd::Named(String::from(name)))
}

#[test]
fn split_keeps_embedded_language() {
    let f = split_file_name("movies/movie.fr.srt");
    assert_eq!(f.parent.as_deref(), Some("movies"));
    assert_eq!(f.leaf, "movie.fr.srt");
    assert_eq!(f.stem, "movie");
    assert_eq!(f.language.as_deref(), Some("fr"));
}

#[test]
fn split_plain_file() {
    let f = split_file_name("movie.srt");
    assert_eq!(f.parent, None);
    assert_eq!(f.stem, "movie");
    assert_eq!(f.language, None);
    let g = split_file_name("a.b/Some.Movie.2010.mkv");
    assert_eq!(g.parent.as_deref(), Some("a.b"));
    assert_eq!(g.stem, "Some.Movie.2010");
    assert_eq!(g.language, None);
    let h = split_file_name("README");
    assert_eq!(h.stem, "README");
}

#[test]
fn subtitle_with_code_keeps_it_without_asking() {
    let f = split_file_name("movie.fr.srt");
    match language_step(&f, "srt", false) {
        LanguageStep::Settled(e) => assert_eq!(e, "fr.srt"),
        LanguageStep::Ask => panic!("asked for a language already in the name"),
    }
}

#[test]
fn subtitle_without_code_asks() {
    let f = split_file_name("movie.srt");
    assert!(matches!(language_step(&f, "srt", false), LanguageStep::Ask));
    match language_step(&f, "srt", true) {
        LanguageStep::Settled(e) => assert_eq!(e, "en.srt"),
        LanguageStep::Ask => panic!("lucky mode asked"),
    }
    let v = split_file_name("movie.mkv");
    match language_step(&v, "mkv", false) {
        LanguageStep::Settled(e) => assert_eq!(e, "mkv"),
        LanguageStep::Ask => panic!("asked for a video"),
    }
}

#[test]
fn picked_language_goes_before_extension() {
    assert_eq!(extension_with_language("de", "srt"), "de.srt");
    assert_eq!(extension_with_language("none", "srt"), "srt");
}

#[test]
fn target_is_in_same_directory() {
    let f = split_file_name("dir/old.name.mkv");
    assert_eq!(target_for(&f, "Inception (2010)", "mkv"), "dir/Inception (2010).mkv");
    let g = split_file_name("old.mkv");
    assert_eq!(target_for(&g, "Inception", "fr.srt"), "Inception.fr.srt");
    assert_eq!(target_for(&g, "Inception", ""), "Inception");
    let h = split_file_name("/old.mkv");
    assert_eq!(target_for(&h, "Inception", "mkv"), "/Inception.mkv");
}

#[test]
fn already_named_file_is_left_alone() {
    let f = split_file_name("dir/Inception (2010).mkv");
    let t = target_for(&f, "Inception (2010)", "mkv");
    assert_eq!(decide_rename(&f.path, &t, true, false), RenameAction::AlreadyNamed);
    assert_eq!(decide_rename(&f.path, &t, false, true), RenameAction::AlreadyNamed);
}

#[test]
fn taken_destination_is_skipped() {
    assert_eq!(decide_rename("a.mkv", "b.mkv", true, false), RenameAction::DestinationTaken);
    assert_eq!(decide_rename("a.mkv", "b.mkv", true, true), RenameAction::DestinationTaken);
}

#[test]
fn dry_run_reports_without_renaming() {
    assert_eq!(decide_rename("a.mkv", "b.mkv", false, false), RenameAction::Rename { apply: true });
    assert_eq!(decide_rename("a.mkv", "b.mkv", false, true), RenameAction::Rename { apply: false });
}

#[test]
fn directory_path_drops_one_slash() {
    assert_eq!(directory_path("Movies/"), "Movies");
    assert_eq!(directory_path("Movies//"), "Movies/");
    assert_eq!(directory_path("Movies"), "Movies");
}

#[test]
fn examine_reads_title_and_year() {
    let f = split_file_name("films/Inception.2010.1080p.mkv");
    match examine_file(&f, &DecisionMap::new()) {
        FileStart::Search { extension, title, year } => {
            assert_eq!(extension, "mkv");
            assert_eq!(title, "Inception");
            assert_eq!(year, Some(2010));
        }
        _ => panic!("expected a search"),
    }
}

#[test]
fn examine_skips_other_extensions() {
    let f = split_file_name("Inception.2010.nfo");
    assert!(matches!(examine_file(&f, &DecisionMap::new()), FileStart::Unsupported));
}

#[test]
fn examine_refuses_long_numbers() {
    assert!(!is_parser_safe("Movie.123456.mkv"));
    assert!(is_parser_safe("Movie.2010.mkv"));
    assert!(!is_parser_safe("Movie.\u{0663}.mkv"));
    let f = split_file_name("Movie.123456.mkv");
    assert!(matches!(examine_file(&f, &DecisionMap::new()), FileStart::Unparseable));
}

#[test]
fn examine_uses_remembered_decisions() {
    let mut map = DecisionMap::new();
    map.remember(named("Inception.2010", "Inception (2010)"));
    map.remember(file_outcome(String::from("Other.2001"), FileEnd::Cancelled));
    let f = split_file_name("Inception.2010.en.srt");
    match examine_file(&f, &map) {
        FileStart::Known { extension, base } => {
            assert_eq!(extension, "srt");
            assert_eq!(base, "Inception (2010)");
        }
        _ => panic!("expected the remembered name"),
    }
    let g = split_file_name("Other.2001.mkv");
    assert!(matches!(examine_file(&g, &map), FileStart::IgnoredBefore));
}

#[test]
fn pick_first_when_lucky_or_alone() {
    assert!(matches!(pick_candidate(0, true), Pick::NoMatch));
    assert!(matches!(pick_candidate(1, false), Pick::Take(0)));
    assert!(matches!(pick_candidate(3, true), Pick::Take(0)));
    assert!(matches!(pick_candidate(3, false), Pick::Ask));
}

#[test]
fn outcomes_remembered_only_when_named_or_cancelled() {
    assert!(named("a", "A").remember);
    let c = file_outcome(String::from("a"), FileEnd::Cancelled);
    assert!(c.remember && c.name.is_none());
    for end in [FileEnd::NoMatch, FileEnd::Unsupported, FileEnd::Unparseable, FileEnd::PromptFailed, FileEnd::IgnoredBefore] {
        let o = file_outcome(String::from("a"), end);
        assert!(!o.remember && o.name.is_none());
    }
}

#[test]
fn directory_with_one_named_file_takes_its_name() {
    let mut map = DecisionMap::new();
    map.remember(file_outcome(String::from("notes"), FileEnd::Unsupported));
    map.remember(named("Inception.2010", "Inception (2010)"));
    map.remember(named("Inception.2010", "Inception (2010)"));
    map.remember(file_outcome(String::from("sample"), FileEnd::NoMatch));
    assert_eq!(map.directory_name().as_deref(), Some("Inception (2010)"));
}

#[test]
fn directory_with_two_named_files_is_left_alone() {
    let mut map = DecisionMap::new();
    map.remember(named("Inception.2010", "Inception (2010)"));
    map.remember(named("Memento.2000", "Memento (2000)"));
    assert_eq!(map.directory_name(), None);
}

#[test]
fn directory_without_named_files_is_left_alone() {
    let mut map = DecisionMap::new();
    assert_eq!(map.directory_name(), None);
    map.remember(file_outcome(String::from("Inception.2010"), FileEnd::Cancelled));
    assert_eq!(map.directory_name(), None);
    assert_eq!(map.lookup("Inception.2010"), Some(None));
    assert_eq!(map.lookup("Memento"), None);
}

#[test]
fn unhandled_extensions_ignored_before_parsing() {
    let f = split_file_name("dir/notes.12345.txt");
    assert!(matches!(examine_file(&f, &DecisionMap::new()), FileStart::Unsupported));
    let g = split_file_name("dir/README");
    assert!(matches!(examine_file(&g, &DecisionMap::new()), FileStart::Unsupported));
    let h = split_file_name("Song\u{b3}.txt");
    assert!(matches!(examine_file(&h, &DecisionMap::new()), FileStart::Unsupported));
}

#[test]
fn cancelled_language_prompt_leaves_file() {
    assert_eq!(extension_after_prompt(None, "srt"), None);
    assert_eq!(extension_after_prompt(Some(String::from("fr")), "srt").as_deref(), Some("fr.srt"));
    assert_eq!(extension_after_prompt(Some(String::from("none")), "srt").as_deref(), Some("srt"));
}

#[test]
fn directory_with_subtitle_and_cancelled_sibling_takes_name() {
    let mut map = DecisionMap::new();
    map.remember(named("Heat.1995", "Heat (1995)"));
    map.remember(named("Heat.1995", "Heat (1995)"));
    map.remember(file_outcome(String::from("Extras"), FileEnd::Cancelled));
    assert_eq!(map.directory_name().as_deref(), Some("Heat (1995)"));
}

#[test]
fn remembered_name_reused_without_parsing() {
    let mut map = DecisionMap::new();
    map.remember(named("M.12345", "B"));
    let f = split_file_name("dir/M.12345.mkv");
    match examine_file(&f, &map) {
        FileStart::Known { extension, base } => {
            assert_eq!(extension, "mkv");
            assert_eq!(base, "B");
        }
        _ => panic!("expected the remembered name"),
    }
    assert_eq!(target_for(&f, "B", "mkv"), "dir/B.mkv");
}

#[test]
fn cancelled_language_keeps_movie_choice() {
    let o = file_outcome(String::from("movie"), FileEnd::LanguageCancelled(String::from("Heat (1995)")));
    assert!(o.remember);
    assert_eq!(o.name.as_deref(), Some("Heat (1995)"));
}
