use saveli::database::{CatalogFile, Database, CATALOG_NAME, VERSION};
use saveli::environment::Environment;
use saveli::errors::{InputError, LoadError, ValidationError};
use saveli::game::{Game, SavePath};
use std::cmp::Ordering;

fn stored_save(id: &str, path: &str) -> SavePath {
    SavePath { id: id.to_owned(), path: path.to_owned(), expanded: String::new() }
}

fn stored_game(title: &str, id: &str, custom: bool, saves: Vec<SavePath>) -> Game {
    Game { title: title.to_owned(), id: id.to_owned(), custom, saves }
}

fn home() -> Environment {
    let mut vars = Environment::new();
    vars.set("HOME".to_owned(), "/home/user".to_owned());
    vars
}

#[test]
fn test_load_older_version_succeeds() {
    let file = CatalogFile { version: VERSION - 1, games: vec![] };
    Database::load(file, &Environment::new()).unwrap();
}

#[test]
fn test_load_current_version_succeeds() {
    let file = CatalogFile { version: VERSION, games: vec![] };
    Database::load(file, &Environment::new()).unwrap();
}

#[test]
fn test_load_newer_version_fails() {
    let file = CatalogFile { version: VERSION + 1, games: vec![] };
    Database::load(file, &Environment::new()).unwrap_err();
}

#[test]
fn load_reports_both_versions_of_a_catalog_that_is_too_new() {
    let file = CatalogFile { version: 7, games: vec![] };
    match Database::load(file, &Environment::new()) {
        Err(LoadError::DatabaseTooNew(found, supported)) => {
            assert_eq!(found, 7);
            assert_eq!(supported, 1);
        }
        other => panic!("unexpected result: {:?}", other),
    }
}

#[test]
fn version_is_checked_before_paths_are() {
    let games = vec![stored_game("A", "a", false, vec![stored_save("s", "relative")])];
    let file = CatalogFile { version: VERSION + 1, games };
    assert!(matches!(
        Database::load(file, &Environment::new()),
        Err(LoadError::DatabaseTooNew(2, 1))
    ));
}

#[test]
fn empty_catalog_loads_to_no_entries() {
    let db = Database::load(CatalogFile { version: 1, games: vec![] }, &Environment::new()).unwrap();
    assert!(db.games.is_empty());
    assert_eq!(db.version, 1);
    assert_eq!(db.path, "");
}

#[test]
fn unset_variable_expands_to_nothing() {
    let games = vec![stored_game("G", "g1", false, vec![stored_save("s1", "$TESTVAR/save")])];
    let db = Database::load(CatalogFile { version: 1, games }, &Environment::new()).unwrap();
    assert_eq!(db.games.len(), 1);
    assert_eq!(db.games[0].id, "g1");
    assert_eq!(db.games[0].saves[0].id, "s1");
    assert_eq!(db.games[0].saves[0].path, "$TESTVAR/save");
    assert_eq!(db.games[0].saves[0].expanded, "/save");
}

#[test]
fn relative_expansion_fails_the_whole_load() {
    let games = vec![
        stored_game("A", "a", false, vec![stored_save("s", "$HOME/a")]),
        stored_game("B", "b", false, vec![stored_save("s", "saves/$TESTVAR")]),
    ];
    match Database::load(CatalogFile { version: 1, games }, &home()) {
        Err(LoadError::Validation(ValidationError::RelativePath(path))) => {
            assert_eq!(path, "saves/")
        }
        other => panic!("unexpected result: {:?}", other),
    }
}

#[test]
fn first_relative_path_is_the_one_reported() {
    let games = vec![
        stored_game("B", "b", false, vec![stored_save("s", "second")]),
        stored_game("A", "a", false, vec![stored_save("s", "$HOME/x"), stored_save("t", "first")]),
    ];
    match Database::load(CatalogFile { version: 1, games }, &home()) {
        Err(LoadError::Validation(ValidationError::RelativePath(path))) => {
            assert_eq!(path, "first")
        }
        other => panic!("unexpected result: {:?}", other),
    }
}

#[test]
fn load_sorts_by_id_and_resolves_every_path() {
    let games = vec![
        stored_game("Zed", "zed", false, vec![stored_save("s", "  $HOME/zed ")]),
        stored_game("Abc", "abc", false, vec![stored_save("s", "${HOME}/abc"), stored_save("t", "/t")]),
        stored_game("Mid", "mid", true, vec![]),
    ];
    let db = Database::load(CatalogFile { version: 0, games }, &home()).unwrap();
    let ids: Vec<&str> = db.games.iter().map(|g| g.id.as_str()).collect();
    assert_eq!(ids, vec!["abc", "mid", "zed"]);
    assert_eq!(db.version, 0);
    assert_eq!(db.games[0].saves[0].expanded, "/home/user/abc");
    assert_eq!(db.games[0].saves[1].expanded, "/t");
    assert_eq!(db.games[2].saves[0].path, "$HOME/zed");
    assert_eq!(db.games[2].saves[0].expanded, "/home/user/zed");
}

#[test]
fn custom_entry_wins_over_bundled_entry() {
    let games = vec![
        stored_game("Bundled", "g", false, vec![stored_save("s", "/bundled")]),
        stored_game("Other", "h", false, vec![]),
        stored_game("Custom", "g", true, vec![stored_save("s", "/custom")]),
    ];
    let db = Database::load(CatalogFile { version: 1, games }, &Environment::new()).unwrap();
    let with_id: Vec<&Game> = db.games.iter().filter(|g| g.id == "g").collect();
    assert_eq!(with_id.len(), 1);
    assert!(with_id[0].custom);
    assert_eq!(with_id[0].title, "Custom");
    assert_eq!(with_id[0].saves[0].expanded, "/custom");
    assert_eq!(db.games.len(), 2);
}

#[test]
fn custom_entry_wins_whatever_the_order() {
    let games = vec![
        stored_game("Custom", "g", true, vec![]),
        stored_game("Bundled", "g", false, vec![]),
    ];
    let db = Database::load(CatalogFile { version: 1, games }, &Environment::new()).unwrap();
    assert_eq!(db.games.len(), 1);
    assert_eq!(db.games[0].title, "Custom");
}

#[test]
fn among_equals_the_smaller_title_then_the_first_is_kept() {
    let games = vec![
        stored_game("Beta", "g", false, vec![stored_save("one", "/1")]),
        stored_game("Alpha", "g", false, vec![stored_save("two", "/2")]),
        stored_game("Alpha", "g", false, vec![stored_save("three", "/3")]),
    ];
    let db = Database::load(CatalogFile { version: 1, games }, &Environment::new()).unwrap();
    assert_eq!(db.games.len(), 1);
    assert_eq!(db.games[0].title, "Alpha");
    assert_eq!(db.games[0].saves[0].id, "two");
}

#[test]
fn new_loads_the_catalog_that_was_found() {
    let found = CatalogFile { version: 1, games: vec![stored_game("F", "found", false, vec![])] };
    let bundled = CatalogFile { version: 1, games: vec![stored_game("B", "bundled", false, vec![])] };
    let db = Database::new("/storage", Some(found), bundled, &Environment::new()).unwrap();
    assert_eq!(db.games.len(), 1);
    assert_eq!(db.games[0].id, "found");
    let expected = std::path::Path::new("/storage").join("windows.json");
    assert_eq!(db.path, expected.to_str().unwrap());
    assert_ne!(db.path, "/storage");
    assert_ne!(db.path, "windows.json");
    assert_eq!(CATALOG_NAME, "windows.json");
}

#[test]
fn new_falls_back_to_the_bundled_catalog() {
    let bundled = CatalogFile { version: 1, games: vec![stored_game("B", "bundled", false, vec![])] };
    let db = Database::new("/storage", None, bundled, &Environment::new()).unwrap();
    assert_eq!(db.games[0].id, "bundled");
}

#[test]
fn new_refuses_a_found_catalog_that_is_too_new() {
    let found = CatalogFile { version: 2, games: vec![] };
    let bundled = CatalogFile { version: 1, games: vec![] };
    assert!(matches!(
        Database::new("/storage", Some(found), bundled, &Environment::new()),
        Err(LoadError::DatabaseTooNew(2, 1))
    ));
}

#[test]
fn save_writes_the_current_version() {
    let mut db = Database::load(CatalogFile { version: 0, games: vec![] }, &Environment::new()).unwrap();
    db.save();
    assert_eq!(db.version, VERSION);
}

#[test]
fn add_twice_keeps_one_custom_entry() {
    let mut db = Database::load(CatalogFile { version: 1, games: vec![] }, &Environment::new()).unwrap();
    db.add(stored_game("First", "g", true, vec![])).unwrap();
    db.add(stored_game("Second", "g", true, vec![])).unwrap();
    let custom: Vec<&Game> = db.games.iter().filter(|g| g.id == "g" && g.custom).collect();
    assert_eq!(custom.len(), 1);
    assert_eq!(custom[0].title, "Second");
    assert_eq!(db.games.len(), 1);
}

#[test]
fn add_leaves_bundled_entries_of_the_same_id() {
    let games = vec![
        stored_game("Bundled", "g", false, vec![]),
        stored_game("Other", "h", true, vec![]),
    ];
    let mut db = Database::load(CatalogFile { version: 1, games }, &Environment::new()).unwrap();
    db.add(stored_game("Mine", "g", true, vec![])).unwrap();
    db.add(stored_game("Mine again", "g", true, vec![])).unwrap();
    let titles: Vec<&str> = db.games.iter().map(|g| g.title.as_str()).collect();
    assert_eq!(titles, vec!["Bundled", "Other", "Mine again"]);
}

#[test]
fn search_matches_id_or_title() {
    let games = vec![
        stored_game("Alpha Quest", "aq", false, vec![]),
        stored_game("Beta", "quest2", false, vec![]),
        stored_game("Gamma", "g", false, vec![]),
    ];
    let db = Database::load(CatalogFile { version: 1, games }, &Environment::new()).unwrap();
    let ids: Vec<&str> = db.games.iter().map(|g| g.id.as_str()).collect();
    assert_eq!(ids, vec!["aq", "g", "quest2"]);
    assert_eq!(db.search("uest").unwrap(), vec![0, 2]);
    assert_eq!(db.search("Gamma").unwrap(), vec![1]);
    assert_eq!(db.search("g").unwrap(), vec![1]);
    assert_eq!(db.search("a").unwrap(), vec![0, 1, 2]);
}

#[test]
fn search_is_case_sensitive_and_may_find_nothing() {
    let games = vec![stored_game("Alpha", "a", false, vec![])];
    let db = Database::load(CatalogFile { version: 1, games }, &Environment::new()).unwrap();
    assert_eq!(db.search("alpha").unwrap(), Vec::<usize>::new());
    assert_eq!(db.search("Alphabet").unwrap(), Vec::<usize>::new());
}

#[test]
fn search_refuses_an_empty_keyword() {
    let db = Database::load(CatalogFile { version: 1, games: vec![] }, &Environment::new()).unwrap();
    assert_eq!(db.search(""), Err(InputError::EmptyKeyword));
}

#[test]
fn find_by_id_gives_the_entry_or_nothing() {
    let games = vec![stored_game("A", "a", false, vec![]), stored_game("B", "b", false, vec![])];
    let db = Database::load(CatalogFile { version: 1, games }, &Environment::new()).unwrap();
    assert_eq!(db.find_by_id("b").unwrap().title, "B");
    assert!(db.find_by_id("c").is_none());
    assert!(db.find_by_id("").is_none());
}

#[test]
fn entries_are_equal_by_id_alone() {
    let a = stored_game("One", "g", true, vec![]);
    let b = stored_game("Two", "g", false, vec![stored_save("s", "/s")]);
    let c = stored_game("One", "h", true, vec![]);
    assert!(a == b);
    assert!(a != c);
}

#[test]
fn entries_are_ordered_by_id_then_custom_then_title() {
    let a = stored_game("Zed", "a", false, vec![]);
    let b = stored_game("Abc", "b", true, vec![]);
    assert_eq!(a.cmp(&b), Ordering::Less);
    assert_eq!(b.cmp(&a), Ordering::Greater);
    assert!(a < b);
    let custom = stored_game("Zed", "g", true, vec![]);
    let bundled = stored_game("Abc", "g", false, vec![]);
    assert_eq!(custom.cmp(&bundled), Ordering::Less);
    assert_eq!(bundled.cmp(&custom), Ordering::Greater);
    assert!(custom.precedes(&bundled));
    let first = stored_game("Abc", "g", true, vec![]);
    assert_eq!(first.cmp(&custom), Ordering::Less);
    assert_eq!(custom.partial_cmp(&first), Some(Ordering::Greater));
    let same = stored_game("Abc", "g", true, vec![stored_save("s", "/s")]);
    assert_eq!(first.cmp(&same), Ordering::Equal);
    assert!(!first.precedes(&same));
}

#[test]
fn ids_are_ordered_as_strings_are() {
    let pairs = [("a", "b"), ("", "a"), ("a", "aa"), ("B", "a"), ("a", "é"), ("é", "日"), ("z", "é")];
    for (small, large) in pairs {
        let a = stored_game("", small, false, vec![]);
        let b = stored_game("", large, false, vec![]);
        assert!(small < large);
        assert!(a.precedes(&b), "{:?} before {:?}", small, large);
        assert!(!b.precedes(&a));
    }
}

#[test]
fn add_refuses_an_entry_without_an_id() {
    let games = vec![stored_game("Nameless", "", true, vec![])];
    let mut db = Database::load(CatalogFile { version: 1, games }, &Environment::new()).unwrap();
    assert_eq!(db.add(stored_game("Another", "", true, vec![])), Err(InputError::EmptyId));
    assert_eq!(db.games.len(), 1);
    assert_eq!(db.games[0].title, "Nameless");
}

#[test]
fn a_template_that_cannot_be_expanded_fails_the_whole_load() {
    let games = vec![
        stored_game("A", "a", false, vec![stored_save("s", "$HOME/a"), stored_save("t", " $\u{e9}/a")]),
        stored_game("B", "b", false, vec![stored_save("s", "relative")]),
    ];
    match Database::load(CatalogFile { version: 1, games }, &home()) {
        Err(LoadError::Validation(ValidationError::VariableName(template))) => {
            assert_eq!(template, "$\u{e9}/a")
        }
        other => panic!("unexpected result: {:?}", other),
    }
}

#[test]
fn a_dollar_before_a_sign_does_not_fail_the_load() {
    let games = vec![
        stored_game("Bundled", "g", false, vec![stored_save("s", "/a")]),
        stored_game("Custom", "g", true, vec![stored_save("s", "$HOME/$\u{20ac}"), stored_save("t", "/$$\u{e9}")]),
    ];
    let db = Database::load(CatalogFile { version: 1, games }, &home()).unwrap();
    assert_eq!(db.games.len(), 1);
    assert!(db.games[0].custom);
    assert_eq!(db.games[0].saves[0].expanded, "/home/user/$\u{20ac}");
    assert_eq!(db.games[0].saves[1].expanded, "/$\u{e9}");
}

#[test]
fn a_loaded_catalog_loads_again_to_itself() {
    let games = vec![
        stored_game("Zed", "zed", false, vec![stored_save("s", "  $HOME/zed ")]),
        stored_game("Bundled", "abc", false, vec![stored_save("s", "/bundled")]),
        stored_game("Custom", "abc", true, vec![stored_save("s", " ${HOME}/abc\n"), stored_save("t", "/t")]),
    ];
    let first = Database::load(CatalogFile { version: 0, games }, &home()).unwrap();
    let shown = format!("{:?}", first.games);
    let again = CatalogFile { version: first.version, games: first.games.clone() };
    let second = Database::load(again, &home()).unwrap();
    assert_eq!(format!("{:?}", second.games), shown);
    assert_eq!(second.version, first.version);
}
