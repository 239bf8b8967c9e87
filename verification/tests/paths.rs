use saveli::environment::{is_expandable, Environment};
use saveli::errors::ValidationError;
use saveli::game::SavePath;
use saveli::text::{chars_of, contains, is_space, lt, trim};

#[test]
fn new_resolves_the_template() {
    let mut vars = Environment::new();
    vars.set("APPDATA".to_owned(), "/users/me/appdata".to_owned());
    let save = SavePath::new("saveid".to_owned(), "$APPDATA/Game/saves", &vars).unwrap();
    assert_eq!(save.id, "saveid");
    assert_eq!(save.path, "$APPDATA/Game/saves");
    assert_eq!(save.expanded, "/users/me/appdata/Game/saves");
    assert!(save.starts_with_variable());
}

#[test]
fn new_trims_the_template() {
    let save = SavePath::new("s".to_owned(), " \t/plain/path\n", &Environment::new()).unwrap();
    assert_eq!(save.path, "/plain/path");
    assert_eq!(save.expanded, "/plain/path");
    assert!(!save.starts_with_variable());
}

#[test]
fn braces_separate_a_variable_from_what_follows() {
    let mut vars = Environment::new();
    vars.set("ROOT".to_owned(), "/r".to_owned());
    let save = SavePath::new("s".to_owned(), "${ROOT}oot/$ROOT", &vars).unwrap();
    assert_eq!(save.expanded, "/root//r");
}

#[test]
fn unset_variable_leaves_the_rest_of_the_path() {
    let save = SavePath::new("s1".to_owned(), "$TESTVAR/save", &Environment::new()).unwrap();
    assert_eq!(save.expanded, "/save");
}

#[test]
fn relative_expansion_is_refused() {
    match SavePath::new("s".to_owned(), "save/$TESTVAR", &Environment::new()) {
        Err(ValidationError::RelativePath(path)) => assert_eq!(path, "save/"),
        other => panic!("unexpected result: {:?}", other),
    }
    assert!(SavePath::new("s".to_owned(), "", &Environment::new()).is_err());
    assert!(SavePath::new("s".to_owned(), "$TESTVAR", &Environment::new()).is_err());
}

#[test]
fn set_path_keeps_the_new_template_even_when_it_fails() {
    let mut save = SavePath::new("s".to_owned(), "/first", &Environment::new()).unwrap();
    assert!(save.set_path(" second ", &Environment::new()).is_err());
    assert_eq!(save.id, "s");
    assert_eq!(save.path, "second");
    assert_eq!(save.expanded, "second");
    save.set_path("/third", &Environment::new()).unwrap();
    assert_eq!(save.expanded, "/third");
}

#[test]
fn update_path_follows_the_environment() {
    let mut vars = Environment::new();
    vars.set("BASE".to_owned(), "/one".to_owned());
    let mut save = SavePath::new("s".to_owned(), "$BASE/x", &vars).unwrap();
    assert_eq!(save.expanded, "/one/x");
    vars.set("BASE".to_owned(), "/two".to_owned());
    save.update_path(&vars).unwrap();
    assert_eq!(save.path, "$BASE/x");
    assert_eq!(save.expanded, "/two/x");
    vars.set("BASE".to_owned(), "three".to_owned());
    assert!(matches!(save.update_path(&vars), Err(ValidationError::RelativePath(p)) if p == "three/x"));
    assert_eq!(save.expanded, "three/x");
}

#[test]
fn environment_keeps_the_latest_value() {
    let mut vars = Environment::new();
    assert_eq!(vars.get("A"), None);
    assert_eq!(vars.value_or_empty("A"), Some(String::new()));
    vars.set("A".to_owned(), "1".to_owned());
    vars.set("B".to_owned(), "2".to_owned());
    vars.set("A".to_owned(), "3".to_owned());
    assert_eq!(vars.get("A"), Some("3".to_owned()));
    assert_eq!(vars.get("B"), Some("2".to_owned()));
    assert_eq!(vars.value_or_empty("B"), Some("2".to_owned()));
    assert_eq!(vars.get("a"), None);
}

#[test]
fn trim_agrees_with_str_trim() {
    let samples = [
        "",
        " ",
        "a",
        "  a b  ",
        "\t\n x \r\n",
        "\u{a0}x\u{3000}",
        "\u{2003}\u{2028}mid dle\u{85}\u{1680}",
        "\u{200b}zero width is no space\u{200b}",
        "\u{180e}x",
        " é 日 ",
    ];
    for sample in samples {
        assert_eq!(trim(sample), sample.trim(), "{:?}", sample);
    }
}

#[test]
fn is_space_agrees_with_char_is_whitespace() {
    let mut code: u32 = 0;
    while code <= 0x10ffff {
        if let Some(c) = char::from_u32(code) {
            assert_eq!(is_space(c), c.is_whitespace(), "U+{:04X}", code);
        }
        code += 1;
    }
}

#[test]
fn lt_agrees_with_the_order_of_str() {
    let samples = ["", "a", "aa", "ab", "b", "B", "é", "e", "日本", "z", "\u{10000}", "\u{ffff}"];
    for a in samples {
        for b in samples {
            assert_eq!(lt(a, b), a < b, "{:?} < {:?}", a, b);
        }
    }
}

#[test]
fn a_name_without_braces_must_begin_with_an_ascii_character() {
    let mut vars = Environment::new();
    vars.set("HOME".to_owned(), "/home/user".to_owned());
    vars.set("a".to_owned(), "/a".to_owned());
    let refused = [
        "$\u{e9}",
        "/saves/$\u{e9}t\u{e9}",
        " $\u{65e5}\u{672c}/x ",
        "$a/$\u{e9}",
        "${a}$\u{e9}",
        "${$\u{e9}",
        "$$$\u{e9}",
        "/$-$\u{e9}",
    ];
    for template in refused {
        match SavePath::new("s".to_owned(), template, &vars) {
            Err(ValidationError::VariableName(found)) => assert_eq!(found, template.trim()),
            other => panic!("unexpected result for {:?}: {:?}", template, other),
        }
        assert!(!is_expandable(template));
    }
}

#[test]
fn a_dollar_that_begins_no_name_is_left_as_it_stands() {
    let mut vars = Environment::new();
    vars.set("HOME".to_owned(), "/home/user".to_owned());
    let cases = [
        ("$HOME/$\u{20ac}", "/home/user/$\u{20ac}"),
        ("/a/$\u{20ac}", "/a/$\u{20ac}"),
        ("/$$\u{e9}", "/$\u{e9}"),
        ("/p${x$\u{e9}}", "/p"),
        ("/${\u{e9}", "/${\u{e9}"),
        ("/$", "/$"),
        ("/$-", "/$-"),
        ("/$HOME\u{e9}", "/"),
    ];
    for (template, expected) in cases {
        assert!(is_expandable(template), "{:?}", template);
        let save = SavePath::new("s".to_owned(), template, &vars).unwrap();
        assert_eq!(save.expanded, expected, "{:?}", template);
    }
}

#[test]
fn characters_outside_ascii_are_fine_elsewhere() {
    let mut vars = Environment::new();
    vars.set("HOME".to_owned(), "/home/\u{e9}t\u{e9}".to_owned());
    vars.set("N\u{e9}".to_owned(), "/n".to_owned());
    let save = SavePath::new("s".to_owned(), "$HOME/\u{65e5}\u{672c}/${HOME}\u{e9}$", &vars).unwrap();
    assert_eq!(
        save.expanded,
        "/home/\u{e9}t\u{e9}/\u{65e5}\u{672c}//home/\u{e9}t\u{e9}\u{e9}$"
    );
    let save = SavePath::new("s".to_owned(), "${N\u{e9}}/$N\u{e9}", &vars).unwrap();
    assert_eq!(save.expanded, "/n//n");
    for template in ["", "$", "$$", "a$", "\u{e9}$a", "${\u{e9}}"] {
        assert!(is_expandable(template), "{:?}", template);
    }
}

fn templates(alphabet: &[char], length: usize) -> Vec<String> {
    let mut all = vec![String::new()];
    let mut last = vec![String::new()];
    for _ in 0..length {
        let mut next = Vec::new();
        for stem in &last {
            for c in alphabet {
                let mut longer = stem.clone();
                longer.push(*c);
                next.push(longer);
            }
        }
        all.extend(next.iter().cloned());
        last = next;
    }
    all
}

#[test]
fn every_template_is_either_refused_or_expanded() {
    let alphabet = ['$', '{', '}', 'a', '_', '\u{e9}', '\u{20ac}', ':', '-'];
    let mut vars = Environment::new();
    vars.set("a".to_owned(), "A".to_owned());
    let mut refused = 0;
    let mut expanded = 0;
    for template in templates(&alphabet, 5) {
        let rooted = format!("/{}", template);
        match SavePath::new("s".to_owned(), &rooted, &vars) {
            Ok(save) => {
                assert!(is_expandable(&rooted));
                assert!(save.expanded.starts_with('/'));
                expanded += 1;
            }
            Err(ValidationError::VariableName(found)) => {
                assert!(!is_expandable(&rooted));
                assert_eq!(found, rooted);
                assert!(rooted.contains("$\u{e9}"), "{:?}", rooted);
                refused += 1;
            }
            Err(other) => panic!("unexpected error for {:?}: {:?}", rooted, other),
        }
    }
    assert!(refused > 0);
    assert!(expanded > refused);
}

#[test]
fn settle_keeps_what_it_is_given() {
    let mut save = SavePath::new("s".to_owned(), "/first", &Environment::new()).unwrap();
    save.settle("$T/x".to_owned(), "/t/x".to_owned(), false).unwrap();
    assert_eq!((save.id.as_str(), save.path.as_str(), save.expanded.as_str()), ("s", "$T/x", "/t/x"));
    match save.settle("$U/y".to_owned(), "u/y".to_owned(), true) {
        Err(ValidationError::RelativePath(found)) => assert_eq!(found, "u/y"),
        other => panic!("unexpected result: {:?}", other),
    }
    assert_eq!((save.id.as_str(), save.path.as_str(), save.expanded.as_str()), ("s", "$U/y", "u/y"));
}

#[test]
fn a_template_that_cannot_be_expanded_changes_nothing() {
    let mut save = SavePath::new("s".to_owned(), "/first", &Environment::new()).unwrap();
    assert!(matches!(
        save.set_path(" $\u{e9} ", &Environment::new()),
        Err(ValidationError::VariableName(found)) if found == "$\u{e9}"
    ));
    assert_eq!(save.path, "/first");
    assert_eq!(save.expanded, "/first");
    save.path = "$\u{e9}".to_owned();
    assert!(matches!(
        save.update_path(&Environment::new()),
        Err(ValidationError::VariableName(found)) if found == "$\u{e9}"
    ));
    assert_eq!(save.expanded, "/first");
}

#[test]
fn the_fallback_form_gives_the_value_or_nothing() {
    let mut vars = Environment::new();
    vars.set("SET".to_owned(), "/set".to_owned());
    let save = SavePath::new("s".to_owned(), "${SET:-/fallback}/x${UNSET:-/fallback}", &vars).unwrap();
    assert_eq!(save.expanded, "/set/x");
}

#[test]
fn contains_agrees_with_str_contains() {
    let texts = ["", "a", "ab", "aab", "abab", "Alpha Quest", "\u{e9}t\u{e9}", "\u{65e5}\u{672c}\u{8a9e}", "aaa"];
    let words = ["", "a", "b", "ab", "ba", "aa", "aaaa", "Quest", "quest", "\u{e9}", "t\u{e9}", "\u{672c}", "\u{e9}t\u{e9}x"];
    for text in texts {
        for word in words {
            assert_eq!(contains(text, word), text.contains(word), "{:?} in {:?}", word, text);
        }
    }
    assert_eq!(chars_of("a\u{e9}\u{65e5}"), vec!['a', '\u{e9}', '\u{65e5}']);
}
