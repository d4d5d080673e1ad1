use repler::{repler_replace, replace_str, Config, Item};

fn rule(from: &str, to: &str, times: Option<usize>) -> Item {
    Item {
        name: None,
        from: from.to_string(),
        to: to.to_string(),
        times,
    }
}

fn apply(text: &str, patterns: &Vec<Item>) -> String {
    let mut contents = text.to_string();
    repler_replace(&mut contents, patterns);
    contents
}

#[test]
fn replacing_in_sample_text() {
    let patterns = vec![
        Item {
            name: Some(String::from("Duct repl")),
            from: String::from("Duct t"),
            to: String::from("gr"),
            times: None,
        },
        Item {
            name: Some(String::from("make better")),
            from: String::from("e"),
            to: String::from("er"),
            times: Some(2),
        },
    ];
    let mut contents = "Rust:\nsafe, fast, productive.\nPick three.\nDuct tape.".to_string();

    repler_replace(&mut contents, &patterns);

    assert_eq!(
        "Rust:\nsafer, fast, productiver.\nPick three.\ngrape.",
        &contents
    );
}

#[test]
fn order_of_rules_matters() {
    let forward = vec![rule("e", "x", None), rule("x", "y", None)];
    let backward = vec![rule("x", "y", None), rule("e", "x", None)];
    assert_eq!(apply("elephant", &forward), "ylyphant");
    assert_eq!(apply("elephant", &backward), "xlxphant");
    assert_ne!(apply("elephant", &forward), apply("elephant", &backward));
}

#[test]
fn bounded_count_replaces_first_ones() {
    assert_eq!(apply("aaaa", &vec![rule("a", "b", Some(2))]), "bbaa");
    assert_eq!(replace_str("aaaa", "a", "b", Some(2)), "bbaa");
}

#[test]
fn count_exceeding_occurrences() {
    assert_eq!(apply("aa", &vec![rule("a", "b", Some(5))]), "bb");
}

#[test]
fn unbounded_replace() {
    assert_eq!(apply("banana", &vec![rule("a", "o", None)]), "bonono");
}

#[test]
fn zero_bound_changes_nothing() {
    assert_eq!(replace_str("banana", "a", "o", Some(0)), "banana");
}

#[test]
fn empty_from_changes_nothing() {
    assert_eq!(replace_str("banana", "", "x", None), "banana");
    assert_eq!(replace_str("banana", "", "x", Some(3)), "banana");
    assert_eq!(replace_str("", "", "x", None), "");
}

#[test]
fn empty_text_and_empty_rule_list() {
    assert_eq!(replace_str("", "a", "b", None), "");
    assert_eq!(apply("unchanged", &Vec::new()), "unchanged");
}

#[test]
fn replacement_is_not_rescanned() {
    assert_eq!(replace_str("aaa", "a", "aa", None), "aaaaaa");
    assert_eq!(replace_str("abab", "ab", "bab", None), "babbab");
}

#[test]
fn matches_do_not_overlap() {
    assert_eq!(replace_str("aaa", "aa", "b", None), "ba");
    assert_eq!(replace_str("aaaa", "aa", "b", None), "bb");
}

#[test]
fn from_longer_than_text() {
    assert_eq!(replace_str("ab", "abc", "x", None), "ab");
}

#[test]
fn matching_is_case_sensitive() {
    assert_eq!(replace_str("Aa", "a", "b", None), "Ab");
}

#[test]
fn characters_beyond_ascii() {
    assert_eq!(replace_str("Bäche über Flüsse", "ü", "ue", None), "Bäche ueber Fluesse");
    assert_eq!(replace_str("Grüße", "ß", "ss", Some(1)), "Grüsse");
}

#[test]
fn rules_with_repeated_from_apply_independently() {
    let patterns = vec![rule("a", "b", Some(1)), rule("a", "c", Some(1))];
    assert_eq!(apply("aaa", &patterns), "bca");
}

#[test]
fn rule_list_equals_rules_one_after_another() {
    let text = "Vom Eise befreit sind Strom und Bäche
Durch des Frühlings holden, belebenden Blick,
Im Tale grünet Hoffnungsglück;
Der alte Winter, in seiner Schwäche,
Zog sich in rauhe Berge zurück.
Von dort her sendet er, fliehend, nur
Ohnmächtige Schauer körnigen Eises
In Streifen über die grünende Flur.
Aber die Sonne duldet kein Weißes,
Überall regt sich Bildung und Streben,
Alles will sie mit Farben beleben;...";
    let patterns = vec![
        Item {
            name: Some(r#""A" to "E""#.to_string()),
            from: "a".to_string(),
            to: "e".to_string(),
            times: None,
        },
        rule("S", "T", Some(3)),
    ];
    let expected = text.replace("a", "e").replacen("S", "T", 3);
    assert_eq!(apply(text, &patterns), expected);
    let step = replace_str(text, "a", "e", None);
    assert_eq!(replace_str(&step, "S", "T", Some(3)), expected);
}

#[test]
fn config_holds_its_fields() {
    let config = Config {
        target_filename: "target.txt".to_string(),
        pattern_filename: "patterns.json".to_string(),
        verbosity: 2,
    };
    assert_eq!(config.target_filename, "target.txt");
    assert_eq!(config.pattern_filename, "patterns.json");
    assert_eq!(config.verbosity, 2);
}
