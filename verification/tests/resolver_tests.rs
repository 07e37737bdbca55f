use expert_kb::db::{Entry, DB};
use expert_kb::parser::parse_db_from_file;
use expert_kb::resolver::resolve;

fn entry(category: &str, value: &str, attrs: &[(&str, &str)]) -> Entry {
    Entry {
        value: value.to_string(),
        category: category.to_string(),
        categories: attrs
            .iter()
            .map(|(c, v)| (c.to_string(), v.to_string()))
            .collect(),
    }
}

fn base_with(entries: Vec<Entry>) -> DB {
    let mut db = DB::new();
    for e in entries {
        for (c, v) in e.categories.iter() {
            db.add_category(c, v);
        }
        db.add_category(&e.category, &e.value);
        db.entries.push(e);
    }
    db
}

fn pairs(q: &[(&str, &str)]) -> Vec<(String, String)> {
    q.iter().map(|(c, v)| (c.to_string(), v.to_string())).collect()
}

#[test]
fn vacuous_match_returns_the_first_entry() {
    let db = base_with(vec![
        entry("Animal", "Cat", &[("Color", "Grey")]),
        entry("Animal", "Dog", &[("Color", "Brown")]),
        entry("Animal", "Fox", &[("Color", "Red")]),
    ]);
    let answers: Vec<(String, String)> = Vec::new();
    let got = resolve(&db, None, &answers).unwrap();
    assert_eq!(got, "Cat");
    assert_eq!(db.find_value(None, Vec::new()).unwrap(), "Cat");
}

#[test]
fn constraints_are_discovered_only_under_the_target_category() {
    // The Vehicle record also carries ("Color","Red") and even
    // ("Size","Big"), which the answers affirm; with target "Fruit" only
    // ("Color","Red") may be confirmed, so the first red fruit wins.
    let db = base_with(vec![
        entry("Fruit", "Apple", &[("Color", "Red")]),
        entry("Fruit", "Cherry", &[("Color", "Red")]),
        entry("Vehicle", "Firetruck", &[("Color", "Red"), ("Size", "Big")]),
    ]);
    let target = "Fruit".to_string();
    let answers = pairs(&[("Color", "Red"), ("Size", "Big")]);
    let got = resolve(&db, Some(&target), &answers).unwrap();
    assert_eq!(got, "Apple");
}

#[test]
fn matching_scans_the_whole_base_in_source_order() {
    // Constraint discovery is scoped to the target category, but phase
    // two scans every record: the Vehicle record carries the confirmed
    // pair and stands first, so it wins.
    let db = base_with(vec![
        entry("Vehicle", "Firetruck", &[("Color", "Red")]),
        entry("Fruit", "Apple", &[("Color", "Red")]),
    ]);
    let target = "Fruit".to_string();
    let answers = pairs(&[("Color", "Red")]);
    let got = resolve(&db, Some(&target), &answers).unwrap();
    assert_eq!(got, "Firetruck");
}

#[test]
fn unconfirmed_answers_do_not_constrain() {
    // ("Legs","Eight") is answered but no Fruit record carries it, so it
    // is never confirmed and the first record matches vacuously.
    let db = base_with(vec![
        entry("Fruit", "Apple", &[("Color", "Red")]),
        entry("Fruit", "Pear", &[("Color", "Green")]),
    ]);
    let target = "Fruit".to_string();
    let answers = pairs(&[("Legs", "Eight")]);
    let got = resolve(&db, Some(&target), &answers).unwrap();
    assert_eq!(got, "Apple");
}

#[test]
fn not_found_echoes_query_and_target() {
    let db = base_with(vec![
        entry("Fruit", "Apple", &[("Color", "Red")]),
        entry("Fruit", "Pear", &[("Color", "Green")]),
    ]);
    let target = "Fruit".to_string();
    let answers = pairs(&[("Color", "Red"), ("Color", "Green")]);
    let err = resolve(&db, Some(&target), &answers).unwrap_err();
    assert_eq!(err.query, answers);
    assert_eq!(err.target, Some("Fruit".to_string()));
}

#[test]
fn resolution_is_pure_and_repeatable() {
    let db = base_with(vec![
        entry("Fruit", "Apple", &[("Color", "Red")]),
        entry("Fruit", "Pear", &[("Color", "Green")]),
    ]);
    let target = "Fruit".to_string();
    let answers = pairs(&[("Color", "Green")]);
    for _ in 0..3 {
        let got = resolve(&db, Some(&target), &answers).unwrap();
        assert_eq!(got, "Pear");
    }
    assert_eq!(db.entries.len(), 2);
}

#[test]
fn resolves_against_a_parsed_base() {
    let src = "\
        advice Окрас : Какого цвета зверь?;\n\
        advice Уши : Какие уши?;\n\
        1: Окрас : рыжий, Уши : острые | Животное : лиса;\n\
        2: Окрас : серый, Уши : круглые | Животное : кот;\n";
    let db = parse_db_from_file(src).unwrap();
    let target = "Животное".to_string();
    let answers = pairs(&[("Окрас", "серый"), ("Уши", "круглые")]);
    let got = resolve(&db, Some(&target), &answers).unwrap();
    assert_eq!(got, "кот");

    let answers = pairs(&[("Окрас", "рыжий")]);
    let got = resolve(&db, Some(&target), &answers).unwrap();
    assert_eq!(got, "лиса");
}

#[test]
fn empty_base_finds_nothing() {
    let db = DB::new();
    let answers: Vec<(String, String)> = Vec::new();
    let err = resolve(&db, None, &answers).unwrap_err();
    assert!(err.query.is_empty());
    assert_eq!(err.target, None);
    assert_eq!(db.find_value(None, Vec::new()), None);
}
