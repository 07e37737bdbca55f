use expert_kb::db::DB;
use expert_kb::parser::{parse_db_from_file, ParserError};

fn category_values<'a>(db: &'a DB, name: &str) -> Option<&'a Vec<String>> {
    for (k, vs) in db.categories.iter() {
        if k == name {
            return Some(vs);
        }
    }
    None
}

fn lookup<'a>(m: &'a Vec<(String, String)>, name: &str) -> Option<&'a String> {
    for (k, v) in m.iter() {
        if k == name {
            return Some(v);
        }
    }
    None
}

fn error_position(e: ParserError) -> (usize, usize) {
    match e {
        ParserError::Parse(msg, pos) => {
            assert!(!msg.is_empty());
            pos
        }
    }
}

#[test]
fn minimal_entry_round_trip() {
    let db = parse_db_from_file("1: | Animal : Cat;").unwrap();
    assert_eq!(db.entries.len(), 1);
    assert_eq!(db.entries[0].value, "Cat");
    assert_eq!(db.entries[0].category, "Animal");
    assert!(db.entries[0].categories.is_empty());
    assert_eq!(db.categories.len(), 1);
    assert_eq!(db.categories[0].0, "Animal");
    assert_eq!(db.categories[0].1, vec!["Cat".to_string()]);
    assert!(db.questions.is_empty());
    assert!(db.changes.is_empty());
    assert!(db.tips.is_empty());
}

#[test]
fn empty_source_is_an_empty_base() {
    let db = parse_db_from_file("").unwrap();
    assert!(db.entries.is_empty());
    assert!(db.categories.is_empty());
    let db = parse_db_from_file("  \n\t \r\n ").unwrap();
    assert!(db.entries.is_empty());
}

#[test]
fn entry_with_attributes() {
    let db = parse_db_from_file("1: Color : Red, Tail : Long | Animal : Fox;").unwrap();
    assert_eq!(db.entries.len(), 1);
    let e = &db.entries[0];
    assert_eq!(e.value, "Fox");
    assert_eq!(e.category, "Animal");
    assert_eq!(
        e.categories,
        vec![
            ("Color".to_string(), "Red".to_string()),
            ("Tail".to_string(), "Long".to_string()),
        ]
    );
    // Catalog order is first-seen order: attributes first, terminal last.
    assert_eq!(db.categories[0].0, "Color");
    assert_eq!(db.categories[1].0, "Tail");
    assert_eq!(db.categories[2].0, "Animal");
    assert_eq!(category_values(&db, "Color").unwrap(), &vec!["Red".to_string()]);
}

#[test]
fn catalog_deduplicates_at_first_occurrence() {
    let src = "\
        1: Color : Red | Animal : Fox;\n\
        2: Color : Red | Animal : Crab;\n\
        3: Color : Red, Color : Blue | Animal : Parrot;\n";
    let db = parse_db_from_file(src).unwrap();
    let colors = category_values(&db, "Color").unwrap();
    assert_eq!(colors, &vec!["Red".to_string(), "Blue".to_string()]);
    assert_eq!(colors.iter().filter(|v| *v == "Red").count(), 1);
}

#[test]
fn entry_level_duplicates_are_kept() {
    let db = parse_db_from_file("1: Color : Red, Color : Red | Animal : Fox;").unwrap();
    assert_eq!(db.entries[0].categories.len(), 2);
    assert_eq!(
        category_values(&db, "Color").unwrap(),
        &vec!["Red".to_string()]
    );
}

#[test]
fn catalog_is_complete_over_all_entries() {
    let src = "\
        1: Color : Red, Size : Small | Animal : Crab;\n\
        2: Color : Green, Legs : Four | Animal : Frog;\n";
    let db = parse_db_from_file(src).unwrap();
    for e in db.entries.iter() {
        let vs = category_values(&db, &e.category).unwrap();
        assert!(vs.contains(&e.value));
        for (c, v) in e.categories.iter() {
            let vs = category_values(&db, c).unwrap();
            assert!(vs.contains(v));
        }
    }
}

#[test]
fn prompts_notes_and_changes_are_registered() {
    let src = "\
        advice Color : What color is it?;\n\
        tip Color : Look closely;\n\
        change Color : Revised recently;\n\
        1: Color : Red | Animal : Fox;\n";
    let db = parse_db_from_file(src).unwrap();
    assert_eq!(lookup(&db.questions, "Color").unwrap(), "What color is it?");
    assert_eq!(lookup(&db.tips, "Color").unwrap(), "Look closely");
    assert_eq!(lookup(&db.changes, "Color").unwrap(), "Revised recently");
}

#[test]
fn last_declaration_wins_for_prompts() {
    let src = "advice Color : What color?; advice Color : Which color exactly?;";
    let db = parse_db_from_file(src).unwrap();
    assert_eq!(db.questions.len(), 1);
    assert_eq!(
        lookup(&db.questions, "Color").unwrap(),
        "Which color exactly?"
    );
}

#[test]
fn missing_terminal_pair_points_past_the_attribute_list() {
    // After the attribute list `Color : Red` the entry must announce its
    // terminal pair; the `;` is the first offending token, at column 15.
    let err = parse_db_from_file("1: Color : Red;").unwrap_err();
    assert_eq!(error_position(err), (1, 15));
}

#[test]
fn error_positions_are_one_based_line_and_column() {
    let err = parse_db_from_file("1: | A : B;\n???").unwrap_err();
    assert_eq!(error_position(err), (2, 1));
    let err = parse_db_from_file("hello : world").unwrap_err();
    assert_eq!(error_position(err), (1, 1));
}

#[test]
fn empty_value_is_rejected() {
    let err = parse_db_from_file("1: | Animal : ;").unwrap_err();
    assert_eq!(error_position(err), (1, 15));
}

#[test]
fn trailing_garbage_is_rejected() {
    let err = parse_db_from_file("1: | A : B; x").unwrap_err();
    assert_eq!(error_position(err), (1, 13));
}

#[test]
fn keyword_must_stand_alone() {
    let err = parse_db_from_file("advicex : y;").unwrap_err();
    assert_eq!(error_position(err), (1, 1));
}

#[test]
fn atoms_may_carry_inner_spaces_and_any_alphabet() {
    let src = "advice Окрас : Какого цвета зверь?;\n1: Окрас : рыжий | Животное : лиса;";
    let db = parse_db_from_file(src).unwrap();
    assert_eq!(
        lookup(&db.questions, "Окрас").unwrap(),
        "Какого цвета зверь?"
    );
    assert_eq!(db.entries[0].value, "лиса");
    assert_eq!(
        db.entries[0].categories,
        vec![("Окрас".to_string(), "рыжий".to_string())]
    );
}

#[test]
fn numeric_identifier_is_checked_and_discarded() {
    let db = parse_db_from_file("42: | A : B;\n7: | A : C;").unwrap();
    assert_eq!(db.entries.len(), 2);
    let err = parse_db_from_file("x1: | A : B;").unwrap_err();
    assert_eq!(error_position(err), (1, 1));
}

#[test]
fn declarations_accumulate_in_source_order() {
    let src = "1: | A : First; 2: | A : Second; 3: | A : Third;";
    let db = parse_db_from_file(src).unwrap();
    let values: Vec<&str> = db.entries.iter().map(|e| e.value.as_str()).collect();
    assert_eq!(values, vec!["First", "Second", "Third"]);
}
