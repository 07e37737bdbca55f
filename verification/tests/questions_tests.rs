use std::sync::Arc;

use expert_kb::parser::parse_db_from_file;
use expert_kb::questions::Questions;
use expert_kb::resolver::resolve;

fn questionnaire_over(src: &str) -> Questions {
    let db = parse_db_from_file(src).unwrap();
    let mut q = Questions::default();
    q.db = Arc::new(db);
    q.refresh_categories();
    q
}

#[test]
fn refresh_makes_one_unanswered_slot_per_category() {
    let q = questionnaire_over("1: Color : Red, Tail : Long | Animal : Fox;");
    let slots: Vec<(&str, bool)> = q
        .answers
        .iter()
        .map(|(c, v)| (c.as_str(), v.is_some()))
        .collect();
    assert_eq!(
        slots,
        vec![("Color", false), ("Tail", false), ("Animal", false)]
    );
    assert_eq!(q.selected_category, None);
}

#[test]
fn refresh_resets_selections_but_keeps_stale_slots() {
    let mut q = questionnaire_over("1: Color : Red | Animal : Fox;");
    assert!(q.select_answer("Color", "Red".to_string()));
    q.db = Arc::new(parse_db_from_file("1: Tail : Long | Animal : Cat;").unwrap());
    q.refresh_categories();
    // The Color slot survives from the previous base, selection and all;
    // every slot of the new catalog is present and unanswered.
    let color = q.answers.iter().find(|(c, _)| c == "Color").unwrap();
    assert_eq!(color.1, Some("Red".to_string()));
    let tail = q.answers.iter().find(|(c, _)| c == "Tail").unwrap();
    assert_eq!(tail.1, None);
    let animal = q.answers.iter().find(|(c, _)| c == "Animal").unwrap();
    assert_eq!(animal.1, None);
}

#[test]
fn select_answer_requires_a_slot() {
    let mut q = questionnaire_over("1: Color : Red | Animal : Fox;");
    assert!(q.select_answer("Color", "Red".to_string()));
    assert!(!q.select_answer("Smell", "Odd".to_string()));
    let color = q.answers.iter().find(|(c, _)| c == "Color").unwrap();
    assert_eq!(color.1, Some("Red".to_string()));
}

#[test]
fn selected_answers_come_in_slot_order() {
    let mut q = questionnaire_over(
        "1: Color : Red, Tail : Long, Ears : Pointy | Animal : Fox;",
    );
    assert!(q.select_answer("Ears", "Pointy".to_string()));
    assert!(q.select_answer("Color", "Red".to_string()));
    assert_eq!(
        q.selected_answers(),
        vec![
            ("Color".to_string(), "Red".to_string()),
            ("Ears".to_string(), "Pointy".to_string()),
        ]
    );
}

#[test]
fn a_full_questionnaire_session_resolves() {
    let src = "\
        advice Color : What color is it?;\n\
        advice Ears : What are the ears like?;\n\
        1: Color : Red, Ears : Pointy | Animal : Fox;\n\
        2: Color : Grey, Ears : Round | Animal : Cat;\n";
    let mut q = questionnaire_over(src);
    q.selected_category = Some("Animal".to_string());
    assert!(q.select_answer("Color", "Grey".to_string()));
    assert!(q.select_answer("Ears", "Round".to_string()));
    let confirmed = q.selected_answers();
    let got = resolve(&q.db, q.selected_category.as_ref(), &confirmed).unwrap();
    assert_eq!(got, "Cat");
}
