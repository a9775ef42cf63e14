use blindfold::{best_match, confirmation_prompt, is_affirmative, suggest_most_similar, Catalog};

fn catalog_python_node() -> Catalog {
    let mut cat = Catalog::new();
    cat.insert("python".to_string(), "http://p".to_string());
    cat.insert("node".to_string(), "http://n".to_string());
    cat
}

#[test]
fn suggests_closest_name() {
    let cat = catalog_python_node();
    let best = best_match(&cat, "pythom");
    assert_eq!(best, Some("python".to_string()));
}

#[test]
fn empty_catalog_has_no_suggestion() {
    let cat = Catalog::new();
    assert_eq!(best_match(&cat, "pythom"), None);
    assert_eq!(suggest_most_similar("pythom", &cat, "y"), None);
}

#[test]
fn tie_keeps_first_inserted() {
    let mut cat = Catalog::new();
    cat.insert("ab".to_string(), "u1".to_string());
    cat.insert("ba".to_string(), "u2".to_string());
    // both are one substitution-pair away from "aa"; the earlier entry wins
    assert_eq!(best_match(&cat, "aa"), Some("ab".to_string()));
}

#[test]
fn exact_name_wins() {
    let cat = catalog_python_node();
    assert_eq!(best_match(&cat, "node"), Some("node".to_string()));
}

#[test]
fn affirmative_answers() {
    assert!(is_affirmative("y"));
    assert!(is_affirmative("Y"));
    assert!(is_affirmative(" y \n"));
    assert!(is_affirmative("\tY\r\n"));
    assert!(!is_affirmative("n"));
    assert!(!is_affirmative(""));
    assert!(!is_affirmative("yes"));
    assert!(!is_affirmative("y y"));
}

#[test]
fn confirmation_accepted_returns_suggestion() {
    let cat = catalog_python_node();
    assert_eq!(
        suggest_most_similar("pythom", &cat, "y"),
        Some("python".to_string())
    );
    assert_eq!(
        suggest_most_similar("pythom", &cat, " Y \n"),
        Some("python".to_string())
    );
}

#[test]
fn confirmation_rejected_returns_nothing() {
    let cat = catalog_python_node();
    assert_eq!(suggest_most_similar("pythom", &cat, "n"), None);
    assert_eq!(suggest_most_similar("pythom", &cat, ""), None);
    assert_eq!(suggest_most_similar("pythom", &cat, "anything"), None);
}

#[test]
fn prompt_names_query_and_suggestion() {
    assert_eq!(
        confirmation_prompt("pythom", "python"),
        "Couldn't generate template for pythom, did you mean python? [y/N]: "
    );
}
