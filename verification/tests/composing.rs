use blindfold::{format_gitignore, split_request, Catalog, ComposeAction, Composer};

fn catalog_python_node() -> Catalog {
    let mut cat = Catalog::new();
    cat.insert("python".to_string(), "http://p".to_string());
    cat.insert("node".to_string(), "http://n".to_string());
    cat
}

#[test]
fn splits_token_at_last_separator() {
    assert_eq!(split_request("python"), (None, "python".to_string()));
    assert_eq!(
        split_request("sub/node"),
        (Some("sub/".to_string()), "node".to_string())
    );
    assert_eq!(
        split_request("a/b/c"),
        (Some("a/b/".to_string()), "c".to_string())
    );
    assert_eq!(split_request("sub/"), (Some("sub/".to_string()), String::new()));
    assert_eq!(split_request(""), (None, String::new()));
}

#[test]
fn composes_requests_in_order_with_rejection_skipped() {
    let cat = catalog_python_node();
    let tokens = vec![
        "python".to_string(),
        "sub/node".to_string(),
        "doesnotexist123xyz".to_string(),
    ];
    let mut c = Composer::new(tokens);

    match c.next_action(&cat) {
        ComposeAction::FetchBody { url } => assert_eq!(url, "http://p"),
        _ => panic!("expected a fetch for python"),
    }
    c.on_body("__pycache__/\n*.pyc");

    match c.next_action(&cat) {
        ComposeAction::FetchBody { url } => assert_eq!(url, "http://n"),
        _ => panic!("expected a fetch for node"),
    }
    c.on_body("/node_modules\nnpm-debug.log");

    match c.next_action(&cat) {
        ComposeAction::AskUser { prompt } => {
            assert!(prompt.starts_with("Couldn't generate template for doesnotexist123xyz"));
        }
        _ => panic!("expected a suggestion prompt"),
    }
    c.on_answer(&cat, "n");

    match c.next_action(&cat) {
        ComposeAction::Done => {}
        _ => panic!("expected completion"),
    }

    let expected = format!(
        "{}{}",
        format_gitignore("__pycache__/\n*.pyc", None, "python"),
        format_gitignore("/node_modules\nnpm-debug.log", Some("sub/"), "node")
    );
    assert_eq!(c.into_output(), expected);
}

#[test]
fn accepted_suggestion_is_fetched_under_the_prefix() {
    let cat = catalog_python_node();
    let mut c = Composer::new(vec!["sub/pythom".to_string()]);

    match c.next_action(&cat) {
        ComposeAction::AskUser { prompt } => {
            assert_eq!(
                prompt,
                "Couldn't generate template for pythom, did you mean python? [y/N]: "
            );
        }
        _ => panic!("expected a suggestion prompt"),
    }
    c.on_answer(&cat, "y\n");

    match c.next_action(&cat) {
        ComposeAction::FetchBody { url } => assert_eq!(url, "http://p"),
        _ => panic!("expected a fetch for the confirmed name"),
    }
    c.on_body("/build");

    match c.next_action(&cat) {
        ComposeAction::Done => {}
        _ => panic!("expected completion"),
    }
    assert_eq!(
        c.into_output(),
        format_gitignore("/build", Some("sub/"), "python")
    );
}

#[test]
fn empty_names_are_skipped_silently() {
    let cat = catalog_python_node();
    let mut c = Composer::new(vec!["sub/".to_string(), String::new()]);
    match c.next_action(&cat) {
        ComposeAction::Done => {}
        _ => panic!("expected completion"),
    }
    assert_eq!(c.into_output(), "");
}

#[test]
fn composing_zero_requests_yields_empty_aggregate() {
    let cat = catalog_python_node();
    let mut c = Composer::new(Vec::new());
    match c.next_action(&cat) {
        ComposeAction::Done => {}
        _ => panic!("expected completion"),
    }
    assert_eq!(c.into_output(), "");

    let empty_cat = Catalog::new();
    let mut c2 = Composer::new(Vec::new());
    match c2.next_action(&empty_cat) {
        ComposeAction::Done => {}
        _ => panic!("expected completion"),
    }
    assert_eq!(c2.into_output(), "");
}

#[test]
fn unmatched_name_with_empty_catalog_is_skipped() {
    let cat = Catalog::new();
    let mut c = Composer::new(vec!["rust".to_string()]);
    match c.next_action(&cat) {
        ComposeAction::Done => {}
        _ => panic!("expected completion"),
    }
    assert_eq!(c.into_output(), "");
}
