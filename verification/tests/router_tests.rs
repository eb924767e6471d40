use quectoclaw::config::ModelRoute;
use quectoclaw::router::ModelRouter;

fn make_route(keywords: Vec<&str>, model: &str) -> ModelRoute {
    ModelRoute {
        keywords: keywords.into_iter().map(String::from).collect(),
        model: model.to_string(),
        description: String::new(),
    }
}

#[test]
fn test_resolve_exact_match() {
    let router = ModelRouter::new(
        vec![
            make_route(vec!["code", "programming", "debug"], "gpt-4o"),
            make_route(vec!["translate", "language"], "gpt-4o-mini"),
        ],
        "gpt-4o-mini".to_string(),
    );

    assert_eq!(router.resolve_model("Help me debug this code"), "gpt-4o");
    assert_eq!(router.resolve_model("Translate this to French"), "gpt-4o-mini");
}

#[test]
fn test_resolve_case_insensitive() {
    let router = ModelRouter::new(vec![make_route(vec!["CODE"], "gpt-4o")], "default-model".to_string());
    assert_eq!(router.resolve_model("write some code"), "gpt-4o");
}

#[test]
fn test_resolve_fallback() {
    let router = ModelRouter::new(vec![make_route(vec!["code"], "gpt-4o")], "gpt-4o-mini".to_string());
    assert_eq!(router.resolve_model("What is the weather?"), "gpt-4o-mini");
}

#[test]
fn test_no_routes() {
    let router = ModelRouter::new(vec![], "default".to_string());
    assert!(!router.has_routes());
    assert_eq!(router.resolve_model("anything"), "default");
}

#[test]
fn test_first_match_wins() {
    let router = ModelRouter::new(
        vec![make_route(vec!["code"], "model-a"), make_route(vec!["code"], "model-b")],
        "default".to_string(),
    );
    assert_eq!(router.resolve_model("write code"), "model-a");
}
