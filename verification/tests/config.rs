use yt_gtk::config::{parse_openrouter_models, Config, Environment};

#[test]
fn parse_openrouter_models_splits_and_trims() {
    assert_eq!(
        parse_openrouter_models(Some("a, b ,,c".to_string())),
        vec!["a", "b", "c"]
    );
}

#[test]
fn parse_openrouter_models_falls_back_to_default() {
    assert_eq!(parse_openrouter_models(None), vec!["@preset/cheap"]);
    assert_eq!(
        parse_openrouter_models(Some(" , ".to_string())),
        vec!["@preset/cheap"]
    );
}

#[test]
fn blank_variables_count_as_unset() {
    let config = Config::from_env(Environment {
        google_api_key: Some("  ".to_string()),
        gemini_api_key: Some("KEY".to_string()),
        gemini_model: None,
        openrouter_api_key: None,
        openrouter_models: Some("one,two".to_string()),
    });
    assert_eq!(config.google_api_key, None);
    assert_eq!(config.gemini_api_key.as_deref(), Some("KEY"));
    assert_eq!(config.gemini_model, "gemini-3.5-flash");
    assert_eq!(config.openrouter_api_key, None);
    assert_eq!(config.openrouter_models, vec!["one", "two"]);

    let mut other = config.clone();
    assert_eq!(other, config);
    other.openrouter_models.pop();
    assert_ne!(other, config);
}

#[test]
fn joined_models_are_read_back() {
    let models = vec!["a/b:free", "@preset/cheap", "c d"];
    assert_eq!(parse_openrouter_models(Some(models.join(","))), models);
    assert_eq!(parse_openrouter_models(Some("one".to_string())), vec!["one"]);
}
