use ai::config::{
    load_config, load_custom_config, ConfigFile, ConfigResult, ConfigSource, FileOutcome,
    DEFAULT_BASE_URL, DEFAULT_MODEL,
};

fn layer(api_key: Option<&str>, base_url: Option<&str>, model: Option<&str>) -> ConfigFile {
    ConfigFile {
        api_key: api_key.map(str::to_string),
        base_url: base_url.map(str::to_string),
        model: model.map(str::to_string),
    }
}

fn source(path: &str, outcome: FileOutcome) -> ConfigSource {
    ConfigSource {
        path: path.to_string(),
        outcome,
    }
}

fn parsed(path: &str, file: ConfigFile) -> ConfigSource {
    source(path, FileOutcome::Parsed(file))
}

fn with_environment(environment: ConfigFile) -> ConfigResult {
    load_config(&vec![], None, &environment).unwrap()
}

fn merge_config_files(files: &[ConfigFile]) -> ConfigFile {
    let mut merged = ConfigFile::default();
    for file in files {
        merged = merged.overlay(file);
    }
    merged
}

#[test]
fn defaults_when_nothing_set() {
    let result = load_config(&vec![], None, &ConfigFile::default()).unwrap();
    assert!(result.config.api_key.is_none());
    assert_eq!(result.config.base_url, DEFAULT_BASE_URL);
    assert_eq!(result.config.model, DEFAULT_MODEL);
    assert_eq!(DEFAULT_BASE_URL, "https://api.openai.com/v1");
    assert_eq!(DEFAULT_MODEL, "gpt-4o-mini");
}

#[test]
fn env_api_key_is_used() {
    let result = with_environment(layer(Some("sk-env"), None, None));
    assert_eq!(result.config.api_key.as_deref(), Some("sk-env"));
}

#[test]
fn env_base_url_overrides() {
    let result = with_environment(layer(None, Some("https://custom.io/v1"), None));
    assert_eq!(result.config.base_url, "https://custom.io/v1");
}

#[test]
fn env_model_overrides() {
    let result = with_environment(layer(None, None, Some("gpt-4")));
    assert_eq!(result.config.model, "gpt-4");
}

#[test]
fn all_three_env_vars_override() {
    let result = with_environment(layer(
        Some("sk-all"),
        Some("https://all.io/v1"),
        Some("gpt-all"),
    ));
    assert_eq!(result.config.api_key.as_deref(), Some("sk-all"));
    assert_eq!(result.config.base_url, "https://all.io/v1");
    assert_eq!(result.config.model, "gpt-all");
}

#[test]
fn higher_priority_overwrites_lower() {
    let merged = merge_config_files(&[
        layer(None, Some("http://low.io"), Some("low-model")),
        layer(None, None, Some("high-model")),
    ]);
    assert_eq!(merged.model.as_deref(), Some("high-model"));
    assert_eq!(merged.base_url.as_deref(), Some("http://low.io"));
}

#[test]
fn missing_file_is_skipped() {
    let result = load_config(
        &vec![
            source("missing/config.toml", FileOutcome::Missing),
            parsed("exists/config.toml", layer(None, None, Some("exists-model"))),
        ],
        None,
        &ConfigFile::default(),
    )
    .unwrap();
    assert_eq!(result.config.model, "exists-model");
    assert_eq!(result.loaded_paths, vec!["exists/config.toml"]);
}

#[test]
fn partial_configs_merge_correctly() {
    let merged = merge_config_files(&[
        layer(Some("key1"), None, None),
        layer(None, Some("http://url2.io"), None),
        layer(None, None, Some("model3")),
    ]);
    assert_eq!(merged.api_key.as_deref(), Some("key1"));
    assert_eq!(merged.base_url.as_deref(), Some("http://url2.io"));
    assert_eq!(merged.model.as_deref(), Some("model3"));
}

#[test]
fn custom_config_file_is_loaded() {
    let custom = parsed("custom.toml", layer(None, None, Some("custom-model")));
    let result = load_config(&vec![], Some(&custom), &ConfigFile::default()).unwrap();
    assert_eq!(result.config.model, "custom-model");
    assert!(result.loaded_paths.contains(&"custom.toml".to_string()));
}

#[test]
fn custom_config_missing_file_returns_error() {
    let missing = source("/nonexistent/path/config.toml", FileOutcome::Missing);
    let result = load_config(&vec![], Some(&missing), &ConfigFile::default());
    assert!(result.is_err());
    let message = result.unwrap_err();
    assert!(message.contains("Config file not found"));
    assert_eq!(message, "Config file not found: /nonexistent/path/config.toml");
}

#[test]
fn custom_config_invalid_toml_returns_error() {
    let bad = source("bad.toml", FileOutcome::Invalid("expected `]`".to_string()));
    let result = load_config(&vec![], Some(&bad), &ConfigFile::default());
    assert!(result.is_err());
    let message = result.unwrap_err();
    assert!(message.contains("Invalid TOML"));
    assert_eq!(message, "Invalid TOML in config file bad.toml: expected `]`");
}

#[test]
fn custom_config_that_cannot_be_read_returns_error() {
    let locked = source("a.toml", FileOutcome::Unreadable("permission denied".to_string()));
    assert_eq!(
        load_custom_config(&locked).unwrap_err(),
        "Failed to read config file a.toml: permission denied"
    );
}

#[test]
fn files_that_cannot_be_used_are_passed_over() {
    let result = load_config(
        &vec![
            parsed("a", layer(Some("k"), None, Some("m"))),
            source("b", FileOutcome::Unreadable("denied".to_string())),
            source("c", FileOutcome::Invalid("bad".to_string())),
            source("d", FileOutcome::Missing),
        ],
        None,
        &ConfigFile::default(),
    )
    .unwrap();
    assert_eq!(result.loaded_paths, vec!["a"]);
    assert_eq!(result.config.api_key.as_deref(), Some("k"));
    assert_eq!(result.config.base_url, DEFAULT_BASE_URL);
    assert_eq!(result.config.model, "m");
}

#[test]
fn priority_of_all_layers() {
    let sources = vec![
        parsed("system", layer(Some("k1"), Some("u1"), Some("m1"))),
        parsed("prefix", layer(Some("k2"), Some("u2"), Some("m2"))),
        parsed("user", layer(Some("k3"), Some("u3"), None)),
    ];
    let custom = parsed("custom", layer(Some("k4"), None, None));
    let result = load_config(&sources, Some(&custom), &ConfigFile::default()).unwrap();
    assert_eq!(result.config.api_key.as_deref(), Some("k4"));
    assert_eq!(result.config.base_url, "u3");
    assert_eq!(result.config.model, "m2");
    assert_eq!(result.loaded_paths, vec!["system", "prefix", "user", "custom"]);

    let environment = layer(Some("k5"), None, Some("m5"));
    let result = load_config(&sources, Some(&custom), &environment).unwrap();
    assert_eq!(result.config.api_key.as_deref(), Some("k5"));
    assert_eq!(result.config.base_url, "u3");
    assert_eq!(result.config.model, "m5");
}

#[test]
fn an_empty_value_is_a_value() {
    let result = load_config(
        &vec![parsed("a", layer(None, None, Some("m")))],
        None,
        &layer(None, None, Some("")),
    )
    .unwrap();
    assert_eq!(result.config.model, "");
}
