use shell::config::{path, File, PathError};

struct Test;

impl File for Test {
    const NAME: &'static str = "test";
}

#[test]
fn path_is_named_after_the_file() {
    let path = Test::path(Some("/home/user/.config"), Some("/home/user")).unwrap();
    assert!(std::path::Path::new(&path).ends_with("shell/test.yaml"), "{}", path);
}

#[test]
fn config_home_wins_over_home() {
    assert_eq!(
        path(Some("/cfg"), Some("/home/u"), "bar").ok(),
        Some("/cfg/shell/bar.yaml".to_string())
    );
}

#[test]
fn empty_config_home_falls_back_to_home() {
    assert_eq!(
        path(Some(""), Some("/home/u"), "bar").ok(),
        Some("/home/u/.config/shell/bar.yaml".to_string())
    );
    assert_eq!(
        path(None, Some("/home/u/"), "launcher").ok(),
        Some("/home/u/.config/shell/launcher.yaml".to_string())
    );
}

#[test]
fn no_home_is_an_error() {
    assert!(matches!(path(None, None, "bar"), Err(PathError::HomeNotSet)));
}
