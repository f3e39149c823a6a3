use shell::extend::{extend, ExtendError};

const DEFAULTS: &str =
    "height: 32\nnested:\n  enabled: true\n  spacing: 4.0\nterminal: xdg-terminal-exec\n";

fn ok(text: &str, defaults: &str) -> Option<String> {
    match extend(text, defaults) {
        Ok(out) => out,
        Err(_) => panic!("extending failed"),
    }
}

#[test]
fn complete_file_is_untouched() {
    assert_eq!(ok(DEFAULTS, DEFAULTS), None);
}

#[test]
fn empty_file_becomes_the_defaults() {
    assert_eq!(ok("", DEFAULTS).as_deref(), Some(DEFAULTS));
}

#[test]
fn missing_keys_are_appended_where_they_belong() {
    let text = "# mine\nnested:\n  spacing: 2.0 # tight\nheight: 40\n";
    let out = ok(text, DEFAULTS).unwrap();
    assert_eq!(
        out,
        "# mine\nnested:\n  spacing: 2.0 # tight\n  enabled: true\nheight: 40\nterminal: xdg-terminal-exec\n"
    );
}

#[test]
fn whole_missing_mapping_is_inserted_as_a_block() {
    let out = ok("height: 40\n", DEFAULTS).unwrap();
    assert_eq!(
        out,
        "height: 40\nnested:\n  enabled: true\n  spacing: 4.0\nterminal: xdg-terminal-exec\n"
    );
}

#[test]
fn nested_lines_precede_parent_lines_on_a_shared_last_line() {
    let out = ok("height: 40\nnested:\n  enabled: false", DEFAULTS).unwrap();
    assert_eq!(
        out,
        "height: 40\nnested:\n  enabled: false\n  spacing: 4.0\nterminal: xdg-terminal-exec"
    );
}

#[test]
fn deeper_user_indentation_is_followed() {
    let out = ok("nested:\n    enabled: false\nheight: 40\n", DEFAULTS).unwrap();
    assert_eq!(
        out,
        "nested:\n    enabled: false\n    spacing: 4.0\nheight: 40\nterminal: xdg-terminal-exec\n"
    );
}

#[test]
fn flow_mapping_is_left_alone() {
    let out = ok("height: 40\nnested: {enabled: false}\n", DEFAULTS).unwrap();
    assert_eq!(
        out,
        "height: 40\nnested: {enabled: false}\nterminal: xdg-terminal-exec\n"
    );
}

#[test]
fn empty_value_does_not_swallow_the_next_line() {
    let text = "nested:\n  enabled:\nheight: 40\n";
    let out = ok(text, DEFAULTS).unwrap();
    assert_eq!(
        out,
        "nested:\n  enabled:\n  spacing: 4.0\nheight: 40\nterminal: xdg-terminal-exec\n"
    );
}

#[test]
fn partial_file_gains_the_missing_keys_and_then_nothing_more() {
    let defaults = "height: 32\nnested:\n  enabled: true\n";
    let out = ok("# mine\nheight: 40\n", defaults).unwrap();
    assert_eq!(out, "# mine\nheight: 40\nnested:\n  enabled: true\n");
    assert_eq!(ok(&out, defaults), None);
}

#[test]
fn blank_file_becomes_the_defaults() {
    assert_eq!(ok("  \n\n", DEFAULTS).as_deref(), Some(DEFAULTS));
}

#[test]
fn comment_only_file_becomes_the_defaults_only_when_blank() {
    // A file holding only a comment has no mapping and is not blank: nothing to extend.
    assert_eq!(ok("# nothing yet\n", DEFAULTS), None);
}

#[test]
fn errors_are_reported() {
    assert!(matches!(extend("height: 40\n", "- a\n- b\n"), Err(ExtendError::DefaultsNotMapping)));
    assert!(matches!(extend("height: [1,\n", DEFAULTS), Err(ExtendError::Text(_))));
    assert!(matches!(extend("height: 1\n", "a: [\n"), Err(ExtendError::Defaults(_))));
}
