use shell::config::File;
use shell::entries::{Catalog, Entry};
use shell::launcher::{Config, Keys, Launcher};

fn app_entry(name: &str, keywords: &[&str]) -> Entry {
    Entry {
        name: name.to_owned(),
        generic_name: None,
        keywords: keywords.iter().map(|k| (*k).to_owned()).collect(),
        command: vec![name.to_lowercase()],
        terminal: false,
        cwd: None,
    }
}

fn launcher() -> Launcher {
    Launcher::new(Catalog::new(
        vec![app_entry("Terminal", &[]), app_entry("Files", &[]), app_entry("Nautilus", &["files"])],
        String::new(),
    ))
}

const NONE: Keys = Keys { escape: false, down: false, up: false, enter: false };

#[test]
fn starts_with_everything_listed() {
    let l = launcher();
    assert_eq!(l.query(), "");
    assert_eq!(l.results(), &vec![0, 1, 2]);
    assert_eq!(l.selected(), 0);
    assert!(!l.wants_exit());
    assert_eq!(l.catalog().entry(0).name, "Files");
}

#[test]
fn arrows_move_the_highlight_without_wrapping() {
    let mut l = launcher();
    let down = Keys { down: true, ..NONE };
    let up = Keys { up: true, ..NONE };
    assert_eq!(l.handle_keys(up), None);
    assert_eq!(l.selected(), 0);
    l.handle_keys(down);
    l.handle_keys(down);
    assert_eq!(l.selected(), 2);
    assert!(l.take_reveal());
    assert!(!l.take_reveal());
    l.handle_keys(down);
    assert_eq!(l.selected(), 2);
    l.handle_keys(up);
    assert_eq!(l.selected(), 1);
}

#[test]
fn enter_picks_the_highlighted_entry() {
    let mut l = launcher();
    l.handle_keys(Keys { down: true, ..NONE });
    assert_eq!(l.handle_keys(Keys { enter: true, ..NONE }), Some(1));
    assert!(!l.wants_exit());
    l.launched(Ok(()));
    assert!(l.wants_exit());
}

#[test]
fn a_failed_launch_is_shown() {
    let mut l = launcher();
    l.launched(Err("launching files: not found".to_owned()));
    assert_eq!(l.error(), &Some("launching files: not found".to_owned()));
    assert!(!l.wants_exit());
}

#[test]
fn escape_dismisses() {
    let mut l = launcher();
    assert_eq!(l.handle_keys(Keys { escape: true, ..NONE }), None);
    assert!(l.wants_exit());
}

#[test]
fn typing_reranks_and_highlights_the_first_row() {
    let mut l = launcher();
    l.select(2);
    l.set_query("files".to_owned());
    assert_eq!(l.query(), "files");
    assert_eq!(l.results(), &vec![0, 1]);
    assert_eq!(l.selected(), 0);
    assert_eq!(l.chosen(1), Some(1));
    assert_eq!(l.chosen(2), None);
    l.set_query("zzz".to_owned());
    assert_eq!(l.results(), &Vec::<usize>::new());
    assert_eq!(l.handle_keys(Keys { down: true, enter: true, ..NONE }), None);
    assert_eq!(l.selected(), 0);
}

#[test]
fn launcher_settings_default() {
    let c = Config::default();
    assert_eq!((c.width, c.height, c.terminal.as_str()), (640, 400, "xdg-terminal-exec"));
    assert_eq!(Config::NAME, "launcher");
}
