use shell::entries::{Catalog, Entry, LaunchError};

fn entry(name: &str, keywords: &[&str]) -> Entry {
    Entry {
        name: name.to_owned(),
        generic_name: None,
        keywords: keywords.iter().map(|k| (*k).to_owned()).collect(),
        command: vec![name.to_lowercase()],
        terminal: false,
        cwd: None,
    }
}

fn catalog() -> Catalog {
    Catalog::new(
        vec![entry("Files", &[]), entry("Nautilus", &["files"]), entry("Terminal", &[])],
        String::new(),
    )
}

#[test]
fn name_match_outranks_keyword_match() {
    assert_eq!(catalog().search("files"), [0, 1]);
}

#[test]
fn empty_query_lists_everything_in_name_order() {
    assert_eq!(catalog().search(""), [0, 1, 2]);
}

#[test]
fn no_match_is_empty() {
    assert_eq!(catalog().search("zzz"), Vec::<usize>::new());
}

#[test]
fn catalog_is_sorted_case_insensitively_and_stably() {
    let c = Catalog::new(
        vec![entry("zed", &[]), entry("Alpha", &[]), entry("beta", &["one"]), entry("BETA", &["two"])],
        String::new(),
    );
    let names: Vec<&str> = (0..c.len()).map(|i| c.entry(i).name.as_str()).collect();
    assert_eq!(names, ["Alpha", "beta", "BETA", "zed"]);
    assert_eq!(c.entry(1).keywords, ["one"]);
}

#[test]
fn blank_query_is_everything() {
    assert_eq!(catalog().search("   "), [0, 1, 2]);
}

#[test]
fn terminal_entries_run_in_the_terminal() {
    let mut e = entry("Htop", &[]);
    e.terminal = true;
    e.command = vec!["htop".to_owned(), "-d".to_owned(), "10".to_owned()];
    let c = Catalog::new(vec![e], "  foot  -e ".to_owned());
    assert_eq!(c.launch_argv(0).ok().unwrap(), ["foot", "-e", "htop", "-d", "10"]);
    let mut e = entry("Htop", &[]);
    e.terminal = true;
    let c = Catalog::new(vec![e], " ".to_owned());
    assert!(matches!(c.launch_argv(0), Err(LaunchError::NoTerminal(name)) if name == "Htop"));
    let c = Catalog::new(vec![entry("Files", &[])], String::new());
    assert_eq!(c.launch_argv(0).ok().unwrap(), ["files"]);
}

use shell::entries::{launchable, DesktopInfo, Offer};

/// The keys of `[Desktop Entry]\nType=Application\nName=App\nExec=app\n`.
fn desktop_entry() -> DesktopInfo {
    DesktopInfo {
        kind: Some("Application".to_owned()),
        no_display: false,
        hidden: false,
        only_show_in: None,
        not_show_in: None,
        try_exec: None,
    }
}

fn list(items: &[&str]) -> Option<Vec<String>> {
    Some(items.iter().map(|s| (*s).to_owned()).collect())
}

#[test]
fn hidden_entries_are_not_launchable() {
    let hyprland = vec!["hyprland".to_owned()];
    assert_eq!(launchable(&desktop_entry(), &hyprland), Offer::Shown);
    let no_display = DesktopInfo { no_display: true, ..desktop_entry() };
    assert_eq!(launchable(&no_display, &hyprland), Offer::Hidden);
}

#[test]
fn only_show_in_filters_by_current_desktop() {
    // OnlyShowIn=GNOME;
    let entry = DesktopInfo { only_show_in: list(&["GNOME", ""]), ..desktop_entry() };
    assert_eq!(launchable(&entry, &vec!["hyprland".to_owned()]), Offer::Hidden);
    assert_eq!(launchable(&entry, &vec!["gnome".to_owned()]), Offer::Shown);
}

#[test]
fn not_show_in_hides_on_the_named_desktops() {
    let entry = DesktopInfo { not_show_in: list(&["KDE", "Hyprland", ""]), ..desktop_entry() };
    assert_eq!(launchable(&entry, &vec!["hyprland".to_owned()]), Offer::Hidden);
    assert_eq!(launchable(&entry, &vec!["gnome".to_owned()]), Offer::Shown);
    assert_eq!(launchable(&entry, &vec![]), Offer::Shown);
}

#[test]
fn only_applications_that_are_not_hidden() {
    let none = vec![];
    assert_eq!(launchable(&DesktopInfo { kind: Some("Link".to_owned()), ..desktop_entry() }, &none), Offer::Hidden);
    assert_eq!(launchable(&DesktopInfo { kind: None, ..desktop_entry() }, &none), Offer::Hidden);
    assert_eq!(launchable(&DesktopInfo { hidden: true, ..desktop_entry() }, &none), Offer::Hidden);
    assert_eq!(launchable(&DesktopInfo { only_show_in: list(&[]), ..desktop_entry() }, &none), Offer::Hidden);
}

#[test]
fn try_exec_is_left_to_the_caller() {
    let entry = DesktopInfo { try_exec: Some("foot".to_owned()), ..desktop_entry() };
    assert_eq!(launchable(&entry, &vec![]), Offer::IfInstalled("foot".to_owned()));
    let hidden = DesktopInfo { no_display: true, ..entry };
    assert_eq!(launchable(&hidden, &vec![]), Offer::Hidden);
}

#[test]
fn first_occurrence_of_an_id_wins() {
    let mut seen = shell::entries::Seen::new();
    assert!(seen.insert("org.gnome.Nautilus.desktop"));
    assert!(seen.insert("foot.desktop"));
    assert!(!seen.insert("org.gnome.Nautilus.desktop"));
    assert!(!seen.insert("foot.desktop"));
    assert!(seen.insert("foot-server.desktop"));
}

#[test]
fn catalog_is_ordered_by_lowercased_name_stably() {
    let c = Catalog::new(
        vec![entry("terminal", &[]), entry("Zed", &[]), entry("files", &["a"]), entry("alacritty", &[]), entry("Files", &["b"])],
        String::new(),
    );
    let names: Vec<(&str, Vec<String>)> = (0..c.len())
        .map(|i| (c.entry(i).name.as_str(), c.entry(i).keywords.clone()))
        .collect();
    assert_eq!(
        names,
        vec![
            ("alacritty", vec![]),
            ("files", vec!["a".to_owned()]),
            ("Files", vec!["b".to_owned()]),
            ("terminal", vec![]),
            ("Zed", vec![]),
        ]
    );
}
