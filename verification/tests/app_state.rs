use minilauncher::daemon::run_launcher_with_custom;
use minilauncher::entries::Entry;
use minilauncher::ipc::{Action, Response};
use minilauncher::state::{AppState, LauncherEntry, ProcessedEntries};

fn entry(name: &str, command: &str, keywords: &[&str]) -> Entry {
    Entry {
        name: name.to_string(),
        command: command.to_string(),
        icon: None,
        comment: None,
        keywords: if keywords.is_empty() {
            None
        } else {
            Some(keywords.iter().map(|s| s.to_string()).collect())
        },
        terminal: false,
    }
}

fn apps() -> Vec<Entry> {
    vec![
        entry("Firefox", "firefox %U", &["web", "browser"]),
        entry("Files", "nautilus", &["folder"]),
        entry("Étude", "etude", &[]),
    ]
}

fn names(v: &[LauncherEntry]) -> Vec<&str> {
    v.iter().map(|e| e.name.as_str()).collect()
}

#[test]
fn processed_entries_index() {
    let p = ProcessedEntries::new(apps());
    assert_eq!(p.commands_by_name.len(), 3);
    assert_eq!(p.commands_by_name.get("Files").unwrap().command, "nautilus");
    assert_eq!(p.entries_by_keywords.entry_at(0).0, "firefox web browser");
    assert_eq!(p.entries_by_keywords.entry_at(2).0, "etude");
    assert_eq!(p.entries_by_keywords.entry_at(1).1.comment, "");
}

#[test]
fn later_entry_replaces_command() {
    let mut es = apps();
    es.push(entry("Files", "thunar", &["folder"]));
    let mut s = AppState::new();
    s.set_apps(es);
    assert_eq!(s.get_command("Files").unwrap().command, "thunar");
    assert_eq!(s.get_command("Firefox").unwrap().command, "firefox %U");
    assert!(s.get_command("Nothing").is_none());
    assert_eq!(s.set_launcher_entries(10).len(), 3);
}

#[test]
fn search_filters_and_limits() {
    let mut s = AppState::new();
    s.set_apps(apps());
    assert_eq!(names(&s.search_entries("fire", 5)), vec!["Firefox"]);
    assert_eq!(names(&s.search_entries("BROWSER web", 5)), vec!["Firefox"]);
    assert_eq!(names(&s.search_entries("ÉTUDE", 5)), vec!["Étude"]);
    assert!(s.search_entries("zzz", 5).is_empty());
    let result = s.search_entries("f", 5);
    let mut found = names(&result);
    found.sort();
    assert_eq!(found, vec!["Files", "Firefox"]);
    assert_eq!(s.search_entries("f", 1).len(), 1);
    assert!(s.search_entries("f", 0).is_empty());
}

#[test]
fn empty_search_shows_initial_entries() {
    let mut s = AppState::new();
    s.set_apps(apps());
    let initial = names(&s.set_launcher_entries(2)).iter().map(|x| x.to_string()).collect::<Vec<_>>();
    assert_eq!(initial, vec!["Firefox", "Files"]);
    let searched = s.search_entries("", 2);
    assert_eq!(names(&searched), vec!["Firefox", "Files"]);
    let searched = s.search_entries("   ", 2);
    assert_eq!(names(&searched), vec!["Firefox", "Files"]);
    assert_eq!(s.search_entries("   ", 10).len(), 3);
    // blanks that transliterate to spaces: a no-break space and an
    // ideographic space
    let searched = s.search_entries("\u{a0} \u{3000}", 2);
    assert_eq!(names(&searched), vec!["Firefox", "Files"]);
    // a tab is a word separator for the substring step, but the fuzzy
    // pattern is split on spaces only: a tab alone matches nothing
    assert!(s.search_entries("\t", 5).is_empty());
}

#[test]
fn custom_entries_take_over() {
    let mut s = AppState::new();
    s.set_apps(apps());
    s.set_custom_entries(Some(vec![entry("Shutdown", "systemctl poweroff", &["power"])]));
    assert!(s.get_command("Firefox").is_none());
    assert_eq!(s.get_command("Shutdown").unwrap().command, "systemctl poweroff");
    assert_eq!(names(&s.search_entries("pow", 5)), vec!["Shutdown"]);
    s.set_custom_entries(None);
    assert!(s.get_command("Shutdown").is_none());
    assert!(s.get_command("Firefox").is_some());
}

#[test]
fn run_request_ignored_while_visible() {
    let mut s = AppState::new();
    s.set_apps(apps());
    let custom = Some(vec![entry("Shutdown", "systemctl poweroff", &[])]);
    assert!(run_launcher_with_custom(&mut s, true, custom, 5).is_none());
    assert!(s.get_command("Shutdown").is_none());
    let custom = Some(vec![entry("Shutdown", "systemctl poweroff", &[])]);
    let shown = run_launcher_with_custom(&mut s, false, custom, 5).unwrap();
    assert_eq!(names(&shown), vec!["Shutdown"]);
    let shown = run_launcher_with_custom(&mut s, false, None, 2).unwrap();
    assert_eq!(names(&shown), vec!["Firefox", "Files"]);
}

#[test]
fn ipc_values() {
    let a = Action::RunCustom(apps());
    match a {
        Action::RunCustom(es) => assert_eq!(es.len(), 3),
        _ => panic!("wrong action"),
    }
    let r = Response::Error("busy".to_string());
    assert!(matches!(r, Response::Error(ref m) if m == "busy"));
    assert!(matches!(Action::Quit, Action::Quit));
    assert!(matches!(Response::Ack, Response::Ack));
}
