use minilauncher::entries::freedesktop::{application_dirs, is_desktop_file, FreedesktopParser};
use minilauncher::entries::Entry;

fn strings(v: &[&str]) -> Vec<String> {
    v.iter().map(|s| s.to_string()).collect()
}

fn parser(locale: Option<&str>, desktop: Option<&str>) -> FreedesktopParser {
    FreedesktopParser::with_locale(locale.map(String::from), desktop.map(String::from))
}

const FILES: &str = "[Desktop Entry]
Name=Files
Name[fr]=Fichiers
Comment=Browse the file system
Exec=nautilus --new-window %U
Icon=org.gnome.Nautilus
Keywords=folder;manager;;explore;
Terminal=false
";

#[test]
fn parser_keys_from_locale() {
    let p = parser(Some("fr-FR"), Some("GNOME"));
    assert_eq!(p.locale_name_key.as_deref(), Some("Name[fr]"));
    assert_eq!(p.locale_comment_key.as_deref(), Some("Comment[fr]"));
    assert_eq!(p.locale_keywords_key.as_deref(), Some("Keywords[fr]"));
    assert_eq!(p.desktop_environment.as_deref(), Some("gnome"));
    let p = parser(None, None);
    assert_eq!(p.locale_name_key, None);
    assert_eq!(p.desktop_environment, None);
}

#[test]
fn parse_localized_entry() {
    let e = parser(Some("fr-FR"), Some("GNOME")).parse(FILES).unwrap();
    assert_eq!(e.name, "Fichiers");
    assert_eq!(e.command, "nautilus --new-window %U");
    assert_eq!(e.icon.as_deref(), Some("org.gnome.Nautilus"));
    assert_eq!(e.comment.as_deref(), Some("Browse the file system"));
    assert_eq!(e.keywords, Some(strings(&["folder", "manager", "explore"])));
    assert!(!e.terminal);
    let e = parser(Some("de"), None).parse(FILES).unwrap();
    assert_eq!(e.name, "Files");
}

#[test]
fn parse_terminal_and_missing_fields() {
    let text = "[Desktop Entry]\nName=htop\nExec=htop\nTerminal=true\n";
    let e = parser(None, None).parse(text).unwrap();
    assert!(e.terminal);
    assert_eq!(e.icon, None);
    assert_eq!(e.comment, None);
    assert_eq!(e.keywords, None);
    assert!(parser(None, None).parse("[Desktop Entry]\nName=x\n").is_none());
    assert!(parser(None, None).parse("[Desktop Entry]\nExec=x\n").is_none());
    assert!(parser(None, None).parse("[Other]\nName=x\nExec=x\n").is_none());
    assert!(parser(None, None).parse("").is_none());
}

#[test]
fn hidden_entries() {
    let p = parser(None, Some("GNOME"));
    let hidden = "[Desktop Entry]\nName=a\nExec=a\nNoDisplay=true\n";
    assert!(p.parse(hidden).is_none());
    let not_here = "[Desktop Entry]\nName=a\nExec=a\nNotShowIn=GNOME;KDE;\n";
    assert!(p.parse(not_here).is_none());
    assert!(parser(None, Some("XFCE")).parse(not_here).is_some());
    assert!(parser(None, None).parse(not_here).is_some());
    let only_elsewhere = "[Desktop Entry]\nName=a\nExec=a\nOnlyShowIn=KDE;\n";
    assert!(p.parse(only_elsewhere).is_some());
    let shown = "[Desktop Entry]\nName=a\nExec=a\nNoDisplay=false\n";
    assert!(p.parse(shown).is_some());
}

#[test]
fn byte_order_mark_and_first_value() {
    let text = "\u{feff}[Desktop Entry]\nName=first\nName=second\nExec=run\n";
    let e = parser(None, None).parse(text).unwrap();
    assert_eq!(e.name, "first");
}

#[test]
fn later_file_with_same_name_wins() {
    let a = "[Desktop Entry]\nName=Editor\nExec=vim\n".to_string();
    let b = "[Desktop Entry]\nName=Shell\nExec=sh\n".to_string();
    let c = "[Desktop Entry]\nName=Editor\nExec=nvim\n".to_string();
    let bad = "not an entry".to_string();
    let entries: Vec<Entry> = parser(None, None).entries_from_files(&vec![a, bad, b, c]);
    assert_eq!(entries.len(), 2);
    assert_eq!(entries[0].name, "Editor");
    assert_eq!(entries[0].command, "nvim");
    assert_eq!(entries[1].name, "Shell");
}

#[test]
fn later_directory_with_same_name_wins() {
    let a = "[Desktop Entry]\nName=Editor\nExec=vim\n".to_string();
    let b = "[Desktop Entry]\nName=Shell\nExec=sh\n".to_string();
    let c = "[Desktop Entry]\nName=Editor\nExec=nvim\n".to_string();
    let d = "[Desktop Entry]\nName=Browser\nExec=firefox\n".to_string();
    let p = parser(None, None);
    let dirs = vec![vec![a.clone(), b.clone()], vec![], vec![c.clone(), d.clone()]];
    let by_dirs: Vec<Entry> = p.entries_from_dirs(&dirs);
    let names: Vec<&str> = by_dirs.iter().map(|e| e.name.as_str()).collect();
    assert_eq!(names, vec!["Editor", "Shell", "Browser"]);
    assert_eq!(by_dirs[0].command, "nvim");
    let in_one_pass: Vec<Entry> = p.entries_from_files(&vec![a, b, c, d]);
    assert_eq!(by_dirs.len(), in_one_pass.len());
    for (x, y) in by_dirs.iter().zip(in_one_pass.iter()) {
        assert_eq!(x.name, y.name);
        assert_eq!(x.command, y.command);
    }
    assert!(p.entries_from_dirs(&vec![]).is_empty());
}

#[test]
fn application_directories() {
    assert_eq!(
        application_dirs(Some("/usr/share:/usr/local/share/")),
        strings(&["/usr/share/applications/", "/usr/local/share/applications/"])
    );
    assert_eq!(application_dirs(Some("")), strings(&["applications/"]));
    assert_eq!(application_dirs(None), strings(&["/usr/share/applications/"]));
    assert!(is_desktop_file("/usr/share/applications/firefox.desktop"));
    assert!(!is_desktop_file("/usr/share/applications/mimeinfo.cache"));
}
