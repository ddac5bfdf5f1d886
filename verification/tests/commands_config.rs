use minilauncher::commands::{command_line, get_default_terminal, working_directory, Command};
use minilauncher::config::colors::{format_color, parse_color, Colors, Rgb};
use minilauncher::config::config::{
    default_animation_duration, default_border_radius, default_border_width, default_font_family,
    default_font_size, default_max_entries, default_mode, mode_name, parse_mode, Mode,
};
use minilauncher::config::watch::{colors_changed, load_config, FileEvent, FileEventKind};
use minilauncher::entries::{entries_format, strip_input, EntriesFormat};
use minilauncher::paths::colors_file_in;

fn strings(v: &[&str]) -> Vec<String> {
    v.iter().map(|s| s.to_string()).collect()
}

#[test]
fn default_terminal_choice() {
    assert_eq!(get_default_terminal(Some("alacritty"), Some("GNOME")), strings(&["alacritty"]));
    assert_eq!(get_default_terminal(None, Some("GNOME")), strings(&["kgx", "-e"]));
    assert_eq!(get_default_terminal(None, Some("KDE")), strings(&["konsole"]));
    assert_eq!(get_default_terminal(None, Some("XFCE")), strings(&["xfce4-terminal"]));
    assert_eq!(get_default_terminal(None, Some("LXQt")), strings(&["lxterminal"]));
    assert_eq!(get_default_terminal(None, Some("sway")), strings(&["xterm"]));
    assert_eq!(get_default_terminal(None, Some("gnome")), strings(&["xterm"]));
    assert_eq!(get_default_terminal(None, None), strings(&["xterm"]));
}

#[test]
fn command_line_drops_field_codes() {
    let cmd = Command { command: "firefox %U --private @@u %f".to_string(), terminal: false };
    assert_eq!(command_line(&cmd, strings(&["xterm"])), strings(&["firefox", "--private"]));
    let cmd = Command { command: "htop  -d 10".to_string(), terminal: true };
    assert_eq!(
        command_line(&cmd, strings(&["kgx", "-e"])),
        strings(&["kgx", "-e", "htop", "-d", "10"])
    );
    let cmd = Command { command: "%U @@".to_string(), terminal: false };
    assert!(command_line(&cmd, strings(&["xterm"])).is_empty());
    // "%u" in the middle of a word is kept
    let cmd = Command { command: "open x%u".to_string(), terminal: false };
    assert_eq!(command_line(&cmd, vec![]), strings(&["open", "x%u"]));
}

#[test]
fn working_directory_defaults_to_current() {
    assert_eq!(working_directory(Some("/home/a".to_string())), "/home/a");
    assert_eq!(working_directory(None), ".");
}

#[test]
fn mode_names_roundtrip() {
    for m in [Mode::Full, Mode::Compact, Mode::Lines, Mode::Icons] {
        assert_eq!(parse_mode(&mode_name(m)), Some(m));
    }
    assert_eq!(parse_mode("compact"), Some(Mode::Compact));
    assert_eq!(parse_mode("Full"), None);
    assert_eq!(parse_mode(""), None);
}

#[test]
fn config_defaults() {
    assert_eq!(default_animation_duration(), 200);
    assert_eq!(default_border_width(), 2);
    assert_eq!(default_border_radius(), 8);
    assert_eq!(default_mode(), Mode::Full);
    assert_eq!(default_max_entries(), 5);
    assert_eq!(default_font_family(), None);
    assert_eq!(default_font_size(), 11);
}

#[test]
fn hex_colors() {
    assert_eq!(parse_color("#FF69B4"), Some(Rgb { red: 0xFF, green: 0x69, blue: 0xB4 }));
    assert_eq!(parse_color("#ff69b4"), Some(Rgb { red: 0xFF, green: 0x69, blue: 0xB4 }));
    assert_eq!(parse_color("#F0a"), Some(Rgb { red: 0xFF, green: 0x00, blue: 0xAA }));
    assert_eq!(parse_color("#+F+F+F"), Some(Rgb { red: 15, green: 15, blue: 15 }));
    assert_eq!(parse_color("FF69B4"), None);
    assert_eq!(parse_color("#FF69B"), None);
    assert_eq!(parse_color("#FF69B4FF"), None);
    assert_eq!(parse_color("#GG0000"), None);
    assert_eq!(parse_color(""), None);
    assert_eq!(parse_color("#é00000"), None);
    assert_eq!(format_color(Rgb { red: 30, green: 30, blue: 46 }), "#1E1E2E");
    for c in [Rgb { red: 0, green: 255, blue: 16 }, Rgb { red: 203, green: 166, blue: 247 }] {
        assert_eq!(parse_color(&format_color(c)), Some(c));
    }
}

#[test]
fn default_colors_when_missing() {
    let d = load_config(None);
    assert_eq!(d.background, Rgb { red: 30, green: 30, blue: 46 });
    assert_eq!(d.text, Rgb { red: 205, green: 214, blue: 244 });
    assert_eq!(d.border, Rgb { red: 69, green: 71, blue: 90 });
    assert_eq!(d.accent, Rgb { red: 203, green: 166, blue: 247 });
    assert_eq!(d.highlight, Rgb { red: 147, green: 153, blue: 178 });
    let mut mine = Colors::default();
    mine.accent = Rgb { red: 1, green: 2, blue: 3 };
    assert_eq!(load_config(Some(mine)).accent, Rgb { red: 1, green: 2, blue: 3 });
}

#[test]
fn watcher_reacts_to_colors_file_only() {
    let file = colors_file_in("/home/a/.config");
    let ev = |kind, paths: Vec<String>| FileEvent { kind, paths };
    assert!(colors_changed(&vec![ev(FileEventKind::Modify, vec![file.clone()])]));
    assert!(colors_changed(&vec![
        ev(FileEventKind::Other, vec![file.clone()]),
        ev(FileEventKind::Remove, vec!["/x".to_string(), file.clone()]),
    ]));
    assert!(!colors_changed(&vec![ev(FileEventKind::Other, vec![file.clone()])]));
    assert!(!colors_changed(&vec![ev(
        FileEventKind::Create,
        vec!["/home/a/.config/minilauncher/config.toml".to_string()]
    )]));
    assert!(!colors_changed(&vec![]));
}

#[test]
fn entries_file_formats() {
    assert_eq!(entries_format("/tmp/entries.toml"), Some(EntriesFormat::Toml));
    assert_eq!(entries_format("entries.json"), Some(EntriesFormat::Json));
    assert_eq!(entries_format("entries.yaml"), None);
    assert_eq!(entries_format(".json"), None);
    assert_eq!(entries_format("json"), None);
}

#[test]
fn colored_input_is_stripped() {
    let out = strip_input(b"\x1b[32m[{\"name\": \"a\"}]\x1b[0m");
    assert_eq!(out, b"[{\"name\": \"a\"}]".to_vec());
    assert_eq!(strip_input(b"plain"), b"plain".to_vec());
}
