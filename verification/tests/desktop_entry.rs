use waffy::DesktopEntry;

fn parse(content: &str) -> Option<DesktopEntry> {
    DesktopEntry::from_content(content)
}

#[test]
fn empty_entry_has_no_name_and_no_icon() {
    let e = DesktopEntry::empty();
    assert_eq!(e.name, "");
    assert_eq!(e.display_name, "");
    assert_eq!(e.icon_path, None);
}

#[test]
fn set_name_also_sets_the_displayed_name() {
    let mut e = DesktopEntry::empty();
    e.set_icon("firefox");
    e.set_name("Firefox");
    assert_eq!(e.name, "Firefox");
    assert_eq!(e.display_name, "Firefox");
    assert_eq!(e.icon_path.as_deref(), Some("firefox"));
}

#[test]
fn set_display_label_keeps_the_searched_name() {
    let mut e = DesktopEntry::empty();
    e.set_name("Files");
    e.set_display_label(String::from("[[Fi]]les"));
    assert_eq!(e.label(), "Files");
    assert_eq!(e.display_name, "[[Fi]]les");
}

#[test]
fn reads_name_and_icon_of_the_desktop_entry_section() {
    let e = parse("[Desktop Entry]\nType=Application\nName=Firefox\nIcon=firefox\nExec=firefox %u\n").unwrap();
    assert_eq!(e.name, "Firefox");
    assert_eq!(e.display_name, "Firefox");
    assert_eq!(e.icon_path.as_deref(), Some("firefox"));
}

#[test]
fn hidden_entries_are_rejected() {
    assert!(parse("[Desktop Entry]\nName=Secret\nHidden=true\n").is_none());
    assert!(parse("[Desktop Entry]\nNoDisplay=true\nName=Secret\n").is_none());
}

#[test]
fn hidden_false_is_shown() {
    let e = parse("[Desktop Entry]\nNoDisplay=false\nHidden=no\nName=Shown\n").unwrap();
    assert_eq!(e.name, "Shown");
}

#[test]
fn keys_outside_the_section_are_ignored() {
    let e = parse("Name=Before\nHidden=true\n[Desktop Entry]\nName=Inside\n").unwrap();
    assert_eq!(e.name, "Inside");
    assert_eq!(e.icon_path, None);
}

#[test]
fn comment_lines_are_skipped() {
    let e = parse("# a comment\n[Desktop Entry]\n#Name=Commented\n#Hidden=true\nName=Real\n").unwrap();
    assert_eq!(e.name, "Real");
}

#[test]
fn a_line_whose_second_char_opens_a_bracket_ends_the_section() {
    let e = parse("[Desktop Entry]\nName=First\n [Other]\nName=Second\nHidden=true\n").unwrap();
    assert_eq!(e.name, "First");
}

#[test]
fn a_group_header_starting_in_column_one_does_not_end_the_section() {
    let e = parse("[Desktop Entry]\nName=First\n[Desktop Action new-window]\nName=New Window\n").unwrap();
    assert_eq!(e.name, "New Window");
}

#[test]
fn crlf_line_endings_are_stripped() {
    let e = parse("[Desktop Entry]\r\nName=Terminal\r\nIcon=utilities-terminal\r\n").unwrap();
    assert_eq!(e.name, "Terminal");
    assert_eq!(e.icon_path.as_deref(), Some("utilities-terminal"));
}

#[test]
fn the_value_is_everything_after_the_first_equals_sign() {
    let e = parse("[Desktop Entry]\nName=a=b\nIcon=/usr/share/icons/x.png\n").unwrap();
    assert_eq!(e.name, "a=b");
    assert_eq!(e.icon_path.as_deref(), Some("/usr/share/icons/x.png"));
}

#[test]
fn later_names_override_earlier_ones() {
    let e = parse("[Desktop Entry]\nName=One\nName=Two").unwrap();
    assert_eq!(e.name, "Two");
}

#[test]
fn no_section_gives_the_empty_entry() {
    let e = parse("Name=Nothing\n").unwrap();
    assert_eq!(e.name, "");
    assert_eq!(e.icon_path, None);
    let e = parse("").unwrap();
    assert_eq!(e.name, "");
}

#[test]
fn lines_without_equals_sign_are_ignored() {
    let e = parse("[Desktop Entry]\nGarbage\n\nName=Ok\n").unwrap();
    assert_eq!(e.name, "Ok");
}

#[test]
fn non_ascii_values_are_kept() {
    let e = parse("[Desktop Entry]\nName=Éditeur ✓\n").unwrap();
    assert_eq!(e.name, "Éditeur ✓");
}

#[test]
fn desktop_file_names() {
    assert!(DesktopEntry::is_desktop_file("firefox.desktop"));
    assert!(DesktopEntry::is_desktop_file("org.gnome.Files.desktop"));
    assert!(DesktopEntry::is_desktop_file(".hidden.desktop"));
    assert!(!DesktopEntry::is_desktop_file(".desktop"));
    assert!(!DesktopEntry::is_desktop_file("desktop"));
    assert!(!DesktopEntry::is_desktop_file("notes.txt"));
    assert!(!DesktopEntry::is_desktop_file("app.desktop.bak"));
    assert!(!DesktopEntry::is_desktop_file("app.Desktop"));
    assert!(!DesktopEntry::is_desktop_file(".."));
    assert!(!DesktopEntry::is_desktop_file(""));
}

#[test]
fn application_dirs_without_home() {
    let dirs = DesktopEntry::get_dirs(None);
    assert_eq!(dirs, vec!["/usr/share/applications", "/usr/local/share/applications"]);
}

#[test]
fn application_dirs_with_home() {
    let dirs = DesktopEntry::get_dirs(Some("/home/user"));
    assert_eq!(
        dirs,
        vec![
            "/usr/share/applications",
            "/usr/local/share/applications",
            "/home/user/.local/share/applications/",
        ]
    );
    let dirs = DesktopEntry::get_dirs(Some("/home/user/"));
    assert_eq!(dirs[2], "/home/user/.local/share/applications/");
    let dirs = DesktopEntry::get_dirs(Some(""));
    assert_eq!(dirs[2], ".local/share/applications/");
}

#[test]
fn a_leading_comment_changes_nothing() {
    let body = "[Desktop Entry]\nName=Calculator\nIcon=accessories-calculator\n";
    let with_comment = format!("# generated file\n{}", body);
    let a = parse(body).unwrap();
    let b = parse(&with_comment).unwrap();
    assert_eq!(a.name, b.name);
    assert_eq!(a.icon_path, b.icon_path);
}
