use shortcut_prune::{decode, encode, reconcile, ShortcutEntry};
use steam_shortcuts_util::{parse_shortcuts, shortcuts_to_bytes, Shortcut};

fn sample<'a>() -> Vec<Shortcut<'a>> {
    let mut first = Shortcut::new(
        "0",
        "Celeste",
        "\"/games/celeste/Celeste\"",
        "\"/games/celeste\"",
        "/games/celeste/icon.png",
        "",
        "--graphics opengl",
    );
    first.tags = vec!["Installed", "Platformer"];
    first.last_play_time = 1_700_000_000;
    let mut second = Shortcut::new("1", "Gone", "/games/gone/run", "/games/gone", "", "", "");
    second.is_hidden = false;
    let mut third = Shortcut::new("2", "Hidden", "/games/hidden/run", "", "", "", "");
    third.is_hidden = true;
    third.dev_kit_game_id = "kit";
    vec![first, second, third]
}

#[test]
fn files_written_by_steam_shortcuts_util_are_read() {
    let shortcuts = sample();
    let bytes = shortcuts_to_bytes(&shortcuts);
    let (entries, trailer) = decode(&bytes).unwrap();
    assert!(trailer.is_empty());
    assert_eq!(entries.len(), shortcuts.len());
    for (entry, shortcut) in entries.iter().zip(shortcuts.iter()) {
        assert_eq!(entry.index(), shortcut.order.as_bytes());
        assert_eq!(entry.app_name(), shortcut.app_name.as_bytes());
        assert_eq!(entry.exe_path(), shortcut.exe.as_bytes());
        assert_eq!(entry.start_dir(), shortcut.start_dir.as_bytes());
        assert_eq!(entry.icon_path(), shortcut.icon.as_bytes());
        assert_eq!(entry.shortcut_path(), shortcut.shortcut_path.as_bytes());
        assert_eq!(entry.launch_options(), shortcut.launch_options.as_bytes());
        assert_eq!(entry.is_hidden(), shortcut.is_hidden);
        assert_eq!(entry.allow_desktop_config(), shortcut.allow_desktop_config);
        assert_eq!(entry.allow_overlay(), shortcut.allow_overlay);
        assert_eq!(entry.open_vr(), shortcut.open_vr != 0);
        assert_eq!(entry.devkit(), shortcut.dev_kit != 0);
        assert_eq!(entry.devkit_game_id(), shortcut.dev_kit_game_id.as_bytes());
        assert_eq!(entry.last_play_time() as u32, shortcut.last_play_time);
        let tags: Vec<Vec<u8>> = shortcut.tags.iter().map(|t| t.as_bytes().to_vec()).collect();
        assert_eq!(entry.tags(), tags);
    }
}

#[test]
fn files_written_by_steam_shortcuts_util_round_trip() {
    let bytes = shortcuts_to_bytes(&sample());
    let (entries, trailer) = decode(&bytes).unwrap();
    assert_eq!(encode(&entries, &trailer), bytes);
}

// That reader takes a first value byte of one for a marker and drops it, so
// this entry sets no flag.
#[test]
fn steam_shortcuts_util_reads_what_is_written() {
    let tags = vec![b"Installed".to_vec()];
    let entry = ShortcutEntry::new(
        0,
        b"Celeste",
        b"\"/games/celeste/Celeste\"",
        b"/games/celeste",
        b"/icon.png",
        b"/s.desktop",
        b"--fast",
        false,
        false,
        false,
        false,
        false,
        b"kit",
        7,
        1_700_000_000,
        b"",
        &tags,
    );
    let bytes = encode(&[entry], &[]);
    let parsed = parse_shortcuts(&bytes).unwrap();
    assert_eq!(parsed.len(), 1);
    let s = &parsed[0];
    assert_eq!(s.order, "0");
    assert_eq!(s.app_name, "Celeste");
    assert_eq!(s.exe, "\"/games/celeste/Celeste\"");
    assert_eq!(s.start_dir, "/games/celeste");
    assert_eq!(s.icon, "/icon.png");
    assert_eq!(s.shortcut_path, "/s.desktop");
    assert_eq!(s.launch_options, "--fast");
    assert!(!s.is_hidden);
    assert!(!s.allow_desktop_config);
    assert!(!s.allow_overlay);
    assert_eq!(s.open_vr, 0);
    assert_eq!(s.dev_kit, 0);
    assert_eq!(s.dev_kit_game_id, "kit");
    assert_eq!(s.dev_kit_overrite_app_id, 7);
    assert_eq!(s.last_play_time, 1_700_000_000);
    assert_eq!(s.tags, vec!["Installed"]);
}

#[test]
fn dropping_an_entry_gives_what_steam_shortcuts_util_writes() {
    let shortcuts = sample();
    let (entries, trailer) = decode(&shortcuts_to_bytes(&shortcuts)).unwrap();
    let (survivors, changed) =
        reconcile(entries, |path: &[u8]| path == b"/games/celeste/Celeste");
    assert!(changed);
    let mut kept = shortcuts.clone();
    kept.retain(|s| s.is_hidden || s.exe == "\"/games/celeste/Celeste\"");
    assert_eq!(kept.len(), 2);
    assert_eq!(encode(&survivors, &trailer), shortcuts_to_bytes(&kept));
}
