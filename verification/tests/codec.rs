use shortcut_prune::{decode, encode, Defect, MalformedInput, ShortcutEntry};

fn string(key: &str, value: &str) -> Vec<u8> {
    let mut out = vec![0x01];
    out.extend_from_slice(key.as_bytes());
    out.push(0);
    out.extend_from_slice(value.as_bytes());
    out.push(0);
    out
}

fn number(key: &str, value: i32) -> Vec<u8> {
    let mut out = vec![0x02];
    out.extend_from_slice(key.as_bytes());
    out.push(0);
    out.extend_from_slice(&value.to_le_bytes());
    out
}

fn nested(key: &str, children: &[Vec<u8>]) -> Vec<u8> {
    let mut out = vec![0x00];
    out.extend_from_slice(key.as_bytes());
    out.push(0);
    for child in children {
        out.extend_from_slice(child);
    }
    out.push(0x08);
    out
}

fn file(entries: &[Vec<u8>], trailer: &[u8]) -> Vec<u8> {
    let mut out = nested("shortcuts", entries);
    out.push(0x08);
    out.extend_from_slice(trailer);
    out
}

fn celeste(key: &str) -> Vec<u8> {
    nested(
        key,
        &[
            number("appid", -1_234_567),
            string("AppName", "Celeste"),
            string("Exe", "\"C:\\games\\celeste.exe\""),
            string("StartDir", "\"C:\\games\\\""),
            string("icon", ""),
            string("ShortcutPath", ""),
            string("LaunchOptions", "--windowed"),
            number("IsHidden", 0),
            number("AllowDesktopConfig", 1),
            number("AllowOverlay", 1),
            number("OpenVR", 0),
            number("Devkit", 0),
            string("DevkitGameID", ""),
            number("DevkitOverrideAppID", 0),
            number("LastPlayTime", 1_700_000_000),
            string("FlatpakAppID", ""),
            nested("tags", &[string("0", "Installed"), string("1", "Ready TO Play")]),
        ],
    )
}

fn malformed(offset: usize, defect: Defect) -> MalformedInput {
    MalformedInput { offset, defect }
}

#[test]
fn decodes_an_empty_list() {
    let bytes = file(&[], &[]);
    assert_eq!(bytes, b"\0shortcuts\0\x08\x08".to_vec());
    let (entries, trailer) = decode(&bytes).unwrap();
    assert!(entries.is_empty());
    assert!(trailer.is_empty());
}

#[test]
fn decodes_every_known_field() {
    let bytes = file(&[celeste("0")], &[]);
    let (entries, trailer) = decode(&bytes).unwrap();
    assert_eq!(entries.len(), 1);
    assert!(trailer.is_empty());
    let e = &entries[0];
    assert_eq!(e.index(), b"0");
    assert_eq!(e.app_name(), b"Celeste");
    assert_eq!(e.exe_path(), b"\"C:\\games\\celeste.exe\"");
    assert_eq!(e.start_dir(), b"\"C:\\games\\\"");
    assert_eq!(e.icon_path(), b"");
    assert_eq!(e.shortcut_path(), b"");
    assert_eq!(e.launch_options(), b"--windowed");
    assert!(!e.is_hidden());
    assert!(e.allow_desktop_config());
    assert!(e.allow_overlay());
    assert!(!e.open_vr());
    assert!(!e.devkit());
    assert_eq!(e.devkit_game_id(), b"");
    assert_eq!(e.devkit_override_app_id(), 0);
    assert_eq!(e.last_play_time(), 1_700_000_000);
    assert_eq!(e.flatpak_app_id(), b"");
    assert_eq!(e.tags(), vec![b"Installed".to_vec(), b"Ready TO Play".to_vec()]);
}

#[test]
fn round_trip_gives_the_buffer_back() {
    let bytes = file(&[celeste("0"), celeste("1"), celeste("2")], &[]);
    let (entries, trailer) = decode(&bytes).unwrap();
    assert_eq!(encode(&entries, &trailer), bytes);
}

#[test]
fn round_trip_keeps_the_trailer() {
    let bytes = file(&[celeste("0")], &[0xde, 0xad, 0x00, 0x08, 0xff]);
    let (entries, trailer) = decode(&bytes).unwrap();
    assert_eq!(entries.len(), 1);
    assert_eq!(trailer, vec![0xde, 0xad, 0x00, 0x08, 0xff]);
    assert_eq!(encode(&entries, &trailer), bytes);
}

#[test]
fn round_trip_keeps_keys_that_are_no_ordinals() {
    let bytes = file(&[celeste("7"), celeste("seven"), celeste("")], &[]);
    let (entries, trailer) = decode(&bytes).unwrap();
    assert_eq!(entries[0].index(), b"7");
    assert_eq!(entries[1].index(), b"seven");
    assert_eq!(entries[2].index(), b"");
    assert_eq!(encode(&entries, &trailer), bytes);
}

#[test]
fn decoding_what_was_encoded_gives_the_entries_back() {
    let bytes = file(&[celeste("0"), celeste("1")], &[1, 2, 3]);
    let (entries, trailer) = decode(&bytes).unwrap();
    let (again, trailer_again) = decode(&encode(&entries, &trailer)).unwrap();
    assert_eq!(again, entries);
    assert_eq!(trailer_again, trailer);
}

#[test]
fn keys_are_matched_without_regard_to_case() {
    let entry = nested(
        "0",
        &[
            string("appname", "lower"),
            string("EXE", "/bin/true"),
            string("ICON", "/icon.png"),
            number("ishidden", 1),
            number("LASTPLAYTIME", 42),
            nested("TAGS", &[string("0", "one")]),
        ],
    );
    let bytes = file(&[entry], &[]);
    let (entries, trailer) = decode(&bytes).unwrap();
    let e = &entries[0];
    assert_eq!(e.app_name(), b"lower");
    assert_eq!(e.exe_path(), b"/bin/true");
    assert_eq!(e.icon_path(), b"/icon.png");
    assert!(e.is_hidden());
    assert_eq!(e.last_play_time(), 42);
    assert_eq!(e.tags(), vec![b"one".to_vec()]);
    assert_eq!(encode(&entries, &trailer), bytes);
}

#[test]
fn long_names_of_the_two_paths_are_accepted() {
    let entry = nested("0", &[string("ExePath", "/bin/true"), string("iconPath", "/icon.png")]);
    let (entries, _) = decode(&file(&[entry], &[])).unwrap();
    assert_eq!(entries[0].exe_path(), b"/bin/true");
    assert_eq!(entries[0].icon_path(), b"/icon.png");
}

#[test]
fn the_first_field_of_a_name_is_the_one_that_counts() {
    let entry = nested("0", &[string("Exe", "/first"), string("exe", "/second")]);
    let bytes = file(&[entry], &[]);
    let (entries, trailer) = decode(&bytes).unwrap();
    assert_eq!(entries[0].exe_path(), b"/first");
    assert_eq!(encode(&entries, &trailer), bytes);
}

#[test]
fn a_field_with_the_wrong_tag_is_not_the_known_field() {
    let entry = nested("0", &[number("Exe", 5), string("IsHidden", "yes"), string("tags", "none")]);
    let bytes = file(&[entry], &[]);
    let (entries, trailer) = decode(&bytes).unwrap();
    assert_eq!(entries[0].exe_path(), b"");
    assert!(!entries[0].is_hidden());
    assert!(entries[0].tags().is_empty());
    assert_eq!(encode(&entries, &trailer), bytes);
}

#[test]
fn absent_fields_read_as_empty_or_zero() {
    let (entries, _) = decode(&file(&[nested("0", &[])], &[])).unwrap();
    let e = &entries[0];
    assert_eq!(e.app_name(), b"");
    assert_eq!(e.exe_path(), b"");
    assert!(!e.is_hidden());
    assert_eq!(e.devkit_override_app_id(), 0);
    assert!(e.tags().is_empty());
}

#[test]
fn unknown_fields_pass_through() {
    let entry = nested(
        "0",
        &[
            string("AppName", "A"),
            string("SomethingNew", "kept"),
            number("AnotherNumber", i32::MIN),
            nested(
                "Deep",
                &[
                    string("a", "b"),
                    nested("deeper", &[number("n", -1), nested("deepest", &[])]),
                    number("z", 0x0102_0304),
                ],
            ),
            string("Exe", "/bin/a"),
        ],
    );
    let bytes = file(&[entry], &[]);
    let (entries, trailer) = decode(&bytes).unwrap();
    assert_eq!(entries[0].app_name(), b"A");
    assert_eq!(entries[0].exe_path(), b"/bin/a");
    assert_eq!(encode(&entries, &trailer), bytes);
}

#[test]
fn integers_are_signed_and_little_endian() {
    let mut entry = vec![0x00, b'0', 0x00];
    entry.extend_from_slice(b"\x02LastPlayTime\0\xfe\xff\xff\xff");
    entry.extend_from_slice(b"\x02DevkitOverrideAppID\0\x04\x03\x02\x01");
    entry.push(0x08);
    let bytes = file(&[entry], &[]);
    let (entries, trailer) = decode(&bytes).unwrap();
    assert_eq!(entries[0].last_play_time(), -2);
    assert_eq!(entries[0].devkit_override_app_id(), 0x0102_0304);
    assert_eq!(encode(&entries, &trailer), bytes);
}

#[test]
fn extreme_integers_round_trip() {
    for n in [i32::MIN, -1, 0, 1, 255, 256, 65_536, 16_777_216, 0x7fff_ffff] {
        let bytes = file(&[nested("0", &[number("LastPlayTime", n)])], &[]);
        let (entries, trailer) = decode(&bytes).unwrap();
        assert_eq!(entries[0].last_play_time(), n);
        assert_eq!(encode(&entries, &trailer), bytes);
    }
}

#[test]
fn strings_are_bytes_of_any_encoding() {
    let mut entry = vec![0x00, b'0', 0x00, 0x01];
    entry.extend_from_slice(b"AppName\0\xff\xfe caf\xe9\0");
    entry.push(0x08);
    let bytes = file(&[entry], &[]);
    let (entries, trailer) = decode(&bytes).unwrap();
    assert_eq!(entries[0].app_name(), b"\xff\xfe caf\xe9");
    assert_eq!(encode(&entries, &trailer), bytes);
}

#[test]
fn tags_stop_at_the_first_child_that_is_no_string() {
    let entry = nested(
        "0",
        &[nested("tags", &[string("0", "a"), string("1", "b"), number("2", 9), string("3", "c")])],
    );
    let bytes = file(&[entry], &[]);
    let (entries, trailer) = decode(&bytes).unwrap();
    assert_eq!(entries[0].tags(), vec![b"a".to_vec(), b"b".to_vec()]);
    assert_eq!(encode(&entries, &trailer), bytes);
}

#[test]
fn an_empty_buffer_is_unclosed() {
    assert_eq!(decode(&[]), Err(malformed(0, Defect::Unclosed)));
}

#[test]
fn a_first_byte_that_is_no_tag_is_unknown() {
    assert_eq!(decode(b"\x07shortcuts\0\x08\x08"), Err(malformed(0, Defect::UnknownTag)));
}

#[test]
fn a_first_field_that_is_not_nested_is_unexpected() {
    assert_eq!(decode(b"\x01shortcuts\0\x08\x08"), Err(malformed(0, Defect::Unexpected)));
    assert_eq!(decode(b"\x02shortcuts\0\x08\x08"), Err(malformed(0, Defect::Unexpected)));
    assert_eq!(decode(b"\x08\x08"), Err(malformed(0, Defect::Unexpected)));
}

#[test]
fn a_container_key_without_end_is_truncated() {
    assert_eq!(decode(b"\0shortcuts"), Err(malformed(10, Defect::Truncated)));
    assert_eq!(decode(b"\0"), Err(malformed(1, Defect::Truncated)));
}

#[test]
fn another_container_key_is_unexpected() {
    assert_eq!(decode(b"\0shortcut\0\x08\x08"), Err(malformed(1, Defect::Unexpected)));
    assert_eq!(decode(b"\0Shortcuts\0\x08\x08"), Err(malformed(1, Defect::Unexpected)));
    assert_eq!(decode(b"\0\0\x08\x08"), Err(malformed(1, Defect::Unexpected)));
}

#[test]
fn a_container_that_is_never_closed_is_unclosed() {
    assert_eq!(decode(b"\0shortcuts\0"), Err(malformed(11, Defect::Unclosed)));
    let mut bytes = b"\0shortcuts\0".to_vec();
    bytes.extend_from_slice(&celeste("0"));
    let n = bytes.len();
    assert_eq!(decode(&bytes), Err(malformed(n, Defect::Unclosed)));
}

#[test]
fn a_missing_second_end_is_unclosed() {
    assert_eq!(decode(b"\0shortcuts\0\x08"), Err(malformed(12, Defect::Unclosed)));
}

#[test]
fn a_field_after_the_container_is_unexpected() {
    assert_eq!(decode(b"\0shortcuts\0\x08\x01a\0b\0\x08"), Err(malformed(12, Defect::Unexpected)));
    assert_eq!(decode(b"\0shortcuts\0\x08\x00more\0\x08\x08"), Err(malformed(12, Defect::Unexpected)));
}

#[test]
fn a_stray_byte_after_the_container_is_unknown() {
    assert_eq!(decode(b"\0shortcuts\0\x08\x09\x08"), Err(malformed(12, Defect::UnknownTag)));
}

#[test]
fn a_child_of_the_container_that_is_not_nested_is_unexpected() {
    assert_eq!(
        decode(b"\0shortcuts\0\x01AppName\0x\0\x08\x08"),
        Err(malformed(11, Defect::Unexpected))
    );
    assert_eq!(
        decode(b"\0shortcuts\0\x02n\0\x01\0\0\0\x08\x08"),
        Err(malformed(11, Defect::Unexpected))
    );
}

#[test]
fn an_unknown_tag_is_reported_where_it_stands() {
    assert_eq!(decode(b"\0shortcuts\0\x03\x08\x08"), Err(malformed(11, Defect::UnknownTag)));
    assert_eq!(
        decode(b"\0shortcuts\0\x000\0\x05key\0\x08\x08\x08"),
        Err(malformed(14, Defect::UnknownTag))
    );
    assert_eq!(
        decode(b"\0shortcuts\0\x000\0\0deep\0\x01a\0b\0\xff\x08\x08\x08\x08"),
        Err(malformed(25, Defect::UnknownTag))
    );
}

#[test]
fn a_string_without_end_is_truncated() {
    let bytes = b"\0shortcuts\0\x000\0\x01AppName\0Cel";
    assert_eq!(decode(bytes), Err(malformed(bytes.len(), Defect::Truncated)));
    let bytes = b"\0shortcuts\0\x000\0\x01AppNa";
    assert_eq!(decode(bytes), Err(malformed(bytes.len(), Defect::Truncated)));
    let bytes = b"\0shortcuts\0\x000";
    assert_eq!(decode(bytes), Err(malformed(bytes.len(), Defect::Truncated)));
}

#[test]
fn an_integer_of_fewer_than_four_bytes_is_truncated() {
    let bytes = b"\0shortcuts\0\x000\0\x02IsHidden\0\x01\0\0";
    assert_eq!(decode(bytes), Err(malformed(bytes.len(), Defect::Truncated)));
    let bytes = b"\0shortcuts\0\x000\0\x02IsHidden\0";
    assert_eq!(decode(bytes), Err(malformed(bytes.len(), Defect::Truncated)));
    let bytes = b"\0shortcuts\0\x000\0\0inner\0\x02n\0\x01\0";
    assert_eq!(decode(bytes), Err(malformed(bytes.len(), Defect::Truncated)));
}

#[test]
fn an_entry_that_is_never_closed_is_unclosed() {
    let bytes = b"\0shortcuts\0\x000\0\x01AppName\0A\0";
    assert_eq!(decode(bytes), Err(malformed(bytes.len(), Defect::Unclosed)));
    let bytes = b"\0shortcuts\0\x000\0\0tags\0\x010\0a\0";
    assert_eq!(decode(bytes), Err(malformed(bytes.len(), Defect::Unclosed)));
    let bytes = b"\0shortcuts\0\x000\0\0tags\0\x010\0a\0\x08";
    assert_eq!(decode(bytes), Err(malformed(bytes.len(), Defect::Unclosed)));
}

#[test]
fn four_bytes_of_an_integer_are_not_read_as_tags() {
    let bytes = file(&[nested("0", &[number("LastPlayTime", 0x0808_0808), number("x", 0)])], &[]);
    let (entries, trailer) = decode(&bytes).unwrap();
    assert_eq!(entries[0].last_play_time(), 0x0808_0808);
    assert_eq!(encode(&entries, &trailer), bytes);
}

#[test]
fn a_new_entry_holds_its_values() {
    let tags = vec![b"Installed".to_vec(), b"Favourite".to_vec()];
    let e = ShortcutEntry::new(
        3,
        b"Name",
        b"\"/opt/game/run\"",
        b"/opt/game",
        b"/opt/game/icon.png",
        b"/home/u/game.desktop",
        b"-fullscreen",
        true,
        false,
        true,
        false,
        true,
        b"kit",
        -5,
        77,
        b"org.game.App",
        &tags,
    );
    assert_eq!(e.index(), b"3");
    assert_eq!(e.app_name(), b"Name");
    assert_eq!(e.exe_path(), b"\"/opt/game/run\"");
    assert_eq!(e.start_dir(), b"/opt/game");
    assert_eq!(e.icon_path(), b"/opt/game/icon.png");
    assert_eq!(e.shortcut_path(), b"/home/u/game.desktop");
    assert_eq!(e.launch_options(), b"-fullscreen");
    assert!(e.is_hidden());
    assert!(!e.allow_desktop_config());
    assert!(e.allow_overlay());
    assert!(!e.open_vr());
    assert!(e.devkit());
    assert_eq!(e.devkit_game_id(), b"kit");
    assert_eq!(e.devkit_override_app_id(), -5);
    assert_eq!(e.last_play_time(), 77);
    assert_eq!(e.flatpak_app_id(), b"org.game.App");
    assert_eq!(e.tags(), tags);
}

#[test]
fn a_new_entry_is_laid_out_as_the_format_has_it() {
    let tags = vec![b"x".to_vec()];
    let e = ShortcutEntry::new(
        12, b"N", b"E", b"S", b"I", b"P", b"L", false, true, true, false, false, b"", 0, 9, b"",
        &tags,
    );
    let expected = nested(
        "12",
        &[
            string("AppName", "N"),
            string("Exe", "E"),
            string("StartDir", "S"),
            string("icon", "I"),
            string("ShortcutPath", "P"),
            string("LaunchOptions", "L"),
            number("IsHidden", 0),
            number("AllowDesktopConfig", 1),
            number("AllowOverlay", 1),
            number("OpenVR", 0),
            number("Devkit", 0),
            string("DevkitGameID", ""),
            number("DevkitOverrideAppID", 0),
            number("LastPlayTime", 9),
            string("FlatpakAppID", ""),
            nested("tags", &[string("0", "x")]),
        ],
    );
    let bytes = encode(&[e.clone()], &[]);
    assert_eq!(bytes, file(&[expected], &[]));
    let (entries, trailer) = decode(&bytes).unwrap();
    assert_eq!(entries, vec![e]);
    assert!(trailer.is_empty());
}

#[test]
fn ordinals_are_written_in_decimal() {
    for (n, digits) in [(0usize, "0"), (9, "9"), (10, "10"), (101, "101"), (65_535, "65535")] {
        let e = ShortcutEntry::new(
            n, b"", b"", b"", b"", b"", b"", false, false, false, false, false, b"", 0, 0, b"",
            &[],
        );
        assert_eq!(e.index(), digits.as_bytes());
    }
}

#[test]
fn eleven_tags_are_keyed_by_their_place() {
    let tags: Vec<Vec<u8>> = (0..11).map(|i| format!("tag{i}").into_bytes()).collect();
    let e = ShortcutEntry::new(
        0, b"", b"", b"", b"", b"", b"", false, false, false, false, false, b"", 0, 0, b"", &tags,
    );
    assert_eq!(e.tags(), tags);
    let bytes = encode(&[e], &[]);
    let needle = b"\x0110\0tag10\0";
    assert!(bytes.windows(needle.len()).any(|w| w == needle));
}

struct Dice(u64);

fn roll(dice: &mut Dice, below: u64) -> u64 {
    dice.0 = dice.0.wrapping_mul(6364136223846793005).wrapping_add(1442695040888963407);
    (dice.0 >> 33) % below
}

fn random_word(dice: &mut Dice) -> String {
    let n = roll(dice, 6);
    (0..n).map(|_| (b'A' + roll(dice, 50) as u8) as char).collect()
}

fn random_field(dice: &mut Dice, depth: u64) -> Vec<u8> {
    let names = ["AppName", "exe", "IsHidden", "tags", "appid", "LastPlayTime", "icon"];
    let key = if roll(dice, 2) == 0 {
        names[roll(dice, names.len() as u64) as usize].to_string()
    } else {
        random_word(dice)
    };
    match roll(dice, if depth < 3 { 3 } else { 2 }) {
        0 => string(&key, &random_word(dice)),
        1 => number(&key, roll(dice, u32::MAX as u64 + 1) as u32 as i32),
        _ => {
            let children: Vec<Vec<u8>> =
                (0..roll(dice, 4)).map(|_| random_field(dice, depth + 1)).collect();
            nested(&key, &children)
        }
    }
}

fn random_file(dice: &mut Dice) -> Vec<u8> {
    let entries: Vec<Vec<u8>> = (0..roll(dice, 5))
        .map(|i| {
            let fields: Vec<Vec<u8>> = (0..roll(dice, 8)).map(|_| random_field(dice, 0)).collect();
            nested(&i.to_string(), &fields)
        })
        .collect();
    let trailer: Vec<u8> = (0..roll(dice, 4)).map(|_| roll(dice, 256) as u8).collect();
    file(&entries, &trailer)
}

#[test]
fn generated_files_round_trip() {
    let mut dice = Dice(0x5eed);
    for _ in 0..500 {
        let bytes = random_file(&mut dice);
        let (entries, trailer) = decode(&bytes).unwrap();
        assert_eq!(encode(&entries, &trailer), bytes);
        let (again, trailer_again) = decode(&encode(&entries, &trailer)).unwrap();
        assert_eq!(again, entries);
        assert_eq!(trailer_again, trailer);
    }
}

#[test]
fn every_proper_prefix_of_a_file_without_trailer_is_malformed() {
    let mut dice = Dice(7);
    for _ in 0..20 {
        let bytes = file(&[celeste("0"), nested("1", &[random_field(&mut dice, 0)])], &[]);
        for cut in 0..bytes.len() {
            let flaw = decode(&bytes[..cut]).unwrap_err();
            assert_eq!(flaw.offset, cut);
            assert!(flaw.defect == Defect::Truncated || flaw.defect == Defect::Unclosed);
        }
    }
}

#[test]
fn damaged_files_are_decoded_or_rejected_within_their_bounds() {
    let mut dice = Dice(99);
    for _ in 0..300 {
        let mut bytes = random_file(&mut dice);
        let at = roll(&mut dice, bytes.len() as u64) as usize;
        bytes[at] = roll(&mut dice, 256) as u8;
        match decode(&bytes) {
            Ok((entries, trailer)) => assert_eq!(encode(&entries, &trailer), bytes),
            Err(flaw) => assert!(flaw.offset <= bytes.len()),
        }
    }
}

#[test]
fn only_the_decimal_form_of_a_number_spells_an_ordinal() {
    let keys: [(&str, Option<usize>); 12] = [
        ("0", Some(0)),
        ("7", Some(7)),
        ("10", Some(10)),
        ("4096", Some(4096)),
        ("", None),
        ("00", None),
        ("07", None),
        ("+7", None),
        ("7 ", None),
        ("seven", None),
        ("1a", None),
        ("99999999999999999999999999", None),
    ];
    for (key, ordinal) in keys {
        let (entries, _) = decode(&file(&[nested(key, &[])], &[])).unwrap();
        assert_eq!(entries[0].ordinal(), ordinal, "{key:?}");
    }
    let most = usize::MAX.to_string();
    let (entries, _) = decode(&file(&[nested(&most, &[])], &[])).unwrap();
    assert_eq!(entries[0].ordinal(), Some(usize::MAX));
}
