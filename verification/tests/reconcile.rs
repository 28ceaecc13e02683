use shortcut_prune::{decode, encode, find_targets, reconcile, reconcile_with, ShortcutEntry};
use std::cell::RefCell;

fn entry(index: usize, name: &str, exe: &str, hidden: bool) -> ShortcutEntry {
    ShortcutEntry::new(
        index,
        name.as_bytes(),
        exe.as_bytes(),
        b"",
        b"",
        b"",
        b"",
        hidden,
        true,
        true,
        false,
        false,
        b"",
        0,
        0,
        b"",
        &[],
    )
}

fn on_disk(paths: &[&str]) -> impl Fn(&[u8]) -> bool {
    let paths: Vec<Vec<u8>> = paths.iter().map(|p| p.as_bytes().to_vec()).collect();
    move |path: &[u8]| paths.iter().any(|p| p == path)
}

#[test]
fn an_entry_whose_target_is_gone_is_dropped() {
    let entries = vec![entry(0, "A", "/bin/a", false), entry(1, "B", "/bin/b", false)];
    let (survivors, changed) = reconcile(entries, on_disk(&["/bin/a"]));
    assert!(changed);
    assert_eq!(survivors, vec![entry(0, "A", "/bin/a", false)]);
}

#[test]
fn nothing_changes_when_every_target_exists() {
    let entries = vec![entry(0, "A", "/bin/a", false), entry(1, "B", "/bin/b", false)];
    let before = encode(&entries, &[]);
    let (survivors, changed) = reconcile(entries.clone(), on_disk(&["/bin/a", "/bin/b"]));
    assert!(!changed);
    assert_eq!(survivors, entries);
    assert_eq!(encode(&survivors, &[]), before);
}

#[test]
fn reconciling_again_changes_nothing() {
    let entries = vec![
        entry(0, "A", "/bin/a", false),
        entry(1, "B", "/bin/b", false),
        entry(2, "C", "/bin/c", true),
        entry(3, "D", "/bin/d", false),
    ];
    let disk = on_disk(&["/bin/a", "/bin/d"]);
    let (once, changed) = reconcile(entries, &disk);
    assert!(changed);
    let bytes = encode(&once, &[]);
    let (twice, changed_again) = reconcile(once.clone(), &disk);
    assert!(!changed_again);
    assert_eq!(twice, once);
    assert_eq!(encode(&twice, &[]), bytes);
}

#[test]
fn a_hidden_entry_stays_whatever_exists() {
    let entries = vec![entry(0, "C", "/gone", true)];
    let (survivors, changed) = reconcile(entries.clone(), |_: &[u8]| false);
    assert!(!changed);
    assert_eq!(survivors, entries);
    let (survivors, changed) = reconcile(entries.clone(), |_: &[u8]| true);
    assert!(!changed);
    assert_eq!(survivors, entries);
}

#[test]
fn a_hidden_entry_is_not_asked_for() {
    let asked: RefCell<Vec<Vec<u8>>> = RefCell::new(Vec::new());
    let entries = vec![entry(0, "H", "/hidden", true), entry(1, "S", "/shown", false)];
    let (survivors, changed) = reconcile(entries, |path: &[u8]| {
        asked.borrow_mut().push(path.to_vec());
        true
    });
    assert!(!changed);
    assert_eq!(survivors.len(), 2);
    assert_eq!(*asked.borrow(), vec![b"/shown".to_vec()]);
}

#[test]
fn quotes_are_taken_off_for_the_check_and_kept_in_the_file() {
    let quoted = "\"C:\\games\\a.exe\"";
    let asked: RefCell<Vec<Vec<u8>>> = RefCell::new(Vec::new());
    let entries = vec![entry(0, "A", quoted, false)];
    let (survivors, changed) = reconcile(entries, |path: &[u8]| {
        asked.borrow_mut().push(path.to_vec());
        path == b"C:\\games\\a.exe"
    });
    assert!(!changed);
    assert_eq!(*asked.borrow(), vec![b"C:\\games\\a.exe".to_vec()]);
    assert_eq!(survivors[0].exe_path(), quoted.as_bytes());
    let bytes = encode(&survivors, &[]);
    let needle = b"\x01Exe\0\"C:\\games\\a.exe\"\0";
    assert!(bytes.windows(needle.len()).any(|w| w == needle));
}

#[test]
fn only_one_pair_of_quotes_is_taken_off() {
    let asked: RefCell<Vec<Vec<u8>>> = RefCell::new(Vec::new());
    let entries = vec![
        entry(0, "A", "\"\"/a\"\"", false),
        entry(1, "B", "\"/b", false),
        entry(2, "C", "/c\"", false),
        entry(3, "D", "\"", false),
        entry(4, "E", "", false),
    ];
    reconcile(entries, |path: &[u8]| {
        asked.borrow_mut().push(path.to_vec());
        true
    });
    assert_eq!(
        *asked.borrow(),
        vec![b"\"/a\"".to_vec(), b"/b".to_vec(), b"/c".to_vec(), b"".to_vec(), b"".to_vec()]
    );
}

#[test]
fn survivors_are_keyed_anew_in_their_order() {
    let entries = vec![
        entry(0, "zero", "/0", false),
        entry(1, "one", "/1", false),
        entry(2, "two", "/2", false),
    ];
    let (survivors, changed) = reconcile(entries, on_disk(&["/0", "/2"]));
    assert!(changed);
    assert_eq!(survivors.len(), 2);
    assert_eq!(survivors[0].index(), b"0");
    assert_eq!(survivors[0].app_name(), b"zero");
    assert_eq!(survivors[1].index(), b"1");
    assert_eq!(survivors[1].app_name(), b"two");
    assert_eq!(survivors, vec![entry(0, "zero", "/0", false), entry(1, "two", "/2", false)]);
}

#[test]
fn the_eleventh_survivor_gets_a_key_of_two_digits() {
    let mut entries = vec![entry(0, "gone", "/gone", false)];
    for i in 1..=11 {
        entries.push(entry(i, "kept", "/kept", false));
    }
    let (survivors, changed) = reconcile(entries, on_disk(&["/kept"]));
    assert!(changed);
    assert_eq!(survivors.len(), 11);
    assert_eq!(survivors[9].index(), b"9");
    assert_eq!(survivors[10].index(), b"10");
}

#[test]
fn every_entry_can_be_dropped() {
    let entries = vec![entry(0, "A", "/a", false), entry(1, "B", "/b", false)];
    let (survivors, changed) = reconcile(entries, |_: &[u8]| false);
    assert!(changed);
    assert!(survivors.is_empty());
    assert_eq!(encode(&survivors, &[]), b"\0shortcuts\0\x08\x08".to_vec());
}

#[test]
fn an_empty_list_is_unchanged() {
    let (survivors, changed) = reconcile(Vec::new(), |_: &[u8]| false);
    assert!(!changed);
    assert!(survivors.is_empty());
}

#[test]
fn answers_given_beforehand_decide_as_the_predicate_would() {
    let entries = vec![
        entry(0, "A", "/a", false),
        entry(1, "B", "/b", true),
        entry(2, "C", "/c", false),
    ];
    let (survivors, changed) = reconcile_with(entries.clone(), &[false, false, true]);
    assert!(changed);
    assert_eq!(survivors, vec![entry(0, "B", "/b", true), entry(1, "C", "/c", false)]);
    let (survivors, changed) = reconcile_with(entries.clone(), &[true, false, true]);
    assert!(!changed);
    assert_eq!(survivors, entries);
}

#[test]
fn a_missing_answer_counts_as_a_missing_target() {
    let entries = vec![entry(0, "A", "/a", false), entry(1, "B", "/b", false)];
    let (survivors, changed) = reconcile_with(entries, &[true]);
    assert!(changed);
    assert_eq!(survivors, vec![entry(0, "A", "/a", false)]);
}

#[test]
fn targets_are_looked_up_in_order() {
    let entries = vec![
        entry(0, "A", "\"/a\"", false),
        entry(1, "B", "/b", true),
        entry(2, "C", "/c", false),
    ];
    let found = find_targets(&entries, &on_disk(&["/a"]));
    assert_eq!(found, vec![true, true, false]);
}

#[test]
fn keys_that_were_no_ordinals_become_ordinals() {
    let mut bytes = b"\0shortcuts\0".to_vec();
    bytes.extend_from_slice(b"\x005\0\x01Exe\0/a\0\x08");
    bytes.extend_from_slice(b"\x00nine\0\x01Exe\0/b\0\x08");
    bytes.extend_from_slice(b"\x08\x08");
    let (entries, trailer) = decode(&bytes).unwrap();
    let (survivors, changed) = reconcile(entries, |_: &[u8]| true);
    assert!(!changed);
    assert_eq!(survivors[0].index(), b"0");
    assert_eq!(survivors[1].index(), b"1");
    let mut expected = b"\0shortcuts\0".to_vec();
    expected.extend_from_slice(b"\x000\0\x01Exe\0/a\0\x08");
    expected.extend_from_slice(b"\x001\0\x01Exe\0/b\0\x08");
    expected.extend_from_slice(b"\x08\x08");
    assert_eq!(encode(&survivors, &trailer), expected);
}

#[test]
fn an_unknown_field_of_a_survivor_is_written_as_it_was_read() {
    let first = b"\x000\0\x01Exe\0/gone\0\x08".to_vec();
    let fields =
        b"\x02appid\0\x10\x20\x30\x40\x01Exe\0/kept\0\x00Extra\0\x01k\0v\0\x00in\0\x08\x08\x01LastWord\0!\0"
            .to_vec();
    let mut bytes = b"\0shortcuts\0".to_vec();
    bytes.extend_from_slice(&first);
    bytes.extend_from_slice(b"\x001\0");
    bytes.extend_from_slice(&fields);
    bytes.extend_from_slice(b"\x08\x08\x08tail");
    let (entries, trailer) = decode(&bytes).unwrap();
    assert_eq!(trailer, b"tail".to_vec());
    let (survivors, changed) = reconcile(entries, on_disk(&["/kept"]));
    assert!(changed);
    let mut expected = b"\0shortcuts\0\x000\0".to_vec();
    expected.extend_from_slice(&fields);
    expected.extend_from_slice(b"\x08\x08\x08tail");
    assert_eq!(encode(&survivors, &trailer), expected);
}

#[test]
fn end_to_end_one_of_two_entries_is_dropped() {
    let a = entry(0, "A", "/exists", false);
    let b = entry(1, "B", "/missing", false);
    let input = encode(&[a.clone(), b], &[]);
    let (entries, trailer) = decode(&input).unwrap();
    let (survivors, changed) = reconcile(entries, on_disk(&["/exists"]));
    assert!(changed);
    assert_eq!(survivors.len(), 1);
    assert_eq!(survivors[0].index(), b"0");
    assert_eq!(survivors[0].app_name(), b"A");
    let output = encode(&survivors, &trailer);
    let (again, trailer_again) = decode(&output).unwrap();
    assert_eq!(again, vec![a]);
    assert!(trailer_again.is_empty());
}

#[test]
fn end_to_end_a_hidden_entry_with_a_missing_target_stays() {
    let c = entry(0, "C", "/missing", true);
    let input = encode(&[c.clone()], &[]);
    let (entries, _) = decode(&input).unwrap();
    let (survivors, changed) = reconcile(entries, |_: &[u8]| false);
    assert!(!changed);
    assert_eq!(survivors, vec![c]);
}

#[test]
fn the_key_of_a_survivor_spells_its_place() {
    let entries = vec![
        entry(0, "zero", "/0", false),
        entry(1, "one", "/1", false),
        entry(2, "two", "/2", false),
    ];
    assert_eq!(entries[2].ordinal(), Some(2));
    let (survivors, _) = reconcile(entries, on_disk(&["/0", "/2"]));
    assert_eq!(survivors[0].ordinal(), Some(0));
    assert_eq!(survivors[1].ordinal(), Some(1));
}
