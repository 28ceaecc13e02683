use shortcut_prune::{
    advance, begin, decode, encode, reconcile, reject, Action, Defect, MalformedInput,
    ShortcutEntry, Stage, Verdict,
};
use std::cell::RefCell;
use std::collections::BTreeMap;

struct Disk {
    files: RefCell<BTreeMap<String, Vec<u8>>>,
    log: RefCell<Vec<String>>,
    backup_fails: bool,
    write_fails: bool,
}

fn disk_with(path: &str, content: Vec<u8>, backup_fails: bool, write_fails: bool) -> Disk {
    let mut files = BTreeMap::new();
    files.insert(path.to_string(), content);
    Disk {
        files: RefCell::new(files),
        log: RefCell::new(Vec::new()),
        backup_fails,
        write_fails,
    }
}

fn run(disk: &Disk, path: &str, present: &[&str]) -> Verdict {
    let bytes = disk.files.borrow().get(path).cloned().unwrap();
    let (entries, trailer) = match decode(&bytes) {
        Ok(decoded) => decoded,
        Err(flaw) => {
            return match reject(flaw).1 {
                Action::Stop(verdict) => verdict,
                _ => unreachable!(),
            }
        }
    };
    let (survivors, changed) =
        reconcile(entries, |p: &[u8]| present.iter().any(|q| q.as_bytes() == p));
    let (mut stage, mut action) = begin(changed);
    loop {
        match action {
            Action::Backup => {
                disk.log.borrow_mut().push("backup".to_string());
                let ok = !disk.backup_fails;
                if ok {
                    let content = disk.files.borrow().get(path).cloned().unwrap();
                    disk.files.borrow_mut().insert(format!("{path}.bak"), content);
                }
                (stage, action) = advance(stage, ok);
            }
            Action::Write => {
                disk.log.borrow_mut().push("write".to_string());
                let ok = !disk.write_fails;
                if ok {
                    let encoded = encode(&survivors, &trailer);
                    disk.files.borrow_mut().insert(path.to_string(), encoded);
                }
                (stage, action) = advance(stage, ok);
            }
            Action::Stop(verdict) => {
                assert_eq!(stage, Stage::Closed(verdict));
                return verdict;
            }
        }
    }
}

fn shortcut(index: usize, exe: &str, hidden: bool) -> ShortcutEntry {
    ShortcutEntry::new(
        index,
        b"game",
        exe.as_bytes(),
        b"",
        b"",
        b"",
        b"",
        hidden,
        true,
        true,
        false,
        false,
        b"",
        0,
        0,
        b"",
        &[],
    )
}

fn two_shortcuts() -> Vec<u8> {
    encode(&[shortcut(0, "/a", false), shortcut(1, "/b", false)], b"")
}

#[test]
fn an_unchanged_file_is_neither_copied_nor_written() {
    assert_eq!(
        begin(false),
        (Stage::Closed(Verdict::Unchanged), Action::Stop(Verdict::Unchanged))
    );
    let disk = disk_with("s.vdf", two_shortcuts(), false, false);
    assert_eq!(run(&disk, "s.vdf", &["/a", "/b"]), Verdict::Unchanged);
    assert!(disk.log.borrow().is_empty());
    assert_eq!(disk.files.borrow().len(), 1);
    assert_eq!(disk.files.borrow()["s.vdf"], two_shortcuts());
}

#[test]
fn a_changed_file_is_backed_up_and_then_written() {
    let disk = disk_with("s.vdf", two_shortcuts(), false, false);
    assert_eq!(run(&disk, "s.vdf", &["/b"]), Verdict::Rewritten);
    assert_eq!(*disk.log.borrow(), vec!["backup".to_string(), "write".to_string()]);
    assert_eq!(disk.files.borrow()["s.vdf.bak"], two_shortcuts());
    assert_eq!(disk.files.borrow()["s.vdf"], encode(&[shortcut(0, "/b", false)], b""));
}

#[test]
fn a_failed_backup_leaves_the_file_untouched() {
    let disk = disk_with("s.vdf", two_shortcuts(), true, false);
    assert_eq!(run(&disk, "s.vdf", &["/b"]), Verdict::BackupFailed);
    assert_eq!(*disk.log.borrow(), vec!["backup".to_string()]);
    assert_eq!(disk.files.borrow().len(), 1);
    assert_eq!(disk.files.borrow()["s.vdf"], two_shortcuts());
}

#[test]
fn a_failed_write_is_told_and_the_backup_stays() {
    let disk = disk_with("s.vdf", two_shortcuts(), false, true);
    assert_eq!(run(&disk, "s.vdf", &["/b"]), Verdict::WriteFailed);
    assert_eq!(*disk.log.borrow(), vec!["backup".to_string(), "write".to_string()]);
    assert_eq!(disk.files.borrow()["s.vdf.bak"], two_shortcuts());
}

#[test]
fn a_malformed_file_is_skipped() {
    let mut broken = two_shortcuts();
    broken.truncate(broken.len() - 1);
    let end = broken.len();
    let disk = disk_with("s.vdf", broken.clone(), false, false);
    assert_eq!(
        run(&disk, "s.vdf", &[]),
        Verdict::MalformedInput(MalformedInput { offset: end, defect: Defect::Unclosed })
    );
    assert!(disk.log.borrow().is_empty());
    assert_eq!(disk.files.borrow()["s.vdf"], broken);
}

#[test]
fn a_hidden_entry_alone_causes_no_backup_and_no_write() {
    let content = encode(&[shortcut(0, "/missing", true)], b"");
    let disk = disk_with("s.vdf", content.clone(), false, false);
    assert_eq!(run(&disk, "s.vdf", &[]), Verdict::Unchanged);
    assert!(disk.log.borrow().is_empty());
    assert_eq!(disk.files.borrow()["s.vdf"], content);
}

#[test]
fn every_step_of_the_order_is_as_told() {
    assert_eq!(begin(true), (Stage::BackingUp, Action::Backup));
    assert_eq!(advance(Stage::BackingUp, true), (Stage::Writing, Action::Write));
    assert_eq!(
        advance(Stage::BackingUp, false),
        (Stage::Closed(Verdict::BackupFailed), Action::Stop(Verdict::BackupFailed))
    );
    assert_eq!(
        advance(Stage::Writing, true),
        (Stage::Closed(Verdict::Rewritten), Action::Stop(Verdict::Rewritten))
    );
    assert_eq!(
        advance(Stage::Writing, false),
        (Stage::Closed(Verdict::WriteFailed), Action::Stop(Verdict::WriteFailed))
    );
}

#[test]
fn work_that_has_ended_stays_ended() {
    for verdict in [
        Verdict::Unchanged,
        Verdict::Rewritten,
        Verdict::BackupFailed,
        Verdict::WriteFailed,
        Verdict::MalformedInput(MalformedInput { offset: 3, defect: Defect::UnknownTag }),
    ] {
        for report in [true, false] {
            assert_eq!(
                advance(Stage::Closed(verdict), report),
                (Stage::Closed(verdict), Action::Stop(verdict))
            );
        }
    }
}

#[test]
fn failures_are_told_from_good_ends() {
    assert!(!Verdict::Unchanged.is_failure());
    assert!(!Verdict::Rewritten.is_failure());
    assert!(Verdict::BackupFailed.is_failure());
    assert!(Verdict::WriteFailed.is_failure());
    assert!(Verdict::MalformedInput(MalformedInput { offset: 0, defect: Defect::Truncated })
        .is_failure());
}

#[test]
fn files_of_several_users_are_handled_each_on_its_own() {
    let good = disk_with("1/s.vdf", two_shortcuts(), false, false);
    let bad = disk_with("2/s.vdf", b"\0shortcuts\0\x09".to_vec(), false, false);
    let verdicts = vec![run(&bad, "2/s.vdf", &[]), run(&good, "1/s.vdf", &["/a"])];
    assert_eq!(
        verdicts,
        vec![
            Verdict::MalformedInput(MalformedInput { offset: 11, defect: Defect::UnknownTag }),
            Verdict::Rewritten,
        ]
    );
}
