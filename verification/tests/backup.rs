use chicago_data_bot::backup::{backup_name, stale_backups, FileEntry, KEPT_BACKUPS};

fn file(name: &str) -> FileEntry {
    FileEntry { name: name.into(), is_file: true }
}

#[test]
fn backup_names_have_prefix_and_suffix() {
    assert!(backup_name("catalog-backup-2026-09-17T00-00-00Z.sqlite"));
    assert!(!backup_name("catalog-backup-2026.sqlite-journal"));
    assert!(!backup_name("other.sqlite"));
}

#[test]
fn only_the_seven_newest_backups_are_kept() {
    let mut entries: Vec<FileEntry> = (1..=9)
        .rev()
        .map(|d| file(&format!("catalog-backup-2026-09-{d:02}.sqlite")))
        .collect();
    entries.push(file("notes.txt"));
    entries.push(FileEntry { name: "catalog-backup-dir.sqlite".into(), is_file: false });
    let stale = stale_backups(&entries);
    assert_eq!(KEPT_BACKUPS, 7);
    assert_eq!(
        stale,
        vec!["catalog-backup-2026-09-01.sqlite".to_string(), "catalog-backup-2026-09-02.sqlite".to_string()]
    );
    assert!(stale_backups(&entries[..7].iter().map(|e| file(&e.name)).collect()).is_empty());
}
