use fedora_export::migrate::{
    checksum, migrate_content, migrate_file, should_migrate_content, should_migrate_file, FileStamp,
    MigrationAction, MigrationResult, MigrationResults,
};

fn stamp(length: u64, seconds: i64, checksum: u32) -> FileStamp {
    FileStamp { length, modified_seconds: seconds, modified_nanoseconds: 0, checksum }
}

#[test]
fn missing_destination_is_migrated() {
    assert!(should_migrate_file(&stamp(1, 1, 1), &None, false));
    assert!(should_migrate_file(&stamp(1, 1, 1), &None, true));
    assert!(should_migrate_content("abc", &None, false));
    assert!(should_migrate_content("abc", &None, true));
}

#[test]
fn default_mode_looks_at_length_and_time() {
    let source = stamp(10, 100, 7);
    assert!(!should_migrate_file(&source, &Some(stamp(10, 100, 8)), false));
    assert!(should_migrate_file(&source, &Some(stamp(11, 100, 7)), false));
    assert!(should_migrate_file(&source, &Some(stamp(10, 101, 7)), false));
    let mut later = stamp(10, 100, 7);
    later.modified_nanoseconds = 1;
    assert!(should_migrate_file(&source, &Some(later), false));
}

#[test]
fn checksum_mode_looks_at_the_checksum() {
    let source = stamp(10, 100, 7);
    assert!(!should_migrate_file(&source, &Some(stamp(11, 101, 7)), true));
    assert!(should_migrate_file(&source, &Some(stamp(10, 100, 8)), true));
}

#[test]
fn content_is_compared_by_length_or_checksum() {
    let there = Some(stamp(5, 0, checksum(b"hello")));
    assert!(!should_migrate_content("hello", &there, false));
    assert!(!should_migrate_content("hello", &there, true));
    assert!(!should_migrate_content("world", &there, false));
    assert!(should_migrate_content("world", &there, true));
    assert!(should_migrate_content("worlds", &there, false));
    // Length counts bytes, not characters.
    assert!(should_migrate_content("héllo", &there, false));
}

#[test]
fn checksums() {
    assert_eq!(checksum(b""), 0);
    assert_eq!(checksum(b"hello"), 907060870);
    assert_eq!(checksum(b"<dc/>"), 2405143153);
}

#[test]
fn actions_and_results() {
    let source = stamp(10, 100, 7);
    assert_eq!(migrate_file(&source, &None, true, false), (MigrationAction::Copy, MigrationResult::Migrated));
    assert_eq!(migrate_file(&source, &None, false, false), (MigrationAction::Move, MigrationResult::Migrated));
    assert_eq!(
        migrate_file(&source, &Some(stamp(9, 100, 7)), true, false),
        (MigrationAction::Copy, MigrationResult::Updated)
    );
    assert_eq!(
        migrate_file(&source, &Some(stamp(10, 100, 7)), true, false),
        (MigrationAction::Leave, MigrationResult::Skipped)
    );
    assert_eq!(migrate_content("abc", &None, false), (MigrationAction::Write, MigrationResult::Migrated));
    assert_eq!(
        migrate_content("abc", &Some(stamp(2, 0, 0)), false),
        (MigrationAction::Write, MigrationResult::Updated)
    );
    assert_eq!(
        migrate_content("abc", &Some(stamp(3, 0, 0)), false),
        (MigrationAction::Leave, MigrationResult::Skipped)
    );
}

#[test]
fn second_run_skips_everything() {
    let sources = vec![stamp(10, 100, 7), stamp(20, 200, 8), stamp(0, 0, 0)];
    for by_checksum in [false, true] {
        let mut first = Vec::new();
        let mut second = Vec::new();
        for source in &sources {
            let (_, result) = migrate_file(source, &None, true, by_checksum);
            first.push(result);
            // The copy carries length, time and content of the source.
            let (action, result) = migrate_file(source, &Some(*source), true, by_checksum);
            assert_eq!(action, MigrationAction::Leave);
            second.push(result);
        }
        let first = MigrationResults::new(&first);
        assert_eq!(first.migrated, first.total);
        let second = MigrationResults::new(&second);
        assert_eq!(second.skipped, second.total);
        assert_eq!(second.total, 3);
    }
}

#[test]
fn checksum_mode_after_default_mode() {
    let source = stamp(10, 100, 7);
    for there in [None, Some(stamp(10, 100, 9)), Some(stamp(3, 4, 7)), Some(stamp(10, 100, 7))] {
        let after_default = if should_migrate_file(&source, &there, false) { source } else { there.unwrap() };
        let both = if should_migrate_file(&source, &Some(after_default), true) { source } else { after_default };
        let alone = if should_migrate_file(&source, &there, true) { source } else { there.unwrap() };
        assert_eq!(both.checksum, alone.checksum);
        assert_eq!(alone.checksum, source.checksum);
    }
}

#[test]
fn tally() {
    let results = MigrationResults::new(&[
        MigrationResult::Migrated,
        MigrationResult::Skipped,
        MigrationResult::Updated,
        MigrationResult::Skipped,
    ]);
    assert_eq!(results, MigrationResults { total: 4, migrated: 1, updated: 1, skipped: 2 });
    assert_eq!(results.to_string(), "Total: 4 (Migrated: 1, Updated: 1, Skipped: 2)");
    assert_eq!(MigrationResults::new(&[]), MigrationResults::default());
}
