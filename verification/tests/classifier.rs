use logix::error::IoKind;
use logix::managed_file::{classify_mirrored, classify_virtual, FileStatus, ReadOutcome};

#[test]
fn identical_bytes_are_up_to_date() {
    let a = ReadOutcome::Data(b"same".to_vec());
    let b = ReadOutcome::Data(b"same".to_vec());
    assert_eq!(classify_mirrored(&a, &b), FileStatus::UpToDate);
}

#[test]
fn absent_on_both_is_missing_from_both() {
    assert_eq!(
        classify_mirrored(&ReadOutcome::Absent, &ReadOutcome::Absent),
        FileStatus::MissingFromBoth
    );
}

#[test]
fn present_only_on_one_side_names_that_side() {
    let d = ReadOutcome::Data(b"x".to_vec());
    assert_eq!(classify_mirrored(&d, &ReadOutcome::Absent), FileStatus::LocalAdded);
    let d2 = ReadOutcome::Data(b"x".to_vec());
    assert_eq!(classify_mirrored(&ReadOutcome::Absent, &d2), FileStatus::LogixAdded);
}

#[test]
fn differing_bytes_are_modified() {
    let a = ReadOutcome::Data(b"one".to_vec());
    let b = ReadOutcome::Data(b"two".to_vec());
    assert_eq!(classify_mirrored(&a, &b), FileStatus::Modified);
}

#[test]
fn read_failures_name_the_failing_side() {
    let bad = ReadOutcome::Failed(IoKind::PermissionDenied);
    let good = ReadOutcome::Data(b"x".to_vec());
    assert_eq!(
        classify_mirrored(&bad, &good),
        FileStatus::ErrorReadingLocal(IoKind::PermissionDenied)
    );
    let bad2 = ReadOutcome::Failed(IoKind::Other);
    let good2 = ReadOutcome::Data(b"x".to_vec());
    assert_eq!(
        classify_mirrored(&good2, &bad2),
        FileStatus::ErrorReadingLogix(IoKind::Other)
    );
    // the local side is checked first
    let b1 = ReadOutcome::Failed(IoKind::NotFound);
    let b2 = ReadOutcome::Failed(IoKind::Other);
    assert_eq!(
        classify_mirrored(&b1, &b2),
        FileStatus::ErrorReadingLocal(IoKind::NotFound)
    );
}

#[test]
fn virtual_files_compare_against_the_literal() {
    let expected = b"export HELLO=world".to_vec();
    assert_eq!(
        classify_virtual(&ReadOutcome::Absent, &expected),
        FileStatus::LogixAdded
    );
    let same = ReadOutcome::Data(b"export HELLO=world".to_vec());
    assert_eq!(classify_virtual(&same, &expected), FileStatus::UpToDate);
    let diff = ReadOutcome::Data(b"export HELLO=mars".to_vec());
    assert_eq!(classify_virtual(&diff, &expected), FileStatus::Modified);
    let bad = ReadOutcome::Failed(IoKind::NotFound);
    assert_eq!(
        classify_virtual(&bad, &expected),
        FileStatus::ErrorReadingLocal(IoKind::NotFound)
    );
}
