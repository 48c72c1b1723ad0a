use vstd::prelude::*;
use vstd::string::StrSliceExecFns;

use crate::based_path::{bytes_eq, BasedPath};
use crate::config::string_bytes;
use crate::error::IoKind;
use crate::fsio::{path_exists, read_rel_file};

verus! {

/// Provenance of a tracked file: which subsystem declared it. Used
/// for grouping and reporting only, never for classification.
#[derive(Debug, Clone, PartialEq, Eq)]
pub enum Owner {
    Ssh,
    Shell,
    Package(String),
}

/// The status of one tracked file, a pure function of the bytes on
/// both sides.
#[derive(Debug, Clone, Copy, PartialEq, Eq, Structural)]
pub enum FileStatus {
    UpToDate,
    MissingFromBoth,
    LocalAdded,
    LogixAdded,
    Modified,
    ErrorReadingLocal(IoKind),
    ErrorReadingLogix(IoKind),
}

/// What one side of a tracked file looks like on disk: absent, its
/// bytes, or present but unreadable.
#[derive(Debug, Clone, PartialEq, Eq)]
pub enum ReadOutcome {
    Absent,
    Data(Vec<u8>),
    Failed(IoKind),
}

/// The classification of a mirrored file from the two sides' states:
/// absent on both is missing from both; present on one side only names
/// that side; a read failure names the failing side, the local one
/// first; otherwise byte equality decides up-to-date against modified.
pub open spec fn spec_classify_mirrored(local: ReadOutcome, logix: ReadOutcome) -> FileStatus {
    match (local, logix) {
        (ReadOutcome::Absent, ReadOutcome::Absent) => FileStatus::MissingFromBoth,
        (ReadOutcome::Absent, _) => FileStatus::LogixAdded,
        (_, ReadOutcome::Absent) => FileStatus::LocalAdded,
        (ReadOutcome::Failed(k), _) => FileStatus::ErrorReadingLocal(k),
        (ReadOutcome::Data(_), ReadOutcome::Failed(k)) => FileStatus::ErrorReadingLogix(k),
        (ReadOutcome::Data(a), ReadOutcome::Data(b)) => if a@ == b@ {
            FileStatus::UpToDate
        } else {
            FileStatus::Modified
        },
    }
}

/// The classification of a virtual file, whose expected content is a
/// literal: an absent local file would be added by the mirror; a read
/// failure is reported; otherwise byte equality with the expected
/// content decides.
pub open spec fn spec_classify_virtual(local: ReadOutcome, expected: Seq<u8>) -> FileStatus {
    match local {
        ReadOutcome::Absent => FileStatus::LogixAdded,
        ReadOutcome::Failed(k) => FileStatus::ErrorReadingLocal(k),
        ReadOutcome::Data(a) => if a@ == expected {
            FileStatus::UpToDate
        } else {
            FileStatus::Modified
        },
    }
}

/// Classify a mirrored file from the two observed sides.
pub fn classify_mirrored(local: &ReadOutcome, logix: &ReadOutcome) -> (r: FileStatus)
    ensures
        r == spec_classify_mirrored(*local, *logix),
{
    match local {
        ReadOutcome::Absent => match logix {
            ReadOutcome::Absent => FileStatus::MissingFromBoth,
            _ => FileStatus::LogixAdded,
        },
        ReadOutcome::Failed(k) => match logix {
            ReadOutcome::Absent => FileStatus::LocalAdded,
            _ => FileStatus::ErrorReadingLocal(*k),
        },
        ReadOutcome::Data(a) => match logix {
            ReadOutcome::Absent => FileStatus::LocalAdded,
            ReadOutcome::Failed(k) => FileStatus::ErrorReadingLogix(*k),
            ReadOutcome::Data(b) => {
                if bytes_eq(a, b) {
                    FileStatus::UpToDate
                } else {
                    FileStatus::Modified
                }
            },
        },
    }
}

/// Classify a virtual file from the observed local side and the
/// expected bytes.
pub fn classify_virtual(local: &ReadOutcome, expected: &Vec<u8>) -> (r: FileStatus)
    ensures
        r == spec_classify_virtual(*local, expected@),
{
    match local {
        ReadOutcome::Absent => FileStatus::LogixAdded,
        ReadOutcome::Failed(k) => FileStatus::ErrorReadingLocal(*k),
        ReadOutcome::Data(a) => {
            if bytes_eq(a, expected) {
                FileStatus::UpToDate
            } else {
                FileStatus::Modified
            }
        },
    }
}

/// A file tracked in two places: its location on the real file system
/// and the mirrored copy.
#[derive(Debug, Clone, PartialEq, Eq)]
pub struct LocalFile {
    pub local: BasedPath,
    pub logix: BasedPath,
}

impl LocalFile {
    /// Read both sides and classify. Existence is checked first on
    /// each side; bytes are read only when both sides exist, the
    /// local side first, and a read failure skips the other read.
    /// The result is the classification of the two states the file
    /// system reported; what those states are, only the disk decides.
    pub fn calculate_status(&self) -> (r: FileStatus)
        ensures
            exists|lo: ReadOutcome, go: ReadOutcome| r == spec_classify_mirrored(lo, go),
    {
        let lp = self.local.as_path();
        let gp = self.logix.as_path();
        if path_exists(&lp) {
            if path_exists(&gp) {
                let a = match read_rel_file(&self.local.as_base_path(), &self.local.rel_path()) {
                    Ok(a) => a,
                    Err(e) => {
                        proof {
                            let lo = ReadOutcome::Failed(e);
                            let go = ReadOutcome::Failed(e);
                            assert(FileStatus::ErrorReadingLocal(e) == spec_classify_mirrored(
                                lo,
                                go,
                            ));
                        }
                        return FileStatus::ErrorReadingLocal(e);
                    },
                };
                let b = match read_rel_file(&self.logix.as_base_path(), &self.logix.rel_path()) {
                    Ok(b) => b,
                    Err(e) => {
                        let ghost lo = ReadOutcome::Data(a);
                        proof {
                            let go = ReadOutcome::Failed(e);
                            assert(FileStatus::ErrorReadingLogix(e) == spec_classify_mirrored(
                                lo,
                                go,
                            ));
                        }
                        return FileStatus::ErrorReadingLogix(e);
                    },
                };
                classify_mirrored(&ReadOutcome::Data(a), &ReadOutcome::Data(b))
            } else {
                proof {
                    assert(FileStatus::LocalAdded == spec_classify_mirrored(
                        ReadOutcome::Failed(crate::error::IoKind::Other),
                        ReadOutcome::Absent,
                    ));
                }
                FileStatus::LocalAdded
            }
        } else if path_exists(&gp) {
            proof {
                assert(FileStatus::LogixAdded == spec_classify_mirrored(
                    ReadOutcome::Absent,
                    ReadOutcome::Failed(crate::error::IoKind::Other),
                ));
            }
            FileStatus::LogixAdded
        } else {
            proof {
                assert(FileStatus::MissingFromBoth == spec_classify_mirrored(
                    ReadOutcome::Absent,
                    ReadOutcome::Absent,
                ));
            }
            FileStatus::MissingFromBoth
        }
    }
}

/// A file tracked against a literal expected content instead of a
/// mirrored copy.
#[derive(Debug, Clone, PartialEq, Eq)]
pub struct VirtualFile {
    pub local: BasedPath,
    pub content: String,
}

impl VirtualFile {
    /// Read the local side and classify against the expected content.
    /// The result is the classification of the state the file system
    /// reported against this file's expected bytes; what that state
    /// is, only the disk decides.
    pub fn calculate_status(&self) -> (r: FileStatus)
        ensures
            exists|lo: ReadOutcome| r == spec_classify_virtual(lo, string_bytes(self.content)),
    {
        let lp = self.local.as_path();
        if path_exists(&lp) {
            let outcome = match read_rel_file(&self.local.as_base_path(), &self.local.rel_path()) {
                Ok(a) => ReadOutcome::Data(a),
                Err(e) => ReadOutcome::Failed(e),
            };
            let expected = self.content.as_str().as_bytes_vec();
            let r = classify_virtual(&outcome, &expected);
            proof {
                assert(r == spec_classify_virtual(outcome, string_bytes(self.content)));
            }
            r
        } else {
            proof {
                assert(FileStatus::LogixAdded == spec_classify_virtual(
                    ReadOutcome::Absent,
                    string_bytes(self.content),
                ));
            }
            FileStatus::LogixAdded
        }
    }

    /// The expected bytes of this virtual file.
    pub fn expected_bytes(&self) -> (r: Vec<u8>)
        ensures
            r@ == string_bytes(self.content),
    {
        self.content.as_str().as_bytes_vec()
    }
}

/// One unit of reconciliation: a mirrored file or a virtual one, with
/// its owner.
#[derive(Debug, Clone, PartialEq, Eq)]
pub enum ManagedFile {
    Local(Owner, LocalFile),
    Virtual(Owner, VirtualFile),
}

impl ManagedFile {
    /// Classify this tracked file from the current file system state:
    /// a mirrored file against its mirror, a virtual file against its
    /// expected bytes.
    pub fn calculate_status(&self) -> (r: FileStatus)
        ensures
            (match *self {
                ManagedFile::Local(_, _) => exists|lo: ReadOutcome, go: ReadOutcome|
                    r == spec_classify_mirrored(lo, go),
                ManagedFile::Virtual(_, f) => exists|lo: ReadOutcome|
                    r == spec_classify_virtual(lo, string_bytes(f.content)),
            }),
    {
        match self {
            ManagedFile::Local(_, file) => file.calculate_status(),
            ManagedFile::Virtual(_, file) => file.calculate_status(),
        }
    }

    /// The path on the real side, which every tracked file has.
    pub fn local_path(&self) -> (r: Option<&BasedPath>)
        ensures
            r is Some,
            *r.unwrap() == (match *self {
                ManagedFile::Local(_, f) => f.local,
                ManagedFile::Virtual(_, f) => f.local,
            }),
    {
        match self {
            ManagedFile::Local(_, file) => Some(&file.local),
            ManagedFile::Virtual(_, file) => Some(&file.local),
        }
    }

    /// The mirrored path, absent for virtual files.
    pub fn logix_path(&self) -> (r: Option<&BasedPath>)
        ensures
            (r is Some <==> self is Local),
            r is Some ==> *r.unwrap() == (match *self {
                ManagedFile::Local(_, f) => f.logix,
                ManagedFile::Virtual(_, f) => f.local,
            }),
    {
        match self {
            ManagedFile::Local(_, file) => Some(&file.logix),
            ManagedFile::Virtual(_, _) => None,
        }
    }

    /// The owner tag of this tracked file.
    pub fn owner(&self) -> (r: &Owner)
        ensures
            *r == (match *self {
                ManagedFile::Local(o, _) => o,
                ManagedFile::Virtual(o, _) => o,
            }),
    {
        match self {
            ManagedFile::Local(owner, _) => owner,
            ManagedFile::Virtual(owner, _) => owner,
        }
    }
}

} // verus!
