use vstd::prelude::*;

use logix_vfs::Error::{AccessDenied, NotADirectory, NotFound, Other, PathOutsideBounds};
use logix_vfs::LogixVfs;
use std::io::Read;

use logix_vfs as lv;

use crate::error::IoKind;

verus! {

/// Relies on `std::path::Path::exists`: whether the path names an
/// entity on disk right now. What is on disk may change between two
/// calls, so nothing is promised of the result.
#[verifier::external_body]
pub(crate) fn path_exists(p: &Vec<u8>) -> bool {
    let s = String::from_utf8_lossy(p.as_slice()).into_owned();
    std::path::Path::new(&s).exists()
}

/// Relies on `logix_vfs::RelFs::new` and `RelFs::open_file` to open
/// `rel` under the root `base`, and on `std::io::Read::read_to_end`
/// for the bytes. Each variant of `logix_vfs::Error` is reduced, one
/// arm each, to the matching member of the closed [`IoKind`] set; a
/// failure of the read itself is reduced to `IoKind::Other`. The
/// result depends on what is on disk, so nothing is promised of it.
#[verifier::external_body]
pub(crate) fn read_rel_file(base: &Vec<u8>, rel: &Vec<u8>) -> Result<Vec<u8>, IoKind> {
    let b = String::from_utf8_lossy(base.as_slice()).into_owned();
    let r = String::from_utf8_lossy(rel.as_slice()).into_owned();
    let mut file = match lv::RelFs::new(&b).open_file(r.as_ref()) {
        Ok(f) => f,
        Err(NotFound { .. }) => return Err(IoKind::NotFound),
        Err(AccessDenied { .. }) => return Err(IoKind::PermissionDenied),
        Err(PathOutsideBounds { .. }) => return Err(IoKind::OutsideBounds),
        Err(NotADirectory { .. }) => return Err(IoKind::NotADirectory),
        Err(Other(_)) => return Err(IoKind::Other),
    };
    let mut data = Vec::new();
    if file.read_to_end(&mut data).is_err() {
        return Err(IoKind::Other);
    }
    Ok(data)
}

/// Relies on `walkdir::WalkDir` (depth 0) to stat one path, on
/// `Metadata::modified`, and on `jiff::Timestamp::try_from` plus
/// `Timestamp::as_millisecond` for the conversion: the modification
/// time of the path in milliseconds since the epoch, or `None` when it
/// cannot be read. Depends on what is on disk.
#[verifier::external_body]
pub(crate) fn file_mtime_ms(path: &Vec<u8>) -> Option<i64> {
    let s = String::from_utf8_lossy(path.as_slice()).into_owned();
    let entry = walkdir::WalkDir::new(&s).max_depth(0).into_iter().next()?.ok()?;
    let st = entry.metadata().ok()?.modified().ok()?;
    Some(jiff::Timestamp::try_from(st).ok()?.as_millisecond())
}

/// Relies on `std::time::SystemTime::now`, `jiff::Timestamp::try_from`
/// and `Timestamp::as_millisecond`: the current time in milliseconds
/// since the epoch. A clock outside jiff's supported range yields the
/// maximum instead of panicking, which callers deciding freshness read
/// as "everything is stale" — the safe side. The clock is not a
/// function of anything, so nothing is promised of the result.
#[verifier::external_body]
pub(crate) fn now_ms() -> i64 {
    match jiff::Timestamp::try_from(std::time::SystemTime::now()) {
        Ok(t) => t.as_millisecond(),
        Err(_) => i64::MAX,
    }
}

/// Relies on `home::home_dir`: the user's home directory as reported
/// by the operating system, as a string, or `None` when it cannot be
/// determined. Depends on the environment, so nothing is promised of
/// the result; the caller validates it.
#[verifier::external_body]
pub(crate) fn home_dir_string() -> Option<String> {
    Some(home::home_dir()?.to_string_lossy().into_owned())
}

} // verus!
