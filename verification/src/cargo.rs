use vstd::prelude::*;
use vstd::string::{StrSliceExecFns, StringSliceAdditionalSpecFns};

use crate::based_path::clone_bytes;
use crate::error::Error;
use crate::managed_package::{PackageVersion, SemVer};

verus! {

/// Whitespace inside a probe line: space or tab.
pub open spec fn is_space(b: u8) -> bool {
    b == 32 || b == 9
}

/// The first index at or after `i` whose byte's space-ness equals
/// `want`, or the end of the line.
pub open spec fn scan_to(line: Seq<u8>, i: int, want: bool) -> int
    recommends
        0 <= i,
    decreases line.len() - i,
{
    if i >= line.len() {
        line.len() as int
    } else if is_space(line[i]) == want {
        i
    } else {
        scan_to(line, i + 1, want)
    }
}

/// The first index at or after `i` holding a closing parenthesis, or
/// the end of the line.
pub open spec fn scan_rparen(line: Seq<u8>, i: int) -> int
    recommends
        0 <= i,
    decreases line.len() - i,
{
    if i >= line.len() {
        line.len() as int
    } else if line[i] == 41 {
        i
    } else {
        scan_rparen(line, i + 1)
    }
}

proof fn lemma_scan_to_bounds(line: Seq<u8>, i: int, want: bool)
    requires
        0 <= i <= line.len(),
    ensures
        i <= scan_to(line, i, want) <= line.len(),
        forall|j: int| i <= j < scan_to(line, i, want) ==> is_space(#[trigger] line[j]) != want,
        scan_to(line, i, want) < line.len() ==> is_space(line[scan_to(line, i, want)]) == want,
    decreases line.len() - i,
{
    if i >= line.len() {
    } else if is_space(line[i]) == want {
    } else {
        lemma_scan_to_bounds(line, i + 1, want);
    }
}

proof fn lemma_scan_rparen_bounds(line: Seq<u8>, i: int)
    requires
        0 <= i <= line.len(),
    ensures
        i <= scan_rparen(line, i) <= line.len(),
        forall|j: int| i <= j < scan_rparen(line, i) ==> #[trigger] line[j] != 41,
        scan_rparen(line, i) < line.len() ==> line[scan_rparen(line, i)] == 41,
    decreases line.len() - i,
{
    if i >= line.len() {
    } else if line[i] == 41 {
    } else {
        lemma_scan_rparen_bounds(line, i + 1);
    }
}

fn scan_to_exec(line: &Vec<u8>, from: usize, want: bool) -> (r: usize)
    requires
        from <= line@.len(),
    ensures
        r == scan_to(line@, from as int, want),
        from <= r <= line@.len(),
{
    proof {
        lemma_scan_to_bounds(line@, from as int, want);
    }
    let mut i: usize = from;
    while i < line.len()
        invariant
            from <= i <= line@.len(),
            scan_to(line@, from as int, want) == scan_to(line@, i as int, want),
        decreases line@.len() - i,
    {
        let b = line[i];
        if (b == 32 || b == 9) == want {
            return i;
        }
        i = i + 1;
    }
    i
}

fn scan_rparen_exec(line: &Vec<u8>, from: usize) -> (r: usize)
    requires
        from <= line@.len(),
    ensures
        r == scan_rparen(line@, from as int),
        from <= r <= line@.len(),
{
    proof {
        lemma_scan_rparen_bounds(line@, from as int);
    }
    let mut i: usize = from;
    while i < line.len()
        invariant
            from <= i <= line@.len(),
            scan_rparen(line@, from as int) == scan_rparen(line@, i as int),
        decreases line@.len() - i,
    {
        if line[i] == 41 {
            return i;
        }
        i = i + 1;
    }
    i
}

/// The grammar of one package header line of the installed-package
/// listing: a name, whitespace, a version, an optional parenthesized
/// source annotation, and a final colon. The result is the name, the
/// raw version text, and whether an annotation was present; `None`
/// means the line is not a header.
pub open spec fn spec_parse_header(line: Seq<u8>) -> Option<(Seq<u8>, Seq<u8>, bool)> {
    if line.len() == 0 || is_space(line[0]) || line.last() != 58 {
        None
    } else {
        let body = line.drop_last();
        let ne = scan_to(body, 0, true);
        if ne == 0 || ne >= body.len() {
            None
        } else {
            let vs = scan_to(body, ne, false);
            if vs >= body.len() {
                None
            } else {
                let ve = scan_to(body, vs, true);
                let name = body.subrange(0, ne);
                let version = body.subrange(vs, ve);
                if ve == body.len() {
                    Some((name, version, false))
                } else {
                    let ps = scan_to(body, ve, false);
                    if ps >= body.len() || body[ps] != 40 {
                        None
                    } else {
                        let pe = scan_rparen(body, ps + 1);
                        if pe == ps + 1 || pe != body.len() - 1 {
                            None
                        } else {
                            Some((name, version, true))
                        }
                    }
                }
            }
        }
    }
}

/// Parse one line against the header grammar.
pub fn parse_header(line: &Vec<u8>) -> (r: Option<(Vec<u8>, Vec<u8>, bool)>)
    ensures
        r is Some <==> spec_parse_header(line@) is Some,
        r is Some ==> ({
            let (n, v, a) = r.unwrap();
            let (sn, sv, sa) = spec_parse_header(line@).unwrap();
            n@ == sn && v@ == sv && a == sa
        }),
{
    if line.len() == 0 {
        return None;
    }
    let b0 = line[0];
    if b0 == 32 || b0 == 9 {
        return None;
    }
    if line[line.len() - 1] != 58 {
        return None;
    }
    let mut body = clone_bytes(line);
    let popped = body.pop();
    proof {
        assert(body@ =~= line@.drop_last());
    }
    let ne = scan_to_exec(&body, 0, true);
    if ne == 0 || ne >= body.len() {
        return None;
    }
    let vs = scan_to_exec(&body, ne, false);
    if vs >= body.len() {
        return None;
    }
    let ve = scan_to_exec(&body, vs, true);
    let mut name: Vec<u8> = Vec::new();
    let mut i: usize = 0;
    while i < ne
        invariant
            0 <= i <= ne <= body@.len(),
            name@ == body@.subrange(0, i as int),
        decreases ne - i,
    {
        name.push(body[i]);
        i = i + 1;
        assert(name@ =~= body@.subrange(0, i as int));
    }
    let mut version: Vec<u8> = Vec::new();
    let mut k: usize = vs;
    while k < ve
        invariant
            vs <= k <= ve <= body@.len(),
            version@ == body@.subrange(vs as int, k as int),
        decreases ve - k,
    {
        version.push(body[k]);
        k = k + 1;
        assert(version@ =~= body@.subrange(vs as int, k as int));
    }
    if ve == body.len() {
        return Some((name, version, false));
    }
    let ps = scan_to_exec(&body, ve, false);
    if ps >= body.len() {
        return None;
    }
    if body[ps] != 40 {
        return None;
    }
    let pe = scan_rparen_exec(&body, ps + 1);
    if pe == ps + 1 {
        return None;
    }
    if pe != body.len() - 1 {
        return None;
    }
    Some((name, version, true))
}

/// Splitting the probe output into lines the way `str::lines` does:
/// split on the line feed, drop one trailing empty line, and strip a
/// trailing carriage return from each line.
pub open spec fn split_nl(t: Seq<u8>) -> Seq<Seq<u8>>
    decreases t.len(),
{
    if t.len() == 0 {
        seq![Seq::<u8>::empty()]
    } else if t[0] == 10 {
        seq![Seq::<u8>::empty()] + split_nl(t.skip(1))
    } else {
        let rest = split_nl(t.skip(1));
        seq![seq![t[0]] + rest[0]] + rest.skip(1)
    }
}

pub open spec fn strip_cr(line: Seq<u8>) -> Seq<u8> {
    if line.len() > 0 && line.last() == 13 {
        line.drop_last()
    } else {
        line
    }
}

pub open spec fn spec_lines(t: Seq<u8>) -> Seq<Seq<u8>> {
    let s = split_nl(t);
    let s2 = if s.last().len() == 0 {
        s.drop_last()
    } else {
        s
    };
    Seq::new(s2.len(), |i: int| strip_cr(s2[i]))
}

proof fn lemma_split_nl_nonempty(t: Seq<u8>)
    ensures
        split_nl(t).len() >= 1,
    decreases t.len(),
{
    if t.len() == 0 {
    } else if t[0] == 10 {
    } else {
        lemma_split_nl_nonempty(t.skip(1));
    }
}

/// Split text into lines.
pub fn lines_exec(t: &Vec<u8>) -> (r: Vec<Vec<u8>>)
    ensures
        crate::based_path::comps_view(r) =~~= spec_lines(t@),
{
    let mut s: Vec<Vec<u8>> = Vec::new();
    s.push(Vec::new());
    let mut i: usize = t.len();
    proof {
        assert(t@.skip(t@.len() as int) =~= Seq::<u8>::empty());
        assert(crate::based_path::comps_view(s) =~~= split_nl(t@.skip(t@.len() as int)));
    }
    while i > 0
        invariant
            0 <= i <= t@.len(),
            s.len() >= 1,
            crate::based_path::comps_view(s) =~~= split_nl(t@.skip(i as int)),
        decreases i,
    {
        let b = t[i - 1];
        let ghost q = t@.skip(i as int - 1);
        proof {
            assert(q[0] == b);
            assert(q.skip(1) =~= t@.skip(i as int));
            lemma_split_nl_nonempty(t@.skip(i as int));
        }
        if b == 10 {
            s.insert(0, Vec::new());
        } else {
            let mut first = s.remove(0);
            first.insert(0, b);
            s.insert(0, first);
        }
        i = i - 1;
        assert(crate::based_path::comps_view(s) =~~= split_nl(t@.skip(i as int)));
    }
    proof {
        assert(t@.skip(0) =~= t@);
        lemma_split_nl_nonempty(t@);
    }
    // drop one trailing empty line, then strip carriage returns
    let last_empty = s[s.len() - 1].len() == 0;
    if last_empty {
        let ghost before = crate::based_path::comps_view(s);
        let popped = s.pop();
        proof {
            assert(crate::based_path::comps_view(s) =~~= before.drop_last());
        }
    }
    let ghost kept = crate::based_path::comps_view(s);
    let mut out: Vec<Vec<u8>> = Vec::new();
    let mut k: usize = 0;
    while k < s.len()
        invariant
            0 <= k <= s@.len(),
            kept == crate::based_path::comps_view(s),
            out@.len() == k,
            forall|j: int| 0 <= j < k ==> #[trigger] out@[j]@ == strip_cr(kept[j]),
        decreases s@.len() - k,
    {
        let mut line = clone_bytes(&s[k]);
        if line.len() > 0 && line[line.len() - 1] == 13 {
            let ghost lb = line@;
            let popped2 = line.pop();
            proof {
                assert(line@ =~= lb.drop_last());
                assert(line@ == strip_cr(kept[k as int]));
            }
        } else {
            proof {
                assert(line@ == strip_cr(kept[k as int]));
            }
        }
        out.push(line);
        k = k + 1;
    }
    proof {
        assert forall|j: int|
            0 <= j < out@.len() implies crate::based_path::comps_view(out)[j] =~= spec_lines(
            t@,
        )[j] by {
            assert(out@[j]@ == strip_cr(kept[j]));
        }
    }
    out
}

/// A package name, normalized so that `-` and `_` are the same: every
/// underscore becomes a hyphen.
pub open spec fn normalize_name(s: Seq<u8>) -> Seq<u8> {
    Seq::new(
        s.len(),
        |i: int|
            if s[i] == 95 {
                45u8
            } else {
                s[i]
            },
    )
}

/// A normalized package name.
#[derive(Debug, Clone, PartialEq, Eq)]
pub struct CrateName(pub Vec<u8>);

impl CrateName {
    /// Normalize a raw name.
    pub fn new(name: &str) -> (r: CrateName)
        ensures
            r.0@ == normalize_name(name.spec_bytes()),
    {
        let nb = name.as_bytes_vec();
        CrateName(normalize_exec(&nb))
    }
}

/// Normalize a raw name given as bytes.
pub fn normalize_exec(nb: &Vec<u8>) -> (r: Vec<u8>)
    ensures
        r@ == normalize_name(nb@),
{
    let mut r: Vec<u8> = Vec::new();
    let mut i: usize = 0;
    while i < nb.len()
        invariant
            0 <= i <= nb@.len(),
            r@.len() == i,
            forall|j: int| 0 <= j < i ==> #[trigger] r@[j] == normalize_name(nb@)[j],
        decreases nb@.len() - i,
    {
        let b = nb[i];
        if b == 95 {
            r.push(45);
        } else {
            r.push(b);
        }
        i = i + 1;
    }
    proof {
        assert(r@ =~= normalize_name(nb@));
    }
    r
}

/// A version string with an optional leading `v` removed.
pub open spec fn strip_v(s: Seq<u8>) -> Seq<u8> {
    if s.len() > 0 && s[0] == 118 {
        s.skip(1)
    } else {
        s
    }
}

/// What `semver::Version::parse` makes of the bytes (through UTF-8):
/// the numeric triple and the pre-release and build identifiers, or
/// nothing when the bytes are not a semantic version. The grammar is
/// the semantic-versioning one; the result depends on the bytes alone.
pub uninterp spec fn semver_of(s: Seq<u8>) -> Option<(u64, u64, u64, Seq<char>, Seq<char>)>;

/// Relies on `semver::Version::parse` (with `core::str::from_utf8` in
/// front): the parsed version, named by [`semver_of`].
#[verifier::external_body]
fn parse_semver_bytes(v: &Vec<u8>) -> (r: Option<SemVer>)
    ensures
        r is Some <==> semver_of(v@) is Some,
        r is Some ==> ({
            let t = semver_of(v@).unwrap();
            let s = r.unwrap();
            s.major == t.0 && s.minor == t.1 && s.patch == t.2 && s.pre@ == t.3 && s.build@ == t.4
        }),
{
    let s = core::str::from_utf8(v.as_slice()).ok()?;
    let ver = semver::Version::parse(s).ok()?;
    Some(SemVer {
        major: ver.major,
        minor: ver.minor,
        patch: ver.patch,
        pre: ver.pre.as_str().to_owned(),
        build: ver.build.as_str().to_owned(),
    })
}

/// Whether a package version is exactly what the named parse of the
/// raw version text gives.
pub open spec fn version_matches(pv: PackageVersion, raw: Seq<u8>) -> bool {
    match semver_of(strip_v(raw)) {
        Option::None => false,
        Option::Some(t) => pv matches PackageVersion::Semver(s) && s.major == t.0 && s.minor == t.1
            && s.patch == t.2 && s.pre@ == t.3 && s.build@ == t.4,
    }
}

/// Parse a raw version string: an optional leading `v` is stripped and
/// the rest must be a semantic version, else the text is unsupported.
pub fn parse_version(raw: &Vec<u8>) -> (r: Result<PackageVersion, Error>)
    ensures
        r is Ok <==> semver_of(strip_v(raw@)) is Some,
        r is Ok ==> version_matches(r.unwrap(), raw@),
        r is Err ==> (r.unwrap_err() matches Error::UnsupportedFormat(_)),
{
    let stripped = if raw.len() > 0 && raw[0] == 118 {
        let mut t: Vec<u8> = Vec::new();
        let mut i: usize = 1;
        while i < raw.len()
            invariant
                1 <= i <= raw@.len(),
                t@ == raw@.subrange(1, i as int),
            decreases raw@.len() - i,
        {
            t.push(raw[i]);
            i = i + 1;
            assert(t@ =~= raw@.subrange(1, i as int));
        }
        proof {
            assert(t@ =~= raw@.skip(1));
        }
        t
    } else {
        clone_bytes(raw)
    };
    proof {
        assert(stripped@ == strip_v(raw@));
    }
    match parse_semver_bytes(&stripped) {
        Option::Some(s) => Ok(PackageVersion::Semver(s)),
        Option::None => Err(Error::UnsupportedFormat("package version".to_owned())),
    }
}


/// A field-for-field copy of a semantic version.
pub fn clone_semver(s: &SemVer) -> (r: SemVer)
    ensures
        r == *s,
{
    SemVer {
        major: s.major,
        minor: s.minor,
        patch: s.patch,
        pre: s.pre.clone(),
        build: s.build.clone(),
    }
}

/// A field-for-field copy of a package version.
pub fn clone_version(v: &PackageVersion) -> (r: PackageVersion)
    ensures
        r == *v,
{
    match v {
        PackageVersion::Absent => PackageVersion::Absent,
        PackageVersion::Commit { id, date } => PackageVersion::Commit {
            id: id.clone(),
            date: date.clone(),
        },
        PackageVersion::Semver(s) => PackageVersion::Semver(clone_semver(s)),
    }
}

/// The entries of the installed-package listing, in order: the raw
/// name and version of every header line whose source annotation does
/// not mark a local install; indented continuation lines are skipped;
/// any other line makes the whole listing unsupported (`None`).
pub open spec fn fold_entries(lines: Seq<Seq<u8>>) -> Option<Seq<(Seq<u8>, Seq<u8>)>>
    decreases lines.len(),
{
    if lines.len() == 0 {
        Some(Seq::empty())
    } else {
        let line = lines[0];
        match spec_parse_header(line) {
            Option::Some((n, v, ann)) => match fold_entries(lines.skip(1)) {
                Option::None => None,
                Option::Some(rest) => if ann {
                    Some(rest)
                } else {
                    Some(seq![(n, v)] + rest)
                },
            },
            Option::None => {
                if line.len() > 0 && line[0] == 32 {
                    fold_entries(lines.skip(1))
                } else {
                    None
                }
            },
        }
    }
}

/// One requested package: its normalized name and its optional
/// explicit source.
#[derive(Debug, Clone)]
pub struct CrateSpec {
    pub name: CrateName,
    pub source: Option<crate::config::RustCrateSource>,
}

/// A field-for-field copy of an explicit source.
pub fn clone_source(s: &crate::config::RustCrateSource) -> (r: crate::config::RustCrateSource)
    ensures
        r == *s,
{
    match s {
        crate::config::RustCrateSource::GithubBranch { owner, repo, branch } =>
            crate::config::RustCrateSource::GithubBranch {
            owner: owner.clone(),
            repo: repo.clone(),
            branch: branch.clone(),
        },
        crate::config::RustCrateSource::GithubTag { owner, repo, tag } =>
            crate::config::RustCrateSource::GithubTag {
            owner: owner.clone(),
            repo: repo.clone(),
            tag: tag.clone(),
        },
        crate::config::RustCrateSource::GithubRevision { owner, repo, revision } =>
            crate::config::RustCrateSource::GithubRevision {
            owner: owner.clone(),
            repo: repo.clone(),
            revision: revision.clone(),
        },
    }
}

/// A source kind the resolver and the installer do not support: an
/// explicit tag or revision.
pub open spec fn source_unsupported(s: CrateSpec) -> bool {
    s.source matches Option::Some(src) && !(src matches crate::config::RustCrateSource::GithubBranch { .. })
}

/// The cache key of one package: where its latest version is looked
/// up, qualified by its source.
pub open spec fn spec_cache_name(s: CrateSpec) -> Seq<u8> {
    match s.source {
        Option::Some(crate::config::RustCrateSource::GithubBranch { owner, repo, branch }) =>
            "github.com/".spec_bytes() + crate::config::string_bytes(owner) + "/".spec_bytes()
            + crate::config::string_bytes(repo) + "/branches/".spec_bytes()
            + crate::config::string_bytes(branch) + "/crates/".spec_bytes() + s.name.0@,
        Option::Some(crate::config::RustCrateSource::GithubTag { owner, repo, tag }) =>
            "github.com/".spec_bytes() + crate::config::string_bytes(owner) + "/".spec_bytes()
            + crate::config::string_bytes(repo) + "/tags/".spec_bytes()
            + crate::config::string_bytes(tag) + "/crates/".spec_bytes() + s.name.0@,
        Option::Some(crate::config::RustCrateSource::GithubRevision { owner, repo, revision }) =>
            "github.com/".spec_bytes() + crate::config::string_bytes(owner) + "/".spec_bytes()
            + crate::config::string_bytes(repo) + "/revs/".spec_bytes()
            + crate::config::string_bytes(revision) + "/crates/".spec_bytes() + s.name.0@,
        Option::None => "crates.io/".spec_bytes() + s.name.0@,
    }
}

/// Append the bytes of a string to a byte vector.
pub fn push_str_bytes(dst: &mut Vec<u8>, s: &str)
    ensures
        final(dst)@ == old(dst)@ + s.spec_bytes(),
{
    let mut b = s.as_bytes_vec();
    dst.append(&mut b);
}

/// Append the bytes of an owned string to a byte vector.
pub fn push_string_bytes(dst: &mut Vec<u8>, s: &String)
    ensures
        final(dst)@ == old(dst)@ + crate::config::string_bytes(*s),
{
    let mut b = s.as_str().as_bytes_vec();
    dst.append(&mut b);
}

impl CrateSpec {
    /// Build a spec from a raw name and an optional source.
    pub fn new(name: &str, source: Option<&crate::config::RustCrateSource>) -> (r: CrateSpec)
        ensures
            r.name.0@ == normalize_name(name.spec_bytes()),
            match source {
                Option::Some(s) => r.source == Some(*s),
                Option::None => r.source is None,
            },
    {
        let src = match source {
            Option::Some(s) => Some(clone_source(s)),
            Option::None => None,
        };
        CrateSpec { name: CrateName::new(name), source: src }
    }

    /// The cache key under which this package's latest version lives.
    pub fn cache_name(&self) -> (r: Vec<u8>)
        ensures
            r@ == spec_cache_name(*self),
    {
        let mut r: Vec<u8> = Vec::new();
        match &self.source {
            Option::Some(crate::config::RustCrateSource::GithubBranch { owner, repo, branch }) => {
                push_str_bytes(&mut r, "github.com/");
                push_string_bytes(&mut r, owner);
                push_str_bytes(&mut r, "/");
                push_string_bytes(&mut r, repo);
                push_str_bytes(&mut r, "/branches/");
                push_string_bytes(&mut r, branch);
                push_str_bytes(&mut r, "/crates/");
                let mut n = clone_bytes(&self.name.0);
                r.append(&mut n);
            },
            Option::Some(crate::config::RustCrateSource::GithubTag { owner, repo, tag }) => {
                push_str_bytes(&mut r, "github.com/");
                push_string_bytes(&mut r, owner);
                push_str_bytes(&mut r, "/");
                push_string_bytes(&mut r, repo);
                push_str_bytes(&mut r, "/tags/");
                push_string_bytes(&mut r, tag);
                push_str_bytes(&mut r, "/crates/");
                let mut n = clone_bytes(&self.name.0);
                r.append(&mut n);
            },
            Option::Some(
                crate::config::RustCrateSource::GithubRevision { owner, repo, revision },
            ) => {
                push_str_bytes(&mut r, "github.com/");
                push_string_bytes(&mut r, owner);
                push_str_bytes(&mut r, "/");
                push_string_bytes(&mut r, repo);
                push_str_bytes(&mut r, "/revs/");
                push_string_bytes(&mut r, revision);
                push_str_bytes(&mut r, "/crates/");
                let mut n = clone_bytes(&self.name.0);
                r.append(&mut n);
            },
            Option::None => {
                push_str_bytes(&mut r, "crates.io/");
                let mut n = clone_bytes(&self.name.0);
                r.append(&mut n);
            },
        }
        proof {
            assert(r@ =~= spec_cache_name(*self));
        }
        r
    }
}

/// A snapshot of what the local package manager has installed.
#[derive(Debug)]
pub struct CargoState {
    /// Normalized name to version, in listing order; a later entry
    /// for the same name wins.
    pub crates: Vec<(CrateName, PackageVersion)>,
}

/// Look a normalized name up; the last binding wins.
pub open spec fn lookup_last(m: Seq<(Seq<u8>, PackageVersion)>, k: Seq<u8>) -> Option<
    PackageVersion,
>
    decreases m.len(),
{
    if m.len() == 0 {
        None
    } else if m.last().0 == k {
        Some(m.last().1)
    } else {
        lookup_last(m.drop_last(), k)
    }
}

/// The collected snapshot entries correspond one for one to the raw
/// listing entries: normalized names and parsed versions.
pub open spec fn entries_ok(
    crates: Seq<(CrateName, PackageVersion)>,
    done: Seq<(Seq<u8>, Seq<u8>)>,
) -> bool {
    &&& crates.len() == done.len()
    &&& forall|j: int|
        0 <= j < done.len() ==> (#[trigger] crates[j].0.0@) == normalize_name(done[j].0)
            && version_matches(crates[j].1, done[j].1)
}

/// Whether a snapshot is exactly what a given listing text describes.
pub open spec fn state_matches_listing(st: CargoState, tb: Seq<u8>) -> bool {
    match fold_entries(spec_lines(tb)) {
        Option::None => false,
        Option::Some(entries) => {
            &&& st.crates_view().len() == entries.len()
            &&& forall|i: int|
                0 <= i < entries.len() ==> (#[trigger] st.crates_view()[i]).0 == normalize_name(
                    entries[i].0,
                ) && version_matches(st.crates_view()[i].1, entries[i].1)
        },
    }
}

impl CargoState {
    /// The snapshot as a mathematical association list.
    pub open spec fn crates_view(self) -> Seq<(Seq<u8>, PackageVersion)> {
        Seq::new(self.crates@.len(), |i: int| (self.crates@[i].0.0@, self.crates@[i].1))
    }

    /// Build the snapshot from the text the package manager's
    /// list-installed command printed. Every header line becomes an
    /// entry unless its annotation marks a local install; indented
    /// lines are ignored; any line outside the grammar, or a version
    /// that is not semantic, makes the whole listing unsupported.
    pub fn from_list_output(text: &str) -> (r: Result<CargoState, Error>)
        ensures
            r is Ok ==> state_matches_listing(r.unwrap(), text.spec_bytes()),
            r is Ok <==> fold_entries(spec_lines(text.spec_bytes())) is Some && (forall|i: int|
                0 <= i < fold_entries(spec_lines(text.spec_bytes())).unwrap().len()
                    ==> semver_of(
                    strip_v(
                        (#[trigger] fold_entries(spec_lines(text.spec_bytes())).unwrap()[i]).1,
                    ),
                ) is Some),
            r is Err ==> (r.unwrap_err() matches Error::UnsupportedFormat(_)),
    {
        let tb = text.as_bytes_vec();
        let lines = lines_exec(&tb);
        let ghost all = spec_lines(text.spec_bytes());
        let mut crates: Vec<(CrateName, PackageVersion)> = Vec::new();
        let mut done_g: Ghost<Seq<(Seq<u8>, Seq<u8>)>> = Ghost(Seq::empty());
        let mut i: usize = 0;
        proof {
            assert(crate::based_path::comps_view(lines) =~~= all);
            assert(all.skip(0) =~= all);
        }
        while i < lines.len()
            invariant
                0 <= i <= lines@.len(),
                crate::based_path::comps_view(lines) =~~= all,
                all == spec_lines(text.spec_bytes()),
                (fold_entries(all) is Some <==> fold_entries(all.skip(i as int)) is Some),
                fold_entries(all) is Some ==> fold_entries(all).unwrap() == done_g@ + fold_entries(
                    all.skip(i as int),
                ).unwrap(),
                entries_ok(crates@, done_g@),
            decreases lines@.len() - i,
        {
            let line = &lines[i];
            let ghost rem = all.skip(i as int);
            proof {
                assert(rem[0] == all[i as int]);
                assert(line@ == all[i as int]);
                assert(rem.skip(1) =~= all.skip(i as int + 1));
            }
            match parse_header(line) {
                Option::Some((n, v, ann)) => {
                    if ann {
                        proof {
                            if fold_entries(rem.skip(1)) is Some {
                                assert(fold_entries(rem) == Some(
                                    fold_entries(rem.skip(1)).unwrap(),
                                ));
                            }
                            assert(entries_ok(crates@, done_g@));
                        }
                    } else {
                        let pv = match parse_version(&v) {
                            Ok(pv) => pv,
                            Err(e) => {
                                proof {
                                    let (sn, sv, sa) = spec_parse_header(rem[0]).unwrap();
                                    if fold_entries(all) is Some {
                                        assert(fold_entries(rem) is Some);
                                        assert(fold_entries(rem).unwrap()[0] == (sn, sv));
                                        let k = done_g@.len() as int;
                                        assert(fold_entries(all).unwrap()[k] == (sn, sv));
                                        assert(semver_of(strip_v(sv)) is None);
                                    }
                                }
                                return Err(e);
                            },
                        };
                        let nm = CrateName(normalize_exec(&n));
                        let ghost nmv = nm.0@;
                        let ghost pvv = pv;
                        let ghost before = crates@;
                        crates.push((nm, pv));
                        proof {
                            let (sn, sv, sa) = spec_parse_header(rem[0]).unwrap();
                            let d0 = done_g@;
                            done_g@ = done_g@.push((sn, sv));
                            assert(crates@.len() == done_g@.len());
                            assert(nmv == normalize_name(sn));
                            assert(version_matches(pvv, sv));
                            assert forall|j: int|
                                0 <= j < done_g@.len() implies (#[trigger] crates@[j].0.0@)
                                == normalize_name(done_g@[j].0) && version_matches(
                                crates@[j].1,
                                done_g@[j].1,
                            ) by {
                                if j < done_g@.len() - 1 {
                                    assert(entries_ok(before, d0));
                                    assert(crates@[j] == before[j]);
                                    assert(done_g@[j] == d0[j]);
                                    assert((#[trigger] before[j].0.0@) == normalize_name(d0[j].0)
                                        && version_matches(before[j].1, d0[j].1));
                                } else {
                                    assert(crates@[j] == crates@.last());
                                    assert(crates@.last().0.0@ == nmv);
                                    assert(crates@.last().1 == pvv);
                                    assert(done_g@[j] == (sn, sv));
                                }
                            }
                            assert(entries_ok(crates@, done_g@));
                            if fold_entries(rem.skip(1)) is Some {
                                assert(fold_entries(rem).unwrap() == seq![(sn, sv)]
                                    + fold_entries(rem.skip(1)).unwrap());
                                if fold_entries(all) is Some {
                                    assert((done_g@.drop_last() + fold_entries(rem).unwrap())
                                        =~= done_g@ + fold_entries(rem.skip(1)).unwrap());
                                }
                            }
                        }
                    }
                },
                Option::None => {
                    let is_cont = line.len() > 0 && line[0] == 32;
                    if !is_cont {
                        proof {
                            assert(fold_entries(rem) is None);
                        }
                        return Err(
                            Error::UnsupportedFormat("installed package listing".to_owned()),
                        );
                    }
                },
            }
            i = i + 1;
        }
        proof {
            assert(all.skip(lines@.len() as int) =~= Seq::<Seq<u8>>::empty());
            assert(fold_entries(all.skip(lines@.len() as int)) == Some(
                Seq::<(Seq<u8>, Seq<u8>)>::empty(),
            ));
            assert(fold_entries(all).unwrap() =~= done_g@);
        }
        let st = CargoState { crates };
        proof {
            assert(state_matches_listing(st, text.spec_bytes()));
            assert forall|k: int|
                0 <= k < fold_entries(all).unwrap().len() implies semver_of(
                strip_v((#[trigger] fold_entries(all).unwrap()[k]).1),
            ) is Some by {
                assert(version_matches(st.crates_view()[k].1, fold_entries(all).unwrap()[k].1));
            }
        }
        Ok(st)
    }

    /// The installed version of the requested package, absent when the
    /// snapshot has no entry for its normalized name.
    pub fn package_version(&self, spec: &CrateSpec) -> (r: PackageVersion)
        ensures
            r == (match lookup_last(self.crates_view(), spec.name.0@) {
                Option::Some(v) => v,
                Option::None => PackageVersion::Absent,
            }),
    {
        let mut i: usize = self.crates.len();
        proof {
            assert(self.crates_view().take(i as int) =~= self.crates_view());
        }
        while i > 0
            invariant
                0 <= i <= self.crates@.len(),
                lookup_last(self.crates_view(), spec.name.0@) == lookup_last(
                    self.crates_view().take(i as int),
                    spec.name.0@,
                ),
            decreases i,
        {
            let ghost pre = self.crates_view().take(i as int);
            proof {
                assert(pre.last() == self.crates_view()[i as int - 1]);
                assert(pre.drop_last() =~= self.crates_view().take(i as int - 1));
            }
            let pair = &self.crates[i - 1];
            if crate::based_path::bytes_eq(&pair.0.0, &spec.name.0) {
                return clone_version(&pair.1);
            }
            i = i - 1;
        }
        proof {
            assert(self.crates_view().take(0) =~= Seq::<(Seq<u8>, PackageVersion)>::empty());
        }
        PackageVersion::Absent
    }
}


/// The first index at or after `i` where the separator ` = "` of the
/// registry search output begins, or the end of the line.
pub open spec fn find_eq_quote(line: Seq<u8>, i: int) -> int
    recommends
        0 <= i,
    decreases line.len() - i,
{
    if i + 4 > line.len() {
        line.len() as int
    } else if line[i] == 32 && line[i + 1] == 61 && line[i + 2] == 32 && line[i + 3] == 34 {
        i
    } else {
        find_eq_quote(line, i + 1)
    }
}

/// The first index at or after `i` holding a double quote, or the end
/// of the line.
pub open spec fn find_quote(line: Seq<u8>, i: int) -> int
    recommends
        0 <= i,
    decreases line.len() - i,
{
    if i >= line.len() {
        line.len() as int
    } else if line[i] == 34 {
        i
    } else {
        find_quote(line, i + 1)
    }
}

proof fn lemma_find_eq_quote_bounds(line: Seq<u8>, i: int)
    requires
        0 <= i <= line.len(),
    ensures
        i <= find_eq_quote(line, i) <= line.len(),
    decreases line.len() - i,
{
    if i + 4 > line.len() {
    } else if line[i] == 32 && line[i + 1] == 61 && line[i + 2] == 32 && line[i + 3] == 34 {
    } else {
        lemma_find_eq_quote_bounds(line, i + 1);
    }
}

proof fn lemma_find_quote_bounds(line: Seq<u8>, i: int)
    requires
        0 <= i <= line.len(),
    ensures
        i <= find_quote(line, i) <= line.len(),
    decreases line.len() - i,
{
    if i >= line.len() {
    } else if line[i] == 34 {
    } else {
        lemma_find_quote_bounds(line, i + 1);
    }
}

fn find_eq_quote_exec(line: &Vec<u8>, from: usize) -> (r: usize)
    requires
        from <= line@.len(),
    ensures
        r == find_eq_quote(line@, from as int),
        from <= r <= line@.len(),
{
    proof {
        lemma_find_eq_quote_bounds(line@, from as int);
    }
    let mut i: usize = from;
    loop
        invariant
            from <= i <= line@.len(),
            find_eq_quote(line@, from as int) == find_eq_quote(line@, i as int),
        decreases line@.len() - i,
    {
        if i >= line.len() || line.len() - i < 4 {
            return line.len();
        }
        if line[i] == 32 && line[i + 1] == 61 && line[i + 2] == 32 && line[i + 3] == 34 {
            return i;
        }
        i = i + 1;
    }
}

fn find_quote_exec(line: &Vec<u8>, from: usize) -> (r: usize)
    requires
        from <= line@.len(),
    ensures
        r == find_quote(line@, from as int),
        from <= r <= line@.len(),
{
    proof {
        lemma_find_quote_bounds(line@, from as int);
    }
    let mut i: usize = from;
    while i < line.len()
        invariant
            from <= i <= line@.len(),
            find_quote(line@, from as int) == find_quote(line@, i as int),
        decreases line@.len() - i,
    {
        if line[i] == 34 {
            return i;
        }
        i = i + 1;
    }
    i
}

/// Whether `r` is what resolving the latest registry version from the
/// search text `out` gives for the normalized name `want`: empty
/// output means the registry knows no such package; otherwise the
/// first line must hold `name = "version"`, the name must match after
/// normalization, and the version must be semantic, else the text is
/// unsupported.
pub open spec fn search_result_ok(
    out: Seq<u8>,
    want: Seq<u8>,
    r: Result<PackageVersion, Error>,
) -> bool {
    let lines = spec_lines(out);
    &&& (lines.len() == 0 ==> r == Result::<PackageVersion, Error>::Ok(PackageVersion::Absent))
    &&& (lines.len() > 0 ==> ({
        let l = lines[0];
        let i = find_eq_quote(l, 0);
        if i + 4 > l.len() {
            r is Err
        } else {
            let j = find_quote(l, i + 4);
            if j >= l.len() {
                r is Err
            } else if normalize_name(l.subrange(0, i)) != want {
                r is Err
            } else {
                let raw = l.subrange(i + 4, j);
                &&& (r is Ok <==> semver_of(strip_v(raw)) is Some)
                &&& (r is Ok ==> version_matches(r.unwrap(), raw))
            }
        }
    }))
    &&& (r is Err ==> (r.unwrap_err() matches Error::UnsupportedFormat(_)))
}

/// Resolve the latest registry version from the text of the search
/// command, limited to one result; the result is exactly what
/// [`search_result_ok`] describes.
pub fn latest_from_search(out: &Vec<u8>, want: &CrateName) -> (r: Result<PackageVersion, Error>)
    ensures
        search_result_ok(out@, want.0@, r),
{
    let lines = lines_exec(out);
    if lines.len() == 0 {
        return Ok(PackageVersion::Absent);
    }
    let line = &lines[0];
    proof {
        assert(line@ == spec_lines(out@)[0]);
    }
    let i = find_eq_quote_exec(line, 0);
    if i >= line.len() || line.len() - i < 4 {
        proof {
            assert(i + 4 > line@.len());
        }
        return Err(Error::UnsupportedFormat("registry search output".to_owned()));
    }
    proof {
        assert(i + 4 <= line@.len());
    }
    let j = find_quote_exec(line, i + 4);
    if j >= line.len() {
        return Err(Error::UnsupportedFormat("registry search output".to_owned()));
    }
    let mut got: Vec<u8> = Vec::new();
    let mut k: usize = 0;
    while k < i
        invariant
            0 <= k <= i <= line@.len(),
            got@ == line@.subrange(0, k as int),
        decreases i - k,
    {
        got.push(line[k]);
        k = k + 1;
        assert(got@ =~= line@.subrange(0, k as int));
    }
    let got_norm = normalize_exec(&got);
    if !crate::based_path::bytes_eq(&got_norm, &want.0) {
        return Err(Error::UnsupportedFormat("registry search output".to_owned()));
    }
    let mut raw: Vec<u8> = Vec::new();
    let mut m: usize = i + 4;
    while m < j
        invariant
            i + 4 <= m <= j <= line@.len(),
            raw@ == line@.subrange(i as int + 4, m as int),
        decreases j - m,
    {
        raw.push(line[m]);
        m = m + 1;
        assert(raw@ =~= line@.subrange(i as int + 4, m as int));
    }
    parse_version(&raw)
}

/// The command-line arguments of one install invocation: the install
/// verb, the VCS arguments when the package has an explicit branch
/// source, and the package name.
pub open spec fn spec_install_args(s: CrateSpec) -> Option<Seq<Seq<u8>>> {
    match s.source {
        Option::None => Some(seq!["install".spec_bytes(), s.name.0@]),
        Option::Some(crate::config::RustCrateSource::GithubBranch { owner, repo, branch }) => Some(
            seq![
                "install".spec_bytes(),
                "--git".spec_bytes(),
                "https://github.com/".spec_bytes() + crate::config::string_bytes(owner)
                    + "/".spec_bytes() + crate::config::string_bytes(repo) + ".git".spec_bytes(),
                "--branch".spec_bytes(),
                crate::config::string_bytes(branch),
                s.name.0@,
            ],
        ),
        Option::Some(_) => None,
    }
}

/// Build the install arguments; a tag or revision source is not
/// supported for installs.
pub fn install_args(spec: &CrateSpec) -> (r: Result<Vec<Vec<u8>>, Error>)
    ensures
        r is Ok <==> spec_install_args(*spec) is Some,
        r is Ok ==> crate::based_path::comps_view(r.unwrap()) =~~= spec_install_args(
            *spec,
        ).unwrap(),
        r is Err ==> (r.unwrap_err() matches Error::UnsupportedPackageSource(_)),
{
    let mut args: Vec<Vec<u8>> = Vec::new();
    match &spec.source {
        Option::None => {
            args.push("install".as_bytes_vec());
            args.push(clone_bytes(&spec.name.0));
            proof {
                assert(crate::based_path::comps_view(args) =~~= spec_install_args(
                    *spec,
                ).unwrap());
            }
            Ok(args)
        },
        Option::Some(crate::config::RustCrateSource::GithubBranch { owner, repo, branch }) => {
            args.push("install".as_bytes_vec());
            args.push("--git".as_bytes_vec());
            let mut giturl: Vec<u8> = Vec::new();
            push_str_bytes(&mut giturl, "https://github.com/");
            push_string_bytes(&mut giturl, owner);
            push_str_bytes(&mut giturl, "/");
            push_string_bytes(&mut giturl, repo);
            push_str_bytes(&mut giturl, ".git");
            args.push(giturl);
            args.push("--branch".as_bytes_vec());
            args.push(branch.as_str().as_bytes_vec());
            args.push(clone_bytes(&spec.name.0));
            proof {
                assert(crate::based_path::comps_view(args) =~~= spec_install_args(
                    *spec,
                ).unwrap());
            }
            Ok(args)
        },
        Option::Some(_) => {
            Err(Error::UnsupportedPackageSource("package with a tag or revision source".to_owned()))
        },
    }
}

impl CargoState {
    /// Build the snapshot by running the list-installed command and
    /// parsing its output.
    pub fn init<F: FnOnce() -> Result<String, Error>>(list_runner: F) -> (r: Result<
        CargoState,
        Error,
    >)
        requires
            call_requires(list_runner, ()),
        ensures
            r is Ok ==> exists|t: String|
                call_ensures(list_runner, (), Result::<String, Error>::Ok(t))
                    && state_matches_listing(r.unwrap(), crate::config::string_bytes(t)),
    {
        let text = match list_runner() {
            Ok(t) => t,
            Err(e) => {
                return Err(e);
            },
        };
        let st = CargoState::from_list_output(text.as_str())?;
        proof {
            assert(call_ensures(list_runner, (), Result::<String, Error>::Ok(text)));
            assert(state_matches_listing(st, crate::config::string_bytes(text)));
        }
        Ok(st)
    }

    /// Rebuild the snapshot wholesale.
    pub fn refresh_state<F: FnOnce() -> Result<String, Error>>(&mut self, list_runner: F) -> (r:
        Result<(), Error>)
        requires
            call_requires(list_runner, ()),
        ensures
            r is Ok ==> exists|t: String|
                call_ensures(list_runner, (), Result::<String, Error>::Ok(t))
                    && state_matches_listing(*final(self), crate::config::string_bytes(t)),
            r is Err ==> *final(self) == *old(self),
    {
        let st = CargoState::init(list_runner)?;
        *self = st;
        Ok(())
    }

    /// Resolve the latest version of one package: a branch source is
    /// asked of the hosting API (through the cache) and yields a
    /// commit; no source means the registry search command, whose
    /// output the runner provides and whose result is exactly the
    /// search resolution of that output; a tag or revision source
    /// fails as unsupported.
    pub fn latest_package_version<F: FnOnce() -> Result<String, Error>>(
        &self,
        spec: &CrateSpec,
        cache: &mut crate::cache::Cache,
        search_runner: F,
    ) -> (r: Result<PackageVersion, Error>)
        requires
            call_requires(search_runner, ()),
        ensures
            source_unsupported(*spec) ==> r is Err && (r.unwrap_err()
                matches Error::UnsupportedPackageSource(_)),
            (spec.source matches Option::Some(
                crate::config::RustCrateSource::GithubBranch { .. },
            )) && r is Ok ==> r.unwrap() matches PackageVersion::Commit { .. },
            spec.source is None ==> ((exists|t: String|
                call_ensures(search_runner, (), Result::<String, Error>::Ok(t))
                    && #[trigger] search_result_ok(
                    crate::config::string_bytes(t),
                    spec.name.0@,
                    r,
                )) || (r is Err && call_ensures(
                search_runner,
                (),
                Result::<String, Error>::Err(r.unwrap_err()),
            ))),
    {

        match &spec.source {
            Option::Some(crate::config::RustCrateSource::GithubBranch { owner, repo, branch }) => {
                let gh = crate::github::GitHubRepo::new(owner.as_str(), repo.as_str());
                let info = gh.get_branch_info(cache, branch.as_str())?;
                Ok(PackageVersion::Commit { id: info.commit.sha, date: info.commit.commit.author.date })
            },
            Option::Some(_) => {
                Err(
                    Error::UnsupportedPackageSource(
                        "package with a tag or revision source".to_owned(),
                    ),
                )
            },
            Option::None => {
                let out = match search_runner() {
                    Ok(t) => t,
                    Err(e) => {
                        return Err(e);
                    },
                };
                let ob = out.as_str().as_bytes_vec();
                let r = latest_from_search(&ob, &spec.name);
                proof {
                    assert(call_ensures(search_runner, (), Result::<String, Error>::Ok(out)));
                    assert(search_result_ok(crate::config::string_bytes(out), spec.name.0@, r));
                }
                r
            },
        }
    }

    /// Install or update one package: run the install command with the
    /// arguments of [`install_args`], then rebuild the snapshot and
    /// report the freshly probed version of the package.
    pub fn install_package<
        F1: FnOnce(Vec<Vec<u8>>) -> Result<(), Error>,
        F2: FnOnce() -> Result<String, Error>,
    >(&mut self, spec: &CrateSpec, run_install: F1, list_runner: F2) -> (r: Result<
        PackageVersion,
        Error,
    >)
        requires
            forall|a: Vec<Vec<u8>>| call_requires(run_install, (a,)),
            call_requires(list_runner, ()),
        ensures
            r is Ok ==> r.unwrap() == (match lookup_last(final(self).crates_view(), spec.name.0@) {
                Option::Some(v) => v,
                Option::None => PackageVersion::Absent,
            }),
            spec_install_args(*spec) is None ==> r is Err && (r.unwrap_err()
                matches Error::UnsupportedPackageSource(_)),
            r is Err ==> *final(self) == *old(self),
    {
        let args = install_args(spec)?;
        match run_install(args) {
            Ok(u) => u,
            Err(e) => {
                return Err(e);
            },
        };
        self.refresh_state(list_runner)?;
        Ok(self.package_version(spec))
    }
}

} // verus!
