use vstd::prelude::*;
use vstd::string::{StrSliceExecFns, StringSliceAdditionalSpecFns};

use crate::based_path::{comps_view, join_comps, join_exec, norm_fold, split_comps, split_exec};
use crate::config::Filter;
use crate::env::{Env, ShadowedDir};
use crate::error::Error;
use crate::managed_file::{LocalFile, ManagedFile, Owner};
use crate::walk_dir::{entries_view, sorted_strict, spec_merge, walk_dirs};

verus! {

/// A field-for-field copy of an owner tag.
pub fn clone_owner(o: &Owner) -> (r: Owner)
    ensures
        r == *o,
{
    match o {
        Owner::Ssh => Owner::Ssh,
        Owner::Shell => Owner::Shell,
        Owner::Package(s) => Owner::Package(s.clone()),
    }
}

/// Whether a relative path can name a dotfile: its file name (the last
/// component) exists, is not `.` or `..`, and starts with a dot.
pub open spec fn dotfile_ok(rb: Seq<u8>) -> bool {
    let name = split_comps(rb).last();
    &&& name.len() > 0
    &&& name != seq![46u8]
    &&& name != seq![46u8, 46u8]
    &&& name[0] == 46
}

/// The mirror-side components of a dotfile path: the same components
/// with the leading dot stripped from the file name.
pub open spec fn dotfile_mirror_comps(rb: Seq<u8>) -> Seq<Seq<u8>> {
    let cs = split_comps(rb);
    cs.update(cs.len() - 1, cs.last().skip(1))
}

/// Collects the tracked files of one run.
pub struct ManagedFiles<'env> {
    /// The environment the collector works in.
    pub env: &'env Env,
    /// The files collected so far.
    pub files: Vec<ManagedFile>,
}

impl<'env> ManagedFiles<'env> {
    /// The tracked files collected so far.
    pub open spec fn files_view(self) -> Seq<ManagedFile> {
        self.files@
    }

    /// The environment this collector works in.
    pub open spec fn env_view(self) -> Env {
        *self.env
    }

    /// An empty collector over the given environment.
    pub fn new(env: &'env Env) -> (r: Self)
        ensures
            r.files_view().len() == 0,
            r.env_view() == *env,
    {
        ManagedFiles { env, files: Vec::new() }
    }

    /// Add one tracked file.
    pub fn add_file(&mut self, file: ManagedFile)
        ensures
            final(self).files_view() == old(self).files_view().push(file),
            final(self).env_view() == old(self).env_view(),
    {
        self.files.push(file);
    }

    /// Add one mirrored file for every path the walker emits under the
    /// given pair, whichever side it came from, with the given owner:
    /// on success the list grows by exactly one file per merge entry of
    /// two sorted listings under the given filter, in merge order, each
    /// derived under the pair at the entry's relative path. A walk
    /// failure aborts and leaves no partial additions behind the error.
    pub fn add_dir(&mut self, owner: &Owner, dir: &ShadowedDir, local_filter: &Filter) -> (r:
        Result<(), Error>)
        requires
            old(self).env_view().wf(),
            dir.wf(),
        ensures
            final(self).env_view() == old(self).env_view(),
            old(self).files_view().is_prefix_of(final(self).files_view()),
            forall|k: int|
                old(self).files_view().len() <= k < final(self).files_view().len() ==> ((
                #[trigger] final(self).files_view()[k]) matches ManagedFile::Local(o, f)
                    && o == *owner && f.local.base_bytes() == dir.local.base_bytes()
                    && f.logix.base_bytes() == dir.logix.base_bytes()),
            r is Ok ==> exists|rv: Seq<Seq<u8>>, mv: Seq<Seq<u8>>|
                {
                    let entries = #[trigger] spec_merge(rv, mv, local_filter.entries_bytes());
                    &&& sorted_strict(rv)
                    &&& sorted_strict(mv)
                    &&& final(self).files_view().len() == old(self).files_view().len()
                        + entries.len()
                    &&& forall|k: int|
                        0 <= k < entries.len() ==> ((#[trigger] final(self).files_view()[old(
                            self,
                        ).files_view().len() + k]) matches ManagedFile::Local(o, f) && o == *owner
                            && dir.derives(entries[k].1, f.local, f.logix))
                },
    {
        let entries = walk_dirs(dir, local_filter)?;
        let ghost f = local_filter.entries_bytes();
        let ghost rv = choose|rv: Seq<Seq<u8>>, mv: Seq<Seq<u8>>|
            sorted_strict(rv) && sorted_strict(mv) && entries_view(entries) == #[trigger] spec_merge(
                rv,
                mv,
                f,
            );
        let ghost ev = entries_view(entries);
        let ghost start = self.files@;
        let mut i: usize = 0;
        while i < entries.len()
            invariant
                old(self).env_view().wf(),
                dir.wf(),
                self.env == old(self).env,
                start == old(self).files_view(),
                start.is_prefix_of(self.files@),
                ev == entries_view(entries),
                i <= entries@.len(),
                self.files@.len() == start.len() + i,
                forall|k: int|
                    0 <= k < i ==> ((#[trigger] self.files@[start.len() + k])
                        matches ManagedFile::Local(o, ff) && o == *owner && dir.derives(
                        ev[k].1,
                        ff.local,
                        ff.logix,
                    )),
                forall|k: int|
                    start.len() <= k < self.files@.len() ==> ((#[trigger] self.files@[k])
                        matches ManagedFile::Local(o, ff) && o == *owner && ff.local.base_bytes()
                        == dir.local.base_bytes() && ff.logix.base_bytes()
                        == dir.logix.base_bytes()),
            decreases entries@.len() - i,
        {
            let rel = entries[i].rel_path();
            proof {
                assert(rel@ == ev[i as int].1);
            }
            let file = dir.make_local_file_bytes(rel)?;
            self.files.push(ManagedFile::Local(clone_owner(owner), file));
            proof {
                assert(start.is_prefix_of(self.files@));
            }
            i = i + 1;
        }
        proof {
            let (rva, mva) = rv;
            assert(sorted_strict(rva) && sorted_strict(mva) && ev == spec_merge(rva, mva, f));
            assert(self.files@.len() == start.len() + spec_merge(rva, mva, f).len());
        }
        Ok(())
    }

    /// Add one mirrored file at the given relative path under the
    /// given pair; succeeds exactly when the path joins under both
    /// sides, and then appends exactly that derived file.
    pub fn add_local_file(&mut self, owner: &Owner, dir: &ShadowedDir, rel_path: &str) -> (r:
        Result<(), Error>)
        requires
            dir.wf(),
        ensures
            final(self).env_view() == old(self).env_view(),
            r is Ok <==> dir.local.join_ok(rel_path.spec_bytes()) && dir.logix.join_ok(
                rel_path.spec_bytes(),
            ),
            r is Ok ==> final(self).files_view().len() == old(self).files_view().len() + 1
                && old(self).files_view().is_prefix_of(final(self).files_view())
                && (final(self).files_view().last() matches ManagedFile::Local(o, f) && o == *owner
                && dir.derives(rel_path.spec_bytes(), f.local, f.logix)),
            r is Err ==> final(self).files_view() == old(self).files_view(),
    {
        let file = dir.make_local_file(rel_path)?;
        self.files.push(ManagedFile::Local(clone_owner(owner), file));
        Ok(())
    }

    /// Add one mirrored file under the user configuration pair;
    /// succeeds exactly when the path joins under both of its sides.
    pub fn add_config_file(&mut self, owner: &Owner, rel_path: &str) -> (r: Result<(), Error>)
        requires
            old(self).env_view().wf(),
        ensures
            final(self).env_view() == old(self).env_view(),
            r is Ok <==> old(self).env_view().user_config.local.join_ok(rel_path.spec_bytes())
                && old(self).env_view().user_config.logix.join_ok(rel_path.spec_bytes()),
            r is Ok ==> final(self).files_view().len() == old(self).files_view().len() + 1 && old(self).files_view().is_prefix_of(final(self).files_view()) && (final(self).files_view().last() matches ManagedFile::Local(o, f) && o == *owner && old(self).env_view().user_config.derives(rel_path.spec_bytes(), f.local, f.logix)),
            r is Err ==> final(self).files_view() == old(self).files_view(),
    {
        let rb = rel_path.as_bytes_vec();
        self.add_config_file_bytes(owner, &rb)
    }

    /// [`Self::add_config_file`], taking the relative path as bytes.
    pub fn add_config_file_bytes(&mut self, owner: &Owner, rel: &Vec<u8>) -> (r: Result<(), Error>)
        requires
            old(self).env_view().wf(),
        ensures
            final(self).env_view() == old(self).env_view(),
            r is Ok <==> old(self).env_view().user_config.local.join_ok(rel@) && old(
                self,
            ).env_view().user_config.logix.join_ok(rel@),
            r is Ok ==> final(self).files_view().len() == old(self).files_view().len() + 1 && old(self).files_view().is_prefix_of(final(self).files_view()) && (final(self).files_view().last() matches ManagedFile::Local(o, f) && o == *owner && old(self).env_view().user_config.derives(rel@, f.local, f.logix)),
            r is Err ==> final(self).files_view() == old(self).files_view(),
    {
        let dir = self.env.user_config();
        let file = dir.make_local_file_bytes(rel)?;
        self.files.push(ManagedFile::Local(clone_owner(owner), file));
        Ok(())
    }

    /// Add a dotfile: the real side lives under the home directory at
    /// the given relative path, and the mirror side under the dotfiles
    /// mirror with the leading `.` stripped from the file name. A path
    /// without a usable file name (empty, `.` or `..`) is rejected, as
    /// is a name that does not start with `.`; otherwise the call
    /// succeeds exactly when both sides join, and appends exactly the
    /// derived file.
    pub fn add_dotfile(&mut self, owner: &Owner, rel_path: &str) -> (r: Result<(), Error>)
        requires
            old(self).env_view().wf(),
        ensures
            final(self).env_view() == old(self).env_view(),
            ({
                let rb = rel_path.spec_bytes();
                let name = split_comps(rb).last();
                &&& (name.len() == 0 || name == seq![46u8] || name == seq![46u8, 46u8] ==> r is Err
                    && (r.unwrap_err() matches Error::GetFileName(_)))
                &&& (name.len() > 0 && name[0] != 46 ==> r is Err && (r.unwrap_err()
                    matches Error::FileNameNotDotfile(_)))
            }),
            r is Ok <==> dotfile_ok(rel_path.spec_bytes()) && old(self).env_view().dotfiles.local.join_ok(rel_path.spec_bytes()) && old(self).env_view().dotfiles.logix.join_ok(
                join_comps(dotfile_mirror_comps(rel_path.spec_bytes())),
            ),
            r is Ok ==> final(self).files_view().len() == old(self).files_view().len() + 1 && old(self).files_view().is_prefix_of(final(self).files_view()) && ({
                let rb = rel_path.spec_bytes();
                let env = old(self).env_view();
                final(self).files_view().last() matches ManagedFile::Local(o, f) && o == *owner
                    && f.local.wf() && f.logix.wf() && f.local.base_bytes()
                    == env.dotfiles.local.base_bytes() && f.local.rel_comps() == norm_fold(
                    env.dotfiles.local.rel_comps(),
                    split_comps(rb),
                ).unwrap() && f.logix.base_bytes() == env.dotfiles.logix.base_bytes()
                    && f.logix.rel_comps() == norm_fold(
                    env.dotfiles.logix.rel_comps(),
                    dotfile_mirror_comps(rb),
                ).unwrap()
            }),
            r is Err ==> final(self).files_view() == old(self).files_view(),
    {
        let rb = rel_path.as_bytes_vec();
        self.add_dotfile_bytes(owner, &rb)
    }

    pub fn add_dotfile_bytes(&mut self, owner: &Owner, rel: &Vec<u8>) -> (r: Result<(), Error>)
        requires
            old(self).env_view().wf(),
        ensures
            final(self).env_view() == old(self).env_view(),
            ({
                let rb = rel@;
                let name = split_comps(rb).last();
                &&& (name.len() == 0 || name == seq![46u8] || name == seq![46u8, 46u8] ==> r is Err
                    && (r.unwrap_err() matches Error::GetFileName(_)))
                &&& (name.len() > 0 && name[0] != 46 ==> r is Err && (r.unwrap_err()
                    matches Error::FileNameNotDotfile(_)))
            }),
            r is Ok <==> dotfile_ok(rel@) && old(self).env_view().dotfiles.local.join_ok(rel@) && old(self).env_view().dotfiles.logix.join_ok(
                join_comps(dotfile_mirror_comps(rel@)),
            ),
            r is Ok ==> final(self).files_view().len() == old(self).files_view().len() + 1 && old(self).files_view().is_prefix_of(final(self).files_view()) && ({
                let rb = rel@;
                let env = old(self).env_view();
                final(self).files_view().last() matches ManagedFile::Local(o, f) && o == *owner
                    && f.local.wf() && f.logix.wf() && f.local.base_bytes()
                    == env.dotfiles.local.base_bytes() && f.local.rel_comps() == norm_fold(
                    env.dotfiles.local.rel_comps(),
                    split_comps(rb),
                ).unwrap() && f.logix.base_bytes() == env.dotfiles.logix.base_bytes()
                    && f.logix.rel_comps() == norm_fold(
                    env.dotfiles.logix.rel_comps(),
                    dotfile_mirror_comps(rb),
                ).unwrap()
            }),
            r is Err ==> final(self).files_view() == old(self).files_view(),
    {
        let rb = crate::based_path::clone_bytes(rel);
        let mut cs = split_exec(&rb);
        let ghost csv = split_comps(rel@);
        proof {
            crate::based_path::lemma_split_nonempty(rel@);
            assert(comps_view(cs).len() == csv.len());
            assert(cs@.len() >= 1);
            assert(comps_view(cs)[csv.len() - 1] == csv.last());
            assert(cs@[cs@.len() - 1]@ == csv.last());
        }
        let ghost before_pop = comps_view(cs);
        let name = cs.pop().unwrap();
        proof {
            assert(name@ == csv.last());
            assert forall|j: int| 0 <= j < cs@.len() implies #[trigger] cs@[j]@ == csv[j] by {
                assert(before_pop[j] == csv[j]);
            }
        }
        if name.len() == 0 {
            return Err(Error::GetFileName(rb));
        }
        if name.len() == 1 && name[0] == 46 {
            proof {
                assert(name@ =~= seq![46u8]);
            }
            return Err(Error::GetFileName(rb));
        }
        if name.len() == 2 && name[0] == 46 && name[1] == 46 {
            proof {
                assert(name@ =~= seq![46u8, 46u8]);
            }
            return Err(Error::GetFileName(rb));
        }
        if name[0] != 46 {
            proof {
                assert(!dotfile_ok(rel@));
            }
            return Err(Error::FileNameNotDotfile(rb));
        }
        proof {
            assert(!(name@ =~= seq![46u8]));
            assert(!(name@ =~= seq![46u8, 46u8]));
            assert(dotfile_ok(rel@));
        }
        // the file name with its leading dot stripped
        let mut nm: Vec<u8> = Vec::new();
        let mut k: usize = 1;
        while k < name.len()
            invariant
                1 <= k <= name@.len(),
                nm@ == name@.subrange(1, k as int),
            decreases name@.len() - k,
        {
            nm.push(name[k]);
            k = k + 1;
            assert(nm@ =~= name@.subrange(1, k as int));
        }
        proof {
            assert(nm@ =~= name@.skip(1));
        }
        cs.push(nm);
        proof {
            assert(comps_view(cs) =~~= dotfile_mirror_comps(rel@));
        }
        let stripped = join_exec(&cs);
        proof {
            let rbv = rel@;
            let mc = dotfile_mirror_comps(rbv);
            assert(stripped@ == join_comps(mc));
            crate::based_path::lemma_split_comps_sep_free(rbv);
            assert forall|j: int|
                0 <= j < mc.len() implies crate::based_path::sep_free(#[trigger] mc[j]) by {
                if j < mc.len() - 1 {
                    assert(mc[j] == split_comps(rbv)[j]);
                } else {
                    assert(mc[j] =~= csv.last().skip(1));
                    assert(crate::based_path::sep_free(csv.last()));
                    assert forall|m: int|
                        0 <= m < csv.last().skip(1).len() implies #[trigger] csv.last().skip(1)[m]
                        != crate::based_path::SEP by {
                        assert(csv.last().skip(1)[m] == csv.last()[m + 1]);
                    }
                }
            }
            crate::based_path::lemma_split_join_sep_free(mc);
            assert(split_comps(stripped@) =~~= mc);
        }
        let dir = self.env.dotfiles();
        let local = dir.local_path().join_bytes(&rb)?;
        let logix = dir.logix_path().join_bytes(&stripped)?;
        self.files.push(ManagedFile::Local(clone_owner(owner), LocalFile { local, logix }));
        Ok(())
    }

    /// Hand the collected files out.
    pub fn finalize(self) -> (r: Vec<ManagedFile>)
        ensures
            r@ == self.files_view(),
    {
        self.files
    }
}

} // verus!
