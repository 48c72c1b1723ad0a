use vstd::prelude::*;
use vstd::string::{StrSliceExecFns, StringSliceAdditionalSpecFns};

use crate::based_path::{bytes_eq, clone_bytes, BasedPath};
use crate::error::Error;
use crate::fsio::{file_mtime_ms, now_ms, read_rel_file};

verus! {

/// Look a key up in an association list, first match wins.
pub open spec fn assoc_lookup(m: Seq<(Seq<u8>, Seq<u8>)>, k: Seq<u8>) -> Option<Seq<u8>>
    decreases m.len(),
{
    if m.len() == 0 {
        None
    } else if m[0].0 == k {
        Some(m[0].1)
    } else {
        assoc_lookup(m.skip(1), k)
    }
}

/// The view of the memory tier.
pub open spec fn mem_view(m: Vec<(Vec<u8>, Vec<u8>)>) -> Seq<(Seq<u8>, Seq<u8>)> {
    Seq::new(m@.len(), |i: int| (m@[i].0@, m@[i].1@))
}

/// A cached value is fresh while the clock has not yet reached the
/// modification time plus the time-to-live.
pub open spec fn fresh_at(mtime_ms: i64, ttl_minutes: u64, now: i64) -> bool {
    (now as int) < (mtime_ms as int) + (ttl_minutes as int) * 60000
}

/// Decide freshness; the arithmetic is done in a wide type, so no
/// bound on the arguments is needed.
pub fn is_fresh(mtime_ms: i64, ttl_minutes: u64, now: i64) -> (r: bool)
    ensures
        r == fresh_at(mtime_ms, ttl_minutes, now),
{
    let expiry: i128 = mtime_ms as i128 + ttl_minutes as i128 * 60000;
    (now as i128) < expiry
}

/// Law: a cache entry seen before its expiry is fresh, and one seen at
/// or after its expiry is stale, whatever the time-to-live.
pub proof fn lemma_fresh_boundary(mtime_ms: i64, ttl_minutes: u64, now: i64)
    ensures
        (now as int) < (mtime_ms as int) + (ttl_minutes as int) * 60000 <==> fresh_at(
            mtime_ms,
            ttl_minutes,
            now,
        ),
        ttl_minutes == 0 && now >= mtime_ms ==> !fresh_at(mtime_ms, ttl_minutes, now),
{
}

/// A two-tier read-through cache: a process-lifetime memory tier, a
/// disk tier under a cache root read through the file system, and a
/// queue of writes that still have to reach the disk. A value in the
/// memory tier is trusted for the rest of the run; a disk entry counts
/// only while it is fresh; every failure of the disk tier falls back
/// to recomputation and is never surfaced.
pub struct Cache {
    /// The cache root directory.
    pub base: BasedPath,
    /// The memory tier: key bytes to value bytes, keys unique.
    pub mem: Vec<(Vec<u8>, Vec<u8>)>,
    /// Writes that have not reached the disk yet: relative file name
    /// to value bytes.
    pub dirty: Vec<(Vec<u8>, Vec<u8>)>,
}

impl Cache {
    /// The memory tier as a mathematical association list.
    pub open spec fn mem_map(self) -> Seq<(Seq<u8>, Seq<u8>)> {
        mem_view(self.mem)
    }

    /// A fresh cache over the given root directory.
    pub fn new(dir: BasedPath) -> (r: Cache)
        ensures
            r.mem_map().len() == 0,
            r.dirty@.len() == 0,
            r.base == dir,
    {
        Cache { base: dir, mem: Vec::new(), dirty: Vec::new() }
    }

    /// Look a key up in the memory tier.
    fn mem_get(&self, key: &Vec<u8>) -> (r: Option<Vec<u8>>)
        ensures
            r is Some <==> assoc_lookup(self.mem_map(), key@) is Some,
            r is Some ==> r.unwrap()@ == assoc_lookup(self.mem_map(), key@).unwrap(),
    {
        let mut i: usize = 0;
        proof {
            assert(self.mem_map().skip(0) =~= self.mem_map());
        }
        while i < self.mem.len()
            invariant
                0 <= i <= self.mem@.len(),
                assoc_lookup(self.mem_map(), key@) == assoc_lookup(
                    self.mem_map().skip(i as int),
                    key@,
                ),
            decreases self.mem@.len() - i,
        {
            let ghost rem = self.mem_map().skip(i as int);
            proof {
                assert(rem[0] == self.mem_map()[i as int]);
                assert(rem.skip(1) =~= self.mem_map().skip(i as int + 1));
            }
            let pair = &self.mem[i];
            if bytes_eq(&pair.0, key) {
                return Some(clone_bytes(&pair.1));
            }
            i = i + 1;
        }
        proof {
            assert(self.mem_map().skip(self.mem@.len() as int) =~= Seq::<(
                Seq<u8>,
                Seq<u8>,
            )>::empty());
        }
        None
    }

    /// Store a value in the memory tier under a key that is not there
    /// yet.
    fn mem_put(&mut self, key: Vec<u8>, val: Vec<u8>)
        requires
            assoc_lookup(old(self).mem_map(), key@) is None,
        ensures
            final(self).base == old(self).base,
            final(self).dirty == old(self).dirty,
            assoc_lookup(final(self).mem_map(), key@) == Some(val@),
            forall|k: Seq<u8>|
                k != key@ ==> assoc_lookup(final(self).mem_map(), k) == assoc_lookup(
                    old(self).mem_map(),
                    k,
                ),
    {
        let ghost before = self.mem_map();
        self.mem.push((key, val));
        proof {
            let after = self.mem_map();
            assert(after.len() == before.len() + 1);
            assert forall|j: int| 0 <= j < before.len() implies after[j] == before[j] by {}
            assert(after.last() == (key@, val@));
            assert(after =~= before.push((key@, val@)));
            assert forall|k: Seq<u8>| true implies assoc_lookup(after, k) == (if k == key@ {
                Some(val@)
            } else {
                assoc_lookup(before, k)
            }) by {
                lemma_assoc_push(before, key@, val@, k);
            }
        }
    }

    /// Read the key through the cache. A memory hit returns the very
    /// bytes stored earlier this run and touches nothing. Otherwise a
    /// fresh disk entry is read, promoted into the memory tier and
    /// returned; any disk failure falls through. Otherwise `compute`
    /// runs: its error is the call's error, and its value is stored in
    /// the memory tier and queued for the disk before it is returned.
    /// The key is used verbatim: the only write the call may queue is
    /// `<key>.json` with the computed bytes, and nothing else enters
    /// the queue.
    pub fn get_or_insert<F: FnOnce() -> Result<Vec<u8>, Error>>(
        &mut self,
        key: &str,
        ttl_minutes: u64,
        compute: F,
    ) -> (r: Result<Vec<u8>, Error>)
        requires
            call_requires(compute, ()),
        ensures
            final(self).base == old(self).base,
            assoc_lookup(old(self).mem_map(), key.spec_bytes()) is Some ==> r is Ok
                && r.unwrap()@ == assoc_lookup(old(self).mem_map(), key.spec_bytes()).unwrap()
                && *final(self) == *old(self),
            r is Ok ==> assoc_lookup(final(self).mem_map(), key.spec_bytes()) == Some(
                r.unwrap()@,
            ),
            forall|k: Seq<u8>|
                k != key.spec_bytes() ==> assoc_lookup(final(self).mem_map(), k) == assoc_lookup(
                    old(self).mem_map(),
                    k,
                ),
            r is Err ==> call_ensures(compute, (), Result::Err(r.unwrap_err())) && *final(self)
                == *old(self),
            old(self).dirty@.is_prefix_of(final(self).dirty@),
            final(self).dirty@.len() <= old(self).dirty@.len() + 1,
            final(self).dirty@.len() == old(self).dirty@.len() + 1 ==> r is Ok && final(self).dirty@.last().0@ == key.spec_bytes() + seq![46u8, 106, 115, 111, 110] && final(self).dirty@.last().1@ == r.unwrap()@,
    {
        let kb = key.as_bytes_vec();
        self.get_or_insert_bytes(&kb, ttl_minutes, compute)
    }

    /// [`Self::get_or_insert`], taking the key as bytes.
    pub fn get_or_insert_bytes<F: FnOnce() -> Result<Vec<u8>, Error>>(
        &mut self,
        key: &Vec<u8>,
        ttl_minutes: u64,
        compute: F,
    ) -> (r: Result<Vec<u8>, Error>)
        requires
            call_requires(compute, ()),
        ensures
            final(self).base == old(self).base,
            assoc_lookup(old(self).mem_map(), key@) is Some ==> r is Ok && r.unwrap()@
                == assoc_lookup(old(self).mem_map(), key@).unwrap() && *final(self) == *old(self),
            r is Ok ==> assoc_lookup(final(self).mem_map(), key@) == Some(r.unwrap()@),
            forall|k: Seq<u8>|
                k != key@ ==> assoc_lookup(final(self).mem_map(), k) == assoc_lookup(
                    old(self).mem_map(),
                    k,
                ),
            r is Err ==> call_ensures(compute, (), Result::Err(r.unwrap_err())) && *final(self)
                == *old(self),
            old(self).dirty@.is_prefix_of(final(self).dirty@),
            final(self).dirty@.len() <= old(self).dirty@.len() + 1,
            final(self).dirty@.len() == old(self).dirty@.len() + 1 ==> r is Ok && final(self).dirty@.last().0@ == key@ + seq![46u8, 106, 115, 111, 110] && final(self).dirty@.last().1@ == r.unwrap()@,
    {
        let kb = clone_bytes(key);
        if let Some(v) = self.mem_get(&kb) {
            return Ok(v);
        }
        // the disk entry lives at `<key>.json` under the cache root
        let mut rel = clone_bytes(&kb);
        rel.push(46);
        rel.push(106);
        rel.push(115);
        rel.push(111);
        rel.push(110);
        let mut full = self.base.as_path();
        full.push(crate::based_path::SEP);
        let mut rel_copy = clone_bytes(&rel);
        full.append(&mut rel_copy);
        if let Some(mtime) = file_mtime_ms(&full) {
            if is_fresh(mtime, ttl_minutes, now_ms()) {
                let base_bytes = self.base.as_path();
                if let Ok(data) = read_rel_file(&base_bytes, &rel) {
                    let keep = clone_bytes(&data);
                    self.mem_put(kb, keep);
                    return Ok(data);
                }
            }
        }
        let computed = match compute() {
            Ok(v) => v,
            Err(e) => {
                return Err(e);
            },
        };
        let keep = clone_bytes(&computed);
        self.mem_put(kb, keep);
        let dirty_val = clone_bytes(&computed);
        self.dirty.push((rel, dirty_val));
        Ok(computed)
    }

    /// Hand out the queued disk writes and clear the queue; the caller
    /// persists them, and may ignore any failure while doing so.
    pub fn take_pending_writes(&mut self) -> (r: Vec<(Vec<u8>, Vec<u8>)>)
        ensures
            r == old(self).dirty,
            final(self).dirty@.len() == 0,
            final(self).mem == old(self).mem,
            final(self).base == old(self).base,
    {
        let mut t: Vec<(Vec<u8>, Vec<u8>)> = Vec::new();
        core::mem::swap(&mut self.dirty, &mut t);
        t
    }
}

/// Looking up any key after pushing a binding: the pushed key finds
/// the pushed value only if it was absent before; other keys are
/// untouched.
proof fn lemma_assoc_push(m: Seq<(Seq<u8>, Seq<u8>)>, key: Seq<u8>, val: Seq<u8>, k: Seq<u8>)
    requires
        assoc_lookup(m, key) is None,
    ensures
        assoc_lookup(m.push((key, val)), k) == (if k == key {
            Some(val)
        } else {
            assoc_lookup(m, k)
        }),
    decreases m.len(),
{
    let m2 = m.push((key, val));
    if m.len() == 0 {
        assert(m2[0] == (key, val));
        if k == key {
            assert(m2[0].0 == k);
            assert(assoc_lookup(m2, k) == Some(val));
        } else {
            assert(m2[0].0 == key);
            assert(m2.skip(1) =~= Seq::<(Seq<u8>, Seq<u8>)>::empty());
            assert(assoc_lookup(m2, k) == assoc_lookup(m2.skip(1), k));
            assert(assoc_lookup(m2.skip(1), k) is None);
        }
    } else {
        assert(m2[0] == m[0]);
        assert(m2.skip(1) =~= m.skip(1).push((key, val)));
        assert(m[0].0 != key);
        lemma_assoc_push(m.skip(1), key, val, k);
        if m[0].0 == k {
            assert(assoc_lookup(m2, k) == Some(m[0].1));
            assert(assoc_lookup(m, k) == Some(m[0].1));
            assert(k != key);
        } else {
            assert(assoc_lookup(m2, k) == assoc_lookup(m.skip(1).push((key, val)), k));
            assert(assoc_lookup(m, k) == assoc_lookup(m.skip(1), k));
        }
    }
}

} // verus!
