use vstd::prelude::*;

use crate::based_path::{comps_view, SEP};
use crate::config::{excludes_prefix, filter_included, Filter};
use crate::env::ShadowedDir;
use crate::error::Error;
use crate::fsio::path_exists;

verus! {

/// The sort key of one byte: the separator orders below every other
/// byte (it swaps places with NUL), so that the resulting order on
/// paths equals the component-wise order that the platform uses.
pub open spec fn order_key(b: u8) -> u8 {
    if b == SEP {
        0
    } else if b == 0 {
        SEP
    } else {
        b
    }
}

/// Strict lexicographic order on paths under [`order_key`].
pub open spec fn path_lt(a: Seq<u8>, b: Seq<u8>) -> bool
    decreases a.len(),
{
    if b.len() == 0 {
        false
    } else if a.len() == 0 {
        true
    } else if order_key(a[0]) != order_key(b[0]) {
        order_key(a[0]) < order_key(b[0])
    } else {
        path_lt(a.skip(1), b.skip(1))
    }
}

/// Exactly one of `a < b`, `a == b`, `b < a` holds.
pub proof fn lemma_path_lt_trichotomy(a: Seq<u8>, b: Seq<u8>)
    ensures
        path_lt(a, b) || path_lt(b, a) || a == b,
        path_lt(a, b) ==> !path_lt(b, a) && a != b,
        path_lt(b, a) ==> !path_lt(a, b) && a != b,
    decreases a.len(),
{
    if b.len() == 0 || a.len() == 0 {
        if a.len() == b.len() {
            assert(a =~= b);
        }
    } else if order_key(a[0]) != order_key(b[0]) {
        assert(a[0] != b[0]);
        assert(a != b);
    } else {
        assert(a[0] == b[0]);
        lemma_path_lt_trichotomy(a.skip(1), b.skip(1));
        if a.skip(1) == b.skip(1) {
            assert(a.len() == b.len());
            assert forall|m: int| 0 <= m < a.len() implies a[m] == b[m] by {
                if m > 0 {
                    assert(a.skip(1)[m - 1] == b.skip(1)[m - 1]);
                }
            }
            assert(a =~= b);
        }
        if a == b {
            assert(a.skip(1) =~= b.skip(1));
        }
    }
}

/// The order is transitive.
pub proof fn lemma_path_lt_trans(a: Seq<u8>, b: Seq<u8>, c: Seq<u8>)
    requires
        path_lt(a, b),
        path_lt(b, c),
    ensures
        path_lt(a, c),
    decreases a.len(),
{
    if a.len() == 0 {
        assert(b.len() > 0);
        assert(c.len() > 0);
    } else {
        assert(b.len() > 0 && c.len() > 0);
        if order_key(a[0]) == order_key(b[0]) && order_key(b[0]) == order_key(c[0]) {
            lemma_path_lt_trans(a.skip(1), b.skip(1), c.skip(1));
        }
    }
}

/// Compare two paths under the component order.
pub fn path_lt_exec(a: &Vec<u8>, b: &Vec<u8>) -> (r: bool)
    ensures
        r == path_lt(a@, b@),
    decreases a@.len(),
{
    let mut i: usize = 0;
    proof {
        assert(a@.skip(0) =~= a@);
        assert(b@.skip(0) =~= b@);
    }
    loop
        invariant
            0 <= i <= a@.len(),
            0 <= i <= b@.len(),
            forall|j: int| 0 <= j < i ==> a@[j] == b@[j],
            path_lt(a@, b@) == path_lt(a@.skip(i as int), b@.skip(i as int)),
        decreases a@.len() - i,
    {
        let ghost ar = a@.skip(i as int);
        let ghost br = b@.skip(i as int);
        if i >= b.len() {
            assert(br.len() == 0);
            return false;
        }
        if i >= a.len() {
            assert(ar.len() == 0 && br.len() > 0);
            return true;
        }
        let ka = order_key_exec(a[i]);
        let kb = order_key_exec(b[i]);
        proof {
            assert(ar[0] == a@[i as int] && br[0] == b@[i as int]);
            assert(ar.skip(1) =~= a@.skip(i as int + 1));
            assert(br.skip(1) =~= b@.skip(i as int + 1));
        }
        if ka != kb {
            return ka < kb;
        }
        proof {
            assert(a@[i as int] == b@[i as int]) by {
                lemma_order_key_injective(a@[i as int], b@[i as int]);
            }
        }
        i = i + 1;
    }
}

/// `order_key` never sends two bytes to the same key.
pub proof fn lemma_order_key_injective(x: u8, y: u8)
    requires
        order_key(x) == order_key(y),
    ensures
        x == y,
{
}

fn order_key_exec(b: u8) -> (r: u8)
    ensures
        r == order_key(b),
{
    if b == SEP {
        0
    } else if b == 0 {
        SEP
    } else {
        b
    }
}

/// A path listing in strictly increasing order (so also free of
/// duplicates).
pub open spec fn sorted_strict(s: Seq<Seq<u8>>) -> bool {
    forall|i: int, j: int| 0 <= i < j < s.len() ==> path_lt(#[trigger] s[i], #[trigger] s[j])
}

/// Sort a listing into strictly increasing order, dropping duplicate
/// paths; the set of paths is kept exactly.
pub fn sort_dedup_paths(v: Vec<Vec<u8>>) -> (r: Vec<Vec<u8>>)
    ensures
        sorted_strict(comps_view(r)),
        forall|p: Seq<u8>| comps_view(r).contains(p) <==> comps_view(v).contains(p),
{
    let mut r: Vec<Vec<u8>> = Vec::new();
    let mut i: usize = 0;
    while i < v.len()
        invariant
            0 <= i <= v@.len(),
            sorted_strict(comps_view(r)),
            forall|p: Seq<u8>| comps_view(r).contains(p) <==> comps_view(v).take(i as int).contains(
                p,
            ),
        decreases v@.len() - i,
    {
        let ghost x = v@[i as int]@;
        let mut pos: usize = 0;
        while pos < r.len() && path_lt_exec(&r[pos], &v[i])
            invariant
                0 <= pos <= r@.len(),
                0 <= i < v@.len(),
                x == v@[i as int]@,
                forall|j: int| 0 <= j < pos ==> path_lt(#[trigger] comps_view(r)[j], x),
            decreases r@.len() - pos,
        {
            pos = pos + 1;
        }
        let ghost rv = comps_view(r);
        if pos < r.len() && crate::based_path::bytes_eq(&r[pos], &v[i]) {
            proof {
                assert(rv[pos as int] == x);
                assert(rv.contains(x));
                lemma_take_push_contains(comps_view(v), i as int);
                assert forall|p: Seq<u8>| comps_view(r).contains(p) <==> comps_view(v).take(
                    i as int + 1,
                ).contains(p) by {
                    assert(comps_view(r).contains(p) <==> comps_view(v).take(i as int).contains(p));
                    if p == x {
                        assert(comps_view(r).contains(p));
                    }
                }
            }
        } else {
            proof {
                if pos < rv.len() {
                    lemma_path_lt_trichotomy(rv[pos as int], x);
                    assert(path_lt(x, rv[pos as int]));
                }
            }
            let copy = crate::based_path::clone_bytes(&v[i]);
            r.insert(pos, copy);
            proof {
                let rn = comps_view(r);
                assert(rn.len() == rv.len() + 1);
                assert forall|j: int| 0 <= j < rn.len() implies #[trigger] rn[j] == (if j
                    < pos as int {
                    rv[j]
                } else if j == pos as int {
                    x
                } else {
                    rv[j - 1]
                }) by {
                    if j < pos as int {
                        assert(r@[j]@ == rv[j]);
                    } else if j == pos as int {
                    } else {
                        assert(r@[j]@ == rv[j - 1]);
                    }
                }
                assert forall|j: int, k: int| 0 <= j < k < rn.len() implies path_lt(
                    #[trigger] rn[j],
                    #[trigger] rn[k],
                ) by {
                    if j < pos as int && k < pos as int {
                    } else if j < pos as int && k == pos as int {
                        assert(path_lt(rv[j], x));
                    } else if j < pos as int && k > pos as int {
                        assert(path_lt(rv[j], rv[k - 1]));
                    } else if j == pos as int && k > pos as int {
                        if pos as int <= k - 1 < rv.len() {
                            if k - 1 == pos as int {
                                assert(path_lt(x, rv[pos as int]));
                            } else {
                                assert(path_lt(x, rv[pos as int]));
                                assert(path_lt(rv[pos as int], rv[k - 1]));
                                lemma_path_lt_trans(x, rv[pos as int], rv[k - 1]);
                            }
                        }
                    } else {
                        assert(path_lt(rv[j - 1], rv[k - 1]));
                    }
                }
                assert(sorted_strict(rn));
                assert forall|p: Seq<u8>| rn.contains(p) <==> rv.contains(p) || p == x by {
                    if rn.contains(p) {
                        let w = choose|w: int| 0 <= w < rn.len() && #[trigger] rn[w] == p;
                        if w < pos as int {
                            assert(rv[w] == p);
                        } else if w == pos as int {
                        } else {
                            assert(rv[w - 1] == p);
                        }
                    }
                    if rv.contains(p) {
                        let w = choose|w: int| 0 <= w < rv.len() && #[trigger] rv[w] == p;
                        if w < pos as int {
                            assert(rn[w] == p);
                        } else {
                            assert(rn[w + 1] == p);
                        }
                    }
                    if p == x {
                        assert(rn[pos as int] == p);
                    }
                }
                lemma_take_push_contains(comps_view(v), i as int);
                assert forall|p: Seq<u8>| comps_view(r).contains(p) <==> comps_view(v).take(
                    i as int + 1,
                ).contains(p) by {
                    assert(rn.contains(p) <==> rv.contains(p) || p == x);
                    assert(rv.contains(p) <==> comps_view(v).take(i as int).contains(p));
                }
            }
        }
        i = i + 1;
    }
    proof {
        assert(comps_view(v).take(v@.len() as int) =~= comps_view(v));
    }
    r
}

/// Membership in a one-longer prefix of a sequence.
proof fn lemma_take_push_contains(s: Seq<Seq<u8>>, i: int)
    requires
        0 <= i < s.len(),
    ensures
        forall|p: Seq<u8>| s.take(i + 1).contains(p) <==> s.take(i).contains(p) || p == s[i],
{
    assert forall|p: Seq<u8>| s.take(i + 1).contains(p) <==> s.take(i).contains(p) || p == s[i] by {
        if s.take(i + 1).contains(p) {
            let w = choose|w: int| 0 <= w < i + 1 && #[trigger] s.take(i + 1)[w] == p;
            if w < i {
                assert(s.take(i)[w] == p);
            }
        }
        if s.take(i).contains(p) {
            let w = choose|w: int| 0 <= w < i && #[trigger] s.take(i)[w] == p;
            assert(s.take(i + 1)[w] == p);
        }
        if p == s[i] {
            assert(s.take(i + 1)[i] == p);
        }
    }
}


/// The classification of one emitted path.
#[derive(Debug, Clone, Copy, PartialEq, Eq, Structural)]
pub enum WalkTag {
    /// Present on the real side only.
    Local,
    /// Present on both sides.
    Both,
    /// Present on the mirror side only.
    Logix,
}

/// One classified relative path emitted by the walker.
#[derive(Debug, Clone, PartialEq, Eq)]
pub enum WalkEntry {
    Local(Vec<u8>),
    Both(Vec<u8>),
    Logix(Vec<u8>),
}

impl WalkEntry {
    pub open spec fn tag(self) -> WalkTag {
        match self {
            WalkEntry::Local(_) => WalkTag::Local,
            WalkEntry::Both(_) => WalkTag::Both,
            WalkEntry::Logix(_) => WalkTag::Logix,
        }
    }

    pub open spec fn path(self) -> Seq<u8> {
        match self {
            WalkEntry::Local(p) => p@,
            WalkEntry::Both(p) => p@,
            WalkEntry::Logix(p) => p@,
        }
    }

    /// The relative path inside this entry.
    pub fn rel_path(&self) -> (r: &Vec<u8>)
        ensures
            r@ == self.path(),
    {
        match self {
            WalkEntry::Local(p) => p,
            WalkEntry::Both(p) => p,
            WalkEntry::Logix(p) => p,
        }
    }
}

/// The mathematical view of a list of walk entries.
pub open spec fn entries_view(v: Vec<WalkEntry>) -> Seq<(WalkTag, Seq<u8>)> {
    Seq::new(v@.len(), |i: int| (v@[i].tag(), v@[i].path()))
}

/// The two-pointer merge of two sorted listings, with the locals-side
/// filter applied: an excluded locals path is dropped as if absent; while
/// both cursors are live the lesser path is emitted with its side's
/// tag, equal paths are emitted once as both; a lone live side drains.
pub open spec fn spec_merge(locals: Seq<Seq<u8>>, logix: Seq<Seq<u8>>, f: Seq<Seq<u8>>) -> Seq<
    (WalkTag, Seq<u8>),
>
    decreases locals.len() + logix.len(),
{
    if locals.len() > 0 && !filter_included(f, locals[0]) {
        spec_merge(locals.skip(1), logix, f)
    } else if locals.len() == 0 && logix.len() == 0 {
        Seq::empty()
    } else if logix.len() == 0 {
        seq![(WalkTag::Local, locals[0])] + spec_merge(locals.skip(1), logix, f)
    } else if locals.len() == 0 {
        seq![(WalkTag::Logix, logix[0])] + spec_merge(locals, logix.skip(1), f)
    } else if path_lt(locals[0], logix[0]) {
        seq![(WalkTag::Local, locals[0])] + spec_merge(locals.skip(1), logix, f)
    } else if locals[0] == logix[0] {
        seq![(WalkTag::Both, locals[0])] + spec_merge(locals.skip(1), logix.skip(1), f)
    } else {
        seq![(WalkTag::Logix, logix[0])] + spec_merge(locals, logix.skip(1), f)
    }
}

/// Merge two listings into the classified stream of [`spec_merge`].
pub fn merge_listings(locals: &Vec<Vec<u8>>, logix: &Vec<Vec<u8>>, local_filter: &Filter) -> (r: Vec<
    WalkEntry,
>)
    ensures
        entries_view(r) == spec_merge(
            comps_view(*locals),
            comps_view(*logix),
            local_filter.entries_bytes(),
        ),
{
    let ghost rv = comps_view(*locals);
    let ghost mv = comps_view(*logix);
    let ghost f = local_filter.entries_bytes();
    let mut out: Vec<WalkEntry> = Vec::new();
    let mut i: usize = 0;
    let mut j: usize = 0;
    proof {
        assert(rv.skip(0) =~= rv);
        assert(mv.skip(0) =~= mv);
        assert(entries_view(out) =~= Seq::<(WalkTag, Seq<u8>)>::empty());
    }
    loop
        invariant
            0 <= i <= rv.len(),
            0 <= j <= mv.len(),
            rv == comps_view(*locals),
            mv == comps_view(*logix),
            f == local_filter.entries_bytes(),
            spec_merge(rv, mv, f) == entries_view(out) + spec_merge(
                rv.skip(i as int),
                mv.skip(j as int),
                f,
            ),
        decreases rv.len() - i + mv.len() - j,
    {
        let ghost before = entries_view(out);
        let ghost rr = rv.skip(i as int);
        let ghost mm = mv.skip(j as int);
        proof {
            if i < rv.len() {
                assert(rr[0] == rv[i as int]);
                assert(rr.skip(1) =~= rv.skip(i as int + 1));
            }
            if j < mv.len() {
                assert(mm[0] == mv[j as int]);
                assert(mm.skip(1) =~= mv.skip(j as int + 1));
            }
        }
        if i < locals.len() && !local_filter.should_include(&locals[i]) {
            proof {
                assert(spec_merge(rr, mm, f) == spec_merge(rr.skip(1), mm, f));
            }
            i = i + 1;
        } else if i >= locals.len() && j >= logix.len() {
            proof {
                assert(rr.len() == 0 && mm.len() == 0);
                assert(spec_merge(rr, mm, f) =~= Seq::<(WalkTag, Seq<u8>)>::empty());
                assert(entries_view(out) + spec_merge(rr, mm, f) =~= entries_view(out));
            }
            return out;
        } else if j >= logix.len() {
            let e = WalkEntry::Local(crate::based_path::clone_bytes(&locals[i]));
            out.push(e);
            proof {
                assert(entries_view(out) =~= before.push((WalkTag::Local, rv[i as int])));
                assert(spec_merge(rr, mm, f) == seq![(WalkTag::Local, rr[0])] + spec_merge(
                    rr.skip(1),
                    mm,
                    f,
                ));
                assert(before + spec_merge(rr, mm, f) =~= entries_view(out) + spec_merge(
                    rr.skip(1),
                    mm,
                    f,
                ));
            }
            i = i + 1;
        } else if i >= locals.len() {
            let e = WalkEntry::Logix(crate::based_path::clone_bytes(&logix[j]));
            out.push(e);
            proof {
                assert(entries_view(out) =~= before.push((WalkTag::Logix, mv[j as int])));
                assert(spec_merge(rr, mm, f) == seq![(WalkTag::Logix, mm[0])] + spec_merge(
                    rr,
                    mm.skip(1),
                    f,
                ));
                assert(before + spec_merge(rr, mm, f) =~= entries_view(out) + spec_merge(
                    rr,
                    mm.skip(1),
                    f,
                ));
            }
            j = j + 1;
        } else if path_lt_exec(&locals[i], &logix[j]) {
            let e = WalkEntry::Local(crate::based_path::clone_bytes(&locals[i]));
            out.push(e);
            proof {
                assert(entries_view(out) =~= before.push((WalkTag::Local, rv[i as int])));
                assert(spec_merge(rr, mm, f) == seq![(WalkTag::Local, rr[0])] + spec_merge(
                    rr.skip(1),
                    mm,
                    f,
                ));
                assert(before + spec_merge(rr, mm, f) =~= entries_view(out) + spec_merge(
                    rr.skip(1),
                    mm,
                    f,
                ));
            }
            i = i + 1;
        } else if crate::based_path::bytes_eq(&locals[i], &logix[j]) {
            let e = WalkEntry::Both(crate::based_path::clone_bytes(&locals[i]));
            out.push(e);
            proof {
                assert(entries_view(out) =~= before.push((WalkTag::Both, rv[i as int])));
                assert(spec_merge(rr, mm, f) == seq![(WalkTag::Both, rr[0])] + spec_merge(
                    rr.skip(1),
                    mm.skip(1),
                    f,
                ));
                assert(before + spec_merge(rr, mm, f) =~= entries_view(out) + spec_merge(
                    rr.skip(1),
                    mm.skip(1),
                    f,
                ));
            }
            i = i + 1;
            j = j + 1;
        } else {
            let e = WalkEntry::Logix(crate::based_path::clone_bytes(&logix[j]));
            out.push(e);
            proof {
                assert(entries_view(out) =~= before.push((WalkTag::Logix, mv[j as int])));
                assert(spec_merge(rr, mm, f) == seq![(WalkTag::Logix, mm[0])] + spec_merge(
                    rr,
                    mm.skip(1),
                    f,
                ));
                assert(before + spec_merge(rr, mm, f) =~= entries_view(out) + spec_merge(
                    rr,
                    mm.skip(1),
                    f,
                ));
            }
            j = j + 1;
        }
    }
}


/// Helper: skipping the head of a strictly sorted listing keeps it
/// strictly sorted, and the head is below every remaining path.
pub proof fn lemma_sorted_skip(s: Seq<Seq<u8>>)
    requires
        sorted_strict(s),
        s.len() > 0,
    ensures
        sorted_strict(s.skip(1)),
        forall|k: int| 0 <= k < s.skip(1).len() ==> path_lt(s[0], #[trigger] s.skip(1)[k]),
{
    assert forall|i: int, j: int| 0 <= i < j < s.skip(1).len() implies path_lt(
        #[trigger] s.skip(1)[i],
        #[trigger] s.skip(1)[j],
    ) by {
        assert(s.skip(1)[i] == s[i + 1]);
        assert(s.skip(1)[j] == s[j + 1]);
    }
    assert forall|k: int| 0 <= k < s.skip(1).len() implies path_lt(
        s[0],
        #[trigger] s.skip(1)[k],
    ) by {
        assert(s.skip(1)[k] == s[k + 1]);
    }
}

/// Helper: membership in a nonempty sequence is membership in the
/// head or in the tail.
pub proof fn lemma_contains_cons<A>(s: Seq<A>)
    requires
        s.len() > 0,
    ensures
        forall|p: A| s.contains(p) <==> p == s[0] || s.skip(1).contains(p),
{
    assert forall|p: A| s.contains(p) <==> p == s[0] || s.skip(1).contains(p) by {
        if s.contains(p) {
            let w = choose|w: int| 0 <= w < s.len() && #[trigger] s[w] == p;
            if w > 0 {
                assert(s.skip(1)[w - 1] == p);
            }
        }
        if s.skip(1).contains(p) {
            let w = choose|w: int| 0 <= w < s.skip(1).len() && #[trigger] s.skip(1)[w] == p;
            assert(s[w + 1] == p);
        }
    }
}

/// Helper: a path strictly below every element of a listing is not in
/// the listing.
pub proof fn lemma_below_all_not_contains(s: Seq<Seq<u8>>, p: Seq<u8>)
    requires
        forall|k: int| 0 <= k < s.len() ==> path_lt(p, #[trigger] s[k]),
    ensures
        !s.contains(p),
{
    if s.contains(p) {
        let w = choose|w: int| 0 <= w < s.len() && #[trigger] s[w] == p;
        lemma_path_lt_trichotomy(p, s[w]);
    }
}

/// The walker's classification, proved of the merge: over strictly
/// sorted listings it emits Both exactly for the paths present on both
/// sides (the real side after filtering), Local exactly for filtered
/// real-only paths, Logix exactly for mirror-only paths, and its
/// output is strictly increasing.
pub proof fn lemma_merge_classifies(locals: Seq<Seq<u8>>, logix: Seq<Seq<u8>>, f: Seq<Seq<u8>>)
    requires
        sorted_strict(locals),
        sorted_strict(logix),
    ensures
        ({
            let out = spec_merge(locals, logix, f);
            &&& forall|p: Seq<u8>|
                out.contains((WalkTag::Both, p)) <==> locals.contains(p) && filter_included(f, p)
                    && logix.contains(p)
            &&& forall|p: Seq<u8>|
                out.contains((WalkTag::Local, p)) <==> locals.contains(p) && filter_included(f, p)
                    && !logix.contains(p)
            &&& forall|p: Seq<u8>|
                out.contains((WalkTag::Logix, p)) <==> logix.contains(p) && !(locals.contains(p)
                    && filter_included(f, p))
            &&& forall|k1: int, k2: int|
                0 <= k1 < k2 < out.len() ==> path_lt(#[trigger] out[k1].1, #[trigger] out[k2].1)
        }),
    decreases locals.len() + logix.len(),
{
    let out = spec_merge(locals, logix, f);
    if locals.len() > 0 && !filter_included(f, locals[0]) {
        let tl = locals.skip(1);
        lemma_sorted_skip(locals);
        lemma_merge_classifies(tl, logix, f);
        lemma_contains_cons(locals);
        lemma_below_all_not_contains(tl, locals[0]);
        assert forall|p: Seq<u8>| locals.contains(p) && filter_included(f, p) <==> tl.contains(p)
            && filter_included(f, p) by {
            if p == locals[0] {
                assert(!filter_included(f, p));
            }
        }
        assert(out == spec_merge(tl, logix, f));
    } else if locals.len() == 0 && logix.len() == 0 {
        assert(out.len() == 0);
    } else {
        let emit_local = logix.len() == 0 || (locals.len() > 0 && path_lt(locals[0], logix[0]));
        let emit_both = locals.len() > 0 && logix.len() > 0 && !path_lt(locals[0], logix[0])
            && locals[0] == logix[0];
        let ghost head: (WalkTag, Seq<u8>) = if emit_local {
            (WalkTag::Local, locals[0])
        } else if emit_both {
            (WalkTag::Both, locals[0])
        } else {
            (WalkTag::Logix, logix[0])
        };
        let tl = if emit_local || emit_both {
            locals.skip(1)
        } else {
            locals
        };
        let tm = if emit_local {
            logix
        } else {
            logix.skip(1)
        };
        let rec = spec_merge(tl, tm, f);
        assert(out =~= seq![head] + rec) by {
            if emit_local {
            } else if emit_both {
            } else {
                if locals.len() > 0 && logix.len() > 0 {
                    lemma_path_lt_trichotomy(locals[0], logix[0]);
                }
            }
        }
        if emit_local || emit_both {
            lemma_sorted_skip(locals);
            lemma_contains_cons(locals);
        }
        if !emit_local {
            lemma_sorted_skip(logix);
            lemma_contains_cons(logix);
        }
        lemma_merge_classifies(tl, tm, f);
        lemma_contains_cons(seq![head] + rec);
        assert((seq![head] + rec)[0] == head);
        assert((seq![head] + rec).skip(1) =~= rec);

        // the head path is below everything in both tails
        assert forall|k: int| 0 <= k < tl.len() ==> path_lt(head.1, #[trigger] tl[k]) by {
            if emit_local || emit_both {
            } else {
                lemma_path_lt_trichotomy(locals[0], logix[0]);
                assert forall|k: int| 0 <= k < tl.len() implies path_lt(head.1, #[trigger] tl[k]) by {
                    if k == 0 {
                    } else {
                        assert(path_lt(tl[0], tl[k]));
                        lemma_path_lt_trans(head.1, tl[0], tl[k]);
                    }
                }
            }
        }
        assert forall|k: int| 0 <= k < tm.len() ==> path_lt(head.1, #[trigger] tm[k]) by {
            if emit_local {
                assert forall|k: int| 0 <= k < tm.len() implies path_lt(head.1, #[trigger] tm[k]) by {
                    if logix.len() > 0 {
                        if k == 0 {
                        } else {
                            assert(path_lt(tm[0], tm[k]));
                            lemma_path_lt_trans(head.1, tm[0], tm[k]);
                        }
                    }
                }
            }
        }
        lemma_below_all_not_contains(tl, head.1);
        lemma_below_all_not_contains(tm, head.1);

        // every path in the recursive output lies in one of the tails
        assert forall|k: int| 0 <= k < rec.len() ==> tl.contains(#[trigger] rec[k].1) || tm.contains(
            rec[k].1,
        ) by {
            assert forall|k: int|
                0 <= k < rec.len() implies tl.contains(#[trigger] rec[k].1) || tm.contains(
                rec[k].1,
            ) by {
                assert(rec.contains(rec[k]));
                let e = rec[k];
                if e.0 is Both {
                    assert(rec.contains((WalkTag::Both, e.1)));
                } else if e.0 is Local {
                    assert(rec.contains((WalkTag::Local, e.1)));
                } else {
                    assert(rec.contains((WalkTag::Logix, e.1)));
                }
            }
        }

        // sortedness of the whole output
        assert forall|k1: int, k2: int|
            0 <= k1 < k2 < out.len() implies path_lt(#[trigger] out[k1].1, #[trigger] out[k2].1) by {
            if k1 == 0 {
                assert(out[k2] == rec[k2 - 1]);
                assert(tl.contains(rec[k2 - 1].1) || tm.contains(rec[k2 - 1].1));
                if tl.contains(rec[k2 - 1].1) {
                    let w = choose|w: int| 0 <= w < tl.len() && #[trigger] tl[w] == rec[k2 - 1].1;
                    assert(path_lt(head.1, tl[w]));
                } else {
                    let w = choose|w: int| 0 <= w < tm.len() && #[trigger] tm[w] == rec[k2 - 1].1;
                    assert(path_lt(head.1, tm[w]));
                }
            } else {
                assert(out[k1] == rec[k1 - 1]);
                assert(out[k2] == rec[k2 - 1]);
            }
        }

        // the three membership conditions
        assert forall|p: Seq<u8>|
            out.contains((WalkTag::Both, p)) <==> locals.contains(p) && filter_included(f, p)
                && logix.contains(p) by {
            let target = (WalkTag::Both, p);
            assert(out.contains(target) <==> target == head || rec.contains(target));
            if emit_both {
                if p == head.1 {
                    assert(locals.contains(p) && logix.contains(p));
                } else {
                    assert(target != head);
                }
            } else {
                if target == head {
                    assert(false);
                }
                if p == head.1 {
                    assert(!tl.contains(p) && !tm.contains(p));
                    assert(!rec.contains(target));
                    if emit_local {
                        assert(!logix.contains(p)) by {
                            if logix.len() > 0 {
                                assert forall|k: int| 0 <= k < logix.len() implies path_lt(
                                    p,
                                    #[trigger] logix[k],
                                ) by {
                                    if k == 0 {
                                    } else {
                                        lemma_path_lt_trans(p, logix[0], logix[k]);
                                    }
                                }
                                lemma_below_all_not_contains(logix, p);
                            }
                        }
                    } else {
                        // emit logix head: p == logix[0], not in locals-filtered
                        assert(!(locals.contains(p) && filter_included(f, p))) by {
                            if locals.len() > 0 {
                                lemma_path_lt_trichotomy(locals[0], logix[0]);
                                assert(path_lt(logix[0], locals[0]));
                                assert forall|k: int| 0 <= k < locals.len() implies path_lt(
                                    p,
                                    #[trigger] locals[k],
                                ) by {
                                    if k == 0 {
                                    } else {
                                        lemma_path_lt_trans(p, locals[0], locals[k]);
                                    }
                                }
                                lemma_below_all_not_contains(locals, p);
                            }
                        }
                    }
                }
            }
        }
        assert forall|p: Seq<u8>|
            out.contains((WalkTag::Local, p)) <==> locals.contains(p) && filter_included(f, p)
                && !logix.contains(p) by {
            let target = (WalkTag::Local, p);
            assert(out.contains(target) <==> target == head || rec.contains(target));
            if p == head.1 {
                assert(!tl.contains(p) && !tm.contains(p));
                assert(!rec.contains(target));
                if emit_local {
                    assert(locals.contains(p));
                    assert(!logix.contains(p)) by {
                        if logix.len() > 0 {
                            assert forall|k: int| 0 <= k < logix.len() implies path_lt(
                                p,
                                #[trigger] logix[k],
                            ) by {
                                if k == 0 {
                                } else {
                                    lemma_path_lt_trans(p, logix[0], logix[k]);
                                }
                            }
                            lemma_below_all_not_contains(logix, p);
                        }
                    }
                } else if emit_both {
                    assert(logix.contains(p));
                    assert(target != head);
                } else {
                    assert(target != head);
                    assert(!(locals.contains(p) && filter_included(f, p))) by {
                        if locals.len() > 0 {
                            lemma_path_lt_trichotomy(locals[0], logix[0]);
                            assert forall|k: int| 0 <= k < locals.len() implies path_lt(
                                p,
                                #[trigger] locals[k],
                            ) by {
                                if k == 0 {
                                } else {
                                    lemma_path_lt_trans(p, locals[0], locals[k]);
                                }
                            }
                            lemma_below_all_not_contains(locals, p);
                        }
                    }
                }
            } else {
                assert(target != head);
            }
        }
        assert forall|p: Seq<u8>|
            out.contains((WalkTag::Logix, p)) <==> logix.contains(p) && !(locals.contains(p)
                && filter_included(f, p)) by {
            let target = (WalkTag::Logix, p);
            assert(out.contains(target) <==> target == head || rec.contains(target));
            if p == head.1 {
                assert(!tl.contains(p) && !tm.contains(p));
                assert(!rec.contains(target));
                if emit_local {
                    assert(target != head);
                    assert(!logix.contains(p)) by {
                        if logix.len() > 0 {
                            assert forall|k: int| 0 <= k < logix.len() implies path_lt(
                                p,
                                #[trigger] logix[k],
                            ) by {
                                if k == 0 {
                                } else {
                                    lemma_path_lt_trans(p, logix[0], logix[k]);
                                }
                            }
                            lemma_below_all_not_contains(logix, p);
                        }
                    }
                } else if emit_both {
                    assert(target != head);
                    assert(locals.contains(p) && filter_included(f, p));
                } else {
                    assert(logix.contains(p));
                    assert(!(locals.contains(p) && filter_included(f, p))) by {
                        if locals.len() > 0 {
                            lemma_path_lt_trichotomy(locals[0], logix[0]);
                            assert forall|k: int| 0 <= k < locals.len() implies path_lt(
                                p,
                                #[trigger] locals[k],
                            ) by {
                                if k == 0 {
                                } else {
                                    lemma_path_lt_trans(p, locals[0], locals[k]);
                                }
                            }
                            lemma_below_all_not_contains(locals, p);
                        }
                    }
                }
            } else {
                assert(target != head);
            }
        }
    }
}


/// The paths of the emitted entries, in order.
pub open spec fn merge_paths(out: Seq<(WalkTag, Seq<u8>)>) -> Seq<Seq<u8>> {
    Seq::new(out.len(), |k: int| out[k].1)
}

/// The set a walk over the two sides covers: the filtered real paths
/// together with the mirror paths.
pub open spec fn merged_path_set(
    locals: Seq<Seq<u8>>,
    logix: Seq<Seq<u8>>,
    f: Seq<Seq<u8>>,
) -> Set<Seq<u8>> {
    locals.to_set().filter(|p: Seq<u8>| filter_included(f, p)).union(logix.to_set())
}

/// The walker's count, proved of the merge: over strictly sorted
/// listings it emits each covered path exactly once, so the number of
/// entries is the size of the union of the (filtered) real set and the
/// mirror set.
pub proof fn lemma_merge_count(locals: Seq<Seq<u8>>, logix: Seq<Seq<u8>>, f: Seq<Seq<u8>>)
    requires
        sorted_strict(locals),
        sorted_strict(logix),
    ensures
        ({
            let out = spec_merge(locals, logix, f);
            &&& merge_paths(out).no_duplicates()
            &&& merge_paths(out).to_set() == merged_path_set(locals, logix, f)
            &&& out.len() == merged_path_set(locals, logix, f).len()
        }),
{
    broadcast use vstd::set_lib::group_set_lib_default;

    let out = spec_merge(locals, logix, f);
    let paths = merge_paths(out);
    lemma_merge_classifies(locals, logix, f);
    assert forall|i: int, j: int|
        0 <= i < paths.len() && 0 <= j < paths.len() && i != j implies paths[i] != paths[j] by {
        if i < j {
            assert(path_lt(out[i].1, out[j].1));
            lemma_path_lt_trichotomy(out[i].1, out[j].1);
        } else {
            assert(path_lt(out[j].1, out[i].1));
            lemma_path_lt_trichotomy(out[j].1, out[i].1);
        }
    }
    assert(paths.no_duplicates());
    assert forall|p: Seq<u8>| paths.contains(p) <==> merged_path_set(locals, logix, f).contains(
        p,
    ) by {
        if paths.contains(p) {
            let w = choose|w: int| 0 <= w < paths.len() && #[trigger] paths[w] == p;
            let e = out[w];
            assert(out.contains(e));
            if e.0 is Both {
                assert(out.contains((WalkTag::Both, p)));
            } else if e.0 is Local {
                assert(out.contains((WalkTag::Local, p)));
            } else {
                assert(out.contains((WalkTag::Logix, p)));
            }
        }
        if merged_path_set(locals, logix, f).contains(p) {
            if logix.contains(p) {
                if locals.contains(p) && filter_included(f, p) {
                    assert(out.contains((WalkTag::Both, p)));
                    let w = choose|w: int|
                        0 <= w < out.len() && #[trigger] out[w] == (WalkTag::Both, p);
                    assert(paths[w] == p);
                } else {
                    assert(out.contains((WalkTag::Logix, p)));
                    let w = choose|w: int|
                        0 <= w < out.len() && #[trigger] out[w] == (WalkTag::Logix, p);
                    assert(paths[w] == p);
                }
            } else {
                assert(locals.contains(p) && filter_included(f, p));
                assert(out.contains((WalkTag::Local, p)));
                let w = choose|w: int|
                    0 <= w < out.len() && #[trigger] out[w] == (WalkTag::Local, p);
                assert(paths[w] == p);
            }
        }
    }
    assert(paths.to_set() =~= merged_path_set(locals, logix, f));
    paths.unique_seq_to_set();
}

/// Excluding a prefix removes every real-side path under it from the
/// Local and Both classifications, while a mirror path under the same
/// prefix is still emitted as Logix exactly when the mirror holds it.
pub proof fn lemma_exclusion_effect(
    locals: Seq<Seq<u8>>,
    logix: Seq<Seq<u8>>,
    f: Seq<Seq<u8>>,
    pre: Seq<u8>,
    p: Seq<u8>,
)
    requires
        sorted_strict(locals),
        sorted_strict(logix),
        excludes_prefix(pre, p),
    ensures
        ({
            let out = spec_merge(locals, logix, f.push(pre));
            &&& !out.contains((WalkTag::Local, p))
            &&& !out.contains((WalkTag::Both, p))
            &&& out.contains((WalkTag::Logix, p)) <==> logix.contains(p)
        }),
{
    let f2 = f.push(pre);
    lemma_merge_classifies(locals, logix, f2);
    assert(f2[f.len() as int] == pre);
    assert(!filter_included(f2, p));
}

/// Relies on `walkdir::WalkDir` with `follow_links(false)` and
/// `sort_by_file_name`, rooted at `root`: every entry below the root,
/// as its relative path and whether it is a directory; the first walk
/// error aborts the whole listing, carrying the walker's message. The
/// result depends on what is on disk, so nothing is promised of it.
#[verifier::external_body]
fn walk_files_raw(root: &Vec<u8>) -> Result<Vec<(Vec<u8>, bool)>, String> {
    let s = String::from_utf8_lossy(root.as_slice()).into_owned();
    let mut out = Vec::new();
    for entry in walkdir::WalkDir::new(&s).follow_links(false).sort_by_file_name() {
        let entry = entry.map_err(|e| e.to_string())?;
        let rel = entry.path().strip_prefix(&s).map_err(|e| e.to_string())?;
        let rb = rel.to_string_lossy().into_owned().into_bytes();
        out.push((rb, entry.file_type().is_dir()));
    }
    Ok(out)
}

/// The view of a raw walk listing: each entry's relative path with
/// its directory flag.
pub open spec fn raw_view(v: Vec<(Vec<u8>, bool)>) -> Seq<(Seq<u8>, bool)> {
    Seq::new(v@.len(), |i: int| (v@[i].0@, v@[i].1))
}

/// The file entries of a raw listing: the paths whose entries are not
/// directories, in order.
pub open spec fn spec_files_only(raw: Seq<(Seq<u8>, bool)>) -> Seq<Seq<u8>>
    decreases raw.len(),
{
    if raw.len() == 0 {
        Seq::empty()
    } else if raw[0].1 {
        spec_files_only(raw.skip(1))
    } else {
        seq![raw[0].0] + spec_files_only(raw.skip(1))
    }
}

/// Keep only the file entries of a raw listing: directories are never
/// handed on.
pub fn files_only(raw: &Vec<(Vec<u8>, bool)>) -> (r: Vec<Vec<u8>>)
    ensures
        comps_view(r) =~~= spec_files_only(raw_view(*raw)),
{
    let mut out: Vec<Vec<u8>> = Vec::new();
    let mut i: usize = 0;
    proof {
        assert(raw_view(*raw).skip(0) =~= raw_view(*raw));
    }
    while i < raw.len()
        invariant
            0 <= i <= raw@.len(),
            spec_files_only(raw_view(*raw)) == comps_view(out) + spec_files_only(
                raw_view(*raw).skip(i as int),
            ),
        decreases raw@.len() - i,
    {
        let ghost before = comps_view(out);
        let ghost rem = raw_view(*raw).skip(i as int);
        proof {
            assert(rem[0] == raw_view(*raw)[i as int]);
            assert(rem.skip(1) =~= raw_view(*raw).skip(i as int + 1));
        }
        let pair = &raw[i];
        if !pair.1 {
            out.push(crate::based_path::clone_bytes(&pair.0));
            proof {
                assert(comps_view(out) =~~= before.push(rem[0].0));
                assert(before + spec_files_only(rem) =~= comps_view(out) + spec_files_only(
                    rem.skip(1),
                ));
            }
        }
        i = i + 1;
    }
    proof {
        assert(raw_view(*raw).skip(raw@.len() as int) =~= Seq::<(Seq<u8>, bool)>::empty());
        assert(comps_view(out) + spec_files_only(Seq::<(Seq<u8>, bool)>::empty()) =~~= comps_view(
            out,
        ));
    }
    out
}

/// List the files below one side, relative to it: a side that the
/// file system reports missing contributes zero entries instead of an
/// error, and what is handed on is exactly the non-directory
/// projection of whatever the walk produced.
fn list_side(path: &Vec<u8>) -> (r: Result<Vec<Vec<u8>>, Error>)
    ensures
        r is Err ==> (r.unwrap_err() matches Error::WalkDir(_)),
        r is Ok ==> exists|raw: Seq<(Seq<u8>, bool)>|
            comps_view(r.unwrap()) =~~= #[trigger] spec_files_only(raw),
{
    if !path_exists(path) {
        let out: Vec<Vec<u8>> = Vec::new();
        proof {
            let empty_raw = Seq::<(Seq<u8>, bool)>::empty();
            assert(comps_view(out) =~~= spec_files_only(empty_raw));
        }
        return Ok(out);
    }
    let raw = match walk_files_raw(path) {
        Ok(v) => v,
        Err(s) => {
            return Err(Error::WalkDir(s));
        },
    };
    let out = files_only(&raw);
    Ok(out)
}

/// Walk both sides of a shadowed directory and merge them into the
/// classified stream of [`spec_merge`]: the result is the merge of
/// two strictly sorted listings, one per side, under the given
/// real-side filter. A walk error on either side aborts the whole
/// operation; a side that does not exist counts as empty.
pub fn walk_dirs(base: &ShadowedDir, local_filter: &Filter) -> (r: Result<Vec<WalkEntry>, Error>)
    requires
        base.wf(),
    ensures
        r is Ok ==> exists|rv: Seq<Seq<u8>>, mv: Seq<Seq<u8>>|
            sorted_strict(rv) && sorted_strict(mv) && entries_view(r.unwrap()) == spec_merge(
                rv,
                mv,
                local_filter.entries_bytes(),
            ),
        r is Err ==> (r.unwrap_err() matches Error::WalkDir(_)),
{
    let local_full = base.local_path().as_path();
    let logix_full = base.logix_path().as_path();
    let local_files = match list_side(&local_full) {
        Ok(v) => v,
        Err(e) => {
            return Err(e);
        },
    };
    let logix_files = match list_side(&logix_full) {
        Ok(v) => v,
        Err(e) => {
            return Err(e);
        },
    };
    let lr = sort_dedup_paths(local_files);
    let mr = sort_dedup_paths(logix_files);
    let out = merge_listings(&lr, &mr, local_filter);
    proof {
        let rv = comps_view(lr);
        let mv = comps_view(mr);
        assert(sorted_strict(rv) && sorted_strict(mv) && entries_view(out) == spec_merge(
            rv,
            mv,
            local_filter.entries_bytes(),
        ));
    }
    Ok(out)
}

} // verus!
