use vstd::prelude::*;
use vstd::string::{StrSliceExecFns, StringSliceAdditionalSpecFns};

use crate::error::{Error, PathError};

verus! {

/// The path separator.
pub const SEP: u8 = 47;

/// Bytes that no path handled by this crate may hold: NUL, newline,
/// `|`, `"` and `'`.
pub open spec fn valid_path_byte(b: u8) -> bool {
    b != 0 && b != 10 && b != 34 && b != 39 && b != 124
}

pub open spec fn valid_path_bytes(p: Seq<u8>) -> bool {
    forall|i: int| 0 <= i < p.len() ==> valid_path_byte(#[trigger] p[i])
}

/// A path is absolute when it starts with the separator.
pub open spec fn is_absolute(p: Seq<u8>) -> bool {
    p.len() > 0 && p[0] == SEP
}

/// The mathematical view of a component list: each element as its
/// byte sequence.
pub open spec fn comps_view(v: Vec<Vec<u8>>) -> Seq<Seq<u8>> {
    Seq::new(v@.len(), |i: int| v@[i]@)
}

/// Splitting a byte string on the separator, the way `str::split('/')`
/// does it: the empty string yields one empty component, and every
/// separator starts a new component.
pub open spec fn split_comps(p: Seq<u8>) -> Seq<Seq<u8>>
    decreases p.len(),
{
    if p.len() == 0 {
        seq![Seq::<u8>::empty()]
    } else if p[0] == SEP {
        seq![Seq::<u8>::empty()] + split_comps(p.skip(1))
    } else {
        let rest = split_comps(p.skip(1));
        seq![seq![p[0]] + rest[0]] + rest.skip(1)
    }
}

/// Joining components with the separator; inverse of `split_comps` on
/// well-formed components.
pub open spec fn join_comps(cs: Seq<Seq<u8>>) -> Seq<u8>
    decreases cs.len(),
{
    if cs.len() == 0 {
        Seq::<u8>::empty()
    } else if cs.len() == 1 {
        cs[0]
    } else {
        cs[0] + seq![SEP] + join_comps(cs.skip(1))
    }
}

/// A component that may stand in a normalized relative path: nonempty,
/// not `.`, not `..`, free of separators and of invalid bytes.
pub open spec fn wf_comp(c: Seq<u8>) -> bool {
    &&& c.len() > 0
    &&& c != seq![46u8]
    &&& c != seq![46u8, 46u8]
    &&& forall|i: int| 0 <= i < c.len() ==> #[trigger] c[i] != SEP && valid_path_byte(c[i])
}

pub open spec fn wf_comps(cs: Seq<Seq<u8>>) -> bool {
    forall|i: int| 0 <= i < cs.len() ==> wf_comp(#[trigger] cs[i])
}

/// An anchor is normalized when it splits into a leading empty
/// component (it is absolute) followed by at least one well-formed
/// component: `/home/user` but not `/`, `/a//b`, `/a/..` or `/a/`.
pub open spec fn base_normalized(p: Seq<u8>) -> bool {
    let cs = split_comps(p);
    &&& cs.len() >= 2
    &&& cs[0] =~= Seq::<u8>::empty()
    &&& forall|i: int| 1 <= i < cs.len() ==> wf_comp(#[trigger] cs[i])
}

/// Resolving raw components against a stack of already-resolved ones:
/// empty components and `.` are skipped, `..` pops (and fails when
/// there is nothing left to pop), everything else is pushed.
pub open spec fn norm_fold(stack: Seq<Seq<u8>>, comps: Seq<Seq<u8>>) -> Option<Seq<Seq<u8>>>
    decreases comps.len(),
{
    if comps.len() == 0 {
        Some(stack)
    } else {
        let c = comps[0];
        if c.len() == 0 || c =~= seq![46u8] {
            norm_fold(stack, comps.skip(1))
        } else if c =~= seq![46u8, 46u8] {
            if stack.len() == 0 {
                None
            } else {
                norm_fold(stack.drop_last(), comps.skip(1))
            }
        } else {
            norm_fold(stack.push(c), comps.skip(1))
        }
    }
}

/// `split_comps` always yields at least one component.
pub proof fn lemma_split_nonempty(p: Seq<u8>)
    ensures
        split_comps(p).len() >= 1,
    decreases p.len(),
{
    if p.len() == 0 {
    } else if p[0] == SEP {
    } else {
        lemma_split_nonempty(p.skip(1));
    }
}

/// A separator-free byte string splits into exactly itself.
pub proof fn lemma_split_no_sep(c: Seq<u8>)
    requires
        forall|i: int| 0 <= i < c.len() ==> #[trigger] c[i] != SEP,
    ensures
        split_comps(c) =~~= seq![c],
    decreases c.len(),
{
    if c.len() == 0 {
    } else {
        lemma_split_no_sep(c.skip(1));
        assert(seq![c[0]] + c.skip(1) =~= c);
    }
}

/// Splitting distributes over a separator: `split(x + "/" + y)` is
/// `split(x) + split(y)`.
pub proof fn lemma_split_concat(x: Seq<u8>, y: Seq<u8>)
    ensures
        split_comps(x + seq![SEP] + y) =~~= split_comps(x) + split_comps(y),
    decreases x.len(),
{
    let p = x + seq![SEP] + y;
    if x.len() == 0 {
        assert(p =~= seq![SEP] + y);
        assert(p.skip(1) =~= y);
    } else {
        lemma_split_concat(x.skip(1), y);
        assert(p.skip(1) =~= x.skip(1) + seq![SEP] + y);
        if x[0] == SEP {
        } else {
            lemma_split_nonempty(x.skip(1));
            let rest = split_comps(x.skip(1));
            assert(split_comps(p.skip(1)) =~= rest + split_comps(y));
            assert(split_comps(p.skip(1))[0] =~= rest[0]);
            assert((rest + split_comps(y)).skip(1) =~= rest.skip(1) + split_comps(y));
        }
    }
}

/// On well-formed components, joining and then splitting gives the
/// components back.
pub proof fn lemma_split_join(cs: Seq<Seq<u8>>)
    requires
        wf_comps(cs),
        cs.len() >= 1,
    ensures
        split_comps(join_comps(cs)) =~~= cs,
    decreases cs.len(),
{
    if cs.len() == 1 {
        assert(wf_comp(cs[0]));
        lemma_split_no_sep(cs[0]);
    } else {
        assert(wf_comps(cs.skip(1))) by {
            assert(forall|i: int|
                0 <= i < cs.skip(1).len() ==> cs.skip(1)[i] =~= cs[i + 1] && wf_comp(#[trigger] cs.skip(1)[i]));
        }
        lemma_split_join(cs.skip(1));
        lemma_split_concat(cs[0], join_comps(cs.skip(1)));
        lemma_split_no_sep(cs[0]);
    }
}

/// A component that holds no separator.
pub open spec fn sep_free(c: Seq<u8>) -> bool {
    forall|i: int| 0 <= i < c.len() ==> #[trigger] c[i] != SEP
}

/// Joining then splitting is the identity already when the components
/// merely hold no separator (they may be empty, `.` or `..`).
pub proof fn lemma_split_join_sep_free(cs: Seq<Seq<u8>>)
    requires
        cs.len() >= 1,
        forall|i: int| 0 <= i < cs.len() ==> sep_free(#[trigger] cs[i]),
    ensures
        split_comps(join_comps(cs)) =~~= cs,
    decreases cs.len(),
{
    if cs.len() == 1 {
        lemma_split_no_sep(cs[0]);
    } else {
        assert(forall|i: int| 0 <= i < cs.skip(1).len() ==> cs.skip(1)[i] =~= cs[i + 1]
            && sep_free(#[trigger] cs.skip(1)[i]));
        lemma_split_join_sep_free(cs.skip(1));
        lemma_split_concat(cs[0], join_comps(cs.skip(1)));
        lemma_split_no_sep(cs[0]);
    }
}

/// Every component of a split is free of separators, whatever the
/// input.
pub proof fn lemma_split_comps_sep_free(p: Seq<u8>)
    ensures
        forall|i: int| 0 <= i < split_comps(p).len() ==> sep_free(#[trigger] split_comps(p)[i]),
    decreases p.len(),
{
    if p.len() == 0 {
    } else {
        lemma_split_comps_sep_free(p.skip(1));
        lemma_split_nonempty(p.skip(1));
        let rest = split_comps(p.skip(1));
        if p[0] == SEP {
            let cs = seq![Seq::<u8>::empty()] + rest;
            assert forall|i: int| 0 <= i < cs.len() implies sep_free(#[trigger] cs[i]) by {
                if i == 0 {
                } else {
                    assert(cs[i] =~= rest[i - 1]);
                }
            }
        } else {
            let head = seq![p[0]] + rest[0];
            let cs = seq![head] + rest.skip(1);
            assert forall|i: int| 0 <= i < cs.len() implies sep_free(#[trigger] cs[i]) by {
                if i == 0 {
                    assert(cs[0] =~= head);
                    assert forall|j: int| 0 <= j < head.len() implies #[trigger] head[j] != SEP by {
                        if j == 0 {
                            assert(head[0] == p[0]);
                        } else {
                            assert(head[j] == rest[0][j - 1]);
                            assert(sep_free(rest[0]));
                        }
                    }
                } else {
                    assert(cs[i] =~= rest.skip(1)[i - 1]);
                    assert(rest.skip(1)[i - 1] =~= rest[i]);
                }
            }
        }
    }
}

/// Resolving components that are all ordinary (nonempty, neither `.`
/// nor `..`) just appends them to the stack.
pub proof fn lemma_norm_fold_all_normal(stack: Seq<Seq<u8>>, comps: Seq<Seq<u8>>)
    requires
        forall|i: int|
            0 <= i < comps.len() ==> (#[trigger] comps[i]).len() > 0 && comps[i] != seq![46u8]
                && comps[i] != seq![46u8, 46u8],
    ensures
        norm_fold(stack, comps) == Some(stack + comps),
    decreases comps.len(),
{
    if comps.len() == 0 {
        assert(stack + comps =~= stack);
    } else {
        let c = comps[0];
        assert(c.len() > 0 && c != seq![46u8] && c != seq![46u8, 46u8]);
        assert(!(c =~= seq![46u8]));
        assert(!(c =~= seq![46u8, 46u8]));
        assert(forall|i: int| 0 <= i < comps.skip(1).len() ==> comps.skip(1)[i]
            =~= comps[i + 1] && (#[trigger] comps.skip(1)[i]).len() > 0 && comps.skip(1)[i]
            != seq![46u8] && comps.skip(1)[i] != seq![46u8, 46u8]);
        lemma_norm_fold_all_normal(stack.push(c), comps.skip(1));
        assert(stack.push(c) + comps.skip(1) =~= stack + comps);
    }
}

/// Joining components distributes over concatenation of nonempty
/// component sequences.
pub proof fn lemma_join_concat(a: Seq<Seq<u8>>, b: Seq<Seq<u8>>)
    requires
        a.len() >= 1,
        b.len() >= 1,
    ensures
        join_comps(a + b) =~~= join_comps(a) + seq![SEP] + join_comps(b),
    decreases a.len(),
{
    if a.len() == 1 {
        assert((a + b).skip(1) =~= b);
        assert((a + b)[0] =~= a[0]);
    } else {
        lemma_join_concat(a.skip(1), b);
        assert((a + b).skip(1) =~= a.skip(1) + b);
        assert((a + b)[0] =~= a[0]);
    }
}

/// Splitting and then joining gives the original bytes back.
pub proof fn lemma_join_split(p: Seq<u8>)
    ensures
        join_comps(split_comps(p)) =~~= p,
    decreases p.len(),
{
    if p.len() == 0 {
    } else if p[0] == SEP {
        lemma_join_split(p.skip(1));
        lemma_split_nonempty(p.skip(1));
        let cs = seq![Seq::<u8>::empty()] + split_comps(p.skip(1));
        assert(cs.skip(1) =~= split_comps(p.skip(1)));
        assert(join_comps(cs) =~= seq![SEP] + join_comps(split_comps(p.skip(1))));
        assert(seq![SEP] + p.skip(1) =~= p);
    } else {
        lemma_join_split(p.skip(1));
        lemma_split_nonempty(p.skip(1));
        let rest = split_comps(p.skip(1));
        let cs = seq![seq![p[0]] + rest[0]] + rest.skip(1);
        if rest.len() == 1 {
            assert(cs.len() == 1);
            assert(join_comps(rest) =~= rest[0]);
            assert(join_comps(cs) =~= seq![p[0]] + rest[0]);
            assert(seq![p[0]] + p.skip(1) =~= p);
        } else {
            assert(cs.skip(1) =~= rest.skip(1));
            assert(join_comps(cs) =~= seq![p[0]] + rest[0] + seq![SEP] + join_comps(rest.skip(1)));
            assert(join_comps(rest) =~= rest[0] + seq![SEP] + join_comps(rest.skip(1)));
            assert(seq![p[0]] + p.skip(1) =~= p);
            assert(seq![p[0]] + (rest[0] + seq![SEP] + join_comps(rest.skip(1))) =~= seq![p[0]]
                + rest[0] + seq![SEP] + join_comps(rest.skip(1)));
        }
    }
}

/// Every component of a split shares its bytes with the input: none
/// holds a separator, and validity of the input bytes carries over.
pub proof fn lemma_split_comps_clean(p: Seq<u8>)
    requires
        valid_path_bytes(p),
    ensures
        forall|i: int|
            0 <= i < split_comps(p).len() ==> sep_free_valid(#[trigger] split_comps(p)[i]),
    decreases p.len(),
{
    if p.len() == 0 {
        assert(sep_free_valid(Seq::<u8>::empty()));
    } else {
        assert(valid_path_bytes(p.skip(1))) by {
            assert(forall|i: int| 0 <= i < p.skip(1).len() ==> p.skip(1)[i] == p[i + 1]
                && valid_path_byte(#[trigger] p.skip(1)[i]));
        }
        lemma_split_comps_clean(p.skip(1));
        lemma_split_nonempty(p.skip(1));
        let rest = split_comps(p.skip(1));
        if p[0] == SEP {
            let cs = seq![Seq::<u8>::empty()] + rest;
            assert forall|i: int| 0 <= i < cs.len() implies sep_free_valid(#[trigger] cs[i]) by {
                if i == 0 {
                    assert(cs[0] =~= Seq::<u8>::empty());
                } else {
                    assert(cs[i] =~= rest[i - 1]);
                }
            }
        } else {
            let head = seq![p[0]] + rest[0];
            let cs = seq![head] + rest.skip(1);
            assert(valid_path_byte(p[0]));
            assert forall|i: int| 0 <= i < cs.len() implies sep_free_valid(#[trigger] cs[i]) by {
                if i == 0 {
                    assert(cs[0] =~= head);
                    assert forall|j: int| 0 <= j < head.len() implies #[trigger] head[j] != SEP
                        && valid_path_byte(head[j]) by {
                        if j == 0 {
                            assert(head[0] == p[0]);
                        } else {
                            assert(head[j] == rest[0][j - 1]);
                            assert(sep_free_valid(rest[0]));
                        }
                    }
                } else {
                    assert(cs[i] =~= rest.skip(1)[i - 1]);
                    assert(rest.skip(1)[i - 1] =~= rest[i]);
                }
            }
        }
    }
}

/// A component free of separators and of invalid bytes.
pub open spec fn sep_free_valid(c: Seq<u8>) -> bool {
    forall|i: int| 0 <= i < c.len() ==> #[trigger] c[i] != SEP && valid_path_byte(c[i])
}

/// Resolution keeps the stack well formed: only clean components that
/// are neither empty nor `.` nor `..` are ever pushed.
pub proof fn lemma_norm_fold_wf(stack: Seq<Seq<u8>>, comps: Seq<Seq<u8>>)
    requires
        wf_comps(stack),
        forall|i: int| 0 <= i < comps.len() ==> sep_free_valid(#[trigger] comps[i]),
        norm_fold(stack, comps) is Some,
    ensures
        wf_comps(norm_fold(stack, comps).unwrap()),
    decreases comps.len(),
{
    if comps.len() == 0 {
    } else {
        let c = comps[0];
        assert(forall|i: int| 0 <= i < comps.skip(1).len() ==> comps.skip(1)[i] =~= comps[i + 1]
            && sep_free_valid(#[trigger] comps.skip(1)[i]));
        if c.len() == 0 || c =~= seq![46u8] {
            lemma_norm_fold_wf(stack, comps.skip(1));
        } else if c =~= seq![46u8, 46u8] {
            assert(wf_comps(stack.drop_last())) by {
                assert(forall|i: int| 0 <= i < stack.drop_last().len()
                    ==> stack.drop_last()[i] =~= stack[i] && wf_comp(#[trigger] stack.drop_last()[i]));
            }
            lemma_norm_fold_wf(stack.drop_last(), comps.skip(1));
        } else {
            assert(wf_comp(c));
            assert(wf_comps(stack.push(c))) by {
                assert(forall|i: int| 0 <= i < stack.len() ==> stack.push(c)[i] =~= stack[i]);
                assert(forall|i: int| 0 <= i < stack.push(c).len()
                    ==> wf_comp(#[trigger] stack.push(c)[i]));
            }
            lemma_norm_fold_wf(stack.push(c), comps.skip(1));
        }
    }
}

/// Byte-for-byte copy of a byte vector.
pub fn clone_bytes(v: &Vec<u8>) -> (r: Vec<u8>)
    ensures
        r@ =~= v@,
{
    let mut r: Vec<u8> = Vec::new();
    let mut i: usize = 0;
    while i < v.len()
        invariant
            0 <= i <= v.len(),
            r@ =~= v@.take(i as int),
        decreases v.len() - i,
    {
        r.push(v[i]);
        i = i + 1;
        assert(r@ =~= v@.take(i as int));
    }
    assert(v@.take(v.len() as int) =~= v@);
    r
}

/// Element-for-element copy of a component list.
pub fn clone_comps(v: &Vec<Vec<u8>>) -> (r: Vec<Vec<u8>>)
    ensures
        comps_view(r) =~~= comps_view(*v),
{
    let mut r: Vec<Vec<u8>> = Vec::new();
    let mut i: usize = 0;
    while i < v.len()
        invariant
            0 <= i <= v.len(),
            r@.len() == i,
            forall|j: int| 0 <= j < i ==> #[trigger] r@[j]@ =~= v@[j]@,
        decreases v.len() - i,
    {
        r.push(clone_bytes(&v[i]));
        i = i + 1;
    }
    assert forall|j: int| 0 <= j < v@.len() implies comps_view(r)[j] =~= comps_view(*v)[j] by {
        assert(r@[j]@ =~= v@[j]@);
    }
    r
}

/// Whether every byte of the slice may stand in a path.
pub fn check_valid_bytes(p: &Vec<u8>) -> (r: bool)
    ensures
        r == valid_path_bytes(p@),
{
    let mut i: usize = 0;
    while i < p.len()
        invariant
            0 <= i <= p.len(),
            forall|j: int| 0 <= j < i ==> valid_path_byte(#[trigger] p@[j]),
        decreases p.len() - i,
    {
        let b = p[i];
        if b == 0 || b == 10 || b == 34 || b == 39 || b == 124 {
            return false;
        }
        i = i + 1;
    }
    true
}

/// Split a byte string on the separator.
pub fn split_exec(p: &Vec<u8>) -> (r: Vec<Vec<u8>>)
    ensures
        comps_view(r) =~~= split_comps(p@),
{
    let mut r: Vec<Vec<u8>> = Vec::new();
    r.push(Vec::new());
    let mut i: usize = p.len();
    assert(p@.skip(p.len() as int) =~= Seq::<u8>::empty());
    assert(comps_view(r) =~~= seq![Seq::<u8>::empty()]);
    while i > 0
        invariant
            0 <= i <= p.len(),
            r.len() >= 1,
            comps_view(r) =~~= split_comps(p@.skip(i as int)),
        decreases i,
    {
        let b = p[i - 1];
        let ghost q = p@.skip(i as int - 1);
        assert(q[0] == b);
        assert(q.skip(1) =~= p@.skip(i as int));
        if b == SEP {
            r.insert(0, Vec::new());
        } else {
            let mut first = r.remove(0);
            first.insert(0, b);
            r.insert(0, first);
        }
        i = i - 1;
        assert(comps_view(r) =~~= split_comps(p@.skip(i as int)));
    }
    assert(p@.skip(0) =~= p@);
    r
}

/// Join components with the separator.
pub fn join_exec(cs: &Vec<Vec<u8>>) -> (r: Vec<u8>)
    ensures
        r@ =~~= join_comps(comps_view(*cs)),
{
    if cs.len() == 0 {
        return Vec::new();
    }
    let mut i: usize = cs.len() - 1;
    let mut r: Vec<u8> = clone_bytes(&cs[i]);
    assert(comps_view(*cs).skip(i as int) =~= seq![comps_view(*cs)[i as int]]);
    while i > 0
        invariant
            0 <= i < cs.len(),
            r@ =~~= join_comps(comps_view(*cs).skip(i as int)),
        decreases i,
    {
        let mut t = clone_bytes(&cs[i - 1]);
        t.push(SEP);
        let mut tail = r;
        t.append(&mut tail);
        r = t;
        let ghost rest = comps_view(*cs).skip(i as int - 1);
        assert(rest[0] =~= comps_view(*cs)[i - 1]);
        assert(rest.skip(1) =~= comps_view(*cs).skip(i as int));
        assert(rest.len() >= 2);
        i = i - 1;
        assert(r@ =~~= join_comps(comps_view(*cs).skip(i as int)));
    }
    assert(comps_view(*cs).skip(0) =~= comps_view(*cs));
    r
}

/// Whether the component may stand in a normalized relative path.
pub fn check_wf_comp(c: &Vec<u8>) -> (r: bool)
    ensures
        r == wf_comp(c@),
{
    if c.len() == 0 {
        return false;
    }
    if c.len() == 1 && c[0] == 46 {
        assert(c@ =~= seq![46u8]);
        return false;
    }
    if c.len() == 2 && c[0] == 46 && c[1] == 46 {
        assert(c@ =~= seq![46u8, 46u8]);
        return false;
    }
    let mut i: usize = 0;
    while i < c.len()
        invariant
            0 <= i <= c.len(),
            forall|j: int| 0 <= j < i ==> #[trigger] c@[j] != SEP && valid_path_byte(c@[j]),
        decreases c.len() - i,
    {
        let b = c[i];
        if b == SEP || b == 0 || b == 10 || b == 34 || b == 39 || b == 124 {
            return false;
        }
        i = i + 1;
    }
    assert(c@ != seq![46u8] && c@ != seq![46u8, 46u8]) by {
        if c@ =~= seq![46u8] {
            assert(false);
        }
        if c@ =~= seq![46u8, 46u8] {
            assert(false);
        }
    }
    true
}

/// Resolve raw components against a component stack; `None` means the
/// path escaped past the bottom of the stack.
pub fn norm_exec(stack: &Vec<Vec<u8>>, comps: &Vec<Vec<u8>>) -> (r: Option<Vec<Vec<u8>>>)
    ensures
        r is Some <==> norm_fold(comps_view(*stack), comps_view(*comps)) is Some,
        r is Some ==> comps_view(r.unwrap()) =~~= norm_fold(
            comps_view(*stack),
            comps_view(*comps),
        ).unwrap(),
{
    let mut cur = clone_comps(stack);
    let ghost stack0 = comps_view(cur);
    proof {
        assert(norm_fold(stack0, comps_view(*comps)) == norm_fold(comps_view(*stack), comps_view(*comps)));
    }
    let mut i: usize = 0;
    assert(comps_view(*comps).skip(0) =~= comps_view(*comps));
    while i < comps.len()
        invariant
            0 <= i <= comps.len(),
            stack0 == comps_view(*stack),
            norm_fold(stack0, comps_view(*comps)) == norm_fold(
                comps_view(cur),
                comps_view(*comps).skip(i as int),
            ),
        decreases comps.len() - i,
    {
        let c = &comps[i];
        let ghost prev = comps_view(cur);
        let ghost rem = comps_view(*comps).skip(i as int);
        proof {
            assert(rem[0] =~= comps_view(*comps)[i as int]);
            assert(c@ =~= rem[0]);
            assert(rem.skip(1) =~= comps_view(*comps).skip(i as int + 1));
        }
        if c.len() == 0 || (c.len() == 1 && c[0] == 46) {
            proof {
                if c@.len() == 1 {
                    assert(c@ =~= seq![46u8]);
                }
            }
        } else if c.len() == 2 && c[0] == 46 && c[1] == 46 {
            proof {
                assert(c@ =~= seq![46u8, 46u8]);
                assert(c@.len() == 2);
                assert(!(c@ =~= seq![46u8]));
            }
            if cur.len() == 0 {
                proof {
                    assert(prev.len() == cur@.len());
                    assert(prev.len() == 0);
                    assert(rem.len() > 0);
                    assert(rem[0] == c@);
                    assert(norm_fold(prev, rem) is None);
                    assert(norm_fold(stack0, comps_view(*comps)) is None);
                    assert(norm_fold(comps_view(*stack), comps_view(*comps)) is None);
                }
                return None;
            }
            let popped = cur.pop();
            proof {
                assert(comps_view(cur) =~~= prev.drop_last());
                assert(norm_fold(prev, rem) == norm_fold(prev.drop_last(), rem.skip(1)));
            }
        } else {
            proof {
                assert(!(c@.len() == 0 || c@ =~= seq![46u8] || c@ =~= seq![46u8, 46u8]));
            }
            let copy = clone_bytes(c);
            cur.push(copy);
            proof {
                assert(comps_view(cur) =~~= prev.push(rem[0]));
            }
        }
        i = i + 1;
        assert(norm_fold(stack0, comps_view(*comps)) == norm_fold(
            comps_view(cur),
            comps_view(*comps).skip(i as int),
        ));
    }
    assert(comps_view(*comps).skip(comps.len() as int) =~= Seq::<Seq<u8>>::empty());
    Some(cur)
}

/// Check that an absolute path is in normal form, returning its
/// components when it is.
fn parse_normal_abs(b: &Vec<u8>) -> (r: Option<Vec<Vec<u8>>>)
    ensures
        r is Some <==> base_normalized(b@),
        r is Some ==> comps_view(r.unwrap()) =~~= split_comps(b@),
{
    let cs = split_exec(b);
    if cs.len() < 2 {
        return None;
    }
    if cs[0].len() != 0 {
        proof {
            assert(split_comps(b@)[0] =~= comps_view(cs)[0]);
            assert(!(split_comps(b@)[0] =~= Seq::<u8>::empty()));
        }
        return None;
    }
    assert(split_comps(b@)[0] =~= Seq::<u8>::empty());
    let mut i: usize = 1;
    while i < cs.len()
        invariant
            1 <= i <= cs.len(),
            comps_view(cs) =~~= split_comps(b@),
            forall|j: int| 1 <= j < i ==> wf_comp(#[trigger] split_comps(b@)[j]),
        decreases cs.len() - i,
    {
        if !check_wf_comp(&cs[i]) {
            proof {
                assert(comps_view(cs)[i as int] =~= cs@[i as int]@);
                assert(!wf_comp(split_comps(b@)[i as int]));
            }
            return None;
        }
        proof {
            assert(comps_view(cs)[i as int] =~= cs@[i as int]@);
            assert(wf_comp(split_comps(b@)[i as int]));
        }
        i = i + 1;
    }
    Some(cs)
}

/// An owned path that is always either exactly its anchor directory or
/// a validated descendant of it: the anchor as absolute bytes, and the
/// suffix as resolved components (empty when the path is the anchor
/// itself).
#[derive(Debug, Clone, PartialEq, Eq)]
pub struct BasedPath {
    /// The anchor: an absolute path in normal form.
    pub base: Vec<u8>,
    /// The suffix components under the anchor; empty means the path
    /// is the anchor itself.
    pub rel: Vec<Vec<u8>>,
}

impl BasedPath {
    /// The anchor, as bytes.
    pub open spec fn base_bytes(self) -> Seq<u8> {
        self.base@
    }

    /// The suffix, as components.
    pub open spec fn rel_comps(self) -> Seq<Seq<u8>> {
        comps_view(self.rel)
    }

    /// Invariant: the anchor is an absolute path in normal form and
    /// every suffix component is well formed.
    pub open spec fn wf(self) -> bool {
        &&& valid_path_bytes(self.base@)
        &&& base_normalized(self.base@)
        &&& wf_comps(comps_view(self.rel))
    }

    /// The effective path: the anchor alone, or the anchor with the
    /// suffix appended.
    pub open spec fn full_bytes(self) -> Seq<u8> {
        if self.rel_comps().len() == 0 {
            self.base@
        } else {
            self.base@ + seq![SEP] + join_comps(self.rel_comps())
        }
    }

    /// Whether joining these relative bytes onto this path succeeds:
    /// they must be valid, relative, and must not resolve past the
    /// anchor.
    pub open spec fn join_ok(self, rb: Seq<u8>) -> bool {
        &&& valid_path_bytes(rb)
        &&& !is_absolute(rb)
        &&& norm_fold(self.rel_comps(), split_comps(rb)) is Some
    }

    /// Anchor a new path at the given absolute directory; the suffix
    /// starts out empty.
    pub fn new(base: &str) -> (r: Result<Self, Error>)
        ensures
            r is Ok <==> valid_path_bytes(base.spec_bytes()) && base_normalized(base.spec_bytes()),
            r is Ok ==> r.unwrap().base_bytes() == base.spec_bytes()
                && r.unwrap().rel_comps().len() == 0 && r.unwrap().wf(),
    {
        let b = base.as_bytes_vec();
        if !check_valid_bytes(&b) {
            return Err(Error::JoinPath(PathError::InvalidChar));
        }
        if b.len() == 0 || b[0] != SEP {
            proof {
                if base_normalized(b@) {
                    lemma_split_nonempty(b@);
                    assert(split_comps(b@)[0] =~= Seq::<u8>::empty());
                    assert(b@.len() > 0 && b@[0] == SEP) by {
                        if b@.len() == 0 {
                            assert(split_comps(b@).len() == 1);
                        }
                    }
                }
            }
            return Err(Error::JoinPath(PathError::NotAbsolute));
        }
        match parse_normal_abs(&b) {
            Option::None => Err(Error::JoinPath(PathError::NotNormalized)),
            Option::Some(_) => Ok(BasedPath { base: b, rel: Vec::new() }),
        }
    }

    /// A copy of this path, field for field.
    pub fn duplicate(&self) -> (r: Self)
        ensures
            r.base_bytes() == self.base_bytes(),
            r.rel_comps() == self.rel_comps(),
            r.wf() == self.wf(),
            r.full_bytes() == self.full_bytes(),
    {
        let r = BasedPath { base: clone_bytes(&self.base), rel: clone_comps(&self.rel) };
        proof {
            assert(r.base_bytes() =~= self.base_bytes());
            assert(r.rel_comps() =~~= self.rel_comps());
        }
        r
    }

    /// Rebase the path: the effective path becomes the new anchor and
    /// the suffix is cleared, so later joins are validated against it.
    pub fn rebased(self) -> (r: BasedPath)
        requires
            self.wf(),
        ensures
            r.base_bytes() == self.full_bytes(),
            r.rel_comps().len() == 0,
            r.wf(),
    {
        proof {
            lemma_full_bytes_normal(self);
        }
        let b = self.into_full_vec();
        BasedPath { base: b, rel: Vec::new() }
    }

    /// The anchor of this path.
    pub fn as_base_path(&self) -> (r: Vec<u8>)
        ensures
            r@ == self.base_bytes(),
    {
        clone_bytes(&self.base)
    }

    /// The effective path as owned bytes.
    pub fn as_path(&self) -> (r: Vec<u8>)
        ensures
            r@ == self.full_bytes(),
    {
        if self.rel.len() == 0 {
            assert(self.rel_comps().len() == 0);
            clone_bytes(&self.base)
        } else {
            let mut b = clone_bytes(&self.base);
            b.push(SEP);
            let mut j = join_exec(&self.rel);
            b.append(&mut j);
            proof {
                assert(self.rel_comps().len() != 0);
                assert(b@ =~= self.base@ + seq![SEP] + join_comps(self.rel_comps()));
            }
            b
        }
    }

    /// The effective path as owned bytes (the same value as
    /// [`Self::as_path`]).
    pub fn as_full_path(&self) -> (r: Vec<u8>)
        ensures
            r@ == self.full_bytes(),
    {
        self.as_path()
    }

    fn into_full_vec(self) -> (r: Vec<u8>)
        ensures
            r@ == self.full_bytes(),
    {
        self.as_path()
    }

    /// The suffix relative to the anchor, empty when there is none.
    pub fn rel_path(&self) -> (r: Vec<u8>)
        ensures
            r@ == join_comps(self.rel_comps()),
            self.rel_comps().len() == 0 ==> r@.len() == 0,
    {
        join_exec(&self.rel)
    }

    /// Join a relative path onto the effective path. Fails when the
    /// argument is absolute, holds an invalid byte, or resolves past
    /// the anchor; `.` and empty components are skipped and `..` pops
    /// one suffix component.
    pub fn join(&self, rel_path: &str) -> (r: Result<Self, Error>)
        requires
            self.wf(),
        ensures
            r is Ok <==> self.join_ok(rel_path.spec_bytes()),
            r is Ok ==> ({
                let n = r.unwrap();
                &&& n.base_bytes() == self.base_bytes()
                &&& n.rel_comps() == norm_fold(
                    self.rel_comps(),
                    split_comps(rel_path.spec_bytes()),
                ).unwrap()
                &&& n.wf()
            }),
            r is Err ==> (r.unwrap_err() matches Error::JoinPath(_)),
            !valid_path_bytes(rel_path.spec_bytes()) ==> (r.unwrap_err() matches Error::JoinPath(
                PathError::InvalidChar,
            )),
            valid_path_bytes(rel_path.spec_bytes()) && is_absolute(rel_path.spec_bytes()) ==> (
            r.unwrap_err() matches Error::JoinPath(PathError::JoinAbsolute)),
            valid_path_bytes(rel_path.spec_bytes()) && !is_absolute(rel_path.spec_bytes())
                && norm_fold(self.rel_comps(), split_comps(rel_path.spec_bytes())) is None ==> (
            r.unwrap_err() matches Error::JoinPath(PathError::Escape)),
    {
        let rb = rel_path.as_bytes_vec();
        self.join_bytes(&rb)
    }

    /// [`Self::join`], taking the relative path as bytes.
    pub fn join_bytes(&self, rel: &Vec<u8>) -> (r: Result<Self, Error>)
        requires
            self.wf(),
        ensures
            r is Ok <==> self.join_ok(rel@),
            r is Ok ==> ({
                let n = r.unwrap();
                &&& n.base_bytes() == self.base_bytes()
                &&& n.rel_comps() == norm_fold(self.rel_comps(), split_comps(rel@)).unwrap()
                &&& n.wf()
            }),
            r is Err ==> (r.unwrap_err() matches Error::JoinPath(_)),
            !valid_path_bytes(rel@) ==> (r.unwrap_err() matches Error::JoinPath(
                PathError::InvalidChar,
            )),
            valid_path_bytes(rel@) && is_absolute(rel@) ==> (r.unwrap_err()
                matches Error::JoinPath(PathError::JoinAbsolute)),
            valid_path_bytes(rel@) && !is_absolute(rel@) && norm_fold(
                self.rel_comps(),
                split_comps(rel@),
            ) is None ==> (r.unwrap_err() matches Error::JoinPath(PathError::Escape)),
    {
        let rb = clone_bytes(rel);
        if !check_valid_bytes(&rb) {
            return Err(Error::JoinPath(PathError::InvalidChar));
        }
        if rb.len() > 0 && rb[0] == SEP {
            return Err(Error::JoinPath(PathError::JoinAbsolute));
        }
        let comps = split_exec(&rb);
        match norm_exec(&self.rel, &comps) {
            Option::None => {
                assert(norm_fold(self.rel_comps(), split_comps(rb@)) is None);
                Err(Error::JoinPath(PathError::Escape))
            },
            Option::Some(stack) => {
                proof {
                    lemma_split_comps_clean(rb@);
                    lemma_norm_fold_wf(self.rel_comps(), split_comps(rb@));
                    assert(comps_view(stack) =~~= norm_fold(
                        self.rel_comps(),
                        split_comps(rb@),
                    ).unwrap());
                }
                let r = BasedPath { base: clone_bytes(&self.base), rel: stack };
                proof {
                    assert(r.base_bytes() =~= self.base_bytes());
                }
                Ok(r)
            },
        }
    }

    /// Set the suffix so that the effective path is exactly the given
    /// absolute path; fails when that path is not under the anchor.
    pub fn with_path_buf(&self, path: &str) -> (r: Result<Self, Error>)
        requires
            self.wf(),
        ensures
            r is Ok <==> valid_path_bytes(path.spec_bytes()) && base_normalized(path.spec_bytes())
                && split_comps(self.base_bytes()).is_prefix_of(split_comps(path.spec_bytes())),
            r is Ok ==> ({
                let n = r.unwrap();
                &&& n.base_bytes() == self.base_bytes()
                &&& n.rel_comps() == split_comps(path.spec_bytes()).skip(
                    split_comps(self.base_bytes()).len() as int,
                )
                &&& n.wf()
                &&& n.full_bytes() == path.spec_bytes()
            }),
            !valid_path_bytes(path.spec_bytes()) ==> (r.unwrap_err() matches Error::JoinPath(
                PathError::InvalidChar,
            )),
            valid_path_bytes(path.spec_bytes()) && !base_normalized(path.spec_bytes()) ==> (
            r.unwrap_err() matches Error::JoinPath(PathError::NotNormalized)),
            valid_path_bytes(path.spec_bytes()) && base_normalized(path.spec_bytes())
                && !split_comps(self.base_bytes()).is_prefix_of(split_comps(path.spec_bytes()))
                ==> (r.unwrap_err() matches Error::PathNotBasedOn(b, p) && b@ == self.base_bytes()
                && p@ == path.spec_bytes()),
    {
        let pb = path.as_bytes_vec();
        if !check_valid_bytes(&pb) {
            return Err(Error::JoinPath(PathError::InvalidChar));
        }
        let cs = match parse_normal_abs(&pb) {
            Option::None => {
                return Err(Error::JoinPath(PathError::NotNormalized));
            },
            Option::Some(cs) => cs,
        };
        let base_cs = split_exec(&self.base);
        if base_cs.len() > cs.len() {
            proof {
                assert(!split_comps(self.base_bytes()).is_prefix_of(split_comps(pb@)));
            }
            return Err(Error::PathNotBasedOn(clone_bytes(&self.base), pb));
        }
        let mut i: usize = 0;
        while i < base_cs.len()
            invariant
                0 <= i <= base_cs.len(),
                base_cs.len() <= cs.len(),
                comps_view(base_cs) =~~= split_comps(self.base_bytes()),
                comps_view(cs) =~~= split_comps(pb@),
                pb@ == path.spec_bytes(),
                valid_path_bytes(pb@),
                base_normalized(pb@),
                self.wf(),
                forall|j: int| 0 <= j < i ==> split_comps(self.base_bytes())[j]
                    =~= #[trigger] split_comps(pb@)[j],
            decreases base_cs.len() - i,
        {
            if !bytes_eq(&base_cs[i], &cs[i]) {
                proof {
                    assert(comps_view(base_cs)[i as int] =~= base_cs@[i as int]@);
                    assert(comps_view(cs)[i as int] =~= cs@[i as int]@);
                    assert(split_comps(self.base_bytes())[i as int] != split_comps(pb@)[i as int]);
                    assert(!split_comps(self.base_bytes()).is_prefix_of(split_comps(pb@)));
                }
                return Err(Error::PathNotBasedOn(clone_bytes(&self.base), pb));
            }
            proof {
                assert(comps_view(base_cs)[i as int] =~= base_cs@[i as int]@);
                assert(comps_view(cs)[i as int] =~= cs@[i as int]@);
                assert(split_comps(self.base_bytes())[i as int] =~= split_comps(pb@)[i as int]);
            }
            i = i + 1;
        }
        assert(split_comps(self.base_bytes()).is_prefix_of(split_comps(pb@)));
        let n = base_cs.len();
        let mut rel: Vec<Vec<u8>> = Vec::new();
        let mut k: usize = n;
        while k < cs.len()
            invariant
                n <= k <= cs.len(),
                comps_view(cs) =~~= split_comps(pb@),
                comps_view(rel) =~~= split_comps(pb@).subrange(n as int, k as int),
            decreases cs.len() - k,
        {
            let ghost before = comps_view(rel);
            rel.push(clone_bytes(&cs[k]));
            proof {
                assert(comps_view(rel) =~~= before.push(cs@[k as int]@));
                assert(cs@[k as int]@ =~= split_comps(pb@)[k as int]);
                assert(before.push(split_comps(pb@)[k as int]) =~~= split_comps(pb@).subrange(
                    n as int,
                    k as int + 1,
                ));
            }
            k = k + 1;
        }
        proof {
            assert(split_comps(pb@).subrange(n as int, split_comps(pb@).len() as int)
                =~= split_comps(pb@).skip(n as int));
        }
        let r = BasedPath { base: clone_bytes(&self.base), rel };
        proof {
            assert(r.base_bytes() =~= self.base_bytes());
            lemma_with_path_facts(*self, r, pb@);
        }
        Ok(r)
    }
}

/// Equality of two byte vectors.
pub fn bytes_eq(a: &Vec<u8>, b: &Vec<u8>) -> (r: bool)
    ensures
        r == (a@ == b@),
{
    if a.len() != b.len() {
        return false;
    }
    let mut i: usize = 0;
    while i < a.len()
        invariant
            0 <= i <= a.len(),
            a@.len() == b@.len(),
            forall|j: int| 0 <= j < i ==> a@[j] == b@[j],
        decreases a.len() - i,
    {
        if a[i] != b[i] {
            return false;
        }
        i = i + 1;
    }
    proof {
        assert(a@ =~= b@);
    }
    true
}

/// The effective path of a well-formed anchored path is itself a
/// normalized absolute path whose components are the anchor's
/// followed by the suffix's.
pub proof fn lemma_full_bytes_normal(p: BasedPath)
    requires
        p.wf(),
    ensures
        valid_path_bytes(p.full_bytes()),
        base_normalized(p.full_bytes()),
        split_comps(p.full_bytes()) =~~= split_comps(p.base_bytes()) + p.rel_comps(),
{
    if p.rel_comps().len() == 0 {
        assert(split_comps(p.full_bytes()) =~~= split_comps(p.base_bytes()) + p.rel_comps());
    } else {
        lemma_split_join(p.rel_comps());
        lemma_split_concat(p.base_bytes(), join_comps(p.rel_comps()));
        assert(split_comps(p.full_bytes()) =~~= split_comps(p.base_bytes()) + p.rel_comps());
        assert(valid_path_bytes(p.full_bytes())) by {
            lemma_join_comps_valid(p.rel_comps());
            let f = p.full_bytes();
            let b = p.base_bytes();
            let j = join_comps(p.rel_comps());
            assert forall|i: int| 0 <= i < f.len() implies valid_path_byte(#[trigger] f[i]) by {
                if i < b.len() {
                    assert(f[i] == b[i]);
                } else if i == b.len() {
                    assert(f[i] == SEP);
                } else {
                    assert(f[i] == j[i - b.len() - 1]);
                }
            }
        }
        let cs = split_comps(p.full_bytes());
        let bs = split_comps(p.base_bytes());
        assert(cs[0] =~= bs[0]);
        assert forall|i: int| 1 <= i < cs.len() implies wf_comp(#[trigger] cs[i]) by {
            if i < bs.len() {
                assert(cs[i] =~= bs[i]);
            } else {
                assert(cs[i] =~= p.rel_comps()[i - bs.len()]);
            }
        }
    }
}

/// Joined well-formed components hold only valid bytes.
pub proof fn lemma_join_comps_valid(cs: Seq<Seq<u8>>)
    requires
        wf_comps(cs),
    ensures
        valid_path_bytes(join_comps(cs)),
    decreases cs.len(),
{
    if cs.len() == 0 {
    } else if cs.len() == 1 {
        assert(wf_comp(cs[0]));
        assert(join_comps(cs) =~= cs[0]);
    } else {
        assert(wf_comps(cs.skip(1))) by {
            assert(forall|i: int| 0 <= i < cs.skip(1).len() ==> cs.skip(1)[i] =~= cs[i + 1]
                && wf_comp(#[trigger] cs.skip(1)[i]));
        }
        lemma_join_comps_valid(cs.skip(1));
        let j = join_comps(cs);
        let h = cs[0];
        let t = join_comps(cs.skip(1));
        assert(j =~= h + seq![SEP] + t);
        assert forall|i: int| 0 <= i < j.len() implies valid_path_byte(#[trigger] j[i]) by {
            if i < h.len() {
                assert(j[i] == h[i]);
                assert(wf_comp(h));
            } else if i == h.len() {
                assert(j[i] == SEP);
            } else {
                assert(j[i] == t[i - h.len() - 1]);
            }
        }
    }
}

/// The facts that `with_path_buf` promises of its result.
proof fn lemma_with_path_facts(orig: BasedPath, r: BasedPath, pb: Seq<u8>)
    requires
        orig.wf(),
        valid_path_bytes(pb),
        base_normalized(pb),
        r.base_bytes() == orig.base_bytes(),
        split_comps(orig.base_bytes()).is_prefix_of(split_comps(pb)),
        r.rel_comps() == split_comps(pb).skip(split_comps(orig.base_bytes()).len() as int),
    ensures
        r.wf(),
        r.full_bytes() == pb,
{
    let bs = split_comps(orig.base_bytes());
    let ps = split_comps(pb);
    let rel = ps.skip(bs.len() as int);
    assert(bs.len() >= 2);
    assert forall|i: int| 0 <= i < rel.len() implies wf_comp(#[trigger] rel[i]) by {
        assert(rel[i] =~= ps[i + bs.len()]);
        assert(i + bs.len() >= 1);
    }
    assert(r.wf());
    lemma_join_split(pb);
    if rel.len() == 0 {
        assert(ps =~~= bs);
        lemma_join_split(orig.base_bytes());
        assert(join_comps(ps) == join_comps(bs));
        assert(r.full_bytes() =~= pb);
    } else {
        assert(ps =~~= bs + rel);
        lemma_join_concat(bs, rel);
        lemma_join_split(orig.base_bytes());
        assert(join_comps(ps) =~= join_comps(bs) + seq![SEP] + join_comps(rel));
        assert(r.full_bytes() =~= orig.base_bytes() + seq![SEP] + join_comps(rel));
        assert(r.full_bytes() =~= pb);
    }
}


/// Law: a rebased path has no suffix, so its relative part is the
/// empty byte string.
pub proof fn lemma_rebased_relative_part(p: BasedPath, q: BasedPath)
    requires
        p.wf(),
        q.base_bytes() == p.full_bytes(),
        q.rel_comps().len() == 0,
    ensures
        join_comps(q.rel_comps()) =~= Seq::<u8>::empty(),
{
}

} // verus!
