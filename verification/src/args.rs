//! The argument "sandwich" merge: a parent argument list may hold the
//! injection marker `%!` once; the child's arguments are spliced in at the
//! first marker, or appended when there is none.

use vstd::prelude::*;
use crate::text::seq_views;

verus! {

/// The injection marker: the literal argument `%!`.
pub open spec fn marker_text() -> Seq<char> {
    "%!"@
}

/// Index of the first marker argument at or after position `i`.
pub open spec fn find_marker(args: Seq<Seq<char>>, i: int) -> Option<int>
    decreases args.len() - i,
{
    if i < 0 || i >= args.len() {
        None
    } else if args[i] == marker_text() {
        Some(i)
    } else {
        find_marker(args, i + 1)
    }
}

/// What `find_marker` returns: the first marker position at or after `i`, or
/// nothing when no marker follows.
pub proof fn lemma_find_marker(args: Seq<Seq<char>>, i: int)
    requires
        0 <= i <= args.len(),
    ensures
        match find_marker(args, i) {
            Some(j) => i <= j < args.len() && args[j] == marker_text() && (forall|k: int|
                i <= k < j ==> args[k] != marker_text()),
            None => forall|k: int| i <= k < args.len() ==> args[k] != marker_text(),
        },
    decreases args.len() - i,
{
    if i < args.len() && args[i] != marker_text() {
        lemma_find_marker(args, i + 1);
    }
}

/// The merged argument list: the child spliced into the parent at the first
/// `%!`, the marker itself dropped; or parent then child when the parent has
/// no marker. Later markers are ordinary arguments and stay put.
pub open spec fn sandwich_spec(parent: Seq<Seq<char>>, child: Seq<Seq<char>>) -> Seq<Seq<char>> {
    match find_marker(parent, 0) {
        None => parent + child,
        Some(p) => parent.take(p) + child + parent.skip(p + 1),
    }
}

/// The position of the first `%!` argument, when one exists.
fn find_marker_exec(v: &Vec<String>) -> (r: Option<usize>)
    ensures
        r == match find_marker(seq_views(v@), 0) {
            Some(p) => Some(p as usize),
            None => None::<usize>,
        },
{
    let ghost pv = seq_views(v@);
    proof {
        lemma_find_marker(pv, 0);
    }
    let n = v.len();
    let mut pos: usize = 0;
    while pos < n
        invariant
            n == v@.len(),
            pos <= n,
            pv == seq_views(v@),
            forall|k: int| 0 <= k < pos ==> pv[k] != marker_text(),
            match find_marker(pv, 0) {
                Some(j) => pos <= j < pv.len() && pv[j] == marker_text() && (forall|k: int|
                    0 <= k < j ==> pv[k] != marker_text()),
                None => forall|k: int| 0 <= k < pv.len() ==> pv[k] != marker_text(),
            },
        decreases n - pos,
    {
        if crate::text::str_eq(v[pos].as_str(), "%!") {
            proof {
                assert(pv[pos as int] == marker_text());
            }
            return Some(pos);
        }
        pos += 1;
    }
    None
}

/// Puts the child arguments in place of the first `%!` in the parent
/// arguments, or appends them when the parent has no `%!`.
pub fn sandwich_args(parent: Vec<String>, child: Vec<String>) -> (r: Vec<String>)
    ensures
        seq_views(r@) == sandwich_spec(seq_views(parent@), seq_views(child@)),
{
    let ghost pv = seq_views(parent@);
    let ghost cv = seq_views(child@);
    let n = parent.len();
    let cn = child.len();
    match find_marker_exec(&parent) {
        Some(pos) => {
            proof {
                lemma_find_marker(pv, 0);
            }
            let mut merged: Vec<String> = Vec::new();
            proof {
                assert(seq_views(merged@) =~= pv.take(0));
            }
            let mut i: usize = 0;
            while i < pos
                invariant
                    pos < n,
                    n == parent@.len(),
                    i <= pos,
                    pv == seq_views(parent@),
                    seq_views(merged@) == pv.take(i as int),
                decreases pos - i,
            {
                let ghost before = seq_views(merged@);
                merged.push(parent[i].clone());
                proof {
                    assert(seq_views(merged@) =~= before.push(pv[i as int]));
                    assert(seq_views(merged@) =~= pv.take(i + 1));
                }
                i += 1;
            }
            let mut j: usize = 0;
            proof {
                assert(pv.take(pos as int) + cv.take(0) =~= pv.take(pos as int));
            }
            while j < cn
                invariant
                    pos < n,
                    cn == child@.len(),
                    j <= cn,
                    pv == seq_views(parent@),
                    cv == seq_views(child@),
                    seq_views(merged@) == pv.take(pos as int) + cv.take(j as int),
                decreases cn - j,
            {
                let ghost before = seq_views(merged@);
                merged.push(child[j].clone());
                proof {
                    assert(seq_views(merged@) =~= before.push(cv[j as int]));
                    assert(seq_views(merged@) =~= pv.take(pos as int) + cv.take(j + 1));
                }
                j += 1;
            }
            let mut t: usize = pos + 1;
            proof {
                assert(cv.take(cn as int) =~= cv);
                assert(pv.subrange(pos + 1, pos + 1) =~= Seq::<Seq<char>>::empty());
                assert(pv.take(pos as int) + cv + pv.subrange(pos + 1, pos + 1) =~= pv.take(
                    pos as int,
                ) + cv);
            }
            while t < n
                invariant
                    pos < n,
                    n == parent@.len(),
                    pos + 1 <= t <= n,
                    pv == seq_views(parent@),
                    cv == seq_views(child@),
                    seq_views(merged@) == pv.take(pos as int) + cv + pv.subrange(
                        pos + 1,
                        t as int,
                    ),
                decreases n - t,
            {
                let ghost before = seq_views(merged@);
                merged.push(parent[t].clone());
                proof {
                    assert(seq_views(merged@) =~= before.push(pv[t as int]));
                    assert(seq_views(merged@) =~= pv.take(pos as int) + cv + pv.subrange(
                        pos + 1,
                        t + 1,
                    ));
                }
                t += 1;
            }
            proof {
                assert(pv.subrange(pos + 1, n as int) =~= pv.skip(pos + 1));
            }
            merged
        },
        None => {
            let mut merged = parent;
            let mut j: usize = 0;
            proof {
                assert(pv + cv.take(0) =~= pv);
            }
            while j < cn
                invariant
                    cn == child@.len(),
                    j <= cn,
                    cv == seq_views(child@),
                    seq_views(merged@) == pv + cv.take(j as int),
                decreases cn - j,
            {
                let ghost before = seq_views(merged@);
                merged.push(child[j].clone());
                proof {
                    assert(seq_views(merged@) =~= before.push(cv[j as int]));
                    assert(seq_views(merged@) =~= pv + cv.take(j + 1));
                }
                j += 1;
            }
            proof {
                assert(cv.take(cn as int) =~= cv);
            }
            merged
        },
    }
}

} // verus!
