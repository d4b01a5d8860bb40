//! Lexical path handling for image resolution: the directory of a document
//! path, joining a relative link onto it, and normalization that collapses
//! `.` and `..` segments. All of it is textual; no file system is consulted.

use vstd::prelude::*;
use crate::chars::{append_chars, append_range};

verus! {

/// The document's directory: everything before the last `/`, or empty when
/// the path holds no `/`.
pub open spec fn spec_parent(s: Seq<char>) -> Seq<char>
    decreases s.len(),
{
    if s.len() == 0 {
        Seq::empty()
    } else if s.last() == '/' {
        s.drop_last()
    } else {
        spec_parent(s.drop_last())
    }
}

/// Folds one finished segment into the normalized segment stack: empty and
/// `.` segments vanish, `..` pops the previous real segment (or is kept when
/// there is nothing left to pop), anything else is kept.
pub open spec fn seg_step(stack: Seq<Seq<char>>, seg: Seq<char>) -> Seq<Seq<char>> {
    if seg.len() == 0 || seg == "."@ {
        stack
    } else if seg == ".."@ {
        if stack.len() > 0 && stack.last() != ".."@ {
            stack.drop_last()
        } else {
            stack.push(seg)
        }
    } else {
        stack.push(seg)
    }
}

/// Splits `s[i..]` on `/` and folds every segment with `seg_step`, starting
/// from `stack` with `seg` the partial segment read so far.
pub open spec fn norm_from(s: Seq<char>, i: int, stack: Seq<Seq<char>>, seg: Seq<char>) -> Seq<
    Seq<char>,
>
    decreases s.len() - i,
{
    if i < 0 || i >= s.len() {
        seg_step(stack, seg)
    } else if s[i] == '/' {
        norm_from(s, i + 1, seg_step(stack, seg), Seq::empty())
    } else {
        norm_from(s, i + 1, stack, seg.push(s[i]))
    }
}

/// The first `i` segments joined with `/`.
pub open spec fn join_upto(segs: Seq<Seq<char>>, i: int) -> Seq<char>
    decreases i,
{
    if i <= 0 {
        Seq::empty()
    } else if i == 1 {
        segs[0]
    } else {
        join_upto(segs, i - 1) + seq!['/'] + segs[i - 1]
    }
}

/// The normalized form of a path: segments split on `/`, `.` and empty
/// segments dropped, `..` collapsed against the preceding segment, the rest
/// joined back with `/`.
pub open spec fn spec_simplify(s: Seq<char>) -> Seq<char> {
    let segs = norm_from(s, 0, Seq::empty(), Seq::empty());
    join_upto(segs, segs.len() as int)
}

/// A relative link resolved against the directory of `doc` and normalized.
pub open spec fn spec_resolve(doc: Seq<char>, link: Seq<char>) -> Seq<char> {
    let par = spec_parent(doc);
    if par.len() == 0 {
        spec_simplify(link)
    } else {
        spec_simplify(par + seq!['/'] + link)
    }
}

fn is_dot(seg: &Vec<char>) -> (b: bool)
    ensures
        b == (seg@ == "."@),
{
    proof {
        reveal_strlit(".");
    }
    if seg.len() == 1 && seg[0] == '.' {
        proof {
            assert(seg@ =~= "."@);
        }
        true
    } else {
        false
    }
}

fn is_dotdot(seg: &Vec<char>) -> (b: bool)
    ensures
        b == (seg@ == ".."@),
{
    proof {
        reveal_strlit("..");
    }
    if seg.len() == 2 && seg[0] == '.' && seg[1] == '.' {
        proof {
            assert(seg@ =~= ".."@);
        }
        true
    } else {
        false
    }
}

fn apply_step(stack: &mut Vec<Vec<char>>, seg: Vec<char>)
    ensures
        final(stack).deep_view() == seg_step(old(stack).deep_view(), seg@),
{
    let ghost st0 = old(stack).deep_view();
    if seg.len() == 0 || is_dot(&seg) {
        return ;
    }
    if is_dotdot(&seg) {
        let l = stack.len();
        if l > 0 && !is_dotdot(&stack[l - 1]) {
            proof {
                assert(st0.last() == stack@[l - 1]@);
            }
            stack.pop();
            proof {
                assert(stack.deep_view() =~~= st0.drop_last());
            }
            return ;
        }
        proof {
            if st0.len() > 0 {
                assert(st0.last() == old(stack)@[st0.len() - 1]@);
            }
        }
        let ghost segv = seg@;
        stack.push(seg);
        proof {
            assert(stack.deep_view() =~~= st0.push(segv));
        }
        return ;
    }
    let ghost segv = seg@;
    stack.push(seg);
    proof {
        assert(stack.deep_view() =~~= st0.push(segv));
    }
}

/// Normalizes a `/`-separated path, collapsing `.` and `..` segments.
pub fn simplify(path: &Vec<char>) -> (r: Vec<char>)
    ensures
        r@ == spec_simplify(path@),
{
    let mut stack: Vec<Vec<char>> = Vec::new();
    let mut seg: Vec<char> = Vec::new();
    let mut i: usize = 0;
    proof {
        assert(stack.deep_view() =~~= Seq::<Seq<char>>::empty());
    }
    while i < path.len()
        invariant
            i <= path@.len(),
            norm_from(path@, 0, Seq::empty(), Seq::empty()) == norm_from(
                path@,
                i as int,
                stack.deep_view(),
                seg@,
            ),
        decreases path@.len() - i,
    {
        let ghost st0 = stack.deep_view();
        let ghost seg0 = seg@;
        let c = path[i];
        if c == '/' {
            apply_step(&mut stack, seg);
            seg = Vec::new();
            proof {
                assert(norm_from(path@, i as int, st0, seg0) == norm_from(
                    path@,
                    i + 1,
                    seg_step(st0, seg0),
                    Seq::empty(),
                ));
            }
        } else {
            seg.push(c);
            proof {
                assert(norm_from(path@, i as int, st0, seg0) == norm_from(
                    path@,
                    i + 1,
                    st0,
                    seg0.push(c),
                ));
            }
        }
        i = i + 1;
    }
    apply_step(&mut stack, seg);
    let ghost segs = stack.deep_view();
    proof {
        assert(segs == norm_from(path@, 0, Seq::empty(), Seq::empty()));
    }
    let mut out: Vec<char> = Vec::new();
    let mut k: usize = 0;
    while k < stack.len()
        invariant
            k <= stack@.len(),
            segs == stack.deep_view(),
            segs.len() == stack@.len(),
            out@ == join_upto(segs, k as int),
        decreases stack@.len() - k,
    {
        let ghost out0 = out@;
        if k > 0 {
            out.push('/');
        }
        append_chars(&mut out, &stack[k]);
        proof {
            assert(stack@[k as int]@ =~= segs[k as int]);
            if k == 0 {
                assert(out@ =~= join_upto(segs, 1));
            } else {
                assert(out@ =~= (out0 + seq!['/']) + segs[k as int]);
                assert(out@ =~= join_upto(segs, k as int) + seq!['/'] + segs[k as int]);
                assert(out@ == join_upto(segs, k + 1));
            }
        }
        k = k + 1;
    }
    out
}

/// The directory part of a document path, as `spec_parent` gives it.
pub fn parent_dir(path: &Vec<char>) -> (r: Vec<char>)
    ensures
        r@ == spec_parent(path@),
{
    let mut k: usize = path.len();
    proof {
        assert(path@.subrange(0, path@.len() as int) =~= path@);
    }
    while k > 0 && path[k - 1] != '/'
        invariant
            k <= path@.len(),
            spec_parent(path@) == spec_parent(path@.subrange(0, k as int)),
        decreases k,
    {
        proof {
            let sub = path@.subrange(0, k as int);
            assert(sub.last() == path@[k - 1]);
            assert(sub.drop_last() =~= path@.subrange(0, k - 1));
        }
        k = k - 1;
    }
    if k == 0 {
        let r: Vec<char> = Vec::new();
        proof {
            assert(path@.subrange(0, 0) =~= Seq::<char>::empty());
        }
        r
    } else {
        proof {
            let sub = path@.subrange(0, k as int);
            assert(sub.last() == path@[k - 1]);
            assert(sub.drop_last() =~= path@.subrange(0, k - 1));
        }
        let mut r: Vec<char> = Vec::new();
        append_range(&mut r, path, 0, k - 1);
        proof {
            assert(Seq::<char>::empty() + path@.subrange(0, k - 1) =~= path@.subrange(0, k - 1));
        }
        r
    }
}

/// Resolves a relative link against the directory of `doc` and normalizes
/// the result.
pub fn resolve_link(doc: &Vec<char>, link: &Vec<char>) -> (r: Vec<char>)
    ensures
        r@ == spec_resolve(doc@, link@),
{
    let par = parent_dir(doc);
    if par.len() == 0 {
        simplify(link)
    } else {
        let mut joined = par;
        joined.push('/');
        append_chars(&mut joined, link);
        proof {
            assert(joined@ =~= spec_parent(doc@) + seq!['/'] + link@);
        }
        simplify(&joined)
    }
}

} // verus!
