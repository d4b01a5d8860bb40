//! The hierarchical heading counter: a stack of per-level counts, adjusted
//! to each heading's depth and incremented, and its two renderings — the
//! dot-joined section number and the dash-joined anchor id.

use vstd::prelude::*;

verus! {

/// The decimal digit character for `n < 10`.
pub open spec fn digit_char(n: nat) -> char {
    if n == 0 {
        '0'
    } else if n == 1 {
        '1'
    } else if n == 2 {
        '2'
    } else if n == 3 {
        '3'
    } else if n == 4 {
        '4'
    } else if n == 5 {
        '5'
    } else if n == 6 {
        '6'
    } else if n == 7 {
        '7'
    } else if n == 8 {
        '8'
    } else {
        '9'
    }
}

/// The decimal rendering of `n`, without leading zeros (a single `0` for 0).
pub open spec fn dec_digits(n: nat) -> Seq<char>
    decreases n,
{
    if n < 10 {
        seq![digit_char(n)]
    } else {
        dec_digits(n / 10).push(digit_char(n % 10))
    }
}

/// Appends the decimal rendering of `n`.
pub fn push_decimal(out: &mut Vec<char>, n: usize)
    ensures
        final(out)@ == old(out)@ + dec_digits(n as nat),
    decreases n,
{
    if n < 10 {
        let c = (48 + (n as u8)) as char;
        proof {
            assert(c == digit_char(n as nat));
        }
        out.push(c);
        proof {
            assert(out@ =~= old(out)@ + dec_digits(n as nat));
        }
    } else {
        push_decimal(out, n / 10);
        let d = n % 10;
        let c = (48 + (d as u8)) as char;
        proof {
            assert(c == digit_char((n as nat) % 10));
        }
        out.push(c);
        proof {
            assert(out@ =~= old(out)@ + dec_digits(n as nat));
        }
    }
}

/// Every decimal rendering is nonempty and holds digit characters only.
pub proof fn lemma_dec_digits_shape(n: nat)
    ensures
        dec_digits(n).len() >= 1,
        forall|k: int|
            0 <= k < dec_digits(n).len() ==> 48 <= #[trigger] dec_digits(n)[k] as u32 <= 57,
    decreases n,
{
    if n >= 10 {
        lemma_dec_digits_shape(n / 10);
    }
}

/// Distinct counts render to distinct decimal strings.
pub proof fn lemma_dec_digits_injective(a: nat, b: nat)
    requires
        dec_digits(a) == dec_digits(b),
    ensures
        a == b,
    decreases a,
{
    lemma_dec_digits_shape(a / 10);
    lemma_dec_digits_shape(b / 10);
    if a < 10 && b < 10 {
        assert(dec_digits(a)[0] == digit_char(a));
        assert(dec_digits(b)[0] == digit_char(b));
    } else if a < 10 && b >= 10 {
        assert(dec_digits(a).len() == 1);
        assert(dec_digits(b).len() == dec_digits(b / 10).len() + 1);
    } else if a >= 10 && b < 10 {
        assert(dec_digits(b).len() == 1);
        assert(dec_digits(a).len() == dec_digits(a / 10).len() + 1);
    } else {
        assert(dec_digits(a).last() == digit_char(a % 10));
        assert(dec_digits(b).last() == digit_char(b % 10));
        assert(a % 10 == b % 10);
        assert(dec_digits(a).drop_last() =~= dec_digits(a / 10));
        assert(dec_digits(b).drop_last() =~= dec_digits(b / 10));
        lemma_dec_digits_injective(a / 10, b / 10);
    }
}

/// Each entry of the counter rendered in decimal, each followed by `sep`.
pub open spec fn render_groups(c: Seq<usize>, i: int, sep: char) -> Seq<char>
    decreases c.len() - i,
{
    if i < 0 || i >= c.len() {
        Seq::empty()
    } else {
        dec_digits(c[i] as nat) + seq![sep] + render_groups(c, i + 1, sep)
    }
}

/// The section number of a counter state: dot-joined counts with a trailing
/// dot, `1.2.` for `[1, 2]`.
pub open spec fn spec_number(c: Seq<usize>) -> Seq<char> {
    render_groups(c, 0, '.')
}

/// The anchor id of a counter state: the `s-` prefix, then dash-joined
/// counts with a trailing dash, `s-1-2-` for `[1, 2]`.
pub open spec fn spec_anchor_id(c: Seq<usize>) -> Seq<char> {
    "s-"@ + render_groups(c, 0, '-')
}

/// Renders the section number of the counter.
pub fn render_number(c: &Vec<usize>) -> (out: Vec<char>)
    ensures
        out@ == spec_number(c@),
{
    let mut out: Vec<char> = Vec::new();
    let mut i: usize = 0;
    while i < c.len()
        invariant
            i <= c@.len(),
            render_groups(c@, 0, '.') == out@ + render_groups(c@, i as int, '.'),
        decreases c@.len() - i,
    {
        let ghost out0 = out@;
        push_decimal(&mut out, c[i]);
        out.push('.');
        proof {
            let chunk = dec_digits(c@[i as int] as nat) + seq!['.'];
            assert(out@ =~= out0 + chunk);
            assert(render_groups(c@, i as int, '.') == chunk + render_groups(c@, i + 1, '.'));
            assert(out0 + (chunk + render_groups(c@, i + 1, '.')) =~= (out0 + chunk)
                + render_groups(c@, i + 1, '.'));
        }
        i = i + 1;
    }
    proof {
        assert(out@ + Seq::<char>::empty() =~= out@);
    }
    out
}

/// Renders the anchor id of the counter.
pub fn render_anchor_id(c: &Vec<usize>) -> (out: Vec<char>)
    ensures
        out@ == spec_anchor_id(c@),
{
    let mut out = crate::chars::str_to_chars("s-");
    let ghost pre = out@;
    let mut i: usize = 0;
    while i < c.len()
        invariant
            i <= c@.len(),
            pre == "s-"@,
            pre + render_groups(c@, 0, '-') == out@ + render_groups(c@, i as int, '-'),
        decreases c@.len() - i,
    {
        let ghost out0 = out@;
        push_decimal(&mut out, c[i]);
        out.push('-');
        proof {
            let chunk = dec_digits(c@[i as int] as nat) + seq!['-'];
            assert(out@ =~= out0 + chunk);
            assert(render_groups(c@, i as int, '-') == chunk + render_groups(c@, i + 1, '-'));
            assert(out0 + (chunk + render_groups(c@, i + 1, '-')) =~= (out0 + chunk)
                + render_groups(c@, i + 1, '-'));
        }
        i = i + 1;
    }
    proof {
        assert(out@ + Seq::<char>::empty() =~= out@);
    }
    out
}

/// Splitting at the first separator: a dash-free group followed by the
/// separator determines itself and the remainder.
proof fn lemma_group_split(a1: Seq<char>, r1: Seq<char>, a2: Seq<char>, r2: Seq<char>, sep: char)
    requires
        a1 + seq![sep] + r1 == a2 + seq![sep] + r2,
        forall|k: int| 0 <= k < a1.len() ==> a1[k] != sep,
        forall|k: int| 0 <= k < a2.len() ==> a2[k] != sep,
    ensures
        a1 == a2,
        r1 == r2,
{
    let s = a1 + seq![sep] + r1;
    if a1.len() < a2.len() {
        assert(s[a1.len() as int] == sep);
        assert(s[a1.len() as int] == a2[a1.len() as int]);
        assert(false);
    } else if a2.len() < a1.len() {
        assert(s[a2.len() as int] == sep);
        assert(s[a2.len() as int] == a1[a2.len() as int]);
        assert(false);
    } else {
        assert(a1 =~= a2) by {
            assert(forall|k: int| 0 <= k < a1.len() ==> a1[k] == s[k] && a2[k] == s[k]);
        }
        assert((a1 + seq![sep] + r1).len() == a1.len() + 1 + r1.len());
        assert((a2 + seq![sep] + r2).len() == a2.len() + 1 + r2.len());
        assert(r1.len() == r2.len());
        assert forall|k: int| 0 <= k < r1.len() implies r1[k] == r2[k] by {
            assert(r1[k] == ((a1 + seq![sep]) + r1)[a1.len() + 1 + k]);
            assert(r2[k] == ((a2 + seq![sep]) + r2)[a2.len() + 1 + k]);
        }
        assert(r1 =~= r2);
    }
}

/// Distinct counter states render to distinct dash-joined groups.
proof fn lemma_render_groups_injective(c1: Seq<usize>, c2: Seq<usize>, sep: char)
    requires
        render_groups(c1, 0, sep) == render_groups(c2, 0, sep),
        48 > sep as u32 || sep as u32 > 57,
    ensures
        c1 == c2,
    decreases c1.len(),
{
    if c1.len() == 0 && c2.len() == 0 {
        assert(c1 =~= c2);
    } else if c1.len() == 0 {
        lemma_dec_digits_shape(c2[0] as nat);
        assert(render_groups(c2, 0, sep).len() > 0);
    } else if c2.len() == 0 {
        lemma_dec_digits_shape(c1[0] as nat);
        assert(render_groups(c1, 0, sep).len() > 0);
    } else {
        lemma_dec_digits_shape(c1[0] as nat);
        lemma_dec_digits_shape(c2[0] as nat);
        let a1 = dec_digits(c1[0] as nat);
        let a2 = dec_digits(c2[0] as nat);
        let r1 = render_groups(c1, 1, sep);
        let r2 = render_groups(c2, 1, sep);
        assert(a1 + seq![sep] + r1 =~= render_groups(c1, 0, sep));
        assert(a2 + seq![sep] + r2 =~= render_groups(c2, 0, sep));
        assert(forall|k: int| 0 <= k < a1.len() ==> a1[k] != sep);
        assert(forall|k: int| 0 <= k < a2.len() ==> a2[k] != sep);
        lemma_group_split(a1, r1, a2, r2, sep);
        lemma_dec_digits_injective(c1[0] as nat, c2[0] as nat);
        lemma_render_shift(c1, sep);
        lemma_render_shift(c2, sep);
        lemma_render_groups_injective(c1.drop_first(), c2.drop_first(), sep);
        assert forall|k: int| 0 <= k < c1.len() implies c1[k] == c2[k] by {
            if k >= 1 {
                assert(c1.drop_first()[k - 1] == c2.drop_first()[k - 1]);
            }
        }
        assert(c1 =~= c2);
    }
}

/// Rendering from position 1 equals rendering the tail from its start.
proof fn lemma_render_shift(c: Seq<usize>, sep: char)
    requires
        c.len() >= 1,
    ensures
        render_groups(c, 1, sep) == render_groups(c.drop_first(), 0, sep),
    decreases c.len(),
{
    lemma_render_shift_inner(c, 1, sep);
    assert(c.drop_first() =~= c.skip(1));
}

/// Rendering from `i` equals rendering `c.skip(i)` from its start.
proof fn lemma_render_shift_inner(c: Seq<usize>, i: int, sep: char)
    requires
        0 <= i <= c.len(),
    ensures
        render_groups(c, i, sep) == render_groups(c.skip(i), 0, sep),
    decreases c.len() - i,
{
    let t = c.skip(i);
    if i >= c.len() {
        assert(t.len() == 0);
    } else {
        assert(t[0] == c[i]);
        lemma_render_shift_inner(c, i + 1, sep);
        assert(t.skip(1) =~= c.skip(i + 1));
        lemma_render_shift_inner(t, 1, sep);
    }
}

/// Anchor ids are unique across counter states: no two distinct counter
/// stacks produce the same id, so headings with distinct counter states get
/// distinct anchors.
pub proof fn lemma_anchor_ids_unique(c1: Seq<usize>, c2: Seq<usize>)
    requires
        c1 != c2,
    ensures
        spec_anchor_id(c1) != spec_anchor_id(c2),
{
    if spec_anchor_id(c1) == spec_anchor_id(c2) {
        let p = "s-"@;
        let g1 = render_groups(c1, 0, '-');
        let g2 = render_groups(c2, 0, '-');
        assert(g1 =~= g2) by {
            assert((p + g1).len() == (p + g2).len());
            assert(forall|k: int| 0 <= k < g1.len() ==> g1[k] == (p + g1)[p.len() + k]);
            assert(forall|k: int| 0 <= k < g2.len() ==> g2[k] == (p + g2)[p.len() + k]);
        }
        lemma_render_groups_injective(c1, c2, '-');
        assert(false);
    }
}

/// The counter adjusted to `target` entries: kept where present, zero-padded
/// where absent.
pub open spec fn adjust(c: Seq<usize>, target: int) -> Seq<usize> {
    Seq::new(target as nat, |k: int| if k < c.len() { c[k] } else { 0usize })
}

/// The counter state after a heading of level `level`: adjusted to
/// `level - 1` entries, the last then incremented.
pub open spec fn next_counter(c: Seq<usize>, level: int) -> Seq<usize> {
    let t = level - 1;
    let padded = adjust(c, t);
    if t > 0 {
        padded.update(t - 1, ((padded[t - 1] + 1) as usize))
    } else {
        padded
    }
}

/// Adjusts the counter in place to `target` entries and increments the last.
pub fn advance_counter(c: &mut Vec<usize>, target: usize, bound: usize)
    requires
        forall|k: int| 0 <= k < old(c)@.len() ==> old(c)@[k] <= bound,
        bound < usize::MAX,
    ensures
        final(c)@ == next_counter(old(c)@, target + 1),
        forall|k: int| 0 <= k < final(c)@.len() ==> final(c)@[k] <= bound + 1,
        final(c)@.len() == target,
{
    proof {
        assert(c@ =~= old(c)@.subrange(0, c@.len() as int));
    }
    while c.len() > target
        invariant
            c@.len() <= old(c)@.len(),
            c@.len() >= target || c@.len() == old(c)@.len(),
            c@ == old(c)@.subrange(0, c@.len() as int),
        decreases c@.len(),
    {
        c.pop();
        proof {
            assert(c@ =~= old(c)@.subrange(0, c@.len() as int));
        }
    }
    proof {
        assert(c@ =~= adjust(old(c)@, c@.len() as int));
    }
    while c.len() < target
        invariant
            c@.len() <= target,
            c@.len() < target ==> c@.len() >= old(c)@.len(),
            c@ == adjust(old(c)@, c@.len() as int),
        decreases target - c@.len(),
    {
        c.push(0);
        proof {
            assert(c@ =~= adjust(old(c)@, c@.len() as int));
        }
    }
    proof {
        assert(c@ =~= adjust(old(c)@, target as int));
    }
    if target > 0 {
        match c.pop() {
            Some(x) => {
                c.push(x + 1);
                proof {
                    assert(c@ =~= next_counter(old(c)@, target + 1));
                }
            },
            None => {
                proof {
                    assert(false);
                }
            },
        }
    }
}

} // verus!
