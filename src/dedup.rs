//! Corner tuples, their total order, and the collapse of equal corners.

use vstd::prelude::*;

verus! {

/// One triangle corner before deduplication: quantized position and normal
/// bytes, and the face color it belongs to.
#[derive(Clone, Copy, Debug, PartialEq, Eq)]
pub struct Corner {
    pub position: [u8; 3],
    pub normal: [u8; 4],
    pub color: [u32; 2],
}

/// `x` orders before `y`, or they tie and `rest` decides.
pub open spec fn lex(x: int, y: int, rest: bool) -> bool {
    x < y || (x == y && rest)
}

/// Lexicographic order: position bytes, then normal bytes, then color words.
pub open spec fn corner_lt(a: Corner, b: Corner) -> bool {
    lex(
        a.position[0] as int,
        b.position[0] as int,
        lex(
            a.position[1] as int,
            b.position[1] as int,
            lex(
                a.position[2] as int,
                b.position[2] as int,
                lex(
                    a.normal[0] as int,
                    b.normal[0] as int,
                    lex(
                        a.normal[1] as int,
                        b.normal[1] as int,
                        lex(
                            a.normal[2] as int,
                            b.normal[2] as int,
                            lex(
                                a.normal[3] as int,
                                b.normal[3] as int,
                                lex(
                                    a.color[0] as int,
                                    b.color[0] as int,
                                    lex(a.color[1] as int, b.color[1] as int, false),
                                ),
                            ),
                        ),
                    ),
                ),
            ),
        ),
    )
}

/// Every element orders strictly before every later one.
pub open spec fn strictly_sorted(s: Seq<Corner>) -> bool {
    forall|i: int, j: int| 0 <= i < j < s.len() ==> #[trigger] corner_lt(s[i], s[j])
}

/// `x` placed into the strictly sorted `r`, unless `r` already holds it.
pub open spec fn insert_sorted(r: Seq<Corner>, x: Corner) -> Seq<Corner>
    decreases r.len(),
{
    if r.len() == 0 {
        seq![x]
    } else if r[0] == x {
        r
    } else if corner_lt(x, r[0]) {
        seq![x] + r
    } else {
        seq![r[0]] + insert_sorted(r.drop_first(), x)
    }
}

/// The distinct corners of `s`, in increasing order.
pub open spec fn sorted_distinct(s: Seq<Corner>) -> Seq<Corner>
    decreases s.len(),
{
    if s.len() == 0 {
        Seq::empty()
    } else {
        insert_sorted(sorted_distinct(s.drop_last()), s.last())
    }
}

/// The corner order is transitive.
pub proof fn lemma_lt_transitive(a: Corner, b: Corner, c: Corner)
    requires
        corner_lt(a, b),
        corner_lt(b, c),
    ensures
        corner_lt(a, c),
{
}

/// Any two distinct corners are ordered one way or the other.
pub proof fn lemma_lt_total(a: Corner, b: Corner)
    ensures
        a == b || corner_lt(a, b) || corner_lt(b, a),
{
    if !corner_lt(a, b) && !corner_lt(b, a) {
        assert(a.position =~= b.position);
        assert(a.normal =~= b.normal);
        assert(a.color =~= b.color);
    }
}

proof fn lemma_insert_sorted(r: Seq<Corner>, x: Corner)
    requires
        strictly_sorted(r),
    ensures
        strictly_sorted(insert_sorted(r, x)),
        forall|y: Corner| #[trigger]
            insert_sorted(r, x).contains(y) <==> (y == x || r.contains(y)),
    decreases r.len(),
{
    if r.len() == 0 {
        assert(seq![x][0] == x);
    } else if r[0] == x {
    } else if corner_lt(x, r[0]) {
        let t = seq![x] + r;
        assert forall|i: int, j: int| 0 <= i < j < t.len() implies #[trigger] corner_lt(
            t[i],
            t[j],
        ) by {
            if i == 0 && j > 1 {
                assert(corner_lt(r[0], r[j - 1]));
                lemma_lt_transitive(x, r[0], r[j - 1]);
            }
        }
        assert forall|y: Corner| #[trigger] t.contains(y) <==> (y == x || r.contains(y)) by {
            if t.contains(y) {
                let k = choose|k: int| 0 <= k < t.len() && t[k] == y;
                if k > 0 {
                    assert(r[k - 1] == y);
                }
            }
            if r.contains(y) {
                let k = choose|k: int| 0 <= k < r.len() && r[k] == y;
                assert(t[k + 1] == y);
            }
            if y == x {
                assert(t[0] == y);
            }
        }
    } else {
        let tail = r.drop_first();
        assert(strictly_sorted(tail)) by {
            assert forall|i: int, j: int| 0 <= i < j < tail.len() implies #[trigger] corner_lt(
                tail[i],
                tail[j],
            ) by {
                assert(corner_lt(r[i + 1], r[j + 1]));
            }
        }
        lemma_insert_sorted(tail, x);
        lemma_lt_total(x, r[0]);
        let u = insert_sorted(tail, x);
        let t = seq![r[0]] + u;
        assert forall|k: int| 0 <= k < u.len() implies corner_lt(r[0], #[trigger] u[k]) by {
            assert(u.contains(u[k]));
            if u[k] != x {
                assert(tail.contains(u[k]));
                let m = choose|m: int| 0 <= m < tail.len() && tail[m] == u[k];
                assert(corner_lt(r[0], r[m + 1]));
            }
        }
        assert forall|i: int, j: int| 0 <= i < j < t.len() implies #[trigger] corner_lt(
            t[i],
            t[j],
        ) by {
            if i == 0 {
                assert(corner_lt(r[0], u[j - 1]));
            } else {
                assert(corner_lt(u[i - 1], u[j - 1]));
            }
        }
        assert forall|y: Corner| #[trigger] t.contains(y) <==> (y == x || r.contains(y)) by {
            if t.contains(y) {
                let k = choose|k: int| 0 <= k < t.len() && t[k] == y;
                if k > 0 {
                    assert(u.contains(u[k - 1]));
                    if y != x {
                        let m = choose|m: int| 0 <= m < tail.len() && tail[m] == y;
                        assert(r[m + 1] == y);
                    }
                } else {
                    assert(r[0] == y);
                }
            }
            if r.contains(y) {
                let k = choose|k: int| 0 <= k < r.len() && r[k] == y;
                if k == 0 {
                    assert(t[0] == y);
                } else {
                    assert(tail[k - 1] == y);
                    assert(tail.contains(y));
                    assert(u.contains(y));
                    let m = choose|m: int| 0 <= m < u.len() && u[m] == y;
                    assert(t[m + 1] == y);
                }
            }
            if y == x {
                assert(u.contains(x));
                let m = choose|m: int| 0 <= m < u.len() && u[m] == x;
                assert(t[m + 1] == x);
            }
        }
    }
}

/// The result of `sorted_distinct` is strictly increasing and holds exactly
/// the corners of its input.
pub proof fn lemma_sorted_distinct(s: Seq<Corner>)
    ensures
        strictly_sorted(sorted_distinct(s)),
        forall|y: Corner| #[trigger] sorted_distinct(s).contains(y) <==> s.contains(y),
    decreases s.len(),
{
    if s.len() > 0 {
        let p = s.drop_last();
        lemma_sorted_distinct(p);
        lemma_insert_sorted(sorted_distinct(p), s.last());
        assert forall|y: Corner| #[trigger] s.contains(y) <==> (y == s.last() || p.contains(y)) by {
            if s.contains(y) {
                let k = choose|k: int| 0 <= k < s.len() && s[k] == y;
                if k < s.len() - 1 {
                    assert(p[k] == y);
                }
            }
            if p.contains(y) {
                let k = choose|k: int| 0 <= k < p.len() && p[k] == y;
                assert(s[k] == y);
            }
            if y == s.last() {
                assert(s[s.len() - 1] == y);
            }
        }
    }
}

/// Two strictly increasing sequences with the same elements are equal.
pub proof fn lemma_sorted_unique(r: Seq<Corner>, t: Seq<Corner>)
    requires
        strictly_sorted(r),
        strictly_sorted(t),
        forall|y: Corner| r.contains(y) <==> t.contains(y),
    ensures
        r == t,
    decreases r.len(),
{
    if r.len() == 0 {
        if t.len() > 0 {
            assert(t.contains(t[0]));
        }
        assert(r =~= t);
    } else {
        assert(r.contains(r[0]));
        let k = choose|k: int| 0 <= k < t.len() && t[k] == r[0];
        assert(t.contains(t[0]));
        let m = choose|m: int| 0 <= m < r.len() && r[m] == t[0];
        if k > 0 {
            assert(corner_lt(t[0], t[k]));
            if m > 0 {
                assert(corner_lt(r[0], r[m]));
                lemma_lt_transitive(r[0], r[m], r[0]);
            }
        }
        assert(t[0] == r[0]);
        let r1 = r.drop_first();
        let t1 = t.drop_first();
        assert(strictly_sorted(r1)) by {
            assert forall|i: int, j: int| 0 <= i < j < r1.len() implies #[trigger] corner_lt(
                r1[i],
                r1[j],
            ) by {
                assert(corner_lt(r[i + 1], r[j + 1]));
            }
        }
        assert(strictly_sorted(t1)) by {
            assert forall|i: int, j: int| 0 <= i < j < t1.len() implies #[trigger] corner_lt(
                t1[i],
                t1[j],
            ) by {
                assert(corner_lt(t[i + 1], t[j + 1]));
            }
        }
        assert forall|y: Corner| r1.contains(y) <==> t1.contains(y) by {
            if r1.contains(y) {
                let a = choose|a: int| 0 <= a < r1.len() && r1[a] == y;
                assert(corner_lt(r[0], r[a + 1]));
                assert(r.contains(y));
                let b = choose|b: int| 0 <= b < t.len() && t[b] == y;
                assert(b != 0);
                assert(t1[b - 1] == y);
            }
            if t1.contains(y) {
                let a = choose|a: int| 0 <= a < t1.len() && t1[a] == y;
                assert(corner_lt(t[0], t[a + 1]));
                assert(t.contains(y));
                let b = choose|b: int| 0 <= b < r.len() && r[b] == y;
                assert(b != 0);
                assert(r1[b - 1] == y);
            }
        }
        lemma_sorted_unique(r1, t1);
        assert(r =~= seq![r[0]] + r1);
        assert(t =~= seq![t[0]] + t1);
    }
}

/// Compares two corners in the order of `corner_lt`.
pub fn corner_less(a: &Corner, b: &Corner) -> (r: bool)
    ensures
        r == corner_lt(*a, *b),
{
    if a.position[0] != b.position[0] {
        return a.position[0] < b.position[0];
    }
    if a.position[1] != b.position[1] {
        return a.position[1] < b.position[1];
    }
    if a.position[2] != b.position[2] {
        return a.position[2] < b.position[2];
    }
    if a.normal[0] != b.normal[0] {
        return a.normal[0] < b.normal[0];
    }
    if a.normal[1] != b.normal[1] {
        return a.normal[1] < b.normal[1];
    }
    if a.normal[2] != b.normal[2] {
        return a.normal[2] < b.normal[2];
    }
    if a.normal[3] != b.normal[3] {
        return a.normal[3] < b.normal[3];
    }
    if a.color[0] != b.color[0] {
        return a.color[0] < b.color[0];
    }
    a.color[1] < b.color[1]
}

/// Adds `x` to the strictly increasing `out`, keeping it strictly increasing
/// and free of repeats.
fn insert_distinct(out: &mut Vec<Corner>, x: Corner)
    requires
        strictly_sorted(old(out)@),
    ensures
        final(out)@ == insert_sorted(old(out)@, x),
{
    let ghost r = out@;
    let mut lo: usize = 0;
    let mut hi: usize = out.len();
    while lo < hi
        invariant
            out@ == r,
            strictly_sorted(r),
            0 <= lo <= hi <= r.len(),
            forall|k: int| 0 <= k < lo ==> #[trigger] corner_lt(r[k], x),
            forall|k: int| hi <= k < r.len() ==> !#[trigger] corner_lt(r[k], x),
        decreases hi - lo,
    {
        let mid = lo + (hi - lo) / 2;
        if corner_less(&out[mid], &x) {
            assert forall|k: int| 0 <= k <= mid implies #[trigger] corner_lt(r[k], x) by {
                if k < mid {
                    assert(corner_lt(r[k], r[mid as int]));
                    lemma_lt_transitive(r[k], r[mid as int], x);
                }
            }
            lo = mid + 1;
        } else {
            assert forall|k: int| mid <= k < r.len() implies !#[trigger] corner_lt(r[k], x) by {
                if k > mid && corner_lt(r[k], x) {
                    assert(corner_lt(r[mid as int], r[k]));
                    lemma_lt_transitive(r[mid as int], r[k], x);
                }
            }
            hi = mid;
        }
    }
    proof {
        lemma_insert_sorted(r, x);
    }
    if lo < out.len() && !corner_less(&x, &out[lo]) {
        proof {
            lemma_lt_total(x, r[lo as int]);
            assert(r.contains(r[lo as int]));
            assert forall|y: Corner| r.contains(y) <==> insert_sorted(r, x).contains(y) by {
                if insert_sorted(r, x).contains(y) {
                }
            }
            lemma_sorted_unique(r, insert_sorted(r, x));
        }
    } else {
        out.insert(lo, x);
        proof {
            let t = out@;
            if lo < r.len() {
                lemma_lt_total(x, r[lo as int]);
            }
            assert forall|k: int| lo <= k < r.len() implies #[trigger] corner_lt(x, r[k]) by {
                if k > lo {
                    assert(corner_lt(r[lo as int], r[k]));
                    lemma_lt_transitive(x, r[lo as int], r[k]);
                }
            }
            assert forall|i: int, j: int| 0 <= i < j < t.len() implies #[trigger] corner_lt(
                t[i],
                t[j],
            ) by {
                if j < lo {
                    assert(corner_lt(r[i], r[j]));
                } else if j == lo {
                    assert(corner_lt(r[i], x));
                } else if i == lo {
                    assert(corner_lt(x, r[j - 1]));
                } else if i < lo {
                    assert(corner_lt(r[i], x));
                    assert(corner_lt(x, r[j - 1]));
                    lemma_lt_transitive(r[i], x, r[j - 1]);
                } else {
                    assert(corner_lt(r[i - 1], r[j - 1]));
                }
            }
            assert forall|y: Corner| t.contains(y) <==> insert_sorted(r, x).contains(y) by {
                if t.contains(y) {
                    let k = choose|k: int| 0 <= k < t.len() && t[k] == y;
                    if k < lo {
                        assert(r[k] == y);
                    } else if k > lo {
                        assert(r[k - 1] == y);
                    }
                }
                if insert_sorted(r, x).contains(y) {
                    if y == x {
                        assert(t[lo as int] == y);
                    } else {
                        let k = choose|k: int| 0 <= k < r.len() && r[k] == y;
                        if k < lo {
                            assert(t[k] == y);
                        } else {
                            assert(t[k + 1] == y);
                        }
                    }
                }
            }
            lemma_sorted_unique(t, insert_sorted(r, x));
        }
    }
}

/// Sorts the corners and collapses equal ones: the result holds each distinct
/// corner of the input once, in increasing order.
pub fn dedup_corners(corners: &[Corner]) -> (r: Vec<Corner>)
    ensures
        r@ == sorted_distinct(corners@),
        strictly_sorted(r@),
        forall|y: Corner| #[trigger] r@.contains(y) <==> corners@.contains(y),
{
    let mut out: Vec<Corner> = Vec::new();
    let mut i: usize = 0;
    while i < corners.len()
        invariant
            0 <= i <= corners@.len(),
            out@ == sorted_distinct(corners@.subrange(0, i as int)),
        decreases corners@.len() - i,
    {
        proof {
            lemma_sorted_distinct(corners@.subrange(0, i as int));
            assert(corners@.subrange(0, i as int + 1).drop_last() =~= corners@.subrange(
                0,
                i as int,
            ));
        }
        insert_distinct(&mut out, corners[i]);
        i = i + 1;
    }
    proof {
        assert(corners@.subrange(0, i as int) =~= corners@);
        lemma_sorted_distinct(corners@);
    }
    out
}

/// Collapsing the output of a collapse again changes nothing.
pub proof fn dedup_idempotent(s: Seq<Corner>)
    ensures
        sorted_distinct(sorted_distinct(s)) == sorted_distinct(s),
{
    let r = sorted_distinct(s);
    lemma_sorted_distinct(s);
    lemma_sorted_distinct(r);
    lemma_sorted_unique(sorted_distinct(r), r);
}

/// Any reordering of the corners collapses to the same result.
pub proof fn dedup_order_independent(a: Seq<Corner>, b: Seq<Corner>)
    requires
        a.to_multiset() == b.to_multiset(),
    ensures
        sorted_distinct(a) == sorted_distinct(b),
{
    broadcast use vstd::seq_lib::group_to_multiset_ensures;

    lemma_sorted_distinct(a);
    lemma_sorted_distinct(b);
    assert forall|y: Corner| sorted_distinct(a).contains(y) <==> sorted_distinct(b).contains(y) by {
        assert(a.contains(y) <==> a.to_multiset().count(y) > 0);
        assert(b.contains(y) <==> b.to_multiset().count(y) > 0);
    }
    lemma_sorted_unique(sorted_distinct(a), sorted_distinct(b));
}

} // verus!
