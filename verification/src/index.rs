//! Nearest-neighbour search over the average colours of the tiles.

use crate::color::{distance_sq, Color};
use vstd::prelude::*;

verus! {

/// Whether point `a` comes before point `b` in order of distance from `target`.
/// Points at equal distance are ordered by position, so any two different points
/// are ordered one way or the other.
pub open spec fn closer(points: Seq<Color>, target: Color, a: int, b: int) -> bool {
    let da = distance_sq(points[a], target);
    let db = distance_sq(points[b], target);
    da < db || (da == db && a < b)
}

/// Whether `found` lists, nearest first, the `k` nearest to `target` of the first
/// `count` points (all of them where there are fewer than `k`).
pub open spec fn nearest_among(
    points: Seq<Color>,
    target: Color,
    k: nat,
    count: nat,
    found: Seq<usize>,
) -> bool {
    &&& found.len() == if k <= count {
        k
    } else {
        count
    }
    &&& forall|i: int| 0 <= i < found.len() ==> #[trigger] found[i] < count
    &&& forall|i: int, j: int|
        0 <= i < j < found.len() ==> closer(
            points,
            target,
            #[trigger] found[i] as int,
            #[trigger] found[j] as int,
        )
    &&& forall|p: usize, i: int|
        p < count && 0 <= i < found.len() && !#[trigger] found.contains(p) ==> closer(
            points,
            target,
            #[trigger] found[i] as int,
            p as int,
        )
    &&& found.len() < k ==> forall|p: usize| p < count ==> #[trigger] found.contains(p)
}

/// Whether `found` lists, nearest first, the `k` points nearest to `target`
/// (all of them where there are fewer than `k`).
pub open spec fn is_k_nearest(points: Seq<Color>, target: Color, k: nat, found: Seq<usize>) -> bool {
    nearest_among(points, target, k, points.len(), found)
}

/// The list of nearest points once point `p` has been considered: `p` enters at
/// position `pos`, and the farthest leaves where the list would grow beyond `k`.
pub open spec fn consider(found: Seq<usize>, k: nat, p: usize, pos: int) -> Seq<usize> {
    if pos == found.len() {
        if found.len() < k {
            found.push(p)
        } else {
            found
        }
    } else if found.len() < k {
        found.insert(pos, p)
    } else {
        found.insert(pos, p).drop_last()
    }
}

/// Considering one more point keeps the list of nearest points correct.
pub proof fn lemma_consider(
    points: Seq<Color>,
    target: Color,
    k: nat,
    found: Seq<usize>,
    p: usize,
    pos: int,
)
    requires
        nearest_among(points, target, k, p as nat, found),
        p < points.len(),
        0 <= pos <= found.len(),
        forall|i: int| 0 <= i < pos ==> closer(points, target, #[trigger] found[i] as int, p as int),
        forall|i: int|
            pos <= i < found.len() ==> closer(points, target, p as int, #[trigger] found[i] as int),
    ensures
        nearest_among(points, target, k, (p + 1) as nat, consider(found, k, p, pos)),
{
    let next = consider(found, k, p, pos);
    let len = found.len() as int;
    if pos == len && len >= k {
        assert(next == found);
        assert(!found.contains(p)) by {
            if found.contains(p) {
                let i = choose|i: int| 0 <= i < found.len() && found[i] == p;
                assert(found[i] < p);
            }
        }
        assert forall|q: usize, i: int|
            q < p + 1 && 0 <= i < next.len() && !#[trigger] next.contains(q) implies closer(
            points,
            target,
            #[trigger] next[i] as int,
            q as int,
        ) by {
            if q == p {
                assert(closer(points, target, found[i] as int, p as int));
            }
        }
    } else if len < k {
        let wide = found.insert(pos, p);
        assert(next == wide) by {
            if pos == len {
                assert(found.push(p) =~= wide);
            }
        }
        assert(wide.len() == len + 1);
        assert forall|i: int| 0 <= i < wide.len() implies #[trigger] wide[i] < p + 1 by {
            lemma_insert_index(found, p, pos, i);
        }
        assert forall|i: int, j: int| 0 <= i < j < wide.len() implies closer(
            points,
            target,
            #[trigger] wide[i] as int,
            #[trigger] wide[j] as int,
        ) by {
            lemma_insert_index(found, p, pos, i);
            lemma_insert_index(found, p, pos, j);
        }
        assert forall|q: usize| q < p + 1 implies #[trigger] wide.contains(q) by {
            if q == p {
                lemma_insert_index(found, p, pos, pos);
                assert(wide[pos] == q);
            } else {
                assert(found.contains(q));
                let i = choose|i: int| 0 <= i < found.len() && found[i] == q;
                let at = if i < pos {
                    i
                } else {
                    i + 1
                };
                lemma_insert_index(found, p, pos, at);
                assert(wide[at] == q);
            }
        }
    } else {
        let wide = found.insert(pos, p);
        assert(wide.len() == len + 1);
        assert(next == wide.drop_last());
        assert(next.len() == len);
        let last = found[len - 1];
        assert forall|i: int| 0 <= i < next.len() implies #[trigger] next[i] < p + 1 by {
            lemma_insert_index(found, p, pos, i);
        }
        assert forall|i: int, j: int| 0 <= i < j < next.len() implies closer(
            points,
            target,
            #[trigger] next[i] as int,
            #[trigger] next[j] as int,
        ) by {
            lemma_insert_index(found, p, pos, i);
            lemma_insert_index(found, p, pos, j);
        }
        assert forall|q: usize, i: int|
            q < p + 1 && 0 <= i < next.len() && !#[trigger] next.contains(q) implies closer(
            points,
            target,
            #[trigger] next[i] as int,
            q as int,
        ) by {
            lemma_insert_index(found, p, pos, i);
            lemma_insert_index(found, p, pos, pos);
            assert(next[pos] == p);
            assert(q != p);
            if found.contains(q) {
                let at = choose|at: int| 0 <= at < found.len() && found[at] == q;
                if at < len - 1 {
                    let moved = if at < pos {
                        at
                    } else {
                        at + 1
                    };
                    lemma_insert_index(found, p, pos, moved);
                    assert(next[moved] == q);
                }
                assert(q == last);
                if i < pos {
                    assert(closer(points, target, found[i] as int, found[len - 1] as int));
                } else if i == pos {
                    assert(closer(points, target, p as int, found[pos] as int));
                    if pos < len - 1 {
                        assert(closer(points, target, found[pos] as int, found[len - 1] as int));
                    }
                } else {
                    assert(closer(points, target, found[i - 1] as int, found[len - 1] as int));
                }
            } else {
                if i < pos {
                    assert(closer(points, target, found[i] as int, q as int));
                } else if i == pos {
                    assert(closer(points, target, p as int, found[pos] as int));
                    assert(closer(points, target, found[pos] as int, q as int));
                } else {
                    assert(closer(points, target, found[i - 1] as int, q as int));
                }
            }
        }
    }
}

/// What `insert` holds at each position.
proof fn lemma_insert_index(found: Seq<usize>, p: usize, pos: int, i: int)
    requires
        0 <= pos <= found.len(),
        0 <= i <= found.len(),
    ensures
        found.insert(pos, p).len() == found.len() + 1,
        found.insert(pos, p)[i] == if i < pos {
            found[i]
        } else if i == pos {
            p
        } else {
            found[i - 1]
        },
{
}

/// Of two different points exactly one is closer than the other.
pub proof fn lemma_closer_total(points: Seq<Color>, target: Color, a: int, b: int)
    ensures
        a != b ==> (closer(points, target, a, b) <==> !closer(points, target, b, a)),
        !closer(points, target, a, a),
{
}

/// The first of the nearest points is at least as near as every point.
pub proof fn lemma_first_is_nearest(
    points: Seq<Color>,
    target: Color,
    k: nat,
    found: Seq<usize>,
    q: usize,
)
    requires
        is_k_nearest(points, target, k, found),
        k > 0,
        q < points.len(),
    ensures
        found.len() > 0,
        distance_sq(points[found[0] as int], target) <= distance_sq(points[q as int], target),
{
    if found.contains(q) {
        let i = choose|i: int| 0 <= i < found.len() && found[i] == q;
        if i > 0 {
            assert(closer(points, target, found[0] as int, found[i] as int));
        }
    } else {
        assert(closer(points, target, found[0] as int, q as int));
    }
}

/// The list of nearest points is determined by the points, the target and `k`.
pub proof fn lemma_k_nearest_unique(
    points: Seq<Color>,
    target: Color,
    k: nat,
    first: Seq<usize>,
    second: Seq<usize>,
)
    requires
        is_k_nearest(points, target, k, first),
        is_k_nearest(points, target, k, second),
    ensures
        first == second,
{
    assert forall|i: int| 0 <= i < first.len() implies first[i] == second[i] by {
        lemma_prefix_equal(points, target, k, first, second, i);
    }
}

proof fn lemma_prefix_equal(
    points: Seq<Color>,
    target: Color,
    k: nat,
    first: Seq<usize>,
    second: Seq<usize>,
    i: int,
)
    requires
        is_k_nearest(points, target, k, first),
        is_k_nearest(points, target, k, second),
        0 <= i < first.len(),
    ensures
        first[i] == second[i],
    decreases i,
{
    if i > 0 {
        lemma_prefix_equal(points, target, k, first, second, i - 1);
    }
    assert forall|j: int| 0 <= j < i implies first[j] == second[j] by {
        lemma_prefix_equal(points, target, k, first, second, j);
    }
    let a = first[i];
    let b = second[i];
    if a != b {
        lemma_closer_total(points, target, a as int, b as int);
        if closer(points, target, a as int, b as int) {
            lemma_missing_is_late(points, target, k, first, second, i, a);
        } else {
            lemma_missing_is_late(points, target, k, second, first, i, b);
        }
    }
}

/// Where two lists of nearest points agree before position `i`, what the first holds
/// at `i` is not closer than what the second holds there.
proof fn lemma_missing_is_late(
    points: Seq<Color>,
    target: Color,
    k: nat,
    first: Seq<usize>,
    second: Seq<usize>,
    i: int,
    x: usize,
)
    requires
        is_k_nearest(points, target, k, first),
        is_k_nearest(points, target, k, second),
        0 <= i < first.len(),
        forall|j: int| 0 <= j < i ==> first[j] == second[j],
        x == first[i],
    ensures
        !closer(points, target, x as int, second[i] as int),
{
    if second.contains(x) {
        // `x` stands somewhere in the second list: not before `i`, where the lists
        // agree and the first holds other points, so at `i` or behind it.
        let j = choose|j: int| 0 <= j < second.len() && second[j] == x;
        if j < i {
            assert(first[j] == x);
            assert(closer(points, target, first[j] as int, first[i] as int));
        } else if j > i {
            assert(closer(points, target, second[i] as int, second[j] as int));
        }
    } else {
        // `x` is missing from the second list, so everything listed there is closer.
        assert(closer(points, target, second[i] as int, x as int));
    }
}

/// A search index over a fixed list of colours; position `i` of the index is
/// position `i` of the list it was built from.
pub struct ColorIndex {
    points: Vec<Color>,
}

impl View for ColorIndex {
    type V = Seq<Color>;

    closed spec fn view(&self) -> Seq<Color> {
        self.points@
    }
}

impl ColorIndex {
    /// Builds the index over `points`.
    pub fn build(points: Vec<Color>) -> (index: ColorIndex)
        ensures
            index@ == points@,
    {
        ColorIndex { points }
    }

    /// Number of points.
    pub fn len(&self) -> (n: usize)
        ensures
            n == self@.len(),
    {
        self.points.len()
    }

    /// The point at position `i`.
    pub fn point(&self, i: usize) -> (c: Color)
        requires
            i < self@.len(),
        ensures
            c == self@[i as int],
    {
        self.points[i]
    }

    /// Where point `p` enters the list of the points nearest so far: behind every
    /// listed point that is at most as far from `target`.
    fn entry_position(&self, target: &Color, found: &Vec<usize>, p: usize, k: usize) -> (pos: usize)
        requires
            nearest_among(self@, *target, k as nat, p as nat, found@),
            p < self@.len(),
        ensures
            pos <= found@.len(),
            forall|i: int|
                0 <= i < pos ==> closer(self@, *target, #[trigger] found@[i] as int, p as int),
            forall|i: int|
                pos <= i < found@.len() ==> closer(
                    self@,
                    *target,
                    p as int,
                    #[trigger] found@[i] as int,
                ),
    {
        let d = self.points[p].distance_sq(target);
        let mut pos = found.len();
        while pos > 0
            invariant
                pos <= found@.len(),
                p < self@.len(),
                d == distance_sq(self@[p as int], *target),
                nearest_among(self@, *target, k as nat, p as nat, found@),
                forall|i: int|
                    pos <= i < found@.len() ==> closer(
                        self@,
                        *target,
                        p as int,
                        #[trigger] found@[i] as int,
                    ),
            ensures
                pos <= found@.len(),
                forall|i: int|
                    pos <= i < found@.len() ==> closer(
                        self@,
                        *target,
                        p as int,
                        #[trigger] found@[i] as int,
                    ),
                pos > 0 ==> closer(self@, *target, found@[pos - 1] as int, p as int),
            decreases pos,
        {
            let before = found[pos - 1];
            if self.points[before].distance_sq(target) <= d {
                break ;
            }
            pos -= 1;
        }
        proof {
            assert forall|i: int| 0 <= i < pos implies closer(
                self@,
                *target,
                #[trigger] found@[i] as int,
                p as int,
            ) by {
            }
        }
        pos
    }

    /// The `k` points nearest to `target`, nearest first; points at equal distance
    /// come in the order of their positions.
    pub fn nearest(&self, target: &Color, k: usize) -> (found: Vec<usize>)
        ensures
            is_k_nearest(self@, *target, k as nat, found@),
    {
        let n = self.points.len();
        let mut found: Vec<usize> = Vec::new();
        let mut p: usize = 0;
        while p < n
            invariant
                p <= n,
                n == self@.len(),
                nearest_among(self@, *target, k as nat, p as nat, found@),
            decreases n - p,
        {
            let pos = self.entry_position(target, &found, p, k);
            let ghost before = found@;
            proof {
                lemma_consider(self@, *target, k as nat, before, p, pos as int);
            }
            if pos == found.len() {
                if found.len() < k {
                    found.push(p);
                }
            } else {
                found.insert(pos, p);
                if found.len() > k {
                    found.pop();
                }
            }
            p += 1;
        }
        found
    }
}

} // verus!
