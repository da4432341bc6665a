//! Choice of the tile for one cell: the nearest colours are the candidates, and the
//! candidate with the lowest score wins, where each earlier use of a tile adds a penalty.

use crate::color::{distance_sq, lemma_distance_sq_metric, Color};
use crate::index::{is_k_nearest, lemma_first_is_nearest, lemma_k_nearest_unique, ColorIndex};
use vstd::prelude::*;

verus! {

/// What one use of a tile adds to its score for a penalty factor of `1.0`:
/// fifty, in squared fixed-point units per unit of the factor.
pub const PENALTY_SCALE: u128 = 3276800;

/// Number of candidates searched among `tile_count` tiles: a tenth of the tiles,
/// but at least 10 and at most 100, and never more than there are tiles.
pub open spec fn candidate_count(tile_count: nat) -> nat {
    let tenth = tile_count / 10;
    let bounded = if tenth < 10 {
        10
    } else if tenth > 100 {
        100
    } else {
        tenth
    };
    if bounded > tile_count {
        tile_count
    } else {
        bounded
    }
}

/// Score of a tile of colour `color` already used `usage` times: the squared distance
/// to the target plus the penalty for its uses. Lower is better.
pub open spec fn score(color: Color, target: Color, usage: nat, penalty_factor: nat) -> nat {
    distance_sq(color, target) + usage * penalty_factor * PENALTY_SCALE as nat
}

/// Score of tile `tile` given the usage counts.
pub open spec fn score_of(
    points: Seq<Color>,
    usage: Seq<u64>,
    penalty_factor: nat,
    target: Color,
    tile: int,
) -> nat {
    score(points[tile], target, usage[tile] as nat, penalty_factor)
}

/// Whether `best` stands at position `at` among the candidates, no candidate has a
/// lower score, and every candidate before it has a higher one.
pub open spec fn is_best_at(
    points: Seq<Color>,
    usage: Seq<u64>,
    penalty_factor: nat,
    target: Color,
    candidates: Seq<usize>,
    best: usize,
    at: int,
) -> bool {
    &&& 0 <= at < candidates.len()
    &&& candidates[at] == best
    &&& forall|i: int|
        0 <= i < candidates.len() ==> score_of(points, usage, penalty_factor, target, best as int)
            <= score_of(points, usage, penalty_factor, target, #[trigger] candidates[i] as int)
    &&& forall|i: int|
        0 <= i < at ==> score_of(points, usage, penalty_factor, target, best as int) < score_of(
            points,
            usage,
            penalty_factor,
            target,
            #[trigger] candidates[i] as int,
        )
}

/// Whether `best` is the candidate with the lowest score, the earliest in the list
/// among candidates of equal score.
pub open spec fn is_best_among(
    points: Seq<Color>,
    usage: Seq<u64>,
    penalty_factor: nat,
    target: Color,
    candidates: Seq<usize>,
    best: usize,
) -> bool {
    exists|at: int| is_best_at(points, usage, penalty_factor, target, candidates, best, at)
}

/// Whether `best` is the tile chosen for `target`: the best among the
/// `candidate_count` nearest tiles.
pub open spec fn is_best_tile(
    points: Seq<Color>,
    usage: Seq<u64>,
    penalty_factor: nat,
    target: Color,
    best: usize,
) -> bool {
    exists|candidates: Seq<usize>|
        #![auto]
        is_k_nearest(points, target, candidate_count(points.len()), candidates) && is_best_among(
            points,
            usage,
            penalty_factor,
            target,
            candidates,
            best,
        )
}

/// Number of candidates searched among `tile_count` tiles.
pub fn candidate_limit(tile_count: usize) -> (k: usize)
    ensures
        k == candidate_count(tile_count as nat),
        tile_count > 0 ==> 1 <= k <= tile_count,
        k <= 100,
{
    let tenth = tile_count / 10;
    let bounded: usize = if tenth < 10 {
        10
    } else if tenth > 100 {
        100
    } else {
        tenth
    };
    if bounded > tile_count {
        tile_count
    } else {
        bounded
    }
}

/// Score of a tile of colour `color` already used `usage` times.
pub fn tile_score(color: &Color, target: &Color, usage: u64, penalty_factor: u32) -> (s: u128)
    ensures
        s == score(*color, *target, usage as nat, penalty_factor as nat),
{
    let d = color.distance_sq(target);
    assert(d <= 3 * (0xFFFF_FFFF * 0xFFFF_FFFF)) by {
        crate::color::lemma_distance_sq_bound(*color, *target);
    }
    assert(usage * penalty_factor * 3276800 <= 0xFFFF_FFFF_FFFF_FFFF * 0xFFFF_FFFF * 3276800)
        by (nonlinear_arith)
        requires
            0 <= usage <= 0xFFFF_FFFF_FFFF_FFFF,
            0 <= penalty_factor <= 0xFFFF_FFFF,
    ;
    assert(usage * penalty_factor <= 0xFFFF_FFFF_FFFF_FFFF * 0xFFFF_FFFF) by (nonlinear_arith)
        requires
            0 <= usage <= 0xFFFF_FFFF_FFFF_FFFF,
            0 <= penalty_factor <= 0xFFFF_FFFF,
    ;
    d + usage as u128 * penalty_factor as u128 * PENALTY_SCALE
}

/// The candidate with the lowest score, the earliest among candidates of equal score.
pub fn pick_best(
    index: &ColorIndex,
    target: &Color,
    usage: &Vec<u64>,
    penalty_factor: u32,
    candidates: &Vec<usize>,
) -> (best: usize)
    requires
        candidates@.len() > 0,
        usage@.len() == index@.len(),
        forall|i: int| 0 <= i < candidates@.len() ==> #[trigger] candidates@[i] < index@.len(),
    ensures
        is_best_among(index@, usage@, penalty_factor as nat, *target, candidates@, best),
{
    let mut at: usize = 0;
    let mut best = candidates[0];
    let mut best_score = tile_score(&index.point(best), target, usage[best], penalty_factor);
    let mut i: usize = 1;
    while i < candidates.len()
        invariant
            1 <= i <= candidates@.len(),
            usage@.len() == index@.len(),
            forall|j: int| 0 <= j < candidates@.len() ==> #[trigger] candidates@[j] < index@.len(),
            at < i,
            candidates@[at as int] == best,
            best_score == score_of(index@, usage@, penalty_factor as nat, *target, best as int),
            forall|j: int|
                0 <= j < i ==> best_score <= score_of(
                    index@,
                    usage@,
                    penalty_factor as nat,
                    *target,
                    #[trigger] candidates@[j] as int,
                ),
            forall|j: int|
                0 <= j < at ==> best_score < score_of(
                    index@,
                    usage@,
                    penalty_factor as nat,
                    *target,
                    #[trigger] candidates@[j] as int,
                ),
        decreases candidates@.len() - i,
    {
        let tile = candidates[i];
        let s = tile_score(&index.point(tile), target, usage[tile], penalty_factor);
        if s < best_score {
            at = i;
            best = tile;
            best_score = s;
        }
        i += 1;
    }
    assert(is_best_at(
        index@,
        usage@,
        penalty_factor as nat,
        *target,
        candidates@,
        best,
        at as int,
    ));
    best
}

/// The tile for a cell of colour `target`: the best among the nearest tiles.
pub fn best_tile(index: &ColorIndex, target: &Color, usage: &Vec<u64>, penalty_factor: u32) -> (best:
    usize)
    requires
        index@.len() > 0,
        usage@.len() == index@.len(),
    ensures
        best < index@.len(),
        is_best_tile(index@, usage@, penalty_factor as nat, *target, best),
{
    let k = candidate_limit(index.len());
    let candidates = index.nearest(target, k);
    pick_best(index, target, usage, penalty_factor, &candidates)
}

/// Among tiles that have never been used, or with no penalty, the chosen tile is
/// nearest to the target of all tiles.
pub proof fn lemma_unpenalised_choice_is_nearest(
    points: Seq<Color>,
    usage: Seq<u64>,
    penalty_factor: nat,
    target: Color,
    best: usize,
    other: usize,
)
    requires
        is_best_tile(points, usage, penalty_factor, target, best),
        usage.len() == points.len(),
        penalty_factor == 0 || forall|i: int| 0 <= i < usage.len() ==> usage[i] == 0,
        other < points.len(),
    ensures
        best < points.len(),
        distance_sq(points[best as int], target) <= distance_sq(points[other as int], target),
{
    let k = candidate_count(points.len());
    let candidates = choose|candidates: Seq<usize>|
        #![auto]
        is_k_nearest(points, target, k, candidates) && is_best_among(
            points,
            usage,
            penalty_factor,
            target,
            candidates,
            best,
        );
    lemma_first_is_nearest(points, target, k, candidates, other);
    let at = choose|at: int|
        is_best_at(points, usage, penalty_factor, target, candidates, best, at);
    let first = candidates[0];
    assert(first < points.len());
    assert(best < points.len());
    lemma_score_without_penalty(points[best as int], target, usage[best as int] as nat, penalty_factor);
    lemma_score_without_penalty(points[first as int], target, usage[first as int] as nat, penalty_factor);
    assert(score_of(points, usage, penalty_factor, target, best as int) <= score_of(
        points,
        usage,
        penalty_factor,
        target,
        candidates[0] as int,
    ));
}

/// Where some tile has exactly the colour of the target, and no tile has been used
/// or there is no penalty, the chosen tile has that colour too.
pub proof fn lemma_exact_match_is_chosen(
    points: Seq<Color>,
    usage: Seq<u64>,
    penalty_factor: nat,
    target: Color,
    best: usize,
    twin: usize,
)
    requires
        is_best_tile(points, usage, penalty_factor, target, best),
        usage.len() == points.len(),
        penalty_factor == 0 || forall|i: int| 0 <= i < usage.len() ==> usage[i] == 0,
        twin < points.len(),
        points[twin as int] == target,
    ensures
        best < points.len(),
        points[best as int] == target,
{
    lemma_unpenalised_choice_is_nearest(points, usage, penalty_factor, target, best, twin);
    lemma_distance_sq_metric(points[twin as int], target);
    lemma_distance_sq_metric(points[best as int], target);
}

/// The chosen tile is determined by the colours, the usage counts, the penalty
/// factor and the target.
pub proof fn lemma_best_tile_unique(
    points: Seq<Color>,
    usage: Seq<u64>,
    penalty_factor: nat,
    target: Color,
    first: usize,
    second: usize,
)
    requires
        is_best_tile(points, usage, penalty_factor, target, first),
        is_best_tile(points, usage, penalty_factor, target, second),
    ensures
        first == second,
{
    let k = candidate_count(points.len());
    let one = choose|candidates: Seq<usize>|
        #![auto]
        is_k_nearest(points, target, k, candidates) && is_best_among(
            points,
            usage,
            penalty_factor,
            target,
            candidates,
            first,
        );
    let two = choose|candidates: Seq<usize>|
        #![auto]
        is_k_nearest(points, target, k, candidates) && is_best_among(
            points,
            usage,
            penalty_factor,
            target,
            candidates,
            second,
        );
    lemma_k_nearest_unique(points, target, k, one, two);
    lemma_best_among_unique(points, usage, penalty_factor, target, one, first, second);
}

/// Among given candidates the best is determined.
pub proof fn lemma_best_among_unique(
    points: Seq<Color>,
    usage: Seq<u64>,
    penalty_factor: nat,
    target: Color,
    candidates: Seq<usize>,
    first: usize,
    second: usize,
)
    requires
        is_best_among(points, usage, penalty_factor, target, candidates, first),
        is_best_among(points, usage, penalty_factor, target, candidates, second),
    ensures
        first == second,
{
    let a = choose|at: int|
        is_best_at(points, usage, penalty_factor, target, candidates, first, at);
    let b = choose|at: int|
        is_best_at(points, usage, penalty_factor, target, candidates, second, at);
    if a < b {
        assert(score_of(points, usage, penalty_factor, target, second as int) < score_of(
            points,
            usage,
            penalty_factor,
            target,
            candidates[a] as int,
        ));
        assert(score_of(points, usage, penalty_factor, target, first as int) <= score_of(
            points,
            usage,
            penalty_factor,
            target,
            candidates[b] as int,
        ));
    } else if b < a {
        assert(score_of(points, usage, penalty_factor, target, first as int) < score_of(
            points,
            usage,
            penalty_factor,
            target,
            candidates[b] as int,
        ));
        assert(score_of(points, usage, penalty_factor, target, second as int) <= score_of(
            points,
            usage,
            penalty_factor,
            target,
            candidates[a] as int,
        ));
    }
}

/// With no use or no penalty the score is the squared distance.
proof fn lemma_score_without_penalty(color: Color, target: Color, usage: nat, penalty_factor: nat)
    by (nonlinear_arith)
    requires
        usage == 0 || penalty_factor == 0,
    ensures
        score(color, target, usage, penalty_factor) == distance_sq(color, target),
{
}

/// Of two candidates of the same colour, the one used more often is never chosen
/// while the penalty factor is positive.
pub proof fn lemma_penalty_prefers_less_used(
    points: Seq<Color>,
    usage: Seq<u64>,
    penalty_factor: nat,
    target: Color,
    candidates: Seq<usize>,
    best: usize,
    more_used: usize,
    less_used: usize,
)
    requires
        is_best_among(points, usage, penalty_factor, target, candidates, best),
        penalty_factor > 0,
        candidates.contains(more_used),
        candidates.contains(less_used),
        points[more_used as int] == points[less_used as int],
        usage[more_used as int] > usage[less_used as int],
    ensures
        best != more_used,
{
    let i = choose|i: int| 0 <= i < candidates.len() && candidates[i] == less_used;
    assert(score_of(points, usage, penalty_factor, target, best as int) <= score_of(
        points,
        usage,
        penalty_factor,
        target,
        candidates[i] as int,
    ));
    lemma_score_grows_with_usage(
        points[more_used as int],
        target,
        usage[less_used as int] as nat,
        usage[more_used as int] as nat,
        penalty_factor,
    );
}

/// With a positive penalty factor, more uses mean a strictly higher score.
pub proof fn lemma_score_grows_with_usage(
    color: Color,
    target: Color,
    fewer: nat,
    more: nat,
    penalty_factor: nat,
)
    by (nonlinear_arith)
    requires
        fewer < more,
        penalty_factor > 0,
    ensures
        score(color, target, fewer, penalty_factor) < score(color, target, more, penalty_factor),
{
}

} // verus!
