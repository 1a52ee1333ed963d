//! Recolor engine: the L1 distance metric, the first-minimum nearest-color
//! selection, and the grid transform that applies it to every pixel.

use vstd::prelude::*;
use crate::colors::Color;
use crate::colors::RecolorError;

verus! {

/// Absolute difference of two channel values, as a mathematical integer.
pub open spec fn channel_diff(a: u8, b: u8) -> int {
    if a >= b {
        a - b
    } else {
        b - a
    }
}

/// L1 (Manhattan) distance between two colors: the sum of absolute
/// per-channel differences. Ranges over 0..=765.
pub open spec fn dist(c: Color, p: Color) -> int {
    channel_diff(c.r, p.r) + channel_diff(c.g, p.g) + channel_diff(c.b, p.b)
}

/// The L1 distance between two colors, widened so the sum cannot overflow.
pub fn distance(c: Color, p: Color) -> (d: u16)
    ensures
        d == dist(c, p),
        d <= 765,
{
    let dr: u16 = if c.r >= p.r {
        (c.r - p.r) as u16
    } else {
        (p.r - c.r) as u16
    };
    let dg: u16 = if c.g >= p.g {
        (c.g - p.g) as u16
    } else {
        (p.g - c.g) as u16
    };
    let db: u16 = if c.b >= p.b {
        (c.b - p.b) as u16
    } else {
        (p.b - c.b) as u16
    };
    dr + dg + db
}

/// The index a left-to-right scan with strictly-improving updates settles
/// on: the first index of `cands` whose distance to `p` is minimal.
pub open spec fn nearest_in(cands: Seq<Color>, p: Color) -> int
    recommends
        cands.len() > 0,
    decreases cands.len(),
{
    if cands.len() <= 1 {
        0
    } else {
        let rest = nearest_in(cands.drop_last(), p);
        if dist(cands.last(), p) < dist(cands[rest], p) {
            cands.len() - 1
        } else {
            rest
        }
    }
}

/// `nearest_in` returns an in-bounds index whose color is at minimal
/// distance from `p`, and every earlier index is strictly farther: the
/// selection is the first minimum, so ties go to the lowest index.
pub proof fn lemma_nearest_is_first_min(cands: Seq<Color>, p: Color)
    requires
        cands.len() > 0,
    ensures
        0 <= nearest_in(cands, p) < cands.len(),
        forall|i: int|
            0 <= i < cands.len() ==> dist(cands[nearest_in(cands, p)], p) <= #[trigger] dist(
                cands[i],
                p,
            ),
        forall|i: int|
            0 <= i < nearest_in(cands, p) ==> #[trigger] dist(cands[i], p) > dist(
                cands[nearest_in(cands, p)],
                p,
            ),
    decreases cands.len(),
{
    if cands.len() > 1 {
        let rest = cands.drop_last();
        lemma_nearest_is_first_min(rest, p);
        assert(forall|i: int| 0 <= i < rest.len() ==> rest[i] == cands[i]);
    }
}

/// Deterministic nearest-candidate selection: the returned index is the
/// first index of `cands` at minimal L1 distance from `p`.
pub fn find_nearest(cands: &Vec<Color>, p: Color) -> (j: usize)
    requires
        cands@.len() > 0,
    ensures
        j < cands@.len(),
        j == nearest_in(cands@, p),
        forall|i: int|
            0 <= i < cands@.len() ==> dist(cands@[j as int], p) <= #[trigger] dist(cands@[i], p),
        forall|i: int| 0 <= i < j ==> #[trigger] dist(cands@[i], p) > dist(cands@[j as int], p),
{
    let mut best: usize = 0;
    let mut best_d: u16 = distance(cands[0], p);
    let mut i: usize = 1;
    proof {
        assert(cands@.take(1) =~= seq![cands@[0]]);
    }
    while i < cands.len()
        invariant
            1 <= i <= cands@.len(),
            best < i,
            best == nearest_in(cands@.take(i as int), p),
            best_d == dist(cands@[best as int], p),
        decreases cands@.len() - i,
    {
        let d = distance(cands[i], p);
        proof {
            let prefix = cands@.take(i as int + 1);
            assert(prefix.drop_last() =~= cands@.take(i as int));
            assert(prefix.last() == cands@[i as int]);
        }
        if d < best_d {
            best = i;
            best_d = d;
        }
        i += 1;
    }
    proof {
        assert(cands@.take(cands@.len() as int) =~= cands@);
        lemma_nearest_is_first_min(cands@, p);
    }
    best
}

/// The pixel buffer that recoloring produces: position by position, the
/// candidate that `nearest_in` selects for the input pixel there.
pub open spec fn recolored_seq(pixels: Seq<Color>, cands: Seq<Color>) -> Seq<Color> {
    Seq::new(pixels.len(), |i: int| cands[nearest_in(cands, pixels[i])])
}

/// Replace every pixel of a buffer by its nearest candidate color.
pub fn recolor_pixels(pixels: &Vec<Color>, cands: &Vec<Color>) -> (out: Vec<Color>)
    requires
        cands@.len() > 0,
    ensures
        out@ == recolored_seq(pixels@, cands@),
        out@.len() == pixels@.len(),
        forall|i: int| 0 <= i < out@.len() ==> cands@.contains(#[trigger] out@[i]),
{
    let mut out: Vec<Color> = Vec::new();
    let mut i: usize = 0;
    while i < pixels.len()
        invariant
            cands@.len() > 0,
            i <= pixels@.len(),
            out@.len() == i,
            forall|k: int| 0 <= k < i ==> #[trigger] out@[k] == cands@[nearest_in(
                cands@,
                pixels@[k],
            )],
        decreases pixels@.len() - i,
    {
        let j = find_nearest(cands, pixels[i]);
        out.push(cands[j]);
        i += 1;
    }
    proof {
        assert(out@ =~= recolored_seq(pixels@, cands@));
        assert forall|i2: int| 0 <= i2 < out@.len() implies cands@.contains(
            #[trigger] out@[i2],
        ) by {
            lemma_nearest_is_first_min(cands@, pixels@[i2]);
            let n = nearest_in(cands@, pixels@[i2]);
            assert(cands@[n] == out@[i2]);
        }
    }
    out
}

/// A width x height pixel grid, row-major.
#[derive(Clone, Debug)]
pub struct Grid {
    pub width: usize,
    pub height: usize,
    pub pixels: Vec<Color>,
}

impl Grid {
    /// A grid is well formed when it holds exactly width x height pixels.
    pub open spec fn wf(&self) -> bool {
        self.pixels@.len() == self.width * self.height
    }

    /// Build a grid, succeeding exactly when the buffer length matches the
    /// dimensions.
    pub fn new(width: usize, height: usize, pixels: Vec<Color>) -> (r: Option<Grid>)
        ensures
            r is Some <==> pixels@.len() == width * height,
            r matches Some(g) ==> g.wf() && g.width == width && g.height == height && g.pixels@
                == pixels@,
    {
        let n_px = pixels.len();
        match width.checked_mul(height) {
            Some(n) => {
                if n == n_px {
                    Some(Grid { width, height, pixels })
                } else {
                    None
                }
            },
            None => None,
        }
    }
}

/// Recolor a grid against a non-empty candidate set: the output keeps the
/// input's dimensions, and every output pixel is the nearest candidate to
/// the input pixel at the same position.
pub fn recolor(input: &Grid, cands: &Vec<Color>) -> (out: Grid)
    requires
        input.wf(),
        cands@.len() > 0,
    ensures
        out.wf(),
        out.width == input.width,
        out.height == input.height,
        out.pixels@ == recolored_seq(input.pixels@, cands@),
        forall|i: int| 0 <= i < out.pixels@.len() ==> cands@.contains(#[trigger] out.pixels@[i]),
{
    let px = recolor_pixels(&input.pixels, cands);
    Grid { width: input.width, height: input.height, pixels: px }
}

/// Recolor a grid, rejecting an empty candidate set with
/// `EmptyCandidateSet` instead of proceeding with an undefined best match.
pub fn try_recolor(input: &Grid, cands: &Vec<Color>) -> (r: Result<Grid, RecolorError>)
    requires
        input.wf(),
    ensures
        r is Ok <==> cands@.len() > 0,
        r matches Ok(out) ==> out.wf() && out.width == input.width && out.height == input.height
            && out.pixels@ == recolored_seq(input.pixels@, cands@),
        r matches Err(e) ==> e is EmptyCandidateSet,
{
    if cands.len() == 0 {
        Err(RecolorError::EmptyCandidateSet)
    } else {
        Ok(recolor(input, cands))
    }
}

/// Two colors are at distance zero exactly when they are equal.
pub proof fn lemma_dist_zero(c: Color, p: Color)
    ensures
        dist(c, p) == 0 <==> c == p,
{
}

/// Determinism: the recolored buffer is a function of the input pixels and
/// the candidate sequence alone, so two runs over the same data agree.
pub proof fn lemma_recolor_deterministic(
    pixels: Seq<Color>,
    cands: Seq<Color>,
    first: Seq<Color>,
    second: Seq<Color>,
)
    requires
        first == recolored_seq(pixels, cands),
        second == recolored_seq(pixels, cands),
    ensures
        first == second,
{
}

/// Exact-match idempotence: when every input pixel already equals some
/// candidate, recoloring returns the input buffer unchanged.
pub proof fn lemma_exact_match_identity(pixels: Seq<Color>, cands: Seq<Color>)
    requires
        cands.len() > 0,
        forall|i: int| 0 <= i < pixels.len() ==> cands.contains(#[trigger] pixels[i]),
    ensures
        recolored_seq(pixels, cands) == pixels,
{
    assert forall|i: int| 0 <= i < pixels.len() implies recolored_seq(pixels, cands)[i] == pixels[i] by {
        let p = pixels[i];
        assert(cands.contains(p));
        let w = choose|w: int| 0 <= w < cands.len() && cands[w] == p;
        lemma_dist_zero(cands[w], p);
        lemma_nearest_is_first_min(cands, p);
        let n = nearest_in(cands, p);
        assert(dist(cands[n], p) <= dist(cands[w], p));
        lemma_dist_zero(cands[n], p);
    }
    assert(recolored_seq(pixels, cands) =~= pixels);
}

/// Tie-break determinism: when the same color occurs at two indices of the
/// candidate set, the selection never lands on the higher one.
pub proof fn lemma_tie_break_lower_index(cands: Seq<Color>, p: Color, lo: int, hi: int)
    requires
        0 <= lo < hi < cands.len(),
        cands[lo] == cands[hi],
    ensures
        nearest_in(cands, p) != hi,
{
    lemma_nearest_is_first_min(cands, p);
    if nearest_in(cands, p) == hi {
        assert(dist(cands[lo], p) > dist(cands[hi], p));
        assert(false);
    }
}

} // verus!

