//! RGB colors and the perceptual nearest-palette-entry search.
//!
//! Distances between colors are squared differences in the CAM02-UCS `Jab`
//! space. The floating-point distance itself never enters verified code: the
//! trusted wrapper [`perceptual_dist_key`] returns an order-preserving `u32`
//! key for it, and every nearest-color decision is made, verified, on those
//! keys.
use vstd::prelude::*;

use kasi_kule::{Jab, UCS};

verus! {

/// One pixel: an RGB triple, one byte per channel.
#[derive(Clone, Copy, PartialEq, Eq, Structural, Debug)]
pub struct Rgb {
    pub r: u8,
    pub g: u8,
    pub b: u8,
}

/// The order key of the CAM02-UCS squared distance between two RGB colors.
/// The distance is a function of the two triples alone, so its key is too;
/// as with all floating-point library code, its exact values are fixed per
/// platform, and no contract of this library depends on particular values.
/// In particular nothing can exclude two distinct colors from sharing a
/// key of zero: statements about mapping a palette color to itself carry
/// that caveat as a hypothesis.
pub uninterp spec fn jab_dist_key(a: (u8, u8, u8), b: (u8, u8, u8)) -> u32;

/// Relies on kasi_kule's `sRGB` -> `Jab<UCS>` conversion and on
/// `Jab::squared_difference`. The conversion chain and the squared difference
/// are pure functions of the two RGB triples. The squared difference is a
/// finite, non-negative `f32` (a sum of squares of finite components), so
/// `f32::to_bits` maps it to a `u32` that orders exactly as the distance
/// does; for identical inputs every component difference is exactly `0.0`,
/// whose bit pattern is `0`.
#[verifier::external_body]
pub(crate) fn perceptual_dist_key(a: &Rgb, b: &Rgb) -> (r: u32)
    ensures
        r == jab_dist_key((a.r, a.g, a.b), (b.r, b.g, b.b)),
        a == b ==> r == 0,
{
    let ja: Jab<UCS> = Jab::from((a.r, a.g, a.b));
    let jb: Jab<UCS> = Jab::from((b.r, b.g, b.b));
    ja.squared_difference(&jb).to_bits()
}

/// The perceptual distance key from candidate color `c` to palette entry `p`.
pub open spec fn pdist(c: Rgb, p: Rgb) -> u32 {
    jab_dist_key((c.r, c.g, c.b), (p.r, p.g, p.b))
}

/// `i` is the index the perceptual nearest-color search selects for `c` in
/// `pal`: its entry minimizes the distance key, and among minimizers it is
/// the first (lowest index wins ties).
pub open spec fn is_nearest(pal: Seq<Rgb>, c: Rgb, i: int) -> bool {
    &&& 0 <= i < pal.len()
    &&& forall|j: int| 0 <= j < pal.len() ==> pdist(c, pal[i]) <= #[trigger] pdist(c, pal[j])
    &&& forall|j: int| 0 <= j < i ==> pdist(c, pal[i]) < #[trigger] pdist(c, pal[j])
}

/// The index of the first minimizer of the distance key among the first `n`
/// palette entries.
pub open spec fn nearest_in_prefix(pal: Seq<Rgb>, c: Rgb, n: int) -> int
    decreases n,
{
    if n <= 1 {
        0
    } else {
        let b = nearest_in_prefix(pal, c, n - 1);
        if pdist(c, pal[n - 1]) < pdist(c, pal[b]) {
            n - 1
        } else {
            b
        }
    }
}

/// The index the nearest-color search selects for `c` in `pal`.
pub open spec fn nearest_idx(pal: Seq<Rgb>, c: Rgb) -> int {
    nearest_in_prefix(pal, c, pal.len() as int)
}

pub proof fn lemma_nearest_in_prefix_props(pal: Seq<Rgb>, c: Rgb, n: int)
    requires
        1 <= n <= pal.len(),
    ensures
        0 <= nearest_in_prefix(pal, c, n) < n,
        forall|j: int| 0 <= j < n ==>
            pdist(c, pal[nearest_in_prefix(pal, c, n)]) <= #[trigger] pdist(c, pal[j]),
        forall|j: int| 0 <= j < nearest_in_prefix(pal, c, n) ==>
            pdist(c, pal[nearest_in_prefix(pal, c, n)]) < #[trigger] pdist(c, pal[j]),
    decreases n,
{
    if n > 1 {
        lemma_nearest_in_prefix_props(pal, c, n - 1);
    }
}

/// For a non-empty palette, `nearest_idx` is a nearest index.
pub proof fn lemma_nearest_idx_is_nearest(pal: Seq<Rgb>, c: Rgb)
    requires
        pal.len() >= 1,
    ensures
        is_nearest(pal, c, nearest_idx(pal, c)),
{
    lemma_nearest_in_prefix_props(pal, c, pal.len() as int);
}

/// The nearest index is unique: the search's result is pinned by the palette
/// and the color alone.
pub proof fn lemma_nearest_unique(pal: Seq<Rgb>, c: Rgb, i: int, j: int)
    requires
        is_nearest(pal, c, i),
        is_nearest(pal, c, j),
    ensures
        i == j,
{
    if i < j {
        assert(pdist(c, pal[j]) < pdist(c, pal[i]));
    }
    if j < i {
        assert(pdist(c, pal[i]) < pdist(c, pal[j]));
    }
}

/// Any nearest index equals `nearest_idx`.
pub proof fn lemma_is_nearest_agrees(pal: Seq<Rgb>, c: Rgb, i: int)
    requires
        is_nearest(pal, c, i),
    ensures
        i == nearest_idx(pal, c),
{
    lemma_nearest_idx_is_nearest(pal, c);
    lemma_nearest_unique(pal, c, i, nearest_idx(pal, c));
}

/// Scans the whole palette and returns the index of the entry with minimal
/// perceptual distance key to `c`, first occurrence winning ties.
pub fn nearest_index(palette: &Vec<Rgb>, c: &Rgb) -> (r: usize)
    requires
        palette@.len() >= 1,
    ensures
        r as int == nearest_idx(palette@, *c),
        is_nearest(palette@, *c, r as int),
        (exists|i: int| 0 <= i < palette@.len() && palette@[i] == *c)
            ==> pdist(*c, palette@[r as int]) == 0,
{
    let mut best: usize = 0;
    let mut best_d: u32 = perceptual_dist_key(c, &palette[0]);
    let mut j: usize = 1;
    while j < palette.len()
        invariant
            1 <= j <= palette@.len(),
            best as int == nearest_in_prefix(palette@, *c, j as int),
            0 <= best < j,
            best_d == pdist(*c, palette@[best as int]),
            forall|i: int| 0 <= i < j && palette@[i] == *c ==> best_d == 0,
        decreases palette@.len() - j,
    {
        let d = perceptual_dist_key(c, &palette[j]);
        if d < best_d {
            best = j;
            best_d = d;
        }
        j += 1;
    }
    proof {
        lemma_nearest_idx_is_nearest(palette@, *c);
    }
    best
}

} // verus!
