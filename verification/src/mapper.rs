//! The color mapper: a fixed palette plus a memoizing nearest-color cache.
//!
//! The cache is keyed by the packed RGB value and is a pure memoization
//! layer: its invariant says every stored index is exactly what a fresh
//! nearest-color search would return, so a hit and a miss are
//! indistinguishable to callers.
use vstd::prelude::*;

use std::collections::HashMap;

use crate::color::{
    is_nearest, lemma_is_nearest_agrees, lemma_nearest_unique, nearest_idx, nearest_index, pdist,
    Rgb,
};

verus! {

broadcast use vstd::std_specs::hash::group_hash_axioms;

/// The cache key of a color: its channels packed into one integer.
pub open spec fn key_of(c: Rgb) -> u32 {
    ((c.r as int) * 0x10000 + (c.g as int) * 0x100 + (c.b as int)) as u32
}

/// The color a cache key stands for.
pub open spec fn rgb_of_key(k: u32) -> Rgb {
    Rgb {
        r: ((k as int) / 0x10000 % 0x100) as u8,
        g: ((k as int) / 0x100 % 0x100) as u8,
        b: ((k as int) % 0x100) as u8,
    }
}

pub proof fn lemma_key_roundtrip(c: Rgb)
    ensures
        rgb_of_key(key_of(c)) == c,
{
    let k = (c.r as int) * 0x10000 + (c.g as int) * 0x100 + (c.b as int);
    assert(k / 0x10000 % 0x100 == c.r as int) by (nonlinear_arith)
        requires
            k == (c.r as int) * 0x10000 + (c.g as int) * 0x100 + (c.b as int),
            0 <= c.r < 256 && 0 <= c.g < 256 && 0 <= c.b < 256,
    ;
    assert(k / 0x100 % 0x100 == c.g as int) by (nonlinear_arith)
        requires
            k == (c.r as int) * 0x10000 + (c.g as int) * 0x100 + (c.b as int),
            0 <= c.r < 256 && 0 <= c.g < 256 && 0 <= c.b < 256,
    ;
    assert(k % 0x100 == c.b as int) by (nonlinear_arith)
        requires
            k == (c.r as int) * 0x10000 + (c.g as int) * 0x100 + (c.b as int),
            0 <= c.r < 256 && 0 <= c.g < 256 && 0 <= c.b < 256,
    ;
}

/// Packs a color into its cache key.
fn rgb_key(c: &Rgb) -> (k: u32)
    ensures
        k == key_of(*c),
{
    (c.r as u32) * 0x10000 + (c.g as u32) * 0x100 + (c.b as u32)
}

/// What the cache may record for color `c`: a nearest index, which moreover
/// sits at distance zero whenever `c` itself is a palette entry.
pub open spec fn good_entry(pal: Seq<Rgb>, c: Rgb, v: int) -> bool {
    &&& is_nearest(pal, c, v)
    &&& ((exists|i: int| 0 <= i < pal.len() && pal[i] == c) ==> pdist(c, pal[v]) == 0)
}

/// Owns a palette and a lazily grown nearest-color cache, both fixed to one
/// transform invocation.
pub struct ColorMapper {
    pub palette_rgb: Vec<Rgb>,
    cache: HashMap<u32, usize>,
}

impl ColorMapper {
    /// The palette, as contracts speak of it.
    pub closed spec fn palette(self) -> Seq<Rgb> {
        self.palette_rgb@
    }

    /// The cache, as contracts speak of it: packed color key to index.
    pub closed spec fn cache_map(self) -> Map<u32, usize> {
        self.cache@
    }

    /// Every cached index is exactly what an uncached search would return.
    pub closed spec fn cache_ok(self) -> bool {
        forall|k: u32| #[trigger]
            self.cache@.contains_key(k) ==> good_entry(
                self.palette_rgb@,
                rgb_of_key(k),
                self.cache@[k] as int,
            )
    }

    /// Well-formed: a non-empty palette and a transparent cache.
    pub open spec fn wf(self) -> bool {
        &&& self.palette().len() >= 1
        &&& self.cache_ok()
    }

    /// Builds a mapper over a fixed, non-empty palette, with an empty cache.
    pub fn build(palette_rgb: Vec<Rgb>) -> (m: ColorMapper)
        requires
            palette_rgb@.len() >= 1,
        ensures
            m.wf(),
            m.palette() == palette_rgb@,
            m.cache_map() == Map::<u32, usize>::empty(),
    {
        let cache: HashMap<u32, usize> = HashMap::with_capacity(4096);
        ColorMapper { palette_rgb, cache }
    }

    /// Returns the palette index of the entry perceptually nearest to
    /// `color` (lowest index wins ties), from the cache when present,
    /// otherwise by a fresh scan that is then memoized. The result never
    /// depends on the cache's state; the cache grows monotonically and,
    /// after the call, maps the queried color to the result.
    pub fn index_of(&mut self, color: &Rgb) -> (r: usize)
        requires
            old(self).wf(),
        ensures
            final(self).wf(),
            final(self).palette() == old(self).palette(),
            final(self).cache_map() == old(self).cache_map().insert(key_of(*color), r),
            r as int == nearest_idx(old(self).palette(), *color),
            is_nearest(old(self).palette(), *color, r as int),
            (exists|i: int|
                0 <= i < old(self).palette().len() && old(self).palette()[i] == *color)
                ==> pdist(*color, old(self).palette()[r as int]) == 0,
    {
        let key = rgb_key(color);
        proof {
            lemma_key_roundtrip(*color);
        }
        let cached = match self.cache.get(&key) {
            Some(v) => Some(*v),
            None => None,
        };
        match cached {
            Some(idx) => {
                proof {
                    assert(self.cache@.contains_key(key));
                    lemma_is_nearest_agrees(self.palette_rgb@, *color, idx as int);
                    assert(self.cache@ =~= self.cache@.insert(key, idx));
                }
                idx
            },
            None => {
                let idx = nearest_index(&self.palette_rgb, color);
                self.cache.insert(key, idx);
                proof {
                    assert forall|k: u32| #[trigger] self.cache@.contains_key(k) implies good_entry(
                        self.palette_rgb@,
                        rgb_of_key(k),
                        self.cache@[k] as int,
                    ) by {
                        if k != key {
                            assert(old(self).cache@.contains_key(k));
                        }
                    }
                }
                idx
            },
        }
    }

    /// Overwrites `color` with the palette entry perceptually nearest to it:
    /// the output is always bit-identical to one of the palette's entries.
    /// The cache gains (at most) the entry for the queried color.
    pub fn map_color(&mut self, color: &mut Rgb)
        requires
            old(self).wf(),
        ensures
            final(self).wf(),
            final(self).palette() == old(self).palette(),
            final(self).cache_map() == old(self).cache_map().insert(
                key_of(*old(color)),
                nearest_idx(old(self).palette(), *old(color)) as usize,
            ),
            *final(color) == old(self).palette()[nearest_idx(
                old(self).palette(),
                *old(color),
            )],
            (exists|i: int|
                0 <= i < old(self).palette().len() && old(self).palette()[i] == *old(color))
                ==> pdist(*old(color), *final(color)) == 0,
    {
        let idx = self.index_of(color);
        *color = self.palette_rgb[idx];
    }

    /// The palette entry at `index`, or `None` when `index` is out of range.
    pub fn lookup(&self, index: usize) -> (r: Option<Rgb>)
        ensures
            r == if index < self.palette().len() {
                Some(self.palette()[index as int])
            } else {
                None::<Rgb>
            },
    {
        if index < self.palette_rgb.len() {
            Some(self.palette_rgb[index])
        } else {
            None
        }
    }

    /// This mapper supports index-to-color lookup.
    pub fn has_lookup(&self) -> (r: bool)
        ensures
            r,
    {
        true
    }
}

/// Law: mapping a color that is already in the palette returns it unchanged,
/// provided no other palette entry lies at perceptual distance zero from it.
/// The last hypothesis — the chosen entry sits at distance zero — is what
/// `index_of` and `map_color` guarantee whenever the color is a palette
/// entry, since a color's distance to itself is zero.
pub proof fn lemma_map_color_idempotent(pal: Seq<Rgb>, c: Rgb, r: int)
    requires
        forall|j: int| 0 <= j < pal.len() && pdist(c, #[trigger] pal[j]) == 0 ==> pal[j] == c,
        is_nearest(pal, c, r),
        pdist(c, pal[r]) == 0,
    ensures
        pal[r] == c,
{
}

/// Law: the cache is transparent. `index_of`'s contract pins its result as a
/// nearest index, and a nearest index is unique, so the result is the same
/// whether or not the cache was pre-populated with other colors first —
/// cache state never changes the answer, only the cost.
pub proof fn lemma_cache_transparent(pal: Seq<Rgb>, c: Rgb, i: int, j: int)
    requires
        is_nearest(pal, c, i),
        is_nearest(pal, c, j),
    ensures
        i == j,
{
    lemma_nearest_unique(pal, c, i, j);
}

} // verus!
