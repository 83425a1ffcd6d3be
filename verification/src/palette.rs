//! The palette: an ordered sequence of unique colors extracted from a
//! reference image, with a parallel sequence of precomputed Lab triples, and
//! nearest-index lookup under either metric.

use vstd::prelude::*;
use crate::color::{Color, rgb_dist};
use crate::lab_space::{LabColor, lab_of, lab_dist_of, rgb_to_lab, lab_sq_dist};

verus! {

/// The distinct values of `s`, each kept at its first occurrence, in
/// first-occurrence order.
pub open spec fn dedup(s: Seq<Color>) -> Seq<Color>
    decreases s.len(),
{
    if s.len() == 0 {
        Seq::empty()
    } else {
        let rest = dedup(s.drop_last());
        if rest.contains(s.last()) {
            rest
        } else {
            rest.push(s.last())
        }
    }
}

/// `dedup` keeps exactly the values of its input.
pub proof fn lemma_dedup_contains(s: Seq<Color>, c: Color)
    ensures
        dedup(s).contains(c) <==> s.contains(c),
    decreases s.len(),
{
    if s.len() > 0 {
        let rest = dedup(s.drop_last());
        lemma_dedup_contains(s.drop_last(), c);
        assert(dedup(s).contains(c) <==> rest.contains(c) || s.last() == c) by {
            if !rest.contains(s.last()) {
                if rest.contains(c) {
                    let i = choose|i: int| 0 <= i < rest.len() && rest[i] == c;
                    assert(rest.push(s.last())[i] == c);
                }
                if s.last() == c {
                    assert(rest.push(s.last())[rest.len() as int] == c);
                }
                if dedup(s).contains(c) {
                    let i = choose|i: int| 0 <= i < dedup(s).len() && dedup(s)[i] == c;
                    if i < rest.len() {
                        assert(rest[i] == c);
                    }
                }
            }
        }
        assert(s.contains(c) <==> s.drop_last().contains(c) || s.last() == c) by {
            if s.contains(c) {
                let i = choose|i: int| 0 <= i < s.len() && s[i] == c;
                if i < s.len() - 1 {
                    assert(s.drop_last()[i] == c);
                }
            }
            if s.drop_last().contains(c) {
                let i = choose|i: int| 0 <= i < s.drop_last().len() && s.drop_last()[i] == c;
                assert(s[i] == c);
            }
        }
    }
}

/// `dedup` holds no value twice.
pub proof fn lemma_dedup_distinct(s: Seq<Color>)
    ensures
        forall|i: int, j: int|
            0 <= i < j < dedup(s).len() ==> dedup(s)[i] != dedup(s)[j],
    decreases s.len(),
{
    if s.len() > 0 {
        let rest = dedup(s.drop_last());
        lemma_dedup_distinct(s.drop_last());
        if !rest.contains(s.last()) {
            assert forall|i: int, j: int|
                0 <= i < j < dedup(s).len() implies dedup(s)[i] != dedup(s)[j] by {
                if j < rest.len() {
                } else {
                    assert(dedup(s)[j] == s.last());
                    assert(rest[i] == dedup(s)[i]);
                    assert(!rest.contains(s.last()));
                }
            }
        }
    }
}

/// A palette: the deduplicated colors of a reference image, in
/// first-occurrence order, and their precomputed Lab triples, index-aligned.
#[derive(Clone, Debug)]
pub struct Palette {
    /// The palette entries, deduplicated, in first-occurrence order.
    pub colors: Vec<Color>,
    /// The precomputed Lab triple of each color, index-aligned with
    /// `colors`. Contracts and callers read these triples; the executable
    /// lookup hands the colors themselves to the `lab` crate, since float
    /// components cannot be reassembled from their stored bit patterns in
    /// verified code.
    pub labs: Vec<LabColor>,
}

impl Palette {
    /// The palette's invariant: one Lab triple per color, each the Lab
    /// conversion of its color, and no color held twice.
    pub open spec fn wf(self) -> bool {
        &&& self.labs@.len() == self.colors@.len()
        &&& forall|i: int|
            0 <= i < self.colors@.len() ==> self.labs@[i] == lab_of(self.colors@[i])
        &&& forall|i: int, j: int|
            0 <= i < j < self.colors@.len() ==> self.colors@[i] != self.colors@[j]
    }

    /// The number of palette entries.
    pub fn len(&self) -> (n: usize)
        ensures
            n == self.colors@.len(),
    {
        self.colors.len()
    }

    /// Build a palette from the pixels of a reference image: collapse them
    /// to their distinct colors, kept in first-occurrence order, and
    /// precompute each distinct color's Lab triple. A zero-pixel image
    /// yields an empty palette, which quantization then rejects.
    pub fn build(pixels: &Vec<Color>) -> (p: Palette)
        ensures
            p.wf(),
            p.colors@ == dedup(pixels@),
    {
        let mut colors: Vec<Color> = Vec::new();
        let mut labs: Vec<LabColor> = Vec::new();
        for k in 0..pixels.len()
            invariant
                colors@ == dedup(pixels@.take(k as int)),
                labs@.len() == colors@.len(),
                forall|i: int| 0 <= i < colors@.len() ==> labs@[i] == lab_of(colors@[i]),
        {
            let c = pixels[k];
            let mut seen = false;
            for j in 0..colors.len()
                invariant
                    seen <==> exists|i: int| 0 <= i < j && colors@[i] == c,
            {
                if colors[j] == c {
                    seen = true;
                }
            }
            proof {
                assert(pixels@.take(k + 1).drop_last() =~= pixels@.take(k as int));
                assert(pixels@.take(k + 1).last() == pixels@[k as int]);
                assert(seen <==> colors@.contains(c));
            }
            if !seen {
                colors.push(c);
                let l = rgb_to_lab(&c);
                labs.push(l);
            }
        }
        proof {
            assert(pixels@.take(pixels@.len() as int) =~= pixels@);
        }
        let p = Palette { colors, labs };
        proof {
            lemma_dedup_distinct(pixels@);
        }
        p
    }
}

/// The index of the palette entry among `colors[0..n]` nearest to `c` in
/// squared RGB distance, ties broken toward the lowest index.
pub open spec fn rgb_nearest_upto(colors: Seq<Color>, c: Color, n: int) -> int
    decreases n,
{
    if n <= 1 {
        0
    } else {
        let prev = rgb_nearest_upto(colors, c, n - 1);
        if rgb_dist(c, colors[n - 1]) < rgb_dist(c, colors[prev]) {
            n - 1
        } else {
            prev
        }
    }
}

/// The index of the palette entry nearest to `c` in squared RGB distance,
/// ties broken toward the lowest index.
pub open spec fn rgb_nearest(colors: Seq<Color>, c: Color) -> int {
    rgb_nearest_upto(colors, c, colors.len() as int)
}

/// `rgb_nearest_upto` returns the lowest index among those of minimum
/// squared RGB distance to `c` within the first `n` entries.
pub proof fn lemma_rgb_nearest_upto_props(colors: Seq<Color>, c: Color, n: int)
    requires
        1 <= n <= colors.len(),
    ensures
        0 <= rgb_nearest_upto(colors, c, n) < n,
        forall|j: int|
            0 <= j < n ==> rgb_dist(c, colors[rgb_nearest_upto(colors, c, n)]) <= rgb_dist(
                c,
                #[trigger] colors[j],
            ),
        forall|j: int|
            0 <= j < rgb_nearest_upto(colors, c, n) ==> rgb_dist(c, #[trigger] colors[j]) > rgb_dist(
                c,
                colors[rgb_nearest_upto(colors, c, n)],
            ),
    decreases n,
{
    if n > 1 {
        lemma_rgb_nearest_upto_props(colors, c, n - 1);
    }
}

/// The index of the Lab triple among `labs[0..n]` nearest to `q` in squared
/// Lab distance (compared by bit pattern), ties broken toward the lowest
/// index.
pub open spec fn lab_nearest_upto(labs: Seq<LabColor>, q: LabColor, n: int) -> int
    decreases n,
{
    if n <= 1 {
        0
    } else {
        let prev = lab_nearest_upto(labs, q, n - 1);
        if lab_dist_of(q, labs[n - 1]) < lab_dist_of(q, labs[prev]) {
            n - 1
        } else {
            prev
        }
    }
}

/// The index of the Lab triple nearest to `q` in squared Lab distance, ties
/// broken toward the lowest index.
pub open spec fn lab_nearest(labs: Seq<LabColor>, q: LabColor) -> int {
    lab_nearest_upto(labs, q, labs.len() as int)
}

/// `lab_nearest_upto` returns the lowest index among those of minimum
/// squared Lab distance to `q` within the first `n` entries.
pub proof fn lemma_lab_nearest_upto_props(labs: Seq<LabColor>, q: LabColor, n: int)
    requires
        1 <= n <= labs.len(),
    ensures
        0 <= lab_nearest_upto(labs, q, n) < n,
        forall|j: int|
            0 <= j < n ==> lab_dist_of(q, labs[lab_nearest_upto(labs, q, n)]) <= lab_dist_of(
                q,
                #[trigger] labs[j],
            ),
        forall|j: int|
            0 <= j < lab_nearest_upto(labs, q, n) ==> lab_dist_of(q, #[trigger] labs[j]) > lab_dist_of(
                q,
                labs[lab_nearest_upto(labs, q, n)],
            ),
    decreases n,
{
    if n > 1 {
        lemma_lab_nearest_upto_props(labs, q, n - 1);
    }
}

impl Color {
    /// The index of the palette color nearest to `self` in squared RGB
    /// distance; on an exact tie the lowest index wins.
    pub fn to_palette_index_rbg(&self, palette: &Palette) -> (ri: usize)
        requires
            palette.colors@.len() > 0,
        ensures
            ri < palette.colors@.len(),
            ri as int == rgb_nearest(palette.colors@, *self),
            forall|j: int|
                0 <= j < palette.colors@.len() ==> rgb_dist(*self, palette.colors@[ri as int])
                    <= rgb_dist(*self, palette.colors@[j]),
            forall|j: int|
                0 <= j < ri ==> rgb_dist(*self, palette.colors@[j]) > rgb_dist(
                    *self,
                    palette.colors@[ri as int],
                ),
    {
        let mut best: usize = 0;
        let mut best_dist: u32 = self.squared_distance(&palette.colors[0]);
        for j in 1..palette.colors.len()
            invariant
                palette.colors@.len() > 0,
                best < j,
                best as int == rgb_nearest_upto(palette.colors@, *self, j as int),
                best_dist == rgb_dist(*self, palette.colors@[best as int]),
        {
            let d = self.squared_distance(&palette.colors[j]);
            if d < best_dist {
                best = j;
                best_dist = d;
            }
        }
        proof {
            lemma_rgb_nearest_upto_props(palette.colors@, *self, palette.colors@.len() as int);
        }
        best
    }

    /// The index of the palette color whose precomputed Lab triple is
    /// nearest to `self`'s Lab triple in squared Lab distance; on an exact
    /// tie the lowest index wins. If `self` is itself a palette color and no
    /// earlier entry lies at Lab distance zero from it, its own index is
    /// returned.
    pub fn to_palette_index_lab(&self, palette: &Palette) -> (ri: usize)
        requires
            palette.wf(),
            palette.colors@.len() > 0,
        ensures
            ri < palette.colors@.len(),
            ri as int == lab_nearest(palette.labs@, lab_of(*self)),
            forall|j: int|
                0 <= j < palette.colors@.len() ==> lab_dist_of(
                    lab_of(*self),
                    palette.labs@[ri as int],
                ) <= lab_dist_of(lab_of(*self), palette.labs@[j]),
            forall|j: int|
                0 <= j < ri ==> lab_dist_of(lab_of(*self), palette.labs@[j]) > lab_dist_of(
                    lab_of(*self),
                    palette.labs@[ri as int],
                ),
            forall|i: int|
                0 <= i < palette.colors@.len() && palette.colors@[i] == *self && (forall|k: int|
                    0 <= k < i ==> lab_dist_of(lab_of(*self), palette.labs@[k]) != 0) ==> ri == i,
    {
        let ghost q = lab_of(*self);
        let mut best: usize = 0;
        let mut best_dist: u32 = lab_sq_dist(self, &palette.colors[0]);
        for j in 1..palette.colors.len()
            invariant
                palette.wf(),
                palette.colors@.len() > 0,
                q == lab_of(*self),
                best < j,
                j <= palette.colors@.len(),
                best as int == lab_nearest_upto(palette.labs@, q, j as int),
                best_dist == lab_dist_of(q, palette.labs@[best as int]),
                forall|k: int|
                    0 <= k < j && palette.colors@[k] == *self ==> lab_dist_of(
                        q,
                        palette.labs@[k],
                    ) == 0,
        {
            let d = lab_sq_dist(self, &palette.colors[j]);
            if d < best_dist {
                best = j;
                best_dist = d;
            }
        }
        proof {
            lemma_lab_nearest_upto_props(palette.labs@, q, palette.labs@.len() as int);
            assert forall|i: int|
                0 <= i < palette.colors@.len() && palette.colors@[i] == *self && (forall|k: int|
                    0 <= k < i ==> lab_dist_of(q, palette.labs@[k]) != 0) implies best as int
                == i by {
                assert(lab_dist_of(q, palette.labs@[i]) == 0);
                assert(lab_dist_of(q, palette.labs@[best as int]) <= lab_dist_of(
                    q,
                    palette.labs@[i],
                ));
                if (best as int) < i {
                    assert(lab_dist_of(q, palette.labs@[best as int]) != 0);
                } else if (best as int) > i {
                    assert(lab_dist_of(q, palette.labs@[i]) > lab_dist_of(
                        q,
                        palette.labs@[best as int],
                    ));
                }
            }
        }
        best
    }
}

} // verus!
