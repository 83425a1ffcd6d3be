//! The quantizer: produce a palette-mapped copy of an input pixel buffer,
//! replacing every pixel by its nearest palette color under the selected
//! metric.

use vstd::prelude::*;
use crate::color::{Color, lemma_rgb_dist_bounds, lemma_rgb_dist_zero};
use crate::lab_space::{LabColor, lab_of, lab_dist_of};
use crate::palette::{
    Palette, rgb_nearest, lab_nearest, lemma_rgb_nearest_upto_props, lemma_lab_nearest_upto_props,
};

verus! {

/// The distance metric a quantize call ranks palette candidates by.
#[derive(Clone, Copy, PartialEq, Eq, Debug, Structural)]
pub enum Metric {
    /// Squared Euclidean distance in RGB space.
    Rgb,
    /// Squared Euclidean distance in CIE Lab space.
    Lab,
}

/// Why a quantize call can fail.
#[derive(Clone, Copy, PartialEq, Eq, Debug, Structural)]
pub enum QuantizeError {
    /// The palette holds no colors, so no pixel has a nearest match.
    EmptyPalette,
}

/// An image held wholly in memory: `width * height` colors in row-major
/// order.
#[derive(Clone, Debug)]
pub struct MemoryImage {
    pub width: usize,
    pub height: usize,
    pub data: Vec<Color>,
}

impl MemoryImage {
    /// The buffer holds exactly one color per pixel of the grid.
    pub open spec fn wf(self) -> bool {
        self.data@.len() == self.width * self.height
    }
}

/// The palette color nearest to `c` under metric `m`, ties broken toward
/// the lowest palette index.
pub open spec fn nearest_color(p: Palette, c: Color, m: Metric) -> Color {
    match m {
        Metric::Rgb => p.colors@[rgb_nearest(p.colors@, c)],
        Metric::Lab => p.colors@[lab_nearest(p.labs@, lab_of(c))],
    }
}

/// The quantization of a pixel sequence: every pixel replaced by its
/// nearest palette color under metric `m`.
pub open spec fn quantize_seq(p: Palette, s: Seq<Color>, m: Metric) -> Seq<Color> {
    s.map_values(|c: Color| nearest_color(p, c, m))
}

/// Quantize `input` against `palette` under `metric`: the output buffer has
/// the same dimensions, and each output pixel is the palette's nearest color
/// to the corresponding input pixel. Fails exactly when the palette is
/// empty, in which case no pixel has a well-defined nearest match.
pub fn apply(input: &MemoryImage, palette: &Palette, metric: Metric) -> (r: Result<
    MemoryImage,
    QuantizeError,
>)
    requires
        palette.wf(),
    ensures
        r is Err <==> palette.colors@.len() == 0,
        r is Err ==> r->Err_0 == QuantizeError::EmptyPalette,
        r matches Ok(out) ==> {
            &&& out.width == input.width
            &&& out.height == input.height
            &&& out.data@ == quantize_seq(*palette, input.data@, metric)
            &&& (input.wf() ==> out.wf())
        },
{
    if palette.colors.len() == 0 {
        return Err(QuantizeError::EmptyPalette);
    }
    let mut data: Vec<Color> = Vec::new();
    for k in 0..input.data.len()
        invariant
            palette.wf(),
            palette.colors@.len() > 0,
            data@.len() == k,
            forall|i: int|
                0 <= i < k ==> data@[i] == nearest_color(*palette, input.data@[i], metric),
    {
        let c = input.data[k];
        let idx = match metric {
            Metric::Rgb => c.to_palette_index_rbg(palette),
            Metric::Lab => c.to_palette_index_lab(palette),
        };
        data.push(palette.colors[idx]);
    }
    proof {
        assert(data@ =~= quantize_seq(*palette, input.data@, metric));
    }
    Ok(MemoryImage { width: input.width, height: input.height, data })
}

/// Self-match: a color already in the palette is its own nearest RGB match;
/// the lookup returns exactly its index.
pub proof fn lemma_self_match_rgb(p: Palette, i: int)
    requires
        p.wf(),
        0 <= i < p.colors@.len(),
    ensures
        rgb_nearest(p.colors@, p.colors@[i]) == i,
{
    let c = p.colors@[i];
    let n = rgb_nearest(p.colors@, c);
    lemma_rgb_nearest_upto_props(p.colors@, c, p.colors@.len() as int);
    lemma_rgb_dist_zero(c, c);
    lemma_rgb_dist_bounds(c, p.colors@[n]);
    lemma_rgb_dist_zero(c, p.colors@[n]);
}

/// If `labs[i]` lies at Lab distance zero from `q` and no earlier entry
/// does, the nearest-Lab index for `q` is exactly `i`.
pub proof fn lemma_lab_nearest_zero(labs: Seq<LabColor>, q: LabColor, i: int)
    requires
        0 <= i < labs.len(),
        lab_dist_of(q, labs[i]) == 0,
        forall|k: int| 0 <= k < i ==> lab_dist_of(q, #[trigger] labs[k]) != 0,
    ensures
        lab_nearest(labs, q) == i,
{
    let n = lab_nearest(labs, q);
    lemma_lab_nearest_upto_props(labs, q, labs.len() as int);
    assert(lab_dist_of(q, labs[n]) <= lab_dist_of(q, labs[i]));
    if n > i {
        assert(lab_dist_of(q, labs[i]) > lab_dist_of(q, labs[n]));
    }
}

/// Idempotence: quantizing an already-quantized pixel sequence against the
/// same palette and metric returns it unchanged. Under the Lab metric this
/// holds whenever Lab distance zero separates palette entries, i.e. each
/// entry lies at distance zero from itself and from no other entry.
pub proof fn lemma_quantize_idempotent(p: Palette, s: Seq<Color>, m: Metric)
    requires
        p.wf(),
        p.colors@.len() > 0,
        m == Metric::Lab ==> forall|i: int, j: int|
            0 <= i < p.labs@.len() && 0 <= j < p.labs@.len() ==> (#[trigger] lab_dist_of(
                p.labs@[i],
                p.labs@[j],
            ) == 0 <==> i == j),
    ensures
        quantize_seq(p, quantize_seq(p, s, m), m) == quantize_seq(p, s, m),
{
    let qs = quantize_seq(p, s, m);
    assert forall|k: int| 0 <= k < qs.len() implies nearest_color(p, qs[k], m) == qs[k] by {
        match m {
            Metric::Rgb => {
                let i = rgb_nearest(p.colors@, s[k]);
                lemma_rgb_nearest_upto_props(p.colors@, s[k], p.colors@.len() as int);
                lemma_self_match_rgb(p, i);
            },
            Metric::Lab => {
                let i = lab_nearest(p.labs@, lab_of(s[k]));
                lemma_lab_nearest_upto_props(p.labs@, lab_of(s[k]), p.labs@.len() as int);
                assert(qs[k] == p.colors@[i]);
                assert(lab_of(p.colors@[i]) == p.labs@[i]);
                lemma_lab_nearest_zero(p.labs@, p.labs@[i], i);
            },
        }
    }
    assert(quantize_seq(p, qs, m) =~= qs);
}

/// Determinism: the quantized output is a function of the palette color
/// sequence, the input pixels, and the metric alone; any two quantizations
/// of the same input against the same palette and metric agree.
pub proof fn lemma_quantize_deterministic(
    p: Palette,
    s: Seq<Color>,
    m: Metric,
    out1: Seq<Color>,
    out2: Seq<Color>,
)
    requires
        out1 == quantize_seq(p, s, m),
        out2 == quantize_seq(p, s, m),
    ensures
        out1 == out2,
{
}

} // verus!
