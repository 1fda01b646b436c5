//! The diagonal canvas-fill engine: the mathematical model of the two
//! plotting algorithms, the verified fillers that realize it in place, and
//! the by-name filler lookup.
//!
//! Both fillers first put the i-th sample color on the main-diagonal cell
//! (i, i). Smooth fans channel-wise averages out of the diagonal band by
//! band, keeping the grid symmetric; Gradient radiates wings of the current
//! color around a blended seam, with the half-width folding at the canvas
//! midpoint, and is not symmetric in general.

use vstd::prelude::*;
use vstd::string::StrSliceExecFns;

use crate::buffer::SampleBuffer;
use crate::canvas::{blank, cell, Canvas};
use crate::color::ColorSample;

verus! {

/// Which of the two plotting algorithms a run uses; selected once, by name.
#[derive(Clone, Copy, Debug, PartialEq, Eq, Structural)]
pub enum FillMethod {
    Smooth,
    Gradient,
}

// ---------------------------------------------------------------------------
// The model: canvas contents as flat sequences, one write at a time.
// ---------------------------------------------------------------------------

/// Contents after the first `count` samples are put on the main diagonal.
pub open spec fn diag_painted(
    c: Seq<ColorSample>,
    n: int,
    samples: Seq<ColorSample>,
    count: int,
) -> Seq<ColorSample>
    decreases count,
{
    if count <= 0 {
        c
    } else {
        diag_painted(c, n, samples, count - 1).update(
            cell(n, count - 1, count - 1),
            samples[count - 1],
        )
    }
}

/// One Smooth blending step at offset `off`, position `j`: the mean of the
/// two diagonal-adjacent cells outward from (j + off + 1, j), written to
/// that cell and to its mirror across the main diagonal.
pub open spec fn smooth_blend_at(c: Seq<ColorSample>, n: int, off: int, j: int) -> Seq<
    ColorSample,
> {
    let mixed = ColorSample::spec_blend(c[cell(n, j + off, j)], c[cell(n, j + off + 1, j + 1)]);
    c.update(cell(n, j + off + 1, j), mixed).update(cell(n, j, j + off + 1), mixed)
}

/// Contents after the first `jcount` blending steps of the band at `off`.
/// Each step reads the canvas as it stands, so earlier writes are visible.
pub open spec fn smooth_band(c: Seq<ColorSample>, n: int, off: int, jcount: int) -> Seq<
    ColorSample,
>
    decreases jcount,
{
    if jcount <= 0 {
        c
    } else {
        smooth_blend_at(smooth_band(c, n, off, jcount - 1), n, off, jcount - 1)
    }
}

/// Contents after the first `offcount` whole bands, band `off` running over
/// positions `0 .. n - 1 - off`.
pub open spec fn smooth_bands(c: Seq<ColorSample>, n: int, offcount: int) -> Seq<ColorSample>
    decreases offcount,
{
    if offcount <= 0 {
        c
    } else {
        smooth_band(smooth_bands(c, n, offcount - 1), n, offcount - 1, n - (offcount - 1) - 1)
    }
}

/// The Smooth filler as a function: paint the diagonal, run every band.
pub open spec fn spec_smooth(c: Seq<ColorSample>, samples: Seq<ColorSample>) -> Seq<ColorSample> {
    let n = samples.len() as int;
    smooth_bands(diag_painted(c, n, samples, n), n, n - 1)
}

/// How many wing positions the Gradient filler paints at step `i`: the
/// half-width grows until `i` crosses the fold point `(n - 1) / 2`, shrinks
/// past it, and is a single position at the far corner.
pub open spec fn grad_range_len(n: int, i: int) -> int {
    if i <= (n - 1) / 2 {
        i
    } else if i < n - 1 {
        n - i
    } else {
        1
    }
}

/// One Gradient wing position: a blended seam pair on the anti-diagonal
/// through (i, i - 1) and its mirror, followed by two current-color wing
/// writes on the anti-diagonal through (i, i). At position 0 the upper wing
/// write lands on the mirror seam cell (i - 1, i) instead, after the seam,
/// so the current color wins over the blend there; this exact boundary
/// order is deliberate.
pub open spec fn grad_wing_at(
    c: Seq<ColorSample>,
    n: int,
    i: int,
    seam: ColorSample,
    current: ColorSample,
    j: int,
) -> Seq<ColorSample> {
    let c3 = c.update(cell(n, i + j, i - 1 - j), seam).update(
        cell(n, i - 1 - j, i + j),
        seam,
    ).update(cell(n, i + j, i - j), current);
    if j == 0 {
        c3.update(cell(n, i - 1, i), current)
    } else {
        c3.update(cell(n, i - j, i + j), current)
    }
}

/// Contents after the first `jcount` wing positions of step `i`.
pub open spec fn grad_wings(
    c: Seq<ColorSample>,
    n: int,
    i: int,
    seam: ColorSample,
    current: ColorSample,
    jcount: int,
) -> Seq<ColorSample>
    decreases jcount,
{
    if jcount <= 0 {
        c
    } else {
        grad_wing_at(grad_wings(c, n, i, seam, current, jcount - 1), n, i, seam, current, jcount - 1)
    }
}

/// One whole Gradient step: the diagonal write, and — for every step after
/// the first — the wing positions plus the two edge writes up to the fold.
pub open spec fn grad_step(c: Seq<ColorSample>, n: int, samples: Seq<ColorSample>, i: int) -> Seq<
    ColorSample,
> {
    let current = samples[i];
    let c1 = c.update(cell(n, i, i), current);
    if i == 0 {
        c1
    } else {
        let seam = ColorSample::spec_blend(c1[cell(n, i - 1, i - 1)], c1[cell(n, i, i)]);
        let c2 = grad_wings(c1, n, i, seam, current, grad_range_len(n, i));
        if i <= (n - 1) / 2 {
            c2.update(cell(n, 2 * i, 0), current).update(cell(n, 0, 2 * i), current)
        } else {
            c2
        }
    }
}

/// Contents after the first `count` Gradient steps.
pub open spec fn grad_steps(
    c: Seq<ColorSample>,
    n: int,
    samples: Seq<ColorSample>,
    count: int,
) -> Seq<ColorSample>
    decreases count,
{
    if count <= 0 {
        c
    } else {
        grad_step(grad_steps(c, n, samples, count - 1), n, samples, count - 1)
    }
}

/// The Gradient filler as a function.
pub open spec fn spec_gradient(c: Seq<ColorSample>, samples: Seq<ColorSample>) -> Seq<
    ColorSample,
> {
    let n = samples.len() as int;
    grad_steps(c, n, samples, n)
}

/// What the selected filler leaves on a canvas that started as `c`.
pub open spec fn spec_fill(
    method: FillMethod,
    c: Seq<ColorSample>,
    samples: Seq<ColorSample>,
) -> Seq<ColorSample> {
    match method {
        FillMethod::Smooth => spec_smooth(c, samples),
        FillMethod::Gradient => spec_gradient(c, samples),
    }
}

/// What a whole run paints: the selected filler over a fresh all-zero canvas
/// sized to the sample count.
pub open spec fn spec_render(method: FillMethod, samples: Seq<ColorSample>) -> Seq<ColorSample> {
    spec_fill(method, blank(samples.len()), samples)
}

// ---------------------------------------------------------------------------
// The verified fillers.
// ---------------------------------------------------------------------------

/// The Smooth filler: samples on the main diagonal, and band by band each
/// off-diagonal cell becomes the running mean of the two diagonal-adjacent
/// cells outward from it, mirrored so the grid stays symmetric.
#[verifier::loop_isolation(false)]
pub fn smooth(pixels: &SampleBuffer, canvas: &mut Canvas)
    requires
        old(canvas).wf(),
        old(canvas).spec_size() == pixels@.len(),
    ensures
        final(canvas).wf(),
        final(canvas).spec_size() == old(canvas).spec_size(),
        final(canvas)@ == spec_smooth(old(canvas)@, pixels@),
{
    let n = pixels.len();
    let ghost c0 = canvas@;
    let ghost ni = n as int;

    let mut i: usize = 0;
    while i < n
        invariant
            i <= n,
            canvas.wf(),
            canvas.spec_size() == n,
            canvas@ == diag_painted(c0, ni, pixels@, i as int),
        decreases n - i,
    {
        canvas.set(i, i, pixels.get(i));
        i += 1;
    }

    if n == 0 {
        return ;
    }
    let max_offset = n - 1;
    let ghost diag = canvas@;

    let mut off: usize = 0;
    while off < max_offset
        invariant
            off <= max_offset,
            canvas.wf(),
            canvas.spec_size() == n,
            canvas@ == smooth_bands(diag, ni, off as int),
        decreases max_offset - off,
    {
        let ghost band_base = canvas@;
        let mut j: usize = 0;
        while j < max_offset - off
            invariant
                j <= max_offset - off,
                canvas.wf(),
                canvas.spec_size() == n,
                canvas@ == smooth_band(band_base, ni, off as int, j as int),
            decreases max_offset - off - j,
        {
            let current = canvas.get(j + off, j);
            let outward = canvas.get(j + off + 1, j + 1);
            let mixed = ColorSample::blend(current, outward);
            canvas.set(j + off + 1, j, mixed);
            canvas.set(j, j + off + 1, mixed);
            j += 1;
        }
        off += 1;
    }
}

/// The Gradient filler: at each step the current sample sits on the
/// diagonal and radiates wings of solid color around a seam blended from
/// the previous diagonal color, the half-width folding at the midpoint.
/// The write order within a wing position is significant and the result is
/// not symmetric in general.
#[verifier::loop_isolation(false)]
pub fn gradient(pixels: &SampleBuffer, canvas: &mut Canvas)
    requires
        old(canvas).wf(),
        old(canvas).spec_size() == pixels@.len(),
    ensures
        final(canvas).wf(),
        final(canvas).spec_size() == old(canvas).spec_size(),
        final(canvas)@ == spec_gradient(old(canvas)@, pixels@),
{
    let n = pixels.len();
    let ghost c0 = canvas@;
    let ghost ni = n as int;

    if n == 0 {
        return ;
    }
    let max_offset = n - 1;

    let mut i: usize = 0;
    while i < n
        invariant
            i <= n,
            canvas.wf(),
            canvas.spec_size() == n,
            canvas@ == grad_steps(c0, ni, pixels@, i as int),
        decreases n - i,
    {
        let current = pixels.get(i);
        canvas.set(i, i, current);
        let ghost c1 = canvas@;

        if i > 0 {
            let previous = canvas.get(i - 1, i - 1);
            let here = canvas.get(i, i);
            let seam = ColorSample::blend(previous, here);

            let range_len: usize = if i <= max_offset / 2 {
                i
            } else if i < max_offset {
                max_offset - i + 1
            } else {
                1
            };
            assert(range_len == grad_range_len(ni, i as int));

            let mut j: usize = 0;
            while j < range_len
                invariant
                    j <= range_len,
                    canvas.wf(),
                    canvas.spec_size() == n,
                    canvas@ == grad_wings(
                        c1,
                        ni,
                        i as int,
                        ColorSample::spec_blend(previous, here),
                        current,
                        j as int,
                    ),
                decreases range_len - j,
            {
                canvas.set(i + j, i - 1 - j, seam);
                canvas.set(i - 1 - j, i + j, seam);
                canvas.set(i + j, i - j, current);
                if j == 0 {
                    canvas.set(i - 1, i, current);
                } else {
                    canvas.set(i - j, i + j, current);
                }
                j += 1;
            }

            if i <= max_offset / 2 {
                canvas.set(2 * i, 0, current);
                canvas.set(0, 2 * i, current);
            }
        }
        i += 1;
    }
}

/// Size the canvas to the buffer and run the selected filler over it.
pub fn render(method: FillMethod, pixels: &SampleBuffer) -> (canvas: Canvas)
    requires
        pixels@.len() * pixels@.len() <= usize::MAX,
    ensures
        canvas.wf(),
        canvas.spec_size() == pixels@.len(),
        canvas@ == spec_render(method, pixels@),
{
    let n = pixels.len();
    let mut canvas = Canvas::create(n);
    match method {
        FillMethod::Smooth => smooth(pixels, &mut canvas),
        FillMethod::Gradient => gradient(pixels, &mut canvas),
    }
    canvas
}

// ---------------------------------------------------------------------------
// Filler selection by name.
// ---------------------------------------------------------------------------

/// Character-for-character equality of two text slices.
fn text_equal(a: &str, b: &str) -> (r: bool)
    ensures
        r == (a@ == b@),
{
    let a_len = a.unicode_len();
    let b_len = b.unicode_len();
    if a_len != b_len {
        return false;
    }
    let mut k: usize = 0;
    while k < a_len
        invariant
            k <= a_len,
            a_len == a@.len(),
            a_len == b@.len(),
            forall|m: int| 0 <= m < k ==> a@[m] == b@[m],
        decreases a_len - k,
    {
        if a.get_char(k) != b.get_char(k) {
            return false;
        }
        k += 1;
    }
    proof {
        assert(a@ =~= b@);
    }
    true
}

/// Look the filler up by its configured name. Any other name is a
/// configuration error, reported before any sampling starts.
pub fn get_filler(method: &str) -> (filler: Option<FillMethod>)
    ensures
        filler == Some(FillMethod::Smooth) <==> method@ == "smooth"@,
        filler == Some(FillMethod::Gradient) <==> method@ == "gradient"@,
        filler is None <==> method@ != "smooth"@ && method@ != "gradient"@,
{
    proof {
        reveal_strlit("smooth");
        reveal_strlit("gradient");
        assert("smooth"@.len() != "gradient"@.len());
    }
    if text_equal(method, "smooth") {
        Some(FillMethod::Smooth)
    } else if text_equal(method, "gradient") {
        Some(FillMethod::Gradient)
    } else {
        None
    }
}

} // verus!
