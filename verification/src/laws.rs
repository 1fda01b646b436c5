//! The engine's structural laws, proved from the fill model: both fillers
//! preserve the main diagonal exactly and are deterministic, and the Smooth
//! filler keeps the canvas symmetric about its main diagonal.

use vstd::prelude::*;

use crate::canvas::{blank, cell, lemma_cell_in_range, lemma_cell_injective};
use crate::color::ColorSample;
use crate::fill::{
    diag_painted, grad_range_len, grad_step, grad_steps, grad_wing_at, grad_wings, smooth_band,
    smooth_bands, smooth_blend_at, spec_render, spec_smooth, FillMethod,
};

verus! {

/// The first `count` diagonal cells hold the samples, in arrival order.
pub open spec fn diagonal_matches(
    c: Seq<ColorSample>,
    n: int,
    samples: Seq<ColorSample>,
    count: int,
) -> bool {
    forall|d: int| 0 <= d < count ==> #[trigger] c[cell(n, d, d)] == samples[d]
}

/// The grid is symmetric about its main diagonal.
pub open spec fn symmetric(c: Seq<ColorSample>, n: int) -> bool {
    forall|x: int, y: int|
        0 <= x < n && 0 <= y < n ==> #[trigger] c[cell(n, x, y)] == c[cell(n, y, x)]
}

/// A write away from the painted diagonal prefix — or onto it with the
/// sample color it already holds — leaves the prefix intact.
proof fn lemma_write_keeps_diagonal(
    c: Seq<ColorSample>,
    n: int,
    samples: Seq<ColorSample>,
    count: int,
    a: int,
    b: int,
    v: ColorSample,
)
    requires
        c.len() == n * n,
        diagonal_matches(c, n, samples, count),
        count <= n,
        0 <= a < n,
        0 <= b < n,
        a != b || v == samples[a],
    ensures
        diagonal_matches(c.update(cell(n, a, b), v), n, samples, count),
{
    let c2 = c.update(cell(n, a, b), v);
    assert forall|d: int| 0 <= d < count implies #[trigger] c2[cell(n, d, d)] == samples[d] by {
        lemma_cell_in_range(n, d, d);
        lemma_cell_in_range(n, a, b);
        if cell(n, d, d) == cell(n, a, b) {
            lemma_cell_injective(n, d, d, a, b);
        }
    }
}

/// Writing one value to a cell and to its mirror keeps the grid symmetric.
proof fn lemma_mirrored_writes_keep_symmetry(
    c: Seq<ColorSample>,
    n: int,
    a: int,
    b: int,
    v: ColorSample,
)
    requires
        c.len() == n * n,
        symmetric(c, n),
        0 <= a < n,
        0 <= b < n,
    ensures
        symmetric(c.update(cell(n, a, b), v).update(cell(n, b, a), v), n),
{
    let c2 = c.update(cell(n, a, b), v).update(cell(n, b, a), v);
    assert forall|x: int, y: int|
        0 <= x < n && 0 <= y < n implies #[trigger] c2[cell(n, x, y)] == c2[cell(n, y, x)] by {
        lemma_cell_in_range(n, x, y);
        lemma_cell_in_range(n, y, x);
        lemma_cell_in_range(n, a, b);
        lemma_cell_in_range(n, b, a);
        if cell(n, x, y) == cell(n, a, b) {
            lemma_cell_injective(n, x, y, a, b);
        }
        if cell(n, x, y) == cell(n, b, a) {
            lemma_cell_injective(n, x, y, b, a);
        }
        if cell(n, y, x) == cell(n, a, b) {
            lemma_cell_injective(n, y, x, a, b);
        }
        if cell(n, y, x) == cell(n, b, a) {
            lemma_cell_injective(n, y, x, b, a);
        }
    }
}

/// Painting the diagonal puts each sample on its cell, keeps the length,
/// and keeps any symmetry the starting contents had.
proof fn lemma_diag_painted(c: Seq<ColorSample>, n: int, samples: Seq<ColorSample>, count: int)
    requires
        c.len() == n * n,
        n == samples.len(),
        0 <= count <= n,
    ensures
        diag_painted(c, n, samples, count).len() == n * n,
        diagonal_matches(diag_painted(c, n, samples, count), n, samples, count),
        symmetric(c, n) ==> symmetric(diag_painted(c, n, samples, count), n),
    decreases count,
{
    if count > 0 {
        lemma_diag_painted(c, n, samples, count - 1);
        let prev = diag_painted(c, n, samples, count - 1);
        let d = count - 1;
        let r = prev.update(cell(n, d, d), samples[d]);
        lemma_cell_in_range(n, d, d);
        lemma_write_keeps_diagonal(prev, n, samples, count - 1, d, d, samples[d]);
        assert(r[cell(n, d, d)] == samples[d]);
        if symmetric(c, n) {
            lemma_mirrored_writes_keep_symmetry(prev, n, d, d, samples[d]);
            assert(prev.update(cell(n, d, d), samples[d]).update(cell(n, d, d), samples[d])
                =~= r);
        }
    }
}

/// Every blending step of a Smooth band writes one blended value to an
/// off-diagonal cell and its mirror, so the band keeps the painted diagonal
/// and the symmetry of the grid.
proof fn lemma_smooth_band(
    c: Seq<ColorSample>,
    n: int,
    samples: Seq<ColorSample>,
    off: int,
    jcount: int,
)
    requires
        c.len() == n * n,
        n == samples.len(),
        0 <= off < n - 1,
        0 <= jcount <= n - 1 - off,
        diagonal_matches(c, n, samples, n),
        symmetric(c, n),
    ensures
        smooth_band(c, n, off, jcount).len() == n * n,
        diagonal_matches(smooth_band(c, n, off, jcount), n, samples, n),
        symmetric(smooth_band(c, n, off, jcount), n),
    decreases jcount,
{
    if jcount > 0 {
        lemma_smooth_band(c, n, samples, off, jcount - 1);
        let prev = smooth_band(c, n, off, jcount - 1);
        let j = jcount - 1;
        let mixed = ColorSample::spec_blend(
            prev[cell(n, j + off, j)],
            prev[cell(n, j + off + 1, j + 1)],
        );
        lemma_cell_in_range(n, j + off + 1, j);
        lemma_cell_in_range(n, j, j + off + 1);
        lemma_write_keeps_diagonal(prev, n, samples, n, j + off + 1, j, mixed);
        lemma_write_keeps_diagonal(
            prev.update(cell(n, j + off + 1, j), mixed),
            n,
            samples,
            n,
            j,
            j + off + 1,
            mixed,
        );
        lemma_mirrored_writes_keep_symmetry(prev, n, j + off + 1, j, mixed);
        assert(smooth_band(c, n, off, jcount) == smooth_blend_at(prev, n, off, j));
    }
}

/// Running the bands keeps the painted diagonal and the symmetry.
proof fn lemma_smooth_bands(
    c: Seq<ColorSample>,
    n: int,
    samples: Seq<ColorSample>,
    offcount: int,
)
    requires
        c.len() == n * n,
        n == samples.len(),
        0 <= offcount <= n - 1,
        diagonal_matches(c, n, samples, n),
        symmetric(c, n),
    ensures
        smooth_bands(c, n, offcount).len() == n * n,
        diagonal_matches(smooth_bands(c, n, offcount), n, samples, n),
        symmetric(smooth_bands(c, n, offcount), n),
    decreases offcount,
{
    if offcount > 0 {
        lemma_smooth_bands(c, n, samples, offcount - 1);
        lemma_smooth_band(
            smooth_bands(c, n, offcount - 1),
            n,
            samples,
            offcount - 1,
            n - (offcount - 1) - 1,
        );
    }
}

/// The Smooth result over any symmetric, rightly sized starting contents:
/// diagonal preserved, symmetry preserved, size kept.
proof fn lemma_smooth_shape(c: Seq<ColorSample>, samples: Seq<ColorSample>)
    requires
        c.len() == samples.len() * samples.len(),
        symmetric(c, samples.len() as int),
    ensures
        spec_smooth(c, samples).len() == samples.len() * samples.len(),
        diagonal_matches(spec_smooth(c, samples), samples.len() as int, samples, samples.len() as int),
        symmetric(spec_smooth(c, samples), samples.len() as int),
{
    let n = samples.len() as int;
    lemma_diag_painted(c, n, samples, n);
    if n > 0 {
        lemma_smooth_bands(diag_painted(c, n, samples, n), n, samples, n - 1);
    }
}

/// A fresh canvas is trivially symmetric.
proof fn lemma_blank_symmetric(n: int)
    requires
        0 <= n,
    ensures
        blank(n as nat).len() == n * n,
        symmetric(blank(n as nat), n),
{
    assert forall|x: int, y: int|
        0 <= x < n && 0 <= y < n implies #[trigger] blank(n as nat)[cell(n, x, y)] == blank(
        n as nat,
    )[cell(n, y, x)] by {
        lemma_cell_in_range(n, x, y);
        lemma_cell_in_range(n, y, x);
    }
}

/// Law: the Smooth filler preserves the diagonal exactly — for every sample
/// sequence, cell (i, i) of the rendered canvas holds the i-th sample.
pub proof fn lemma_smooth_diagonal(samples: Seq<ColorSample>, i: int)
    requires
        0 <= i < samples.len(),
    ensures
        spec_render(FillMethod::Smooth, samples)[cell(samples.len() as int, i, i)] == samples[i],
{
    let n = samples.len() as int;
    lemma_blank_symmetric(n);
    lemma_smooth_shape(blank(samples.len()), samples);
}

/// Law: the Smooth filler paints a fully symmetric canvas — for every
/// sample sequence and all in-range coordinates, cell (x, y) equals
/// cell (y, x).
pub proof fn lemma_smooth_symmetric(samples: Seq<ColorSample>, x: int, y: int)
    requires
        0 <= x < samples.len(),
        0 <= y < samples.len(),
    ensures
        spec_render(FillMethod::Smooth, samples)[cell(samples.len() as int, x, y)] == spec_render(
            FillMethod::Smooth,
            samples,
        )[cell(samples.len() as int, y, x)],
{
    let n = samples.len() as int;
    lemma_blank_symmetric(n);
    lemma_smooth_shape(blank(samples.len()), samples);
}

/// Law: the Smooth filler is deterministic — identical input buffers
/// produce identical canvases.
pub proof fn lemma_smooth_deterministic(s1: Seq<ColorSample>, s2: Seq<ColorSample>)
    requires
        s1 == s2,
    ensures
        spec_render(FillMethod::Smooth, s1) == spec_render(FillMethod::Smooth, s2),
{
}

/// Law: the Gradient filler is deterministic — identical input buffers
/// produce identical canvases.
pub proof fn lemma_gradient_deterministic(s1: Seq<ColorSample>, s2: Seq<ColorSample>)
    requires
        s1 == s2,
    ensures
        spec_render(FillMethod::Gradient, s1) == spec_render(FillMethod::Gradient, s2),
{
}

/// Both wing cells of wing position `b` of step `i` — (i + b, i - b) and
/// its mirror — hold sample `i`.
pub open spec fn wing_ok(
    c: Seq<ColorSample>,
    n: int,
    samples: Seq<ColorSample>,
    i: int,
    b: int,
) -> bool {
    c[cell(n, i + b, i - b)] == samples[i] && c[cell(n, i - b, i + b)] == samples[i]
}

/// For the first `count` Gradient steps, both wing cells of every painted
/// wing position hold that step's sample.
pub open spec fn wings_match(
    c: Seq<ColorSample>,
    n: int,
    samples: Seq<ColorSample>,
    count: int,
) -> bool {
    forall|i: int, b: int|
        1 <= i < count && 0 <= b < grad_range_len(n, i) ==> #[trigger] wing_ok(c, n, samples, i, b)
}

/// Every wing position of step `i` stays strictly inside the grid.
proof fn lemma_wing_bounds(n: int, i: int, j: int)
    requires
        1 <= i < n,
        0 <= j < grad_range_len(n, i),
    ensures
        0 <= i - 1 - j,
        i + j < n,
        1 <= i - j,
    decreases 0int,
{
    assert(2 * ((n - 1) / 2) <= n - 1 <= 2 * ((n - 1) / 2) + 1);
}

/// A write on or beyond the anti-diagonal of the current step leaves every
/// earlier step's wing cells intact: those sit on anti-diagonals of
/// strictly smaller coordinate sum.
proof fn lemma_write_keeps_wings(
    c: Seq<ColorSample>,
    n: int,
    samples: Seq<ColorSample>,
    count: int,
    a: int,
    b: int,
    v: ColorSample,
)
    requires
        c.len() == n * n,
        n == samples.len(),
        wings_match(c, n, samples, count),
        count <= n,
        0 <= a < n,
        0 <= b < n,
        2 * count - 1 <= a + b,
    ensures
        wings_match(c.update(cell(n, a, b), v), n, samples, count),
{
    let c2 = c.update(cell(n, a, b), v);
    assert forall|i: int, w: int|
        1 <= i < count && 0 <= w < grad_range_len(n, i) implies #[trigger] wing_ok(
        c2,
        n,
        samples,
        i,
        w,
    ) by {
        assert(wing_ok(c, n, samples, i, w));
        lemma_wing_bounds(n, i, w);
        lemma_cell_in_range(n, i + w, i - w);
        lemma_cell_in_range(n, i - w, i + w);
        lemma_cell_in_range(n, a, b);
        if cell(n, i + w, i - w) == cell(n, a, b) {
            lemma_cell_injective(n, i + w, i - w, a, b);
        }
        if cell(n, i - w, i + w) == cell(n, a, b) {
            lemma_cell_injective(n, i - w, i + w, a, b);
        }
    }
}

/// Running wing positions never changes the grid's cell count.
proof fn lemma_grad_wings_len(
    c: Seq<ColorSample>,
    n: int,
    i: int,
    seam: ColorSample,
    current: ColorSample,
    jcount: int,
)
    requires
        c.len() == n * n,
        1 <= i < n,
        jcount <= grad_range_len(n, i),
    ensures
        grad_wings(c, n, i, seam, current, jcount).len() == n * n,
    decreases jcount,
{
    if jcount > 0 {
        lemma_grad_wings_len(c, n, i, seam, current, jcount - 1);
        let jn = jcount - 1;
        lemma_wing_bounds(n, i, jn);
        lemma_cell_in_range(n, i + jn, i - 1 - jn);
        lemma_cell_in_range(n, i - 1 - jn, i + jn);
        lemma_cell_in_range(n, i + jn, i - jn);
        lemma_cell_in_range(n, i - jn, i + jn);
        if jn == 0 {
            lemma_cell_in_range(n, i - 1, i);
        }
    }
}

/// Wing position `j` of step `i` really receives the current color on both
/// its cells, and no later position of the same step repaints them.
proof fn lemma_grad_wings_paint(
    c: Seq<ColorSample>,
    n: int,
    i: int,
    seam: ColorSample,
    current: ColorSample,
    jcount: int,
    j: int,
)
    requires
        c.len() == n * n,
        1 <= i < n,
        jcount <= grad_range_len(n, i),
        0 <= j < jcount,
    ensures
        grad_wings(c, n, i, seam, current, jcount)[cell(n, i + j, i - j)] == current,
        grad_wings(c, n, i, seam, current, jcount)[cell(n, i - j, i + j)] == current,
    decreases jcount,
{
    let prev = grad_wings(c, n, i, seam, current, jcount - 1);
    let r = grad_wings(c, n, i, seam, current, jcount);
    let jn = jcount - 1;
    lemma_grad_wings_len(c, n, i, seam, current, jn);
    lemma_wing_bounds(n, i, jn);
    lemma_wing_bounds(n, i, j);
    lemma_cell_in_range(n, i + jn, i - 1 - jn);
    lemma_cell_in_range(n, i - 1 - jn, i + jn);
    lemma_cell_in_range(n, i + jn, i - jn);
    lemma_cell_in_range(n, i - jn, i + jn);
    lemma_cell_in_range(n, i + j, i - j);
    lemma_cell_in_range(n, i - j, i + j);
    if jn == 0 {
        lemma_cell_in_range(n, i - 1, i);
    }
    if j == jn {
        if jn == 0 {
            if cell(n, i, i) == cell(n, i - 1, i) {
                lemma_cell_injective(n, i, i, i - 1, i);
            }
        } else {
            if cell(n, i + j, i - j) == cell(n, i - jn, i + jn) {
                lemma_cell_injective(n, i + j, i - j, i - jn, i + jn);
            }
        }
    } else {
        lemma_grad_wings_paint(c, n, i, seam, current, jn, j);
        if cell(n, i + j, i - j) == cell(n, i + jn, i - 1 - jn) {
            lemma_cell_injective(n, i + j, i - j, i + jn, i - 1 - jn);
        }
        if cell(n, i - j, i + j) == cell(n, i + jn, i - 1 - jn) {
            lemma_cell_injective(n, i - j, i + j, i + jn, i - 1 - jn);
        }
        if cell(n, i + j, i - j) == cell(n, i - 1 - jn, i + jn) {
            lemma_cell_injective(n, i + j, i - j, i - 1 - jn, i + jn);
        }
        if cell(n, i - j, i + j) == cell(n, i - 1 - jn, i + jn) {
            lemma_cell_injective(n, i - j, i + j, i - 1 - jn, i + jn);
        }
        if cell(n, i + j, i - j) == cell(n, i + jn, i - jn) {
            lemma_cell_injective(n, i + j, i - j, i + jn, i - jn);
        }
        if cell(n, i - j, i + j) == cell(n, i + jn, i - jn) {
            lemma_cell_injective(n, i - j, i + j, i + jn, i - jn);
        }
        if jn == 0 {
            if cell(n, i + j, i - j) == cell(n, i - 1, i) {
                lemma_cell_injective(n, i + j, i - j, i - 1, i);
            }
            if cell(n, i - j, i + j) == cell(n, i - 1, i) {
                lemma_cell_injective(n, i - j, i + j, i - 1, i);
            }
        } else {
            if cell(n, i + j, i - j) == cell(n, i - jn, i + jn) {
                lemma_cell_injective(n, i + j, i - j, i - jn, i + jn);
            }
            if cell(n, i - j, i + j) == cell(n, i - jn, i + jn) {
                lemma_cell_injective(n, i - j, i + j, i - jn, i + jn);
            }
        }
    }
}

/// Every wing position of Gradient step `i` writes off the diagonal except
/// the current-color write at position 0, which repaints cell (i, i) with
/// the very sample it already holds; earlier steps' wing cells sit on
/// smaller anti-diagonals and keep their color.
proof fn lemma_grad_wings(
    c: Seq<ColorSample>,
    n: int,
    samples: Seq<ColorSample>,
    i: int,
    seam: ColorSample,
    current: ColorSample,
    jcount: int,
    count: int,
)
    requires
        c.len() == n * n,
        n == samples.len(),
        1 <= i < n,
        i < count <= n,
        0 <= jcount <= grad_range_len(n, i),
        current == samples[i],
        diagonal_matches(c, n, samples, count),
        wings_match(c, n, samples, i),
    ensures
        grad_wings(c, n, i, seam, current, jcount).len() == n * n,
        diagonal_matches(grad_wings(c, n, i, seam, current, jcount), n, samples, count),
        wings_match(grad_wings(c, n, i, seam, current, jcount), n, samples, i),
    decreases jcount,
{
    if jcount > 0 {
        lemma_grad_wings(c, n, samples, i, seam, current, jcount - 1, count);
        let prev = grad_wings(c, n, i, seam, current, jcount - 1);
        let j = jcount - 1;
        assert(0 <= i - 1 - j && i + j < n && 1 <= i - j) by {
            assert(2 * ((n - 1) / 2) <= n - 1 <= 2 * ((n - 1) / 2) + 1);
        }
        lemma_cell_in_range(n, i + j, i - 1 - j);
        lemma_cell_in_range(n, i - 1 - j, i + j);
        lemma_cell_in_range(n, i + j, i - j);
        let c1 = prev.update(cell(n, i + j, i - 1 - j), seam);
        let c2 = c1.update(cell(n, i - 1 - j, i + j), seam);
        let c3 = c2.update(cell(n, i + j, i - j), current);
        lemma_write_keeps_diagonal(prev, n, samples, count, i + j, i - 1 - j, seam);
        lemma_write_keeps_diagonal(c1, n, samples, count, i - 1 - j, i + j, seam);
        lemma_write_keeps_diagonal(c2, n, samples, count, i + j, i - j, current);
        lemma_write_keeps_wings(prev, n, samples, i, i + j, i - 1 - j, seam);
        lemma_write_keeps_wings(c1, n, samples, i, i - 1 - j, i + j, seam);
        lemma_write_keeps_wings(c2, n, samples, i, i + j, i - j, current);
        if j == 0 {
            lemma_cell_in_range(n, i - 1, i);
            lemma_write_keeps_diagonal(c3, n, samples, count, i - 1, i, current);
            lemma_write_keeps_wings(c3, n, samples, i, i - 1, i, current);
        } else {
            lemma_cell_in_range(n, i - j, i + j);
            lemma_write_keeps_diagonal(c3, n, samples, count, i - j, i + j, current);
            lemma_write_keeps_wings(c3, n, samples, i, i - j, i + j, current);
        }
        assert(grad_wings(c, n, i, seam, current, jcount) == grad_wing_at(
            prev,
            n,
            i,
            seam,
            current,
            j,
        ));
    }
}

/// One Gradient step extends the painted diagonal by one cell, paints both
/// wings of its own anti-diagonal with its sample, and touches no earlier
/// diagonal or wing cell with a foreign color.
proof fn lemma_grad_step(c: Seq<ColorSample>, n: int, samples: Seq<ColorSample>, i: int)
    requires
        c.len() == n * n,
        n == samples.len(),
        0 <= i < n,
        diagonal_matches(c, n, samples, i),
        wings_match(c, n, samples, i),
    ensures
        grad_step(c, n, samples, i).len() == n * n,
        diagonal_matches(grad_step(c, n, samples, i), n, samples, i + 1),
        wings_match(grad_step(c, n, samples, i), n, samples, i + 1),
    decreases i,
{
    let current = samples[i];
    let c1 = c.update(cell(n, i, i), current);
    lemma_cell_in_range(n, i, i);
    lemma_write_keeps_diagonal(c, n, samples, i, i, i, current);
    lemma_write_keeps_wings(c, n, samples, i, i, i, current);
    assert(c1[cell(n, i, i)] == current);
    if i > 0 {
        let seam = ColorSample::spec_blend(c1[cell(n, i - 1, i - 1)], c1[cell(n, i, i)]);
        lemma_grad_wings(c1, n, samples, i, seam, current, grad_range_len(n, i), i + 1);
        let c2 = grad_wings(c1, n, i, seam, current, grad_range_len(n, i));
        if i <= (n - 1) / 2 {
            assert(2 * i < n) by {
                assert(2 * ((n - 1) / 2) <= n - 1);
            }
            lemma_cell_in_range(n, 2 * i, 0);
            lemma_cell_in_range(n, 0, 2 * i);
            lemma_write_keeps_diagonal(c2, n, samples, i + 1, 2 * i, 0, current);
            lemma_write_keeps_diagonal(
                c2.update(cell(n, 2 * i, 0), current),
                n,
                samples,
                i + 1,
                0,
                2 * i,
                current,
            );
            lemma_write_keeps_wings(c2, n, samples, i, 2 * i, 0, current);
            lemma_write_keeps_wings(
                c2.update(cell(n, 2 * i, 0), current),
                n,
                samples,
                i,
                0,
                2 * i,
                current,
            );
        }
        let r = grad_step(c, n, samples, i);
        assert(wings_match(r, n, samples, i));
        assert forall|a: int, w: int|
            1 <= a < i + 1 && 0 <= w < grad_range_len(n, a) implies #[trigger] wing_ok(
            r,
            n,
            samples,
            a,
            w,
        ) by {
            lemma_wing_bounds(n, a, w);
            lemma_cell_in_range(n, a + w, a - w);
            lemma_cell_in_range(n, a - w, a + w);
            if a == i {
                lemma_grad_wings_paint(c1, n, i, seam, current, grad_range_len(n, i), w);
                assert(c2[cell(n, i + w, i - w)] == current);
                assert(c2[cell(n, i - w, i + w)] == current);
                if i <= (n - 1) / 2 {
                    if cell(n, i + w, i - w) == cell(n, 2 * i, 0) {
                        lemma_cell_injective(n, i + w, i - w, 2 * i, 0);
                    }
                    if cell(n, i - w, i + w) == cell(n, 2 * i, 0) {
                        lemma_cell_injective(n, i - w, i + w, 2 * i, 0);
                    }
                    if cell(n, i + w, i - w) == cell(n, 0, 2 * i) {
                        lemma_cell_injective(n, i + w, i - w, 0, 2 * i);
                    }
                    if cell(n, i - w, i + w) == cell(n, 0, 2 * i) {
                        lemma_cell_injective(n, i - w, i + w, 0, 2 * i);
                    }
                }
                assert(r[cell(n, i + w, i - w)] == current);
                assert(r[cell(n, i - w, i + w)] == current);
            } else {
                assert(wing_ok(r, n, samples, a, w));
            }
        }
    }
}

/// The first `count` Gradient steps paint the first `count` diagonal cells
/// and every wing cell of the first `count` anti-diagonals.
proof fn lemma_grad_steps(c: Seq<ColorSample>, n: int, samples: Seq<ColorSample>, count: int)
    requires
        c.len() == n * n,
        n == samples.len(),
        0 <= count <= n,
    ensures
        grad_steps(c, n, samples, count).len() == n * n,
        diagonal_matches(grad_steps(c, n, samples, count), n, samples, count),
        wings_match(grad_steps(c, n, samples, count), n, samples, count),
    decreases count,
{
    if count > 0 {
        lemma_grad_steps(c, n, samples, count - 1);
        lemma_grad_step(grad_steps(c, n, samples, count - 1), n, samples, count - 1);
    }
}

/// Law: the Gradient filler preserves the diagonal exactly, as Smooth does —
/// for every sample sequence, cell (i, i) of the rendered canvas holds the
/// i-th sample. (Unlike Smooth, symmetry is not guaranteed.)
pub proof fn lemma_gradient_diagonal(samples: Seq<ColorSample>, i: int)
    requires
        0 <= i < samples.len(),
    ensures
        spec_render(FillMethod::Gradient, samples)[cell(samples.len() as int, i, i)]
            == samples[i],
{
    let n = samples.len() as int;
    lemma_blank_symmetric(n);
    lemma_grad_steps(blank(samples.len()), n, samples, n);
}

/// Law: both wings radiating from the diagonal at each Gradient step hold
/// that step's sample — for every step i ≥ 1 and wing position j of its
/// half-width, cells (i + j, i - j) and (i - j, i + j) of the rendered
/// canvas hold the i-th sample; no later step repaints that anti-diagonal.
pub proof fn lemma_gradient_wings(samples: Seq<ColorSample>, i: int, j: int)
    requires
        1 <= i < samples.len(),
        0 <= j < grad_range_len(samples.len() as int, i),
    ensures
        spec_render(FillMethod::Gradient, samples)[cell(samples.len() as int, i + j, i - j)]
            == samples[i],
        spec_render(FillMethod::Gradient, samples)[cell(samples.len() as int, i - j, i + j)]
            == samples[i],
{
    let n = samples.len() as int;
    lemma_blank_symmetric(n);
    lemma_grad_steps(blank(samples.len()), n, samples, n);
    assert(wing_ok(spec_render(FillMethod::Gradient, samples), n, samples, i, j));
}

} // verus!
