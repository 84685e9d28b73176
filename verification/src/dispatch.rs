//! Splitting the picture into horizontal bands of pixel rows, one per worker,
//! and the order in which a worker visits the pixels of its band.
//!
//! Rows are numbered upwards: row 0 is the bottom of the picture and row
//! `image_height - 1` its top. Band `z` of `bands` holds the rows from
//! `band_edge(image_height, bands, z)` up to, but not including,
//! `band_edge(image_height, bands, z + 1)`.

use vstd::prelude::*;
use crate::image::band_views;
use crate::image::concat_descending;
use crate::image::Image;
use crate::image::Pixel;
use vstd::arithmetic::div_mod::lemma_fundamental_div_mod;
use vstd::arithmetic::mul::lemma_mul_inequality;
use vstd::arithmetic::mul::lemma_mul_is_commutative;

verus! {

/// Number of bands the renderer uses unless told otherwise.
pub const THREAD_NUM: usize = 4;

/// The least `q` with `q * d >= a`, for `d > 0`.
pub open spec fn ceil_div(a: nat, d: nat) -> nat {
    ((a + d - 1) / (d as int)) as nat
}

/// The first row of band `z`: `image_height * z / bands`, rounded up.
pub open spec fn band_edge(image_height: nat, bands: nat, z: nat) -> nat {
    ceil_div(image_height * z, bands)
}

/// `ceil_div(a, d)` times `d` reaches `a`, and overshoots by less than `d`.
pub proof fn lemma_ceil_div_reaches(a: nat, d: nat)
    requires
        d > 0,
    ensures
        a <= ceil_div(a, d) * d < a + d,
{
    let n = a + d - 1;
    let c = n / (d as int);
    lemma_fundamental_div_mod(n, d as int);
    assert(n == d * c + n % (d as int));
    assert(0 <= n % (d as int) < d);
    lemma_mul_is_commutative(d as int, c);
    assert(c >= 0) by (nonlinear_arith)
        requires
            c * d >= a,
            a >= 0,
            d > 0,
    ;
}

/// No multiplier of `d` below `ceil_div(a, d)` reaches `a`.
pub proof fn lemma_ceil_div_least(a: nat, d: nat, q: nat)
    requires
        d > 0,
        q * d >= a,
    ensures
        ceil_div(a, d) <= q,
{
    let c = ceil_div(a, d);
    lemma_ceil_div_reaches(a, d);
    if q < c {
        lemma_mul_inequality(q as int + 1, c as int, d as int);
        assert((q + 1) * d == q * d + d) by (nonlinear_arith);
        assert(false);
    }
}

/// The edges run from row 0 to `image_height` without going back, so the
/// bands are disjoint, lie in order and cover every row.
pub proof fn lemma_band_edges(image_height: nat, bands: nat, z: nat)
    requires
        bands > 0,
        z < bands,
    ensures
        band_edge(image_height, bands, 0) == 0,
        band_edge(image_height, bands, bands) == image_height,
        band_edge(image_height, bands, z) <= band_edge(image_height, bands, z + 1),
        band_edge(image_height, bands, z + 1) <= image_height,
{
    let h = image_height;
    assert(h * 0 == 0);
    assert(0nat * bands >= 0);
    lemma_ceil_div_least(0, bands, 0);
    // edge(bands) == h: h itself reaches h * bands, and nothing smaller does.
    let top = ceil_div(h * bands, bands);
    lemma_ceil_div_least(h * bands, bands, h);
    lemma_ceil_div_reaches(h * bands, bands);
    assert(top >= h) by (nonlinear_arith)
        requires
            top * bands >= h * bands,
            bands > 0,
    ;
    // edge(z) <= edge(z + 1): what reaches h * (z + 1) reaches h * z.
    let hi = ceil_div(h * (z + 1), bands);
    lemma_ceil_div_reaches(h * (z + 1), bands);
    assert(h * (z + 1) >= h * z) by (nonlinear_arith);
    lemma_ceil_div_least(h * z, bands, hi);
    // edge(z + 1) <= h: h reaches h * (z + 1), as z + 1 <= bands.
    assert(h * bands >= h * (z + 1)) by (nonlinear_arith)
        requires
            z + 1 <= bands,
    ;
    lemma_ceil_div_least(h * (z + 1), bands, h);
}

/// Every row of the picture lies in one band and in no other.
pub proof fn lemma_row_in_one_band(image_height: nat, bands: nat, row: nat) -> (z: nat)
    requires
        bands > 0,
        row < image_height,
    ensures
        z < bands,
        band_edge(image_height, bands, z) <= row < band_edge(image_height, bands, z + 1),
        forall|y: nat|
            y < bands && #[trigger] band_edge(image_height, bands, y) <= row < band_edge(
                image_height,
                bands,
                y + 1,
            ) ==> y == z,
{
    lemma_band_edges(image_height, bands, 0);
    let z = band_below(image_height, bands, row, bands);
    assert forall|y: nat|
        y < bands && #[trigger] band_edge(image_height, bands, y) <= row < band_edge(
            image_height,
            bands,
            y + 1,
        ) implies y == z by {
        if y < z {
            lemma_band_edges_ordered(image_height, bands, y + 1, z);
        } else if y > z {
            lemma_band_edges_ordered(image_height, bands, z + 1, y);
        }
    }
    z
}

/// A later edge is not below an earlier one.
proof fn lemma_band_edges_ordered(image_height: nat, bands: nat, y: nat, z: nat)
    requires
        bands > 0,
        y <= z,
    ensures
        band_edge(image_height, bands, y) <= band_edge(image_height, bands, z),
{
    let hi = ceil_div(image_height * z, bands);
    lemma_ceil_div_reaches(image_height * z, bands);
    assert(image_height * z >= image_height * y) by (nonlinear_arith)
        requires
            y <= z,
    ;
    lemma_ceil_div_least(image_height * y, bands, hi);
}

/// The band that holds `row`, looked for among the bands below `top`.
proof fn band_below(image_height: nat, bands: nat, row: nat, top: nat) -> (z: nat)
    requires
        0 < top <= bands,
        row < band_edge(image_height, bands, top),
    ensures
        z < top,
        band_edge(image_height, bands, z) <= row < band_edge(image_height, bands, z + 1),
    decreases top,
{
    let below = (top - 1) as nat;
    lemma_band_edges(image_height, bands, 0);
    if band_edge(image_height, bands, below) <= row {
        below
    } else {
        band_below(image_height, bands, row, below)
    }
}

/// Computes `band_edge` without overflow, in 128-bit arithmetic.
fn edge(image_height: usize, bands: usize, z: usize) -> (e: usize)
    requires
        bands > 0,
        z <= bands,
    ensures
        e == band_edge(image_height as nat, bands as nat, z as nat),
{
    let h: u128 = image_height as u128;
    let n: u128 = bands as u128;
    let k: u128 = z as u128;
    assert(h * k + (n - 1) <= u128::MAX) by (nonlinear_arith)
        requires
            0 <= h <= 0xffff_ffff_ffff_ffff,
            0 <= k <= n <= 0xffff_ffff_ffff_ffff,
    ;
    let q: u128 = (h * k + (n - 1)) / n;
    proof {
        if z > 0 {
            lemma_band_edges(image_height as nat, bands as nat, (z - 1) as nat);
        } else {
            lemma_band_edges(image_height as nat, bands as nat, 0);
        }
        assert(q == band_edge(image_height as nat, bands as nat, z as nat));
    }
    q as usize
}

/// The rows of band `z`: the first row of the band and the first row above it.
pub fn band_bounds(image_height: usize, bands: usize, z: usize) -> (rows: (usize, usize))
    requires
        bands > 0,
        z < bands,
    ensures
        rows.0 == band_edge(image_height as nat, bands as nat, z as nat),
        rows.1 == band_edge(image_height as nat, bands as nat, z as nat + 1),
        rows.0 <= rows.1 <= image_height,
{
    proof {
        lemma_band_edges(image_height as nat, bands as nat, z as nat);
    }
    (edge(image_height, bands, z), edge(image_height, bands, z + 1))
}

/// Where the pixel of `column` and `row` stands among the pixels of a band
/// whose rows end below `end`: after the rows above it, which come first, and
/// after the pixels to its left.
pub open spec fn scan_index(image_width: nat, end: nat, column: nat, row: nat) -> int {
    (end - 1 - row) * image_width + column
}

/// How many rows lie from `start` up to, but not including, `end`.
pub open spec fn row_count(start: nat, end: nat) -> nat {
    if start <= end {
        (end - start) as nat
    } else {
        0
    }
}

/// `pixels` holds rows `start` up to `end` of a picture `image_width` wide,
/// the highest row first and each row from left to right, and every pixel is
/// one that `shade` may return for its column and row.
pub open spec fn scanned<F: Fn(usize, usize) -> Pixel>(
    image_width: nat,
    start: nat,
    end: nat,
    pixels: Seq<Pixel>,
    shade: F,
) -> bool {
    &&& pixels.len() == row_count(start, end) * image_width
    &&& forall|i: usize, j: usize|
        i < image_width && start <= j < end ==> call_ensures(
            shade,
            (i, j),
            pixels[#[trigger] scan_index(image_width, end, i as nat, j as nat)],
        )
}

/// Every pixel of the band has a place of its own inside the band.
pub proof fn lemma_scan_index_bounds(
    image_width: nat,
    start: nat,
    end: nat,
    column: nat,
    row: nat,
)
    requires
        column < image_width,
        start <= row < end,
    ensures
        0 <= scan_index(image_width, end, column, row) < (end - start) * image_width,
{
    let above = end - 1 - row;
    assert(0 <= above * image_width && (above + 1) * image_width <= (end - start) * image_width)
        by (nonlinear_arith)
        requires
            0 <= above <= end - start - 1,
    ;
    assert((above + 1) * image_width == above * image_width + image_width) by (nonlinear_arith);
}

/// Renders rows `start` up to `end`: from the highest row down, each row from
/// left to right, one call of `shade` with the column and the row of each pixel.
pub fn render_band<F: Fn(usize, usize) -> Pixel>(
    image_width: usize,
    start: usize,
    end: usize,
    shade: &F,
) -> (band: Vec<Pixel>)
    requires
        forall|i: usize, j: usize|
            i < image_width && start <= j < end ==> call_requires(shade, (i, j)),
    ensures
        scanned(image_width as nat, start as nat, end as nat, band@, *shade),
{
    let mut band: Vec<Pixel> = Vec::new();
    let mut j: usize = end;
    assert(row_count(end as nat, end as nat) == 0);
    assert(0 * image_width == 0);
    while j > start
        invariant
            j <= end,
            start <= j || j == end,
            forall|i: usize, j: usize|
                i < image_width && start <= j < end ==> call_requires(shade, (i, j)),
            scanned(image_width as nat, j as nat, end as nat, band@, *shade),
        decreases j,
    {
        j = j - 1;
        let mut i: usize = 0;
        while i < image_width
            invariant
                start <= j < end,
                i <= image_width,
                forall|i: usize, j: usize|
                    i < image_width && start <= j < end ==> call_requires(shade, (i, j)),
                band@.len() == (end - 1 - j) * image_width + i,
                forall|c: usize, r: usize|
                    c < image_width && (j < r < end || (r == j && c < i)) ==> call_ensures(
                        shade,
                        (c, r),
                        band@[#[trigger] scan_index(
                            image_width as nat,
                            end as nat,
                            c as nat,
                            r as nat,
                        )],
                    ),
            decreases image_width - i,
        {
            let p = shade(i, j);
            proof {
                assert forall|c: usize, r: usize|
                    c < image_width && (j < r < end || (r == j && c < i)) implies scan_index(
                    image_width as nat,
                    end as nat,
                    c as nat,
                    r as nat,
                ) < band@.len() by {
                    if r > j {
                        lemma_scan_index_bounds(
                            image_width as nat,
                            j as nat + 1,
                            end as nat,
                            c as nat,
                            r as nat,
                        );
                    }
                }
            }
            band.push(p);
            i = i + 1;
        }
        assert((end - 1 - j) * image_width + image_width == (end - j) * image_width)
            by (nonlinear_arith);
    }
    assert(row_count(start as nat, end as nat) == row_count(j as nat, end as nat));
    band
}

/// A band set on top of the band below it is one band: in file order the
/// higher rows come first.
pub proof fn lemma_stack_bands<F: Fn(usize, usize) -> Pixel>(
    image_width: nat,
    start: nat,
    middle: nat,
    end: nat,
    lower: Seq<Pixel>,
    upper: Seq<Pixel>,
    shade: F,
)
    requires
        start <= middle <= end,
        scanned(image_width, start, middle, lower, shade),
        scanned(image_width, middle, end, upper, shade),
    ensures
        scanned(image_width, start, end, upper + lower, shade),
{
    let both = upper + lower;
    assert((end - middle) * image_width + (middle - start) * image_width == (end - start)
        * image_width) by (nonlinear_arith);
    assert forall|i: usize, j: usize| i < image_width && start <= j < end implies call_ensures(
        shade,
        (i, j),
        both[#[trigger] scan_index(image_width, end, i as nat, j as nat)],
    ) by {
        let at = scan_index(image_width, end, i as nat, j as nat);
        if j >= middle {
            lemma_scan_index_bounds(image_width, middle, end, i as nat, j as nat);
            assert(both[at] == upper[at]);
        } else {
            let below = scan_index(image_width, middle, i as nat, j as nat);
            lemma_scan_index_bounds(image_width, start, middle, i as nat, j as nat);
            assert(at == upper.len() + below) by (nonlinear_arith)
                requires
                    at == (end - 1 - j) * image_width + i,
                    below == (middle - 1 - j) * image_width + i,
                    upper.len() == (end - middle) * image_width,
            ;
            assert(both[at] == lower[below]);
        }
    }
}

/// Bands `from` and up, each rendered over its own rows and laid end to end
/// from the last down, hold the rows from the first edge to the top.
proof fn lemma_stack_from<F: Fn(usize, usize) -> Pixel>(
    image_width: nat,
    image_height: nat,
    bands: Seq<Seq<Pixel>>,
    from: nat,
    shade: F,
)
    requires
        from <= bands.len(),
        bands.len() > 0,
        forall|z: int|
            from <= z < bands.len() ==> scanned(
                image_width,
                band_edge(image_height, bands.len(), z as nat),
                band_edge(image_height, bands.len(), z as nat + 1),
                #[trigger] bands[z],
                shade,
            ),
    ensures
        scanned(
            image_width,
            band_edge(image_height, bands.len(), from),
            image_height,
            concat_descending(bands.skip(from as int)),
            shade,
        ),
    decreases bands.len() - from,
{
    let n = bands.len();
    let rest = bands.skip(from as int);
    lemma_band_edges(image_height, n, 0);
    if from == n {
        assert(concat_descending(rest) =~= Seq::<Pixel>::empty());
        assert((image_height - image_height) * image_width == 0);
    } else {
        lemma_stack_from(image_width, image_height, bands, from + 1, shade);
        lemma_band_edges(image_height, n, from);
        assert(rest.skip(1) =~= bands.skip(from as int + 1));
        assert(rest[0] == bands[from as int]);
        lemma_stack_bands(
            image_width,
            band_edge(image_height, n, from),
            band_edge(image_height, n, from + 1),
            image_height,
            bands[from as int],
            concat_descending(bands.skip(from as int + 1)),
            shade,
        );
    }
}

/// Where every band was rendered over its own rows, the assembled picture
/// holds every row of the picture, from the top row down.
pub proof fn lemma_assembled_picture<F: Fn(usize, usize) -> Pixel>(
    image_width: nat,
    image_height: nat,
    bands: Seq<Seq<Pixel>>,
    shade: F,
)
    requires
        bands.len() > 0,
        forall|z: int|
            0 <= z < bands.len() ==> scanned(
                image_width,
                band_edge(image_height, bands.len(), z as nat),
                band_edge(image_height, bands.len(), z as nat + 1),
                #[trigger] bands[z],
                shade,
            ),
    ensures
        scanned(image_width, 0, image_height, concat_descending(bands), shade),
{
    lemma_band_edges(image_height, bands.len(), 0);
    lemma_stack_from(image_width, image_height, bands, 0, shade);
    assert(bands.skip(0) =~= bands);
}

impl Image {
    /// Renders the whole picture band by band and assembles it. The pixel of
    /// column `i` and row `j`, rows counted upwards from the bottom, is what
    /// `shade(i, j)` returned, and stands in scanline `image_height - 1 - j` of
    /// the picture.
    pub fn render_scene<F: Fn(usize, usize) -> Pixel>(
        image_width: usize,
        image_height: usize,
        bands: usize,
        shade: F,
    ) -> (image: Image)
        requires
            bands > 0,
            forall|i: usize, j: usize|
                i < image_width && j < image_height ==> call_requires(shade, (i, j)),
        ensures
            image.width() == image_width,
            image.height() == image_height,
            image.wf(),
            scanned(image_width as nat, 0, image_height as nat, image@, shade),
    {
        let mut parts: Vec<Vec<Pixel>> = Vec::new();
        let mut z: usize = 0;
        while z < bands
            invariant
                z <= bands,
                parts.len() == z,
                forall|i: usize, j: usize|
                    i < image_width && j < image_height ==> call_requires(shade, (i, j)),
                forall|k: int|
                    0 <= k < z ==> scanned(
                        image_width as nat,
                        band_edge(image_height as nat, bands as nat, k as nat),
                        band_edge(image_height as nat, bands as nat, k as nat + 1),
                        (#[trigger] parts[k])@,
                        shade,
                    ),
            decreases bands - z,
        {
            let (start, end) = band_bounds(image_height, bands, z);
            let band = render_band(image_width, start, end, &shade);
            parts.push(band);
            z = z + 1;
        }
        proof {
            let views = band_views(parts@);
            assert forall|k: int| 0 <= k < views.len() implies scanned(
                image_width as nat,
                band_edge(image_height as nat, views.len(), k as nat),
                band_edge(image_height as nat, views.len(), k as nat + 1),
                #[trigger] views[k],
                shade,
            ) by {
                assert(views[k] == parts[k]@);
            }
            lemma_assembled_picture(image_width as nat, image_height as nat, views, shade);
        }
        Image::assemble(image_width, image_height, &parts)
    }
}

} // verus!
